//! The project wide list of bookmarks: what each row shows, what is searched, how the matches
//! are ordered, and what choosing one opens.

use crate::order;
use crate::position::Point;
use crate::text;
use std::ops::Range;
use vstd::prelude::*;
use vstd::string::*;

verus! {

/// How many matches a search returns at most.
pub const MAX_MATCHES: usize = 100;

/// A bookmark of the project. `P` is how the host holds a path.
#[derive(Debug, PartialEq, Eq)]
pub struct ProjectBookmark<P> {
    pub abs_path: P,
    pub row: u32,
    pub name: String,
}

/// A bookmark with what is known of its path: the short path within the project, where it
/// belongs to one, and the whole path as text.
#[derive(Debug, PartialEq, Eq)]
pub struct ListedBookmark<P> {
    pub bookmark: ProjectBookmark<P>,
    pub short_path: Option<String>,
    pub full_path: String,
}

impl<P> ListedBookmark<P> {
    /// The path that is shown for the bookmark.
    pub open spec fn shown_path(self) -> Seq<char> {
        match self.short_path {
            Some(short_path) => short_path@,
            None => self.full_path@,
        }
    }
}

/// A row of the list: a bookmark, what is shown for it, and the text in which it is searched.
#[derive(Debug, PartialEq, Eq)]
pub struct BookmarkMatch<P> {
    pub bookmark: ProjectBookmark<P>,
    pub name: String,
    pub display_path: String,
    pub filter_text: String,
    pub name_range: Range<usize>,
    pub path_range: Range<usize>,
    pub line_number: u32,
}

/// What stands before the path in the searched text: the name and a space, or nothing.
pub open spec fn before_path(name: Seq<char>) -> Seq<char> {
    if name.len() == 0 {
        name
    } else {
        name.push(' ')
    }
}

/// The text in which a bookmark is searched: its name, if it has one, and its path with slashes.
pub open spec fn searched_text(name: Seq<char>, path: Seq<char>) -> Seq<char> {
    before_path(name) + text::forward_slashes(path)
}

impl<P> BookmarkMatch<P> {
    /// Whether the parts of the row agree with each other.
    pub open spec fn wf(self) -> bool {
        &&& self.name@ == self.bookmark.name@
        &&& self.line_number == self.bookmark.row + 1
        &&& self.filter_text@ == searched_text(self.name@, self.display_path@)
        &&& self.name_range.start == 0
        &&& self.name_range.end == text::byte_len(self.name@)
        &&& self.path_range.start == text::byte_len(before_path(self.name@))
        &&& self.path_range.end == text::byte_len(self.filter_text@)
    }

    /// Whether this is the row for `listed`.
    pub open spec fn shows(self, listed: ListedBookmark<P>) -> bool {
        &&& self.wf()
        &&& self.bookmark == listed.bookmark
        &&& self.display_path@ == listed.shown_path()
    }

    /// The row for `listed`. Lines are numbered from one, so the row must not be the largest
    /// number there is.
    pub fn new(listed: ListedBookmark<P>) -> (row: Self)
        requires
            listed.bookmark.row < u32::MAX,
        ensures
            row.shows(listed),
    {
        let ListedBookmark { bookmark, short_path, full_path } = listed;
        let display_path = match short_path {
            Some(short_path) => short_path,
            None => full_path,
        };
        let line_number: u32 = bookmark.row + 1;
        let normalized_path = text::with_forward_slashes(display_path.as_str());
        let name_end: usize = text::byte_length(bookmark.name.as_str());
        let mut filter_text = bookmark.name.clone();
        if !filter_text.as_str().is_empty() {
            filter_text.push(' ');
        }
        let path_start: usize = text::byte_length(filter_text.as_str());
        filter_text.append(normalized_path.as_str());
        let path_end: usize = text::byte_length(filter_text.as_str());
        BookmarkMatch {
            name: bookmark.name.clone(),
            bookmark,
            display_path,
            filter_text,
            name_range: 0..name_end,
            path_range: path_start..path_end,
            line_number,
        }
    }
}

/// A text to search, with its place in the list.
#[derive(Debug, PartialEq, Eq)]
pub struct StringMatchCandidate {
    pub id: usize,
    pub string: String,
}

/// A candidate that matched, with the byte positions of the matching characters.
#[derive(Debug, PartialEq, Eq)]
pub struct StringMatch {
    pub candidate_id: usize,
    pub positions: Vec<usize>,
    pub string: String,
}

/// A fuzzy search over the candidates that the host is to run.
#[derive(Debug, PartialEq, Eq)]
pub struct FuzzyQuery {
    pub query: String,
    pub smart_case: bool,
    pub penalize_length: bool,
    pub max_results: usize,
}

/// The list of bookmarks and the matches of the current search.
#[derive(Debug, PartialEq, Eq)]
pub struct ProjectBookmarksDelegate<P> {
    pub selected_match_index: usize,
    pub bookmarks: Vec<BookmarkMatch<P>>,
    pub candidates: Vec<StringMatchCandidate>,
    pub matches: Vec<StringMatch>,
}

/// Whether row `x` is listed before row `y` or level with it: by path, then by line.
pub open spec fn listed_up_to<P>(x: BookmarkMatch<P>, y: BookmarkMatch<P>) -> bool {
    ||| text::text_before(x.display_path@, y.display_path@)
    ||| x.display_path@ == y.display_path@ && x.line_number <= y.line_number
}

/// The order of the list on its rows.
pub open spec fn row_order<P>(bookmarks: Seq<BookmarkMatch<P>>) -> spec_fn(int, int) -> bool {
    |a: int, b: int| listed_up_to(bookmarks[a], bookmarks[b])
}

/// The order of the list on the rows to which `ids` refers.
pub open spec fn listing<P>(bookmarks: Seq<BookmarkMatch<P>>, ids: Seq<usize>) -> spec_fn(
    int,
    int,
) -> bool {
    |a: int, b: int| listed_up_to(bookmarks[ids[a] as int], bookmarks[ids[b] as int])
}

/// The rows to which `matches` refers.
pub open spec fn ids(matches: Seq<StringMatch>) -> Seq<usize> {
    matches.map_values(|m: StringMatch| m.candidate_id)
}

/// What was listed, where the store could be read, else nothing.
pub open spec fn listed_or_none<P>(listed: Option<Vec<ListedBookmark<P>>>) -> Seq<
    ListedBookmark<P>,
> {
    match listed {
        Some(listed) => listed@,
        None => Seq::empty(),
    }
}

/// Whether every match refers to one of `n` rows.
pub open spec fn refers_to_rows(matches: Seq<StringMatch>, n: nat) -> bool {
    forall|i: int| 0 <= i < matches.len() ==> (#[trigger] matches[i]).candidate_id < n
}

/// Whether `sorted` is `matches` in the order of the list, matches that are level with each other
/// as they came.
pub open spec fn is_listed<P>(
    sorted: Seq<StringMatch>,
    matches: Seq<StringMatch>,
    bookmarks: Seq<BookmarkMatch<P>>,
) -> bool {
    exists|places: Seq<usize>|
        order::is_stable_order(places, matches.len(), listing(bookmarks, ids(matches))) && sorted
            == order::arranged(matches, places)
}

impl<P> BookmarkMatch<P> {
    /// Whether this row is listed before `other` or level with it.
    fn is_listed_up_to(&self, other: &Self) -> (r: bool)
        ensures
            r == listed_up_to(*self, *other),
    {
        let path: &str = self.display_path.as_str();
        let other_path: &str = other.display_path.as_str();
        if text::sorts_before(path, other_path) {
            return true;
        }
        self.display_path == other.display_path && self.line_number <= other.line_number
    }
}

/// The order of the list compares all rows.
pub proof fn lemma_row_order_is_ranking<P>(bookmarks: Seq<BookmarkMatch<P>>, n: int)
    ensures
        order::is_ranking(row_order(bookmarks), n),
{
    let up_to = row_order(bookmarks);
    let path = |a: int| bookmarks[a].display_path@;
    assert forall|a: int, b: int|
        #![trigger up_to(a, b)]
        0 <= a < n && 0 <= b < n implies up_to(a, b) || up_to(b, a) by {
        text::law_text_order_is_total(path(a), path(b), path(a));
    }
    assert forall|a: int, b: int, c: int|
        #![trigger up_to(a, b), up_to(b, c)]
        0 <= a < n && 0 <= b < n && 0 <= c < n && up_to(a, b) && up_to(b, c) implies up_to(
        a,
        c,
    ) by {
        text::law_text_order_is_total(path(a), path(b), path(c));
    }
}

/// The order of the list compares all rows to which `ids` refers.
pub proof fn lemma_listing_is_ranking<P>(bookmarks: Seq<BookmarkMatch<P>>, ids: Seq<usize>)
    ensures
        order::is_ranking(listing(bookmarks, ids), ids.len() as int),
{
    let up_to = listing(bookmarks, ids);
    let rows = order::arranged(bookmarks, ids);
    let n = ids.len() as int;
    lemma_row_order_is_ranking(rows, n);
    assert forall|a: int, b: int| 0 <= a < n && 0 <= b < n implies #[trigger] up_to(a, b)
        == row_order(rows)(a, b) by {}
    assert forall|a: int, b: int|
        #![trigger up_to(a, b)]
        0 <= a < n && 0 <= b < n implies up_to(a, b) || up_to(b, a) by {
        assert(row_order(rows)(a, b) || row_order(rows)(b, a));
    }
}

/// `matches` in the order of the list.
fn in_listing_order<P>(matches: Vec<StringMatch>, bookmarks: &Vec<BookmarkMatch<P>>) -> (r: Vec<
    StringMatch,
>)
    requires
        matches@.len() > 1 ==> refers_to_rows(matches@, bookmarks@.len()),
    ensures
        is_listed(r@, matches@, bookmarks@),
{
    let n: usize = matches.len();
    let ghost up_to = listing(bookmarks@, ids(matches@));
    proof {
        lemma_listing_is_ranking(bookmarks@, ids(matches@));
    }
    if n <= 1 {
        proof {
            let as_it_is: Seq<usize> = if n == 0 { Seq::empty() } else { seq![0usize] };
            assert(order::is_stable_order(as_it_is, n as nat, up_to));
            assert(matches@ =~= order::arranged(matches@, as_it_is));
        }
        return matches;
    }
    let compare = |a: usize, b: usize| -> (r: bool)
        requires
            a < matches@.len(),
            b < matches@.len(),
            refers_to_rows(matches@, bookmarks@.len()),
        ensures
            r == listed_up_to(
                bookmarks@[matches@[a as int].candidate_id as int],
                bookmarks@[matches@[b as int].candidate_id as int],
            ),
        {
            bookmarks[matches[a].candidate_id].is_listed_up_to(&bookmarks[matches[b].candidate_id])
        };
    let sorted = order::stable_order(n, compare, Ghost(up_to));
    order::arrange(matches, &sorted)
}

/// The pane in which a bookmark is opened.
#[derive(Clone, Copy, Debug, PartialEq, Eq, Structural)]
pub enum Pane {
    Active,
    Adjacent,
}

/// A bookmark that is being opened.
#[derive(Debug, PartialEq, Eq)]
pub struct BookmarkOpening<'a, P> {
    pub bookmark: &'a ProjectBookmark<P>,
    pub pane: Pane,
}

/// Something that the host does on behalf of the list.
#[derive(Debug, PartialEq, Eq)]
pub enum ListEffect<'a, P> {
    /// Starts to open a bookmark's buffer as an item of its pane.
    Open {
        opening: BookmarkOpening<'a, P>,
        /// Whether the pane becomes the active one.
        activate_pane: bool,
        /// Whether the item gets the keyboard focus.
        focus_item: bool,
        /// Whether an item that the pane shows as a preview stays.
        keep_old_preview: bool,
        /// Whether the item may be shown as a preview.
        allow_new_preview: bool,
    },
    /// Closes the list.
    Dismiss,
}

impl<'a, P> BookmarkOpening<'a, P> {
    /// Where the cursor goes in the buffer that was opened, whose last position is `max_point`:
    /// the start of the bookmark's row. `None` leaves the cursor where it is: the editor shows
    /// more than one buffer, or the row is beyond the end.
    pub fn cursor(&self, max_point: Option<Point>) -> (point: Option<Point>)
        ensures
            point == match max_point {
                Some(max_point) if self.bookmark.row <= max_point.row => Some(
                    Point { row: self.bookmark.row, column: 0 },
                ),
                _ => None::<Point>,
            },
    {
        let max_point: Point = max_point?;
        let point = Point::row_start(self.bookmark.row);
        if !point.is_up_to(&max_point) {
            return None;
        }
        Some(point)
    }
}

/// A text with the byte positions of the characters to highlight in it.
#[derive(Debug, PartialEq, Eq)]
pub struct HighlightedText {
    pub text: String,
    pub positions: Vec<usize>,
}

/// What is drawn for a match: the name, unless it is empty, and the path with the line number.
#[derive(Debug, PartialEq, Eq)]
pub struct MatchItem {
    pub ix: usize,
    pub selected: bool,
    pub name: Option<HighlightedText>,
    pub path: HighlightedText,
}

impl MatchItem {
    /// Whether this is what is drawn at place `ix` for `row`, matched at `positions`.
    pub open spec fn draws<P>(
        self,
        row: BookmarkMatch<P>,
        positions: Seq<usize>,
        ix: usize,
        selected: bool,
    ) -> bool {
        &&& self.ix == ix
        &&& self.selected == selected
        &&& self.name is None <==> row.name@.len() == 0
        &&& self.name matches Some(name) ==> {
            &&& name.text@ == row.name@
            &&& name.positions@ == highlights(positions, row.name_range.start, row.name_range.end)
        }
        &&& self.path.text@ == row.display_path@.push(':') + text::decimal(
            row.line_number as nat,
        )
        &&& self.path.positions@ == highlights(
            positions,
            row.path_range.start,
            row.path_range.end,
        )
    }
}

/// The `positions` from `start` up to `end`, counted from `start`.
pub open spec fn highlights(positions: Seq<usize>, start: usize, end: usize) -> Seq<usize> {
    positions.filter(|p: usize| start <= p < end).map_values(|p: usize| (p - start) as usize)
}

proof fn lemma_no_highlights(positions: Seq<usize>, start: usize, end: usize)
    requires
        positions.len() == 0,
    ensures
        highlights(positions, start, end) == Seq::<usize>::empty(),
{
    reveal(Seq::filter);
    assert(highlights(positions, start, end) =~= Seq::<usize>::empty());
}

proof fn lemma_highlights_push(positions: Seq<usize>, p: usize, start: usize, end: usize)
    ensures
        highlights(positions.push(p), start, end) == if start <= p < end {
            highlights(positions, start, end).push((p - start) as usize)
        } else {
            highlights(positions, start, end)
        },
{
    reveal(Seq::filter);
    assert(positions.push(p).drop_last() =~= positions);
    if start <= p < end {
        assert(highlights(positions.push(p), start, end) =~= highlights(
            positions,
            start,
            end,
        ).push((p - start) as usize));
    }
}

impl<P> ProjectBookmarksDelegate<P> {
    /// Whether the candidates are the searched texts of the rows, each with its row's place.
    pub open spec fn wf(self) -> bool {
        &&& self.candidates@.len() == self.bookmarks@.len()
        &&& forall|i: int|
            #![trigger self.bookmarks@[i]]
            #![trigger self.candidates@[i]]
            0 <= i < self.bookmarks@.len() ==> {
                &&& self.bookmarks@[i].wf()
                &&& self.candidates@[i].id == i
                &&& self.candidates@[i].string@ == self.bookmarks@[i].filter_text@
            }
    }

    /// Whether the rows are those for `listed`, in order.
    pub open spec fn lists(self, listed: Seq<ListedBookmark<P>>) -> bool {
        &&& self.wf()
        &&& self.bookmarks@.len() == listed.len()
        &&& forall|i: int|
            0 <= i < listed.len() ==> (#[trigger] self.bookmarks@[i]).shows(listed[i])
    }

    /// The bookmark at place `index` of the matches, where there is one.
    pub open spec fn bookmark_at(self, index: int) -> Option<BookmarkMatch<P>> {
        if 0 <= index < self.matches@.len() && self.matches@[index].candidate_id
            < self.bookmarks@.len() {
            Some(self.bookmarks@[self.matches@[index].candidate_id as int])
        } else {
            None
        }
    }

    /// What choosing the selected match does.
    pub open spec fn confirmed<'a>(self, secondary: bool) -> Seq<ListEffect<'a, P>> {
        match self.bookmark_at(self.selected_match_index as int) {
            Some(row) => seq![
                ListEffect::Open {
                    opening: BookmarkOpening {
                        bookmark: &row.bookmark,
                        pane: if secondary {
                            Pane::Adjacent
                        } else {
                            Pane::Active
                        },
                    },
                    activate_pane: true,
                    focus_item: true,
                    keep_old_preview: true,
                    allow_new_preview: true,
                },
                ListEffect::Dismiss,
            ],
            None => Seq::empty(),
        }
    }

    /// The matches of the empty search: the first bookmarks, as many as a search returns at most,
    /// in the order of the list, with nothing highlighted.
    pub open spec fn matches_first(self) -> bool {
        let n = if self.bookmarks@.len() < MAX_MATCHES {
            self.bookmarks@.len()
        } else {
            MAX_MATCHES as nat
        };
        &&& order::is_stable_order(ids(self.matches@), n, row_order(self.bookmarks@))
        &&& forall|i: int|
            #![trigger self.matches@[i]]
            0 <= i < n ==> {
                &&& self.matches@[i].positions@ == Seq::<usize>::empty()
                &&& self.matches@[i].string@
                    == self.bookmarks@[self.matches@[i].candidate_id as int].filter_text@
            }
    }

    /// Whether replacing the rows of `self` by those for `listed` leads to `after`.
    pub open spec fn relisted(self, listed: Seq<ListedBookmark<P>>, after: Self) -> bool {
        &&& after.lists(listed)
        &&& after.matches == self.matches
        &&& after.selected_match_index == self.selected_match_index
    }

    /// Whether searching `self` for `query` leads to `after`, with `search` left to be run: the
    /// empty query is answered at once; for any other, nothing changes until the matches are
    /// there.
    pub open spec fn searched(self, query: Seq<char>, search: Option<FuzzyQuery>, after: Self) -> bool {
        &&& after.bookmarks == self.bookmarks
        &&& after.candidates == self.candidates
        &&& search is None <==> query.len() == 0
        &&& search is None ==> after.matches_first() && after.selected_match_index == 0
        &&& search matches Some(search) ==> {
            &&& after == self
            &&& search.query@ == query
            &&& !search.smart_case
            &&& search.penalize_length
            &&& search.max_results == MAX_MATCHES
        }
    }

    /// Whether taking over `found` as the matches of `self` leads to `after`.
    pub open spec fn took_over(self, found: Seq<StringMatch>, after: Self) -> bool {
        &&& is_listed(after.matches@, found, self.bookmarks@)
        &&& after.selected_match_index == 0
        &&& after.bookmarks == self.bookmarks
        &&& after.candidates == self.candidates
    }

    /// An empty list.
    pub fn new() -> (delegate: Self)
        ensures
            delegate.wf(),
            delegate.selected_match_index == 0,
            delegate.bookmarks@.len() == 0,
            delegate.matches@.len() == 0,
    {
        ProjectBookmarksDelegate {
            selected_match_index: 0,
            bookmarks: Vec::new(),
            candidates: Vec::new(),
            matches: Vec::new(),
        }
    }

    /// Replaces the rows of the list by those for `listed`. The matches stay as they are, so some
    /// of them may refer to no row until the next search.
    pub fn set_bookmarks(&mut self, listed: Vec<ListedBookmark<P>>)
        requires
            forall|i: int|
                0 <= i < listed@.len() ==> (#[trigger] listed@[i]).bookmark.row < u32::MAX,
        ensures
            old(self).relisted(listed@, *final(self)),
    {
        let ghost all = listed@;
        let mut bookmarks: Vec<BookmarkMatch<P>> = Vec::new();
        for one in iter: listed
            invariant
                iter.seq() == all,
                forall|i: int| 0 <= i < all.len() ==> (#[trigger] all[i]).bookmark.row < u32::MAX,
                bookmarks@.len() == iter.index(),
                forall|i: int|
                    0 <= i < bookmarks@.len() ==> (#[trigger] bookmarks@[i]).shows(all[i]),
        {
            bookmarks.push(BookmarkMatch::new(one));
        }
        let n: usize = bookmarks.len();
        let mut candidates: Vec<StringMatchCandidate> = Vec::new();
        let mut i: usize = 0;
        while i < n
            invariant
                i <= n == bookmarks@.len(),
                candidates@.len() == i,
                forall|j: int|
                    #![trigger candidates@[j]]
                    0 <= j < i ==> candidates@[j].id == j && candidates@[j].string@
                        == bookmarks@[j].filter_text@,
            decreases n - i,
        {
            candidates.push(StringMatchCandidate { id: i, string: bookmarks[i].filter_text.clone() });
            i = i + 1;
        }
        self.bookmarks = bookmarks;
        self.candidates = candidates;
    }

    /// Searches for `query`. The empty query matches the first bookmarks and is answered at once;
    /// for any other query nothing changes yet, and the fuzzy search to run is returned, whose
    /// result goes to `set_matches`.
    pub fn filter(&mut self, query: &str) -> (search: Option<FuzzyQuery>)
        requires
            old(self).wf(),
        ensures
            final(self).wf(),
            old(self).searched(query@, search, *final(self)),
    {
        if !query.is_empty() {
            return Some(
                FuzzyQuery {
                    query: query.to_owned(),
                    smart_case: false,
                    penalize_length: true,
                    max_results: MAX_MATCHES,
                },
            );
        }
        let n: usize = if self.candidates.len() < MAX_MATCHES {
            self.candidates.len()
        } else {
            MAX_MATCHES
        };
        let mut matches: Vec<StringMatch> = Vec::new();
        let mut i: usize = 0;
        while i < n
            invariant
                *self == *old(self),
                self.wf(),
                i <= n <= self.candidates@.len(),
                matches@.len() == i,
                forall|j: int|
                    #![trigger matches@[j]]
                    0 <= j < i ==> {
                        &&& matches@[j].candidate_id == j
                        &&& matches@[j].positions@ == Seq::<usize>::empty()
                        &&& matches@[j].string@ == self.bookmarks@[j].filter_text@
                    },
            decreases n - i,
        {
            matches.push(
                StringMatch {
                    candidate_id: self.candidates[i].id,
                    positions: Vec::new(),
                    string: self.candidates[i].string.clone(),
                },
            );
            i = i + 1;
        }
        let ghost first = matches@;
        let ghost bookmarks = self.bookmarks@;
        self.set_matches(matches);
        proof {
            let sorted = choose|sorted: Seq<usize>|
                order::is_stable_order(sorted, n as nat, listing(bookmarks, ids(first)))
                    && self.matches@ == order::arranged(first, sorted);
            let direct = row_order(self.bookmarks@);
            assert(ids(self.matches@) =~= sorted);
            assert forall|i: int, j: int|
                #![trigger sorted[i], sorted[j]]
                0 <= i < j < n implies order::goes_before(
                direct,
                sorted[i] as int,
                sorted[j] as int,
            ) by {
                assert(order::goes_before(
                    listing(bookmarks, ids(first)),
                    sorted[i] as int,
                    sorted[j] as int,
                ));
            }
        }
        None
    }

    /// Takes over the matches of a search, in the order of the list, and selects the first.
    pub fn set_matches(&mut self, matches: Vec<StringMatch>)
        requires
            matches@.len() > 1 ==> refers_to_rows(matches@, old(self).bookmarks@.len()),
        ensures
            old(self).took_over(matches@, *final(self)),
    {
        self.matches = in_listing_order(matches, &self.bookmarks);
        self.set_selected_index(0);
    }

    /// The positions of `string_match` that fall into `range`, counted from its start.
    pub fn highlight_positions_for_range(string_match: &StringMatch, range: Range<usize>) -> (r:
        Vec<usize>)
        ensures
            r@ == highlights(string_match.positions@, range.start, range.end),
    {
        let positions: &Vec<usize> = &string_match.positions;
        let start: usize = range.start;
        let end: usize = range.end;
        let mut r: Vec<usize> = Vec::new();
        let mut i: usize = 0;
        proof {
            lemma_no_highlights(positions@.take(0), start, end);
        }
        while i < positions.len()
            invariant
                i <= positions@.len(),
                r@ == highlights(positions@.take(i as int), start, end),
            decreases positions@.len() - i,
        {
            let position: usize = positions[i];
            proof {
                assert(positions@.take(i + 1) =~= positions@.take(i as int).push(position));
                lemma_highlights_push(positions@.take(i as int), position, start, end);
            }
            if start <= position && position < end {
                r.push(position - start);
            }
            i = i + 1;
        }
        proof {
            assert(positions@.take(i as int) =~= positions@);
        }
        r
    }

    /// The text in the empty search field.
    pub fn placeholder_text(&self) -> (r: &'static str)
        ensures
            r@ == "Search project bookmarks..."@,
    {
        "Search project bookmarks..."
    }

    /// What choosing the selected match does: its bookmark is opened and the list is dismissed,
    /// whatever comes of the opening; nothing where the match refers to no bookmark.
    pub fn confirm(&self, secondary: bool) -> (effects: Vec<ListEffect<'_, P>>)
        ensures
            effects@ == self.confirmed(secondary),
    {
        let mut effects: Vec<ListEffect<'_, P>> = Vec::new();
        let ix: usize = self.selected_match_index;
        if ix < self.matches.len() && self.matches[ix].candidate_id < self.bookmarks.len() {
            let row: &BookmarkMatch<P> = &self.bookmarks[self.matches[ix].candidate_id];
            let pane = if secondary {
                Pane::Adjacent
            } else {
                Pane::Active
            };
            effects.push(
                ListEffect::Open {
                    opening: BookmarkOpening { bookmark: &row.bookmark, pane },
                    activate_pane: true,
                    focus_item: true,
                    keep_old_preview: true,
                    allow_new_preview: true,
                },
            );
            effects.push(ListEffect::Dismiss);
        }
        proof {
            assert(effects@ =~= self.confirmed(secondary));
        }
        effects
    }

    /// How many matches there are.
    pub fn match_count(&self) -> (n: usize)
        ensures
            n == self.matches@.len(),
    {
        self.matches.len()
    }

    /// The place of the selected match.
    pub fn selected_index(&self) -> (ix: usize)
        ensures
            ix == self.selected_match_index,
    {
        self.selected_match_index
    }

    /// Lists `listed` anew, or nothing where the store could not be read, and searches for
    /// `query` as `filter` does.
    pub fn update_matches(&mut self, query: &str, listed: Option<Vec<ListedBookmark<P>>>) -> (search:
        Option<FuzzyQuery>)
        requires
            listed matches Some(listed) ==> forall|i: int|
                0 <= i < listed@.len() ==> (#[trigger] listed@[i]).bookmark.row < u32::MAX,
        ensures
            final(self).lists(listed_or_none(listed)),
            exists|relisted: Self| #[trigger]
                old(self).relisted(listed_or_none(listed), relisted) && relisted.searched(
                    query@,
                    search,
                    *final(self),
                ),
    {
        let listed = match listed {
            Some(listed) => listed,
            None => Vec::new(),
        };
        self.set_bookmarks(listed);
        let ghost relisted = *self;
        let search = self.filter(query);
        proof {
            assert(old(self).relisted(listed@, relisted));
        }
        search
    }

    /// What is drawn for the match at place `ix`; `None` where it refers to no bookmark.
    pub fn render_match(&self, ix: usize, selected: bool) -> (item: Option<MatchItem>)
        ensures
            item is Some <==> self.bookmark_at(ix as int) is Some,
            item matches Some(item) ==> item.draws(
                self.bookmark_at(ix as int)->0,
                self.matches@[ix as int].positions@,
                ix,
                selected,
            ),
    {
        if ix >= self.matches.len() {
            return None;
        }
        let string_match: &StringMatch = &self.matches[ix];
        if string_match.candidate_id >= self.bookmarks.len() {
            return None;
        }
        let bookmark: &BookmarkMatch<P> = &self.bookmarks[string_match.candidate_id];
        let name_positions = Self::highlight_positions_for_range(
            string_match,
            bookmark.name_range.start..bookmark.name_range.end,
        );
        let path_positions = Self::highlight_positions_for_range(
            string_match,
            bookmark.path_range.start..bookmark.path_range.end,
        );
        let mut path = bookmark.display_path.clone();
        path.push(':');
        text::push_decimal(&mut path, bookmark.line_number);
        let name = if bookmark.name.as_str().is_empty() {
            None
        } else {
            Some(HighlightedText { text: bookmark.name.clone(), positions: name_positions })
        };
        Some(
            MatchItem {
                ix,
                selected,
                name,
                path: HighlightedText { text: path, positions: path_positions },
            },
        )
    }

    /// Selects the match at place `ix`.
    pub fn set_selected_index(&mut self, ix: usize)
        ensures
            *final(self) == (ProjectBookmarksDelegate { selected_match_index: ix, ..*old(self) }),
    {
        self.selected_match_index = ix;
    }
}

} // verus!
