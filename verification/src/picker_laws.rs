//! What holds of the operations on the bookmark list, said of the fields of what goes in and comes
//! out.

use crate::order;
use crate::position::Point;
use crate::project_bookmarks;
use crate::project_bookmarks::{
    BookmarkMatch, BookmarkOpening, FuzzyQuery, ListEffect, ListedBookmark, MatchItem, Pane,
    ProjectBookmarksDelegate, StringMatch,
};
use crate::text;
use std::ops::Range;
use vstd::prelude::*;
use vstd::utf8::*;

verus! {

/// A bookmark is shown by its short path wherever there is one, and by the whole path only where
/// there is none, whatever its name; its line is counted from one.
pub proof fn law_row_shows_path_and_line<P>(listed: ListedBookmark<P>, row: BookmarkMatch<P>)
    requires
        call_ensures(BookmarkMatch::<P>::new, (listed,), row),
    ensures
        row.bookmark == listed.bookmark,
        row.name@ == listed.bookmark.name@,
        listed.short_path matches Some(short_path) ==> row.display_path@ == short_path@,
        listed.short_path is None ==> row.display_path@ == listed.full_path@,
        row.line_number == listed.bookmark.row + 1,
{
}

/// A bookmark is searched by its path with a slash for every backslash, and before that, where it
/// has a name, by its name and a space. The name range covers the name, and the path range all
/// that stands behind the name and the space.
pub proof fn law_row_is_searched_by_name_and_path<P>(
    listed: ListedBookmark<P>,
    row: BookmarkMatch<P>,
    i: int,
)
    requires
        call_ensures(BookmarkMatch::<P>::new, (listed,), row),
    ensures
        ({
            let name = listed.bookmark.name@;
            let path_start: int = if name.len() > 0 {
                name.len() as int + 1
            } else {
                0
            };
            &&& row.filter_text@.len() == path_start + row.display_path@.len()
            &&& row.filter_text@.take(name.len() as int) == name
            &&& name.len() > 0 ==> row.filter_text@[name.len() as int] == ' '
            &&& 0 <= i < row.display_path@.len() ==> row.filter_text@[path_start + i]
                == if row.display_path@[i] == '\\' {
                '/'
            } else {
                row.display_path@[i]
            }
            &&& row.name_range.start == 0
            &&& row.name_range.end == encode_utf8(name).len()
            &&& row.path_range.start == encode_utf8(row.filter_text@.take(path_start)).len()
            &&& row.path_range.end == encode_utf8(row.filter_text@).len()
        }),
{
    lemma_row_is_searched(row, listed);
}

proof fn lemma_row_is_searched<P>(row: BookmarkMatch<P>, listed: ListedBookmark<P>)
    requires
        row.shows(listed),
    ensures
        ({
            let name = listed.bookmark.name@;
            let path_start: int = if name.len() > 0 {
                name.len() as int + 1
            } else {
                0
            };
            &&& row.filter_text@.len() == path_start + row.display_path@.len()
            &&& row.filter_text@.take(name.len() as int) == name
            &&& name.len() > 0 ==> row.filter_text@[name.len() as int] == ' '
            &&& row.filter_text@.take(path_start) == project_bookmarks::before_path(name)
            &&& forall|i: int|
                0 <= i < row.display_path@.len() ==> row.filter_text@[path_start + i] == if (
                #[trigger] row.display_path@[i]) == '\\' {
                    '/'
                } else {
                    row.display_path@[i]
                }
        }),
{
    let name = row.name@;
    let prefix = project_bookmarks::before_path(name);
    assert(row.filter_text@.take(prefix.len() as int) =~= prefix);
    assert(row.filter_text@.take(name.len() as int) =~= name) by {
        assert forall|i: int| 0 <= i < name.len() implies #[trigger] name[i] == prefix[i] by {}
    }
}

/// A new list is empty, with nothing matched.
pub proof fn law_new_list_is_empty<P>(delegate: ProjectBookmarksDelegate<P>)
    requires
        call_ensures(ProjectBookmarksDelegate::<P>::new, (), delegate),
    ensures
        delegate.bookmarks@.len() == 0,
        delegate.candidates@.len() == 0,
        delegate.matches@.len() == 0,
        delegate.selected_match_index == 0,
{
}

/// The empty search field says that bookmarks are searched, whatever the list holds.
pub proof fn law_search_field_says_what_is_searched<P>(
    delegate: &ProjectBookmarksDelegate<P>,
    shown: &'static str,
)
    requires
        call_ensures(ProjectBookmarksDelegate::<P>::placeholder_text, (delegate,), shown),
    ensures
        shown@ == "Search project bookmarks..."@,
{
}

proof fn lemma_row_is_as_made<P>(
    row: BookmarkMatch<P>,
    listed: ListedBookmark<P>,
    made: BookmarkMatch<P>,
)
    requires
        row.shows(listed),
        made.shows(listed),
    ensures
        row.bookmark == made.bookmark,
        row.name@ == made.name@,
        row.display_path@ == made.display_path@,
        row.filter_text@ == made.filter_text@,
        row.name_range == made.name_range,
        row.path_range == made.path_range,
        row.line_number == made.line_number,
{
}

/// Setting the bookmarks gives each of them a row, in order, with all that makes a row, and a
/// candidate with the text of that row; neither the matches nor the selection change.
pub proof fn law_every_bookmark_gets_its_row<P>(
    delegate: &mut ProjectBookmarksDelegate<P>,
    listed: Vec<ListedBookmark<P>>,
    i: int,
    made: BookmarkMatch<P>,
)
    requires
        call_ensures(ProjectBookmarksDelegate::<P>::set_bookmarks, (delegate, listed), ()),
        0 <= i < listed@.len() ==> call_ensures(BookmarkMatch::<P>::new, (listed@[i],), made),
    ensures
        final(delegate).bookmarks@.len() == listed@.len(),
        final(delegate).candidates@.len() == listed@.len(),
        0 <= i < listed@.len() ==> {
            let row = final(delegate).bookmarks@[i];
            &&& row.bookmark == made.bookmark
            &&& row.name@ == made.name@
            &&& row.display_path@ == made.display_path@
            &&& row.filter_text@ == made.filter_text@
            &&& row.name_range == made.name_range
            &&& row.path_range == made.path_range
            &&& row.line_number == made.line_number
            &&& final(delegate).candidates@[i].id == i
            &&& final(delegate).candidates@[i].string@ == made.filter_text@
        },
        final(delegate).matches == old(delegate).matches,
        final(delegate).selected_match_index == old(delegate).selected_match_index,
{
    if 0 <= i < listed@.len() {
        let row = final(delegate).bookmarks@[i];
        assert(row.shows(listed@[i]));
        lemma_row_is_as_made(row, listed@[i], made);
    }
}

/// Taking over the matches of a search neither adds nor drops nor doubles one, selects the first,
/// and leaves the rows alone.
pub proof fn law_all_matches_are_taken_over<P>(
    delegate: &mut ProjectBookmarksDelegate<P>,
    found: Vec<StringMatch>,
)
    requires
        call_ensures(ProjectBookmarksDelegate::<P>::set_matches, (delegate, found), ()),
    ensures
        final(delegate).matches@.to_multiset() == found@.to_multiset(),
        final(delegate).selected_match_index == 0,
        final(delegate).bookmarks == old(delegate).bookmarks,
        final(delegate).candidates == old(delegate).candidates,
{
    let after = *final(delegate);
    let up_to = project_bookmarks::listing(after.bookmarks@, project_bookmarks::ids(found@));
    let places = choose|places: Seq<usize>|
        order::is_stable_order(places, found@.len(), up_to) && after.matches@ == order::arranged(
            found@,
            places,
        );
    order::law_arranging_keeps_items(found@, places);
}

/// Of two matches of a search, the one listed further down has no path that sorts before that of
/// the other, and on the same path no smaller line.
pub proof fn law_matches_go_by_path_and_line<P>(
    delegate: &mut ProjectBookmarksDelegate<P>,
    found: Vec<StringMatch>,
    i: int,
    j: int,
)
    requires
        call_ensures(ProjectBookmarksDelegate::<P>::set_matches, (delegate, found), ()),
        0 <= i < j < final(delegate).matches@.len(),
    ensures
        ({
            let rows = final(delegate).bookmarks@;
            let upper = rows[final(delegate).matches@[i].candidate_id as int];
            let lower = rows[final(delegate).matches@[j].candidate_id as int];
            &&& !text::text_before(lower.display_path@, upper.display_path@)
            &&& upper.display_path@ == lower.display_path@ ==> upper.line_number
                <= lower.line_number
        }),
{
    let after = *final(delegate);
    let up_to = project_bookmarks::listing(after.bookmarks@, project_bookmarks::ids(found@));
    let places = choose|places: Seq<usize>|
        order::is_stable_order(places, found@.len(), up_to) && after.matches@ == order::arranged(
            found@,
            places,
        );
    assert(order::goes_before(up_to, places[i] as int, places[j] as int));
    let upper = after.bookmarks@[after.matches@[i].candidate_id as int];
    let lower = after.bookmarks@[after.matches@[j].candidate_id as int];
    text::law_text_order_is_total(upper.display_path@, lower.display_path@, upper.display_path@);
}

proof fn lemma_first<P>(delegate: ProjectBookmarksDelegate<P>, i: int, j: int, k: usize)
    requires
        delegate.matches_first(),
    ensures
        delegate.matches@.len() == if delegate.bookmarks@.len() < 100 {
            delegate.bookmarks@.len()
        } else {
            100
        },
        0 <= i < delegate.matches@.len() ==> {
            &&& delegate.matches@[i].candidate_id < delegate.matches@.len()
            &&& delegate.matches@[i].positions@.len() == 0
            &&& delegate.matches@[i].string@
                == delegate.bookmarks@[delegate.matches@[i].candidate_id as int].filter_text@
        },
        k < delegate.matches@.len() ==> exists|at: int|
            0 <= at < delegate.matches@.len() && (#[trigger] delegate.matches@[at]).candidate_id
                == k,
        0 <= i < j < delegate.matches@.len() ==> {
            let upper = delegate.bookmarks@[delegate.matches@[i].candidate_id as int];
            let lower = delegate.bookmarks@[delegate.matches@[j].candidate_id as int];
            &&& delegate.matches@[i].candidate_id != delegate.matches@[j].candidate_id
            &&& !text::text_before(lower.display_path@, upper.display_path@)
            &&& upper.display_path@ == lower.display_path@ ==> upper.line_number
                <= lower.line_number
        },
{
    let places = project_bookmarks::ids(delegate.matches@);
    let up_to = project_bookmarks::row_order(delegate.bookmarks@);
    let n = delegate.matches@.len();
    assert(places.len() == n);
    if 0 <= i < n {
        assert(places[i] == delegate.matches@[i].candidate_id);
    }
    if k < n {
        order::lemma_permutation_reaches(places, n, k as int);
        let at = choose|at: int| 0 <= at < n && places[at] == k;
        assert(delegate.matches@[at].candidate_id == k);
    }
    if 0 <= i < j < n {
        assert(places[j] == delegate.matches@[j].candidate_id);
        assert(order::goes_before(up_to, places[i] as int, places[j] as int));
        let upper = delegate.bookmarks@[places[i] as int];
        let lower = delegate.bookmarks@[places[j] as int];
        text::law_text_order_is_total(
            upper.display_path@,
            lower.display_path@,
            upper.display_path@,
        );
    }
}

/// The empty search is answered at once by the first bookmarks, all of them up to a hundred, with
/// nothing highlighted and the first selected; the rows stay.
pub proof fn law_empty_search_matches_the_first<P>(
    delegate: &mut ProjectBookmarksDelegate<P>,
    query: &str,
    search: Option<FuzzyQuery>,
    i: int,
    k: usize,
)
    requires
        call_ensures(ProjectBookmarksDelegate::<P>::filter, (delegate, query), search),
        query@.len() == 0,
    ensures
        search is None,
        final(delegate).bookmarks == old(delegate).bookmarks,
        final(delegate).candidates == old(delegate).candidates,
        final(delegate).selected_match_index == 0,
        final(delegate).matches@.len() == if final(delegate).bookmarks@.len() < 100 {
            final(delegate).bookmarks@.len()
        } else {
            100
        },
        0 <= i < final(delegate).matches@.len() ==> {
            let found = final(delegate).matches@[i];
            &&& found.candidate_id < final(delegate).matches@.len()
            &&& found.positions@.len() == 0
            &&& found.string@
                == final(delegate).bookmarks@[found.candidate_id as int].filter_text@
        },
        k < final(delegate).matches@.len() ==> exists|at: int|
            0 <= at < final(delegate).matches@.len() && (#[trigger] final(delegate).matches@[at]).candidate_id == k,
{
    lemma_first(*final(delegate), i, i, k);
}

/// Of two matches of the empty search, the one listed further down is for another bookmark, whose
/// path does not sort before that of the other, and on the same path its line is no smaller.
pub proof fn law_empty_search_goes_by_path_and_line<P>(
    delegate: &mut ProjectBookmarksDelegate<P>,
    query: &str,
    search: Option<FuzzyQuery>,
    i: int,
    j: int,
)
    requires
        call_ensures(ProjectBookmarksDelegate::<P>::filter, (delegate, query), search),
        query@.len() == 0,
        0 <= i < j < final(delegate).matches@.len(),
    ensures
        ({
            let rows = final(delegate).bookmarks@;
            let upper = rows[final(delegate).matches@[i].candidate_id as int];
            let lower = rows[final(delegate).matches@[j].candidate_id as int];
            &&& final(delegate).matches@[i].candidate_id != final(delegate).matches@[j].candidate_id
            &&& !text::text_before(lower.display_path@, upper.display_path@)
            &&& upper.display_path@ == lower.display_path@ ==> upper.line_number
                <= lower.line_number
        }),
{
    lemma_first(*final(delegate), i, j, 0);
}

/// A search for anything changes nothing until its matches are there, and asks for a fuzzy search
/// for the very query: without smart case, with a penalty on length, and for at most a hundred
/// matches.
pub proof fn law_other_search_asks_for_the_query<P>(
    delegate: &mut ProjectBookmarksDelegate<P>,
    query: &str,
    search: Option<FuzzyQuery>,
)
    requires
        call_ensures(ProjectBookmarksDelegate::<P>::filter, (delegate, query), search),
        query@.len() > 0,
    ensures
        *final(delegate) == *old(delegate),
        search is Some,
        search->0.query@ == query@,
        !search->0.smart_case,
        search->0.penalize_length,
        search->0.max_results == 100,
{
}

/// An update gives each bookmark that the store has its row and its candidate, in order; where the
/// store could not be read, the list has no rows.
pub proof fn law_update_lists_what_the_store_has<P>(
    delegate: &mut ProjectBookmarksDelegate<P>,
    query: &str,
    listed: Option<Vec<ListedBookmark<P>>>,
    search: Option<FuzzyQuery>,
    i: int,
    made: BookmarkMatch<P>,
)
    requires
        call_ensures(
            ProjectBookmarksDelegate::<P>::update_matches,
            (delegate, query, listed),
            search,
        ),
        listed is Some && 0 <= i < listed->0@.len() ==> call_ensures(
            BookmarkMatch::<P>::new,
            (listed->0@[i],),
            made,
        ),
    ensures
        listed is None ==> {
            &&& final(delegate).bookmarks@.len() == 0
            &&& final(delegate).candidates@.len() == 0
        },
        listed is Some ==> {
            &&& final(delegate).bookmarks@.len() == listed->0@.len()
            &&& final(delegate).candidates@.len() == listed->0@.len()
        },
        listed is Some && 0 <= i < listed->0@.len() ==> {
            let row = final(delegate).bookmarks@[i];
            &&& row.bookmark == made.bookmark
            &&& row.name@ == made.name@
            &&& row.display_path@ == made.display_path@
            &&& row.filter_text@ == made.filter_text@
            &&& row.name_range == made.name_range
            &&& row.path_range == made.path_range
            &&& row.line_number == made.line_number
            &&& final(delegate).candidates@[i].id == i
            &&& final(delegate).candidates@[i].string@ == made.filter_text@
        },
{
    if listed is Some && 0 <= i < listed->0@.len() {
        let row = final(delegate).bookmarks@[i];
        assert(row.shows(listed->0@[i]));
        lemma_row_is_as_made(row, listed->0@[i], made);
    }
}

/// An update that searches for nothing matches the first bookmarks, all of them up to a hundred,
/// by path and then by line, with nothing highlighted and the first selected.
pub proof fn law_update_without_a_query_matches_the_first<P>(
    delegate: &mut ProjectBookmarksDelegate<P>,
    query: &str,
    listed: Option<Vec<ListedBookmark<P>>>,
    search: Option<FuzzyQuery>,
    i: int,
    j: int,
    k: usize,
)
    requires
        call_ensures(
            ProjectBookmarksDelegate::<P>::update_matches,
            (delegate, query, listed),
            search,
        ),
        query@.len() == 0,
    ensures
        search is None,
        final(delegate).selected_match_index == 0,
        final(delegate).matches@.len() == if final(delegate).bookmarks@.len() < 100 {
            final(delegate).bookmarks@.len()
        } else {
            100
        },
        0 <= i < final(delegate).matches@.len() ==> {
            let found = final(delegate).matches@[i];
            &&& found.candidate_id < final(delegate).matches@.len()
            &&& found.positions@.len() == 0
            &&& found.string@
                == final(delegate).bookmarks@[found.candidate_id as int].filter_text@
        },
        k < final(delegate).matches@.len() ==> exists|at: int|
            0 <= at < final(delegate).matches@.len() && (#[trigger] final(delegate).matches@[at]).candidate_id == k,
        0 <= i < j < final(delegate).matches@.len() ==> {
            let rows = final(delegate).bookmarks@;
            let upper = rows[final(delegate).matches@[i].candidate_id as int];
            let lower = rows[final(delegate).matches@[j].candidate_id as int];
            &&& final(delegate).matches@[i].candidate_id != final(delegate).matches@[j].candidate_id
            &&& !text::text_before(lower.display_path@, upper.display_path@)
            &&& upper.display_path@ == lower.display_path@ ==> upper.line_number
                <= lower.line_number
        },
{
    lemma_first(*final(delegate), i, j, k);
}

/// An update that searches for anything leaves the matches and the selection as they are until the
/// new matches are there, and asks for a fuzzy search for the very query.
pub proof fn law_update_with_a_query_asks_for_it<P>(
    delegate: &mut ProjectBookmarksDelegate<P>,
    query: &str,
    listed: Option<Vec<ListedBookmark<P>>>,
    search: Option<FuzzyQuery>,
)
    requires
        call_ensures(
            ProjectBookmarksDelegate::<P>::update_matches,
            (delegate, query, listed),
            search,
        ),
        query@.len() > 0,
    ensures
        final(delegate).matches == old(delegate).matches,
        final(delegate).selected_match_index == old(delegate).selected_match_index,
        search is Some,
        search->0.query@ == query@,
        !search->0.smart_case,
        search->0.penalize_length,
        search->0.max_results == 100,
{
}

/// Choosing opens the bookmark of the row to which the selected match refers, however it was
/// matched, in the pane next to the active one if that was asked for, and then dismisses the list;
/// where the match refers to no row, nothing happens.
pub proof fn law_choosing_opens_the_selected_row<'a, P>(
    delegate: &'a ProjectBookmarksDelegate<P>,
    secondary: bool,
    effects: Vec<ListEffect<'a, P>>,
)
    requires
        call_ensures(ProjectBookmarksDelegate::<P>::confirm, (delegate, secondary), effects),
    ensures
        ({
            let ix = delegate.selected_match_index as int;
            let refers = ix < delegate.matches@.len() && delegate.matches@[ix].candidate_id
                < delegate.bookmarks@.len();
            &&& !refers ==> effects@.len() == 0
            &&& refers ==> {
                &&& effects@.len() == 2
                &&& effects@[0] matches ListEffect::Open {
                    opening,
                    activate_pane,
                    focus_item,
                    keep_old_preview,
                    allow_new_preview,
                } && {
                    &&& *opening.bookmark
                        == delegate.bookmarks@[delegate.matches@[ix].candidate_id as int].bookmark
                    &&& secondary ==> opening.pane == Pane::Adjacent
                    &&& !secondary ==> opening.pane == Pane::Active
                    &&& activate_pane && focus_item && keep_old_preview && allow_new_preview
                }
                &&& effects@[1] is Dismiss
            }
        }),
{
}

/// After an update that searches for nothing, choosing opens a bookmark of the store such that no
/// other one among the first hundred has a path that sorts before its path, or the same path and a
/// smaller line.
pub proof fn law_choosing_after_an_update_opens_the_first<'a, P>(
    delegate: &mut ProjectBookmarksDelegate<P>,
    query: &str,
    listed: Vec<ListedBookmark<P>>,
    search: Option<FuzzyQuery>,
    secondary: bool,
    effects: Vec<ListEffect<'a, P>>,
)
    requires
        call_ensures(
            ProjectBookmarksDelegate::<P>::update_matches,
            (delegate, query, Some(listed)),
            search,
        ),
        query@.len() == 0,
        call_ensures(
            ProjectBookmarksDelegate::<P>::confirm,
            (&*final(delegate), secondary),
            effects,
        ),
    ensures
        listed@.len() == 0 ==> effects@.len() == 0,
        listed@.len() > 0 ==> exists|k: int|
            {
                let rows = final(delegate).bookmarks@;
                &&& 0 <= k < listed@.len() && k < 100
                &&& effects@[0] matches ListEffect::Open { opening, .. } && *opening.bookmark == (
                #[trigger] listed@[k]).bookmark
                &&& forall|j: int|
                    #![trigger rows[j]]
                    0 <= j < listed@.len() && j < 100 ==> {
                        &&& !text::text_before(rows[j].display_path@, rows[k].display_path@)
                        &&& rows[j].display_path@ == rows[k].display_path@
                            ==> rows[k].line_number <= rows[j].line_number
                    }
            },
{
    let after = *final(delegate);
    let rows = after.bookmarks@;
    law_choosing_opens_the_selected_row(&after, secondary, effects);
    lemma_first(after, 0, 0, 0);
    if listed@.len() > 0 {
        let k = after.matches@[0].candidate_id as int;
        assert(rows[k].shows(listed@[k]));
        assert forall|j: int| #![trigger rows[j]] 0 <= j < listed@.len() && j < 100 implies {
            &&& !text::text_before(rows[j].display_path@, rows[k].display_path@)
            &&& rows[j].display_path@ == rows[k].display_path@ ==> rows[k].line_number
                <= rows[j].line_number
        } by {
            lemma_first(after, 0, 0, j as usize);
            let i = choose|at: int|
                0 <= at < after.matches@.len() && (#[trigger] after.matches@[at]).candidate_id
                    == j as usize;
            assert(after.matches@[i].candidate_id == j);
            if i > 0 {
                lemma_first(after, 0, i, 0);
            } else {
                text::law_text_order_is_total(
                    rows[k].display_path@,
                    rows[k].display_path@,
                    rows[k].display_path@,
                );
            }
        }
    }
}

/// The cursor goes to the start of the bookmark's row, if the buffer is shown alone and has that
/// row, and else stays.
pub proof fn law_cursor_goes_to_the_row<'a, P>(
    opening: &BookmarkOpening<'a, P>,
    max_point: Option<Point>,
    point: Option<Point>,
)
    requires
        call_ensures(BookmarkOpening::<'a, P>::cursor, (opening, max_point), point),
    ensures
        point is Some <==> max_point is Some && opening.bookmark.row <= max_point->0.row,
        point matches Some(point) ==> point.row == opening.bookmark.row && point.column == 0,
{
}

/// Of the matched positions exactly those within the range are highlighted, each as often as it was
/// matched, in the order in which they were matched, and counted from the start of the range.
pub proof fn law_positions_in_range_are_highlighted<P>(
    string_match: &StringMatch,
    range: Range<usize>,
    picked: Vec<usize>,
)
    requires
        call_ensures(
            ProjectBookmarksDelegate::<P>::highlight_positions_for_range,
            (string_match, range),
            picked,
        ),
    ensures
        exists|from: Seq<int>|
            {
                let positions = string_match.positions@;
                &&& #[trigger] from.len() == picked@.len()
                &&& forall|k: int|
                    #![trigger from[k]]
                    0 <= k < from.len() ==> {
                        &&& 0 <= from[k] < positions.len()
                        &&& positions[from[k]] == range.start + picked@[k]
                        &&& positions[from[k]] < range.end
                    }
                &&& forall|j: int, k: int| 0 <= j < k < from.len() ==> from[j] < from[k]
                &&& forall|i: int|
                    0 <= i < positions.len() && range.start <= positions[i] < range.end
                        ==> #[trigger] from.contains(i)
            },
{
    let from = lemma_highlights(string_match.positions@, range.start, range.end);
    assert(from.len() == picked@.len());
}

proof fn lemma_highlights(positions: Seq<usize>, start: usize, end: usize) -> (from: Seq<int>)
    ensures
        ({
            let picked = project_bookmarks::highlights(positions, start, end);
            &&& from.len() == picked.len()
            &&& forall|k: int|
                #![trigger from[k]]
                0 <= k < from.len() ==> {
                    &&& 0 <= from[k] < positions.len()
                    &&& positions[from[k]] == start + picked[k]
                    &&& positions[from[k]] < end
                }
            &&& forall|j: int, k: int| 0 <= j < k < from.len() ==> from[j] < from[k]
            &&& forall|i: int|
                0 <= i < positions.len() && start <= positions[i] < end
                    ==> #[trigger] from.contains(i)
        }),
    decreases positions.len(),
{
    reveal(Seq::filter);
    let picked = project_bookmarks::highlights(positions, start, end);
    if positions.len() == 0 {
        assert(picked.len() == 0);
        Seq::empty()
    } else {
        let init = positions.drop_last();
        let last = positions.len() - 1;
        let p = positions.last();
        let before = project_bookmarks::highlights(init, start, end);
        let rest = lemma_highlights(init, start, end);
        let from = if start <= p < end {
            assert(picked =~= before.push((p - start) as usize));
            rest.push(last)
        } else {
            assert(picked =~= before);
            rest
        };
        assert forall|k: int| #![trigger from[k]] 0 <= k < from.len() implies {
            &&& 0 <= from[k] < positions.len()
            &&& positions[from[k]] == start + picked[k]
            &&& positions[from[k]] < end
        } by {
            if k < rest.len() {
                assert(from[k] == rest[k]);
                assert(picked[k] == before[k]);
                assert(init[rest[k]] == positions[rest[k]]);
            }
        }
        assert forall|i: int|
            0 <= i < positions.len() && start <= positions[i] < end implies #[trigger] from.contains(
            i,
        ) by {
            if i < last {
                assert(init[i] == positions[i]);
                assert(rest.contains(i));
                let k = choose|k: int| 0 <= k < rest.len() && rest[k] == i;
                assert(from[k] == i);
            } else {
                assert(from[rest.len() as int] == i);
            }
        }
        from
    }
}

/// What is drawn at a place is the row to which the match there refers: its name, unless that is
/// empty, and its path, a colon and its line; where the match refers to no row, nothing is drawn.
pub proof fn law_drawing_shows_the_row<P>(
    delegate: &ProjectBookmarksDelegate<P>,
    ix: usize,
    selected: bool,
    item: Option<MatchItem>,
    line: &mut String,
)
    requires
        call_ensures(ProjectBookmarksDelegate::<P>::render_match, (delegate, ix, selected), item),
        item is Some ==> call_ensures(
            text::push_decimal,
            (
                line,
                delegate.bookmarks@[delegate.matches@[ix as int].candidate_id as int].line_number,
            ),
            (),
        ),
        old(line)@.len() == 0,
    ensures
        item is Some <==> ix < delegate.matches@.len() && delegate.matches@[ix as int].candidate_id
            < delegate.bookmarks@.len(),
        item matches Some(item) ==> {
            let row = delegate.bookmarks@[delegate.matches@[ix as int].candidate_id as int];
            &&& item.ix == ix
            &&& item.selected == selected
            &&& item.name is Some <==> row.name@.len() > 0
            &&& item.name matches Some(name) ==> name.text@ == row.name@
            &&& item.path.text@ == row.display_path@ + seq![':'] + final(line)@
        },
{
    if let Some(item) = item {
        let row = delegate.bookmarks@[delegate.matches@[ix as int].candidate_id as int];
        assert(item.path.text@ =~= row.display_path@ + seq![':'] + final(line)@);
    }
}

/// In the name that is drawn, what was matched within the name range is highlighted, and in the
/// path, what was matched within the path range.
pub proof fn law_drawing_highlights_what_was_matched<P>(
    delegate: &ProjectBookmarksDelegate<P>,
    ix: usize,
    selected: bool,
    item: MatchItem,
    in_name: Vec<usize>,
    in_path: Vec<usize>,
)
    requires
        call_ensures(
            ProjectBookmarksDelegate::<P>::render_match,
            (delegate, ix, selected),
            Some(item),
        ),
        call_ensures(
            ProjectBookmarksDelegate::<P>::highlight_positions_for_range,
            (
                &delegate.matches@[ix as int],
                delegate.bookmarks@[delegate.matches@[ix as int].candidate_id as int].name_range,
            ),
            in_name,
        ),
        call_ensures(
            ProjectBookmarksDelegate::<P>::highlight_positions_for_range,
            (
                &delegate.matches@[ix as int],
                delegate.bookmarks@[delegate.matches@[ix as int].candidate_id as int].path_range,
            ),
            in_path,
        ),
    ensures
        item.name matches Some(name) ==> name.positions@ == in_name@,
        item.path.positions@ == in_path@,
{
}

/// The place that was selected last is the one that is selected, and selecting changes nothing
/// else.
pub proof fn law_selecting_selects<P>(
    delegate: &mut ProjectBookmarksDelegate<P>,
    ix: usize,
    selected: usize,
    count: usize,
)
    requires
        call_ensures(ProjectBookmarksDelegate::<P>::set_selected_index, (delegate, ix), ()),
        call_ensures(ProjectBookmarksDelegate::<P>::selected_index, (&*final(delegate),), selected),
        call_ensures(ProjectBookmarksDelegate::<P>::match_count, (&*final(delegate),), count),
    ensures
        selected == ix,
        final(delegate).selected_match_index == ix,
        final(delegate).bookmarks == old(delegate).bookmarks,
        final(delegate).candidates == old(delegate).candidates,
        final(delegate).matches == old(delegate).matches,
        count == old(delegate).matches@.len(),
{
}

} // verus!
