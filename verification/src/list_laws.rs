//! What holds of the bookmark list as a whole: how the searched text relates to what is drawn,
//! and what the order of the list keeps.

use crate::order;
use crate::project_bookmarks;
use crate::project_bookmarks::{
    BookmarkMatch, FuzzyQuery, ListedBookmark, MatchItem, ProjectBookmarksDelegate, StringMatch,
    StringMatchCandidate, MAX_MATCHES,
};
use crate::text;
use vstd::prelude::*;
use vstd::utf8::*;

verus! {

/// The name range of a row cuts its name out of the searched text and the path range its path
/// with slashes; the name range ends before the path range starts, and the path range is as long
/// as the path that is drawn.
pub proof fn law_ranges_cut_out_name_and_path<P>(row: BookmarkMatch<P>)
    requires
        row.wf(),
    ensures
        row.name_range.end <= row.path_range.start <= row.path_range.end,
        encode_utf8(row.filter_text@).subrange(
            row.name_range.start as int,
            row.name_range.end as int,
        ) == encode_utf8(row.name@),
        encode_utf8(row.filter_text@).subrange(
            row.path_range.start as int,
            row.path_range.end as int,
        ) == encode_utf8(text::forward_slashes(row.display_path@)),
        row.path_range.end - row.path_range.start == text::byte_len(row.display_path@),
{
    let name = row.name@;
    let prefix = project_bookmarks::before_path(name);
    let path = text::forward_slashes(row.display_path@);
    let bytes = encode_utf8(row.filter_text@);
    text::lemma_encode_concat(prefix, path);
    text::lemma_forward_slashes_bytes(row.display_path@);
    assert(name.push(' ') =~= name + seq![' ']);
    text::lemma_encode_concat(name, seq![' ']);
    assert(bytes.subrange(row.name_range.start as int, row.name_range.end as int) =~= encode_utf8(
        name,
    ));
    assert(bytes.subrange(row.path_range.start as int, row.path_range.end as int) =~= encode_utf8(
        path,
    ));
}

/// Every byte of the searched text belongs to the name, to the path, or is the space between
/// them, and to only one of these.
pub proof fn law_every_position_has_one_place<P>(row: BookmarkMatch<P>, p: int)
    requires
        row.wf(),
        0 <= p < text::byte_len(row.filter_text@),
    ensures
        row.name_range.start <= p < row.name_range.end ==> !(row.path_range.start <= p
            < row.path_range.end),
        row.name_range.start <= p < row.name_range.end || row.path_range.start <= p
            < row.path_range.end || (p == row.name_range.end && p + 1 == row.path_range.start
            && encode_utf8(row.filter_text@)[p] == 0x20),
{
    law_ranges_cut_out_name_and_path(row);
    let name = row.name@;
    let space = seq![' '];
    if name.len() > 0 {
        assert(name.push(' ') =~= name + space);
        text::lemma_encode_concat(name, space);
        assert(leading_byte_width_1(0x20u32) == 0x20) by (bit_vector);
        assert(encode_utf8(space) =~= seq![0x20u8]) by {
            reveal_with_fuel(encode_utf8, 2);
            assert(space.drop_first() =~= Seq::<char>::empty());
        }
        text::lemma_encode_concat(
            project_bookmarks::before_path(name),
            text::forward_slashes(row.display_path@),
        );
    }
}

/// A position is highlighted exactly where it was matched within the range, and it then lies
/// within the text that the range cuts out.
pub proof fn law_highlights_are_matches_in_range(
    positions: Seq<usize>,
    start: usize,
    end: usize,
    q: usize,
)
    ensures
        project_bookmarks::highlights(positions, start, end).contains(q) <==> exists|i: int|
            0 <= i < positions.len() && #[trigger] positions[i] == start + q && start + q < end,
    decreases positions.len(),
{
    let all = project_bookmarks::highlights(positions, start, end);
    if positions.len() == 0 {
        reveal(Seq::filter);
        assert(all.len() == 0);
    } else {
        let init = positions.drop_last();
        let rest = project_bookmarks::highlights(init, start, end);
        let p = positions.last();
        law_highlights_are_matches_in_range(init, start, end, q);
        reveal(Seq::filter);
        if start <= p < end {
            assert(all =~= rest.push((p - start) as usize));
            if rest.contains(q) {
                let i = choose|i: int| 0 <= i < rest.len() && rest[i] == q;
                assert(all[i] == q);
                let j = choose|j: int|
                    0 <= j < init.len() && #[trigger] init[j] == start + q && start + q < end;
                assert(positions[j] == start + q);
            }
            if p == start + q {
                assert(all[rest.len() as int] == q);
                assert(positions[positions.len() - 1] == start + q);
            }
            if all.contains(q) {
                let i = choose|i: int| 0 <= i < all.len() && all[i] == q;
                if i < rest.len() {
                    assert(rest[i] == q);
                }
            }
        } else {
            assert(all =~= rest);
        }
        if exists|i: int|
            0 <= i < positions.len() && #[trigger] positions[i] == start + q && start + q < end {
            let i = choose|i: int|
                0 <= i < positions.len() && #[trigger] positions[i] == start + q && start + q
                    < end;
            if i < init.len() {
                assert(init[i] == start + q);
            }
        }
        if exists|j: int| 0 <= j < init.len() && #[trigger] init[j] == start + q && start + q < end {
            let j = choose|j: int|
                0 <= j < init.len() && #[trigger] init[j] == start + q && start + q < end;
            assert(positions[j] == start + q);
        }
    }
}

/// Where the search matched whole characters, what is drawn highlights whole characters: each
/// highlighted position starts a character of the drawn text, and of the path itself, not of the
/// line number behind it.
pub proof fn law_highlights_start_characters<P>(
    item: MatchItem,
    row: BookmarkMatch<P>,
    positions: Seq<usize>,
    ix: usize,
    selected: bool,
)
    requires
        row.wf(),
        item.draws(row, positions, ix, selected),
        forall|i: int|
            0 <= i < positions.len() ==> is_char_boundary(
                encode_utf8(row.filter_text@),
                #[trigger] positions[i] as int,
            ),
    ensures
        item.name matches Some(name) ==> forall|i: int|
            #![trigger name.positions@[i]]
            0 <= i < name.positions@.len() ==> {
                &&& name.positions@[i] < text::byte_len(name.text@)
                &&& is_char_boundary(encode_utf8(name.text@), name.positions@[i] as int)
            },
        forall|i: int|
            #![trigger item.path.positions@[i]]
            0 <= i < item.path.positions@.len() ==> {
                &&& item.path.positions@[i] < text::byte_len(row.display_path@)
                &&& is_char_boundary(encode_utf8(item.path.text@), item.path.positions@[i] as int)
            },
{
    law_ranges_cut_out_name_and_path(row);
    let bytes = encode_utf8(row.filter_text@);
    encode_utf8_valid_utf8(row.filter_text@);
    if let Some(name) = item.name {
        let start = row.name_range.start;
        let end = row.name_range.end;
        encode_utf8_valid_utf8(name.text@);
        assert forall|i: int| #![trigger name.positions@[i]] 0 <= i < name.positions@.len() implies {
            &&& name.positions@[i] < text::byte_len(name.text@)
            &&& is_char_boundary(encode_utf8(name.text@), name.positions@[i] as int)
        } by {
            let q = name.positions@[i];
            assert(name.positions@.contains(q));
            law_highlights_are_matches_in_range(positions, start, end, q);
            assert(bytes.subrange(start as int, end as int)[q as int] == bytes[start + q]);
            is_char_boundary_iff_not_is_continuation_byte(bytes, start + q);
            is_char_boundary_iff_not_is_continuation_byte(encode_utf8(name.text@), q as int);
        }
    }
    let start = row.path_range.start;
    let end = row.path_range.end;
    let shown = row.display_path@;
    let rest = seq![':'] + text::decimal(row.line_number as nat);
    assert(item.path.text@ =~= shown + rest);
    text::lemma_encode_concat(shown, rest);
    encode_utf8_valid_utf8(item.path.text@);
    text::lemma_forward_slashes_bytes(shown);
    assert forall|i: int|
        #![trigger item.path.positions@[i]]
        0 <= i < item.path.positions@.len() implies {
        &&& item.path.positions@[i] < text::byte_len(shown)
        &&& is_char_boundary(encode_utf8(item.path.text@), item.path.positions@[i] as int)
    } by {
        let q = item.path.positions@[i];
        assert(item.path.positions@.contains(q));
        law_highlights_are_matches_in_range(positions, start, end, q);
        let slashed = encode_utf8(text::forward_slashes(shown));
        assert(bytes.subrange(start as int, end as int)[q as int] == bytes[start + q]);
        assert(slashed[q as int] == bytes[start + q]);
        assert(encode_utf8(item.path.text@)[q as int] == encode_utf8(shown)[q as int]);
        is_char_boundary_iff_not_is_continuation_byte(bytes, start + q);
        is_char_boundary_iff_not_is_continuation_byte(encode_utf8(item.path.text@), q as int);
    }
}

/// Listing matches neither adds nor drops one, and puts them by path and then by line.
pub proof fn law_listing_sorts_and_keeps<P>(
    sorted: Seq<StringMatch>,
    matches: Seq<StringMatch>,
    bookmarks: Seq<BookmarkMatch<P>>,
)
    requires
        project_bookmarks::is_listed(sorted, matches, bookmarks),
    ensures
        sorted.to_multiset() == matches.to_multiset(),
        sorted.len() == matches.len(),
        forall|i: int, j: int|
            #![trigger sorted[i], sorted[j]]
            0 <= i < j < sorted.len() ==> project_bookmarks::listed_up_to(
                bookmarks[sorted[i].candidate_id as int],
                bookmarks[sorted[j].candidate_id as int],
            ),
        project_bookmarks::refers_to_rows(matches, bookmarks.len())
            ==> project_bookmarks::refers_to_rows(sorted, bookmarks.len()),
{
    let up_to = project_bookmarks::listing(bookmarks, project_bookmarks::ids(matches));
    let places = choose|places: Seq<usize>|
        order::is_stable_order(places, matches.len(), up_to) && sorted == order::arranged(
            matches,
            places,
        );
    order::law_arranging_keeps_items(matches, places);
    assert forall|i: int, j: int|
        #![trigger sorted[i], sorted[j]]
        0 <= i < j < sorted.len() implies project_bookmarks::listed_up_to(
        bookmarks[sorted[i].candidate_id as int],
        bookmarks[sorted[j].candidate_id as int],
    ) by {
        assert(order::goes_before(up_to, places[i] as int, places[j] as int));
    }
}

/// After the empty search every match refers to a bookmark, no bookmark is matched twice, and
/// every bookmark is matched unless there are more than a search returns. What is selected is
/// the bookmark that comes first by path and line, so choosing it opens one.
pub proof fn law_empty_search_lists_the_first<P>(delegate: ProjectBookmarksDelegate<P>)
    requires
        delegate.matches_first(),
        delegate.selected_match_index == 0,
    ensures
        delegate.matches@.len() <= MAX_MATCHES,
        project_bookmarks::refers_to_rows(delegate.matches@, delegate.bookmarks@.len()),
        project_bookmarks::ids(delegate.matches@).no_duplicates(),
        forall|k: usize|
            k < delegate.bookmarks@.len() && k < MAX_MATCHES
                ==> #[trigger] project_bookmarks::ids(delegate.matches@).contains(k),
        delegate.bookmarks@.len() > 0 ==> {
            &&& delegate.bookmark_at(delegate.selected_match_index as int) is Some
            &&& forall|i: int|
                0 <= i < delegate.matches@.len() ==> project_bookmarks::listed_up_to(
                    delegate.bookmark_at(delegate.selected_match_index as int)->0,
                    delegate.bookmarks@[(#[trigger] delegate.matches@[i]).candidate_id as int],
                )
        },
{
    let places = project_bookmarks::ids(delegate.matches@);
    assert forall|i: int| 0 <= i < delegate.matches@.len() implies (
    #[trigger] delegate.matches@[i]).candidate_id < delegate.bookmarks@.len() by {
        assert(places[i] == delegate.matches@[i].candidate_id);
    }
    assert forall|k: usize|
        k < delegate.bookmarks@.len() && k < MAX_MATCHES implies #[trigger] places.contains(k) by {
        order::lemma_permutation_reaches(places, places.len(), k as int);
    }
    if delegate.bookmarks@.len() > 0 {
        assert(delegate.matches@[0].candidate_id == places[0]);
        assert forall|i: int| 0 <= i < delegate.matches@.len() implies project_bookmarks::listed_up_to(
            delegate.bookmark_at(0)->0,
            delegate.bookmarks@[(#[trigger] delegate.matches@[i]).candidate_id as int],
        ) by {
            assert(places[i] == delegate.matches@[i].candidate_id);
            if i > 0 {
                assert(order::goes_before(
                    project_bookmarks::row_order(delegate.bookmarks@),
                    places[0] as int,
                    places[i] as int,
                ));
            }
        }
    }
}

/// Whether two listings are the same: the same bookmarks under the same paths, in the same order.
pub open spec fn same_listing<P>(a: Seq<ListedBookmark<P>>, b: Seq<ListedBookmark<P>>) -> bool {
    &&& a.len() == b.len()
    &&& forall|i: int|
        #![trigger a[i]]
        #![trigger b[i]]
        0 <= i < a.len() ==> {
            &&& a[i].bookmark.abs_path == b[i].bookmark.abs_path
            &&& a[i].bookmark.row == b[i].bookmark.row
            &&& a[i].bookmark.name@ == b[i].bookmark.name@
            &&& a[i].shown_path() == b[i].shown_path()
        }
}

/// Whether two rows are the same in all of their parts.
pub open spec fn same_row<P>(a: BookmarkMatch<P>, b: BookmarkMatch<P>) -> bool {
    &&& a.bookmark.abs_path == b.bookmark.abs_path
    &&& a.bookmark.row == b.bookmark.row
    &&& a.bookmark.name@ == b.bookmark.name@
    &&& a.name@ == b.name@
    &&& a.display_path@ == b.display_path@
    &&& a.filter_text@ == b.filter_text@
    &&& a.name_range == b.name_range
    &&& a.path_range == b.path_range
    &&& a.line_number == b.line_number
}

/// Whether two sequences hold the same matches, in the same order.
pub open spec fn same_matches(a: Seq<StringMatch>, b: Seq<StringMatch>) -> bool {
    &&& a.len() == b.len()
    &&& forall|i: int|
        #![trigger a[i]]
        #![trigger b[i]]
        0 <= i < a.len() ==> {
            &&& a[i].candidate_id == b[i].candidate_id
            &&& a[i].positions@ == b[i].positions@
            &&& a[i].string@ == b[i].string@
        }
}

/// Whether two lists have the same rows and candidates.
pub open spec fn same_rows<P>(
    a: ProjectBookmarksDelegate<P>,
    b: ProjectBookmarksDelegate<P>,
) -> bool {
    &&& a.bookmarks@.len() == b.bookmarks@.len()
    &&& forall|i: int|
        #![trigger a.bookmarks@[i]]
        #![trigger b.bookmarks@[i]]
        0 <= i < a.bookmarks@.len() ==> same_row(a.bookmarks@[i], b.bookmarks@[i])
    &&& a.candidates@.len() == b.candidates@.len()
    &&& forall|i: int|
        #![trigger a.candidates@[i]]
        #![trigger b.candidates@[i]]
        0 <= i < a.candidates@.len() ==> a.candidates@[i].id == b.candidates@[i].id
            && a.candidates@[i].string@ == b.candidates@[i].string@
}

/// What a candidate stands for.
pub struct CandidateView {
    pub id: usize,
    pub string: Seq<char>,
}

/// What a match stands for.
pub struct MatchView {
    pub candidate_id: usize,
    pub positions: Seq<usize>,
    pub string: Seq<char>,
}

/// What `candidates` stand for, in order.
pub open spec fn candidates_view(candidates: Seq<StringMatchCandidate>) -> Seq<CandidateView> {
    candidates.map_values(
        |c: StringMatchCandidate| CandidateView { id: c.id, string: c.string@ },
    )
}

/// What `matches` stand for, in order.
pub open spec fn matches_view(matches: Seq<StringMatch>) -> Seq<MatchView> {
    matches.map_values(
        |m: StringMatch|
            MatchView {
                candidate_id: m.candidate_id,
                positions: m.positions@,
                string: m.string@,
            },
    )
}

/// Whether an update of `before` with `listed` and `query` ends at `after`, where `fuzzy` is what
/// the host's fuzzy search answers for candidates and a query: the rows are replaced, the query is
/// searched for, and where that takes a fuzzy search, its matches are taken over, as they can be
/// if several of them refer to rows only.
pub open spec fn update_ends_at<P>(
    before: ProjectBookmarksDelegate<P>,
    listed: Seq<ListedBookmark<P>>,
    query: Seq<char>,
    fuzzy: spec_fn(Seq<CandidateView>, Seq<char>) -> Seq<MatchView>,
    after: ProjectBookmarksDelegate<P>,
) -> bool {
    if query.len() == 0 {
        exists|relisted: ProjectBookmarksDelegate<P>| #[trigger]
            before.relisted(listed, relisted) && relisted.searched(query, None, after)
    } else {
        exists|waiting: ProjectBookmarksDelegate<P>, search: FuzzyQuery, found: Seq<StringMatch>|
            {
                &&& #[trigger] before.relisted(listed, waiting)
                &&& #[trigger] waiting.searched(query, Some(search), waiting)
                &&& matches_view(found) == fuzzy(
                    candidates_view(waiting.candidates@),
                    search.query@,
                )
                &&& found.len() > 1 ==> project_bookmarks::refers_to_rows(
                    found,
                    waiting.bookmarks@.len(),
                )
                &&& #[trigger] waiting.took_over(found, after)
            }
    }
}

proof fn lemma_same_rows<P>(
    listed_a: Seq<ListedBookmark<P>>,
    listed_b: Seq<ListedBookmark<P>>,
    a: ProjectBookmarksDelegate<P>,
    b: ProjectBookmarksDelegate<P>,
)
    requires
        same_listing(listed_a, listed_b),
        a.lists(listed_a),
        b.lists(listed_b),
    ensures
        same_rows(a, b),
{
    assert forall|i: int|
        #![trigger a.bookmarks@[i]]
        #![trigger b.bookmarks@[i]]
        0 <= i < a.bookmarks@.len() implies same_row(a.bookmarks@[i], b.bookmarks@[i]) by {
        assert(a.bookmarks@[i].shows(listed_a[i]));
        assert(b.bookmarks@[i].shows(listed_b[i]));
    }
    assert forall|i: int|
        #![trigger a.candidates@[i]]
        #![trigger b.candidates@[i]]
        0 <= i < a.candidates@.len() implies a.candidates@[i].id == b.candidates@[i].id
        && a.candidates@[i].string@ == b.candidates@[i].string@ by {
        assert(same_row(a.bookmarks@[i], b.bookmarks@[i]));
    }
}

/// The same listing, searched for nothing, has the same matches, whatever the lists held before.
pub proof fn law_listing_decides_the_first<P>(
    listed_a: Seq<ListedBookmark<P>>,
    listed_b: Seq<ListedBookmark<P>>,
    a: ProjectBookmarksDelegate<P>,
    b: ProjectBookmarksDelegate<P>,
)
    requires
        same_listing(listed_a, listed_b),
        a.lists(listed_a),
        b.lists(listed_b),
        a.matches_first(),
        b.matches_first(),
    ensures
        same_rows(a, b),
        same_matches(a.matches@, b.matches@),
{
    lemma_same_rows(listed_a, listed_b, a, b);
    let n = a.matches@.len();
    let ids_a = project_bookmarks::ids(a.matches@);
    let ids_b = project_bookmarks::ids(b.matches@);
    let order_a = project_bookmarks::row_order(a.bookmarks@);
    let order_b = project_bookmarks::row_order(b.bookmarks@);
    project_bookmarks::lemma_row_order_is_ranking(a.bookmarks@, n as int);
    assert forall|i: int, j: int|
        #![trigger ids_b[i], ids_b[j]]
        0 <= i < j < n implies order::goes_before(order_a, ids_b[i] as int, ids_b[j] as int) by {
        let x = ids_b[i] as int;
        let y = ids_b[j] as int;
        assert(order::goes_before(order_b, x, y));
        assert(same_row(a.bookmarks@[x], b.bookmarks@[x]));
        assert(same_row(a.bookmarks@[y], b.bookmarks@[y]));
    }
    order::law_stable_order_is_unique(ids_a, ids_b, n, order_a);
    assert forall|i: int|
        #![trigger a.matches@[i]]
        #![trigger b.matches@[i]]
        0 <= i < n implies {
        &&& a.matches@[i].candidate_id == b.matches@[i].candidate_id
        &&& a.matches@[i].positions@ == b.matches@[i].positions@
        &&& a.matches@[i].string@ == b.matches@[i].string@
    } by {
        assert(ids_a[i] == a.matches@[i].candidate_id);
        assert(ids_b[i] == b.matches@[i].candidate_id);
        let x = ids_a[i] as int;
        assert(same_row(a.bookmarks@[x], b.bookmarks@[x]));
    }
}

/// The same listing with the same matches of a fuzzy search lists them in the same order,
/// whatever the lists held before.
pub proof fn law_listing_decides_the_matches<P>(
    listed_a: Seq<ListedBookmark<P>>,
    listed_b: Seq<ListedBookmark<P>>,
    found_a: Seq<StringMatch>,
    found_b: Seq<StringMatch>,
    a: ProjectBookmarksDelegate<P>,
    b: ProjectBookmarksDelegate<P>,
)
    requires
        same_listing(listed_a, listed_b),
        same_matches(found_a, found_b),
        found_a.len() > 1 ==> project_bookmarks::refers_to_rows(found_a, listed_a.len()),
        a.lists(listed_a),
        b.lists(listed_b),
        project_bookmarks::is_listed(a.matches@, found_a, a.bookmarks@),
        project_bookmarks::is_listed(b.matches@, found_b, b.bookmarks@),
    ensures
        same_rows(a, b),
        same_matches(a.matches@, b.matches@),
{
    lemma_same_rows(listed_a, listed_b, a, b);
    let n = found_a.len();
    let ids_a = project_bookmarks::ids(found_a);
    let ids_b = project_bookmarks::ids(found_b);
    let order_a = project_bookmarks::listing(a.bookmarks@, ids_a);
    let order_b = project_bookmarks::listing(b.bookmarks@, ids_b);
    let places_a = choose|places: Seq<usize>|
        order::is_stable_order(places, n, order_a) && a.matches@ == order::arranged(
            found_a,
            places,
        );
    let places_b = choose|places: Seq<usize>|
        order::is_stable_order(places, n, order_b) && b.matches@ == order::arranged(
            found_b,
            places,
        );
    project_bookmarks::lemma_listing_is_ranking(a.bookmarks@, ids_a);
    assert forall|i: int, j: int|
        #![trigger places_b[i], places_b[j]]
        0 <= i < j < n implies order::goes_before(
        order_a,
        places_b[i] as int,
        places_b[j] as int,
    ) by {
        let x = places_b[i] as int;
        let y = places_b[j] as int;
        assert(order::goes_before(order_b, x, y));
        assert(found_a[x].candidate_id == found_b[x].candidate_id);
        assert(found_a[y].candidate_id == found_b[y].candidate_id);
        assert(same_row(a.bookmarks@[ids_a[x] as int], b.bookmarks@[ids_b[x] as int]));
        assert(same_row(a.bookmarks@[ids_a[y] as int], b.bookmarks@[ids_b[y] as int]));
    }
    order::law_stable_order_is_unique(places_a, places_b, n, order_a);
    assert forall|i: int|
        #![trigger a.matches@[i]]
        #![trigger b.matches@[i]]
        0 <= i < n implies {
        &&& a.matches@[i].candidate_id == b.matches@[i].candidate_id
        &&& a.matches@[i].positions@ == b.matches@[i].positions@
        &&& a.matches@[i].string@ == b.matches@[i].string@
    } by {
        let x = places_a[i] as int;
        assert(a.matches@[i] == found_a[x]);
        assert(b.matches@[i] == found_b[x]);
    }
}

/// What an update ends at does not depend on what the list held before: from whatever bookmarks,
/// matches and selection, the same listing and the same query lead to the same rows, candidates
/// and matches, with the first selected. This holds whatever the fuzzy search is, as long as it
/// answers by its candidates and its query alone.
pub proof fn law_update_forgets_the_past<P>(
    before_a: ProjectBookmarksDelegate<P>,
    before_b: ProjectBookmarksDelegate<P>,
    listed_a: Seq<ListedBookmark<P>>,
    listed_b: Seq<ListedBookmark<P>>,
    query: Seq<char>,
    fuzzy: spec_fn(Seq<CandidateView>, Seq<char>) -> Seq<MatchView>,
    after_a: ProjectBookmarksDelegate<P>,
    after_b: ProjectBookmarksDelegate<P>,
)
    requires
        same_listing(listed_a, listed_b),
        update_ends_at(before_a, listed_a, query, fuzzy, after_a),
        update_ends_at(before_b, listed_b, query, fuzzy, after_b),
    ensures
        same_rows(after_a, after_b),
        same_matches(after_a.matches@, after_b.matches@),
        after_a.selected_match_index == 0,
        after_b.selected_match_index == 0,
{
    if query.len() == 0 {
        law_listing_decides_the_first(listed_a, listed_b, after_a, after_b);
    } else {
        let found_a = lemma_found(before_a, listed_a, query, fuzzy, after_a);
        let found_b = lemma_found(before_b, listed_b, query, fuzzy, after_b);
        lemma_same_rows(listed_a, listed_b, after_a, after_b);
        assert(candidates_view(after_a.candidates@) =~= candidates_view(after_b.candidates@));
        assert(same_matches(found_a, found_b)) by {
            assert(matches_view(found_a).len() == found_a.len());
            assert(matches_view(found_b).len() == found_b.len());
            assert forall|i: int|
                #![trigger found_a[i]]
                #![trigger found_b[i]]
                0 <= i < found_a.len() implies {
                &&& found_a[i].candidate_id == found_b[i].candidate_id
                &&& found_a[i].positions@ == found_b[i].positions@
                &&& found_a[i].string@ == found_b[i].string@
            } by {
                assert(matches_view(found_a)[i] == matches_view(found_b)[i]);
            }
        }
        law_listing_decides_the_matches(listed_a, listed_b, found_a, found_b, after_a, after_b);
    }
}

/// What the fuzzy search of an update found.
proof fn lemma_found<P>(
    before: ProjectBookmarksDelegate<P>,
    listed: Seq<ListedBookmark<P>>,
    query: Seq<char>,
    fuzzy: spec_fn(Seq<CandidateView>, Seq<char>) -> Seq<MatchView>,
    after: ProjectBookmarksDelegate<P>,
) -> (found: Seq<StringMatch>)
    requires
        query.len() > 0,
        update_ends_at(before, listed, query, fuzzy, after),
    ensures
        after.lists(listed),
        after.selected_match_index == 0,
        matches_view(found) == fuzzy(candidates_view(after.candidates@), query),
        found.len() > 1 ==> project_bookmarks::refers_to_rows(found, listed.len()),
        project_bookmarks::is_listed(after.matches@, found, after.bookmarks@),
{
    let (waiting, search, found) = choose|
        waiting: ProjectBookmarksDelegate<P>,
        search: FuzzyQuery,
        found: Seq<StringMatch>,
    |
        {
            &&& #[trigger] before.relisted(listed, waiting)
            &&& #[trigger] waiting.searched(query, Some(search), waiting)
            &&& matches_view(found) == fuzzy(candidates_view(waiting.candidates@), search.query@)
            &&& found.len() > 1 ==> project_bookmarks::refers_to_rows(
                found,
                waiting.bookmarks@.len(),
            )
            &&& #[trigger] waiting.took_over(found, after)
        };
    found
}

} // verus!
