//! What holds of jumps, said of what the store has for each stretch of text and of the anchor on
//! which a jump lands.

use crate::editor::Editor;
use crate::navigation;
use crate::navigation::{
    Bias, BookmarkQuery, BookmarkSearch, Direction, JumpEffect, Place, RangeBookmarks,
};
use std::ops::Range;
use vstd::prelude::*;

verus! {

/// A place is among those collected exactly when some known stretch holds it, wherever it stands.
pub proof fn law_every_shown_bookmark_is_collected<M>(
    ranges: Vec<RangeBookmarks<M>>,
    places: Vec<Place<M>>,
    place: Place<M>,
)
    requires
        call_ensures(navigation::bookmarks_in_range::<M>, (ranges,), places),
    ensures
        places@.contains(place) <==> exists|r: int, i: int|
            {
                &&& 0 <= r < ranges@.len() && ranges@[r] is Some
                &&& 0 <= i < ranges@[r]->0@.len()
                &&& #[trigger] ranges@[r]->0@[i] == Some(place)
            },
{
    let from = lemma_all_places(ranges@);
    if places@.contains(place) {
        let k = choose|k: int| 0 <= k < places@.len() && places@[k] == place;
        assert(shown_at(ranges@, from[k].0, from[k].1) == Some(place));
        assert(ranges@[from[k].0]->0@[from[k].1] == Some(place));
    }
    if exists|r: int, i: int|
        {
            &&& 0 <= r < ranges@.len() && ranges@[r] is Some
            &&& 0 <= i < ranges@[r]->0@.len()
            &&& #[trigger] ranges@[r]->0@[i] == Some(place)
        } {
        let (r, i) = choose|r: int, i: int|
            {
                &&& 0 <= r < ranges@.len() && ranges@[r] is Some
                &&& 0 <= i < ranges@[r]->0@.len()
                &&& #[trigger] ranges@[r]->0@[i] == Some(place)
            };
        assert(shown_at(ranges@, r, i) == Some(place));
        let k = choose|k: int| 0 <= k < from.len() && from[k] == (r, i);
        assert(places@[k] == place);
    }
}

/// Every entry that shows a bookmark is collected once, and they are collected in the order in
/// which they stand: stretch by stretch, and within a stretch entry by entry.
pub proof fn law_bookmarks_are_collected_in_order<M>(
    ranges: Vec<RangeBookmarks<M>>,
    places: Vec<Place<M>>,
)
    requires
        call_ensures(navigation::bookmarks_in_range::<M>, (ranges,), places),
    ensures
        exists|from: Seq<(int, int)>|
            {
                &&& #[trigger] from.len() == places@.len()
                &&& forall|k: int|
                    #![trigger from[k]]
                    0 <= k < from.len() ==> {
                        let (r, i) = from[k];
                        &&& 0 <= r < ranges@.len() && ranges@[r] is Some
                        &&& 0 <= i < ranges@[r]->0@.len()
                        &&& ranges@[r]->0@[i] == Some(places@[k])
                    }
                &&& forall|j: int, k: int|
                    #![trigger from[j], from[k]]
                    0 <= j < k < from.len() ==> from[j].0 < from[k].0 || (from[j].0 == from[k].0
                        && from[j].1 < from[k].1)
                &&& forall|r: int, i: int|
                    #![trigger ranges@[r]->0@[i]]
                    0 <= r < ranges@.len() && ranges@[r] is Some && 0 <= i < ranges@[r]->0@.len()
                        && ranges@[r]->0@[i] is Some ==> from.contains((r, i))
            },
{
    let from = lemma_all_places(ranges@);
    assert(from.len() == places@.len());
    assert forall|k: int| #![trigger from[k]] 0 <= k < from.len() implies {
        let (r, i) = from[k];
        &&& 0 <= r < ranges@.len() && ranges@[r] is Some
        &&& 0 <= i < ranges@[r]->0@.len()
        &&& ranges@[r]->0@[i] == Some(places@[k])
    } by {
        assert(shown_at(ranges@, from[k].0, from[k].1) == Some(places@[k]));
    }
    assert forall|j: int, k: int|
        #![trigger from[j], from[k]]
        0 <= j < k < from.len() implies from[j].0 < from[k].0 || (from[j].0 == from[k].0
        && from[j].1 < from[k].1) by {
        assert(stands_before(from[j], from[k]));
    }
    assert forall|r: int, i: int|
        #![trigger ranges@[r]->0@[i]]
        0 <= r < ranges@.len() && ranges@[r] is Some && 0 <= i < ranges@[r]->0@.len()
            && ranges@[r]->0@[i] is Some implies from.contains((r, i)) by {
        assert(shown_at(ranges@, r, i) is Some);
    }
}

/// The bookmark that entry `i` of stretch `r` shows.
spec fn shown_at<M>(ranges: Seq<RangeBookmarks<M>>, r: int, i: int) -> Option<Place<M>> {
    if 0 <= r < ranges.len() && ranges[r] is Some && 0 <= i < ranges[r]->0@.len() {
        ranges[r]->0@[i]
    } else {
        None
    }
}

/// Whether entry `a.1` of stretch `a.0` stands before entry `b.1` of stretch `b.0`.
spec fn stands_before(a: (int, int), b: (int, int)) -> bool {
    a.0 < b.0 || (a.0 == b.0 && a.1 < b.1)
}

/// Whether `places` are the bookmarks that `ranges` shows at `from`, and these are all of them, in
/// the order in which they stand.
spec fn collects<M>(
    places: Seq<Place<M>>,
    ranges: Seq<RangeBookmarks<M>>,
    from: Seq<(int, int)>,
) -> bool {
    &&& from.len() == places.len()
    &&& forall|k: int|
        #![trigger from[k]]
        #![trigger places[k]]
        0 <= k < from.len() ==> shown_at(ranges, from[k].0, from[k].1) == Some(places[k])
    &&& forall|j: int, k: int|
        #![trigger from[j], from[k]]
        0 <= j < k < from.len() ==> stands_before(from[j], from[k])
    &&& forall|r: int, i: int|
        #![trigger shown_at(ranges, r, i)]
        shown_at(ranges, r, i) is Some ==> from.contains((r, i))
}

proof fn lemma_places_in<M>(found: Seq<Option<Place<M>>>) -> (at: Seq<int>)
    ensures
        at.len() == navigation::places_in(found).len(),
        forall|k: int|
            #![trigger at[k]]
            0 <= k < at.len() ==> 0 <= at[k] < found.len() && found[at[k]] == Some(
                navigation::places_in(found)[k],
            ),
        forall|j: int, k: int| 0 <= j < k < at.len() ==> at[j] < at[k],
        forall|i: int|
            #![trigger found[i]]
            0 <= i < found.len() && found[i] is Some ==> at.contains(i),
    decreases found.len(),
{
    if found.len() == 0 {
        Seq::empty()
    } else {
        let init = found.drop_last();
        let last = found.len() - 1;
        let rest = lemma_places_in(init);
        assert forall|k: int| #![trigger rest[k]] 0 <= k < rest.len() implies found[rest[k]]
            == init[rest[k]] by {}
        let at = if found.last() is Some {
            rest.push(last)
        } else {
            rest
        };
        assert forall|i: int|
            #![trigger found[i]]
            0 <= i < found.len() && found[i] is Some implies at.contains(i) by {
            if i < last {
                assert(init[i] == found[i]);
                assert(rest.contains(i));
                let k = choose|k: int| 0 <= k < rest.len() && rest[k] == i;
                assert(at[k] == i);
            } else {
                assert(at[rest.len() as int] == i);
            }
        }
        at
    }
}

proof fn lemma_all_places<M>(ranges: Seq<RangeBookmarks<M>>) -> (from: Seq<(int, int)>)
    ensures
        collects(navigation::all_places(ranges), ranges, from),
    decreases ranges.len(),
{
    if ranges.len() == 0 {
        Seq::empty()
    } else {
        let init = ranges.drop_last();
        let last = ranges.len() - 1;
        let rest = lemma_all_places(init);
        let all = navigation::all_places(ranges);
        let before = navigation::all_places(init);
        assert forall|r: int, i: int| #![trigger shown_at(ranges, r, i)] r != last implies shown_at(
            ranges,
            r,
            i,
        ) == shown_at(init, r, i) by {}
        let at = match ranges.last() {
            Some(found) => lemma_places_in(found@),
            None => Seq::empty(),
        };
        let more = at.map_values(|i: int| (last, i));
        let from = rest + more;
        assert forall|k: int|
            #![trigger from[k]]
            #![trigger all[k]]
            0 <= k < from.len() implies shown_at(ranges, from[k].0, from[k].1) == Some(all[k]) by {
            if k < rest.len() {
                assert(from[k] == rest[k]);
                assert(before[k] == all[k]);
                assert(shown_at(init, rest[k].0, rest[k].1) == Some(before[k]));
                assert(shown_at(ranges, rest[k].0, rest[k].1) == Some(before[k]));
            } else {
                assert(from[k] == (last, at[k - rest.len()]));
            }
        }
        assert forall|j: int, k: int|
            #![trigger from[j], from[k]]
            0 <= j < k < from.len() implies stands_before(from[j], from[k]) by {
            if j < rest.len() {
                assert(from[j] == rest[j]);
                assert(shown_at(init, rest[j].0, rest[j].1) is Some);
            }
            if k < rest.len() {
                assert(from[k] == rest[k]);
            } else {
                assert(from[k] == (last, at[k - rest.len()]));
                if j >= rest.len() {
                    assert(from[j] == (last, at[j - rest.len()]));
                }
            }
        }
        assert forall|r: int, i: int|
            #![trigger shown_at(ranges, r, i)]
            shown_at(ranges, r, i) is Some implies from.contains((r, i)) by {
            if r != last {
                assert(shown_at(init, r, i) is Some);
                assert(rest.contains((r, i)));
                let k = choose|k: int| 0 <= k < rest.len() && rest[k] == (r, i);
                assert(from[k] == (r, i));
            } else {
                assert(at.contains(i));
                let k = choose|k: int| 0 <= k < at.len() && at[k] == i;
                assert(from[rest.len() + k] == (r, i));
            }
        }
        from
    }
}

/// The entry on which a jump lands, with the places and where each of them stands.
proof fn lemma_landing<M: Copy>(
    search: &BookmarkSearch,
    ranges: Vec<RangeBookmarks<M>>,
    anchor: M,
) -> (landed: (Seq<Place<M>>, Seq<(int, int)>, int))
    requires
        call_ensures(BookmarkSearch::landing::<M>, (search, ranges), Some(anchor)),
    ensures
        collects(landed.0, ranges@, landed.1),
        0 <= landed.2 < landed.0.len(),
        landed.0[landed.2].anchor == anchor,
        navigation::lands_on(
            navigation::offsets(landed.0),
            search.direction,
            search.head,
            landed.2,
        ),
{
    let places = navigation::all_places(ranges@);
    let from = lemma_all_places(ranges@);
    let offsets = navigation::offsets(places);
    let k = choose|k: int|
        #![trigger places[k]]
        navigation::lands_on(offsets, search.direction, search.head, k) && Some(anchor) == Some(
            places[k].anchor,
        );
    (places, from, k)
}

/// A jump lands nowhere only where no known stretch holds a bookmark that is shown.
pub proof fn law_jump_lands_wherever_a_bookmark_is_shown<M: Copy>(
    search: &BookmarkSearch,
    ranges: Vec<RangeBookmarks<M>>,
    anchor: Option<M>,
)
    requires
        call_ensures(BookmarkSearch::landing::<M>, (search, ranges), anchor),
    ensures
        anchor is Some <==> exists|r: int, i: int|
            {
                &&& 0 <= r < ranges@.len() && ranges@[r] is Some
                &&& 0 <= i < ranges@[r]->0@.len()
                &&& (#[trigger] ranges@[r]->0@[i]) is Some
            },
{
    let from = lemma_all_places(ranges@);
    if anchor is Some {
        assert(shown_at(ranges@, from[0].0, from[0].1) is Some);
        assert(ranges@[from[0].0]->0@[from[0].1] is Some);
    }
    if exists|r: int, i: int|
        {
            &&& 0 <= r < ranges@.len() && ranges@[r] is Some
            &&& 0 <= i < ranges@[r]->0@.len()
            &&& (#[trigger] ranges@[r]->0@[i]) is Some
        } {
        let (r, i) = choose|r: int, i: int|
            {
                &&& 0 <= r < ranges@.len() && ranges@[r] is Some
                &&& 0 <= i < ranges@[r]->0@.len()
                &&& (#[trigger] ranges@[r]->0@[i]) is Some
            };
        assert(shown_at(ranges@, r, i) is Some);
        assert(from.contains((r, i)));
    }
}

/// A jump forward lands on a bookmark behind the head if there is one, and then on the one with the
/// smallest offset of these; else on the one with the smallest offset of all. Of several with that
/// offset it takes the first.
pub proof fn law_next_is_the_nearest_behind_the_head<M: Copy>(
    search: &BookmarkSearch,
    ranges: Vec<RangeBookmarks<M>>,
    anchor: M,
)
    requires
        call_ensures(BookmarkSearch::landing::<M>, (search, ranges), Some(anchor)),
        search.direction == Direction::Next,
    ensures
        exists|r: int, i: int|
            {
                &&& 0 <= r < ranges@.len() && ranges@[r] is Some
                &&& 0 <= i < ranges@[r]->0@.len()
                &&& #[trigger] ranges@[r]->0@[i] matches Some(landed) && {
                    &&& landed.anchor == anchor
                    &&& forall|s: int, j: int|
                        #![trigger ranges@[s]->0@[j]]
                        0 <= s < ranges@.len() && ranges@[s] is Some && 0 <= j
                            < ranges@[s]->0@.len() && ranges@[s]->0@[j] is Some ==> {
                            let other = ranges@[s]->0@[j]->0.offset;
                            &&& other > search.head ==> landed.offset > search.head
                            &&& other > search.head || landed.offset <= search.head ==> {
                                ||| landed.offset < other
                                ||| landed.offset == other && (r < s || (r == s && i <= j))
                            }
                        }
                }
            },
{
    let (places, from, k) = lemma_landing(search, ranges, anchor);
    let offsets = navigation::offsets(places);
    let (r, i) = from[k];
    assert(shown_at(ranges@, from[k].0, from[k].1) == Some(places[k]));
    assert(offsets[k] == places[k].offset);
    assert(ranges@[r]->0@[i] == Some(places[k]));
    assert forall|s: int, j: int|
        #![trigger ranges@[s]->0@[j]]
        0 <= s < ranges@.len() && ranges@[s] is Some && 0 <= j < ranges@[s]->0@.len()
            && ranges@[s]->0@[j] is Some implies {
        let other = ranges@[s]->0@[j]->0.offset;
        &&& other > search.head ==> places[k].offset > search.head
        &&& other > search.head || places[k].offset <= search.head ==> {
            ||| places[k].offset < other
            ||| places[k].offset == other && (r < s || (r == s && i <= j))
        }
    } by {
        assert(shown_at(ranges@, s, j) is Some);
        assert(from.contains((s, j)));
        let l = choose|l: int| 0 <= l < from.len() && from[l] == (s, j);
        assert(shown_at(ranges@, from[l].0, from[l].1) == Some(places[l]));
        assert(offsets[l] == places[l].offset);
        if l < k {
            assert(stands_before(from[l], from[k]));
        } else if k < l {
            assert(stands_before(from[k], from[l]));
        }
    }
}

/// A jump back lands on a bookmark before the head if there is one, and then on the one with the
/// largest offset of these; else on the one with the largest offset of all. Of several with that
/// offset it takes the last.
pub proof fn law_previous_is_the_nearest_before_the_head<M: Copy>(
    search: &BookmarkSearch,
    ranges: Vec<RangeBookmarks<M>>,
    anchor: M,
)
    requires
        call_ensures(BookmarkSearch::landing::<M>, (search, ranges), Some(anchor)),
        search.direction == Direction::Prev,
    ensures
        exists|r: int, i: int|
            {
                &&& 0 <= r < ranges@.len() && ranges@[r] is Some
                &&& 0 <= i < ranges@[r]->0@.len()
                &&& #[trigger] ranges@[r]->0@[i] matches Some(landed) && {
                    &&& landed.anchor == anchor
                    &&& forall|s: int, j: int|
                        #![trigger ranges@[s]->0@[j]]
                        0 <= s < ranges@.len() && ranges@[s] is Some && 0 <= j
                            < ranges@[s]->0@.len() && ranges@[s]->0@[j] is Some ==> {
                            let other = ranges@[s]->0@[j]->0.offset;
                            &&& other < search.head ==> landed.offset < search.head
                            &&& other < search.head || landed.offset >= search.head ==> {
                                ||| landed.offset > other
                                ||| landed.offset == other && (r > s || (r == s && i >= j))
                            }
                        }
                }
            },
{
    let (places, from, k) = lemma_landing(search, ranges, anchor);
    let offsets = navigation::offsets(places);
    let (r, i) = from[k];
    assert(shown_at(ranges@, from[k].0, from[k].1) == Some(places[k]));
    assert(offsets[k] == places[k].offset);
    assert(ranges@[r]->0@[i] == Some(places[k]));
    assert forall|s: int, j: int|
        #![trigger ranges@[s]->0@[j]]
        0 <= s < ranges@.len() && ranges@[s] is Some && 0 <= j < ranges@[s]->0@.len()
            && ranges@[s]->0@[j] is Some implies {
        let other = ranges@[s]->0@[j]->0.offset;
        &&& other < search.head ==> places[k].offset < search.head
        &&& other < search.head || places[k].offset >= search.head ==> {
            ||| places[k].offset > other
            ||| places[k].offset == other && (r > s || (r == s && i >= j))
        }
    } by {
        assert(shown_at(ranges@, s, j) is Some);
        assert(from.contains((s, j)));
        let l = choose|l: int| 0 <= l < from.len() && from[l] == (s, j);
        assert(shown_at(ranges@, from[l].0, from[l].1) == Some(places[l]));
        assert(offsets[l] == places[l].offset);
        if l < k {
            assert(stands_before(from[l], from[k]));
        } else if k < l {
            assert(stands_before(from[k], from[l]));
        }
    }
}

/// What a jump does is to unfold the text where it lands, and then to put the cursor there; where
/// it lands nowhere, it does nothing.
pub proof fn law_jump_goes_where_it_lands<M: Copy>(
    search: &BookmarkSearch,
    ranges: Vec<RangeBookmarks<M>>,
    anchor: Option<M>,
    effects: Vec<JumpEffect<M>>,
)
    requires
        call_ensures(BookmarkSearch::landing::<M>, (search, ranges), anchor),
        call_ensures(BookmarkSearch::jump::<M>, (search, ranges), effects),
    ensures
        effects@ == match anchor {
            Some(anchor) => seq![JumpEffect::Unfold { anchor }, JumpEffect::Select { anchor }],
            None => Seq::empty(),
        },
{
    let places = navigation::all_places(ranges@);
    let offsets = navigation::offsets(places);
    if places.len() > 0 {
        navigation::law_jump_lands_on_one(offsets, search.direction, search.head);
        assert(offsets.len() == places.len());
    } else {
        assert(effects@ =~= Seq::empty());
    }
}

/// A jump starts from the newest selection's head and takes in the whole text, forward or back as
/// was asked for; it takes place wherever there are a project and a store.
pub proof fn law_jump_takes_in_the_whole_text(
    editor: &Editor,
    head: usize,
    len: usize,
    next: Option<BookmarkSearch>,
    previous: Option<BookmarkSearch>,
)
    requires
        call_ensures(Editor::go_to_next_bookmark, (editor, head, len), next),
        call_ensures(Editor::go_to_previous_bookmark, (editor, head, len), previous),
    ensures
        next is Some <==> editor.has_project && editor.has_bookmark_store,
        previous is Some <==> editor.has_project && editor.has_bookmark_store,
        next matches Some(search) ==> {
            &&& search.direction == Direction::Next
            &&& search.head == head
            &&& search.range.start == 0
            &&& search.range.end == len
        },
        previous matches Some(search) ==> {
            &&& search.direction == Direction::Prev
            &&& search.head == head
            &&& search.range.start == 0
            &&& search.range.end == len
        },
{
}

/// The store is asked for the bookmarks of the very stretch of text, with anchors that keep to the
/// outside of it, so that bookmarks at its ends count.
pub proof fn law_query_takes_in_both_ends(range: Range<usize>, query: BookmarkQuery)
    requires
        call_ensures(BookmarkQuery::new, (range,), query),
    ensures
        query.start == range.start,
        query.end == range.end,
        query.start_bias == Bias::Left,
        query.end_bias == Bias::Right,
{
}

} // verus!
