//! Jumping from bookmark to bookmark: which bookmarks a search takes in, and which of them a
//! jump from a given offset lands on.

use crate::order;
use std::ops::Range;
use vstd::prelude::*;

verus! {

/// Which way a jump goes.
#[derive(Clone, Copy, Debug, PartialEq, Eq, Structural)]
pub enum Direction {
    Next,
    Prev,
}

/// An anchor together with the offset at which it stands.
#[derive(Debug, PartialEq, Eq)]
pub struct Place<M> {
    pub anchor: M,
    pub offset: usize,
}

/// To which side of a position an anchor keeps when text is inserted there.
#[derive(Clone, Copy, Debug, PartialEq, Eq, Structural)]
pub enum Bias {
    Left,
    Right,
}

/// The stretch of a buffer whose bookmarks the store is asked for, each end with the side to
/// which its anchor keeps.
#[derive(Debug, PartialEq, Eq)]
pub struct BookmarkQuery {
    pub start: usize,
    pub start_bias: Bias,
    pub end: usize,
    pub end_bias: Bias,
}

impl BookmarkQuery {
    /// Asks for the bookmarks of `range`, including those at its very ends.
    pub fn new(range: Range<usize>) -> (query: Self)
        ensures
            query == (BookmarkQuery {
                start: range.start,
                start_bias: Bias::Left,
                end: range.end,
                end_bias: Bias::Right,
            }),
    {
        BookmarkQuery {
            start: range.start,
            start_bias: Bias::Left,
            end: range.end,
            end_bias: Bias::Right,
        }
    }
}

/// What the store has for one stretch of a buffer: `None` where the project does not know the
/// buffer, else one entry per bookmark, `None` for one that the editor does not show.
pub type RangeBookmarks<M> = Option<Vec<Option<Place<M>>>>;

/// The places in `found`, in order.
pub open spec fn places_in<M>(found: Seq<Option<Place<M>>>) -> Seq<Place<M>>
    decreases found.len(),
{
    if found.len() == 0 {
        Seq::empty()
    } else {
        match found.last() {
            Some(place) => places_in(found.drop_last()).push(place),
            None => places_in(found.drop_last()),
        }
    }
}

/// The places in all of `ranges`, in order.
pub open spec fn all_places<M>(ranges: Seq<RangeBookmarks<M>>) -> Seq<Place<M>>
    decreases ranges.len(),
{
    if ranges.len() == 0 {
        Seq::empty()
    } else {
        match ranges.last() {
            Some(found) => all_places(ranges.drop_last()) + places_in(found@),
            None => all_places(ranges.drop_last()),
        }
    }
}

/// The offsets of `places`.
pub open spec fn offsets<M>(places: Seq<Place<M>>) -> Seq<usize> {
    places.map_values(|place: Place<M>| place.offset)
}

/// The bookmarks that the editor shows, out of what the store has for each stretch of text.
pub fn bookmarks_in_range<M>(ranges: Vec<RangeBookmarks<M>>) -> (places: Vec<Place<M>>)
    ensures
        places@ == all_places(ranges@),
{
    let ghost all = ranges@;
    let mut places: Vec<Place<M>> = Vec::new();
    for range in ranges_iter: ranges
        invariant
            ranges_iter.seq() == all,
            places@ == all_places(all.take(ranges_iter.index() as int)),
    {
        let ghost upto = all.take(ranges_iter.index() as int);
        let ghost next = all.take(ranges_iter.index() + 1);
        proof {
            assert(next.drop_last() =~= upto);
        }
        if let Some(found) = range {
            let ghost whole = found@;
            for entry in found_iter: found
                invariant
                    found_iter.seq() == whole,
                    places@ == all_places(upto) + places_in(
                        whole.take(found_iter.index() as int),
                    ),
            {
                let ghost more = whole.take(found_iter.index() + 1);
                proof {
                    assert(more.drop_last() =~= whole.take(found_iter.index() as int));
                }
                if let Some(place) = entry {
                    places.push(place);
                    proof {
                        assert(places@ =~= all_places(upto) + places_in(more));
                    }
                }
            }
            proof {
                assert(whole.take(whole.len() as int) =~= whole);
            }
        }
    }
    proof {
        assert(all.take(all.len() as int) =~= all);
    }
    places
}

/// Whether the bookmark at position `k` is first among those that `among` admits: none of them
/// has a smaller offset, and none with the same offset stands earlier.
pub open spec fn is_first(at: Seq<usize>, among: spec_fn(usize) -> bool, k: int) -> bool {
    &&& 0 <= k < at.len()
    &&& among(at[k])
    &&& forall|j: int|
        #![trigger at[j]]
        0 <= j < at.len() && among(at[j]) ==> at[k] < at[j] || (at[k] == at[j] && k <= j)
}

/// Whether the bookmark at position `k` is last among those that `among` admits: none of them
/// has a larger offset, and none with the same offset stands later.
pub open spec fn is_last(at: Seq<usize>, among: spec_fn(usize) -> bool, k: int) -> bool {
    &&& 0 <= k < at.len()
    &&& among(at[k])
    &&& forall|j: int|
        #![trigger at[j]]
        0 <= j < at.len() && among(at[j]) ==> at[k] > at[j] || (at[k] == at[j] && k >= j)
}

/// Whether a jump from `head` lands on the bookmark at position `k`, for bookmarks at the
/// offsets `at`: the nearest one strictly beyond `head` in the direction of the jump, or, where
/// there is none, the one farthest the other way.
pub open spec fn lands_on(at: Seq<usize>, direction: Direction, head: usize, k: int) -> bool {
    match direction {
        Direction::Next => if exists|j: int| 0 <= j < at.len() && at[j] > head {
            is_first(at, |o: usize| o > head, k)
        } else {
            is_first(at, |o: usize| true, k)
        },
        Direction::Prev => if exists|j: int| 0 <= j < at.len() && at[j] < head {
            is_last(at, |o: usize| o < head, k)
        } else {
            is_last(at, |o: usize| true, k)
        },
    }
}

/// Something that the host does to carry out a jump.
#[derive(Debug, PartialEq, Eq)]
pub enum JumpEffect<M> {
    /// Unfolds what is folded at the anchor, without scrolling there.
    Unfold { anchor: M },
    /// Puts the cursor at the anchor, as the only selection, and scrolls it to the center.
    Select { anchor: M },
}

/// A jump that has been asked for.
#[derive(Debug, PartialEq, Eq)]
pub struct BookmarkSearch {
    pub direction: Direction,
    /// Where the newest selection has its head.
    pub head: usize,
    /// The stretch of text whose bookmarks count.
    pub range: Range<usize>,
}

impl BookmarkSearch {
    /// Whether this is a jump from `head` through the whole of a text of `len` bytes.
    pub open spec fn starts_for(self, direction: Direction, head: usize, len: usize) -> bool {
        &&& self.direction == direction
        &&& self.head == head
        &&& self.range.start == 0
        &&& self.range.end == len
    }

    /// The anchor that the jump lands on, out of what the store has for each stretch of text in
    /// the range.
    pub fn landing<M: Copy>(&self, ranges: Vec<RangeBookmarks<M>>) -> (anchor: Option<M>)
        ensures
            anchor is Some <==> all_places(ranges@).len() > 0,
            anchor is Some ==> exists|k: int|
                #![trigger all_places(ranges@)[k]]
                lands_on(offsets(all_places(ranges@)), self.direction, self.head, k) && anchor
                    == Some(all_places(ranges@)[k].anchor),
    {
        let places = bookmarks_in_range(ranges);
        let n: usize = places.len();
        let ghost at = offsets(places@);
        let ghost up_to = |a: int, b: int| at[a] <= at[b];
        let compare = |a: usize, b: usize| -> (r: bool)
            requires
                a < places@.len(),
                b < places@.len(),
            ensures
                r == (places@[a as int].offset <= places@[b as int].offset),
            {
                places[a].offset <= places[b].offset
            };
        let sorted = order::stable_order(n, compare, Ghost(up_to));
        if n == 0 {
            return None;
        }
        let chosen: usize = match self.direction {
            Direction::Next => {
                let mut i: usize = 0;
                while i < n && places[sorted[i]].offset <= self.head
                    invariant
                        i <= n,
                        n == places@.len(),
                        order::is_stable_order(sorted@, n as nat, up_to),
                        forall|j: int|
                            0 <= j < i ==> places@[#[trigger] sorted@[j] as int].offset <= self.head,
                    decreases n - i,
                {
                    i = i + 1;
                }
                if i < n {
                    i
                } else {
                    0
                }
            },
            Direction::Prev => {
                let mut i: usize = n;
                while i > 0 && places[sorted[i - 1]].offset >= self.head
                    invariant
                        i <= n,
                        n == places@.len(),
                        order::is_stable_order(sorted@, n as nat, up_to),
                        forall|j: int|
                            i <= j < n ==> places@[#[trigger] sorted@[j] as int].offset >= self.head,
                    decreases i,
                {
                    i = i - 1;
                }
                if i > 0 {
                    i - 1
                } else {
                    n - 1
                }
            },
        };
        proof {
            let k = sorted@[chosen as int] as int;
            assert forall|j: int|
                #![trigger at[j]]
                0 <= j < n implies exists|i: int| 0 <= i < n && sorted@[i] == j by {
                order::lemma_permutation_reaches(sorted@, n as nat, j);
            }
            assert forall|i: int| 0 <= i < n implies {
                let j = #[trigger] sorted@[i] as int;
                &&& i < chosen ==> at[j] < at[k] || (at[j] == at[k] && j < k)
                &&& i > chosen ==> at[k] < at[j] || (at[k] == at[j] && k < j)
            } by {
                if i < chosen {
                    assert(order::goes_before(up_to, sorted@[i] as int, k));
                } else if i > chosen {
                    assert(order::goes_before(up_to, k, sorted@[i] as int));
                }
            }
            assert(lands_on(at, self.direction, self.head, k));
        }
        Some(places[sorted[chosen]].anchor)
    }

    /// What the jump does: where it lands somewhere, the text there is unfolded and the cursor
    /// put there; else nothing.
    pub fn jump<M: Copy>(&self, ranges: Vec<RangeBookmarks<M>>) -> (effects: Vec<JumpEffect<M>>)
        ensures
            all_places(ranges@).len() == 0 ==> effects@.len() == 0,
            all_places(ranges@).len() > 0 ==> exists|k: int|
                #![trigger all_places(ranges@)[k]]
                {
                    let anchor = all_places(ranges@)[k].anchor;
                    &&& lands_on(offsets(all_places(ranges@)), self.direction, self.head, k)
                    &&& effects@ == seq![
                        JumpEffect::Unfold { anchor },
                        JumpEffect::Select { anchor },
                    ]
                },
    {
        let mut effects: Vec<JumpEffect<M>> = Vec::new();
        if let Some(anchor) = self.landing(ranges) {
            effects.push(JumpEffect::Unfold { anchor });
            effects.push(JumpEffect::Select { anchor });
            proof {
                assert(effects@ =~= seq![
                    JumpEffect::Unfold { anchor },
                    JumpEffect::Select { anchor },
                ]);
            }
        }
        effects
    }
}

/// The other way.
pub open spec fn opposite(direction: Direction) -> Direction {
    match direction {
        Direction::Next => Direction::Prev,
        Direction::Prev => Direction::Next,
    }
}

proof fn lemma_first_exists(at: Seq<usize>, among: spec_fn(usize) -> bool, j: int)
    requires
        0 <= j < at.len(),
        among(at[j]),
    ensures
        exists|k: int| is_first(at, among, k),
    decreases at.len(),
{
    let init = at.drop_last();
    let last = at.len() - 1;
    if exists|i: int| 0 <= i < last && among(#[trigger] at[i]) {
        let i = choose|i: int| 0 <= i < last && among(#[trigger] at[i]);
        assert(among(init[i]));
        lemma_first_exists(init, among, i);
        let k = choose|k: int| is_first(init, among, k);
        assert forall|j: int| #![trigger at[j]] 0 <= j < last implies init[j] == at[j] by {}
        if among(at[last]) && at[last] < at[k] {
            assert(is_first(at, among, last));
        } else {
            assert(is_first(at, among, k));
        }
    } else {
        assert(is_first(at, among, last));
    }
}

proof fn lemma_last_exists(at: Seq<usize>, among: spec_fn(usize) -> bool, j: int)
    requires
        0 <= j < at.len(),
        among(at[j]),
    ensures
        exists|k: int| is_last(at, among, k),
    decreases at.len(),
{
    let init = at.drop_last();
    let last = at.len() - 1;
    if exists|i: int| 0 <= i < last && among(#[trigger] at[i]) {
        let i = choose|i: int| 0 <= i < last && among(#[trigger] at[i]);
        assert(among(init[i]));
        lemma_last_exists(init, among, i);
        let k = choose|k: int| is_last(init, among, k);
        assert forall|j: int| #![trigger at[j]] 0 <= j < last implies init[j] == at[j] by {}
        if among(at[last]) && at[last] >= at[k] {
            assert(is_last(at, among, last));
        } else {
            assert(is_last(at, among, k));
        }
    } else {
        assert(is_last(at, among, last));
    }
}

/// Where there is a bookmark at all, a jump lands on exactly one.
pub proof fn law_jump_lands_on_one(at: Seq<usize>, direction: Direction, head: usize)
    requires
        at.len() > 0,
    ensures
        exists|k: int| lands_on(at, direction, head, k),
        forall|j: int, k: int|
            lands_on(at, direction, head, j) && lands_on(at, direction, head, k) ==> j == k,
{
    match direction {
        Direction::Next => {
            if exists|j: int| 0 <= j < at.len() && at[j] > head {
                let j = choose|j: int| 0 <= j < at.len() && at[j] > head;
                let among = |o: usize| o > head;
                lemma_first_exists(at, among, j);
                let k = choose|k: int| is_first(at, among, k);
                assert(lands_on(at, direction, head, k));
            } else {
                let among = |o: usize| true;
                lemma_first_exists(at, among, 0);
                let k = choose|k: int| is_first(at, among, k);
                assert(lands_on(at, direction, head, k));
            }
        },
        Direction::Prev => {
            if exists|j: int| 0 <= j < at.len() && at[j] < head {
                let j = choose|j: int| 0 <= j < at.len() && at[j] < head;
                let among = |o: usize| o < head;
                lemma_last_exists(at, among, j);
                let k = choose|k: int| is_last(at, among, k);
                assert(lands_on(at, direction, head, k));
            } else {
                let among = |o: usize| true;
                lemma_last_exists(at, among, 0);
                let k = choose|k: int| is_last(at, among, k);
                assert(lands_on(at, direction, head, k));
            }
        },
    }
}

/// From a bookmark, a jump and then a jump the other way lead back to its offset.
pub proof fn law_jump_back_returns(at: Seq<usize>, direction: Direction, start: int, k: int, back: int)
    requires
        0 <= start < at.len(),
        lands_on(at, direction, at[start], k),
        lands_on(at, opposite(direction), at[k], back),
    ensures
        at[back] == at[start],
{
    match direction {
        Direction::Next => {
            if exists|j: int| 0 <= j < at.len() && at[j] > at[start] {
                assert(at[start] < at[k]);
            }
        },
        Direction::Prev => {
            if exists|j: int| 0 <= j < at.len() && at[j] < at[start] {
                assert(at[start] > at[k]);
            }
        },
    }
}

/// The offset on which a jump from `head` lands.
pub open spec fn landing_offset(at: Seq<usize>, direction: Direction, head: usize) -> usize {
    at[choose|k: int| lands_on(at, direction, head, k)]
}

/// The offset after `n` jumps from `head`.
pub open spec fn after_jumps(at: Seq<usize>, direction: Direction, head: usize, n: nat) -> usize
    decreases n,
{
    if n == 0 {
        head
    } else {
        after_jumps(at, direction, landing_offset(at, direction, head), (n - 1) as nat)
    }
}

/// How far `head` has to move in the direction of the jumps to reach `goal`; nothing where it
/// lies behind.
spec fn way(direction: Direction, head: usize, goal: usize) -> nat {
    match direction {
        Direction::Next => if head < goal { (goal - head) as nat } else { 0 },
        Direction::Prev => if head > goal { (head - goal) as nat } else { 0 },
    }
}

/// Jumping on in one direction comes to every bookmark, wherever it starts.
pub proof fn law_jumps_reach_every_bookmark(
    at: Seq<usize>,
    direction: Direction,
    head: usize,
    goal: int,
)
    requires
        0 <= goal < at.len(),
    ensures
        exists|n: nat| after_jumps(at, direction, head, n) == at[goal],
{
    let any = |o: usize| true;
    lemma_last_exists(at, any, goal);
    lemma_first_exists(at, any, goal);
    let farthest = match direction {
        Direction::Next => choose|k: int| is_last(at, any, k),
        Direction::Prev => choose|k: int| is_first(at, any, k),
    };
    lemma_jumps_reach(at, direction, head, goal, farthest);
}

proof fn lemma_jumps_reach(
    at: Seq<usize>,
    direction: Direction,
    head: usize,
    goal: int,
    farthest: int,
)
    requires
        0 <= goal < at.len(),
        match direction {
            Direction::Next => is_last(at, |o: usize| true, farthest),
            Direction::Prev => is_first(at, |o: usize| true, farthest),
        },
    ensures
        exists|n: nat| after_jumps(at, direction, head, n) == at[goal],
    decreases
        (if way(direction, head, at[goal]) > 0 {
            0nat
        } else {
            1nat
        }),
        (if way(direction, head, at[goal]) > 0 {
            way(direction, head, at[goal])
        } else {
            way(direction, head, at[farthest])
        }),
{
    law_jump_lands_on_one(at, direction, head);
    let k = choose|k: int| lands_on(at, direction, head, k);
    let next = at[k];
    assert(next == landing_offset(at, direction, head));
    if next == at[goal] {
        assert(after_jumps(at, direction, next, 0) == at[goal]);
        assert(after_jumps(at, direction, head, 1) == at[goal]) by {
            reveal_with_fuel(after_jumps, 2);
        }
    } else {
        lemma_jumps_reach(at, direction, next, goal, farthest);
        let n = choose|n: nat| after_jumps(at, direction, next, n) == at[goal];
        assert(after_jumps(at, direction, head, n + 1) == at[goal]);
    }
}

/// The bookmarks by offset.
pub open spec fn by_offset(at: Seq<usize>) -> spec_fn(int, int) -> bool {
    |a: int, b: int| at[a] <= at[b]
}

/// Among bookmarks at different offsets, a jump from the one at place `i` by offset lands on the
/// one at the place after it, or before it, with the last and the first next to each other.
pub proof fn law_jump_goes_one_place_on(
    at: Seq<usize>,
    direction: Direction,
    sorted: Seq<usize>,
    i: int,
)
    requires
        at.no_duplicates(),
        order::is_stable_order(sorted, at.len(), by_offset(at)),
        0 <= i < at.len(),
    ensures
        landing_offset(at, direction, at[sorted[i] as int]) == at[sorted[match direction {
            Direction::Next => if i + 1 < at.len() { i + 1 } else { 0 },
            Direction::Prev => if i > 0 { i - 1 } else { at.len() - 1 },
        }] as int],
{
    let n = at.len() as int;
    let head = at[sorted[i] as int];
    let place = match direction {
        Direction::Next => if i + 1 < n { i + 1 } else { 0 },
        Direction::Prev => if i > 0 { i - 1 } else { n - 1 },
    };
    let k = sorted[place] as int;
    assert forall|x: int, y: int|
        #![trigger sorted[x], sorted[y]]
        0 <= x < y < n implies at[sorted[x] as int] < at[sorted[y] as int] by {
        assert(order::goes_before(by_offset(at), sorted[x] as int, sorted[y] as int));
        assert(sorted[x] != sorted[y]);
    }
    assert(lands_on(at, direction, head, k)) by {
        assert forall|j: int| #![trigger at[j]] 0 <= j < n implies {
            let x = choose|x: int| 0 <= x < n && sorted[x] == j;
            &&& 0 <= x < n
            &&& (x < place ==> at[j] < at[k]) && (x > place ==> at[j] > at[k])
            &&& (x < i ==> at[j] < head) && (x > i ==> at[j] > head)
            &&& (x == place ==> j == k) && (x == i ==> at[j] == head)
        } by {
            order::lemma_permutation_reaches(sorted, at.len(), j);
        }
        assert(at[k] == at[sorted[place] as int]);
        match direction {
            Direction::Next => {
                if i + 1 < n {
                    assert(at[k] > head);
                    assert(is_first(at, |o: usize| o > head, k));
                } else {
                    assert(forall|j: int| #![trigger at[j]] 0 <= j < n ==> at[j] <= head);
                    assert(is_first(at, |o: usize| true, k));
                }
            },
            Direction::Prev => {
                if i > 0 {
                    assert(at[k] < head);
                    assert(is_last(at, |o: usize| o < head, k));
                } else {
                    assert(forall|j: int| #![trigger at[j]] 0 <= j < n ==> at[j] >= head);
                    assert(is_last(at, |o: usize| true, k));
                }
            },
        }
    }
    law_jump_lands_on_one(at, direction, head);
}

/// Among bookmarks at different offsets, jumping on goes round: after `m` jumps it is `m` places
/// on, so as many jumps as there are bookmarks visit each of them once and end where they began.
pub proof fn law_jumps_go_round(
    at: Seq<usize>,
    direction: Direction,
    sorted: Seq<usize>,
    i: int,
    m: nat,
)
    requires
        at.no_duplicates(),
        order::is_stable_order(sorted, at.len(), by_offset(at)),
        0 <= i < at.len(),
        m <= at.len(),
    ensures
        after_jumps(at, direction, at[sorted[i] as int], m) == at[sorted[round(
            at.len(),
            direction,
            i,
            m,
        )] as int],
        0 <= round(at.len(), direction, i, m) < at.len(),
        round(at.len(), direction, i, at.len()) == i,
        forall|a: nat, b: nat|
            #![trigger round(at.len(), direction, i, a), round(at.len(), direction, i, b)]
            a < b < at.len() ==> round(at.len(), direction, i, a) != round(
                at.len(),
                direction,
                i,
                b,
            ),
    decreases m,
{
    if m > 0 {
        law_jump_goes_one_place_on(at, direction, sorted, i);
        let next = round(at.len(), direction, i, 1);
        law_jumps_go_round(at, direction, sorted, next, (m - 1) as nat);
    }
}

/// The place that is `m` places on from place `i` of `n`, for `m` up to `n`, going round.
pub open spec fn round(n: nat, direction: Direction, i: int, m: nat) -> int {
    match direction {
        Direction::Next => if i + m < n { i + m } else { i + m - n },
        Direction::Prev => if i - m >= 0 { i - m } else { i - m + n },
    }
}

} // verus!
