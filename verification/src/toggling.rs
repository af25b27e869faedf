//! Toggling the bookmarks of all rows that have a selection's head.

use crate::editor;
use crate::editor::{BookmarkTarget, BufferSource, Editor, Lookup, LookupRequest, Spot};
use crate::order;
use crate::position;
use crate::position::Point;
use crate::prompt;
use crate::prompt::{Effect, EffectView};
use vstd::prelude::*;

verus! {

/// Whether `rows` are the rows on which `heads` stand, each once, from the top down.
pub open spec fn are_rows_of(rows: Seq<u32>, heads: Seq<Point>) -> bool {
    &&& forall|i: int, j: int| 0 <= i < j < rows.len() ==> rows[i] < rows[j]
    &&& forall|row: u32| #[trigger]
        rows.contains(row) <==> exists|k: int| 0 <= k < heads.len() && heads[k].row == row
}

/// A toggle of bookmarks on several rows: the rows, how many of them have been looked up, and
/// where bookmarks are to be set once all have.
#[derive(Debug, PartialEq, Eq)]
pub struct RowToggles<B, A> {
    pub rows: Vec<u32>,
    pub next: usize,
    pub prompt_for_name: bool,
    pub bookmarks_to_add: Vec<BookmarkTarget<B, A>>,
}

/// What a lookup does at once: a bookmark that is there is removed.
pub open spec fn removed<B, A>(lookup: Lookup<B, A>) -> Seq<EffectView<BookmarkTarget<B, A>>> {
    match lookup {
        Lookup::Found { buffer, anchor, bookmark: Some(_) } => seq![
            EffectView::ToggleBookmark {
                target: BookmarkTarget { buffer, anchor },
                name: Seq::empty(),
            },
        ],
        _ => Seq::empty(),
    }
}

/// What `effect` stands for, where there is one.
pub open spec fn one_or_none<T>(effect: Option<Effect<T>>) -> Seq<EffectView<T>> {
    match effect {
        Some(effect) => seq![effect@],
        None => Seq::empty(),
    }
}

/// What a lookup leaves to be done at the end: a place without a bookmark gets one.
pub open spec fn left_to_add<B, A>(lookup: Lookup<B, A>) -> Seq<BookmarkTarget<B, A>> {
    match lookup {
        Lookup::Found { buffer, anchor, bookmark: None } => seq![BookmarkTarget { buffer, anchor }],
        _ => Seq::empty(),
    }
}

/// The rows on which `heads` stand, each once, from the top down.
fn bookmark_rows(heads: &Vec<Point>) -> (rows: Vec<u32>)
    ensures
        are_rows_of(rows@, heads@),
{
    let n: usize = heads.len();
    let ghost up_to = |a: int, b: int| position::point_up_to(heads@[a], heads@[b]);
    let compare = |a: usize, b: usize| -> (r: bool)
        requires
            a < heads@.len(),
            b < heads@.len(),
        ensures
            r == position::point_up_to(heads@[a as int], heads@[b as int]),
        {
            heads[a].is_up_to(&heads[b])
        };
    let sorted = order::stable_order(n, compare, Ghost(up_to));
    let mut rows: Vec<u32> = Vec::new();
    let mut i: usize = 0;
    while i < n
        invariant
            i <= n == heads@.len(),
            order::is_stable_order(sorted@, n as nat, up_to),
            up_to == |a: int, b: int| position::point_up_to(heads@[a], heads@[b]),
            i == 0 <==> rows@.len() == 0,
            i > 0 ==> rows@.last() == heads@[sorted@[i - 1] as int].row,
            forall|j: int, k: int| 0 <= j < k < rows@.len() ==> rows@[j] < rows@[k],
            forall|row: u32| #[trigger]
                rows@.contains(row) <==> exists|j: int|
                    0 <= j < i && heads@[#[trigger] sorted@[j] as int].row == row,
        decreases n - i,
    {
        let row: u32 = heads[sorted[i]].row;
        let ghost before = rows@;
        proof {
            if i > 0 {
                assert(order::goes_before(up_to, sorted@[i - 1] as int, sorted@[i as int] as int));
            }
        }
        if i == 0 || rows[rows.len() - 1] != row {
            rows.push(row);
        }
        proof {
            assert(rows@.contains(row)) by {
                assert(rows@.last() == row);
            }
            assert forall|r: u32| #[trigger] rows@.contains(r) <==> exists|j: int|
                0 <= j < i + 1 && heads@[#[trigger] sorted@[j] as int].row == r by {
                if r == row {
                    assert(heads@[sorted@[i as int] as int].row == r);
                } else {
                    assert(rows@.contains(r) <==> before.contains(r)) by {
                        if before.contains(r) {
                            let j = choose|j: int| 0 <= j < before.len() && before[j] == r;
                            assert(rows@[j] == r);
                        }
                    }
                }
            }
        }
        i = i + 1;
    }
    proof {
        assert forall|row: u32| #[trigger] rows@.contains(row) <==> exists|k: int|
            0 <= k < heads@.len() && heads@[k].row == row by {
            if exists|k: int| 0 <= k < heads@.len() && heads@[k].row == row {
                let k = choose|k: int| 0 <= k < heads@.len() && heads@[k].row == row;
                order::lemma_permutation_reaches(sorted@, n as nat, k);
                let j = choose|j: int| 0 <= j < n && sorted@[j] == k;
                assert(heads@[sorted@[j] as int].row == row);
            }
        }
    }
    rows
}

impl<B, A> RowToggles<B, A> {
    /// Whether this is a toggle on the rows of `heads` of which no row has been looked up yet.
    pub open spec fn starts_for(self, heads: Seq<Point>, prompt_for_name: bool) -> bool {
        &&& are_rows_of(self.rows@, heads)
        &&& self.next == 0
        &&& self.prompt_for_name == prompt_for_name
        &&& self.bookmarks_to_add@.len() == 0
    }

    /// Whether a toggle that stands at `self` and is given `lookup` for its next row answers with
    /// `effect` and stands at `after`.
    pub open spec fn goes_on(
        self,
        lookup: Lookup<B, A>,
        effect: Option<Effect<BookmarkTarget<B, A>>>,
        after: Self,
    ) -> bool {
        &&& after.rows == self.rows
        &&& after.next == self.next + 1
        &&& after.prompt_for_name == self.prompt_for_name
        &&& after.bookmarks_to_add@ == self.bookmarks_to_add@ + left_to_add(lookup)
        &&& removed(lookup) == one_or_none(effect)
    }

    /// A toggle on the rows of `heads`.
    pub(crate) fn new(heads: &Vec<Point>, prompt_for_name: bool) -> (toggle: Self)
        ensures
            toggle.starts_for(heads@, prompt_for_name),
    {
        RowToggles {
            rows: bookmark_rows(heads),
            next: 0,
            prompt_for_name,
            bookmarks_to_add: Vec::new(),
        }
    }

    /// The next lookup to make; `None` when all rows have been looked up.
    pub fn request<M>(&self) -> (request: Option<LookupRequest<M>>)
        ensures
            request == if self.next < self.rows@.len() {
                Some(
                    LookupRequest {
                        spot: Spot::<M>::Before(
                            Point { row: self.rows@[self.next as int], column: 0 },
                        ),
                        buffers: BufferSource::Project,
                    },
                )
            } else {
                None
            },
    {
        if self.next < self.rows.len() {
            Some(
                LookupRequest {
                    spot: Spot::Before(Point::row_start(self.rows[self.next])),
                    buffers: BufferSource::Project,
                },
            )
        } else {
            None
        }
    }

    /// Takes what the lookup for the next row found, and answers with what is to be done before
    /// the row after it is looked up.
    pub fn found(&mut self, lookup: Lookup<B, A>) -> (effect: Option<Effect<BookmarkTarget<B, A>>>)
        requires
            old(self).next < old(self).rows.len(),
        ensures
            old(self).goes_on(lookup, effect, *final(self)),
    {
        self.next = self.next + 1;
        let ghost looked_up = lookup;
        let bookmark_exists = lookup.bookmark_exists_for_target();
        let effect = match lookup {
            Lookup::Found { buffer, anchor, .. } => {
                let target = BookmarkTarget { buffer, anchor };
                if bookmark_exists {
                    Some(Effect::ToggleBookmark { target, name: String::new() })
                } else {
                    self.bookmarks_to_add.push(target);
                    None
                }
            },
            _ => None,
        };
        proof {
            assert(self.bookmarks_to_add@ =~= old(self).bookmarks_to_add@ + left_to_add(looked_up));
            assert(removed(looked_up) =~= one_or_none(effect));
        }
        effect
    }

    /// What is to be done once all rows have been looked up: new bookmarks are set, and the
    /// editor is drawn anew.
    pub fn finish(self, editor: &Editor) -> (effects: Vec<Effect<BookmarkTarget<B, A>>>)
        requires
            self.next >= self.rows@.len(),
        ensures
            prompt::effects_view(effects@) == finished(
                *editor,
                self.bookmarks_to_add@,
                self.prompt_for_name,
            ),
    {
        let ghost targets = self.bookmarks_to_add@;
        let mut effects: Vec<Effect<BookmarkTarget<B, A>>> = Vec::new();
        if !self.bookmarks_to_add.is_empty() {
            effects =
            editor.prompt_for_bookmark_name_or_toggle(self.bookmarks_to_add, self.prompt_for_name);
        }
        let ghost before = effects@;
        effects.push(Effect::Notify);
        proof {
            assert(prompt::effects_view(effects@) =~= prompt::effects_view(before).push(
                EffectView::Notify,
            ));
            if targets.len() == 0 {
                assert(prompt::effects_view(before) =~= Seq::empty());
            }
        }
        effects
    }
}

/// What a toggle does at its end, with `targets` left to be set.
pub open spec fn finished<T>(editor: Editor, targets: Seq<T>, prompt_for_name: bool) -> Seq<
    EffectView<T>,
> {
    let stored = if targets.len() == 0 {
        Seq::empty()
    } else {
        editor::added(editor, targets, prompt_for_name)
    };
    stored.push(EffectView::Notify)
}

} // verus!
