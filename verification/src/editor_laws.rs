//! What holds of the editor's bookmark commands over whole runs.

use crate::editor;
use crate::editor::{BookmarkTarget, Editor, Lookup};
use crate::position::Point;
use crate::prompt;
use crate::prompt::{BookmarkNamePromptMode, Effect, EffectView, PromptView};
use crate::text;
use crate::toggling;
use crate::toggling::RowToggles;
use vstd::prelude::*;

verus! {

/// The rows of a toggle follow from the heads alone.
pub proof fn law_rows_follow_from_heads(a: Seq<u32>, b: Seq<u32>, heads: Seq<Point>)
    requires
        toggling::are_rows_of(a, heads),
        toggling::are_rows_of(b, heads),
    ensures
        a == b,
{
    assert forall|row: u32| a.contains(row) <==> #[trigger] b.contains(row) by {
        assert(a.contains(row) <==> exists|k: int| 0 <= k < heads.len() && heads[k].row == row);
    }
    lemma_same_ascending(a, b);
}

proof fn lemma_same_ascending(a: Seq<u32>, b: Seq<u32>)
    requires
        forall|i: int, j: int| 0 <= i < j < a.len() ==> a[i] < a[j],
        forall|i: int, j: int| 0 <= i < j < b.len() ==> b[i] < b[j],
        forall|row: u32| a.contains(row) <==> #[trigger] b.contains(row),
    ensures
        a == b,
    decreases a.len(),
{
    if a.len() == 0 {
        if b.len() > 0 {
            assert(b.contains(b[0]));
        }
        assert(a =~= b);
    } else {
        assert(a.contains(a.last()));
        assert(b.contains(a.last()));
        assert(b.contains(b.last()));
        assert(a.contains(b.last()));
        let i = choose|i: int| 0 <= i < b.len() && b[i] == a.last();
        let j = choose|j: int| 0 <= j < a.len() && a[j] == b.last();
        assert(a.last() == b.last());
        let x = a.drop_last();
        let y = b.drop_last();
        assert forall|row: u32| x.contains(row) <==> #[trigger] y.contains(row) by {
            if x.contains(row) {
                let k = choose|k: int| 0 <= k < x.len() && x[k] == row;
                assert(a[k] == row);
                assert(a.contains(row));
                assert(b.contains(row));
                let l = choose|l: int| 0 <= l < b.len() && b[l] == row;
                assert(y[l] == row);
            }
            if y.contains(row) {
                let k = choose|k: int| 0 <= k < y.len() && y[k] == row;
                assert(b[k] == row);
                assert(b.contains(row));
                assert(a.contains(row));
                let l = choose|l: int| 0 <= l < a.len() && a[l] == row;
                assert(x[l] == row);
            }
        }
        lemma_same_ascending(x, y);
        assert(a =~= x.push(a.last()));
        assert(b =~= y.push(b.last()));
    }
}

/// The places that `lookups` found, in order.
pub open spec fn places_found<B, A>(lookups: Seq<Lookup<B, A>>) -> Seq<BookmarkTarget<B, A>>
    decreases lookups.len(),
{
    if lookups.len() == 0 {
        Seq::empty()
    } else {
        match lookups.last() {
            Lookup::Found { buffer, anchor, .. } => places_found(lookups.drop_last()).push(
                BookmarkTarget { buffer, anchor },
            ),
            _ => places_found(lookups.drop_last()),
        }
    }
}

/// The places that `lookups` found to have a bookmark, in order.
pub open spec fn places_marked<B, A>(lookups: Seq<Lookup<B, A>>) -> Seq<BookmarkTarget<B, A>>
    decreases lookups.len(),
{
    if lookups.len() == 0 {
        Seq::empty()
    } else {
        match lookups.last() {
            Lookup::Found { buffer, anchor, bookmark: Some(_) } => places_marked(
                lookups.drop_last(),
            ).push(BookmarkTarget { buffer, anchor }),
            _ => places_marked(lookups.drop_last()),
        }
    }
}

/// The places that `lookups` found to have no bookmark, in order.
pub open spec fn places_unmarked<B, A>(lookups: Seq<Lookup<B, A>>) -> Seq<BookmarkTarget<B, A>>
    decreases lookups.len(),
{
    if lookups.len() == 0 {
        Seq::empty()
    } else {
        match lookups.last() {
            Lookup::Found { buffer, anchor, bookmark: None } => places_unmarked(
                lookups.drop_last(),
            ).push(BookmarkTarget { buffer, anchor }),
            _ => places_unmarked(lookups.drop_last()),
        }
    }
}

/// Every place found has a bookmark or has none.
pub proof fn law_places_are_marked_or_not<B, A>(lookups: Seq<Lookup<B, A>>)
    ensures
        (places_marked(lookups) + places_unmarked(lookups)).to_multiset() == places_found(
            lookups,
        ).to_multiset(),
    decreases lookups.len(),
{
    broadcast use vstd::seq_lib::group_to_multiset_ensures;

    if lookups.len() == 0 {
        assert(places_marked(lookups) + places_unmarked(lookups) =~= places_found(lookups));
    } else {
        let init = lookups.drop_last();
        law_places_are_marked_or_not(init);
        vstd::seq_lib::lemma_multiset_commutative(places_marked(init), places_unmarked(init));
        vstd::seq_lib::lemma_multiset_commutative(places_marked(lookups), places_unmarked(lookups));
    }
}

/// The effects of the steps of a toggle, one after the other.
pub open spec fn step_effects<T>(effects: Seq<Option<Effect<T>>>) -> Seq<EffectView<T>>
    decreases effects.len(),
{
    if effects.len() == 0 {
        Seq::empty()
    } else {
        step_effects(effects.drop_last()) + toggling::one_or_none(effects.last())
    }
}

/// Whether `states` are the states of a toggle that starts on the rows of `heads` and is given
/// `lookups`, one per row, and `effects` its answers.
pub open spec fn is_run<B, A>(
    states: Seq<RowToggles<B, A>>,
    heads: Seq<Point>,
    prompt_for_name: bool,
    lookups: Seq<Lookup<B, A>>,
    effects: Seq<Option<Effect<BookmarkTarget<B, A>>>>,
) -> bool {
    &&& states.len() == lookups.len() + 1
    &&& effects.len() == lookups.len()
    &&& states[0].starts_for(heads, prompt_for_name)
    &&& forall|i: int|
        #![trigger states[i]]
        0 <= i < lookups.len() ==> states[i].goes_on(lookups[i], effects[i], states[i + 1])
}

/// Along a toggle the rows are looked up one by one, from the top down. By then the bookmarks on
/// the rows looked up so far have been removed, and the places without one are left for the end.
pub proof fn law_run_goes_row_by_row<B, A>(
    states: Seq<RowToggles<B, A>>,
    heads: Seq<Point>,
    prompt_for_name: bool,
    lookups: Seq<Lookup<B, A>>,
    effects: Seq<Option<Effect<BookmarkTarget<B, A>>>>,
)
    requires
        is_run(states, heads, prompt_for_name, lookups, effects),
    ensures
        states.last().rows == states[0].rows,
        states.last().next == lookups.len(),
        states.last().prompt_for_name == prompt_for_name,
        states.last().bookmarks_to_add@ == places_unmarked(lookups),
        step_effects(effects) == prompt::toggles(places_marked(lookups), Seq::empty()),
    decreases lookups.len(),
{
    if lookups.len() == 0 {
        assert(states.last().bookmarks_to_add@ =~= Seq::empty());
        assert(prompt::toggles(places_marked(lookups), Seq::empty()) =~= Seq::empty());
    } else {
        let last = lookups.len() - 1;
        let s = states.drop_last();
        let l = lookups.drop_last();
        let e = effects.drop_last();
        assert forall|i: int| #![trigger s[i]] 0 <= i < l.len() implies s[i].goes_on(
            l[i],
            e[i],
            s[i + 1],
        ) by {
            assert(states[i].goes_on(lookups[i], effects[i], states[i + 1]));
        }
        law_run_goes_row_by_row(s, heads, prompt_for_name, l, e);
        assert(states[last].goes_on(lookups[last], effects[last], states[last + 1]));
        assert(states.last().bookmarks_to_add@ =~= places_unmarked(lookups));
        assert(step_effects(effects) =~= prompt::toggles(places_marked(lookups), Seq::empty()));
    }
}

/// A toggle that asks for no name, or cannot, toggles every place that it found exactly once and
/// without a name: those with a bookmark while it goes through the rows, the others at its end.
/// Then the editor is drawn anew.
pub proof fn law_unnamed_toggle_toggles_each_place_once<B, A>(
    editor: Editor,
    states: Seq<RowToggles<B, A>>,
    heads: Seq<Point>,
    prompt_for_name: bool,
    lookups: Seq<Lookup<B, A>>,
    effects: Seq<Option<Effect<BookmarkTarget<B, A>>>>,
)
    requires
        is_run(states, heads, prompt_for_name, lookups, effects),
        editor.has_bookmark_store,
        !prompt_for_name || !editor.has_workspace,
    ensures
        step_effects(effects) + toggling::finished(
            editor,
            states.last().bookmarks_to_add@,
            states.last().prompt_for_name,
        ) == prompt::toggles(
            places_marked(lookups) + places_unmarked(lookups),
            Seq::empty(),
        ).push(EffectView::Notify),
        (places_marked(lookups) + places_unmarked(lookups)).to_multiset() == places_found(
            lookups,
        ).to_multiset(),
{
    law_run_goes_row_by_row(states, heads, prompt_for_name, lookups, effects);
    law_places_are_marked_or_not(lookups);
    assert(step_effects(effects) + toggling::finished(
        editor,
        states.last().bookmarks_to_add@,
        states.last().prompt_for_name,
    ) =~= prompt::toggles(places_marked(lookups) + places_unmarked(lookups), Seq::empty()).push(
        EffectView::Notify,
    ));
}

/// A toggle that asks for a name removes the bookmarks that it finds without asking, and opens
/// one prompt for all places without a bookmark, if there are any. Confirming that prompt sets a
/// bookmark at each of these places under the text without the white space around it.
pub proof fn law_named_toggle_asks_once<B, A>(
    editor: Editor,
    states: Seq<RowToggles<B, A>>,
    heads: Seq<Point>,
    lookups: Seq<Lookup<B, A>>,
    effects: Seq<Option<Effect<BookmarkTarget<B, A>>>>,
    answer: Seq<char>,
)
    requires
        is_run(states, heads, true, lookups, effects),
        editor.has_bookmark_store,
        editor.has_workspace,
    ensures
        step_effects(effects) == prompt::toggles(places_marked(lookups), Seq::empty()),
        places_unmarked(lookups).len() == 0 ==> toggling::finished(
            editor,
            states.last().bookmarks_to_add@,
            states.last().prompt_for_name,
        ) == seq![EffectView::<BookmarkTarget<B, A>>::Notify],
        places_unmarked(lookups).len() > 0 ==> {
            let opened = PromptView {
                targets: places_unmarked(lookups),
                initial_name: Seq::empty(),
                select_initial_name: false,
                mode: BookmarkNamePromptMode::Add,
            };
            &&& toggling::finished(
                editor,
                states.last().bookmarks_to_add@,
                states.last().prompt_for_name,
            ) == seq![EffectView::OpenPrompt { prompt: opened }, EffectView::Notify]
            &&& prompt::confirmed(
                prompt::by_ref(opened.targets),
                opened.mode,
                answer,
                editor.has_bookmark_store,
            ) == prompt::toggles(
                prompt::by_ref(places_unmarked(lookups)),
                text::trimmed(answer),
            ) + seq![EffectView::FocusEditor, EffectView::Notify, EffectView::Dismiss]
        },
{
    law_run_goes_row_by_row(states, heads, true, lookups, effects);
    let done = toggling::finished(
        editor,
        states.last().bookmarks_to_add@,
        states.last().prompt_for_name,
    );
    if places_unmarked(lookups).len() == 0 {
        assert(done =~= seq![EffectView::<BookmarkTarget<B, A>>::Notify]);
    } else {
        let opened = PromptView {
            targets: places_unmarked(lookups),
            initial_name: Seq::empty(),
            select_initial_name: false,
            mode: BookmarkNamePromptMode::Add,
        };
        assert(done =~= seq![EffectView::OpenPrompt { prompt: opened }, EffectView::Notify]);
    }
}

/// Toggling a single bookmark that is there removes it, whether or not a name is wanted.
pub proof fn law_removing_never_asks<B, A>(
    editor: Editor,
    target: BookmarkTarget<B, A>,
    name: String,
    prompt_for_name: bool,
)
    requires
        editor.has_bookmark_store,
    ensures
        editor::target_toggled(
            editor,
            Lookup::Found { buffer: target.buffer, anchor: target.anchor, bookmark: Some(name) },
            prompt_for_name,
        ) == seq![
            EffectView::ToggleBookmark { target, name: Seq::empty() },
            EffectView::Notify,
        ],
{
    assert(editor::target_toggled(
        editor,
        Lookup::Found { buffer: target.buffer, anchor: target.anchor, bookmark: Some(name) },
        prompt_for_name,
    ) =~= seq![EffectView::ToggleBookmark { target, name: Seq::empty() }, EffectView::Notify]);
}

/// Editing a bookmark opens a prompt that shows its name, and confirming the prompt unchanged
/// gives the bookmark that same name, if it was given by a prompt before.
pub proof fn law_unchanged_edit_keeps_name<B, A>(
    editor: Editor,
    target: BookmarkTarget<B, A>,
    name: String,
    typed: Seq<char>,
)
    requires
        editor.has_bookmark_store,
        editor.has_workspace,
        name@ == text::trimmed(typed),
    ensures
        ({
            let opened = PromptView {
                targets: seq![target],
                initial_name: name@,
                select_initial_name: true,
                mode: BookmarkNamePromptMode::Edit,
            };
            &&& editor::name_edited(
                editor,
                Lookup::Found { buffer: target.buffer, anchor: target.anchor, bookmark: Some(name) },
            ) == seq![EffectView::OpenPrompt { prompt: opened }]
            &&& prompt::confirmed(
                prompt::by_ref(opened.targets),
                opened.mode,
                opened.initial_name,
                editor.has_bookmark_store,
            ) == seq![
                EffectView::EditBookmark { target: &target, name: name@ },
                EffectView::FocusEditor,
                EffectView::Notify,
                EffectView::Dismiss,
            ]
        }),
{
    text::law_trim_is_final(typed);
    assert(prompt::confirmed(
        prompt::by_ref(seq![target]),
        BookmarkNamePromptMode::Edit,
        name@,
        editor.has_bookmark_store,
    ) =~= seq![
        EffectView::EditBookmark { target: &target, name: name@ },
        EffectView::FocusEditor,
        EffectView::Notify,
        EffectView::Dismiss,
    ]);
}

/// An editor without a bookmark store changes no bookmark: a toggle does nothing at all, and a
/// prompt that is confirmed only closes.
pub proof fn law_without_store_nothing_is_stored<B, A>(
    editor: Editor,
    lookup: Lookup<B, A>,
    prompt_for_name: bool,
    targets: Seq<BookmarkTarget<B, A>>,
    mode: BookmarkNamePromptMode,
    answer: Seq<char>,
)
    requires
        !editor.has_bookmark_store,
    ensures
        editor::target_toggled(editor, lookup, prompt_for_name).len() == 0,
        prompt::confirmed(
            prompt::by_ref(targets),
            mode,
            answer,
            editor.has_bookmark_store,
        ) == seq![
            EffectView::<&BookmarkTarget<B, A>>::FocusEditor,
            EffectView::Notify,
            EffectView::Dismiss,
        ],
{
    assert(prompt::confirmed(
        prompt::by_ref(targets),
        mode,
        answer,
        editor.has_bookmark_store,
    ) =~= seq![
        EffectView::<&BookmarkTarget<B, A>>::FocusEditor,
        EffectView::Notify,
        EffectView::Dismiss,
    ]);
}

} // verus!
