//! The prompt that asks for the name of a bookmark, and the effects that the host carries out.

use crate::editor::Editor;
use crate::text;
use vstd::prelude::*;

verus! {

/// What the prompt does with the name.
#[derive(Clone, Copy, Debug, PartialEq, Eq, Structural)]
pub enum BookmarkNamePromptMode {
    /// Sets new bookmarks under the name.
    Add,
    /// Gives the name to bookmarks that are there.
    Edit,
}

/// A prompt for a bookmark's name: the bookmarks that it is for, the name that it starts with,
/// and whether that name starts out selected.
#[derive(Debug, PartialEq, Eq)]
pub struct BookmarkNamePrompt<T> {
    pub targets: Vec<T>,
    pub initial_name: String,
    pub select_initial_name: bool,
    pub mode: BookmarkNamePromptMode,
}

/// What a prompt stands for.
pub struct PromptView<T> {
    pub targets: Seq<T>,
    pub initial_name: Seq<char>,
    pub select_initial_name: bool,
    pub mode: BookmarkNamePromptMode,
}

impl<T> View for BookmarkNamePrompt<T> {
    type V = PromptView<T>;

    open spec fn view(&self) -> PromptView<T> {
        PromptView {
            targets: self.targets@,
            initial_name: self.initial_name@,
            select_initial_name: self.select_initial_name,
            mode: self.mode,
        }
    }
}

/// Something that the host does on behalf of the editor. `T` is a bookmark's target.
#[derive(Debug, PartialEq, Eq)]
pub enum Effect<T> {
    /// Has the store remove the bookmark at the target's row or, where there is none, set one
    /// under the name.
    ToggleBookmark { target: T, name: String },
    /// Has the store give the name to the bookmark at the target's row.
    EditBookmark { target: T, name: String },
    /// Shows a name prompt.
    OpenPrompt { prompt: BookmarkNamePrompt<T> },
    /// Gives the keyboard focus back to the editor.
    FocusEditor,
    /// Has the editor drawn anew.
    Notify,
    /// Closes the prompt.
    Dismiss,
}

/// What an effect stands for.
pub enum EffectView<T> {
    ToggleBookmark { target: T, name: Seq<char> },
    EditBookmark { target: T, name: Seq<char> },
    OpenPrompt { prompt: PromptView<T> },
    FocusEditor,
    Notify,
    Dismiss,
}

impl<T> View for Effect<T> {
    type V = EffectView<T>;

    open spec fn view(&self) -> EffectView<T> {
        match *self {
            Effect::ToggleBookmark { target, name } => EffectView::ToggleBookmark {
                target,
                name: name@,
            },
            Effect::EditBookmark { target, name } => EffectView::EditBookmark {
                target,
                name: name@,
            },
            Effect::OpenPrompt { prompt } => EffectView::OpenPrompt { prompt: prompt@ },
            Effect::FocusEditor => EffectView::FocusEditor,
            Effect::Notify => EffectView::Notify,
            Effect::Dismiss => EffectView::Dismiss,
        }
    }
}

/// What `effects` stand for, in order.
pub open spec fn effects_view<T>(effects: Seq<Effect<T>>) -> Seq<EffectView<T>> {
    effects.map_values(|effect: Effect<T>| effect@)
}

/// Toggling each of `targets` under `name`, in order.
pub open spec fn toggles<T>(targets: Seq<T>, name: Seq<char>) -> Seq<EffectView<T>> {
    targets.map_values(|target: T| EffectView::ToggleBookmark { target, name })
}

/// Naming the bookmark at each of `targets`, in order.
pub open spec fn edits<T>(targets: Seq<T>, name: Seq<char>) -> Seq<EffectView<T>> {
    targets.map_values(|target: T| EffectView::EditBookmark { target, name })
}

/// The targets, each by reference.
pub open spec fn by_ref<'a, T>(targets: Seq<T>) -> Seq<&'a T> {
    targets.map_values(|target: T| &target)
}

/// What confirming a prompt with `text` in its field does, where the editor has a bookmark store
/// or has none: every target is toggled or edited under the text without the white space around
/// it, then the editor has the focus and is drawn anew, and the prompt closes.
pub open spec fn confirmed<T>(
    targets: Seq<T>,
    mode: BookmarkNamePromptMode,
    text: Seq<char>,
    has_bookmark_store: bool,
) -> Seq<EffectView<T>> {
    let stored = if !has_bookmark_store {
        Seq::empty()
    } else {
        match mode {
            BookmarkNamePromptMode::Add => toggles(targets, text::trimmed(text)),
            BookmarkNamePromptMode::Edit => edits(targets, text::trimmed(text)),
        }
    };
    stored + seq![EffectView::FocusEditor, EffectView::Notify, EffectView::Dismiss]
}

/// What happens in the prompt's field.
#[derive(Clone, Copy, Debug, PartialEq, Eq, Structural)]
pub enum NameEditorEvent {
    /// The field lost the focus.
    Blurred,
    /// Anything else.
    Other,
}

impl<T> BookmarkNamePrompt<T> {
    /// A prompt for `targets`.
    pub fn new(
        targets: Vec<T>,
        initial_name: String,
        select_initial_name: bool,
        mode: BookmarkNamePromptMode,
    ) -> (prompt: Self)
        ensures
            prompt@ == (PromptView {
                targets: targets@,
                initial_name: initial_name@,
                select_initial_name,
                mode,
            }),
    {
        BookmarkNamePrompt { targets, initial_name, select_initial_name, mode }
    }

    /// The text in the empty field.
    pub fn placeholder_text() -> (r: &'static str)
        ensures
            r@ == "Bookmark name"@,
    {
        "Bookmark name"
    }

    /// What an event in the field does: the prompt closes when the field loses the focus.
    pub fn on_name_editor_event(&self, event: NameEditorEvent) -> (effect: Option<Effect<T>>)
        ensures
            effect == if event == NameEditorEvent::Blurred {
                Some(Effect::<T>::Dismiss)
            } else {
                None
            },
    {
        if event == NameEditorEvent::Blurred {
            Some(Effect::Dismiss)
        } else {
            None
        }
    }

    /// What cancelling does: the prompt closes.
    pub fn cancel(&self) -> (effect: Effect<T>)
        ensures
            effect == Effect::<T>::Dismiss,
    {
        Effect::Dismiss
    }

    /// What confirming does, with `text` in the field, for the editor that the prompt belongs to.
    pub fn confirm(&self, text: &str, active_editor: &Editor) -> (effects: Vec<Effect<&T>>)
        ensures
            effects_view(effects@) == confirmed(
                by_ref(self.targets@),
                self.mode,
                text@,
                active_editor.has_bookmark_store,
            ),
    {
        let name = text::trim(text);
        let mut effects: Vec<Effect<&T>> = Vec::new();
        let n: usize = if active_editor.has_bookmark_store {
            self.targets.len()
        } else {
            0
        };
        let ghost targets = by_ref(self.targets@);
        let mut i: usize = 0;
        while i < n
            invariant
                i <= n <= self.targets@.len(),
                targets == by_ref(self.targets@),
                name@ == text::trimmed(text@),
                effects_view(effects@) == match self.mode {
                    BookmarkNamePromptMode::Add => toggles(targets.take(i as int), name@),
                    BookmarkNamePromptMode::Edit => edits(targets.take(i as int), name@),
                },
            decreases n - i,
        {
            let target: &T = &self.targets[i];
            let effect = match self.mode {
                BookmarkNamePromptMode::Add => Effect::ToggleBookmark { target, name: name.clone() },
                BookmarkNamePromptMode::Edit => Effect::EditBookmark { target, name: name.clone() },
            };
            let ghost before = effects@;
            effects.push(effect);
            proof {
                assert(targets.take(i + 1) =~= targets.take(i as int).push(target));
                assert(effects_view(effects@) =~= effects_view(before).push(effect@));
                match self.mode {
                    BookmarkNamePromptMode::Add => {
                        assert(effects_view(effects@) =~= toggles(targets.take(i + 1), name@));
                    },
                    BookmarkNamePromptMode::Edit => {
                        assert(effects_view(effects@) =~= edits(targets.take(i + 1), name@));
                    },
                }
            }
            i = i + 1;
        }
        let ghost stored = effects@;
        effects.push(Effect::FocusEditor);
        effects.push(Effect::Notify);
        effects.push(Effect::Dismiss);
        proof {
            assert(targets.take(n as int) =~= if active_editor.has_bookmark_store {
                targets
            } else {
                Seq::empty()
            });
            assert(effects_view(effects@) =~= effects_view(stored)
                + seq![EffectView::FocusEditor, EffectView::Notify, EffectView::Dismiss]);
            assert(toggles(Seq::<&T>::empty(), name@) =~= Seq::empty());
            assert(edits(Seq::<&T>::empty(), name@) =~= Seq::empty());
        }
        effects
    }
}

} // verus!
