//! The bookmark commands of an editor. Each command says what the host has to look up, takes
//! what was found, and answers with the effects to carry out.

use crate::navigation::{BookmarkSearch, Direction};
use crate::position::Point;
use crate::prompt;
use crate::prompt::{BookmarkNamePrompt, BookmarkNamePromptMode, Effect, EffectView, PromptView};
use crate::toggling::RowToggles;
use vstd::prelude::*;

verus! {

/// What the commands need to know of an editor.
#[derive(Debug, PartialEq, Eq)]
pub struct Editor {
    /// Whether bookmarks are drawn, where this editor has a setting of its own.
    pub show_bookmarks: Option<bool>,
    pub has_bookmark_store: bool,
    pub has_project: bool,
    pub has_workspace: bool,
}

/// Where a bookmark goes: a buffer, as the host refers to it, and an anchor in it.
#[derive(Debug, PartialEq, Eq)]
pub struct BookmarkTarget<B, A> {
    pub buffer: B,
    pub anchor: A,
}

/// A place in the text that the host is to anchor.
#[derive(Debug, PartialEq, Eq)]
pub enum Spot<M> {
    /// The position before this point of the text.
    Before(Point),
    /// The position before the point of the text that is drawn at the start of this row of the
    /// display, or left of it.
    DisplayRow(u32),
    /// An anchor that is there already.
    Anchor(M),
}

/// Where the host looks for the buffer of an anchor.
#[derive(Clone, Copy, Debug, PartialEq, Eq, Structural)]
pub enum BufferSource {
    /// Among the buffers of the project.
    Project,
    /// Among the buffers that the editor shows.
    Editor,
}

/// A lookup for the host: anchor the spot, map the anchor to the buffer that it lies in,
/// find that buffer, and ask the store for the bookmark on that row.
#[derive(Debug, PartialEq, Eq)]
pub struct LookupRequest<M> {
    pub spot: Spot<M>,
    pub buffers: BufferSource,
}

/// What a lookup found.
#[derive(Debug, PartialEq, Eq)]
pub enum Lookup<B, A> {
    /// The spot lies in no buffer.
    NoAnchor,
    /// The spot lies in a buffer that could not be found.
    NoBuffer,
    /// A place for a bookmark, with the name of the bookmark that is on its row, if there is one.
    Found { buffer: B, anchor: A, bookmark: Option<String> },
}

/// A toggle of a single bookmark for which a lookup is under way.
#[derive(Debug, PartialEq, Eq)]
pub struct TargetToggle<M> {
    pub request: LookupRequest<M>,
    pub prompt_for_name: bool,
}

/// An edit of a bookmark's name for which a lookup is under way.
#[derive(Debug, PartialEq, Eq)]
pub struct BookmarkEdit<M> {
    pub request: LookupRequest<M>,
}

/// Which selections a new view of several buffers starts with.
#[derive(Clone, Copy, Debug, PartialEq, Eq, Structural)]
pub enum MultibufferSelectionMode {
    First,
    All,
}

/// A view of several places, to be opened.
#[derive(Debug, PartialEq, Eq)]
pub struct OpenLocations<L> {
    pub locations: L,
    pub title: &'static str,
    pub split: bool,
    pub allow_preview: bool,
    pub selection_mode: MultibufferSelectionMode,
}

/// What opening a prompt does: where the editor is in no workspace, nothing.
pub open spec fn prompt_opened<T>(editor: Editor, prompt: PromptView<T>) -> Seq<EffectView<T>> {
    if editor.has_workspace {
        seq![EffectView::OpenPrompt { prompt }]
    } else {
        Seq::empty()
    }
}

/// What toggling `targets` under `name` does: where the editor has no store, nothing.
pub open spec fn toggled<T>(editor: Editor, targets: Seq<T>, name: Seq<char>) -> Seq<EffectView<T>> {
    if editor.has_bookmark_store {
        prompt::toggles(targets, name)
    } else {
        Seq::empty()
    }
}

/// What setting new bookmarks at `targets` does: one prompt for all of them, where a name is
/// wanted and a prompt can be opened, else each is set without a name.
pub open spec fn added<T>(editor: Editor, targets: Seq<T>, prompt_for_name: bool) -> Seq<
    EffectView<T>,
> {
    if prompt_for_name && editor.has_workspace {
        seq![
            EffectView::OpenPrompt {
                prompt: PromptView {
                    targets,
                    initial_name: Seq::empty(),
                    select_initial_name: false,
                    mode: BookmarkNamePromptMode::Add,
                },
            },
        ]
    } else {
        toggled(editor, targets, Seq::empty())
    }
}

/// What toggling the bookmark at a place does: a bookmark that is there is removed, else one is
/// set; where nothing was found or the editor has no store, nothing happens.
pub open spec fn target_toggled<B, A>(
    editor: Editor,
    lookup: Lookup<B, A>,
    prompt_for_name: bool,
) -> Seq<EffectView<BookmarkTarget<B, A>>> {
    match lookup {
        Lookup::Found { buffer, anchor, bookmark } if editor.has_bookmark_store => {
            let targets = seq![BookmarkTarget { buffer, anchor }];
            let stored = if bookmark is Some {
                toggled(editor, targets, Seq::empty())
            } else {
                added(editor, targets, prompt_for_name)
            };
            stored.push(EffectView::Notify)
        },
        _ => Seq::empty(),
    }
}

/// What editing the bookmark at a place does: a prompt that starts with its name, selected;
/// nothing where there is no bookmark.
pub open spec fn name_edited<B, A>(editor: Editor, lookup: Lookup<B, A>) -> Seq<
    EffectView<BookmarkTarget<B, A>>,
> {
    match lookup {
        Lookup::Found { buffer, anchor, bookmark: Some(name) } => prompt_opened(
            editor,
            PromptView {
                targets: seq![BookmarkTarget { buffer, anchor }],
                initial_name: name@,
                select_initial_name: true,
                mode: BookmarkNamePromptMode::Edit,
            },
        ),
        _ => Seq::empty(),
    }
}

impl<B, A> Lookup<B, A> {
    /// Whether there is a bookmark at the place that was found.
    pub fn bookmark_exists_for_target(&self) -> (r: bool)
        ensures
            r == (self matches Lookup::Found { bookmark: Some(_), .. }),
    {
        match self {
            Lookup::Found { bookmark: Some(_), .. } => true,
            _ => false,
        }
    }
}

impl Editor {
    /// Sets whether this editor draws bookmarks, whatever the settings say, and has it drawn anew.
    pub fn set_show_bookmarks<T>(&mut self, show_bookmarks: bool) -> (effects: Vec<Effect<T>>)
        ensures
            *final(self) == (Editor { show_bookmarks: Some(show_bookmarks), ..*old(self) }),
            prompt::effects_view(effects@) == seq![EffectView::<T>::Notify],
    {
        self.show_bookmarks = Some(show_bookmarks);
        let mut effects: Vec<Effect<T>> = Vec::new();
        effects.push(Effect::Notify);
        proof {
            assert(prompt::effects_view(effects@) =~= seq![EffectView::<T>::Notify]);
        }
        effects
    }

    /// Opens a prompt, where the editor is in a workspace.
    fn open_bookmark_name_prompt<T>(
        &self,
        targets: Vec<T>,
        initial_name: String,
        select_initial_name: bool,
        mode: BookmarkNamePromptMode,
    ) -> (effects: Vec<Effect<T>>)
        ensures
            prompt::effects_view(effects@) == prompt_opened(
                *self,
                PromptView {
                    targets: targets@,
                    initial_name: initial_name@,
                    select_initial_name,
                    mode,
                },
            ),
    {
        let mut effects: Vec<Effect<T>> = Vec::new();
        if self.has_workspace {
            let prompt = BookmarkNamePrompt::new(targets, initial_name, select_initial_name, mode);
            effects.push(Effect::OpenPrompt { prompt });
        }
        proof {
            assert(prompt::effects_view(effects@) =~= prompt_opened(
                *self,
                PromptView {
                    targets: targets@,
                    initial_name: initial_name@,
                    select_initial_name,
                    mode,
                },
            ));
        }
        effects
    }

    /// Toggles each of `targets` under `name`, where the editor has a store.
    fn toggle_bookmarks<T>(&self, targets: Vec<T>, name: String) -> (effects: Vec<Effect<T>>)
        ensures
            prompt::effects_view(effects@) == toggled(*self, targets@, name@),
    {
        let ghost all = targets@;
        let mut effects: Vec<Effect<T>> = Vec::new();
        if self.has_bookmark_store {
            for target in iter: targets
                invariant
                    iter.seq() == all,
                    prompt::effects_view(effects@) == prompt::toggles(
                        all.take(iter.index() as int),
                        name@,
                    ),
            {
                let ghost before = effects@;
                let ghost done = all.take(iter.index() as int);
                let effect = Effect::ToggleBookmark { target, name: name.clone() };
                effects.push(effect);
                proof {
                    assert(all.take(iter.index() + 1) =~= done.push(target));
                    assert(prompt::effects_view(effects@) =~= prompt::effects_view(before).push(
                        effect@,
                    ));
                    assert(prompt::toggles(done.push(target), name@) =~= prompt::toggles(
                        done,
                        name@,
                    ).push(effect@));
                }
            }
            proof {
                assert(all.take(all.len() as int) =~= all);
            }
        }
        effects
    }

    /// Sets new bookmarks at `targets`.
    pub(crate) fn prompt_for_bookmark_name_or_toggle<T>(
        &self,
        targets: Vec<T>,
        prompt_for_name: bool,
    ) -> (effects: Vec<Effect<T>>)
        ensures
            prompt::effects_view(effects@) == added(*self, targets@, prompt_for_name),
    {
        if prompt_for_name && self.has_workspace {
            self.open_bookmark_name_prompt(
                targets,
                String::new(),
                false,
                BookmarkNamePromptMode::Add,
            )
        } else {
            self.toggle_bookmarks(targets, String::new())
        }
    }

    /// Toggles the bookmark at a place, of which `bookmark_exists` tells whether it is there.
    fn toggle_bookmark_target<T>(
        &self,
        target: T,
        bookmark_exists: bool,
        prompt_for_name: bool,
    ) -> (effects: Vec<Effect<T>>)
        ensures
            prompt::effects_view(effects@) == if !self.has_bookmark_store {
                Seq::empty()
            } else if bookmark_exists {
                toggled(*self, seq![target], Seq::empty()).push(EffectView::Notify)
            } else {
                added(*self, seq![target], prompt_for_name).push(EffectView::Notify)
            },
    {
        if !self.has_bookmark_store {
            return Vec::new();
        }
        let mut targets: Vec<T> = Vec::new();
        targets.push(target);
        proof {
            assert(targets@ =~= seq![target]);
        }
        let mut effects = if bookmark_exists {
            self.toggle_bookmarks(targets, String::new())
        } else {
            self.prompt_for_bookmark_name_or_toggle(targets, prompt_for_name)
        };
        let ghost before = effects@;
        effects.push(Effect::Notify);
        proof {
            assert(prompt::effects_view(effects@) =~= prompt::effects_view(before).push(
                EffectView::Notify,
            ));
        }
        effects
    }
}

impl Editor {
    /// Toggles the bookmarks on the rows of the selections' `heads`, without asking for a name.
    pub fn toggle_bookmark<B, A>(&self, heads: &Vec<Point>) -> (toggle: Option<RowToggles<B, A>>)
        ensures
            toggle is Some <==> self.has_bookmark_store && self.has_project,
            toggle matches Some(toggle) ==> toggle.starts_for(heads@, false),
    {
        self.toggle_bookmarks_in_editor(heads, false)
    }

    /// Toggles the bookmarks on the rows of the selections' `heads`, and asks for a name for the
    /// new ones.
    pub fn toggle_named_bookmark<B, A>(&self, heads: &Vec<Point>) -> (toggle: Option<
        RowToggles<B, A>,
    >)
        ensures
            toggle is Some <==> self.has_bookmark_store && self.has_project,
            toggle matches Some(toggle) ==> toggle.starts_for(heads@, true),
    {
        self.toggle_bookmarks_in_editor(heads, true)
    }

    fn toggle_bookmarks_in_editor<B, A>(&self, heads: &Vec<Point>, prompt_for_name: bool) -> (toggle:
        Option<RowToggles<B, A>>)
        ensures
            toggle is Some <==> self.has_bookmark_store && self.has_project,
            toggle matches Some(toggle) ==> toggle.starts_for(heads@, prompt_for_name),
    {
        if !self.has_bookmark_store {
            return None;
        }
        if !self.has_project {
            return None;
        }
        Some(RowToggles::new(heads, prompt_for_name))
    }

    /// Toggles the bookmark on a row of the display.
    pub fn toggle_bookmark_at_row<M>(&self, row: u32, prompt_for_name: bool) -> (toggle:
        TargetToggle<M>)
        ensures
            toggle == (TargetToggle {
                request: LookupRequest {
                    spot: Spot::<M>::DisplayRow(row),
                    buffers: BufferSource::Editor,
                },
                prompt_for_name,
            }),
    {
        TargetToggle {
            request: LookupRequest { spot: Spot::DisplayRow(row), buffers: BufferSource::Editor },
            prompt_for_name,
        }
    }

    /// Toggles the bookmark at an anchor.
    pub fn toggle_bookmark_at_anchor<M>(&self, anchor: M, prompt_for_name: bool) -> (toggle:
        TargetToggle<M>)
        ensures
            toggle == (TargetToggle {
                request: LookupRequest {
                    spot: Spot::Anchor(anchor),
                    buffers: BufferSource::Editor,
                },
                prompt_for_name,
            }),
    {
        TargetToggle {
            request: LookupRequest { spot: Spot::Anchor(anchor), buffers: BufferSource::Editor },
            prompt_for_name,
        }
    }

    /// Edits the name of the bookmark on the row of the newest selection's `head`.
    pub fn edit_bookmark<M>(&self, head: Point) -> (edit: Option<BookmarkEdit<M>>)
        ensures
            edit == if self.has_bookmark_store && self.has_project {
                Some(
                    BookmarkEdit {
                        request: LookupRequest {
                            spot: Spot::<M>::Before(Point { row: head.row, column: 0 }),
                            buffers: BufferSource::Project,
                        },
                    },
                )
            } else {
                None
            },
    {
        self.edit_bookmark_at(Spot::Before(Point::row_start(head.row)))
    }

    /// Edits the name of the bookmark at an anchor.
    pub fn edit_bookmark_at_anchor<M>(&self, anchor: M) -> (edit: Option<BookmarkEdit<M>>)
        ensures
            edit == if self.has_bookmark_store && self.has_project {
                Some(
                    BookmarkEdit {
                        request: LookupRequest {
                            spot: Spot::Anchor(anchor),
                            buffers: BufferSource::Project,
                        },
                    },
                )
            } else {
                None
            },
    {
        self.edit_bookmark_at(Spot::Anchor(anchor))
    }

    fn edit_bookmark_at<M>(&self, spot: Spot<M>) -> (edit: Option<BookmarkEdit<M>>)
        ensures
            edit == if self.has_bookmark_store && self.has_project {
                Some(
                    BookmarkEdit { request: LookupRequest { spot, buffers: BufferSource::Project } },
                )
            } else {
                None
            },
    {
        if !self.has_bookmark_store {
            return None;
        }
        if !self.has_project {
            return None;
        }
        Some(BookmarkEdit { request: LookupRequest { spot, buffers: BufferSource::Project } })
    }

    /// Jumps from `head` to the next bookmark in a text of `len` bytes.
    pub fn go_to_next_bookmark(&self, head: usize, len: usize) -> (search: Option<BookmarkSearch>)
        ensures
            search is Some <==> self.has_project && self.has_bookmark_store,
            search matches Some(search) ==> search.starts_for(Direction::Next, head, len),
    {
        self.go_to_bookmark_impl(Direction::Next, head, len)
    }

    /// Jumps from `head` to the previous bookmark in a text of `len` bytes.
    pub fn go_to_previous_bookmark(&self, head: usize, len: usize) -> (search: Option<
        BookmarkSearch,
    >)
        ensures
            search is Some <==> self.has_project && self.has_bookmark_store,
            search matches Some(search) ==> search.starts_for(Direction::Prev, head, len),
    {
        self.go_to_bookmark_impl(Direction::Prev, head, len)
    }

    fn go_to_bookmark_impl(&self, direction: Direction, head: usize, len: usize) -> (search: Option<
        BookmarkSearch,
    >)
        ensures
            search is Some <==> self.has_project && self.has_bookmark_store,
            search matches Some(search) ==> search.starts_for(direction, head, len),
    {
        if !self.has_project {
            return None;
        }
        if !self.has_bookmark_store {
            return None;
        }
        Some(BookmarkSearch { direction, head, range: 0..len })
    }

    /// Opens all bookmarks in one view; nothing where their locations could not be had.
    pub fn view_bookmarks<L, E>(locations: Result<L, E>) -> (view: Option<OpenLocations<L>>)
        ensures
            view is Some <==> locations is Ok,
            view matches Some(view) ==> {
                &&& Ok::<L, E>(view.locations) == locations
                &&& view.title@ == "Bookmarks"@
                &&& !view.split
                &&& !view.allow_preview
                &&& view.selection_mode == MultibufferSelectionMode::First
            },
    {
        match locations {
            Ok(locations) => Some(
                OpenLocations {
                    locations,
                    title: "Bookmarks",
                    split: false,
                    allow_preview: false,
                    selection_mode: MultibufferSelectionMode::First,
                },
            ),
            Err(_) => None,
        }
    }
}

impl<M> TargetToggle<M> {
    /// What the toggle does, once its lookup has been made.
    pub fn found<B, A>(&self, editor: &Editor, lookup: Lookup<B, A>) -> (effects: Vec<
        Effect<BookmarkTarget<B, A>>,
    >)
        ensures
            prompt::effects_view(effects@) == target_toggled(
                *editor,
                lookup,
                self.prompt_for_name,
            ),
    {
        let bookmark_exists = lookup.bookmark_exists_for_target();
        match lookup {
            Lookup::Found { buffer, anchor, .. } => editor.toggle_bookmark_target(
                BookmarkTarget { buffer, anchor },
                bookmark_exists,
                self.prompt_for_name,
            ),
            _ => {
                let effects = Vec::new();
                proof {
                    assert(prompt::effects_view(effects@) =~= Seq::empty());
                }
                effects
            },
        }
    }
}

impl<M> BookmarkEdit<M> {
    /// What the edit does, once its lookup has been made.
    pub fn found<B, A>(&self, editor: &Editor, lookup: Lookup<B, A>) -> (effects: Vec<
        Effect<BookmarkTarget<B, A>>,
    >)
        ensures
            prompt::effects_view(effects@) == name_edited(*editor, lookup),
    {
        match lookup {
            Lookup::Found { buffer, anchor, bookmark: Some(name) } => {
                let mut targets: Vec<BookmarkTarget<B, A>> = Vec::new();
                targets.push(BookmarkTarget { buffer, anchor });
                proof {
                    assert(targets@ =~= seq![BookmarkTarget { buffer, anchor }]);
                }
                editor.open_bookmark_name_prompt(targets, name, true, BookmarkNamePromptMode::Edit)
            },
            _ => {
                let effects = Vec::new();
                proof {
                    assert(prompt::effects_view(effects@) =~= Seq::empty());
                }
                effects
            },
        }
    }
}

} // verus!
