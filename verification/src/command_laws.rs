//! What holds of the editor's commands and of the name prompt, said of the fields of what goes in
//! and comes out.

use crate::editor;
use crate::editor::{
    BookmarkEdit, BookmarkTarget, BufferSource, Editor, Lookup, LookupRequest,
    MultibufferSelectionMode, OpenLocations, Spot, TargetToggle,
};
use crate::editor_laws;
use crate::position::Point;
use crate::prompt;
use crate::prompt::{BookmarkNamePrompt, BookmarkNamePromptMode, Effect, NameEditorEvent};
use crate::text;
use crate::text_laws;
use crate::toggling;
use crate::toggling::RowToggles;
use vstd::prelude::*;

verus! {

/// Points go by row and then by column, and a row starts at column zero.
pub proof fn law_points_go_by_row_and_column(a: &Point, b: &Point, r: bool, row: u32, start: Point)
    requires
        call_ensures(Point::is_up_to, (a, b), r),
        call_ensures(Point::row_start, (row,), start),
    ensures
        a.row < b.row ==> r,
        a.row > b.row ==> !r,
        a.row == b.row ==> r == (a.column <= b.column),
        start.row == row,
        start.column == 0,
{
}

/// Either command to toggle takes the rows on which some head stands, each once, from the top
/// down, wherever there are a store and a project, and only the one for named bookmarks asks for a
/// name.
pub proof fn law_toggle_takes_every_row_with_a_head<B, A>(
    editor: &Editor,
    heads: &Vec<Point>,
    unnamed: Option<RowToggles<B, A>>,
    named: Option<RowToggles<B, A>>,
    row: u32,
    i: int,
    j: int,
)
    requires
        call_ensures(Editor::toggle_bookmark::<B, A>, (editor, heads), unnamed),
        call_ensures(Editor::toggle_named_bookmark::<B, A>, (editor, heads), named),
    ensures
        unnamed is Some <==> editor.has_bookmark_store && editor.has_project,
        named is Some <==> editor.has_bookmark_store && editor.has_project,
        unnamed matches Some(toggle) ==> {
            &&& toggle.rows@.contains(row) <==> exists|k: int|
                0 <= k < heads@.len() && (#[trigger] heads@[k]).row == row
            &&& 0 <= i < j < toggle.rows@.len() ==> toggle.rows@[i] < toggle.rows@[j]
            &&& toggle.next == 0
            &&& toggle.bookmarks_to_add@.len() == 0
            &&& !toggle.prompt_for_name
        },
        named matches Some(toggle) ==> {
            &&& toggle.rows@ == unnamed->0.rows@
            &&& toggle.next == 0
            &&& toggle.bookmarks_to_add@.len() == 0
            &&& toggle.prompt_for_name
        },
{
    if let Some(toggle) = unnamed {
        editor_laws::law_rows_follow_from_heads(toggle.rows@, named->0.rows@, heads@);
    }
}

/// The rows of a toggle are looked up one by one, each at its start and among the buffers of the
/// project, until all have been.
pub proof fn law_each_row_is_looked_up_at_its_start<B, A, M>(
    toggle: &RowToggles<B, A>,
    request: Option<LookupRequest<M>>,
)
    requires
        call_ensures(RowToggles::<B, A>::request::<M>, (toggle,), request),
    ensures
        request is Some <==> toggle.next < toggle.rows@.len(),
        request matches Some(request) ==> {
            &&& request.buffers == BufferSource::Project
            &&& request.spot matches Spot::Before(point) && point.row
                == toggle.rows@[toggle.next as int] && point.column == 0
        },
{
}

/// Along a toggle a bookmark that is found is removed at once, without a name; a place without one
/// is kept for the end, behind those kept before; where nothing is found, nothing happens. Each
/// time it is one row further.
pub proof fn law_found_bookmarks_are_removed_at_once<B, A>(
    toggle: &mut RowToggles<B, A>,
    lookup: Lookup<B, A>,
    effect: Option<Effect<BookmarkTarget<B, A>>>,
)
    requires
        call_ensures(RowToggles::<B, A>::found, (toggle, lookup), effect),
    ensures
        final(toggle).rows == old(toggle).rows,
        final(toggle).prompt_for_name == old(toggle).prompt_for_name,
        final(toggle).next == old(toggle).next + 1,
        match lookup {
            Lookup::Found { buffer, anchor, bookmark: Some(_) } => {
                &&& effect matches Some(Effect::ToggleBookmark { target, name }) && {
                    &&& target == BookmarkTarget { buffer, anchor }
                    &&& name@.len() == 0
                }
                &&& final(toggle).bookmarks_to_add@ == old(toggle).bookmarks_to_add@
            },
            Lookup::Found { buffer, anchor, bookmark: None } => {
                &&& effect is None
                &&& final(toggle).bookmarks_to_add@ == old(toggle).bookmarks_to_add@.push(
                    BookmarkTarget { buffer, anchor },
                )
            },
            _ => {
                &&& effect is None
                &&& final(toggle).bookmarks_to_add@ == old(toggle).bookmarks_to_add@
            },
        },
{
    let views = toggling::one_or_none(effect);
    match lookup {
        Lookup::Found { buffer, anchor, bookmark: Some(_) } => {
            assert(views.len() == 1);
            assert(views[0] == effect->0@);
        },
        _ => {
            assert(views.len() == 0);
        },
    }
}

proof fn lemma_added<T>(
    effects: Seq<Effect<T>>,
    editor: Editor,
    targets: Seq<T>,
    prompt_for_name: bool,
    i: int,
)
    requires
        prompt::effects_view(effects) == editor::added(editor, targets, prompt_for_name),
    ensures
        prompt_for_name && editor.has_workspace ==> {
            &&& effects.len() == 1
            &&& effects[0] matches Effect::OpenPrompt { prompt } && {
                &&& prompt.targets@ == targets
                &&& prompt.initial_name@.len() == 0
                &&& !prompt.select_initial_name
                &&& prompt.mode == BookmarkNamePromptMode::Add
            }
        },
        !(prompt_for_name && editor.has_workspace) && !editor.has_bookmark_store ==> effects.len()
            == 0,
        !(prompt_for_name && editor.has_workspace) && editor.has_bookmark_store ==> {
            &&& effects.len() == targets.len()
            &&& 0 <= i < targets.len() ==> {
                effects[i] matches Effect::ToggleBookmark { target, name } && target == targets[i]
                    && name@.len() == 0
            }
        },
{
    let views = prompt::effects_view(effects);
    assert(views.len() == effects.len());
    if prompt_for_name && editor.has_workspace {
        assert(effects[0]@ == views[0]);
    } else if editor.has_bookmark_store && 0 <= i < targets.len() {
        assert(effects[i]@ == views[i]);
    }
}

/// A toggle that is left without a place to set a bookmark at has the editor drawn anew, and does
/// no more.
pub proof fn law_toggle_with_nothing_left_only_draws<B, A>(
    toggle: RowToggles<B, A>,
    editor: &Editor,
    effects: Vec<Effect<BookmarkTarget<B, A>>>,
)
    requires
        call_ensures(RowToggles::<B, A>::finish, (toggle, editor), effects),
        toggle.bookmarks_to_add@.len() == 0,
    ensures
        effects@.len() == 1,
        effects@[0] is Notify,
{
    let views = prompt::effects_view(effects@);
    assert(views.len() == effects@.len());
    assert(views[0] == effects@[0]@);
}

/// A toggle that has places left at its end opens one prompt for all of them, with an empty field,
/// where a name is wanted and there is a workspace. Else each of them is toggled without a name,
/// in order, where there is a store. Then the editor is drawn anew.
pub proof fn law_toggle_ends_by_setting_what_is_left<B, A>(
    toggle: RowToggles<B, A>,
    editor: &Editor,
    effects: Vec<Effect<BookmarkTarget<B, A>>>,
    i: int,
)
    requires
        call_ensures(RowToggles::<B, A>::finish, (toggle, editor), effects),
        toggle.bookmarks_to_add@.len() > 0,
    ensures
        effects@.len() > 0,
        effects@.last() is Notify,
        toggle.prompt_for_name && editor.has_workspace ==> {
            &&& effects@.len() == 2
            &&& effects@[0] matches Effect::OpenPrompt { prompt } && {
                &&& prompt.targets@ == toggle.bookmarks_to_add@
                &&& prompt.initial_name@.len() == 0
                &&& !prompt.select_initial_name
                &&& prompt.mode == BookmarkNamePromptMode::Add
            }
        },
        !(toggle.prompt_for_name && editor.has_workspace) && !editor.has_bookmark_store
            ==> effects@.len() == 1,
        !(toggle.prompt_for_name && editor.has_workspace) && editor.has_bookmark_store ==> {
            &&& effects@.len() == toggle.bookmarks_to_add@.len() + 1
            &&& 0 <= i < toggle.bookmarks_to_add@.len() ==> {
                effects@[i] matches Effect::ToggleBookmark { target, name } && target
                    == toggle.bookmarks_to_add@[i] && name@.len() == 0
            }
        },
{
    let targets = toggle.bookmarks_to_add@;
    let views = prompt::effects_view(effects@);
    let stored = effects@.drop_last();
    assert(views.len() == effects@.len());
    assert(views.last() == effects@.last()@);
    assert(prompt::effects_view(stored) =~= views.drop_last());
    assert(views.drop_last() =~= editor::added(*editor, targets, toggle.prompt_for_name));
    lemma_added(stored, *editor, targets, toggle.prompt_for_name, i);
}

/// A toggle of a single bookmark is for the very row of the display, or the very anchor, and looks
/// among the buffers that the editor shows.
pub proof fn law_single_toggle_is_for_the_place<M>(
    editor: &Editor,
    row: u32,
    anchor: M,
    prompt_for_name: bool,
    at_row: TargetToggle<M>,
    at_anchor: TargetToggle<M>,
)
    requires
        call_ensures(Editor::toggle_bookmark_at_row::<M>, (editor, row, prompt_for_name), at_row),
        call_ensures(
            Editor::toggle_bookmark_at_anchor::<M>,
            (editor, anchor, prompt_for_name),
            at_anchor,
        ),
    ensures
        at_row.request.spot == Spot::<M>::DisplayRow(row),
        at_row.request.buffers == BufferSource::Editor,
        at_row.prompt_for_name == prompt_for_name,
        at_anchor.request.spot == Spot::Anchor(anchor),
        at_anchor.request.buffers == BufferSource::Editor,
        at_anchor.prompt_for_name == prompt_for_name,
{
}

/// Toggling a single bookmark does nothing where no place was found or there is no store.
pub proof fn law_single_toggle_needs_a_place_and_a_store<M, B, A>(
    toggle: &TargetToggle<M>,
    editor: &Editor,
    lookup: Lookup<B, A>,
    effects: Vec<Effect<BookmarkTarget<B, A>>>,
)
    requires
        call_ensures(TargetToggle::<M>::found::<B, A>, (toggle, editor, lookup), effects),
        !(lookup is Found) || !editor.has_bookmark_store,
    ensures
        effects@.len() == 0,
{
    assert(prompt::effects_view(effects@).len() == effects@.len());
}

/// Toggling a single bookmark that is there removes it, without a name and without asking. Where
/// there is none, a prompt for that place alone, with an empty field, is opened if a name is wanted
/// and there is a workspace, and else a bookmark is set without a name. Then the editor is drawn
/// anew.
pub proof fn law_single_toggle_removes_or_sets<M, B, A>(
    toggle: &TargetToggle<M>,
    editor: &Editor,
    place: BookmarkTarget<B, A>,
    bookmark: Option<String>,
    effects: Vec<Effect<BookmarkTarget<B, A>>>,
)
    requires
        call_ensures(
            TargetToggle::<M>::found::<B, A>,
            (
                toggle,
                editor,
                Lookup::Found { buffer: place.buffer, anchor: place.anchor, bookmark },
            ),
            effects,
        ),
        editor.has_bookmark_store,
    ensures
        effects@.len() == 2,
        effects@[1] is Notify,
        bookmark is Some || !toggle.prompt_for_name || !editor.has_workspace ==> {
            effects@[0] matches Effect::ToggleBookmark { target, name } && target == place
                && name@.len() == 0
        },
        bookmark is None && toggle.prompt_for_name && editor.has_workspace ==> {
            effects@[0] matches Effect::OpenPrompt { prompt } && {
                &&& prompt.targets@.len() == 1
                &&& prompt.targets@[0] == place
                &&& prompt.initial_name@.len() == 0
                &&& !prompt.select_initial_name
                &&& prompt.mode == BookmarkNamePromptMode::Add
            }
        },
{
    let targets = seq![place];
    let views = prompt::effects_view(effects@);
    let stored = effects@.drop_last();
    assert(views.len() == effects@.len());
    assert(prompt::effects_view(stored) =~= views.drop_last());
    if bookmark is Some {
        assert(views[0] == effects@[0]@);
    } else {
        assert(views.drop_last() =~= editor::added(*editor, targets, toggle.prompt_for_name));
        lemma_added(stored, *editor, targets, toggle.prompt_for_name, 0);
    }
    assert(views[1] == effects@[1]@);
}

/// There is a bookmark at a place exactly where the lookup found a place and a name on its row.
pub proof fn law_bookmark_exists_where_a_name_was_found<B, A>(lookup: &Lookup<B, A>, r: bool)
    requires
        call_ensures(Lookup::<B, A>::bookmark_exists_for_target, (lookup,), r),
    ensures
        match *lookup {
            Lookup::Found { bookmark, .. } => r == bookmark is Some,
            _ => !r,
        },
{
}

/// An edit is for the bookmark on the very row of the head, at its start, or at the very anchor,
/// and looks among the buffers of the project; it takes place wherever there are a store and a
/// project.
pub proof fn law_edit_is_for_the_place<M>(
    editor: &Editor,
    head: Point,
    anchor: M,
    at_head: Option<BookmarkEdit<M>>,
    at_anchor: Option<BookmarkEdit<M>>,
)
    requires
        call_ensures(Editor::edit_bookmark::<M>, (editor, head), at_head),
        call_ensures(Editor::edit_bookmark_at_anchor::<M>, (editor, anchor), at_anchor),
    ensures
        at_head is Some <==> editor.has_bookmark_store && editor.has_project,
        at_anchor is Some <==> editor.has_bookmark_store && editor.has_project,
        at_head matches Some(edit) ==> {
            &&& edit.request.buffers == BufferSource::Project
            &&& edit.request.spot matches Spot::Before(point) && point.row == head.row
                && point.column == 0
        },
        at_anchor matches Some(edit) ==> {
            &&& edit.request.buffers == BufferSource::Project
            &&& edit.request.spot == Spot::Anchor(anchor)
        },
{
}

/// Editing a bookmark opens a prompt for that bookmark alone, with its whole name in the field and
/// selected; where there is no bookmark, or no workspace, nothing happens.
pub proof fn law_edit_asks_with_the_name_that_is_there<M, B, A>(
    edit: &BookmarkEdit<M>,
    editor: &Editor,
    lookup: Lookup<B, A>,
    effects: Vec<Effect<BookmarkTarget<B, A>>>,
)
    requires
        call_ensures(BookmarkEdit::<M>::found::<B, A>, (edit, editor, lookup), effects),
    ensures
        match lookup {
            Lookup::Found { buffer, anchor, bookmark: Some(name) } if editor.has_workspace => {
                &&& effects@.len() == 1
                &&& effects@[0] matches Effect::OpenPrompt { prompt } && {
                    &&& prompt.targets@.len() == 1
                    &&& prompt.targets@[0] == BookmarkTarget { buffer, anchor }
                    &&& prompt.initial_name@ == name@
                    &&& prompt.select_initial_name
                    &&& prompt.mode == BookmarkNamePromptMode::Edit
                }
            },
            _ => effects@.len() == 0,
        },
{
    let views = prompt::effects_view(effects@);
    assert(views.len() == effects@.len());
    if views.len() > 0 {
        assert(views[0] == effects@[0]@);
    }
}

/// A prompt is for the targets, the name, the selection and the mode that it was made with.
pub proof fn law_prompt_is_as_it_was_made<T>(
    targets: Vec<T>,
    initial_name: String,
    select_initial_name: bool,
    mode: BookmarkNamePromptMode,
    made: BookmarkNamePrompt<T>,
)
    requires
        call_ensures(
            BookmarkNamePrompt::<T>::new,
            (targets, initial_name, select_initial_name, mode),
            made,
        ),
    ensures
        made.targets@ == targets@,
        made.initial_name@ == initial_name@,
        made.select_initial_name == select_initial_name,
        made.mode == mode,
{
    assert(made@.targets == made.targets@);
    assert(made@.initial_name == made.initial_name@);
}

/// Confirming a prompt names the bookmark at each of its targets, in order, by the text in the
/// field as trimming leaves it: a prompt to add toggles them, a prompt to edit edits them, and
/// without a store neither happens. In any case the editor then gets the focus and is drawn anew,
/// and the prompt closes.
pub proof fn law_confirming_names_every_target<T>(
    asked: &BookmarkNamePrompt<T>,
    text: &str,
    editor: &Editor,
    effects: Vec<Effect<&T>>,
    trimmed: String,
)
    requires
        call_ensures(BookmarkNamePrompt::<T>::confirm, (asked, text, editor), effects),
        call_ensures(text::trim, (text,), trimmed),
    ensures
        ({
            let n: int = if editor.has_bookmark_store {
                asked.targets@.len() as int
            } else {
                0
            };
            &&& effects@.len() == n + 3
            &&& forall|i: int|
                #![trigger effects@[i]]
                0 <= i < n ==> match asked.mode {
                    BookmarkNamePromptMode::Add => effects@[i] matches Effect::ToggleBookmark {
                        target,
                        name,
                    } && *target == asked.targets@[i] && name@ == trimmed@,
                    BookmarkNamePromptMode::Edit => effects@[i] matches Effect::EditBookmark {
                        target,
                        name,
                    } && *target == asked.targets@[i] && name@ == trimmed@,
                }
            &&& effects@[n] is FocusEditor
            &&& effects@[n + 1] is Notify
            &&& effects@[n + 2] is Dismiss
        }),
{
    let n: int = if editor.has_bookmark_store {
        asked.targets@.len() as int
    } else {
        0
    };
    let views = prompt::effects_view(effects@);
    assert(views.len() == effects@.len());
    assert(effects@[n]@ == views[n]);
    assert(effects@[n + 1]@ == views[n + 1]);
    assert(effects@[n + 2]@ == views[n + 2]);
    assert forall|i: int| #![trigger effects@[i]] 0 <= i < n implies match asked.mode {
        BookmarkNamePromptMode::Add => effects@[i] matches Effect::ToggleBookmark { target, name }
            && *target == asked.targets@[i] && name@ == trimmed@,
        BookmarkNamePromptMode::Edit => effects@[i] matches Effect::EditBookmark { target, name }
            && *target == asked.targets@[i] && name@ == trimmed@,
    } by {
        assert(effects@[i]@ == views[i]);
    }
}

/// A name of any length that neither starts nor ends with white space is given as it was typed.
pub proof fn law_confirming_gives_the_name_as_typed<T>(
    asked: &BookmarkNamePrompt<T>,
    text: &str,
    editor: &Editor,
    effects: Vec<Effect<&T>>,
    trimmed: String,
    i: int,
)
    requires
        call_ensures(BookmarkNamePrompt::<T>::confirm, (asked, text, editor), effects),
        call_ensures(text::trim, (text,), trimmed),
        text@.len() > 0 ==> !text::is_white_space(text@[0]) && !text::is_white_space(text@.last()),
        editor.has_bookmark_store,
        0 <= i < asked.targets@.len(),
    ensures
        effects@[i] matches Effect::ToggleBookmark { name, .. } ==> name@ == text@,
        effects@[i] matches Effect::EditBookmark { name, .. } ==> name@ == text@,
        effects@[i] is ToggleBookmark || effects@[i] is EditBookmark,
{
    law_confirming_names_every_target(asked, text, editor, effects, trimmed);
    text_laws::law_trim_keeps_what_has_no_white_space_around_it(text, trimmed);
}

/// A prompt closes when it is cancelled and when its field loses the focus, and does nothing more
/// then; no other event in the field does anything.
pub proof fn law_prompt_closes_on_cancel_and_on_blur<T>(
    asked: &BookmarkNamePrompt<T>,
    event: NameEditorEvent,
    cancelled: Effect<T>,
    answered: Option<Effect<T>>,
)
    requires
        call_ensures(BookmarkNamePrompt::<T>::cancel, (asked,), cancelled),
        call_ensures(BookmarkNamePrompt::<T>::on_name_editor_event, (asked, event), answered),
    ensures
        cancelled is Dismiss,
        event is Blurred ==> answered is Some && answered->0 is Dismiss,
        event is Other ==> answered is None,
{
}

/// The empty field of a prompt says that a bookmark's name goes there.
pub proof fn law_prompt_says_what_goes_in<T>(shown: &'static str)
    requires
        call_ensures(BookmarkNamePrompt::<T>::placeholder_text, (), shown),
    ensures
        shown@ == "Bookmark name"@,
{
}

/// Setting whether bookmarks are drawn sets that and nothing else, and has the editor drawn anew.
pub proof fn law_showing_bookmarks_is_set<T>(
    editor: &mut Editor,
    show_bookmarks: bool,
    effects: Vec<Effect<T>>,
)
    requires
        call_ensures(Editor::set_show_bookmarks::<T>, (editor, show_bookmarks), effects),
    ensures
        final(editor).show_bookmarks == Some(show_bookmarks),
        final(editor).has_bookmark_store == old(editor).has_bookmark_store,
        final(editor).has_project == old(editor).has_project,
        final(editor).has_workspace == old(editor).has_workspace,
        effects@.len() == 1,
        effects@[0] is Notify,
{
    let views = prompt::effects_view(effects@);
    assert(views.len() == effects@.len());
    assert(views[0] == effects@[0]@);
}

/// Viewing all bookmarks opens exactly the locations that were had, under one title, neither split
/// nor as a preview, with the first selected; where they could not be had, nothing is opened.
pub proof fn law_viewing_opens_all_locations<L, E>(
    locations: Result<L, E>,
    view: Option<OpenLocations<L>>,
)
    requires
        call_ensures(Editor::view_bookmarks::<L, E>, (locations,), view),
    ensures
        locations is Err ==> view is None,
        locations is Ok ==> view is Some && {
            &&& view->0.locations == locations->Ok_0
            &&& view->0.title@ == "Bookmarks"@
            &&& !view->0.split
            &&& !view->0.allow_preview
            &&& view->0.selection_mode == MultibufferSelectionMode::First
        },
{
}

} // verus!
