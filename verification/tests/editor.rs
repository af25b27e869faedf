use bookmarks::editor::{
    BookmarkEdit, BookmarkTarget, BufferSource, Editor, Lookup, LookupRequest,
    MultibufferSelectionMode, OpenLocations, Spot, TargetToggle,
};
use bookmarks::position::Point;
use bookmarks::prompt::{BookmarkNamePrompt, BookmarkNamePromptMode, Effect, NameEditorEvent};
use bookmarks::toggling::RowToggles;

type Target = BookmarkTarget<u64, u64>;

fn editor() -> Editor {
    Editor { show_bookmarks: None, has_bookmark_store: true, has_project: true, has_workspace: true }
}

fn target(buffer: u64, anchor: u64) -> Target {
    BookmarkTarget { buffer, anchor }
}

fn found(buffer: u64, anchor: u64, bookmark: Option<&str>) -> Lookup<u64, u64> {
    Lookup::Found { buffer, anchor, bookmark: bookmark.map(|name| name.to_string()) }
}

fn toggle(target: Target, name: &str) -> Effect<Target> {
    Effect::ToggleBookmark { target, name: name.to_string() }
}

fn point(row: u32, column: u32) -> Point {
    Point { row, column }
}

fn rows(heads: &[Point]) -> Vec<u32> {
    let heads = heads.to_vec();
    let toggle: RowToggles<u64, u64> = editor().toggle_bookmark(&heads).unwrap();
    toggle.rows
}

/// Runs a toggle on rows whose lookups give `lookups`, and returns all effects in order.
fn run(editor: &Editor, named: bool, heads: &[Point], lookups: Vec<Lookup<u64, u64>>) -> Vec<Effect<Target>> {
    let heads = heads.to_vec();
    let toggle = if named {
        editor.toggle_named_bookmark(&heads)
    } else {
        editor.toggle_bookmark(&heads)
    };
    let mut toggle: RowToggles<u64, u64> = toggle.unwrap();
    let mut lookups = lookups.into_iter();
    let mut effects: Vec<Effect<Target>> = Vec::new();
    while toggle.request::<u64>().is_some() {
        let lookup = lookups.next().unwrap();
        if let Some(effect) = toggle.found(lookup) {
            effects.push(effect);
        }
    }
    effects.extend(toggle.finish(editor));
    effects
}

#[test]
fn showing_bookmarks_is_set() {
    let mut editor = editor();
    assert_eq!(editor.set_show_bookmarks::<Target>(true), vec![Effect::Notify]);
    assert_eq!(editor.show_bookmarks, Some(true));
    assert_eq!(editor.set_show_bookmarks::<Target>(false), vec![Effect::Notify]);
    assert_eq!(editor.show_bookmarks, Some(false));
    assert!(editor.has_bookmark_store && editor.has_project && editor.has_workspace);
}

#[test]
fn rows_are_sorted_and_listed_once() {
    assert_eq!(rows(&[]), Vec::<u32>::new());
    assert_eq!(rows(&[point(4, 1)]), vec![4]);
    assert_eq!(
        rows(&[point(4, 9), point(2, 0), point(4, 1), point(7, 3), point(2, 5), point(0, 0)]),
        vec![0, 2, 4, 7]
    );
}

#[test]
fn toggle_needs_store_and_project() {
    let heads = vec![point(1, 1)];
    let mut no_store = editor();
    no_store.has_bookmark_store = false;
    assert_eq!(no_store.toggle_bookmark::<u64, u64>(&heads), None);
    assert_eq!(no_store.toggle_named_bookmark::<u64, u64>(&heads), None);
    let mut no_project = editor();
    no_project.has_project = false;
    assert_eq!(no_project.toggle_bookmark::<u64, u64>(&heads), None);
    assert_eq!(no_project.toggle_named_bookmark::<u64, u64>(&heads), None);
}

#[test]
fn toggle_looks_up_the_start_of_each_row() {
    let heads = vec![point(6, 3), point(1, 8)];
    let mut toggle: RowToggles<u64, u64> = editor().toggle_bookmark(&heads).unwrap();
    assert_eq!(
        toggle.request::<u64>(),
        Some(LookupRequest { spot: Spot::Before(point(1, 0)), buffers: BufferSource::Project })
    );
    assert_eq!(toggle.found(Lookup::NoAnchor), None);
    assert_eq!(
        toggle.request::<u64>(),
        Some(LookupRequest { spot: Spot::Before(point(6, 0)), buffers: BufferSource::Project })
    );
    assert_eq!(toggle.found(Lookup::NoBuffer), None);
    assert_eq!(toggle.request::<u64>(), None);
    assert_eq!(toggle.finish(&editor()), vec![Effect::Notify]);
}

#[test]
fn unnamed_toggle_toggles_each_place_once() {
    let heads = [point(0, 0), point(1, 0), point(2, 0), point(3, 0)];
    let lookups = vec![
        found(1, 10, None),
        found(1, 11, Some("old")),
        Lookup::NoBuffer,
        found(2, 13, None),
    ];
    assert_eq!(
        run(&editor(), false, &heads, lookups),
        vec![
            toggle(target(1, 11), ""),
            toggle(target(1, 10), ""),
            toggle(target(2, 13), ""),
            Effect::Notify,
        ]
    );
}

#[test]
fn named_toggle_asks_once_for_all_new_bookmarks() {
    let heads = [point(0, 0), point(1, 0), point(2, 0)];
    let lookups = vec![found(1, 10, None), found(1, 11, Some("old")), found(1, 12, None)];
    let mut effects = run(&editor(), true, &heads, lookups);
    assert_eq!(effects.len(), 3);
    assert_eq!(effects[0], toggle(target(1, 11), ""));
    assert_eq!(effects[2], Effect::Notify);
    let prompt = match effects.remove(1) {
        Effect::OpenPrompt { prompt } => prompt,
        other => panic!("{:?}", other),
    };
    assert_eq!(prompt.targets, vec![target(1, 10), target(1, 12)]);
    assert_eq!(prompt.initial_name, "");
    assert!(!prompt.select_initial_name);
    assert_eq!(prompt.mode, BookmarkNamePromptMode::Add);
    assert_eq!(
        prompt.confirm("  here ", &editor()),
        vec![
            Effect::ToggleBookmark { target: &target(1, 10), name: "here".to_string() },
            Effect::ToggleBookmark { target: &target(1, 12), name: "here".to_string() },
            Effect::FocusEditor,
            Effect::Notify,
            Effect::Dismiss,
        ]
    );
}

#[test]
fn named_toggle_without_new_bookmarks_asks_nothing() {
    let effects = run(&editor(), true, &[point(5, 2)], vec![found(1, 10, Some("old"))]);
    assert_eq!(effects, vec![toggle(target(1, 10), ""), Effect::Notify]);
}

#[test]
fn named_toggle_without_workspace_sets_unnamed_bookmarks() {
    let mut editor = editor();
    editor.has_workspace = false;
    let effects = run(&editor, true, &[point(5, 2)], vec![found(1, 10, None)]);
    assert_eq!(effects, vec![toggle(target(1, 10), ""), Effect::Notify]);
}

#[test]
fn toggle_at_row_looks_in_the_editor() {
    let toggle: TargetToggle<u64> = editor().toggle_bookmark_at_row(12, true);
    assert_eq!(
        toggle,
        TargetToggle {
            request: LookupRequest { spot: Spot::DisplayRow(12), buffers: BufferSource::Editor },
            prompt_for_name: true,
        }
    );
}

#[test]
fn toggle_at_anchor() {
    let toggle_plain = editor().toggle_bookmark_at_anchor(77u64, false);
    assert_eq!(
        toggle_plain.request,
        LookupRequest { spot: Spot::Anchor(77), buffers: BufferSource::Editor }
    );
    assert_eq!(toggle_plain.found::<u64, u64>(&editor(), Lookup::NoAnchor), vec![]);
    assert_eq!(toggle_plain.found::<u64, u64>(&editor(), Lookup::NoBuffer), vec![]);
    assert_eq!(
        toggle_plain.found(&editor(), found(3, 4, None)),
        vec![toggle(target(3, 4), ""), Effect::Notify]
    );
    let toggle_named = editor().toggle_bookmark_at_anchor(77u64, true);
    assert_eq!(
        toggle_named.found(&editor(), found(3, 4, None)),
        vec![
            Effect::OpenPrompt {
                prompt: BookmarkNamePrompt::new(
                    vec![target(3, 4)],
                    String::new(),
                    false,
                    BookmarkNamePromptMode::Add
                )
            },
            Effect::Notify,
        ]
    );
    let mut no_workspace = editor();
    no_workspace.has_workspace = false;
    assert_eq!(
        toggle_named.found(&no_workspace, found(3, 4, None)),
        vec![toggle(target(3, 4), ""), Effect::Notify]
    );
}

#[test]
fn removing_never_asks() {
    for prompt_for_name in [false, true] {
        let toggle_one = editor().toggle_bookmark_at_anchor(77u64, prompt_for_name);
        assert_eq!(
            toggle_one.found(&editor(), found(3, 4, Some("old"))),
            vec![toggle(target(3, 4), ""), Effect::Notify]
        );
    }
}

#[test]
fn without_store_nothing_is_stored() {
    let mut editor = editor();
    editor.has_bookmark_store = false;
    for bookmark in [None, Some("old")] {
        let toggle_one = editor.toggle_bookmark_at_anchor(77u64, true);
        assert_eq!(toggle_one.found(&editor, found(3, 4, bookmark)), vec![]);
    }
    let prompt = BookmarkNamePrompt::new(
        vec![target(1, 2)],
        String::new(),
        false,
        BookmarkNamePromptMode::Add,
    );
    assert_eq!(
        prompt.confirm("name", &editor),
        vec![Effect::FocusEditor, Effect::Notify, Effect::Dismiss]
    );
}

#[test]
fn edit_looks_up_the_row_of_the_head() {
    assert_eq!(
        editor().edit_bookmark::<u64>(point(9, 14)),
        Some(BookmarkEdit {
            request: LookupRequest { spot: Spot::Before(point(9, 0)), buffers: BufferSource::Project }
        })
    );
    assert_eq!(
        editor().edit_bookmark_at_anchor(5u64),
        Some(BookmarkEdit {
            request: LookupRequest { spot: Spot::Anchor(5), buffers: BufferSource::Project }
        })
    );
    let mut no_store = editor();
    no_store.has_bookmark_store = false;
    assert_eq!(no_store.edit_bookmark::<u64>(point(9, 14)), None);
    assert_eq!(no_store.edit_bookmark_at_anchor(5u64), None);
    let mut no_project = editor();
    no_project.has_project = false;
    assert_eq!(no_project.edit_bookmark::<u64>(point(9, 14)), None);
    assert_eq!(no_project.edit_bookmark_at_anchor(5u64), None);
}

#[test]
fn edit_prompts_with_the_name_that_is_there() {
    let edit = editor().edit_bookmark_at_anchor(5u64).unwrap();
    assert_eq!(edit.found::<u64, u64>(&editor(), Lookup::NoAnchor), vec![]);
    assert_eq!(edit.found::<u64, u64>(&editor(), Lookup::NoBuffer), vec![]);
    assert_eq!(edit.found(&editor(), found(3, 4, None)), vec![]);
    assert_eq!(
        edit.found(&editor(), found(3, 4, Some("old"))),
        vec![Effect::OpenPrompt {
            prompt: BookmarkNamePrompt::new(
                vec![target(3, 4)],
                "old".to_string(),
                true,
                BookmarkNamePromptMode::Edit
            )
        }]
    );
    let mut no_workspace = editor();
    no_workspace.has_workspace = false;
    assert_eq!(edit.found(&no_workspace, found(3, 4, Some("old"))), vec![]);
}

#[test]
fn confirming_an_edit_gives_the_trimmed_name() {
    let prompt = BookmarkNamePrompt::new(
        vec![target(3, 4)],
        "old".to_string(),
        true,
        BookmarkNamePromptMode::Edit,
    );
    assert_eq!(
        prompt.confirm("\tnew name ", &editor())[0],
        Effect::EditBookmark { target: &target(3, 4), name: "new name".to_string() }
    );
    assert_eq!(
        prompt.confirm(&prompt.initial_name, &editor()),
        vec![
            Effect::EditBookmark { target: &target(3, 4), name: "old".to_string() },
            Effect::FocusEditor,
            Effect::Notify,
            Effect::Dismiss,
        ]
    );
}

#[test]
fn prompt_closes_on_blur_and_on_cancel() {
    let prompt: BookmarkNamePrompt<u64> =
        BookmarkNamePrompt::new(vec![1], String::new(), false, BookmarkNamePromptMode::Add);
    assert_eq!(prompt.on_name_editor_event(NameEditorEvent::Blurred), Some(Effect::Dismiss));
    assert_eq!(prompt.on_name_editor_event(NameEditorEvent::Other), None);
    assert_eq!(prompt.cancel(), Effect::Dismiss);
    assert_eq!(BookmarkNamePrompt::<u64>::placeholder_text(), "Bookmark name");
}

#[test]
fn viewing_bookmarks_opens_their_locations() {
    assert_eq!(
        Editor::view_bookmarks(Ok::<Vec<u64>, ()>(vec![1, 2])),
        Some(OpenLocations {
            locations: vec![1, 2],
            title: "Bookmarks",
            split: false,
            allow_preview: false,
            selection_mode: MultibufferSelectionMode::First,
        })
    );
    assert_eq!(Editor::view_bookmarks(Err::<Vec<u64>, ()>(())), None);
}
