use bookmarks::position::Point;
use bookmarks::project_bookmarks::{
    BookmarkMatch, BookmarkOpening, HighlightedText, ListEffect, ListedBookmark, Pane,
    ProjectBookmark, ProjectBookmarksDelegate, StringMatch, MAX_MATCHES,
};

fn listed(path: &str, short_path: Option<&str>, row: u32, name: &str) -> ListedBookmark<String> {
    ListedBookmark {
        bookmark: ProjectBookmark { abs_path: path.to_string(), row, name: name.to_string() },
        short_path: short_path.map(|path| path.to_string()),
        full_path: path.to_string(),
    }
}

/// The candidates that hold the characters of `query` in order, with the bytes where they stand.
fn search(delegate: &ProjectBookmarksDelegate<String>, query: &str) -> Vec<StringMatch> {
    let mut matches: Vec<StringMatch> = Vec::new();
    for candidate in &delegate.candidates {
        let mut wanted = query.chars().peekable();
        let mut positions: Vec<usize> = Vec::new();
        for (at, c) in candidate.string.char_indices() {
            if wanted.peek() == Some(&c) {
                positions.push(at);
                wanted.next();
            }
        }
        if wanted.peek().is_none() {
            matches.push(StringMatch {
                candidate_id: candidate.id,
                positions,
                string: candidate.string.clone(),
            });
        }
    }
    matches
}

fn update(
    delegate: &mut ProjectBookmarksDelegate<String>,
    query: &str,
    bookmarks: Option<Vec<ListedBookmark<String>>>,
) {
    if let Some(fuzzy) = delegate.update_matches(query, bookmarks) {
        assert_eq!(fuzzy.query, query);
        assert!(!fuzzy.smart_case);
        assert!(fuzzy.penalize_length);
        assert_eq!(fuzzy.max_results, 100);
        let matches = search(delegate, &fuzzy.query);
        delegate.set_matches(matches);
    }
}

/// What `confirm` opens, if it does anything at all.
fn opened(
    delegate: &ProjectBookmarksDelegate<String>,
    secondary: bool,
) -> Option<BookmarkOpening<'_, String>> {
    let mut opening = None;
    for effect in delegate.confirm(secondary) {
        if let ListEffect::Open { opening: one, .. } = effect {
            opening = Some(one);
        }
    }
    opening
}

fn ids(delegate: &ProjectBookmarksDelegate<String>) -> Vec<usize> {
    delegate.matches.iter().map(|m| m.candidate_id).collect()
}

#[test]
fn test_project_bookmarks_filters_by_name() {
    let bookmarks = || {
        Some(vec![
            listed("/dir/src/alpha.rs", Some("src/alpha.rs"), 0, "first mark"),
            listed("/dir/beta.rs", Some("beta.rs"), 0, "beta mark"),
        ])
    };
    let mut delegate = ProjectBookmarksDelegate::new();

    update(&mut delegate, "", bookmarks());
    assert_eq!(delegate.matches.len(), 2);

    update(&mut delegate, "beta", bookmarks());
    assert_eq!(delegate.matches.len(), 1);
    let bookmark = &delegate.bookmarks[delegate.matches[0].candidate_id];
    assert!(bookmark.display_path.ends_with("beta.rs"));
    assert_eq!(bookmark.name, "beta mark");

    update(&mut delegate, "beta.rs", bookmarks());
    assert_eq!(delegate.matches.len(), 1);
    let bookmark = &delegate.bookmarks[delegate.matches[0].candidate_id];
    assert!(bookmark.display_path.ends_with("beta.rs"));

    update(&mut delegate, "src/alpha.rs", bookmarks());
    assert_eq!(delegate.matches.len(), 1);
    let bookmark = &delegate.bookmarks[delegate.matches[0].candidate_id];
    assert!(bookmark.display_path.ends_with("alpha.rs"));
}

#[test]
fn test_project_bookmarks_confirm_opens_bookmark() {
    let text = "row0\nrow1\nrow2\n";
    let max_point = Point { row: text.matches('\n').count() as u32, column: 0 };
    let mut delegate = ProjectBookmarksDelegate::new();
    update(&mut delegate, "", Some(vec![listed("/dir/alpha.rs", Some("alpha.rs"), 2, "target")]));

    let opening = opened(&delegate, false).expect("bookmark should open an editor");
    assert_eq!(opening.bookmark.abs_path, "/dir/alpha.rs");
    assert_eq!(opening.pane, Pane::Active);
    let cursor = opening.cursor(Some(max_point)).unwrap();
    assert_eq!(cursor.row, 2);
    assert_eq!(cursor.column, 0);
}

#[test]
fn row_with_a_name() {
    let row = BookmarkMatch::new(listed("C:\\w\\src\\caf\u{e9}.rs", Some("src\\caf\u{e9}.rs"), 41, "na\u{ef}ve"));
    assert_eq!(row.name, "na\u{ef}ve");
    assert_eq!(row.display_path, "src\\caf\u{e9}.rs");
    assert_eq!(row.filter_text, "na\u{ef}ve src/caf\u{e9}.rs");
    assert_eq!(row.name_range, 0..6);
    assert_eq!(row.path_range, 7..19);
    assert_eq!(row.line_number, 42);
    assert_eq!(&row.filter_text[row.name_range.clone()], "na\u{ef}ve");
    assert_eq!(&row.filter_text[row.path_range.clone()], "src/caf\u{e9}.rs");
    assert_eq!(row.path_range.len(), row.display_path.len());
}

#[test]
fn row_without_a_name() {
    let row = BookmarkMatch::new(listed("/outside/x.rs", None, 0, ""));
    assert_eq!(row.display_path, "/outside/x.rs");
    assert_eq!(row.filter_text, "/outside/x.rs");
    assert_eq!(row.name_range, 0..0);
    assert_eq!(row.path_range, 0..13);
    assert_eq!(row.line_number, 1);
}

#[test]
fn last_row_that_can_be_numbered() {
    assert_eq!(BookmarkMatch::new(listed("/a", None, u32::MAX - 1, "")).line_number, u32::MAX);
}

#[test]
fn set_bookmarks_keeps_matches() {
    let mut delegate = ProjectBookmarksDelegate::new();
    update(&mut delegate, "", Some(vec![listed("/a", None, 0, "x"), listed("/b", None, 0, "y")]));
    delegate.set_selected_index(1);
    delegate.set_bookmarks(vec![listed("/c", None, 4, "z")]);
    assert_eq!(delegate.bookmarks.len(), 1);
    assert_eq!(delegate.candidates.len(), 1);
    assert_eq!(delegate.candidates[0].id, 0);
    assert_eq!(delegate.candidates[0].string, "z /c");
    assert_eq!(delegate.match_count(), 2);
    assert_eq!(delegate.selected_index(), 1);
    assert_eq!(delegate.confirm(false), vec![]);
    assert_eq!(delegate.render_match(1, true), None);
    assert!(delegate.render_match(0, true).is_some());
    assert_eq!(delegate.render_match(2, true), None);
}

#[test]
fn store_that_cannot_be_read_lists_nothing() {
    let mut delegate = ProjectBookmarksDelegate::new();
    update(&mut delegate, "", Some(vec![listed("/a", None, 0, "x")]));
    assert_eq!(delegate.match_count(), 1);
    update(&mut delegate, "", None);
    assert_eq!(delegate.match_count(), 0);
    assert_eq!(delegate.bookmarks.len(), 0);
    assert_eq!(delegate.confirm(true), vec![]);
}

#[test]
fn matches_are_listed_by_path_and_line() {
    let mut delegate = ProjectBookmarksDelegate::new();
    update(
        &mut delegate,
        "",
        Some(vec![
            listed("/b.rs", None, 9, ""),
            listed("/a.rs", None, 7, ""),
            listed("/b.rs", None, 2, ""),
            listed("/B.rs", None, 5, ""),
            listed("/a.rs", None, 7, "second"),
        ]),
    );
    assert_eq!(ids(&delegate), vec![3, 1, 4, 2, 0]);
    assert_eq!(delegate.selected_index(), 0);
    for found in &delegate.matches {
        assert!(found.positions.is_empty());
        assert_eq!(found.string, delegate.bookmarks[found.candidate_id].filter_text);
    }
}

#[test]
fn search_results_are_listed_and_the_first_is_selected() {
    let mut delegate = ProjectBookmarksDelegate::new();
    let bookmarks = vec![
        listed("/z.rs", None, 1, "mark"),
        listed("/y.rs", None, 1, "other"),
        listed("/x.rs", None, 1, "mark"),
    ];
    delegate.set_selected_index(5);
    update(&mut delegate, "mark", Some(bookmarks));
    assert_eq!(ids(&delegate), vec![2, 0]);
    assert_eq!(delegate.selected_index(), 0);
    assert_eq!(opened(&delegate, true).unwrap().bookmark.abs_path, "/x.rs");
    assert_eq!(opened(&delegate, true).unwrap().pane, Pane::Adjacent);
}

#[test]
fn a_search_changes_nothing_until_its_matches_are_there() {
    let mut delegate = ProjectBookmarksDelegate::new();
    update(&mut delegate, "", Some(vec![listed("/a", None, 0, "x"), listed("/b", None, 0, "y")]));
    delegate.set_selected_index(1);
    assert!(delegate.filter("x").is_some());
    assert_eq!(ids(&delegate), vec![0, 1]);
    assert_eq!(delegate.selected_index(), 1);
    assert_eq!(delegate.filter(""), None);
    assert_eq!(delegate.selected_index(), 0);
}

#[test]
fn empty_search_returns_the_first_hundred() {
    let mut bookmarks: Vec<ListedBookmark<String>> = Vec::new();
    for row in 0..130 {
        bookmarks.push(listed("/a.rs", None, 1000 - row, ""));
    }
    let mut delegate = ProjectBookmarksDelegate::new();
    update(&mut delegate, "", Some(bookmarks));
    assert_eq!(delegate.match_count(), MAX_MATCHES);
    assert_eq!(delegate.match_count(), 100);
    let expected: Vec<usize> = (0..100).rev().collect();
    assert_eq!(ids(&delegate), expected);
}

#[test]
fn highlights_are_counted_from_the_range() {
    let found = StringMatch {
        candidate_id: 0,
        positions: vec![0, 3, 4, 5, 9, 4],
        string: String::new(),
    };
    let highlight = |range: std::ops::Range<usize>| {
        ProjectBookmarksDelegate::<String>::highlight_positions_for_range(&found, range)
    };
    assert_eq!(highlight(0..4), vec![0, 3]);
    assert_eq!(highlight(4..9), vec![0, 1, 0]);
    assert_eq!(highlight(6..9), Vec::<usize>::new());
    assert_eq!(highlight(4..4), Vec::<usize>::new());
}

#[test]
fn rendering_highlights_name_and_path() {
    let mut delegate = ProjectBookmarksDelegate::new();
    update(
        &mut delegate,
        "e c/f",
        Some(vec![listed("/w", Some("src\\lib\\caf\u{e9}.rs"), 10, "\u{ef}e")]),
    );
    let item = delegate.render_match(0, true).unwrap();
    assert_eq!(item.ix, 0);
    assert!(item.selected);
    assert_eq!(
        item.name,
        Some(HighlightedText { text: "\u{ef}e".to_string(), positions: vec![2] })
    );
    assert_eq!(
        item.path,
        HighlightedText { text: "src\\lib\\caf\u{e9}.rs:11".to_string(), positions: vec![2, 3, 10] }
    );
    for position in &item.path.positions {
        assert!(item.path.text.is_char_boundary(*position));
    }
}

#[test]
fn rendering_leaves_out_an_empty_name() {
    let mut delegate = ProjectBookmarksDelegate::new();
    update(&mut delegate, "", Some(vec![listed("/w/a.rs", None, 0, "")]));
    let item = delegate.render_match(0, false).unwrap();
    assert!(!item.selected);
    assert_eq!(item.name, None);
    assert_eq!(item.path, HighlightedText { text: "/w/a.rs:1".to_string(), positions: vec![] });
}

#[test]
fn cursor_stays_where_the_row_is_gone() {
    let mut delegate = ProjectBookmarksDelegate::new();
    update(&mut delegate, "", Some(vec![listed("/a.rs", None, 5, "")]));
    let opening = opened(&delegate, false).unwrap();
    assert_eq!(opening.cursor(None), None);
    assert_eq!(opening.cursor(Some(Point { row: 4, column: 80 })), None);
    assert_eq!(opening.cursor(Some(Point { row: 5, column: 0 })), Some(Point { row: 5, column: 0 }));
    assert_eq!(opening.cursor(Some(Point { row: 6, column: 3 })), Some(Point { row: 5, column: 0 }));
}

#[test]
fn placeholder_of_the_search_field() {
    let delegate: ProjectBookmarksDelegate<String> = ProjectBookmarksDelegate::new();
    assert_eq!(delegate.placeholder_text(), "Search project bookmarks...");
}

#[test]
fn an_update_forgets_what_the_list_held() {
    let bookmarks = || {
        Some(vec![
            listed("/b.rs", None, 3, "mark"),
            listed("/a.rs", None, 9, "mark"),
            listed("/a.rs", None, 1, ""),
            listed("/a.rs", None, 9, "other mark"),
        ])
    };
    for query in ["", "mark", "a.rs", "none"] {
        let mut fresh = ProjectBookmarksDelegate::new();
        update(&mut fresh, query, bookmarks());
        let mut used = ProjectBookmarksDelegate::new();
        update(&mut used, "old", Some(vec![listed("/old.rs", None, 7, "old"), listed("/x", None, 0, "")]));
        used.set_selected_index(6);
        update(&mut used, query, bookmarks());
        assert_eq!(fresh, used);
        assert_eq!(used.selected_index(), 0);
    }
}

#[test]
fn confirming_opens_and_then_dismisses_once() {
    let mut delegate = ProjectBookmarksDelegate::new();
    update(&mut delegate, "", Some(vec![listed("/a.rs", None, 5, "x"), listed("/b.rs", None, 6, "y")]));
    delegate.set_selected_index(1);
    for secondary in [false, true] {
        let bookmark =
            ProjectBookmark { abs_path: "/b.rs".to_string(), row: 6, name: "y".to_string() };
        let pane = if secondary { Pane::Adjacent } else { Pane::Active };
        assert_eq!(
            delegate.confirm(secondary),
            vec![
                ListEffect::Open {
                    opening: BookmarkOpening { bookmark: &bookmark, pane },
                    activate_pane: true,
                    focus_item: true,
                    keep_old_preview: true,
                    allow_new_preview: true,
                },
                ListEffect::Dismiss,
            ]
        );
    }
    delegate.set_selected_index(2);
    assert_eq!(delegate.confirm(false), vec![]);
}
