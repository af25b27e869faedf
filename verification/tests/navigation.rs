use bookmarks::editor::Editor;
use bookmarks::navigation::{
    bookmarks_in_range, Bias, BookmarkQuery, BookmarkSearch, Direction, JumpEffect, Place,
    RangeBookmarks,
};

fn editor() -> Editor {
    Editor { show_bookmarks: None, has_bookmark_store: true, has_project: true, has_workspace: true }
}

fn place(anchor: u64, offset: usize) -> Option<Place<u64>> {
    Some(Place { anchor, offset })
}

fn jump(direction: Direction, head: usize, offsets: &[usize]) -> Option<u64> {
    let editor = editor();
    let search = match direction {
        Direction::Next => editor.go_to_next_bookmark(head, 1000),
        Direction::Prev => editor.go_to_previous_bookmark(head, 1000),
    };
    let mut found: Vec<Option<Place<u64>>> = Vec::new();
    for (ix, offset) in offsets.iter().enumerate() {
        found.push(place(ix as u64, *offset));
    }
    search.unwrap().landing(vec![Some(found)])
}

#[test]
fn search_covers_the_whole_text() {
    assert_eq!(
        editor().go_to_next_bookmark(5, 40),
        Some(BookmarkSearch { direction: Direction::Next, head: 5, range: 0..40 })
    );
    assert_eq!(
        editor().go_to_previous_bookmark(5, 40),
        Some(BookmarkSearch { direction: Direction::Prev, head: 5, range: 0..40 })
    );
}

#[test]
fn search_needs_project_and_store() {
    let mut no_project = editor();
    no_project.has_project = false;
    assert_eq!(no_project.go_to_next_bookmark(0, 10), None);
    assert_eq!(no_project.go_to_previous_bookmark(0, 10), None);
    let mut no_store = editor();
    no_store.has_bookmark_store = false;
    assert_eq!(no_store.go_to_next_bookmark(0, 10), None);
    assert_eq!(no_store.go_to_previous_bookmark(0, 10), None);
}

#[test]
fn query_takes_in_both_ends() {
    assert_eq!(
        BookmarkQuery::new(3..9),
        BookmarkQuery { start: 3, start_bias: Bias::Left, end: 9, end_bias: Bias::Right }
    );
}

#[test]
fn bookmarks_of_known_buffers_that_are_shown() {
    let ranges: Vec<RangeBookmarks<u64>> = vec![
        Some(vec![place(1, 10), None, place(2, 4)]),
        None,
        Some(Vec::new()),
        Some(vec![None, place(3, 7)]),
    ];
    let places = bookmarks_in_range(ranges);
    let anchors: Vec<u64> = places.iter().map(|place| place.anchor).collect();
    assert_eq!(anchors, vec![1, 2, 3]);
}

#[test]
fn next_goes_to_the_nearest_after_the_head() {
    assert_eq!(jump(Direction::Next, 15, &[30, 10, 20]), Some(2));
    assert_eq!(jump(Direction::Next, 20, &[30, 10, 20]), Some(0));
    assert_eq!(jump(Direction::Next, 0, &[30, 10, 20]), Some(1));
}

#[test]
fn next_wraps_to_the_first() {
    assert_eq!(jump(Direction::Next, 30, &[30, 10, 20]), Some(1));
    assert_eq!(jump(Direction::Next, 99, &[30, 10, 20]), Some(1));
}

#[test]
fn previous_goes_to_the_nearest_before_the_head() {
    assert_eq!(jump(Direction::Prev, 25, &[30, 10, 20]), Some(2));
    assert_eq!(jump(Direction::Prev, 20, &[30, 10, 20]), Some(1));
    assert_eq!(jump(Direction::Prev, 99, &[30, 10, 20]), Some(0));
}

#[test]
fn previous_wraps_to_the_last() {
    assert_eq!(jump(Direction::Prev, 10, &[30, 10, 20]), Some(0));
    assert_eq!(jump(Direction::Prev, 0, &[30, 10, 20]), Some(0));
}

#[test]
fn of_equal_offsets_next_takes_the_earlier_and_previous_the_later() {
    assert_eq!(jump(Direction::Next, 5, &[30, 20, 20, 30]), Some(1));
    assert_eq!(jump(Direction::Next, 40, &[30, 20, 20, 30]), Some(1));
    assert_eq!(jump(Direction::Prev, 40, &[30, 20, 20, 30]), Some(3));
    assert_eq!(jump(Direction::Prev, 30, &[30, 20, 20, 30]), Some(2));
    assert_eq!(jump(Direction::Prev, 5, &[30, 20, 20, 30]), Some(3));
}

#[test]
fn without_bookmarks_nothing_is_landed_on() {
    assert_eq!(jump(Direction::Next, 5, &[]), None);
    assert_eq!(jump(Direction::Prev, 5, &[]), None);
}

#[test]
fn a_single_bookmark_is_landed_on_from_anywhere() {
    for head in [0, 7, 8, 9] {
        assert_eq!(jump(Direction::Next, head, &[8]), Some(0));
        assert_eq!(jump(Direction::Prev, head, &[8]), Some(0));
    }
}

#[test]
fn jumping_back_returns() {
    let offsets = [30, 10, 20, 25];
    for start in offsets {
        let next = offsets[jump(Direction::Next, start, &offsets).unwrap() as usize];
        assert_eq!(offsets[jump(Direction::Prev, next, &offsets).unwrap() as usize], start);
        let previous = offsets[jump(Direction::Prev, start, &offsets).unwrap() as usize];
        assert_eq!(offsets[jump(Direction::Next, previous, &offsets).unwrap() as usize], start);
    }
}

#[test]
fn jumping_on_comes_to_every_bookmark() {
    let offsets = [30, 10, 20, 25];
    for direction in [Direction::Next, Direction::Prev] {
        let mut head = 12;
        let mut seen: Vec<usize> = Vec::new();
        for _ in 0..offsets.len() {
            head = offsets[jump(direction, head, &offsets).unwrap() as usize];
            seen.push(head);
        }
        seen.sort();
        assert_eq!(seen, vec![10, 20, 25, 30]);
    }
}

#[test]
fn a_jump_unfolds_and_then_selects() {
    let search = editor().go_to_next_bookmark(15, 100).unwrap();
    assert_eq!(
        search.jump(vec![Some(vec![place(8, 10), place(9, 20)])]),
        vec![JumpEffect::Unfold { anchor: 9 }, JumpEffect::Select { anchor: 9 }]
    );
    assert_eq!(search.jump::<u64>(vec![None, Some(vec![None])]), vec![]);
}

#[test]
fn as_many_jumps_as_bookmarks_go_round_once() {
    let offsets = [30, 10, 20, 25];
    for direction in [Direction::Next, Direction::Prev] {
        let mut head = 20;
        let mut seen: Vec<usize> = Vec::new();
        for _ in 0..offsets.len() {
            head = offsets[jump(direction, head, &offsets).unwrap() as usize];
            seen.push(head);
        }
        let expected = match direction {
            Direction::Next => vec![25, 30, 10, 20],
            Direction::Prev => vec![10, 30, 25, 20],
        };
        assert_eq!(seen, expected);
    }
}
