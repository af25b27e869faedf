use bookmarks::text::{byte_length, chars_of, push_decimal, sorts_before, trim, with_forward_slashes};

#[test]
fn byte_length_counts_bytes() {
    assert_eq!(byte_length(""), 0);
    assert_eq!(byte_length("beta mark"), 9);
    assert_eq!(byte_length("\u{e9}\u{20ac}\u{1f516}"), 9);
}

#[test]
fn chars_of_lists_characters() {
    assert_eq!(chars_of(""), Vec::<char>::new());
    assert_eq!(chars_of("a\u{20ac}b"), vec!['a', '\u{20ac}', 'b']);
}

#[test]
fn trim_takes_white_space_off_both_ends() {
    assert_eq!(trim(""), "");
    assert_eq!(trim(" \t\r\n "), "");
    assert_eq!(trim("name"), "name");
    assert_eq!(trim("  two  words\n"), "two  words");
    assert_eq!(trim("\u{a0}\u{3000}\u{2003}x\u{85}\u{2028}\u{1680}"), "x");
    assert_eq!(trim("\u{200b}x\u{200b}"), "\u{200b}x\u{200b}");
}

#[test]
fn trim_agrees_with_the_standard_library() {
    let mut code: u32 = 0;
    while code <= 0x10ffff {
        if let Some(c) = char::from_u32(code) {
            let text = format!("{}x{}", c, c);
            assert_eq!(trim(&text), text.trim());
        }
        code += 1;
    }
}

#[test]
fn trimming_twice_is_trimming_once() {
    let once = trim("  a b ");
    assert_eq!(once, "a b");
    assert_eq!(trim(&once), once);
}

#[test]
fn backslashes_become_slashes() {
    assert_eq!(with_forward_slashes(""), "");
    assert_eq!(with_forward_slashes("src/lib.rs"), "src/lib.rs");
    assert_eq!(with_forward_slashes("\\\\host\\a/b\\\u{e9}.rs"), "//host/a/b/\u{e9}.rs");
}

#[test]
fn text_is_ordered_by_code_point() {
    assert!(sorts_before("", "a"));
    assert!(!sorts_before("a", ""));
    assert!(!sorts_before("a", "a"));
    assert!(sorts_before("a", "ab"));
    assert!(sorts_before("B.rs", "a.rs"));
    assert!(sorts_before("beta.rs", "src/alpha.rs"));
    let texts = vec!["", "Z", "a", "ab", "b", "\u{7f}", "\u{80}", "\u{d7ff}", "\u{e000}", "\u{ffff}", "\u{10000}"];
    for left in &texts {
        for right in &texts {
            assert_eq!(sorts_before(left, right), left < right);
        }
    }
}

#[test]
fn decimal_numbers() {
    for (n, expected) in [(0, "0"), (7, "7"), (10, "10"), (305, "305"), (4294967295, "4294967295")] {
        let mut text = String::from("line ");
        push_decimal(&mut text, n);
        assert_eq!(text, format!("line {}", expected));
    }
}
