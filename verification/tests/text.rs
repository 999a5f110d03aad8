use k9_console::text::{chars_of, comes_before, same_text, starts_with, trim, white_space};

const TEXTS: &[&str] = &[
    "", "a", "b", "ab", "abc", "abd", "B", "a b", " a", "a ", "\u{00e9}", "e\u{0301}", "\u{4e2d}\u{6587}", "z",
    "\u{1f600}", "\u{ffff}", "\u{10000}", "~", "_", "0", "00",
];

#[test]
fn the_characters_of_a_string_are_its_code_points() {
    for &text in TEXTS {
        assert_eq!(chars_of(text), text.chars().collect::<Vec<char>>());
    }
}

#[test]
fn strings_are_ordered_as_the_standard_library_orders_them() {
    for &a in TEXTS {
        for &b in TEXTS {
            assert_eq!(comes_before(a, b), a < b, "{:?} before {:?}", a, b);
            assert_eq!(same_text(a, b), a == b, "{:?} same as {:?}", a, b);
            assert_eq!(starts_with(a, b), a.starts_with(b), "{:?} starts with {:?}", a, b);
        }
    }
}

#[test]
fn trimming_removes_white_space_at_both_ends() {
    assert_eq!(trim("  quit  "), "quit");
    assert_eq!(trim("\t a b \r\n"), "a b");
    assert_eq!(trim(""), "");
    assert_eq!(trim(" \t\n"), "");
    assert_eq!(trim("x"), "x");
    assert_eq!(trim("\u{3000}\u{00e9} \u{00e9}\u{2003}"), "\u{00e9} \u{00e9}");
}

#[test]
fn trimming_agrees_with_the_standard_library() {
    let spaces = [
        '\u{9}', '\u{a}', '\u{b}', '\u{c}', '\u{d}', ' ', '\u{85}', '\u{a0}', '\u{1680}', '\u{2000}', '\u{2005}',
        '\u{200a}', '\u{2028}', '\u{2029}', '\u{202f}', '\u{205f}', '\u{3000}',
    ];
    let solid = ['a', '\u{8}', '\u{e}', '\u{1f}', '\u{86}', '\u{180e}', '\u{200b}', '\u{2060}', '\u{feff}', '\u{3001}'];
    for c in spaces {
        assert!(white_space(c), "{:?}", c);
        let text = format!("{}a{}b{}", c, c, c);
        assert_eq!(trim(&text), text.trim());
    }
    for c in solid {
        assert!(!white_space(c), "{:?}", c);
        let text = format!(" {}a {} ", c, c);
        assert_eq!(trim(&text), text.trim());
    }
    for code in 0..0x3100u32 {
        if let Some(c) = char::from_u32(code) {
            assert_eq!(white_space(c), c.is_whitespace(), "{:?}", c);
        }
    }
}
