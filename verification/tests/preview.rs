use k9_console::preview::{decimal_text, entry, marker, preview_rows};

fn names(count: usize) -> Vec<String> {
    (0..count).map(|i| format!("n{}", i)).collect()
}

fn rows(texts: &[&str]) -> Vec<String> {
    texts.iter().map(|t| t.to_string()).collect()
}

#[test]
fn numbers_are_written_in_decimal() {
    for n in [0usize, 1, 9, 10, 11, 19, 20, 99, 100, 101, 909, 1000, 4096, 65535, 1234567890, usize::MAX] {
        assert_eq!(decimal_text(n), n.to_string());
    }
}

#[test]
fn rows_and_markers_have_their_form() {
    assert_eq!(entry(0, "quit"), "0: quit");
    assert_eq!(entry(12, "k9_debug_console_command"), "12: k9_debug_console_command");
    assert_eq!(entry(3, ""), "3: ");
    assert_eq!(marker(1), "<1 more>");
    assert_eq!(marker(250), "<250 more>");
}

#[test]
fn a_list_that_fits_is_written_whole() {
    assert_eq!(preview_rows(&names(3), 1, 3), (rows(&["0: n0", "1: n1", "2: n2"]), Some(1)));
    assert_eq!(preview_rows(&names(1), 0, 9), (rows(&["0: n0"]), Some(0)));
}

#[test]
fn a_long_list_is_written_around_the_selection() {
    assert_eq!(
        preview_rows(&names(10), 5, 5),
        (rows(&["<4 more>", "4: n4", "5: n5", "6: n6", "<3 more>"]), Some(2))
    );
    assert_eq!(
        preview_rows(&names(10), 5, 4),
        (rows(&["<4 more>", "4: n4", "5: n5", "<4 more>"]), Some(2))
    );
    assert_eq!(
        preview_rows(&names(12), 11, 5),
        (rows(&["<8 more>", "8: n8", "9: n9", "10: n10", "11: n11"]), Some(4))
    );
    assert_eq!(
        preview_rows(&names(10), 0, 5),
        (rows(&["0: n0", "1: n1", "2: n2", "3: n3", "<6 more>"]), Some(0))
    );
    assert_eq!(
        preview_rows(&names(10), 2, 5),
        (rows(&["0: n0", "1: n1", "2: n2", "3: n3", "<6 more>"]), Some(2))
    );
}

#[test]
fn the_selection_may_fall_outside_a_narrow_window() {
    assert_eq!(preview_rows(&names(10), 3, 0), (rows(&["<4 more>", "<8 more>"]), None));
    assert_eq!(preview_rows(&names(10), 3, 2), (rows(&["<3 more>", "<7 more>"]), None));
    assert_eq!(preview_rows(&names(10), 4, 3), (rows(&["<4 more>", "4: n4", "<5 more>"]), Some(1)));
    assert_eq!(preview_rows(&names(10), 9, 1), (rows(&["<10 more>"]), None));
    assert_eq!(preview_rows(&names(10), 2, 4), (rows(&["0: n0", "1: n1", "2: n2", "<7 more>"]), Some(2)));
}
