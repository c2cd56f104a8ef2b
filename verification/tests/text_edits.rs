use beetree::text::{append_to_text, delete_line_from_text, insert_text_at_line};

#[test]
fn append_to_empty_is_the_snippet() {
    assert_eq!(append_to_text("", "snippet"), "snippet");
}

#[test]
fn append_adds_line_break_when_missing() {
    assert_eq!(append_to_text("a", "snippet"), "a\nsnippet");
}

#[test]
fn append_adds_no_blank_line_after_trailing_break() {
    assert_eq!(append_to_text("a\n", "snippet"), "a\nsnippet");
}

#[test]
fn insert_at_zero_prepends() {
    assert_eq!(insert_text_at_line("b\nc", "snippet", 0), "snippet\nb\nc");
}

#[test]
fn insert_at_one_goes_before_second_line() {
    assert_eq!(insert_text_at_line("b\nc", "snippet", 1), "b\nsnippet\nc");
}

#[test]
fn insert_into_empty_is_the_snippet() {
    assert_eq!(insert_text_at_line("", "snippet", 0), "snippet");
    assert_eq!(insert_text_at_line("", "snippet", 7), "snippet");
}

#[test]
fn insert_at_line_count_appends() {
    assert_eq!(insert_text_at_line("b\nc", "snippet", 2), "b\nc\nsnippet");
}

#[test]
fn insert_past_the_end_only_rejoins() {
    assert_eq!(insert_text_at_line("b\nc", "snippet", 3), "b\nc");
}

#[test]
fn insert_at_zero_keeps_trailing_break() {
    assert_eq!(insert_text_at_line("b\nc\n", "s", 0), "s\nb\nc\n");
}

#[test]
fn insert_elsewhere_drops_trailing_break() {
    assert_eq!(insert_text_at_line("b\nc\n", "s", 1), "b\ns\nc");
}

#[test]
fn delete_middle_line() {
    assert_eq!(delete_line_from_text("a\nb\nc", 1), "a\nc");
}

#[test]
fn delete_past_the_end_only_rejoins() {
    assert_eq!(delete_line_from_text("a\nb\n", 5), "a\nb");
}

#[test]
fn delete_only_line_leaves_empty_text() {
    assert_eq!(delete_line_from_text("a", 0), "");
}
