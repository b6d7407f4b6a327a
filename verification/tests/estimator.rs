use readingtime::dom::{estimate_reading_time, extract_visible_text};
use readingtime::text::{count_words, reading_minutes};

#[test]
fn three_words_at_two_wpm() {
    let html = "<html><body><p>one two three</p></body></html>";
    assert_eq!(extract_visible_text(html), "one two three");
    assert_eq!(estimate_reading_time(html, 2), 2);
}

#[test]
fn head_and_title_are_ignored() {
    let html = "<head><title>Ignore Me</title></head><body>visible text here</body>";
    assert_eq!(extract_visible_text(html), "visible text here");
    assert_eq!(estimate_reading_time(html, 225), 1);
}

#[test]
fn script_only_document_is_empty() {
    let html = "<script>var alpha = 1; var beta = 2;</script>";
    assert_eq!(extract_visible_text(html), "");
    assert_eq!(count_words(&extract_visible_text(html)), 0);
    assert_eq!(estimate_reading_time(html, 225), 0);
    assert_eq!(estimate_reading_time(html, 1), 0);
}

#[test]
fn style_blocks_are_ignored() {
    let html = "<style>.a { color: red }</style><p>seen</p>";
    assert_eq!(extract_visible_text(html), "seen");
}

#[test]
fn uppercase_tags_are_recognized() {
    let html = "<SCRIPT>hidden words here</SCRIPT><P>shown</P>";
    assert_eq!(extract_visible_text(html), "shown");
}

#[test]
fn ceiling_boundary_exact_rate() {
    // exactly wpm words: one minute; one more: two minutes
    let five = "<body>w1 w2 w3 w4 w5</body>";
    let six = "<body>w1 w2 w3 w4 w5 w6</body>";
    assert_eq!(estimate_reading_time(five, 5), 1);
    assert_eq!(estimate_reading_time(six, 5), 2);
}

#[test]
fn more_words_never_fewer_minutes() {
    let small = "<body>one two three</body>";
    let large = "<body>one two three four five six seven eight nine ten</body>";
    for wpm in [1usize, 2, 3, 5, 225] {
        assert!(estimate_reading_time(small, wpm) <= estimate_reading_time(large, wpm));
    }
}

#[test]
fn nodes_are_joined_by_single_spaces() {
    let html = "<p>alpha</p><p>beta</p><p>gamma</p>";
    assert_eq!(extract_visible_text(html), "alpha beta gamma");
}

#[test]
fn single_space_node_is_dropped_wider_blanks_stay() {
    assert_eq!(extract_visible_text("<b> </b><p>ab</p>"), "ab");
    assert_eq!(extract_visible_text("<b>  </b>"), "  ");
    assert_eq!(extract_visible_text("<b></b>"), "");
}

#[test]
fn comments_and_doctype_change_nothing() {
    let html = "<!DOCTYPE html><!-- note --><body>kept</body>";
    assert_eq!(extract_visible_text(html), "kept");
}

#[test]
fn comment_runs_to_its_own_closer() {
    assert_eq!(extract_visible_text("<!-- a > b --><p>ok</p>"), "ok");
    assert_eq!(extract_visible_text("x<!-- open comment <p>gone</p>"), "x");
}

#[test]
fn unicode_whitespace_separates_words() {
    // U+00A0 is what HTML's non-breaking space entity decodes to
    assert_eq!(count_words("a\u{a0}b"), 2);
    assert_eq!(count_words("a\u{2028}b\u{3000}c"), 3);
    assert_eq!(estimate_reading_time("<p>a\u{a0}b</p>", 1), 2);
}

#[test]
fn self_closing_tag_is_not_opened() {
    let html = "<p>before<br/>after</p>";
    assert_eq!(extract_visible_text(html), "before after");
}

#[test]
fn lone_angle_bracket_is_text() {
    let html = "<p>a < b</p>";
    assert_eq!(extract_visible_text(html), "a < b");
}

#[test]
fn count_words_splits_on_whitespace_runs() {
    assert_eq!(count_words(""), 0);
    assert_eq!(count_words("   "), 0);
    assert_eq!(count_words("one"), 1);
    assert_eq!(count_words("one two three"), 3);
    assert_eq!(count_words("  a\tb\nc  "), 3);
}

#[test]
fn reading_minutes_rounds_up() {
    assert_eq!(reading_minutes(0, 5), 0);
    assert_eq!(reading_minutes(1, 225), 1);
    assert_eq!(reading_minutes(5, 5), 1);
    assert_eq!(reading_minutes(6, 5), 2);
    assert_eq!(reading_minutes(450, 225), 2);
}
