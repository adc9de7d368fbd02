use kokona::linecache::{calculate_cursor_position, get_line_labels, LineIndexCache};
use kokona::strutil::{count_char_in, split_lines_exec};

#[test]
fn cursor_position_of_empty_buffer() {
    assert_eq!(calculate_cursor_position(""), (1, 1));
}

#[test]
fn cursor_position_counts_lines_and_columns() {
    assert_eq!(calculate_cursor_position("abc"), (1, 4));
    assert_eq!(calculate_cursor_position("a\nbc"), (2, 3));
    assert_eq!(calculate_cursor_position("a\n"), (2, 1));
    assert_eq!(calculate_cursor_position("\n\n"), (3, 1));
}

#[test]
fn empty_buffer_has_one_label() {
    assert_eq!(get_line_labels("", 10), "1");
}

#[test]
fn labels_number_each_line() {
    assert_eq!(get_line_labels("short", 10), "1");
    assert_eq!(get_line_labels("hello\nworld", 10), "1\n2");
    assert_eq!(get_line_labels("a\n\nb", 5), "1\n2\n3");
}

#[test]
fn labels_mark_wrapped_segments() {
    // 25 characters at width 10 occupy three rows: number plus two dashes.
    let line = "abcdefghijabcdefghijabcde";
    assert_eq!(get_line_labels(line, 10), "1\n-\n-");
    // Exactly one width occupies one row.
    assert_eq!(get_line_labels("abcdefghij", 10), "1");
    // One character over wraps once.
    assert_eq!(get_line_labels("abcdefghijk", 10), "1\n-");
}

#[test]
fn labels_mix_wrapped_and_plain_lines() {
    let text = "abcdefghijklm\nxy";
    assert_eq!(get_line_labels(text, 10), "1\n-\n2");
}

#[test]
fn zero_width_is_treated_as_one() {
    assert_eq!(get_line_labels("abc", 0), "1\n-\n-");
}

#[test]
fn cache_is_keyed_by_line_count_only() {
    let mut c = LineIndexCache::new();
    let first = c.get_labels("abcdefghijklm\nxy", 10);
    assert_eq!(first, "1\n-\n2");
    // Same line count: the stale string is returned even though content and
    // width changed.
    let stale = c.get_labels("a\nb", 100);
    assert_eq!(stale, first);
    // A line-count change recomputes.
    let fresh = c.get_labels("a\nb\nc", 100);
    assert_eq!(fresh, "1\n2\n3");
}

#[test]
fn split_lines_keeps_terminators() {
    let lines = split_lines_exec("a\nbc\n\nd");
    assert_eq!(lines, vec!["a\n", "bc\n", "\n", "d"]);
    let joined: String = lines.concat();
    assert_eq!(joined, "a\nbc\n\nd");
    assert!(split_lines_exec("").is_empty());
}

#[test]
fn count_char_counts_occurrences() {
    assert_eq!(count_char_in("a\nb\nc", '\n'), 2);
    assert_eq!(count_char_in("", '\n'), 0);
    assert_eq!(count_char_in("...", '.'), 3);
}
