use local_quota_widget::text::{
    append_decimal, append_text, comes_before, contains_text, ends_with, i64_text, joined,
    lowered_text, parse_i64, parse_u64, same_text, segment_after_dot, split_lines, starts_with,
};

#[test]
fn decimal_forms_read_back() {
    for n in [0i64, 1, -1, 9, 10, -10, 1_785_715_200, i64::MAX, i64::MIN] {
        assert_eq!(i64_text(n), format!("{n}"));
        assert_eq!(parse_i64(&i64_text(n)), Some(n));
    }
    for n in [0u64, 7, 90, u64::MAX] {
        let mut text = String::new();
        append_decimal(&mut text, n);
        assert_eq!(text, format!("{n}"));
        assert_eq!(parse_u64(&text), Some(n));
    }
}

#[test]
fn integers_are_read_as_the_standard_library_reads_them() {
    for text in [
        "", "+", "-", "0", "-0", "+5", "-5", "007", " 1", "1 ", "1.0", "1e3", "12a", "--1", "+-1",
        "18446744073709551615", "18446744073709551616", "9223372036854775807",
        "9223372036854775808", "-9223372036854775808", "-9223372036854775809", "１",
    ] {
        assert_eq!(parse_u64(text), text.parse::<u64>().ok(), "{text}");
        assert_eq!(parse_i64(text), text.parse::<i64>().ok(), "{text}");
    }
}

#[test]
fn texts_are_searched_as_the_standard_library_searches_them() {
    let list = ["", "a", "b", "ab", "aab", "abab", "percent", "remaining_percent", "额度", "额度窗口"];
    for a in list {
        for b in list {
            assert_eq!(contains_text(a, b), a.contains(b), "{a} {b}");
            assert_eq!(starts_with(a, b), a.starts_with(b), "{a} {b}");
            assert_eq!(ends_with(a, b), a.ends_with(b), "{a} {b}");
            assert_eq!(same_text(a, b), a == b, "{a} {b}");
            assert_eq!(comes_before(a, b), a < b, "{a} {b}");
            assert_eq!(joined(a, b), format!("{a}{b}"));
        }
    }
}

#[test]
fn only_ascii_capitals_are_lowered() {
    for text in ["", "ABC xyz", "5H", "Ä额度É", "Primary_Window"] {
        assert_eq!(lowered_text(text), text.to_ascii_lowercase());
    }
}

#[test]
fn the_second_segment_stands_between_dots() {
    for text in ["", "a", "a.", ".", "a.b", "a.b.c", "..", "a..c", "head.body.tail.more"] {
        assert_eq!(
            segment_after_dot(text),
            text.split('.').nth(1).map(str::to_owned),
            "{text}"
        );
    }
}

#[test]
fn lines_end_as_the_standard_library_ends_them() {
    for text in [
        "", "a", "a\n", "\n", "\n\n", "a\nb", "a\r\nb\r\n", "a\r", "a\r\r\n", "a\n\r\nb", "\r\n", "\r",
    ] {
        let lines: Vec<String> = text.lines().map(str::to_owned).collect();
        assert_eq!(split_lines(text), lines, "{text:?}");
    }
}

#[test]
fn appending_keeps_what_is_there() {
    let mut text = "额度".to_owned();
    append_text(&mut text, "窗口");
    append_text(&mut text, "");
    assert_eq!(text, "额度窗口");
}
