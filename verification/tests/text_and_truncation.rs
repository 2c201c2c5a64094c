use slasher_horrorscripts::ansi::{
    char_widths, cut_by_widths, cut_to_columns, fit_to_columns, truncate_ansi,
};
use slasher_horrorscripts::text::{
    chars_of, decimal_string, first_chars_of, lines_of, padded, parse_usize, repeat_char,
};

#[test]
fn decimal_renders_plain_numbers() {
    assert_eq!(decimal_string(0), "0");
    assert_eq!(decimal_string(7), "7");
    assert_eq!(decimal_string(10), "10");
    assert_eq!(decimal_string(12345), "12345");
    assert_eq!(decimal_string(u64::MAX), u64::MAX.to_string());
}

#[test]
fn decimal_reads_back_through_parse() {
    for n in [0usize, 1, 9, 10, 99, 100, 65535, 1_000_000, usize::MAX] {
        assert_eq!(parse_usize(&decimal_string(n as u64)), Some(n));
    }
}

#[test]
fn parse_accepts_what_std_accepts() {
    assert_eq!(parse_usize("42"), Some(42));
    assert_eq!(parse_usize("+7"), Some(7));
    assert_eq!(parse_usize("007"), Some(7));
    assert_eq!(parse_usize("0"), Some(0));
    for s in ["", "+", "-1", "12a", " 3", "3 ", "1_0", "++1", "٣"] {
        assert_eq!(parse_usize(s), None, "input {s:?}");
        assert_eq!(parse_usize(s), s.parse::<usize>().ok(), "input {s:?}");
    }
    let too_big = format!("{}0", usize::MAX);
    assert_eq!(parse_usize(&too_big), None);
    assert_eq!(parse_usize(&usize::MAX.to_string()), Some(usize::MAX));
}

#[test]
fn padding_fills_to_width_and_keeps_long_text() {
    assert_eq!(padded("ab", 5), "ab   ");
    assert_eq!(padded("abcdef", 3), "abcdef");
    assert_eq!(padded("", 2), "  ");
    assert_eq!(padded("日本", 3), format!("{:<3}", "日本"));
}

#[test]
fn first_chars_cuts_like_a_precision() {
    assert_eq!(first_chars_of("12.5", 1), "1");
    assert_eq!(first_chars_of("", 1), "");
    assert_eq!(first_chars_of("é€", 1), format!("{:.1}", "é€"));
}

#[test]
fn repeat_and_chars() {
    assert_eq!(repeat_char('─', 3), "───");
    assert_eq!(repeat_char('x', 0), "");
    assert_eq!(chars_of("aé"), vec!['a', 'é']);
}

#[test]
fn lines_split_like_str_lines() {
    for s in ["a\nb\r\nc", "a\n", "", "\n\n", "x\r", "x\r\ny\r", "\r\n", "one"] {
        let expected: Vec<String> = s.lines().map(|l| l.to_string()).collect();
        assert_eq!(lines_of(s), expected, "input {s:?}");
    }
    assert_eq!(lines_of("a\nb\r\nc"), vec!["a", "b", "c"]);
}

#[test]
fn truncation_with_zero_budget_is_empty() {
    assert_eq!(truncate_ansi("hello", 0), "");
}

#[test]
fn truncation_keeps_fitting_lines() {
    assert_eq!(truncate_ansi("hello", 5), "hello");
    assert_eq!(truncate_ansi("\x1b[31mhello\x1b[0m", 5), "\x1b[31mhello\x1b[0m");
}

#[test]
fn truncation_cuts_and_marks() {
    assert_eq!(truncate_ansi("hello world", 5), "hell\x1b[0m…");
    assert_eq!(truncate_ansi("hello world", 1), "\x1b[0m…");
}

#[test]
fn truncation_keeps_escape_sequences_whole() {
    assert_eq!(
        truncate_ansi("\x1b[31mhello world\x1b[0m", 6),
        "\x1b[31mhello\x1b[0m…"
    );
    assert_eq!(
        truncate_ansi("ab\x1b[1;38;5;196mcdef", 4),
        "ab\x1b[1;38;5;196mc\x1b[0m…"
    );
}

#[test]
fn truncation_counts_wide_characters() {
    assert_eq!(truncate_ansi("日本語テキスト", 5), "日本\x1b[0m…");
    assert_eq!(truncate_ansi("日本語テキスト", 6), "日本\x1b[0m…");
}

#[test]
fn cut_stops_before_the_first_character_past_the_budget() {
    assert_eq!(cut_to_columns("abcdef", 3), "abc");
    assert_eq!(cut_to_columns("a\x1b[0mbc", 1), "a\x1b[0m");
    assert_eq!(cut_to_columns("\x1bXY", 1), "\x1bX");
}

#[test]
fn fitting_uses_the_given_width() {
    assert_eq!(fit_to_columns("abcdef", 4, 6), "abc\x1b[0m…");
    assert_eq!(fit_to_columns("abcdef", 4, 4), "abcdef");
    assert_eq!(fit_to_columns("abcdef", 0, 0), "");
}

#[test]
fn cut_with_given_widths() {
    assert_eq!(cut_by_widths("abc", &vec![Some(2), Some(2), Some(2)], 4), "ab");
    assert_eq!(cut_by_widths("a\u{7}b", &vec![Some(1), None, Some(1)], 2), "a\u{7}b");
    assert_eq!(cut_by_widths("\x1b[1mab", &vec![None, Some(9), Some(9), Some(9), Some(1), Some(1)], 1), "\x1b[1ma");
    assert_eq!(char_widths("a日\u{7}"), vec![Some(1), Some(2), None]);
}

#[test]
fn ellipsis_takes_one_column() {
    assert_eq!(char_widths("\u{2026}"), vec![Some(1)]);
    assert_eq!(ansi_width::ansi_width("\x1b[0m\u{2026}"), 1);
}

#[test]
fn coloured_line_cut_fits_its_budget() {
    let line = "\x1b[1;31mUser\x1b[0m: \x1b[35mvery-long-user-name\x1b[0m";
    for budget in 1..40 {
        let cut = truncate_ansi(line, budget);
        assert!(ansi_width::ansi_width(&cut) <= budget, "budget {budget}: {cut:?}");
    }
}

#[test]
fn coloured_line_cut_at_longest_prefix() {
    let line = "\x1b[31mabcdef\x1b[0m";
    assert_eq!(truncate_ansi(line, 4), "\x1b[31mabc\x1b[0m…");
    assert_eq!(ansi_width::ansi_width("\x1b[31mabc"), 3);
    assert_eq!(truncate_ansi("ab\x1b[32m日本", 4), "ab\x1b[32m\x1b[0m…");
}

#[test]
fn cutting_twice_changes_nothing() {
    let lines = [
        "hello world",
        "\x1b[31mhello world\x1b[0m",
        "日本語テキスト",
        "\x1b[1;33mCPU\x1b[0m: \x1b[36mAMD Ryzen 9 7950X 16-Core Processor\x1b[0m",
    ];
    for line in lines {
        for budget in 1..20 {
            let once = truncate_ansi(line, budget);
            assert_eq!(truncate_ansi(&once, budget), once, "{line:?} at {budget}");
        }
    }
}

#[test]
fn escape_sequences_measured_as_ansi_width_skips_them() {
    assert_eq!(ansi_width::ansi_width("\x1b]0;title\x07ab"), 2);
    assert_eq!(ansi_width::ansi_width("\x1b\\ab"), 2);
    assert_eq!(ansi_width::ansi_width("\x1bxab"), 3);
    assert_eq!(truncate_ansi("\x1b[31mab\x1b[0m", 2), "\x1b[31mab\x1b[0m");
}
