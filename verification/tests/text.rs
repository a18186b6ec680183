//! Measuring, wrapping, truncating and formatting text.

use ilar_tui::chars::{is_control, is_whitespace};
use ilar_tui::format::{
    abbreviated_path, bound, bounded_detail, context_meter, context_usage, format_bytes,
    format_elapsed, format_tokens, format_tokens_compact, kept_result_detail, safe_lines, safe_text,
    MAX_DETAIL_CHARS, MAX_RESULT_CHARS,
};
use ilar_tui::numbers::parse_number;
use ilar_tui::style::{Line, Span, Style};
use ilar_tui::text::{
    hard_wrap_styled_line, text_field_view, text_field_view_at, truncate_display,
    wrap_markdown_line, wrap_styled_line, Truncation,
};
use ilar_tui::theme;
use ilar_tui::words::{
    contains, pad, split_once, split_words, starts_with, strip_prefix, strip_suffix, trim,
    trim_end_char, trim_start_char,
};

fn raw(text: &str) -> Line {
    Line::of(vec![Span::raw(text)])
}

fn rendered_text(line: &Line) -> String {
    line.spans.iter().map(|span| span.content.as_str()).collect()
}

#[test]
fn styled_wrap_prefers_words_and_never_adds_blank_rows() {
    let code = Line::of(vec![
        Span::styled("│ ", Style::fg(theme::CODE)),
        Span::styled("    hello world", Style::fg(theme::PRIMARY)),
    ]);
    let original_code = rendered_text(&code);
    let wrapped = wrap_markdown_line(&code, 5);

    assert!(wrapped.iter().all(|line| !rendered_text(line).is_empty()));
    assert_eq!(wrapped.iter().map(rendered_text).collect::<String>(), original_code);
    assert!(wrapped.iter().flat_map(|line| &line.spans).all(|span| {
        span.style.fg == Some(theme::CODE) || span.style.fg == Some(theme::PRIMARY)
    }));

    let inline = Line::of(vec![Span::styled("│ alpha beta", Style::fg(theme::CODE))]);
    assert_eq!(
        wrap_markdown_line(&inline, 8).iter().map(rendered_text).collect::<Vec<_>>(),
        ["│ alpha", "beta"]
    );

    let wide = wrap_styled_line(&raw("界界"), 2);
    assert_eq!(wide.len(), 2);
    assert!(wide.iter().all(|line| line.width() == 2));
    assert_eq!(rendered_text(&wrap_styled_line(&raw("界"), 1)[0]), "…");

    let words = wrap_styled_line(&raw("alpha beta gamma"), 10)
        .iter()
        .map(rendered_text)
        .collect::<Vec<_>>();
    assert_eq!(words, ["alpha beta", "gamma"]);

    let long_word = wrap_styled_line(&raw("abcdefgh"), 5)
        .iter()
        .map(rendered_text)
        .collect::<Vec<_>>();
    assert_eq!(long_word, ["abcde", "fgh"]);
}

#[test]
fn wrapped_rows_fit_and_keep_the_ink() {
    let text = "the quick 界界 brown fox jumps over the lazy dog";
    for width in 2..20 {
        let rows = wrap_styled_line(&raw(text), width);
        assert!(rows.iter().all(|row| row.width() <= width), "{width}");
        let ink: String = rows
            .iter()
            .flat_map(|row| rendered_text(row).chars().collect::<Vec<_>>())
            .filter(|c| !c.is_whitespace())
            .collect();
        assert_eq!(ink, text.replace(' ', ""), "{width}");
    }
}

#[test]
fn hard_rows_keep_every_cell() {
    let rows = hard_wrap_styled_line(&raw("a  bc   d"), 3);
    assert_eq!(rows.iter().map(rendered_text).collect::<Vec<_>>(), ["a  ", "bc ", "  d"]);
    assert_eq!(hard_wrap_styled_line(&raw("abc"), 0).len(), 1);
}

#[test]
fn neighbours_of_one_style_become_one_span() {
    let line = Line::of(vec![
        Span::styled("ab", Style::fg(theme::CODE)),
        Span::styled("cd", Style::fg(theme::CODE)),
        Span::raw("ef"),
    ]);
    let rows = wrap_styled_line(&line, 5);
    assert_eq!(rows.len(), 2);
    assert_eq!(rows[0].spans.len(), 2);
    assert_eq!(rows[0].spans[0].content, "abcd");
    assert_eq!(rows[0].spans[1].content, "e");
    assert_eq!(rows[1].spans[0].content, "f");
    // A line that fits stays as it is.
    assert_eq!(wrap_styled_line(&line, 10)[0].spans.len(), 3);
}

#[test]
fn truncation_lands_on_the_budget() {
    assert_eq!(truncate_display("short", 9, Truncation::Right), "short");
    assert_eq!(truncate_display("a longer text", 6, Truncation::Right), "a lon…");
    assert_eq!(truncate_display("abc", 0, Truncation::Right), "");
    assert_eq!(truncate_display("abc", 1, Truncation::Right), "…");
    assert_eq!(truncate_display("界界界", 4, Truncation::Right), "界…");
    let middle = truncate_display("abcdefghij", 5, Truncation::Middle);
    assert_eq!(middle.chars().count(), 5);
    assert!(middle.starts_with('a') && middle.ends_with('j'), "{middle}");
}

#[test]
fn a_field_shows_the_part_around_its_cursor() {
    assert_eq!(text_field_view("abc", 10), ("abc".to_string(), 3));
    let (shown, column) = text_field_view("abcdefghij", 4);
    assert!(shown.chars().count() <= 4);
    assert!(column < 4);
    assert!("abcdefghij".ends_with(&shown), "{shown}");
    let (shown, column) = text_field_view_at("abcdefghij", 0, 4);
    assert!("abcdefghij".starts_with(&shown), "{shown}");
    assert_eq!(column, 0);
}

#[test]
fn white_space_and_controls_are_what_the_standard_library_says() {
    for c in '\0'..=char::MAX {
        assert_eq!(is_whitespace(c), c.is_whitespace(), "{c:?}");
        assert_eq!(is_control(c), c.is_control(), "{c:?}");
    }
}

#[test]
fn sizes_are_written_as_the_nearest_tenth() {
    assert_eq!(format_bytes(0), "0 B");
    assert_eq!(format_bytes(1023), "1023 B");
    assert_eq!(format_bytes(1024), "1.0 KiB");
    assert_eq!(format_bytes(1536), "1.5 KiB");
    let as_float = |bytes: u64| {
        let read = bytes as f64;
        if bytes < 1024 {
            format!("{bytes} B")
        } else if bytes < 1024 * 1024 {
            format!("{:.1} KiB", read / 1024.0)
        } else {
            format!("{:.1} MiB", read / (1024.0 * 1024.0))
        }
    };
    for bytes in (0..3_000_000u64).step_by(37) {
        assert_eq!(format_bytes(bytes), as_float(bytes), "{bytes}");
    }
    for shift in 20..64 {
        for near in [0u64, 1, 51, 52_428, 52_429, 1_000_003] {
            let bytes = (1u64 << shift).wrapping_add(near).wrapping_sub(near / 2);
            assert_eq!(format_bytes(bytes), as_float(bytes), "{bytes}");
        }
    }
    for bytes in [u64::MAX, u64::MAX - 1, (1 << 53) + 1, (1 << 54) + 3, (1 << 60) + 129] {
        assert_eq!(format_bytes(bytes), as_float(bytes), "{bytes}");
    }
}

#[test]
fn durations_and_token_counts_are_short() {
    assert_eq!(format_elapsed(0), "0s");
    assert_eq!(format_elapsed(59), "59s");
    assert_eq!(format_elapsed(61), "1m 1s");
    assert_eq!(format_tokens_compact(999), "999");
    assert_eq!(format_tokens_compact(1_999), "1k");
    assert_eq!(format_tokens_compact(2_500_000), "2m");
}

#[test]
fn the_context_in_use_is_a_share_of_its_limit() {
    assert_eq!(
        context_usage(50_000, Some(200_000), true),
        "ctx ~50.0k/200.0k · 25%"
    );
    assert_eq!(context_usage(7, None, false), "ctx 7/? · —%");
    assert_eq!(context_usage(7, Some(0), false), "ctx 7/? · —%");
    assert_eq!(
        context_meter(25, Some(100), false, 8).as_deref(),
        Some("ctx [██░░░░░░] 25%")
    );
    assert_eq!(
        context_meter(1, Some(100), true, 4).as_deref(),
        Some("ctx [█░░░] ~1%")
    );
    assert_eq!(context_meter(1, None, true, 4), None);
}

#[test]
fn a_path_below_home_is_abbreviated() {
    assert_eq!(abbreviated_path(Some(""), "/home/u"), "~");
    assert_eq!(abbreviated_path(Some("src/x"), "/home/u/src/x"), "~/src/x");
    assert_eq!(abbreviated_path(None, "/srv"), "/srv");
}

#[test]
fn safe_text_has_no_controls() {
    assert_eq!(safe_text("a\tb\u{1b}[31mc"), "a   b[31mc");
    assert_eq!(safe_text("plain"), "plain");
    assert_eq!(safe_lines("a\nb\tc\n"), ["a", "b   c"]);
}

#[test]
fn details_are_bounded() {
    let short = "x".repeat(MAX_DETAIL_CHARS);
    assert_eq!(bounded_detail(&short), short);
    let long = "x".repeat(MAX_DETAIL_CHARS + 1);
    let kept = bounded_detail(&long);
    assert!(kept.len() < long.len() + 100);
    assert_ne!(kept, long);
    let result = "y".repeat(MAX_RESULT_CHARS);
    assert_eq!(kept_result_detail(&result), result);
    assert_eq!(bound("abcdef", 10), "abcdef");
}

#[test]
fn words_are_found_and_cut() {
    assert_eq!(trim("  a b \n"), "a b");
    assert_eq!(trim_start_char("--x-", '-'), "x-");
    assert_eq!(trim_end_char("-x--", '-'), "-x");
    assert!(contains("abcabd", "abd"));
    assert!(!contains("abcab", "abd"));
    assert!(starts_with("abc", "ab"));
    assert_eq!(strip_prefix("abc", "ab").as_deref(), Some("c"));
    assert_eq!(strip_prefix("abc", "b"), None);
    assert_eq!(strip_suffix("abc", "bc").as_deref(), Some("a"));
    assert_eq!(
        split_once("a=b=c", "="),
        Some(("a".to_string(), "b=c".to_string()))
    );
    assert_eq!(split_once("abc", "="), None);
    assert_eq!(split_words(" a  bc\td "), ["a", "bc", "d"]);
    assert_eq!(pad("ab", 4), "ab  ");
    assert_eq!(pad("abcde", 4), "abcde");
}

#[test]
fn numbers_are_read_as_the_standard_library_reads_them() {
    for text in ["0", "7", "+7", "-7", "", "+", "00012", "65535", "65536", "1 ", " 1", "1_0", "٣"] {
        assert_eq!(
            parse_number(text, u64::from(u16::MAX)),
            text.parse::<u16>().ok().map(u64::from),
            "{text:?}"
        );
    }
    assert_eq!(parse_number("18446744073709551615", u64::MAX), Some(u64::MAX));
    assert_eq!(parse_number("18446744073709551616", u64::MAX), None);
}

#[test]
fn token_counts_read_as_their_doubles_do() {
    for (tokens, text) in [
        (0u64, "0"),
        (999, "999"),
        (1_000, "1.0k"),
        (1_050, "1.1k"),
        (1_150, "1.1k"),
        (1_250, "1.2k"),
        (1_350, "1.4k"),
        (999_949, "999.9k"),
        (999_950, "1000.0k"),
        (1_000_000, "1.0m"),
        (2_550_000, "2.5m"),
        (2_650_000, "2.6m"),
        (u64::MAX, "18446744073709.6m"),
    ] {
        assert_eq!(format_tokens(tokens), text);
    }
    for tokens in (0..4_000_000u64).step_by(50) {
        let expected = if tokens >= 1_000_000 {
            format!("{:.1}m", tokens as f64 / 1_000_000.0)
        } else if tokens >= 1_000 {
            format!("{:.1}k", tokens as f64 / 1_000.0)
        } else {
            tokens.to_string()
        };
        assert_eq!(format_tokens(tokens), expected);
    }
}
