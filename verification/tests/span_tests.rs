use popper_asm::parser::Error;
use popper_asm::span::Span;
use popper_asm::text::{parse_number, str_eq};

#[test]
fn span_new_keeps_both_ends() {
    let span = Span::new(4, 7);
    assert_eq!(span.start, 4);
    assert_eq!(span.end, 7);
    assert_eq!(span, Span { start: 4, end: 7 });
    assert_ne!(span, Span::new(4, 8));
}

#[test]
fn span_from_a_range() {
    assert_eq!(Span::from(2..5), Span::new(2, 5));
    let span: Span = (0..0).into();
    assert_eq!(span, Span::new(0, 0));
}

#[test]
fn extract_cuts_the_bytes_of_the_span() {
    let source = "h\u{e9}llo w\u{f6}rld";
    assert_eq!(Span::new(0, 0).extract_from_str(source), "");
    assert_eq!(Span::new(0, 3).extract_from_str(source), "h\u{e9}");
    assert_eq!(Span::new(1, 3).extract_from_str(source), "\u{e9}");
    assert_eq!(Span::new(7, 13).extract_from_str(source), "w\u{f6}rld");
    assert_eq!(Span::new(13, 13).extract_from_str(source), "");
    assert_eq!(Span::new(0, 13).extract_from_str(source), source);
}

#[test]
fn fits_in_tells_what_can_be_cut() {
    let source = "h\u{e9}llo";
    assert!(Span::new(0, 0).fits_in(source));
    assert!(Span::new(0, 6).fits_in(source));
    assert!(Span::new(1, 3).fits_in(source));
    assert!(Span::new(6, 6).fits_in(source));
    assert!(!Span::new(0, 7).fits_in(source));
    assert!(!Span::new(7, 7).fits_in(source));
    assert!(!Span::new(3, 1).fits_in(source));
    assert!(!Span::new(1, 2).fits_in(source));
    assert!(!Span::new(2, 3).fits_in(source));
    assert!(Span::new(0, 0).fits_in(""));
    assert!(!Span::new(0, 1).fits_in(""));
}

#[test]
fn marker_puts_carets_under_the_span() {
    assert_eq!(Span::new(4, 7).make_marker("mov 123 : #"), "    ^^^    ");
    assert_eq!(Span::new(0, 3).make_marker("mov"), "^^^");
    assert_eq!(Span::new(0, 0).make_marker("mov"), "   ");
    assert_eq!(Span::new(3, 3).make_marker("mov"), "   ");
    assert_eq!(Span::new(1, 2).make_marker(""), " ");
    assert_eq!(Span::new(2, 6).make_marker("mov"), "  ^");
    assert_eq!(Span::new(3, 1).make_marker("movs"), "      ");
    assert_eq!(Span::new(0, 0).make_marker(""), "");
    assert_eq!(Span::new(1, 3).make_marker("h\u{e9}!"), " ^^ ");
}

#[test]
fn find_line_counts_the_newlines_before_the_start() {
    let source = "a\nbc\n\nd";
    assert_eq!(Span::new(0, 1).find_line(source), 1);
    assert_eq!(Span::new(1, 2).find_line(source), 1);
    assert_eq!(Span::new(2, 3).find_line(source), 2);
    assert_eq!(Span::new(4, 5).find_line(source), 2);
    assert_eq!(Span::new(5, 6).find_line(source), 3);
    assert_eq!(Span::new(6, 7).find_line(source), 4);
    assert_eq!(Span::new(7, 7).find_line(source), 4);
    assert_eq!(Span::new(100, 101).find_line(source), 4);
    assert_eq!(Span::new(0, 0).find_line(""), 1);
    assert_eq!(Span::new(3, 3).find_line("\n\n\n"), 4);
}

#[test]
fn str_eq_compares_texts() {
    assert!(str_eq("", ""));
    assert!(str_eq("mov", "mov"));
    assert!(str_eq("h\u{e9}", "h\u{e9}"));
    assert!(!str_eq("mov", "mow"));
    assert!(!str_eq("mov", "mo"));
    assert!(!str_eq("mo", "mov"));
    assert!(!str_eq("", "a"));
    assert!(!str_eq("Mov", "mov"));
}

#[test]
fn parse_number_reads_decimal_digits() {
    assert_eq!(parse_number("0", 10), Some(0));
    assert_eq!(parse_number("7", 7), Some(7));
    assert_eq!(parse_number("8", 7), None);
    assert_eq!(parse_number("0010", 10), Some(10));
    assert_eq!(parse_number("123", u32::MAX), Some(123));
    assert_eq!(parse_number("4294967295", u32::MAX), Some(4294967295));
    assert_eq!(parse_number("4294967296", u32::MAX), None);
    assert_eq!(parse_number("42949672950", u32::MAX), None);
    assert_eq!(parse_number("99999999999999999999999999999999", u32::MAX), None);
    assert_eq!(parse_number("2147483647", 0x7fff_ffff), Some(2147483647));
    assert_eq!(parse_number("2147483648", 0x7fff_ffff), None);
    assert_eq!(parse_number("", u32::MAX), None);
    assert_eq!(parse_number("-1", u32::MAX), None);
    assert_eq!(parse_number("+1", u32::MAX), None);
    assert_eq!(parse_number("1.5", u32::MAX), None);
    assert_eq!(parse_number("12a", u32::MAX), None);
    assert_eq!(parse_number(" 1", u32::MAX), None);
    assert_eq!(parse_number("\u{663}", u32::MAX), None);
    assert_eq!(parse_number("1\u{e9}", u32::MAX), None);
}

#[test]
fn span_as_text() {
    assert_eq!(Span::new(0, 3).to_text(), "[0..3]");
    assert_eq!(Span::new(12, 19).to_text(), "[12..19]");
    assert_eq!(Span::new(1000, 20345).to_text(), "[1000..20345]");
    assert_eq!(
        Span::new(usize::MAX, 0).to_text(),
        format!("[{}..0]", usize::MAX)
    );
}

#[test]
fn line_span_is_the_line_of_the_start() {
    let source = "a\nbc\n\nd";
    assert_eq!(Span::new(0, 1).line_span(source), Span::new(0, 1));
    assert_eq!(Span::new(1, 2).line_span(source), Span::new(0, 1));
    assert_eq!(Span::new(2, 3).line_span(source), Span::new(2, 4));
    assert_eq!(Span::new(3, 6).line_span(source), Span::new(2, 4));
    assert_eq!(Span::new(4, 5).line_span(source), Span::new(2, 4));
    assert_eq!(Span::new(5, 5).line_span(source), Span::new(5, 5));
    assert_eq!(Span::new(6, 7).line_span(source), Span::new(6, 7));
    assert_eq!(Span::new(7, 7).line_span(source), Span::new(6, 7));
    assert_eq!(Span::new(70, 71).line_span(source), Span::new(6, 7));
    assert_eq!(Span::new(0, 0).line_span(""), Span::new(0, 0));
    assert_eq!(Span::new(2, 2).line_span("h\u{e9}\nx"), Span::new(0, 3));
}

#[test]
fn on_line_counts_from_the_start_of_the_line() {
    let line = Span::new(10, 20);
    assert_eq!(Span::new(12, 15).on_line(&line), Span::new(2, 5));
    assert_eq!(Span::new(10, 20).on_line(&line), Span::new(0, 10));
    assert_eq!(Span::new(12, 25).on_line(&line), Span::new(2, 10));
    assert_eq!(Span::new(20, 20).on_line(&line), Span::new(10, 10));
    assert_eq!(Span::new(5, 15).on_line(&line), Span::new(0, 5));
    assert_eq!(Span::new(2, 4).on_line(&line), Span::new(0, 0));
    assert_eq!(Span::new(30, 40).on_line(&line), Span::new(20, 10));
}

#[test]
fn report_shows_the_line_and_a_marker() {
    let source = "main:\n  mov r1 2\nend:";
    let error = Error::new("Expected Comma, found Int `2`".to_string(), Span::new(15, 16));
    assert_eq!(
        error.report(source),
        "Error:[[15..16] Expected Comma, found Int `2` `\"2\"`\nSource:   mov r1 2\n         ^\n"
    );
    let error = Error::new("Label not found: x".to_string(), Span::new(0, 4));
    assert_eq!(
        error.report(source),
        "Error:[[0..4] Label not found: x `\"main\"`\nSource: main:\n^^^^ \n"
    );
    let error = Error::new("Unterminated string".to_string(), Span::new(8, 21));
    assert_eq!(
        error.report(source),
        "Error:[[8..21] Unterminated string `\"mov r1 2\nend:\"`\nSource:   mov r1 2\n  ^^^^^^^^\n"
    );
    let error = Error::new("at the end".to_string(), Span::new(21, 21));
    assert_eq!(
        error.report(source),
        "Error:[[21..21] at the end `\"\"`\nSource: end:\n    \n"
    );
    let error = Error::new("nothing".to_string(), Span::new(0, 0));
    assert_eq!(error.report(""), "Error:[[0..0] nothing `\"\"`\nSource: \n\n");
}

#[test]
fn marker_counts_the_columns_on_the_line_of_the_span() {
    let source = "a: mul r1\nb: foo r2";
    let span = Span::new(13, 16);
    assert_eq!(span.extract_from_str(source), "foo");
    assert_eq!(span.make_marker(source).trim_end(), "   ^^^");
    assert_eq!(span.make_marker(source), "   ^^^   ");
    assert_eq!(Span::new(0, 1).make_marker(source), "^        ");
    assert_eq!(Span::new(3, 6).make_marker(source), "   ^^^   ");
    assert_eq!(Span::new(10, 19).make_marker(source), "^^^^^^^^^");
    assert_eq!(Span::new(19, 19).make_marker(source), "         ");
    assert_eq!(Span::new(9, 10).make_marker(source), "         ");
    let three = "one\n\nthree: x\nfour";
    assert_eq!(Span::new(4, 4).make_marker(three), "");
    assert_eq!(Span::new(12, 13).make_marker(three), "       ^");
    assert_eq!(Span::new(14, 18).make_marker(three), "^^^^");
}

#[test]
fn marker_ends_with_the_line_of_the_start() {
    let source = "ab \"cd\nef\" gh";
    assert_eq!(Span::new(3, 10).make_marker(source), "   ^^^");
    assert_eq!(Span::new(0, 13).make_marker(source), "^^^^^^");
    assert_eq!(Span::new(7, 13).make_marker(source), "^^^^^^");
}
