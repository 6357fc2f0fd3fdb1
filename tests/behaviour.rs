use string_auto_indent::{auto_indent, LineEnding};

#[test]
fn example_block_is_flushed() {
    let input = "Example:\n        A\n            B\n                C\n    ";
    assert_eq!(auto_indent(input), "Example:\nA\n    B\n        C\n");
}

#[test]
fn empty_and_whitespace_inputs_give_empty_output() {
    assert_eq!(auto_indent(""), "");
    assert_eq!(auto_indent("   "), "");
    assert_eq!(auto_indent(" \n\t\r\n  "), "");
}

#[test]
fn crlf_input_keeps_crlf() {
    let input = "Title\r\n    a\r\n      b\r\n";
    assert_eq!(auto_indent(input), "Title\r\na\r\n  b\r\n");
}

#[test]
fn cr_input_keeps_cr() {
    let input = "Title\r    a\r      b\r";
    assert_eq!(auto_indent(input), "Title\ra\r  b\r");
}

#[test]
fn mixed_endings_follow_crlf() {
    let input = "x\n  y\r\n  z\r";
    assert_eq!(auto_indent(input), "x\r\ny\r\nz\r\n");
}

#[test]
fn tabs_count_as_one_character() {
    let input = "head\n\t\tone\n\ttwo";
    assert_eq!(auto_indent(input), "head\n\tone\ntwo");
}

#[test]
fn unicode_whitespace_is_indentation() {
    let input = "head\n\u{3000}\u{3000}one\n\u{3000}two";
    assert_eq!(auto_indent(input), "head\n\u{3000}one\ntwo");
}

#[test]
fn multibyte_text_is_cut_by_characters() {
    let input = "head\n    émile\n      ßx";
    assert_eq!(auto_indent(input), "head\némile\n  ßx");
}

#[test]
fn blank_middle_lines_become_empty() {
    let input = "top\n    a\n  \t \n    b";
    assert_eq!(auto_indent(input), "top\na\n\nb");
}

#[test]
fn flush_text_is_unchanged() {
    let input = "First\nsecond\n  third\n\nfourth\n";
    assert_eq!(auto_indent(input), input);
}

#[test]
fn single_convention_round_trips() {
    for (text, kind) in [
        ("a\nb\n\nc", LineEnding::LF),
        ("a\r\nb\r\n\r\nc", LineEnding::CRLF),
        ("a\rb\r\rc", LineEnding::CR),
    ] {
        assert_eq!(LineEnding::detect(text), kind);
        let normal = LineEnding::normalize(text);
        assert_eq!(normal, "a\nb\n\nc");
        assert_eq!(kind.restore(&normal), text);
    }
}

#[test]
fn indentation_drops_by_the_minimum() {
    let input = "x\n      p\n   q\n         r";
    assert_eq!(auto_indent(input), "x\n   p\nq\n      r");
}

#[test]
fn trailing_newline_is_kept() {
    assert_eq!(auto_indent("a\n  b\n"), "a\nb\n");
    assert_eq!(auto_indent("a\n  b"), "a\nb");
    assert_eq!(auto_indent("\n  a\n  b\n"), "a\nb\n");
}

#[test]
fn detect_prefers_crlf_over_cr() {
    assert_eq!(LineEnding::detect("a\rb\r\nc"), LineEnding::CRLF);
    assert_eq!(LineEnding::detect("a\rb\nc"), LineEnding::CR);
    assert_eq!(LineEnding::detect("a\nb"), LineEnding::LF);
    assert_eq!(LineEnding::detect(""), LineEnding::LF);
    assert_eq!(LineEnding::from("\r\n"), LineEnding::CRLF);
}

#[test]
fn as_str_gives_the_newline() {
    assert_eq!(LineEnding::LF.as_str(), "\n");
    assert_eq!(LineEnding::CRLF.as_str(), "\r\n");
    assert_eq!(LineEnding::CR.as_str(), "\r");
}

#[test]
fn normalize_rewrites_every_newline() {
    assert_eq!(LineEnding::normalize("a\r\nb\rc\nd\r\r\n"), "a\nb\nc\nd\n\n");
    assert_eq!(LineEnding::normalize(""), "");
}

#[test]
fn restore_and_denormalize_replace_lf() {
    assert_eq!(LineEnding::CRLF.restore("a\nb\n"), "a\r\nb\r\n");
    assert_eq!(LineEnding::CR.denormalize("a\nb"), "a\rb");
    assert_eq!(LineEnding::LF.restore("a\nb"), "a\nb");
}

#[test]
fn split_into_lines_marks_trailing_newline() {
    assert_eq!(LineEnding::split_into_lines("a\nb\n"), vec!["a", "b", ""]);
    assert_eq!(LineEnding::split_into_lines("a\n\nb"), vec!["a", "", "b"]);
    assert_eq!(LineEnding::split_into_lines(""), vec![""]);
}

#[test]
fn restore_from_lines_joins() {
    let lines = vec!["a".to_string(), "".to_string(), "b".to_string()];
    assert_eq!(LineEnding::CRLF.restore_from_lines(lines.clone()), "a\r\n\r\nb");
    assert_eq!(LineEnding::LF.apply_to_lines(lines), "a\n\nb");
    assert_eq!(LineEnding::CR.restore_from_lines(Vec::new()), "");
}
