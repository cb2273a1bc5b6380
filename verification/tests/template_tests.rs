use webpipe::template::dedent_multiline;

#[test]
fn test_dedent_multiline() {
    let s = "\n    hello\n      world\n";
    let out = dedent_multiline(s);
    assert_eq!(out, "hello\n  world");
}

#[test]
fn test_dedent_preserves_first_line_leading_spaces_for_detection() {
    let s = "\n  a\n    b\n";
    let out = dedent_multiline(s);
    assert_eq!(out, "a\n  b");
}

#[test]
fn dedent_keeps_text_without_common_indent() {
    assert_eq!(dedent_multiline("a\n  b"), "a\n  b");
    assert_eq!(dedent_multiline("\r\n\n"), "");
    assert_eq!(dedent_multiline("  x\r\n\n\t  y"), "x\n\n y");
}

#[test]
fn dedent_skips_blank_lines_for_the_common_indent() {
    assert_eq!(dedent_multiline("    a\n\n    b"), "a\n\nb");
    assert_eq!(dedent_multiline("\t\tx\n\ty"), "\tx\ny");
}
