use reverie::{to_html, Error, Span};

fn html(source: &str) -> String {
    String::from_utf8(to_html(source).expect("expected successful compilation")).unwrap()
}

fn fault(source: &str) -> Error {
    to_html(source).expect_err("expected a compilation fault")
}

#[test]
fn simple() {
    assert_eq!(html("hello world"), "<p>hello world</p>");
}

#[test]
fn empty_input() {
    assert_eq!(html(""), "");
}

#[test]
fn whitespace_only() {
    assert_eq!(html(" \n\t "), "");
}

#[test]
fn two_paragraphs() {
    assert_eq!(html("a\nb"), "<p>a</p><p>b</p>");
}

#[test]
fn blank_lines_between_paragraphs() {
    assert_eq!(html("a\n\n\nb"), "<p>a</p><p>b</p>");
}

#[test]
fn prose_with_balanced_delimiters() {
    assert_eq!(html("f(x) and [y]"), "<p>f(x) and [y]</p>");
}

#[test]
fn prose_is_copied_verbatim() {
    assert_eq!(html("<b>hi</b> & co"), "<p><b>hi</b> & co</p>");
}

#[test]
fn italic() {
    assert_eq!(html("~i[x]"), "<em>x</em>");
}

#[test]
fn bold() {
    assert_eq!(html("~b[x]"), "<strong>x</strong>");
}

#[test]
fn section() {
    assert_eq!(html("~section[Title]"), "<h2>Title</h2>");
}

#[test]
fn subsection() {
    assert_eq!(html("~subsection[Title]"), "<h3>Title</h3>");
}

#[test]
fn superscript() {
    assert_eq!(html("~super[2]"), "<sup>2</sup>");
}

#[test]
fn command_inside_text() {
    assert_eq!(html("see ~i[this] now"), "<p>see <em>this</em> now</p>");
}

#[test]
fn nested_commands() {
    assert_eq!(html("~i[~b[x]]"), "<em><strong>x</strong></em>");
}

#[test]
fn command_then_paragraph() {
    assert_eq!(html("~i[x]\ntext"), "<em>x</em><p>text</p>");
}

#[test]
fn link_href_is_raw() {
    assert_eq!(
        html("~link([see], \" https://e.co \")"),
        "<a href=\" https://e.co \">see</a>"
    );
}

#[test]
fn link_trailing_comma_is_allowed() {
    assert_eq!(html("~link([x], \"u\",)"), "<a href=\"u\">x</a>");
}

#[test]
fn code_escaped_quotes_round_trip() {
    assert_eq!(html("~code(\"a \\\"b\\\" c\")"), "<code>a &quot;b&quot; c</code>");
}

#[test]
fn code_escapes_entities() {
    assert_eq!(html("~code(\"1<2 & 3>2\")"), "<code>1&lt;2 &amp; 3&gt;2</code>");
}

#[test]
fn codeblock_rust() {
    assert_eq!(
        html("~codeblock(\"f.rs\", \"fn main() {}\")"),
        "<pre><div class=\"language-tag\">Rust &bull; f.rs</div><code>fn main() {}</code></pre>"
    );
}

#[test]
fn codeblock_text_multiline() {
    assert_eq!(
        html("~codeblock(\"notes.txt\", \"a\nb\")"),
        "<pre><div class=\"language-tag\">Text &bull; notes.txt</div><code>a</code><code>b</code></pre>"
    );
}

#[test]
fn aside_with_paragraphs() {
    assert_eq!(html("~aside{a\nb\n}"), "<aside><p>a</p><p>b</p></aside>");
}

#[test]
fn blockquote_single_paragraph() {
    assert_eq!(html("~blockquote{quote}"), "<blockquote><p>quote</p></blockquote>");
}

#[test]
fn nested_block_commands() {
    assert_eq!(
        html("~aside{~blockquote{x}}"),
        "<aside><blockquote><p>x</p></blockquote></aside>"
    );
}

#[test]
fn wrong_arity_zero_args() {
    assert_eq!(
        fault("~i()"),
        Error::IncorrectArgCount { expected: 1, found: 0, span: Span::new(1, 2) }
    );
}

#[test]
fn wrong_arity_link_single_arg() {
    assert_eq!(
        fault("~link[x]"),
        Error::IncorrectArgCount { expected: 2, found: 1, span: Span::new(1, 5) }
    );
}

#[test]
fn wrong_kind_string_for_inline() {
    assert_eq!(fault("~i(\"text\")"), Error::ExpectedInlineArg { span: Span::new(3, 9) });
}

#[test]
fn wrong_kind_ident_for_inline() {
    assert_eq!(fault("~i(abc)"), Error::ExpectedInlineArg { span: Span::new(3, 6) });
}

#[test]
fn wrong_kind_inline_for_block() {
    assert_eq!(fault("~aside([x])"), Error::ExpectedBlockArg { span: Span::new(7, 10) });
}

#[test]
fn wrong_kind_inline_for_string() {
    assert_eq!(fault("~code([x])"), Error::ExpectedStringArg { span: Span::new(6, 9) });
}

#[test]
fn malformed_argument_head() {
    assert_eq!(fault("~i x"), Error::ExpectedArgs { found: b'x', span: Span::new(3, 4) });
}

#[test]
fn block_argument_for_inline_command() {
    assert_eq!(fault("~i{x}"), Error::ExpectedInlineArg { span: Span::new(2, 5) });
}

#[test]
fn braces_refused_in_inline_position() {
    assert_eq!(fault("~i[~b{x}]"), Error::ExpectedArgs { found: b'{', span: Span::new(5, 6) });
}

#[test]
fn missing_comma_between_args() {
    assert_eq!(
        fault("~link([x] \"u\")"),
        Error::ExpectedFound { expected: b',', found: b'"', span: Span::new(10, 11) }
    );
}

#[test]
fn unknown_command() {
    assert_eq!(fault("~zap[x]"), Error::UnknownCommand { span: Span::new(1, 4) });
}

#[test]
fn unknown_code_language() {
    assert_eq!(
        fault("~codeblock(\"f.xyz\", \"\")"),
        Error::UnknownCodeLanguage { span: Span::new(11, 18) }
    );
}

#[test]
fn code_file_without_extension() {
    assert_eq!(
        fault("~codeblock(\"noext\", \"\")"),
        Error::UnknownCodeLanguage { span: Span::new(11, 18) }
    );
}

#[test]
fn mismatched_closer_in_text() {
    assert_eq!(fault("(]"), Error::UnbalancedDelimiter { span: Span::new(1, 2) });
}

#[test]
fn stray_closer_at_top_level() {
    assert_eq!(fault(")"), Error::UnbalancedDelimiter { span: Span::new(0, 1) });
}

#[test]
fn fault_spans_point_into_source() {
    let e = fault("~zap[x]");
    let span = e.span();
    assert_eq!((span.start, span.end), (1, 4));
}

#[test]
fn compilation_is_deterministic() {
    let source = "see ~i[this] and ~codeblock(\"f.rs\", \"fn main() {}\")\nmore";
    assert_eq!(to_html(source), to_html(source));
    let bad = "~i()";
    assert_eq!(to_html(bad), to_html(bad));
}

#[test]
fn leading_whitespace_is_inter_paragraph() {
    assert_eq!(html(" a \n  b"), "<p>a </p><p>b</p>");
}

#[test]
fn empty_inline_argument() {
    assert_eq!(html("~i[]"), "<em></em>");
}

#[test]
fn empty_block_argument() {
    assert_eq!(html("~aside{}"), "<aside></aside>");
}

#[test]
fn balanced_delimiters_inside_inline_argument() {
    assert_eq!(html("~i[a(b)c]"), "<em>a(b)c</em>");
}

#[test]
fn empty_code_string() {
    assert_eq!(html("~code(\"\")"), "<code></code>");
}

#[test]
fn codeblock_empty_code_has_no_lines() {
    assert_eq!(
        html("~codeblock(\"f.rs\", \"\")"),
        "<pre><div class=\"language-tag\">Rust &bull; f.rs</div></pre>"
    );
}
