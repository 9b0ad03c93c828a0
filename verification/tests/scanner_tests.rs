use maple::parser::{scan, Parser, ScanError, Text};

#[test]
fn split_content() {
    let src = String::from(
        "={
\tset_font(test_font);
\tvar = \"test\";
}

=title({ title = \"Test document\", author = \"Author\" })

=section(Hello team)

This is a paragraph?

Bold text: =bold(this is theoretically bold).

=noindent() no indentation

={ use nd = noindent; }

=nd() no indent again

",
    );
    let mut parsed = Parser::new(src);
    parsed.split_content().unwrap();
    let parsed = parsed.split;

    let expected = vec![
        Text::Text(String::from("")),
        Text::StatementBlock(String::from("={\n\tset_font(test_font);\n\tvar = \"test\";\n}")),
        Text::Text(String::from("\n\n")),
        Text::Inline(String::from(
            "title({ title = \"Test document\", author = \"Author\" })",
        )),
        Text::Text(String::from("\n\n")),
        Text::Inline(String::from("section(Hello team)")),
        Text::Text(String::from("\n\nThis is a paragraph?\n\nBold text: ")),
        Text::Inline(String::from("bold(this is theoretically bold)")),
        Text::Text(String::from(".\n\n")),
        Text::Inline(String::from("noindent()")),
        Text::Text(String::from(" no indentation\n\n")),
        Text::StatementBlock(String::from("={ use nd = noindent; }")),
        Text::Text(String::from("\n\n")),
        Text::Inline(String::from("nd()")),
        Text::Text(String::from(" no indent again\n\n")),
    ];

    assert_eq!(parsed, expected);
}

#[test]
fn escape_collapses_to_one_span() {
    let spans = scan("==").unwrap();
    assert_eq!(spans, vec![Text::Text(String::from("="))]);
}

#[test]
fn escape_inside_text() {
    let spans = scan("a==b").unwrap();
    assert_eq!(spans, vec![Text::Text(String::from("a=b"))]);
}

#[test]
fn balanced_block_scans() {
    let spans = scan("={ a = (1+2); }").unwrap();
    assert_eq!(
        spans,
        vec![
            Text::Text(String::from("")),
            Text::StatementBlock(String::from("={ a = (1+2); }")),
            Text::Text(String::from("")),
        ]
    );
}

#[test]
fn unterminated_block_fails() {
    assert_eq!(scan("={ a = 1;"), Err(ScanError::UnterminatedBlock));
}

#[test]
fn unterminated_inline_fails() {
    assert_eq!(scan("=foo(1, 2"), Err(ScanError::UnterminatedInline));
}

#[test]
fn empty_document_is_one_empty_text_span() {
    assert_eq!(scan("").unwrap(), vec![Text::Text(String::from(""))]);
}

#[test]
fn nested_parens_in_inline() {
    let spans = scan("=f(g(1), 2)!").unwrap();
    assert_eq!(
        spans,
        vec![
            Text::Text(String::from("")),
            Text::Inline(String::from("f(g(1), 2)")),
            Text::Text(String::from("!")),
        ]
    );
}

#[test]
fn bare_reference_span() {
    let spans = scan("x is =x.").unwrap();
    assert_eq!(
        spans,
        vec![
            Text::Text(String::from("x is ")),
            Text::Inline(String::from("x")),
            Text::Text(String::from(".")),
        ]
    );
}
