use md_to_html::parser::lexer::{Lexer, Token, TokenType};
use md_to_html::parser::parser::{Expression, Exp, ParseError, Parser};

fn parser_for(source: &str) -> Parser {
    let mut lexer = Lexer::new(source);
    lexer.scan();
    Parser::new(lexer)
}

fn parse(source: &str) -> Result<Vec<Exp>, ParseError> {
    let mut parser = parser_for(source);
    parser.parse()?;
    Ok(parser.tree.children)
}

fn token(token_type: TokenType, value: &str, location: (usize, usize)) -> Token {
    Token { token_type, value: value.to_string(), location }
}

fn text_of(exp: &Exp) -> &str {
    match &exp.item {
        Expression::Text(text) => text.text.as_str(),
        other => panic!("not a text node: {}", kind_of(other)),
    }
}

fn heading_of(exp: &Exp) -> (u8, &str) {
    match &exp.item {
        Expression::Heading(heading) => (heading.level, heading.text.text.as_str()),
        other => panic!("not a heading node: {}", kind_of(other)),
    }
}

fn kind_of(expression: &Expression) -> &'static str {
    match expression {
        Expression::Text(_) => "text",
        Expression::Heading(_) => "heading",
        Expression::Noop(_) => "noop",
    }
}

#[test]
fn a_new_parser_stands_at_the_first_token() {
    let parser = parser_for("# a");
    assert_eq!(parser.cursor, 0);
    assert_eq!(parser.tokens, parser.lexer.tokens);
    assert_eq!(parser.tokens.len(), 2);
    assert!(parser.tree.children.is_empty());
}

#[test]
fn an_empty_stream_is_one_placeholder() {
    let document = parse("").unwrap();
    assert_eq!(document.len(), 1);
    assert!(matches!(document[0].item, Expression::Noop(_)));
}

#[test]
fn a_text_token_is_a_text_node() {
    let document = parse("just text").unwrap();
    assert_eq!(document.len(), 1);
    assert_eq!(text_of(&document[0]), "just text");
    match &document[0].item {
        Expression::Text(text) => {
            assert_eq!(text.token, token(TokenType::TEXT, "just text", (0, 0)))
        }
        _ => unreachable!(),
    }
}

#[test]
fn the_level_of_a_heading_is_its_number_of_hashes() {
    for n in [1usize, 2, 3, 6, 10, 100, 255] {
        let source = format!("{}caption", "#".repeat(n));
        let document = parse(&source).unwrap();
        assert_eq!(document.len(), 1);
        assert_eq!(heading_of(&document[0]), (n as u8, "caption"));
    }
}

#[test]
fn a_heading_keeps_the_caption_as_it_was_lexed() {
    let document = parse("## Title").unwrap();
    assert_eq!(heading_of(&document[0]), (2, " Title"));
}

#[test]
fn more_hashes_than_the_deepest_level_fail() {
    let source = format!("{}caption", "#".repeat(256));
    assert_eq!(
        parse(&source).err(),
        Some(ParseError::HeadingTooDeep { hash: token(TokenType::HASH, "#", (0, 255)) })
    );
}

#[test]
fn hashes_without_a_caption_fail() {
    assert_eq!(parse("##").err(), Some(ParseError::ExpectedText { found: None }));
    assert_eq!(
        parse("##\ntext").err(),
        Some(ParseError::ExpectedText { found: Some(token(TokenType::NEWLINE, "\n", (0, 2))) })
    );
    assert_eq!(
        parse("#*a*").err(),
        Some(ParseError::ExpectedText { found: Some(token(TokenType::ASTERISK, "*", (0, 1))) })
    );
}

#[test]
fn italics_have_no_production() {
    let mut lexer = Lexer::new("I am *italics*");
    lexer.scan();
    assert_eq!(
        lexer.tokens,
        vec![
            token(TokenType::TEXT, "I am ", (0, 0)),
            token(TokenType::ASTERISK, "*", (0, 5)),
            token(TokenType::TEXT, "italics", (0, 6)),
            token(TokenType::ASTERISK, "*", (0, 13)),
        ]
    );
    let mut parser = Parser::new(lexer);
    assert_eq!(
        parser.parse(),
        Err(ParseError::UnexpectedToken { token: token(TokenType::ASTERISK, "*", (0, 5)) })
    );
}

#[test]
fn a_backtick_has_no_production() {
    assert_eq!(
        parse("`code`").err(),
        Some(ParseError::UnexpectedToken { token: token(TokenType::BACKTICK, "`", (0, 0)) })
    );
}

#[test]
fn a_document_cannot_start_with_a_newline() {
    assert_eq!(
        parse("\nA").err(),
        Some(ParseError::UnexpectedToken { token: token(TokenType::NEWLINE, "\n", (0, 0)) })
    );
}

#[test]
fn blank_lines_are_one_separator() {
    let document = parse("A\n\nB").unwrap();
    assert_eq!(document.len(), 2);
    assert_eq!(text_of(&document[0]), "A");
    assert_eq!(text_of(&document[1]), "B");
    let spaced = parse("A\n\n\n\n\nB").unwrap();
    assert_eq!(spaced.len(), 2);
    assert_eq!(text_of(&spaced[1]), "B");
}

#[test]
fn trailing_newlines_add_nothing() {
    let document = parse("A\n\n").unwrap();
    assert_eq!(document.len(), 1);
    assert_eq!(text_of(&document[0]), "A");
}

#[test]
fn expressions_need_no_newline_between_them() {
    let document = parse("ab_cd# e").unwrap();
    assert_eq!(document.len(), 2);
    assert_eq!(text_of(&document[0]), "ab");
    assert_eq!(text_of(&document[1]), "_cd# e");
}

#[test]
fn a_heading_and_a_paragraph() {
    let document = parse("## Title\nText of a paragraph").unwrap();
    assert_eq!(document.len(), 2);
    assert_eq!(heading_of(&document[0]), (2, " Title"));
    assert_eq!(text_of(&document[1]), "Text of a paragraph");
}

#[test]
fn a_parse_consumes_every_token() {
    let mut parser = parser_for("# a\nb\n");
    assert_eq!(parser.parse(), Ok(()));
    assert_eq!(parser.cursor, parser.tokens.len());
    assert_eq!(parser.tree.children.len(), 2);
}

#[test]
fn a_second_parse_finds_no_token_left() {
    let mut parser = parser_for("# a\nb");
    assert_eq!(parser.parse(), Ok(()));
    assert_eq!(parser.parse(), Ok(()));
    assert_eq!(parser.tree.children.len(), 1);
    assert!(matches!(parser.tree.children[0].item, Expression::Noop(_)));
}

#[test]
fn a_failed_parse_leaves_the_parser_as_it_was() {
    let mut parser = parser_for("first\n## second\n###");
    assert_eq!(parser.parse(), Err(ParseError::ExpectedText { found: None }));
    assert_eq!(parser.cursor, 0);
    assert!(parser.tree.children.is_empty());
    assert_eq!(parser.tokens.len(), 9);
}

#[test]
fn each_failure_has_its_message() {
    assert_eq!(
        ParseError::ExpectedText { found: None }.message(),
        "Invalid expression for text! (end of input)"
    );
    assert_eq!(
        ParseError::ExpectedText { found: Some(token(TokenType::NEWLINE, "\n", (12, 0))) }
            .message(),
        "Invalid expression for text! (line 12, column 0)"
    );
    assert_eq!(
        ParseError::UnexpectedToken { token: token(TokenType::ASTERISK, "*", (0, 5)) }.message(),
        "Invalid Exp type! (line 0, column 5)"
    );
    assert_eq!(
        ParseError::HeadingTooDeep { hash: token(TokenType::HASH, "#", (3, 255)) }.message(),
        "Invalid heading level! (line 3, column 255)"
    );
}
