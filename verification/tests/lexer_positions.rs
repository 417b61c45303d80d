use md_to_html::parser::lexer::{Lexer, Token, TokenType};

fn lex(source: &str) -> Vec<Token> {
    let mut lexer = Lexer::new(source);
    lexer.scan();
    lexer.tokens
}

fn token(token_type: TokenType, value: &str, location: (usize, usize)) -> Token {
    Token { token_type, value: value.to_string(), location }
}

// The line and column of the `offset`-th character of `source`.
fn position_of(source: &str, offset: usize) -> (usize, usize) {
    let mut line = 0;
    let mut column = 0;
    for c in source.chars().take(offset) {
        if c == '\n' {
            line += 1;
            column = 0;
        } else {
            column += 1;
        }
    }
    (line, column)
}

#[test]
fn empty_source_has_no_tokens() {
    assert_eq!(lex(""), vec![]);
}

#[test]
fn a_fresh_lexer_holds_the_source() {
    let lexer = Lexer::new("a\nb");
    assert_eq!(lexer.input, vec!['a', '\n', 'b']);
    assert_eq!(lexer.position, (0, 0));
    assert!(lexer.tokens.is_empty());
}

#[test]
fn each_symbol_is_a_token_of_one_character() {
    assert_eq!(
        lex("#*`\n"),
        vec![
            token(TokenType::HASH, "#", (0, 0)),
            token(TokenType::ASTERISK, "*", (0, 1)),
            token(TokenType::BACKTICK, "`", (0, 2)),
            token(TokenType::NEWLINE, "\n", (0, 3)),
        ]
    );
}

#[test]
fn an_underscore_ends_a_run_and_starts_the_next() {
    assert_eq!(
        lex("ab_cd"),
        vec![token(TokenType::TEXT, "ab", (0, 0)), token(TokenType::TEXT, "_cd", (0, 2))]
    );
}

#[test]
fn a_hash_inside_a_run_belongs_to_the_run() {
    assert_eq!(lex("a#b"), vec![token(TokenType::TEXT, "a#b", (0, 0))]);
    assert_eq!(lex("_#"), vec![token(TokenType::TEXT, "_#", (0, 0))]);
}

#[test]
fn a_newline_opens_the_next_line_at_column_zero() {
    assert_eq!(
        lex("ab\ncd\n\ne"),
        vec![
            token(TokenType::TEXT, "ab", (0, 0)),
            token(TokenType::NEWLINE, "\n", (0, 2)),
            token(TokenType::TEXT, "cd", (1, 0)),
            token(TokenType::NEWLINE, "\n", (1, 2)),
            token(TokenType::NEWLINE, "\n", (2, 0)),
            token(TokenType::TEXT, "e", (3, 0)),
        ]
    );
}

#[test]
fn columns_count_characters_not_bytes() {
    assert_eq!(
        lex("héé*ü"),
        vec![
            token(TokenType::TEXT, "héé", (0, 0)),
            token(TokenType::ASTERISK, "*", (0, 3)),
            token(TokenType::TEXT, "ü", (0, 4)),
        ]
    );
}

#[test]
fn a_long_line_keeps_its_columns() {
    let run = "x".repeat(300);
    let source = format!("{}*", run);
    assert_eq!(
        lex(&source),
        vec![token(TokenType::TEXT, &run, (0, 0)), token(TokenType::ASTERISK, "*", (0, 300))]
    );
}

#[test]
fn token_values_rebuild_the_source() {
    let sources = [
        "",
        "## Title\nText of a paragraph",
        "I am *italics* and **bold** and `code`",
        "a_b_c\n\n# h#h\n_\n",
        "\n\n\n",
        "###",
        "héllo\nwörld*",
    ];
    for source in sources {
        let joined: String = lex(source).iter().map(|t| t.value.as_str()).collect();
        assert_eq!(joined, source);
    }
}

#[test]
fn each_token_stands_at_the_position_of_its_first_character() {
    let sources = [
        "## Title\nText of a paragraph",
        "I am *italics* and **bold** and `code`",
        "a_b_c\n\n# h#h\n_\n",
        "héllo\nwörld*",
    ];
    for source in sources {
        let mut offset = 0;
        for t in lex(source) {
            assert!(t.value.chars().count() >= 1);
            assert_eq!(t.location, position_of(source, offset));
            let stretch: String =
                source.chars().skip(offset).take(t.value.chars().count()).collect();
            assert_eq!(stretch, t.value);
            offset += t.value.chars().count();
        }
        assert_eq!(offset, source.chars().count());
    }
}

#[test]
fn token_positions_rise_strictly() {
    let tokens = lex("# a\n*b*\n\n`c`_d");
    for pair in tokens.windows(2) {
        assert!(pair[0].location < pair[1].location);
    }
}

#[test]
fn a_second_scan_appends_from_the_cursor() {
    let mut lexer = Lexer::new("a\nb");
    lexer.scan();
    assert_eq!(lexer.position, (1, 1));
    lexer.scan();
    assert_eq!(
        lexer.tokens,
        vec![
            token(TokenType::TEXT, "a", (0, 0)),
            token(TokenType::NEWLINE, "\n", (0, 1)),
            token(TokenType::TEXT, "b", (1, 0)),
            token(TokenType::TEXT, "a", (1, 1)),
            token(TokenType::NEWLINE, "\n", (1, 2)),
            token(TokenType::TEXT, "b", (2, 0)),
        ]
    );
    assert_eq!(lexer.position, (2, 1));
}

#[test]
fn a_copied_token_equals_the_token() {
    let first = token(TokenType::TEXT, "abc", (3, 4));
    assert_eq!(first.clone(), first);
}
