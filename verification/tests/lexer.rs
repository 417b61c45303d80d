use md_to_html::parser::lexer::{Lexer, Token, TokenType};

#[test]
fn init() {
    let source = "## This is a heading\nI am a bunch of paragraph text. I can get pretty long.";
    let mut scanner = Lexer::new(source);
    scanner.scan();
    let tokens = vec![
        Token {
            token_type: TokenType::HASH,
            value: "#".to_string(),
            location: (0, 0),
        },
        Token {
            token_type: TokenType::HASH,
            value: "#".to_string(),
            location: (0, 1),
        },
        Token {
            token_type: TokenType::TEXT,
            value: " This is a heading".to_string(),
            location: (0, 2),
        },
        Token {
            token_type: TokenType::NEWLINE,
            value: "\n".to_string(),
            location: (0, 20),
        },
        Token {
            token_type: TokenType::TEXT,
            value: "I am a bunch of paragraph text. I can get pretty long.".to_string(),
            location: (1, 0),
        },
    ];
    assert_eq!(tokens.len(), scanner.tokens.len());
    for (index, token) in scanner.tokens.iter().enumerate() {
        assert_eq!(tokens.get(index).unwrap(), token);
    }
}

#[test]
fn italics() {
    let source = "I am *italics*";
    let mut scanner = Lexer::new(source);
    scanner.scan();
    let tokens = vec![
        Token {
            token_type: TokenType::TEXT,
            value: "I am ".to_string(),
            location: (0, 0),
        },
        Token {
            token_type: TokenType::ASTERISK,
            value: "*".to_string(),
            location: (0, 5),
        },
        Token {
            token_type: TokenType::TEXT,
            value: "italics".to_string(),
            location: (0, 6),
        },
        Token {
            token_type: TokenType::ASTERISK,
            value: "*".to_string(),
            location: (0, 13),
        },
    ];
    assert_eq!(tokens.len(), scanner.tokens.len());
    for (index, token) in scanner.tokens.iter().enumerate() {
        assert_eq!(tokens.get(index).unwrap(), token);
    }
}

#[test]
fn bold() {
    let source = "I am **bold**";
    let mut scanner = Lexer::new(source);
    scanner.scan();
    let tokens = vec![
        Token {
            token_type: TokenType::TEXT,
            value: "I am ".to_string(),
            location: (0, 0),
        },
        Token {
            token_type: TokenType::ASTERISK,
            value: "*".to_string(),
            location: (0, 5),
        },
        Token {
            token_type: TokenType::ASTERISK,
            value: "*".to_string(),
            location: (0, 6),
        },
        Token {
            token_type: TokenType::TEXT,
            value: "bold".to_string(),
            location: (0, 7),
        },
        Token {
            token_type: TokenType::ASTERISK,
            value: "*".to_string(),
            location: (0, 11),
        },
        Token {
            token_type: TokenType::ASTERISK,
            value: "*".to_string(),
            location: (0, 12),
        },
    ];
    assert_eq!(tokens.len(), scanner.tokens.len());
    for (index, token) in scanner.tokens.iter().enumerate() {
        assert_eq!(tokens.get(index).unwrap(), token);
    }
}

#[test]
fn code() {
    let source = "I am `code`";
    let mut scanner = Lexer::new(source);
    scanner.scan();
    let tokens = vec![
        Token {
            token_type: TokenType::TEXT,
            value: "I am ".to_string(),
            location: (0, 0),
        },
        Token {
            token_type: TokenType::BACKTICK,
            value: "`".to_string(),
            location: (0, 5),
        },
        Token {
            token_type: TokenType::TEXT,
            value: "code".to_string(),
            location: (0, 6),
        },
        Token {
            token_type: TokenType::BACKTICK,
            value: "`".to_string(),
            location: (0, 10),
        },
    ];
    assert_eq!(tokens.len(), scanner.tokens.len());
    for (index, token) in scanner.tokens.iter().enumerate() {
        assert_eq!(tokens.get(index).unwrap(), token);
    }
}
