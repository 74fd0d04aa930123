use rsc_lang::lexer::{Keyword, LexError, Lexer, Symbol, TokenType};

fn lexer_for(source: &str) -> Lexer {
    Lexer::new(source.chars().collect())
}

#[test]
fn tokens() {
    let source = "print(a, b(c), d)";
    let mut lexer = Lexer::new(source.chars().collect());

    let expected = vec![
        TokenType::Identifier("print".to_string()),
        TokenType::Symbol(Symbol::LParen),
        TokenType::Identifier("a".to_string()),
        TokenType::Symbol(Symbol::Comma),
        TokenType::Identifier("b".to_string()),
        TokenType::Symbol(Symbol::LParen),
        TokenType::Identifier("c".to_string()),
        TokenType::Symbol(Symbol::RParen),
        TokenType::Symbol(Symbol::Comma),
        TokenType::Identifier("d".to_string()),
        TokenType::Symbol(Symbol::RParen),
        TokenType::EOF,
    ];

    for (i, expected_token) in expected.iter().enumerate() {
        let token = lexer.consume().expect("unexpected lexical error");
        assert_eq!(
            &token.token_type, expected_token,
            "Token mismatch at index {}: got {:?}, expected {:?}",
            i, token.token_type, expected_token
        );
    }
}

#[test]
fn maximal_munch() {
    for (source, symbol) in [
        (">=", Symbol::GreaterEquals),
        ("==", Symbol::DoubleEquals),
        ("!=", Symbol::NotEquals),
        ("<=", Symbol::LessEquals),
    ] {
        let mut lexer = lexer_for(source);
        let first = lexer.consume().unwrap();
        assert_eq!(first.token_type, TokenType::Symbol(symbol), "on {:?}", source);
        let second = lexer.consume().unwrap();
        assert_eq!(second.token_type, TokenType::EOF, "on {:?}", source);
    }
}

#[test]
fn trailing_dot() {
    let mut lexer = lexer_for("2.");
    assert_eq!(lexer.consume().unwrap().token_type, TokenType::Integer(2));
    assert_eq!(
        lexer.consume().unwrap().token_type,
        TokenType::Symbol(Symbol::Dot)
    );
    assert_eq!(lexer.consume().unwrap().token_type, TokenType::EOF);
}

#[test]
fn malformed_literal() {
    let mut lexer = lexer_for("1.2.3");
    match lexer.consume() {
        Err(LexError::MalformedNumber { position }) => {
            assert_eq!(position.index, 0);
            assert_eq!(position.line, 1);
            assert_eq!(position.column, 1);
        }
        other => panic!("expected a malformed-literal error, got {:?}", other),
    }
}

#[test]
fn malformed_literal_position_mid_input() {
    let mut lexer = lexer_for("x 1.2.3");
    assert_eq!(
        lexer.consume().unwrap().token_type,
        TokenType::Identifier("x".to_string())
    );
    match lexer.consume() {
        Err(LexError::MalformedNumber { position }) => {
            assert_eq!(position.index, 2);
            assert_eq!(position.column, 3);
        }
        other => panic!("expected a malformed-literal error, got {:?}", other),
    }
}

#[test]
fn eof_idempotent() {
    let mut lexer = lexer_for("a");
    assert_eq!(
        lexer.consume().unwrap().token_type,
        TokenType::Identifier("a".to_string())
    );
    let first_eof = lexer.consume().unwrap();
    assert_eq!(first_eof.token_type, TokenType::EOF);
    for _ in 0..3 {
        let again = lexer.consume().unwrap();
        assert_eq!(again.token_type, TokenType::EOF);
        assert_eq!(again.position, first_eof.position);
    }
}

#[test]
fn unexpected_character() {
    let mut lexer = lexer_for("!");
    match lexer.consume() {
        Err(LexError::UnexpectedChar {
            character,
            position,
        }) => {
            assert_eq!(character, '!');
            assert_eq!(position.index, 0);
        }
        other => panic!("expected an unexpected-character error, got {:?}", other),
    }

    let mut lexer = lexer_for("#");
    assert!(matches!(
        lexer.consume(),
        Err(LexError::UnexpectedChar { character: '#', .. })
    ));
}

#[test]
fn bang_equals_still_lexes() {
    let mut lexer = lexer_for("a != b");
    assert_eq!(
        lexer.consume().unwrap().token_type,
        TokenType::Identifier("a".to_string())
    );
    assert_eq!(
        lexer.consume().unwrap().token_type,
        TokenType::Symbol(Symbol::NotEquals)
    );
    assert_eq!(
        lexer.consume().unwrap().token_type,
        TokenType::Identifier("b".to_string())
    );
}

#[test]
fn integer_bounds() {
    let mut lexer = lexer_for("9223372036854775807");
    assert_eq!(
        lexer.consume().unwrap().token_type,
        TokenType::Integer(i64::MAX)
    );

    let mut lexer = lexer_for("9223372036854775808");
    assert!(matches!(
        lexer.consume(),
        Err(LexError::MalformedNumber { .. })
    ));
}

#[test]
fn float_literals() {
    let mut lexer = lexer_for("1.5");
    assert_eq!(
        lexer.consume().unwrap().token_type,
        TokenType::Float("1.5".to_string())
    );

    // a trailing dot is excluded from the literal, so "1.2." is a float
    // followed by a dot symbol
    let mut lexer = lexer_for("1.2.");
    assert_eq!(
        lexer.consume().unwrap().token_type,
        TokenType::Float("1.2".to_string())
    );
    assert_eq!(
        lexer.consume().unwrap().token_type,
        TokenType::Symbol(Symbol::Dot)
    );
}

#[test]
fn keywords_and_identifiers() {
    let mut lexer = lexer_for("if else iff _x x_1");
    assert_eq!(
        lexer.consume().unwrap().token_type,
        TokenType::Keyword(Keyword::If)
    );
    assert_eq!(
        lexer.consume().unwrap().token_type,
        TokenType::Keyword(Keyword::Else)
    );
    assert_eq!(
        lexer.consume().unwrap().token_type,
        TokenType::Identifier("iff".to_string())
    );
    assert_eq!(
        lexer.consume().unwrap().token_type,
        TokenType::Identifier("_x".to_string())
    );
    assert_eq!(
        lexer.consume().unwrap().token_type,
        TokenType::Identifier("x_1".to_string())
    );
}

#[test]
fn positions_track_lines_and_columns() {
    let mut lexer = lexer_for("a\n bc");
    let a = lexer.consume().unwrap();
    assert_eq!((a.position.index, a.position.line, a.position.column), (0, 1, 1));
    let bc = lexer.consume().unwrap();
    assert_eq!(
        (bc.position.index, bc.position.line, bc.position.column),
        (3, 2, 2)
    );
}

#[test]
fn positions_monotonic() {
    let mut lexer = lexer_for("x = 1 + 2.5 // done\ny");
    let mut last_index = None;
    loop {
        let token = lexer.consume().unwrap();
        if token.token_type == TokenType::EOF {
            break;
        }
        if let Some(prev) = last_index {
            assert!(token.position.index > prev);
        }
        last_index = Some(token.position.index);
    }
}

#[test]
fn comments_are_skipped() {
    let mut lexer = lexer_for("// intro\nx // trailing\n  // indented comment\ny");
    assert_eq!(
        lexer.consume().unwrap().token_type,
        TokenType::Identifier("x".to_string())
    );
    let y = lexer.consume().unwrap();
    assert_eq!(y.token_type, TokenType::Identifier("y".to_string()));
    assert_eq!(y.position.line, 4);
    assert_eq!(lexer.consume().unwrap().token_type, TokenType::EOF);
}

#[test]
fn slash_alone_is_a_symbol() {
    let mut lexer = lexer_for("a / b");
    lexer.consume().unwrap();
    assert_eq!(
        lexer.consume().unwrap().token_type,
        TokenType::Symbol(Symbol::Slash)
    );
}

#[test]
fn as_string_spellings() {
    assert_eq!(Symbol::GreaterEquals.as_string(), ">=");
    assert_eq!(Symbol::Comma.as_string(), ",");
    assert_eq!(Keyword::If.as_string(), "if");
    assert_eq!(Keyword::Else.as_string(), "else");
    assert_eq!(TokenType::Identifier("abc".to_string()).as_string(), "abc");
    assert_eq!(TokenType::Integer(0).as_string(), "0");
    assert_eq!(TokenType::Integer(1234).as_string(), "1234");
    assert_eq!(TokenType::Integer(-42).as_string(), "-42");
    assert_eq!(TokenType::Integer(i64::MIN).as_string(), "-9223372036854775808");
    assert_eq!(TokenType::Float("1.5".to_string()).as_string(), "1.5");
    assert_eq!(TokenType::EOF.as_string(), "EOF");
}
