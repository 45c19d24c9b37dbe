use minilang::error::Error;
use minilang::lexer::token::{Token, TokenKind, TokenRepresentation};
use minilang::lexer::{lexeme, tokenize};

#[test]
fn should_parse_text1() {
    let source = "   23123123 some_identifier         \"some string\"";
    let tokens = tokenize(source).unwrap();

    assert_eq!(tokens.len(), 3);
    assert_eq!(tokens[0].kind, TokenKind::Number);
    assert_eq!(tokens[1].kind, TokenKind::Identifier);
    assert_eq!(tokens[2].kind, TokenKind::String);
}

#[test]
fn should_parse_text2() {
    let source = "{}[]();+-===<=>=!==></*";
    let tokens = tokenize(source).unwrap();

    assert_eq!(tokens.len(), 19);

    assert_eq!(tokens[0].kind, TokenKind::LeftBrace);
    assert_eq!(tokens[1].kind, TokenKind::RightBrace);
    assert_eq!(tokens[2].kind, TokenKind::LeftBracket);
    assert_eq!(tokens[3].kind, TokenKind::RightBracket);
    assert_eq!(tokens[4].kind, TokenKind::LeftParen);
    assert_eq!(tokens[5].kind, TokenKind::RightParen);
    assert_eq!(tokens[6].kind, TokenKind::Semicolon);
    assert_eq!(tokens[7].kind, TokenKind::Plus);
    assert_eq!(tokens[8].kind, TokenKind::Minus);
    assert_eq!(tokens[9].kind, TokenKind::EqualEqual);
    assert_eq!(tokens[10].kind, TokenKind::Equal);
    assert_eq!(tokens[11].kind, TokenKind::LessEqual);
    assert_eq!(tokens[12].kind, TokenKind::GreaterEqual);
    assert_eq!(tokens[13].kind, TokenKind::BangEqual);
    assert_eq!(tokens[14].kind, TokenKind::Equal);
    assert_eq!(tokens[15].kind, TokenKind::Greater);
    assert_eq!(tokens[16].kind, TokenKind::Less);
    assert_eq!(tokens[17].kind, TokenKind::Slash);
    assert_eq!(tokens[18].kind, TokenKind::Star);
}

#[test]
fn should_parse_text3() {
    let source = "123.3123.function_call";
    let tokens = tokenize(source).unwrap();

    assert_eq!(tokens.len(), 3);
    assert_eq!(tokens[0].kind, TokenKind::Number);
    assert_eq!(tokens[1].kind, TokenKind::Dot);
    assert_eq!(tokens[2].kind, TokenKind::Identifier);
}

#[test]
fn number_runs_are_one_token() {
    let tokens = tokenize("2024").unwrap();
    assert_eq!(tokens, vec![Token { kind: TokenKind::Number, offset: 0, end: 4 }]);

    let tokens = tokenize("12.75").unwrap();
    assert_eq!(tokens, vec![Token { kind: TokenKind::Number, offset: 0, end: 5 }]);

    let tokens = tokenize("12.").unwrap();
    assert_eq!(
        tokens,
        vec![
            Token { kind: TokenKind::Number, offset: 0, end: 2 },
            Token { kind: TokenKind::Dot, offset: 2, end: 3 },
        ]
    );
}

#[test]
fn words_are_keywords_or_identifiers() {
    let keywords = [
        ("and", TokenKind::And),
        ("else", TokenKind::Else),
        ("if", TokenKind::If),
        ("or", TokenKind::Or),
        ("var", TokenKind::Var),
        ("true", TokenKind::True),
        ("false", TokenKind::False),
        ("class", TokenKind::Class),
        ("fn", TokenKind::Fn),
        ("for", TokenKind::For),
        ("while", TokenKind::While),
        ("return", TokenKind::Return),
        ("print", TokenKind::Print),
    ];
    for (word, kind) in keywords.iter() {
        let tokens = tokenize(word).unwrap();
        assert_eq!(tokens, vec![Token { kind: *kind, offset: 0, end: word.len() }]);
    }
    for word in ["printer", "_x1", "Var", "classy"].iter() {
        let tokens = tokenize(word).unwrap();
        assert_eq!(tokens, vec![Token { kind: TokenKind::Identifier, offset: 0, end: word.len() }]);
    }
    assert_eq!("while".get_token_kind(), TokenKind::While);
    assert_eq!('('.get_token_kind(), TokenKind::LeftParen);
    assert_eq!('@'.get_token_kind(), TokenKind::NoToken);
}

#[test]
fn spans_give_back_the_source() {
    let source = "var total = (price + 12.5) * \"tax\" >= !flag;";
    let tokens = tokenize(source).unwrap();
    let texts: Vec<&str> = tokens.iter().map(|t| lexeme(source, t)).collect();
    assert_eq!(
        texts,
        vec!["var", "total", "=", "(", "price", "+", "12.5", ")", "*", "\"tax\"", ">=", "!", "flag", ";"]
    );
    for pair in tokens.windows(2) {
        assert!(pair[0].end <= pair[1].offset);
    }
}

#[test]
fn unknown_characters_are_dropped() {
    let tokens = tokenize("1 @ # 2").unwrap();
    assert_eq!(
        tokens,
        vec![
            Token { kind: TokenKind::Number, offset: 0, end: 1 },
            Token { kind: TokenKind::Number, offset: 6, end: 7 },
        ]
    );
    assert_eq!(tokenize("   ").unwrap(), vec![]);
    assert_eq!(tokenize("").unwrap(), vec![]);
}

#[test]
fn unterminated_string_is_an_error() {
    assert_eq!(tokenize("print \"abc;"), Err(Error::UnterminatedString));
    assert_eq!(tokenize("\""), Err(Error::UnterminatedString));
}

#[test]
fn from_kind_has_an_empty_span() {
    let t = Token::from_kind(TokenKind::Semicolon);
    assert_eq!(t, Token { kind: TokenKind::Semicolon, offset: 0, end: 0 });
}

#[test]
fn slices_retokenize_alone() {
    let source = "var x = (a1 + 2.5) != \"s t\" <= !y;";
    let tokens = tokenize(source).unwrap();
    for token in tokens.iter() {
        let text = lexeme(source, token);
        let again = tokenize(text).unwrap();
        assert_eq!(
            again,
            vec![Token { kind: token.kind, offset: 0, end: token.end - token.offset }]
        );
    }
}
