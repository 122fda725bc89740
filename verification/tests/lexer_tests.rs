use jsh_syntax::lexer::Lexer;
use jsh_syntax::token::{Token, TokenKind, TokenSpan};

fn lex_all(src: &str) -> Vec<Token> {
    let mut lexer = Lexer::new(src.as_bytes().to_vec());
    let mut out = Vec::new();
    while let Some(t) = lexer.next() {
        out.push(t);
    }
    out
}

fn kinds_of(src: &str) -> Vec<TokenKind> {
    lex_all(src).into_iter().map(|t| t.kind).collect()
}

fn ident(s: &str) -> TokenKind {
    TokenKind::Ident(s.as_bytes().to_vec())
}

fn number(s: &str) -> TokenKind {
    TokenKind::Number(s.as_bytes().to_vec())
}

#[test]
fn lex_kind() {
    let input = "let five = 5;\n\
        let ten = 10;\n\
        let fraction = 110.598;\n\
        let add = fn(x, y) {\n\
        x + y;\n\
        };\n\
        let result = add(five, ten);\n\
        !-/*5;\n\
        5 < 10 > 5;\n\
        if (5 < 10) {\n\
        return true;\n\
        } else {\n\
        return false;\n\
        }\n\
        10 == 10;\n\
        10 != 9;\n\
        \"test\";\n";
    let mut lexer = Lexer::new(input.as_bytes().to_vec());
    let kinds: Vec<TokenKind> = vec![
        TokenKind::Let,
        ident("five"),
        TokenKind::Assign,
        number("5"),
        TokenKind::Semicolon,
        TokenKind::Let,
        ident("ten"),
        TokenKind::Assign,
        number("10"),
        TokenKind::Semicolon,
        TokenKind::Let,
        ident("fraction"),
        TokenKind::Assign,
        number("110.598"),
        TokenKind::Semicolon,
        TokenKind::Let,
        ident("add"),
        TokenKind::Assign,
        TokenKind::Function,
        TokenKind::LParen,
        ident("x"),
        TokenKind::Comma,
        ident("y"),
        TokenKind::RParen,
        TokenKind::LSquirly,
        ident("x"),
        TokenKind::Plus,
        ident("y"),
        TokenKind::Semicolon,
        TokenKind::RSquirly,
        TokenKind::Semicolon,
        TokenKind::Let,
        ident("result"),
        TokenKind::Assign,
        ident("add"),
        TokenKind::LParen,
        ident("five"),
        TokenKind::Comma,
        ident("ten"),
        TokenKind::RParen,
        TokenKind::Semicolon,
        TokenKind::Bang,
        TokenKind::Dash,
        TokenKind::Slash,
        TokenKind::Asterisk,
        number("5"),
        TokenKind::Semicolon,
        number("5"),
        TokenKind::LessThan,
        number("10"),
        TokenKind::GreaterThan,
        number("5"),
        TokenKind::Semicolon,
        TokenKind::If,
        TokenKind::LParen,
        number("5"),
        TokenKind::LessThan,
        number("10"),
        TokenKind::RParen,
        TokenKind::LSquirly,
        TokenKind::Return,
        TokenKind::True,
        TokenKind::Semicolon,
        TokenKind::RSquirly,
        TokenKind::Else,
        TokenKind::LSquirly,
        TokenKind::Return,
        TokenKind::False,
        TokenKind::Semicolon,
        TokenKind::RSquirly,
        number("10"),
        TokenKind::Equal,
        number("10"),
        TokenKind::Semicolon,
        number("10"),
        TokenKind::NotEqual,
        number("9"),
        TokenKind::Semicolon,
        TokenKind::StringLiteral("\"test\"".as_bytes().to_vec()),
        TokenKind::Semicolon,
        TokenKind::EOF,
    ];
    for kind in kinds {
        let next = lexer.next().unwrap().kind;
        assert_eq!(kind, next);
    }
}

#[test]
fn lex_token() {
    let input = "let five = 5;\nlet ten = 10;\n";
    let mut lexer = Lexer::new(input.as_bytes().to_vec());
    let tokens: Vec<Token> = vec![
        Token::new(TokenKind::Let, TokenSpan::new(0, 3, b"let".to_vec())),
        Token::new(ident("five"), TokenSpan::new(4, 8, b"five".to_vec())),
        Token::new(TokenKind::Assign, TokenSpan::new(9, 10, b"=".to_vec())),
        Token::new(number("5"), TokenSpan::new(11, 12, b"5".to_vec())),
        Token::new(TokenKind::Semicolon, TokenSpan::new(12, 13, b";".to_vec())),
        Token::new(TokenKind::Let, TokenSpan::new(14, 17, b"let".to_vec())),
    ];
    for token in tokens {
        let next = lexer.next().unwrap();
        assert_eq!(token, next);
    }
}

#[test]
fn let_statement_kinds_then_eof() {
    let kinds = kinds_of("let five = 5;");
    assert_eq!(
        kinds,
        vec![
            TokenKind::Let,
            ident("five"),
            TokenKind::Assign,
            number("5"),
            TokenKind::Semicolon,
            TokenKind::EOF,
        ]
    );
}

#[test]
fn equality_kinds() {
    let kinds = kinds_of("10 == 10;");
    assert_eq!(
        kinds,
        vec![
            number("10"),
            TokenKind::Equal,
            number("10"),
            TokenKind::Semicolon,
            TokenKind::EOF,
        ]
    );
}

#[test]
fn inequality_kinds() {
    let kinds = kinds_of("10 != 9;");
    assert_eq!(
        kinds,
        vec![
            number("10"),
            TokenKind::NotEqual,
            number("9"),
            TokenKind::Semicolon,
            TokenKind::EOF,
        ]
    );
}

#[test]
fn exhausted_after_eof() {
    let mut lexer = Lexer::new(b"5".to_vec());
    assert_eq!(lexer.next().unwrap().kind, number("5"));
    assert_eq!(lexer.next().unwrap().kind, TokenKind::EOF);
    assert!(lexer.next().is_none());
    assert!(lexer.next().is_none());
}

#[test]
fn empty_input_yields_eof_only() {
    let mut lexer = Lexer::new(Vec::new());
    let t = lexer.next().unwrap();
    assert_eq!(t.kind, TokenKind::EOF);
    assert_eq!(t.span, TokenSpan::new(0, 0, Vec::new()));
    assert!(lexer.next().is_none());
}

#[test]
fn spans_tile_the_input() {
    // Tokenizing then concatenating each token's literal span reproduces the
    // input exactly; swallowed whitespace is omitted but still advances the
    // spans contiguously.
    let input = "let x_y = 12.5 >= \"s\" ; { [ ] } ( ) , ! < > - / * == != <=";
    let tokens = lex_all(input);
    let bytes = input.as_bytes();
    let mut prev_end = 0usize;
    for t in &tokens {
        assert!(prev_end <= t.span.start && t.span.start <= t.span.end);
        assert!(t.span.end <= bytes.len());
        assert_eq!(t.span.lexeme, &bytes[t.span.start..t.span.end]);
        for m in prev_end..t.span.start {
            assert!(bytes[m].is_ascii_whitespace());
        }
        prev_end = t.span.end;
    }
    let last = tokens.last().unwrap();
    assert_eq!(last.kind, TokenKind::EOF);
    assert_eq!(last.span.start, bytes.len());
    assert_eq!(last.span.end, bytes.len());
}

#[test]
fn span_len_is_end_minus_start() {
    let tokens = lex_all("let five");
    assert_eq!(tokens[0].span.len(), 3);
    assert_eq!(tokens[1].span.len(), 4);
    assert_eq!(tokens[2].span.len(), 0);
}

#[test]
fn illegal_byte_is_scanned_past() {
    let kinds = kinds_of("1 @ 2");
    assert_eq!(
        kinds,
        vec![number("1"), TokenKind::Illegal, number("2"), TokenKind::EOF]
    );
}

#[test]
fn unterminated_string_is_illegal() {
    let mut lexer = Lexer::new(b"\"abc".to_vec());
    let t = lexer.next().unwrap();
    assert_eq!(t.kind, TokenKind::Illegal);
    assert_eq!(t.span, TokenSpan::new(0, 4, b"\"abc".to_vec()));
    assert_eq!(lexer.next().unwrap().kind, TokenKind::EOF);
    assert!(lexer.next().is_none());
}

#[test]
fn string_keeps_quotes_and_spaces() {
    let kinds = kinds_of("\"a b\"");
    assert_eq!(
        kinds,
        vec![TokenKind::StringLiteral(b"\"a b\"".to_vec()), TokenKind::EOF]
    );
}

#[test]
fn trailing_dot_number() {
    let kinds = kinds_of("12.");
    assert_eq!(kinds, vec![number("12."), TokenKind::EOF]);
}

#[test]
fn keywords_and_idents() {
    let kinds = kinds_of("fn let if else true false return fnx _x");
    assert_eq!(
        kinds,
        vec![
            TokenKind::Function,
            TokenKind::Let,
            TokenKind::If,
            TokenKind::Else,
            TokenKind::True,
            TokenKind::False,
            TokenKind::Return,
            ident("fnx"),
            ident("_x"),
            TokenKind::EOF,
        ]
    );
}

#[test]
fn one_byte_operators_at_end_of_input() {
    assert_eq!(kinds_of("="), vec![TokenKind::Assign, TokenKind::EOF]);
    assert_eq!(kinds_of("!"), vec![TokenKind::Bang, TokenKind::EOF]);
    assert_eq!(kinds_of(">"), vec![TokenKind::GreaterThan, TokenKind::EOF]);
    assert_eq!(kinds_of("<"), vec![TokenKind::LessThan, TokenKind::EOF]);
}

#[test]
fn two_byte_operators() {
    assert_eq!(
        kinds_of(">= <= == !="),
        vec![
            TokenKind::GreaterOrEqual,
            TokenKind::LessOrEqual,
            TokenKind::Equal,
            TokenKind::NotEqual,
            TokenKind::EOF,
        ]
    );
}
