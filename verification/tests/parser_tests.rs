use jsh_syntax::ast::{BinaryExpression, BlockStatement, Expression, Statement};
use jsh_syntax::lexer::Lexer;
use jsh_syntax::parser::{BindingPower, Error, Parser};
use jsh_syntax::token::{Token, TokenKind, TokenSpan};

fn lex_all(src: &str) -> Vec<Token> {
    let mut lexer = Lexer::new(src.as_bytes().to_vec());
    let mut out = Vec::new();
    while let Some(t) = lexer.next() {
        out.push(t);
    }
    out
}

fn parse_src(src: &str) -> Result<BlockStatement, Error> {
    let mut parser = Parser::new(lex_all(src));
    parser.parse()
}

fn num(s: &str) -> Expression {
    Expression::Number(s.as_bytes().to_vec())
}

fn sym(s: &str) -> Expression {
    Expression::Symbol(s.as_bytes().to_vec())
}

fn bin(left: Expression, op: Token, right: Expression) -> Expression {
    Expression::Binary(Box::new(BinaryExpression::new(left, op, right)))
}

fn tok(kind: TokenKind, start: usize, end: usize, lexeme: &str) -> Token {
    Token::new(kind, TokenSpan::new(start, end, lexeme.as_bytes().to_vec()))
}

#[test]
fn multiplication_binds_tighter_than_addition() {
    // 1 + 2 * 3 parses as 1 + (2 * 3): the root is Plus, its right child a
    // Times node.
    let block = parse_src("1 + 2 * 3").unwrap();
    let expected = bin(
        num("1"),
        tok(TokenKind::Plus, 2, 3, "+"),
        bin(num("2"), tok(TokenKind::Asterisk, 6, 7, "*"), num("3")),
    );
    assert_eq!(block.body, vec![Statement::Expression(expected)]);
}

#[test]
fn equal_precedence_is_left_associative() {
    // 1 + 2 + 3 parses as (1 + 2) + 3, not 1 + (2 + 3).
    let block = parse_src("1 + 2 + 3").unwrap();
    let expected = bin(
        bin(num("1"), tok(TokenKind::Plus, 2, 3, "+"), num("2")),
        tok(TokenKind::Plus, 6, 7, "+"),
        num("3"),
    );
    assert_eq!(block.body, vec![Statement::Expression(expected)]);
}

#[test]
fn bare_identifier_is_symbol_leaf() {
    let block = parse_src("foo").unwrap();
    assert_eq!(block.body, vec![Statement::Expression(sym("foo"))]);
}

#[test]
fn empty_token_stream_is_empty_block() {
    let block = Parser::new(Vec::new()).parse().unwrap();
    assert_eq!(block.body.len(), 0);
}

#[test]
fn immediate_eof_is_empty_block() {
    // Tokenizing "" yields exactly the end-of-file token; parsing it yields
    // an empty top-level block, not an error.
    let block = parse_src("").unwrap();
    assert_eq!(block.body.len(), 0);
}

#[test]
fn primary_on_closing_delimiter_is_invalid_token_kind() {
    let mut parser = Parser::new(lex_all(")"));
    let r = parser.parse_primary_expression();
    assert_eq!(r, Err(Error::InvalidTokenKind(TokenKind::RParen)));
}

#[test]
fn primary_on_keyword_is_invalid_token_kind() {
    assert_eq!(
        parse_src("let"),
        Err(Error::InvalidTokenKind(TokenKind::Let))
    );
}

#[test]
fn primary_on_exhausted_stream_is_no_token() {
    let mut parser = Parser::new(Vec::new());
    assert_eq!(parser.parse_primary_expression(), Err(Error::NoToken));
}

#[test]
fn operator_without_right_operand_is_no_token() {
    // A token buffer that ends right after an operator (no end-of-file token
    // present) exhausts the stream where a right operand was required.
    let tokens = vec![
        tok(TokenKind::Number(b"1".to_vec()), 0, 1, "1"),
        tok(TokenKind::Plus, 2, 3, "+"),
    ];
    assert_eq!(Parser::new(tokens).parse(), Err(Error::NoToken));
}

#[test]
fn operator_followed_by_semicolon_is_invalid_token_kind() {
    assert_eq!(
        parse_src("1 + ;"),
        Err(Error::InvalidTokenKind(TokenKind::Semicolon))
    );
}

#[test]
fn statements_in_textual_order() {
    let block = parse_src("1; foo; \"s\";").unwrap();
    assert_eq!(
        block.body,
        vec![
            Statement::Expression(num("1")),
            Statement::Expression(sym("foo")),
            Statement::Expression(Expression::StringLiteral(b"\"s\"".to_vec())),
        ]
    );
}

#[test]
fn assignment_binds_weaker_than_comparison() {
    // a = 1 < 2 parses as a = (1 < 2).
    let block = parse_src("a = 1 < 2").unwrap();
    let expected = bin(
        sym("a"),
        tok(TokenKind::Assign, 2, 3, "="),
        bin(num("1"), tok(TokenKind::LessThan, 6, 7, "<"), num("2")),
    );
    assert_eq!(block.body, vec![Statement::Expression(expected)]);
}

#[test]
fn comparison_binds_weaker_than_addition() {
    // 1 + 2 == 3 parses as (1 + 2) == 3.
    let block = parse_src("1 + 2 == 3").unwrap();
    let expected = bin(
        bin(num("1"), tok(TokenKind::Plus, 2, 3, "+"), num("2")),
        tok(TokenKind::Equal, 6, 8, "=="),
        num("3"),
    );
    assert_eq!(block.body, vec![Statement::Expression(expected)]);
}

#[test]
fn string_leaf_keeps_quotes() {
    let block = parse_src("\"hi\"").unwrap();
    assert_eq!(
        block.body,
        vec![Statement::Expression(Expression::StringLiteral(
            b"\"hi\"".to_vec()
        ))]
    );
}

#[test]
fn binding_power_scale_is_ordered() {
    let scale = [
        BindingPower::Default,
        BindingPower::Comma,
        BindingPower::Assignment,
        BindingPower::Logical,
        BindingPower::Relational,
        BindingPower::Additive,
        BindingPower::Multiplicative,
        BindingPower::Unary,
        BindingPower::Call,
        BindingPower::Member,
        BindingPower::Primary,
    ];
    for w in scale.windows(2) {
        assert!(w[0].value() < w[1].value());
    }
}

#[test]
fn trailing_tokens_after_error_do_not_recover() {
    // The first structural error is terminal: no resynchronization happens.
    assert_eq!(
        parse_src("1 + + 2"),
        Err(Error::InvalidTokenKind(TokenKind::Plus))
    );
}

#[test]
fn block_statement_push_appends() {
    let mut block = BlockStatement::new();
    assert_eq!(block.body.len(), 0);
    block.push(Statement::Expression(num("1")));
    block.push(Statement::Expression(sym("x")));
    assert_eq!(
        block.body,
        vec![
            Statement::Expression(num("1")),
            Statement::Expression(sym("x")),
        ]
    );
}
