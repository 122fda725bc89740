//! The expression parser: binding-power-driven recursive descent
//! (precedence climbing) over a token buffer, plus the minimal statement
//! wrapper around it.
//!
//! The grammar's meaning is fixed by the specification functions
//! `spec_parse_expression`, `spec_parse_rest`, `spec_parse_binary`,
//! `spec_parse_statement` and `spec_parse_program`; every executable parser
//! method is proved to return exactly what its specification counterpart
//! returns, error cases included.

use vstd::prelude::*;

use crate::ast::{BinaryExpression, BlockStatement, Expression, SpecExpression, SpecStatement,
    Statement};
use crate::token::{copy_bytes, SpecToken, SpecTokenKind, Token, TokenKind};

verus! {

/// The totally ordered binding-power scale, weakest to strongest. Each
/// binary operator token maps to exactly one level; the mapping is the
/// single source of truth for precedence and associativity.
#[derive(Debug, PartialEq, Eq, Clone, Copy)]
pub enum BindingPower {
    Default,
    Comma,
    Assignment,
    Logical,
    Relational,
    Additive,
    Multiplicative,
    Unary,
    Call,
    Member,
    Primary,
}

impl BindingPower {
    /// Position on the strength scale.
    pub open spec fn as_int(self) -> int {
        match self {
            BindingPower::Default => 0,
            BindingPower::Comma => 1,
            BindingPower::Assignment => 2,
            BindingPower::Logical => 3,
            BindingPower::Relational => 4,
            BindingPower::Additive => 5,
            BindingPower::Multiplicative => 6,
            BindingPower::Unary => 7,
            BindingPower::Call => 8,
            BindingPower::Member => 9,
            BindingPower::Primary => 10,
        }
    }

    /// The numeric strength handed to `Parser::parse_expression` as its
    /// lower bound.
    pub fn value(self) -> (v: u8)
        ensures
            v as int == self.as_int(),
    {
        match self {
            BindingPower::Default => 0,
            BindingPower::Comma => 1,
            BindingPower::Assignment => 2,
            BindingPower::Logical => 3,
            BindingPower::Relational => 4,
            BindingPower::Additive => 5,
            BindingPower::Multiplicative => 6,
            BindingPower::Unary => 7,
            BindingPower::Call => 8,
            BindingPower::Member => 9,
            BindingPower::Primary => 10,
        }
    }
}

/// The binding power of a token kind in binary-operator position.
/// Non-operator kinds sit at the bottom of the scale and never qualify.
pub open spec fn spec_binding_power(k: SpecTokenKind) -> BindingPower {
    match k {
        SpecTokenKind::Assign => BindingPower::Assignment,
        SpecTokenKind::Equal => BindingPower::Relational,
        SpecTokenKind::NotEqual => BindingPower::Relational,
        SpecTokenKind::GreaterThan => BindingPower::Relational,
        SpecTokenKind::GreaterOrEqual => BindingPower::Relational,
        SpecTokenKind::LessThan => BindingPower::Relational,
        SpecTokenKind::LessOrEqual => BindingPower::Relational,
        SpecTokenKind::Plus => BindingPower::Additive,
        SpecTokenKind::Dash => BindingPower::Additive,
        SpecTokenKind::Asterisk => BindingPower::Multiplicative,
        SpecTokenKind::Slash => BindingPower::Multiplicative,
        _ => BindingPower::Default,
    }
}

/// Numeric shorthand for `spec_binding_power`.
pub open spec fn spec_bp(k: SpecTokenKind) -> int {
    spec_binding_power(k).as_int()
}

/// The executable operator table, equal to its specification.
pub fn binding_power(k: &TokenKind) -> (bp: BindingPower)
    ensures
        bp == spec_binding_power(k@),
{
    match k {
        TokenKind::Assign => BindingPower::Assignment,
        TokenKind::Equal => BindingPower::Relational,
        TokenKind::NotEqual => BindingPower::Relational,
        TokenKind::GreaterThan => BindingPower::Relational,
        TokenKind::GreaterOrEqual => BindingPower::Relational,
        TokenKind::LessThan => BindingPower::Relational,
        TokenKind::LessOrEqual => BindingPower::Relational,
        TokenKind::Plus => BindingPower::Additive,
        TokenKind::Dash => BindingPower::Additive,
        TokenKind::Asterisk => BindingPower::Multiplicative,
        TokenKind::Slash => BindingPower::Multiplicative,
        _ => BindingPower::Default,
    }
}

/// The two structural parse errors: a token was required but the stream was
/// exhausted, or the token present is not valid in the current position.
/// Both are terminal for the current parse attempt.
#[derive(Debug, PartialEq)]
pub enum Error {
    NoToken,
    InvalidTokenKind(TokenKind),
}

/// Specification-level parse error.
#[verifier::ext_equal]
pub enum SpecError {
    NoToken,
    InvalidTokenKind(SpecTokenKind),
}

impl View for Error {
    type V = SpecError;

    open spec fn view(&self) -> SpecError {
        match self {
            Error::NoToken => SpecError::NoToken,
            Error::InvalidTokenKind(k) => SpecError::InvalidTokenKind(k@),
        }
    }
}

/// Token kinds accepted in primary position: number, string and identifier.
pub open spec fn is_primary_kind(k: SpecTokenKind) -> bool {
    k is Number || k is StringLiteral || k is Ident
}

/// The leaf expression a primary token converts to.
pub open spec fn spec_leaf(t: SpecToken) -> SpecExpression {
    match t.kind {
        SpecTokenKind::Number(w) => SpecExpression::Number(w),
        SpecTokenKind::StringLiteral(w) => SpecExpression::StringLiteral(w),
        SpecTokenKind::Ident(w) => SpecExpression::Symbol(w),
        _ => SpecExpression::Symbol(Seq::empty()),
    }
}

/// Specification of primary parsing: consume exactly one token and convert
/// it to a leaf; fail with `NoToken` at the end of the stream and with
/// `InvalidTokenKind` on any token kind that cannot stand in primary
/// position.
pub open spec fn spec_parse_primary(toks: Seq<SpecToken>, pos: int) -> Result<
    (SpecExpression, int),
    SpecError,
> {
    if !(0 <= pos < toks.len()) {
        Err(SpecError::NoToken)
    } else if is_primary_kind(toks[pos].kind) {
        Ok((spec_leaf(toks[pos]), pos + 1))
    } else {
        Err(SpecError::InvalidTokenKind(toks[pos].kind))
    }
}

/// Specification of expression parsing with a strict lower binding-power
/// bound: a primary leaf, then operators absorbed while they bind more
/// tightly than `min_bp`.
pub open spec fn spec_parse_expression(toks: Seq<SpecToken>, pos: int, min_bp: int) -> Result<
    (SpecExpression, int),
    SpecError,
>
    decreases toks.len() - pos, 1int,
{
    if !(0 <= pos < toks.len()) {
        Err(SpecError::NoToken)
    } else if !is_primary_kind(toks[pos].kind) {
        Err(SpecError::InvalidTokenKind(toks[pos].kind))
    } else {
        spec_parse_rest(toks, pos + 1, spec_leaf(toks[pos]), min_bp)
    }
}

/// Specification of the absorb loop: while the next token is an operator
/// binding more tightly than `min_bp`, fold it and its right operand into
/// `left`; left-associativity comes from handing the operator's own power
/// down as the strict bound for its right operand.
pub open spec fn spec_parse_rest(
    toks: Seq<SpecToken>,
    pos: int,
    left: SpecExpression,
    min_bp: int,
) -> Result<(SpecExpression, int), SpecError>
    decreases toks.len() - pos, 3int,
{
    if 0 <= pos < toks.len() && spec_bp(toks[pos].kind) > min_bp {
        match spec_parse_binary(toks, pos, left, spec_bp(toks[pos].kind)) {
            Err(e) => Err(e),
            Ok(r) => {
                let p = if r.1 <= pos {
                    pos + 1
                } else if r.1 > toks.len() {
                    toks.len() as int
                } else {
                    r.1
                };
                spec_parse_rest(toks, p, r.0, min_bp)
            },
        }
    } else {
        Ok((left, pos))
    }
}

/// Specification of one binary fold: consume the operator at `pos`, parse
/// the right operand with the operator's power as the strict bound, and
/// build the node.
pub open spec fn spec_parse_binary(
    toks: Seq<SpecToken>,
    pos: int,
    left: SpecExpression,
    bp: int,
) -> Result<(SpecExpression, int), SpecError>
    decreases toks.len() - pos, 2int,
{
    if !(0 <= pos < toks.len()) {
        Err(SpecError::NoToken)
    } else {
        match spec_parse_expression(toks, pos + 1, bp) {
            Err(e) => Err(e),
            Ok(r) => Ok(
                (SpecExpression::Binary(Box::new(left), toks[pos], Box::new(r.0)), r.1),
            ),
        }
    }
}

/// A successful expression parse lands strictly past its starting position
/// and inside the token sequence.
pub proof fn lemma_parse_expression_bounds(toks: Seq<SpecToken>, pos: int, min_bp: int)
    requires
        0 <= pos <= toks.len(),
    ensures
        spec_parse_expression(toks, pos, min_bp) is Ok ==> pos < spec_parse_expression(
            toks,
            pos,
            min_bp,
        )->Ok_0.1 <= toks.len(),
    decreases toks.len() - pos, 1int,
{
    if 0 <= pos < toks.len() && is_primary_kind(toks[pos].kind) {
        lemma_parse_rest_bounds(toks, pos + 1, spec_leaf(toks[pos]), min_bp);
    }
}

/// A successful absorb loop never moves backwards and stays inside the
/// token sequence.
pub proof fn lemma_parse_rest_bounds(
    toks: Seq<SpecToken>,
    pos: int,
    left: SpecExpression,
    min_bp: int,
)
    requires
        0 <= pos <= toks.len(),
    ensures
        spec_parse_rest(toks, pos, left, min_bp) is Ok ==> pos <= spec_parse_rest(
            toks,
            pos,
            left,
            min_bp,
        )->Ok_0.1 <= toks.len(),
    decreases toks.len() - pos, 3int,
{
    if 0 <= pos < toks.len() && spec_bp(toks[pos].kind) > min_bp {
        lemma_parse_binary_bounds(toks, pos, left, spec_bp(toks[pos].kind));
        match spec_parse_binary(toks, pos, left, spec_bp(toks[pos].kind)) {
            Err(e) => {},
            Ok(r) => {
                lemma_parse_rest_bounds(toks, r.1, r.0, min_bp);
            },
        }
    }
}

/// A successful binary fold consumes the operator and at least one more
/// token.
pub proof fn lemma_parse_binary_bounds(
    toks: Seq<SpecToken>,
    pos: int,
    left: SpecExpression,
    bp: int,
)
    requires
        0 <= pos <= toks.len(),
    ensures
        spec_parse_binary(toks, pos, left, bp) is Ok ==> pos + 1 < spec_parse_binary(
            toks,
            pos,
            left,
            bp,
        )->Ok_0.1 <= toks.len(),
    decreases toks.len() - pos, 2int,
{
    if 0 <= pos < toks.len() {
        lemma_parse_expression_bounds(toks, pos + 1, bp);
    }
}

/// Specification of statement parsing: an expression statement; a statement
/// terminator after the expression is consumed but not retained.
pub open spec fn spec_parse_statement(toks: Seq<SpecToken>, pos: int) -> Result<
    (SpecStatement, int),
    SpecError,
> {
    match spec_parse_expression(toks, pos, 0) {
        Err(e) => Err(e),
        Ok(r) => {
            if 0 <= r.1 < toks.len() && toks[r.1].kind is Semicolon {
                Ok((SpecStatement::Expression(r.0), r.1 + 1))
            } else {
                Ok((SpecStatement::Expression(r.0), r.1))
            }
        },
    }
}

/// A successful statement parse advances by at least one token.
pub proof fn lemma_parse_statement_bounds(toks: Seq<SpecToken>, pos: int)
    requires
        0 <= pos <= toks.len(),
    ensures
        spec_parse_statement(toks, pos) is Ok ==> pos < spec_parse_statement(
            toks,
            pos,
        )->Ok_0.1 <= toks.len(),
{
    lemma_parse_expression_bounds(toks, pos, 0);
}

/// Specification of a top-level parse: statements gathered in textual order
/// until the tokens are exhausted or the end-of-file token is reached. An
/// empty token stream (or an immediate end-of-file token) yields an empty
/// block, not an error.
pub open spec fn spec_parse_program(toks: Seq<SpecToken>, pos: int) -> Result<
    Seq<SpecStatement>,
    SpecError,
>
    decreases toks.len() - pos,
{
    if !(0 <= pos < toks.len()) || toks[pos].kind is EOF {
        Ok(Seq::empty())
    } else {
        match spec_parse_statement(toks, pos) {
            Err(e) => Err(e),
            Ok(r) => {
                let p = if r.1 <= pos {
                    pos + 1
                } else if r.1 > toks.len() {
                    toks.len() as int
                } else {
                    r.1
                };
                match spec_parse_program(toks, p) {
                    Err(e) => Err(e),
                    Ok(rest) => Ok(seq![r.0] + rest),
                }
            },
        }
    }
}

/// A cursor over an already-materialized token buffer: a read position that
/// only ever moves forward, one token per consume, with no backtracking.
pub struct Parser {
    tokens: Vec<Token>,
    cur_pos: usize,
}

impl Parser {
    /// The token buffer as specification tokens.
    pub closed spec fn toks(self) -> Seq<SpecToken> {
        self.tokens@.map_values(|t: Token| t@)
    }

    /// The cursor position.
    pub closed spec fn pos(self) -> int {
        self.cur_pos as int
    }

    /// The cursor never points past the end of the buffer.
    pub closed spec fn wf(self) -> bool {
        self.cur_pos <= self.tokens@.len()
    }

    pub fn new(tokens: Vec<Token>) -> (p: Parser)
        ensures
            p.wf(),
            p.toks() == tokens@.map_values(|t: Token| t@),
            p.pos() == 0,
    {
        Self { tokens, cur_pos: 0 }
    }

    /// The token under the cursor, if any, without advancing.
    fn cur_token(&self) -> (t: Option<&Token>)
        requires
            self.wf(),
        ensures
            match t {
                Some(tok) => self.pos() < self.toks().len() && tok@ == self.toks()[self.pos()],
                None => self.pos() == self.toks().len(),
            },
    {
        if self.cur_pos >= self.tokens.len() {
            None
        } else {
            Some(&self.tokens[self.cur_pos])
        }
    }

    /// Takes the token under the cursor and advances past it.
    fn consume_token(&mut self) -> (t: Option<Token>)
        requires
            old(self).wf(),
        ensures
            final(self).wf(),
            final(self).toks() == old(self).toks(),
            match t {
                Some(tok) => old(self).pos() < old(self).toks().len() && tok@ == old(
                    self,
                ).toks()[old(self).pos()] && final(self).pos() == old(self).pos() + 1,
                None => old(self).pos() == old(self).toks().len() && final(self).pos() == old(
                    self,
                ).pos(),
            },
    {
        if self.cur_pos >= self.tokens.len() {
            None
        } else {
            let t = self.tokens[self.cur_pos].clone();
            self.cur_pos = self.cur_pos + 1;
            Some(t)
        }
    }

    /// Consumes exactly one token and converts it to a leaf expression:
    /// number and string literals keep their raw text (a string's text
    /// includes its quotes), an identifier becomes a symbol reference. Any
    /// other token kind is an `InvalidTokenKind` error, an exhausted stream
    /// a `NoToken` error; on an error the cursor does not move.
    pub fn parse_primary_expression(&mut self) -> (r: Result<Expression, Error>)
        requires
            old(self).wf(),
        ensures
            final(self).wf(),
            final(self).toks() == old(self).toks(),
            match r {
                Ok(e) => spec_parse_primary(old(self).toks(), old(self).pos()) == Ok::<
                    (SpecExpression, int),
                    SpecError,
                >((e@, final(self).pos())),
                Err(er) => spec_parse_primary(old(self).toks(), old(self).pos()) == Err::<
                    (SpecExpression, int),
                    SpecError,
                >(er@) && final(self).pos() == old(self).pos(),
            },
    {
        if self.cur_pos >= self.tokens.len() {
            return Err(Error::NoToken);
        }
        let leaf: Expression;
        {
            let t = &self.tokens[self.cur_pos];
            proof {
                assert(t@ == old(self).toks()[old(self).pos()]);
            }
            match &t.kind {
                TokenKind::Number(w) => {
                    leaf = Expression::Number(copy_bytes(w));
                },
                TokenKind::StringLiteral(w) => {
                    leaf = Expression::StringLiteral(copy_bytes(w));
                },
                TokenKind::Ident(w) => {
                    leaf = Expression::Symbol(copy_bytes(w));
                },
                _ => {
                    return Err(Error::InvalidTokenKind(t.kind.clone()));
                },
            }
        }
        self.cur_pos = self.cur_pos + 1;
        Ok(leaf)
    }

    /// Parses one expression whose every operator binds more tightly than
    /// `min_bp`. Equal-precedence operators to the right are left for the
    /// caller's absorb loop, which makes trees of equal precedence
    /// left-associative.
    pub fn parse_expression(&mut self, min_bp: u8) -> (r: Result<Expression, Error>)
        requires
            old(self).wf(),
        ensures
            final(self).wf(),
            final(self).toks() == old(self).toks(),
            match r {
                Ok(e) => spec_parse_expression(old(self).toks(), old(self).pos(), min_bp as int)
                    == Ok::<(SpecExpression, int), SpecError>((e@, final(self).pos())),
                Err(er) => spec_parse_expression(old(self).toks(), old(self).pos(), min_bp as int)
                    == Err::<(SpecExpression, int), SpecError>(er@),
            },
        decreases old(self).toks().len() - old(self).pos(), 1int,
    {
        match self.parse_primary_expression() {
            Err(e) => Err(e),
            Ok(left) => self.parse_rest(left, min_bp),
        }
    }

    /// The absorb loop, written as recursion: while the next token is an
    /// operator binding more tightly than `min_bp`, fold it and its right
    /// operand into `left`.
    fn parse_rest(&mut self, left: Expression, min_bp: u8) -> (r: Result<Expression, Error>)
        requires
            old(self).wf(),
        ensures
            final(self).wf(),
            final(self).toks() == old(self).toks(),
            match r {
                Ok(e) => spec_parse_rest(
                    old(self).toks(),
                    old(self).pos(),
                    left@,
                    min_bp as int,
                ) == Ok::<(SpecExpression, int), SpecError>((e@, final(self).pos())),
                Err(er) => spec_parse_rest(
                    old(self).toks(),
                    old(self).pos(),
                    left@,
                    min_bp as int,
                ) == Err::<(SpecExpression, int), SpecError>(er@),
            },
        decreases old(self).toks().len() - old(self).pos(), 3int,
    {
        let qualifies: bool;
        let mut op_bp: u8 = 0;
        match self.cur_token() {
            None => {
                qualifies = false;
            },
            Some(t) => {
                op_bp = binding_power(&t.kind).value();
                qualifies = op_bp > min_bp;
            },
        }
        if !qualifies {
            return Ok(left);
        }
        let ghost toks = self.toks();
        let ghost pos0 = self.pos();
        let ghost left0 = left@;
        match self.parse_binary_expression(left, op_bp) {
            Err(e) => Err(e),
            Ok(folded) => {
                proof {
                    lemma_parse_binary_bounds(toks, pos0, left0, op_bp as int);
                }
                self.parse_rest(folded, min_bp)
            },
        }
    }

    /// Parses one statement: an expression wrapped as an expression
    /// statement; a statement terminator after it is consumed but not
    /// retained.
    pub fn parse_statement(&mut self) -> (r: Result<Statement, Error>)
        requires
            old(self).wf(),
        ensures
            final(self).wf(),
            final(self).toks() == old(self).toks(),
            match r {
                Ok(s) => spec_parse_statement(old(self).toks(), old(self).pos()) == Ok::<
                    (SpecStatement, int),
                    SpecError,
                >((s@, final(self).pos())),
                Err(er) => spec_parse_statement(old(self).toks(), old(self).pos()) == Err::<
                    (SpecStatement, int),
                    SpecError,
                >(er@),
            },
    {
        match self.parse_expression(BindingPower::Default.value()) {
            Err(e) => Err(e),
            Ok(e) => {
                let terminated: bool;
                match self.cur_token() {
                    Some(t) => {
                        terminated = matches!(&t.kind, TokenKind::Semicolon);
                    },
                    None => {
                        terminated = false;
                    },
                }
                if terminated {
                    let _ = self.consume_token();
                }
                Ok(Statement::Expression(e))
            },
        }
    }

    /// True when nothing is left to parse: the buffer is exhausted or the
    /// cursor stands on the end-of-file token.
    fn at_eof(&self) -> (b: bool)
        requires
            self.wf(),
        ensures
            b == (self.pos() >= self.toks().len() || self.toks()[self.pos()].kind
                is EOF),
    {
        match self.cur_token() {
            None => true,
            Some(t) => matches!(&t.kind, TokenKind::EOF),
        }
    }

    /// Parses the whole token buffer into the root block: statements in
    /// textual order until the tokens are exhausted or the end-of-file token
    /// is reached. An empty buffer yields an empty block; the first error
    /// aborts the parse.
    pub fn parse(&mut self) -> (r: Result<BlockStatement, Error>)
        requires
            old(self).wf(),
        ensures
            final(self).wf(),
            match r {
                Ok(b) => spec_parse_program(old(self).toks(), old(self).pos()) == Ok::<
                    Seq<SpecStatement>,
                    SpecError,
                >(b@),
                Err(er) => spec_parse_program(old(self).toks(), old(self).pos()) == Err::<
                    Seq<SpecStatement>,
                    SpecError,
                >(er@),
            },
    {
        let ghost toks = old(self).toks();
        let ghost pos_start = old(self).pos();
        let mut block = BlockStatement::new();
        proof {
            match spec_parse_program(toks, pos_start) {
                Ok(rest) => {
                    assert(block@ + rest =~= rest);
                },
                Err(e) => {},
            }
        }
        while !self.at_eof()
            invariant
                toks == old(self).toks(),
                pos_start == old(self).pos(),
                self.wf(),
                self.toks() == toks,
                0 <= self.pos() <= toks.len(),
                spec_parse_program(toks, pos_start) == (match spec_parse_program(
                    toks,
                    self.pos(),
                ) {
                    Ok(rest) => Ok::<Seq<SpecStatement>, SpecError>(block@ + rest),
                    Err(e) => Err::<Seq<SpecStatement>, SpecError>(e),
                }),
            decreases toks.len() - self.pos(),
        {
            let ghost pos0 = self.pos();
            match self.parse_statement() {
                Err(e) => {
                    proof {
                        assert(spec_parse_program(toks, pos0) == Err::<
                            Seq<SpecStatement>,
                            SpecError,
                        >(e@));
                    }
                    return Err(e);
                },
                Ok(s) => {
                    proof {
                        lemma_parse_statement_bounds(toks, pos0);
                        let r = spec_parse_statement(toks, pos0)->Ok_0;
                        assert(pos0 < r.1 <= toks.len());
                        match spec_parse_program(toks, r.1) {
                            Ok(rest) => {
                                assert(spec_parse_program(toks, pos0) == Ok::<
                                    Seq<SpecStatement>,
                                    SpecError,
                                >(seq![r.0] + rest));
                                assert(block@.push(r.0) + rest =~= block@ + (seq![r.0] + rest));
                            },
                            Err(e) => {},
                        }
                    }
                    block.push(s);
                },
            }
        }
        proof {
            assert(spec_parse_program(toks, self.pos()) == Ok::<Seq<SpecStatement>, SpecError>(
                Seq::empty(),
            ));
            assert(block@ + Seq::<SpecStatement>::empty() =~= block@);
        }
        Ok(block)
    }

    /// Consumes the operator token under the cursor and the right operand
    /// that follows it, and returns the binary node folding them into
    /// `left`.
    fn parse_binary_expression(&mut self, left: Expression, bp: u8) -> (r: Result<
        Expression,
        Error,
    >)
        requires
            old(self).wf(),
        ensures
            final(self).wf(),
            final(self).toks() == old(self).toks(),
            match r {
                Ok(e) => spec_parse_binary(
                    old(self).toks(),
                    old(self).pos(),
                    left@,
                    bp as int,
                ) == Ok::<(SpecExpression, int), SpecError>((e@, final(self).pos())),
                Err(er) => spec_parse_binary(
                    old(self).toks(),
                    old(self).pos(),
                    left@,
                    bp as int,
                ) == Err::<(SpecExpression, int), SpecError>(er@),
            },
        decreases old(self).toks().len() - old(self).pos(), 2int,
    {
        match self.consume_token() {
            None => Err(Error::NoToken),
            Some(operator) => {
                match self.parse_expression(bp) {
                    Err(e) => Err(e),
                    Ok(right) => Ok(
                        Expression::Binary(Box::new(BinaryExpression::new(left, operator, right))),
                    ),
                }
            },
        }
    }
}

} // verus!
