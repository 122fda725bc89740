//! AST node shapes: expression and statement variants with strict single
//! ownership of children, plus their specification-level mirrors.
//!
//! Expression trees are built bottom-up by the parser and immutable once a
//! subtree is complete. Number and string leaves keep the raw matched bytes
//! of their token; conversion of number text to a machine numeric type is
//! left to callers outside this crate.

use vstd::prelude::*;

use crate::token::{SpecToken, Token};

verus! {

/// An expression node: a literal or symbol leaf, or a binary node owning its
/// two subexpressions exclusively.
#[derive(Debug, PartialEq)]
pub enum Expression {
    Number(Vec<u8>),
    StringLiteral(Vec<u8>),
    Symbol(Vec<u8>),
    Binary(Box<BinaryExpression>),
}

/// A binary expression: left operand, operator token, right operand.
#[derive(Debug, PartialEq)]
pub struct BinaryExpression {
    pub left: Expression,
    pub operator: Token,
    pub right: Expression,
}

/// Specification-level expression tree.
#[verifier::ext_equal]
pub enum SpecExpression {
    Number(Seq<u8>),
    StringLiteral(Seq<u8>),
    Symbol(Seq<u8>),
    Binary(Box<SpecExpression>, SpecToken, Box<SpecExpression>),
}

pub open spec fn spec_expr_view(e: Expression) -> SpecExpression
    decreases e,
{
    match e {
        Expression::Number(w) => SpecExpression::Number(w@),
        Expression::StringLiteral(w) => SpecExpression::StringLiteral(w@),
        Expression::Symbol(w) => SpecExpression::Symbol(w@),
        Expression::Binary(b) => SpecExpression::Binary(
            Box::new(spec_expr_view(b.left)),
            b.operator@,
            Box::new(spec_expr_view(b.right)),
        ),
    }
}

impl View for Expression {
    type V = SpecExpression;

    open spec fn view(&self) -> SpecExpression {
        spec_expr_view(*self)
    }
}

impl BinaryExpression {
    pub fn new(left: Expression, operator: Token, right: Expression) -> (b: Self)
        ensures
            b.left == left,
            b.operator == operator,
            b.right == right,
    {
        Self { left, operator, right }
    }
}

/// A statement node: an expression statement or a nested block.
#[derive(Debug, PartialEq)]
pub enum Statement {
    Expression(Expression),
    Block(BlockStatement),
}

/// An ordered sequence of statements, in textual order. A `BlockStatement`
/// is the root of a parsed program.
#[derive(Debug, PartialEq)]
pub struct BlockStatement {
    pub body: Vec<Statement>,
}

/// Specification-level statement.
#[verifier::ext_equal]
pub enum SpecStatement {
    Expression(SpecExpression),
    Block(Seq<SpecStatement>),
}

pub open spec fn spec_stmt_view(s: Statement) -> SpecStatement
    decreases s,
{
    match s {
        Statement::Expression(e) => SpecStatement::Expression(spec_expr_view(e)),
        Statement::Block(b) => SpecStatement::Block(spec_stmts_view(b.body@)),
    }
}

pub open spec fn spec_stmts_view(v: Seq<Statement>) -> Seq<SpecStatement>
    decreases v,
{
    if v.len() == 0 {
        Seq::empty()
    } else {
        seq![spec_stmt_view(v[0])] + spec_stmts_view(v.drop_first())
    }
}

impl View for Statement {
    type V = SpecStatement;

    open spec fn view(&self) -> SpecStatement {
        spec_stmt_view(*self)
    }
}

impl View for BlockStatement {
    type V = Seq<SpecStatement>;

    open spec fn view(&self) -> Seq<SpecStatement> {
        spec_stmts_view(self.body@)
    }
}

/// The view of a statement sequence is elementwise.
pub proof fn lemma_stmts_view(v: Seq<Statement>)
    ensures
        spec_stmts_view(v).len() == v.len(),
        forall|i: int| 0 <= i < v.len() ==> spec_stmts_view(v)[i] == spec_stmt_view(#[trigger] v[i]),
    decreases v,
{
    if v.len() > 0 {
        lemma_stmts_view(v.drop_first());
        assert forall|i: int| 0 <= i < v.len() implies spec_stmts_view(v)[i] == spec_stmt_view(
            #[trigger] v[i],
        ) by {
            if i > 0 {
                assert(v.drop_first()[i - 1] == v[i]);
                assert(spec_stmts_view(v)[i] == spec_stmts_view(v.drop_first())[i - 1]);
            }
        }
    }
}

impl BlockStatement {
    pub fn new() -> (b: Self)
        ensures
            b@ == Seq::<SpecStatement>::empty(),
    {
        Self { body: Vec::new() }
    }

    pub fn push(&mut self, value: Statement)
        ensures
            final(self)@ == old(self)@.push(value@),
    {
        self.body.push(value);
        proof {
            lemma_stmts_view(old(self).body@);
            lemma_stmts_view(self.body@);
            assert forall|i: int|
                0 <= i < self.body@.len() implies spec_stmts_view(self.body@)[i] == spec_stmts_view(
                old(self).body@,
            ).push(spec_stmt_view(value))[i] by {
                if i < old(self).body@.len() {
                    assert(self.body@[i] == old(self).body@[i]);
                }
            }
            assert(spec_stmts_view(self.body@) =~= spec_stmts_view(old(self).body@).push(
                spec_stmt_view(value),
            ));
        }
    }
}

} // verus!
