use vstd::prelude::*;
use crate::token::{Token, TokenType};

verus! {

/// A binary or unary operator, as the evaluator dispatches on it.
#[derive(Debug, Clone, Copy, PartialEq, Eq, Structural)]
pub enum Operator {
    Bang,
    BangEqual,
    Equal,
    EqualEqual,
    Greater,
    GreaterEqual,
    Less,
    LessEqual,
    Add,
    Subtract,
    Divide,
    Multiply,
}

/// An expression. Numeric literals keep their source text; a logical
/// expression keeps `Or` or `And`.
#[derive(Debug)]
pub enum Expr {
    Grouping(Box<Expr>),
    Binary(Box<Expr>, Operator, Box<Expr>),
    Unary(Operator, Box<Expr>),
    BoolLiteral(bool),
    StringLiteral(String),
    IntegerLiteral(String),
    FloatLiteral(String),
    Logical(Box<Expr>, TokenType, Box<Expr>),
    Variable(Token),
    Assign(Token, Box<Expr>),
}

/// A statement.
#[derive(Debug)]
pub enum Statement {
    Expression(Box<Expr>),
    If(Box<Expr>, Box<Statement>, Option<Box<Statement>>),
    Print(Box<Expr>),
    Var(Token, Option<Box<Expr>>),
    While(Box<Expr>, Box<Statement>),
    Block(Vec<Statement>),
}

broadcast use vstd::std_specs::vec::group_vec_axioms;

/// A statement as a mathematical value: a block holds a sequence.
pub enum StatementModel {
    Expression(Expr),
    If(Expr, Box<StatementModel>, Option<Box<StatementModel>>),
    Print(Expr),
    Var(Token, Option<Expr>),
    While(Expr, Box<StatementModel>),
    Block(Seq<StatementModel>),
}

impl Statement {
    /// The statement as a mathematical value.
    pub open spec fn model(&self) -> StatementModel
        decreases self,
    {
        match self {
            Statement::Expression(e) => StatementModel::Expression(**e),
            Statement::If(c, t, e) => StatementModel::If(
                **c,
                Box::new(t.model()),
                match e {
                    Some(e) => Some(Box::new(e.model())),
                    None => None,
                },
            ),
            Statement::Print(e) => StatementModel::Print(**e),
            Statement::Var(name, init) => StatementModel::Var(
                *name,
                match init {
                    Some(e) => Some(**e),
                    None => None,
                },
            ),
            Statement::While(c, b) => StatementModel::While(**c, Box::new(b.model())),
            Statement::Block(v) => StatementModel::Block(
                Seq::new(
                    v@.len(),
                    |i: int|
                        if 0 <= i < v@.len() {
                            v@[i].model()
                        } else {
                            StatementModel::Block(Seq::empty())
                        },
                ),
            ),
        }
    }
}

/// The models of a sequence of statements.
pub open spec fn models(v: Seq<Statement>) -> Seq<StatementModel> {
    Seq::new(v.len(), |i: int| v[i].model())
}

/// Appending a statement appends its model.
pub proof fn lemma_models_push(v: Seq<Statement>, s: Statement)
    ensures
        models(v.push(s)) == models(v).push(s.model()),
{
    assert(models(v.push(s)) =~= models(v).push(s.model()));
}

/// The model of a block is the models of its statements.
pub proof fn lemma_block_model(v: &Vec<Statement>)
    ensures
        Statement::Block(*v).model() == StatementModel::Block(models(v@)),
{
    assert(Statement::Block(*v).model()->Block_0 =~= models(v@));
}

} // verus!
