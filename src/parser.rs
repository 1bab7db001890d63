use vstd::prelude::*;
use crate::ast::{Expr, Operator, Statement, StatementModel, models};
use crate::text::{decimal, push_decimal, push_str, string_of};
use crate::token::{Token, TokenType};

verus! {

/// Why a parse stopped.
#[derive(Debug, Clone, Copy, PartialEq, Eq, Structural)]
pub enum Reason {
    /// A token of this kind was required here.
    Expected(TokenType),
    /// The left side of `=` is not a variable.
    InvalidTarget,
    /// No expression starts here.
    ExpectedLiteral,
    /// A rule consumed nothing where it must (never happens).
    NoProgress,
}

/// Where and why a parse stopped.
pub struct Failure {
    pub at: int,
    pub reason: Reason,
}

/// A parse error, with its message.
#[derive(Debug)]
pub struct ParseError {
    pub message: String,
}

/// Whether the token at `p` exists and has kind `k`.
pub open spec fn check(ts: Seq<Token>, p: int, k: TokenType) -> bool {
    0 <= p < ts.len() && ts[p].token_type == k
}

/// Whether the cursor at `p` has reached the end of the tokens.
pub open spec fn at_end(ts: Seq<Token>, p: int) -> bool {
    !(0 <= p < ts.len()) || ts[p].token_type == TokenType::Eof
}

pub open spec fn fail(p: int, reason: Reason) -> Failure {
    Failure { at: p, reason }
}

/// The operator that a token kind writes, if any.
pub open spec fn operator_of(k: TokenType) -> Option<Operator> {
    match k {
        TokenType::Bang => Some(Operator::Bang),
        TokenType::BangEqual => Some(Operator::BangEqual),
        TokenType::Equal => Some(Operator::Equal),
        TokenType::EqualEqual => Some(Operator::EqualEqual),
        TokenType::Greater => Some(Operator::Greater),
        TokenType::GreaterEqual => Some(Operator::GreaterEqual),
        TokenType::Less => Some(Operator::Less),
        TokenType::LessEqual => Some(Operator::LessEqual),
        TokenType::Minus => Some(Operator::Subtract),
        TokenType::Plus => Some(Operator::Add),
        TokenType::Star => Some(Operator::Multiply),
        TokenType::Slash => Some(Operator::Divide),
        _ => None,
    }
}

/// Whether `k` is an operator of binary precedence level `level`: 1 for
/// `* /`, 2 for `+ -`, 3 for comparisons, 4 for equality, 5 for `and`, 6
/// for `or`.
pub open spec fn level_has(level: int, k: TokenType) -> bool {
    if level == 1 {
        k == TokenType::Slash || k == TokenType::Star
    } else if level == 2 {
        k == TokenType::Minus || k == TokenType::Plus
    } else if level == 3 {
        k == TokenType::Greater || k == TokenType::GreaterEqual || k == TokenType::Less
            || k == TokenType::LessEqual
    } else if level == 4 {
        k == TokenType::BangEqual || k == TokenType::EqualEqual
    } else if level == 5 {
        k == TokenType::And
    } else {
        k == TokenType::Or
    }
}

/// The expression that joins `left` and `right` with the operator `k` of
/// level `level`: a logical one for `and` and `or`.
pub open spec fn join(level: int, left: Expr, k: TokenType, right: Expr) -> Expr {
    if level >= 5 {
        Expr::Logical(Box::new(left), k, Box::new(right))
    } else {
        Expr::Binary(Box::new(left), operator_of(k)->0, Box::new(right))
    }
}

/// Whether a primary expression can start at `p`.
pub open spec fn starts_primary(ts: Seq<Token>, p: int) -> bool {
    check(ts, p, TokenType::False) || check(ts, p, TokenType::True) || check(ts, p, TokenType::Integer)
        || check(ts, p, TokenType::Float) || check(ts, p, TokenType::Str) || check(ts, p, TokenType::Identifier)
        || check(ts, p, TokenType::LeftParen)
}

/// primary := "false" | "true" | INTEGER | FLOAT | STRING | IDENT | "(" expression ")"
pub open spec fn primary(ts: Seq<Token>, p: int) -> Result<(Expr, int), Failure>
    decreases ts.len() - p, 0int,
{
    if check(ts, p, TokenType::False) {
        Ok((Expr::BoolLiteral(false), p + 1))
    } else if check(ts, p, TokenType::True) {
        Ok((Expr::BoolLiteral(true), p + 1))
    } else if check(ts, p, TokenType::Integer) {
        Ok((Expr::IntegerLiteral(ts[p].lexeme), p + 1))
    } else if check(ts, p, TokenType::Float) {
        Ok((Expr::FloatLiteral(ts[p].lexeme), p + 1))
    } else if check(ts, p, TokenType::Str) {
        Ok((Expr::StringLiteral(ts[p].lexeme), p + 1))
    } else if check(ts, p, TokenType::Identifier) {
        Ok((Expr::Variable(ts[p]), p + 1))
    } else if check(ts, p, TokenType::LeftParen) {
        match expression(ts, p + 1) {
            Err(f) => Err(f),
            Ok((e, q)) => if check(ts, q, TokenType::RightParen) {
                Ok((Expr::Grouping(Box::new(e)), q + 1))
            } else {
                Err(fail(q, Reason::Expected(TokenType::RightParen)))
            },
        }
    } else {
        Err(fail(p, Reason::ExpectedLiteral))
    }
}

/// unary := ("!" | "-") unary | primary
pub open spec fn unary(ts: Seq<Token>, p: int) -> Result<(Expr, int), Failure>
    decreases ts.len() - p, 1int,
{
    if check(ts, p, TokenType::Bang) || check(ts, p, TokenType::Minus) {
        match unary(ts, p + 1) {
            Err(f) => Err(f),
            Ok((e, q)) => Ok((Expr::Unary(operator_of(ts[p].token_type)->0, Box::new(e)), q)),
        }
    } else {
        primary(ts, p)
    }
}

/// An operand of level `level`: of the level below, or a unary expression.
pub open spec fn operand(ts: Seq<Token>, p: int, level: int) -> Result<(Expr, int), Failure>
    decreases ts.len() - p, 2 * level,
{
    if level < 1 || level > 6 {
        Err(fail(p, Reason::NoProgress))
    } else if level == 1 {
        unary(ts, p)
    } else {
        binary(ts, p, level - 1)
    }
}

/// The operators of level `level` and their operands that follow `left`,
/// which ends at `p`, folded to the left.
pub open spec fn binary_rest(ts: Seq<Token>, p: int, left: Expr, level: int) -> Result<(Expr, int), Failure>
    decreases ts.len() - p, 2 * level,
{
    if 0 <= p < ts.len() && level_has(level, ts[p].token_type) {
        match operand(ts, p + 1, level) {
            Err(f) => Err(f),
            Ok((right, q)) => if q <= p || q > ts.len() {
                Err(fail(q, Reason::NoProgress))
            } else {
                binary_rest(ts, q, join(level, left, ts[p].token_type, right), level)
            },
        }
    } else {
        Ok((left, p))
    }
}

/// One binary level: operand ( op operand )*, left-associative.
pub open spec fn binary(ts: Seq<Token>, p: int, level: int) -> Result<(Expr, int), Failure>
    decreases ts.len() - p, 2 * level + 1,
{
    if level < 1 || level > 6 {
        Err(fail(p, Reason::NoProgress))
    } else {
        match operand(ts, p, level) {
            Err(f) => Err(f),
            Ok((left, q)) => if q <= p || q > ts.len() {
                Err(fail(q, Reason::NoProgress))
            } else {
                binary_rest(ts, q, left, level)
            },
        }
    }
}

/// assignment := IDENT "=" assignment | logic_or
pub open spec fn assignment(ts: Seq<Token>, p: int) -> Result<(Expr, int), Failure>
    decreases ts.len() - p, 14int,
{
    match binary(ts, p, 6) {
        Err(f) => Err(f),
        Ok((e, q)) => if q <= p || q > ts.len() {
            Err(fail(q, Reason::NoProgress))
        } else if check(ts, q, TokenType::Equal) {
            match assignment(ts, q + 1) {
                Err(f) => Err(f),
                Ok((value, r)) => match e {
                    Expr::Variable(name) => Ok((Expr::Assign(name, Box::new(value)), r)),
                    _ => Err(fail(r, Reason::InvalidTarget)),
                },
            }
        } else {
            Ok((e, q))
        }
    }
}

/// expression := assignment
pub open spec fn expression(ts: Seq<Token>, p: int) -> Result<(Expr, int), Failure>
    decreases ts.len() - p, 15int,
{
    assignment(ts, p)
}

/// The token of kind `k` at `p`, required, and the position after it.
pub open spec fn expect(ts: Seq<Token>, p: int, k: TokenType) -> Result<int, Failure> {
    if check(ts, p, k) { Ok(p + 1) } else { Err(fail(p, Reason::Expected(k))) }
}

/// exprStmt := expression ";"
pub open spec fn expression_statement(ts: Seq<Token>, p: int) -> Result<(StatementModel, int), Failure>
    decreases ts.len() - p, 16int,
{
    match expression(ts, p) {
        Err(f) => Err(f),
        Ok((e, q)) => match expect(ts, q, TokenType::Semicolon) {
            Err(f) => Err(f),
            Ok(r) => Ok((StatementModel::Expression(e), r)),
        },
    }
}

/// printStmt := "print" expression ";", from after `print`.
pub open spec fn print_statement(ts: Seq<Token>, p: int) -> Result<(StatementModel, int), Failure>
    decreases ts.len() - p, 16int,
{
    match expression(ts, p) {
        Err(f) => Err(f),
        Ok((e, q)) => match expect(ts, q, TokenType::Semicolon) {
            Err(f) => Err(f),
            Ok(r) => Ok((StatementModel::Print(e), r)),
        },
    }
}

/// varDecl := "var" IDENT ( "=" expression )? ";", from after `var`.
pub open spec fn var_declaration(ts: Seq<Token>, p: int) -> Result<(StatementModel, int), Failure>
    decreases ts.len() - p, 16int,
{
    if !check(ts, p, TokenType::Identifier) {
        Err(fail(p, Reason::Expected(TokenType::Identifier)))
    } else if check(ts, p + 1, TokenType::Equal) {
        match expression(ts, p + 2) {
            Err(f) => Err(f),
            Ok((e, q)) => match expect(ts, q, TokenType::Semicolon) {
                Err(f) => Err(f),
                Ok(r) => Ok((StatementModel::Var(ts[p], Some(e)), r)),
            },
        }
    } else {
        match expect(ts, p + 1, TokenType::Semicolon) {
            Err(f) => Err(f),
            Ok(r) => Ok((StatementModel::Var(ts[p], None), r)),
        }
    }
}

/// whileStmt := "while" "(" expression ")" statement, from after `while`.
pub open spec fn while_statement(ts: Seq<Token>, p: int) -> Result<(StatementModel, int), Failure>
    decreases ts.len() - p, 16int,
{
    if !check(ts, p, TokenType::LeftParen) {
        Err(fail(p, Reason::Expected(TokenType::LeftParen)))
    } else {
        match expression(ts, p + 1) {
            Err(f) => Err(f),
            Ok((c, q)) => if q <= p || q > ts.len() {
                Err(fail(q, Reason::NoProgress))
            } else if !check(ts, q, TokenType::RightParen) {
                Err(fail(q, Reason::Expected(TokenType::RightParen)))
            } else {
                match statement(ts, q + 1) {
                    Err(f) => Err(f),
                    Ok((body, r)) => Ok((StatementModel::While(c, Box::new(body)), r)),
                }
            },
        }
    }
}

/// ifStmt := "if" "(" expression ")" statement ( "else" statement )?, from
/// after `if`.
pub open spec fn if_statement(ts: Seq<Token>, p: int) -> Result<(StatementModel, int), Failure>
    decreases ts.len() - p, 16int,
{
    if !check(ts, p, TokenType::LeftParen) {
        Err(fail(p, Reason::Expected(TokenType::LeftParen)))
    } else {
        match expression(ts, p + 1) {
            Err(f) => Err(f),
            Ok((c, q)) => if q <= p || q > ts.len() {
                Err(fail(q, Reason::NoProgress))
            } else if !check(ts, q, TokenType::RightParen) {
                Err(fail(q, Reason::Expected(TokenType::RightParen)))
            } else {
                match statement(ts, q + 1) {
                    Err(f) => Err(f),
                    Ok((then_branch, r)) => if r <= p || r > ts.len() {
                        Err(fail(r, Reason::NoProgress))
                    } else if check(ts, r, TokenType::Else) {
                        match statement(ts, r + 1) {
                            Err(f) => Err(f),
                            Ok((else_branch, s)) => Ok((
                                StatementModel::If(c, Box::new(then_branch), Some(Box::new(else_branch))),
                                s,
                            )),
                        }
                    } else {
                        Ok((StatementModel::If(c, Box::new(then_branch), None), r))
                    },
                }
            },
        }
    }
}

/// The optional initializer of a `for` loop, from after `(`.
pub open spec fn for_initializer(ts: Seq<Token>, p: int) -> Result<(Option<StatementModel>, int), Failure>
    decreases ts.len() - p, 17int,
{
    if check(ts, p, TokenType::Semicolon) {
        Ok((None, p + 1))
    } else if check(ts, p, TokenType::Var) {
        match var_declaration(ts, p + 1) {
            Err(f) => Err(f),
            Ok((s, q)) => Ok((Some(s), q)),
        }
    } else {
        match expression_statement(ts, p) {
            Err(f) => Err(f),
            Ok((s, q)) => Ok((Some(s), q)),
        }
    }
}

/// The `while` loop that a `for` loop stands for.
pub open spec fn desugar_for(
    init: Option<StatementModel>,
    cond: Expr,
    step: Option<Expr>,
    body: StatementModel,
) -> StatementModel {
    let body = match step {
        Some(e) => StatementModel::Block(seq![body, StatementModel::Expression(e)]),
        None => body,
    };
    let looped = StatementModel::While(cond, Box::new(body));
    match init {
        Some(s) => StatementModel::Block(seq![s, looped]),
        None => looped,
    }
}

/// forStmt := "for" "(" ( varDecl | exprStmt | ";" ) expression? ";"
/// expression? ")" statement, from after `for`, desugared.
pub open spec fn for_statement(ts: Seq<Token>, p: int) -> Result<(StatementModel, int), Failure>
    decreases ts.len() - p, 18int,
{
    if !check(ts, p, TokenType::LeftParen) {
        Err(fail(p, Reason::Expected(TokenType::LeftParen)))
    } else {
        match for_initializer(ts, p + 1) {
            Err(f) => Err(f),
            Ok((init, q1)) => if q1 <= p || q1 > ts.len() {
                Err(fail(q1, Reason::NoProgress))
            } else {
                let cond = if !check(ts, q1, TokenType::Semicolon) {
                    expression(ts, q1)
                } else {
                    Ok((Expr::BoolLiteral(true), q1))
                };
                match cond {
                    Err(f) => Err(f),
                    Ok((c, q2)) => if q2 <= p || q2 > ts.len() {
                        Err(fail(q2, Reason::NoProgress))
                    } else if !check(ts, q2, TokenType::Semicolon) {
                        Err(fail(q2, Reason::Expected(TokenType::Semicolon)))
                    } else {
                        let step = if !check(ts, q2 + 1, TokenType::RightParen) {
                            match expression(ts, q2 + 1) {
                                Err(f) => Err(f),
                                Ok((e, q)) => Ok((Some(e), q)),
                            }
                        } else {
                            Ok((None, q2 + 1))
                        };
                        match step {
                            Err(f) => Err(f),
                            Ok((st, q3)) => if q3 <= p || q3 > ts.len() {
                                Err(fail(q3, Reason::NoProgress))
                            } else if !check(ts, q3, TokenType::RightParen) {
                                Err(fail(q3, Reason::Expected(TokenType::RightParen)))
                            } else {
                                match statement(ts, q3 + 1) {
                                    Err(f) => Err(f),
                                    Ok((body, r)) => Ok((desugar_for(init, c, st, body), r)),
                                }
                            },
                        }
                    },
                }
            },
        }
    }
}

/// The declarations of a block up to its `}`, after those in `acc`.
pub open spec fn block_items(ts: Seq<Token>, p: int, acc: Seq<StatementModel>) -> Result<(Seq<StatementModel>, int), Failure>
    decreases ts.len() - p, 21int,
{
    if check(ts, p, TokenType::RightBrace) || at_end(ts, p) {
        match expect(ts, p, TokenType::RightBrace) {
            Err(f) => Err(f),
            Ok(r) => Ok((acc, r)),
        }
    } else {
        match declaration(ts, p) {
            Err(f) => Err(f),
            Ok((s, q)) => if q <= p || q > ts.len() {
                Err(fail(q, Reason::NoProgress))
            } else {
                block_items(ts, q, acc.push(s))
            },
        }
    }
}

/// block := "{" declaration* "}", from after `{`.
pub open spec fn block(ts: Seq<Token>, p: int) -> Result<(Seq<StatementModel>, int), Failure>
    decreases ts.len() - p, 22int,
{
    block_items(ts, p, Seq::empty())
}

/// statement := printStmt | ifStmt | whileStmt | forStmt | block | exprStmt
pub open spec fn statement(ts: Seq<Token>, p: int) -> Result<(StatementModel, int), Failure>
    decreases ts.len() - p, 19int,
{
    if check(ts, p, TokenType::For) {
        for_statement(ts, p + 1)
    } else if check(ts, p, TokenType::If) {
        if_statement(ts, p + 1)
    } else if check(ts, p, TokenType::Print) {
        print_statement(ts, p + 1)
    } else if check(ts, p, TokenType::While) {
        while_statement(ts, p + 1)
    } else if check(ts, p, TokenType::LeftBrace) {
        match block(ts, p + 1) {
            Err(f) => Err(f),
            Ok((items, q)) => Ok((StatementModel::Block(items), q)),
        }
    } else {
        expression_statement(ts, p)
    }
}

/// declaration := varDecl | statement
pub open spec fn declaration(ts: Seq<Token>, p: int) -> Result<(StatementModel, int), Failure>
    decreases ts.len() - p, 20int,
{
    if check(ts, p, TokenType::Var) {
        var_declaration(ts, p + 1)
    } else {
        statement(ts, p)
    }
}

/// The declarations of a program up to its end, after those in `acc`.
pub open spec fn program_items(ts: Seq<Token>, p: int, acc: Seq<StatementModel>) -> Result<Seq<StatementModel>, Failure>
    decreases ts.len() - p,
{
    if at_end(ts, p) {
        Ok(acc)
    } else {
        match declaration(ts, p) {
            Err(f) => Err(f),
            Ok((s, q)) => if q <= p || q > ts.len() {
                Err(fail(q, Reason::NoProgress))
            } else {
                program_items(ts, q, acc.push(s))
            },
        }
    }
}

/// program := declaration* EOF
pub open spec fn program(ts: Seq<Token>) -> Result<Seq<StatementModel>, Failure> {
    program_items(ts, 0, Seq::empty())
}

/// The name of a token kind, as it appears in messages.
pub open spec fn kind_name(k: TokenType) -> Seq<char> {
    match k {
        TokenType::LeftParen => "LeftParen"@,
        TokenType::RightParen => "RightParen"@,
        TokenType::LeftBrace => "LeftBrace"@,
        TokenType::RightBrace => "RightBrace"@,
        TokenType::Comma => "Comma"@,
        TokenType::Dot => "Dot"@,
        TokenType::Minus => "Minus"@,
        TokenType::Plus => "Plus"@,
        TokenType::Semicolon => "Semicolon"@,
        TokenType::Slash => "Slash"@,
        TokenType::Star => "Star"@,
        TokenType::Bang => "Bang"@,
        TokenType::BangEqual => "BangEqual"@,
        TokenType::Equal => "Equal"@,
        TokenType::EqualEqual => "EqualEqual"@,
        TokenType::Greater => "Greater"@,
        TokenType::GreaterEqual => "GreaterEqual"@,
        TokenType::Less => "Less"@,
        TokenType::LessEqual => "LessEqual"@,
        TokenType::Identifier => "Identifier"@,
        TokenType::Str => "Str"@,
        TokenType::Integer => "Integer"@,
        TokenType::Float => "Float"@,
        TokenType::Comment => "Comment"@,
        TokenType::And => "And"@,
        TokenType::Class => "Class"@,
        TokenType::Else => "Else"@,
        TokenType::False => "False"@,
        TokenType::Fun => "Fun"@,
        TokenType::For => "For"@,
        TokenType::If => "If"@,
        TokenType::Nil => "Nil"@,
        TokenType::Or => "Or"@,
        TokenType::Print => "Print"@,
        TokenType::Return => "Return"@,
        TokenType::Super => "Super"@,
        TokenType::This => "This"@,
        TokenType::True => "True"@,
        TokenType::Var => "Var"@,
        TokenType::While => "While"@,
        TokenType::Whitespace => "Whitespace"@,
        TokenType::Newline => "Newline"@,
        TokenType::Unknown => "Unknown"@,
        TokenType::Eof => "Eof"@,
    }
}

/// What went wrong, in words.
pub open spec fn reason_text(r: Reason) -> Seq<char> {
    match r {
        Reason::Expected(k) => "expected "@ + kind_name(k) + " after expression"@,
        Reason::InvalidTarget => "Invalid assignment target."@,
        Reason::ExpectedLiteral => "Expected literal"@,
        Reason::NoProgress => "no progress"@,
    }
}

/// The message of a failure: what went wrong, then where.
pub open spec fn error_text(ts: Seq<Token>, f: Failure) -> Seq<char> {
    let m = reason_text(f.reason);
    if 0 <= f.at < ts.len() {
        let t = ts[f.at];
        let place = decimal(t.line_number as nat) + ":"@ + decimal(t.column_number as nat);
        if t.token_type == TokenType::Eof {
            m + " at end of file "@ + place
        } else {
            m + " at '"@ + t.lexeme@ + "' line "@ + place
        }
    } else {
        "unexpected EOF: "@ + m
    }
}

/// The model of an optional statement.
pub open spec fn option_model(s: Option<Statement>) -> Option<StatementModel> {
    match s {
        Some(s) => Some(s.model()),
        None => None,
    }
}

/// The expression in an optional box.
pub open spec fn option_unbox(e: Option<Box<Expr>>) -> Option<Expr> {
    match e {
        Some(e) => Some(*e),
        None => None,
    }
}

/// The result of an expression rule agrees with its grammar.
pub open spec fn expr_agrees(
    r: Result<Box<Expr>, ParseError>,
    s: Result<(Expr, int), Failure>,
    cur: int,
    ts: Seq<Token>,
) -> bool {
    match s {
        Ok((e, q)) => r is Ok && *r->Ok_0 == e && cur == q,
        Err(f) => r is Err && r->Err_0.message@ == error_text(ts, f),
    }
}

/// The result of a statement rule agrees with its grammar.
pub open spec fn stmt_agrees(
    r: Result<Statement, ParseError>,
    s: Result<(StatementModel, int), Failure>,
    cur: int,
    ts: Seq<Token>,
) -> bool {
    match s {
        Ok((m, q)) => r is Ok && r->Ok_0.model() == m && cur == q,
        Err(f) => r is Err && r->Err_0.message@ == error_text(ts, f),
    }
}

} // verus!

verus! {

/// The name of a token kind, as it appears in messages.
pub fn token_type_name(k: TokenType) -> (r: &'static str)
    ensures
        r@ == kind_name(k),
{
    match k {
        TokenType::LeftParen => "LeftParen",
        TokenType::RightParen => "RightParen",
        TokenType::LeftBrace => "LeftBrace",
        TokenType::RightBrace => "RightBrace",
        TokenType::Comma => "Comma",
        TokenType::Dot => "Dot",
        TokenType::Minus => "Minus",
        TokenType::Plus => "Plus",
        TokenType::Semicolon => "Semicolon",
        TokenType::Slash => "Slash",
        TokenType::Star => "Star",
        TokenType::Bang => "Bang",
        TokenType::BangEqual => "BangEqual",
        TokenType::Equal => "Equal",
        TokenType::EqualEqual => "EqualEqual",
        TokenType::Greater => "Greater",
        TokenType::GreaterEqual => "GreaterEqual",
        TokenType::Less => "Less",
        TokenType::LessEqual => "LessEqual",
        TokenType::Identifier => "Identifier",
        TokenType::Str => "Str",
        TokenType::Integer => "Integer",
        TokenType::Float => "Float",
        TokenType::Comment => "Comment",
        TokenType::And => "And",
        TokenType::Class => "Class",
        TokenType::Else => "Else",
        TokenType::False => "False",
        TokenType::Fun => "Fun",
        TokenType::For => "For",
        TokenType::If => "If",
        TokenType::Nil => "Nil",
        TokenType::Or => "Or",
        TokenType::Print => "Print",
        TokenType::Return => "Return",
        TokenType::Super => "Super",
        TokenType::This => "This",
        TokenType::True => "True",
        TokenType::Var => "Var",
        TokenType::While => "While",
        TokenType::Whitespace => "Whitespace",
        TokenType::Newline => "Newline",
        TokenType::Unknown => "Unknown",
        TokenType::Eof => "Eof",
    }
}

/// The operator that a token kind writes, if any.
pub fn operator_from_token(k: TokenType) -> (r: Option<Operator>)
    ensures
        r == operator_of(k),
{
    match k {
        TokenType::Bang => Some(Operator::Bang),
        TokenType::BangEqual => Some(Operator::BangEqual),
        TokenType::Equal => Some(Operator::Equal),
        TokenType::EqualEqual => Some(Operator::EqualEqual),
        TokenType::Greater => Some(Operator::Greater),
        TokenType::GreaterEqual => Some(Operator::GreaterEqual),
        TokenType::Less => Some(Operator::Less),
        TokenType::LessEqual => Some(Operator::LessEqual),
        TokenType::Minus => Some(Operator::Subtract),
        TokenType::Plus => Some(Operator::Add),
        TokenType::Star => Some(Operator::Multiply),
        TokenType::Slash => Some(Operator::Divide),
        _ => None,
    }
}

fn level_contains(level: u8, k: TokenType) -> (r: bool)
    ensures
        r == level_has(level as int, k),
{
    if level == 1 {
        k == TokenType::Slash || k == TokenType::Star
    } else if level == 2 {
        k == TokenType::Minus || k == TokenType::Plus
    } else if level == 3 {
        k == TokenType::Greater || k == TokenType::GreaterEqual || k == TokenType::Less
            || k == TokenType::LessEqual
    } else if level == 4 {
        k == TokenType::BangEqual || k == TokenType::EqualEqual
    } else if level == 5 {
        k == TokenType::And
    } else {
        k == TokenType::Or
    }
}

fn join_exprs(level: u8, left: Box<Expr>, k: TokenType, right: Box<Expr>) -> (r: Box<Expr>)
    requires
        1 <= level <= 6,
        level_has(level as int, k),
    ensures
        *r == join(level as int, *left, k, *right),
{
    if level >= 5 {
        Box::new(Expr::Logical(left, k, right))
    } else {
        match operator_from_token(k) {
            Some(op) => Box::new(Expr::Binary(left, op, right)),
            None => Box::new(Expr::Logical(left, k, right)),
        }
    }
}

/// A recursive-descent parser over a token sequence without trivia.
pub struct Parser {
    tokens: Vec<Token>,
    current: usize,
}

impl Parser {
    /// The tokens being parsed.
    pub closed spec fn tokens(&self) -> Seq<Token> {
        self.tokens@
    }

    /// The index of the current token.
    pub closed spec fn position(&self) -> int {
        self.current as int
    }

    /// A parser at the first of `tokens`.
    pub fn new(tokens: Vec<Token>) -> (r: Parser)
        ensures
            r.tokens() == tokens@,
            r.position() == 0,
    {
        Parser { tokens, current: 0 }
    }

    /// Parses a whole program: declarations up to the end of the tokens.
    pub fn parse(&mut self) -> (r: Result<Vec<Statement>, ParseError>)
        requires
            old(self).position() <= old(self).tokens().len(),
        ensures
            final(self).tokens() == old(self).tokens(),
            match program_items(old(self).tokens(), old(self).position(), Seq::empty()) {
                Ok(items) => r is Ok && models(r->Ok_0@) == items,
                Err(f) => r is Err && r->Err_0.message@ == error_text(old(self).tokens(), f),
            },
    {
        let ghost ts = self.tokens@;
        let ghost p0 = self.current as int;
        let mut statements: Vec<Statement> = Vec::new();
        assert(models(statements@) =~= Seq::<StatementModel>::empty());
        while !self.is_at_end()
            invariant
                self.tokens == old(self).tokens,
                self.tokens@ == ts,
                ts == old(self).tokens@,
                p0 == old(self).current,
                p0 <= self.current <= ts.len(),
                program_items(ts, p0, Seq::empty()) == program_items(ts, self.current as int, models(statements@)),
            decreases ts.len() - self.current,
        {
            match self.declaration() {
                Ok(s) => {
                    let ghost prev = statements@;
                    statements.push(s);
                    proof { crate::ast::lemma_models_push(prev, s); }
                },
                Err(e) => return Err(e),
            }
        }
        Ok(statements)
    }

    /// Whether the cursor has reached the end of the tokens.
    fn is_at_end(&self) -> (r: bool)
        ensures
            r == at_end(self.tokens@, self.current as int),
    {
        self.current >= self.tokens.len() || self.tokens[self.current].token_type == TokenType::Eof
    }

    /// Moves to the next token, if there is one.
    fn advance(&mut self)
        requires
            old(self).current < old(self).tokens@.len(),
        ensures
            final(self).tokens == old(self).tokens,
            final(self).current == old(self).current + 1,
    {
        let n = self.tokens.len();
        assert(self.current < n);
        self.current = self.current + 1;
    }

    /// Whether the current token has kind `k`.
    fn check(&self, k: TokenType) -> (r: bool)
        ensures
            r == check(self.tokens@, self.current as int, k),
    {
        self.current < self.tokens.len() && self.tokens[self.current].token_type == k
    }

    /// Consumes the current token where it has kind `k`.
    fn token_match(&mut self, k: TokenType) -> (r: bool)
        requires
            old(self).current <= old(self).tokens@.len(),
        ensures
            final(self).tokens == old(self).tokens,
            r == check(old(self).tokens@, old(self).current as int, k),
            final(self).current == old(self).current + if r { 1int } else { 0int },
    {
        if self.check(k) {
            self.advance();
            true
        } else {
            false
        }
    }

    /// The error for `reason` at the current token.
    fn error(&self, reason: Reason) -> (r: ParseError)
        ensures
            r.message@ == error_text(self.tokens@, fail(self.current as int, reason)),
    {
        let mut m: Vec<char> = Vec::new();
        match reason {
            Reason::Expected(k) => {
                push_str(&mut m, "expected ");
                push_str(&mut m, token_type_name(k));
                push_str(&mut m, " after expression");
            },
            Reason::InvalidTarget => push_str(&mut m, "Invalid assignment target."),
            Reason::ExpectedLiteral => push_str(&mut m, "Expected literal"),
            Reason::NoProgress => push_str(&mut m, "no progress"),
        }
        assert(m@ =~= reason_text(reason));
        let mut out: Vec<char> = Vec::new();
        if self.current < self.tokens.len() {
            let t = &self.tokens[self.current];
            out = m;
            if t.token_type == TokenType::Eof {
                push_str(&mut out, " at end of file ");
            } else {
                push_str(&mut out, " at '");
                push_str(&mut out, t.lexeme.as_str());
                push_str(&mut out, "' line ");
            }
            push_decimal(&mut out, t.line_number as u64);
            push_str(&mut out, ":");
            push_decimal(&mut out, t.column_number as u64);
            assert(out@ =~= error_text(self.tokens@, fail(self.current as int, reason)));
        } else {
            push_str(&mut out, "unexpected EOF: ");
            let mut k: usize = 0;
            let ghost start = out@;
            while k < m.len()
                invariant
                    k <= m@.len(),
                    out@ == start + m@.subrange(0, k as int),
                decreases m@.len() - k,
            {
                out.push(m[k]);
                k = k + 1;
                assert(out@ =~= start + m@.subrange(0, k as int));
            }
            assert(m@.subrange(0, k as int) =~= m@);
            assert(out@ =~= error_text(self.tokens@, fail(self.current as int, reason)));
        }
        ParseError { message: string_of(&out) }
    }

    /// Consumes a token of kind `k`, or fails.
    fn consume(&mut self, k: TokenType) -> (r: Result<Token, ParseError>)
        requires
            old(self).current <= old(self).tokens@.len(),
        ensures
            final(self).tokens == old(self).tokens,
            final(self).current <= final(self).tokens@.len(),
            r is Err ==> final(self).current == old(self).current,
            match expect(old(self).tokens@, old(self).current as int, k) {
                Ok(q) => r is Ok && r->Ok_0 == old(self).tokens@[old(self).current as int]
                    && final(self).current == q,
                Err(f) => r is Err && r->Err_0.message@ == error_text(old(self).tokens@, f),
            },
    {
        if self.check(k) {
            let t = self.tokens[self.current].duplicate();
            self.advance();
            Ok(t)
        } else {
            Err(self.error(Reason::Expected(k)))
        }
    }
}

impl Parser {
    /// primary := "false" | "true" | INTEGER | FLOAT | STRING | IDENT | "(" expression ")"
    fn primary(&mut self) -> (r: Result<Box<Expr>, ParseError>)
        requires
            old(self).current <= old(self).tokens@.len(),
        ensures
            final(self).tokens == old(self).tokens,
            final(self).current <= final(self).tokens@.len(),
            r is Ok ==> final(self).current > old(self).current,
            !starts_primary(old(self).tokens@, old(self).current as int) ==> final(self).current == old(self).current,
            expr_agrees(r, primary(old(self).tokens@, old(self).current as int), final(self).current as int, old(self).tokens@),
        decreases old(self).tokens@.len() - old(self).current, 0int,
    {
        let p = self.current;
        if self.token_match(TokenType::False) {
            return Ok(Box::new(Expr::BoolLiteral(false)));
        }
        if self.token_match(TokenType::True) {
            return Ok(Box::new(Expr::BoolLiteral(true)));
        }
        if self.token_match(TokenType::Integer) {
            return Ok(Box::new(Expr::IntegerLiteral(self.tokens[p].lexeme.clone())));
        }
        if self.token_match(TokenType::Float) {
            return Ok(Box::new(Expr::FloatLiteral(self.tokens[p].lexeme.clone())));
        }
        if self.token_match(TokenType::Str) {
            return Ok(Box::new(Expr::StringLiteral(self.tokens[p].lexeme.clone())));
        }
        if self.token_match(TokenType::Identifier) {
            return Ok(Box::new(Expr::Variable(self.tokens[p].duplicate())));
        }
        if self.token_match(TokenType::LeftParen) {
            let e = match self.expression() {
                Ok(e) => e,
                Err(err) => return Err(err),
            };
            return match self.consume(TokenType::RightParen) {
                Ok(_) => Ok(Box::new(Expr::Grouping(e))),
                Err(err) => Err(err),
            };
        }
        Err(self.error(Reason::ExpectedLiteral))
    }

    /// unary := ("!" | "-") unary | primary
    fn unary(&mut self) -> (r: Result<Box<Expr>, ParseError>)
        requires
            old(self).current <= old(self).tokens@.len(),
        ensures
            final(self).tokens == old(self).tokens,
            final(self).current <= final(self).tokens@.len(),
            r is Ok ==> final(self).current > old(self).current,
            expr_agrees(r, unary(old(self).tokens@, old(self).current as int), final(self).current as int, old(self).tokens@),
        decreases old(self).tokens@.len() - old(self).current, 1int,
    {
        let p = self.current;
        if self.token_match(TokenType::Bang) || self.token_match(TokenType::Minus) {
            let op = if self.tokens[p].token_type == TokenType::Bang { Operator::Bang } else { Operator::Subtract };
            return match self.unary() {
                Ok(e) => Ok(Box::new(Expr::Unary(op, e))),
                Err(err) => Err(err),
            };
        }
        self.primary()
    }

    /// An operand of binary level `level`.
    fn operand(&mut self, level: u8) -> (r: Result<Box<Expr>, ParseError>)
        requires
            old(self).current <= old(self).tokens@.len(),
            1 <= level <= 6,
        ensures
            final(self).tokens == old(self).tokens,
            final(self).current <= final(self).tokens@.len(),
            r is Ok ==> final(self).current > old(self).current,
            expr_agrees(r, operand(old(self).tokens@, old(self).current as int, level as int), final(self).current as int, old(self).tokens@),
        decreases old(self).tokens@.len() - old(self).current, 2 * level,
    {
        if level == 1 {
            self.unary()
        } else {
            self.binary(level - 1)
        }
    }

    /// One binary level: operand ( op operand )*, left-associative.
    fn binary(&mut self, level: u8) -> (r: Result<Box<Expr>, ParseError>)
        requires
            old(self).current <= old(self).tokens@.len(),
            1 <= level <= 6,
        ensures
            final(self).tokens == old(self).tokens,
            final(self).current <= final(self).tokens@.len(),
            r is Ok ==> final(self).current > old(self).current,
            expr_agrees(r, binary(old(self).tokens@, old(self).current as int, level as int), final(self).current as int, old(self).tokens@),
        decreases old(self).tokens@.len() - old(self).current, 2 * level + 1,
    {
        let ghost ts = self.tokens@;
        let ghost p0 = self.current as int;
        let mut expr = match self.operand(level) {
            Ok(e) => e,
            Err(err) => return Err(err),
        };
        loop
            invariant
                self.tokens == old(self).tokens,
                self.tokens@ == ts,
                ts == old(self).tokens@,
                p0 == old(self).current,
                p0 < self.current <= ts.len(),
                1 <= level <= 6,
                binary(ts, p0, level as int) == binary_rest(ts, self.current as int, *expr, level as int),
            decreases ts.len() - self.current,
        {
            if self.current < self.tokens.len() && level_contains(level, self.tokens[self.current].token_type) {
                let k = self.tokens[self.current].token_type;
                self.advance();
                let right = match self.operand(level) {
                    Ok(e) => e,
                    Err(err) => return Err(err),
                };
                expr = join_exprs(level, expr, k, right);
            } else {
                return Ok(expr);
            }
        }
    }

    /// logic_or := logic_and ( "or" logic_and )*
    fn or(&mut self) -> (r: Result<Box<Expr>, ParseError>)
        requires
            old(self).current <= old(self).tokens@.len(),
        ensures
            final(self).tokens == old(self).tokens,
            final(self).current <= final(self).tokens@.len(),
            r is Ok ==> final(self).current > old(self).current,
            expr_agrees(r, binary(old(self).tokens@, old(self).current as int, 6), final(self).current as int, old(self).tokens@),
        decreases old(self).tokens@.len() - old(self).current, 14int,
    {
        self.binary(6)
    }

    /// assignment := IDENT "=" assignment | logic_or
    fn assignment(&mut self) -> (r: Result<Box<Expr>, ParseError>)
        requires
            old(self).current <= old(self).tokens@.len(),
        ensures
            final(self).tokens == old(self).tokens,
            final(self).current <= final(self).tokens@.len(),
            r is Ok ==> final(self).current > old(self).current,
            expr_agrees(r, assignment(old(self).tokens@, old(self).current as int), final(self).current as int, old(self).tokens@),
        decreases old(self).tokens@.len() - old(self).current, 15int,
    {
        let expr = match self.or() {
            Ok(e) => e,
            Err(err) => return Err(err),
        };
        if self.token_match(TokenType::Equal) {
            let value = match self.assignment() {
                Ok(v) => v,
                Err(err) => return Err(err),
            };
            return match *expr {
                Expr::Variable(name) => Ok(Box::new(Expr::Assign(name, value))),
                _ => Err(self.error(Reason::InvalidTarget)),
            };
        }
        Ok(expr)
    }

    /// expression := assignment
    fn expression(&mut self) -> (r: Result<Box<Expr>, ParseError>)
        requires
            old(self).current <= old(self).tokens@.len(),
        ensures
            final(self).tokens == old(self).tokens,
            final(self).current <= final(self).tokens@.len(),
            r is Ok ==> final(self).current > old(self).current,
            expr_agrees(r, expression(old(self).tokens@, old(self).current as int), final(self).current as int, old(self).tokens@),
        decreases old(self).tokens@.len() - old(self).current, 16int,
    {
        self.assignment()
    }
}

impl Parser {
    /// declaration := varDecl | statement
    fn declaration(&mut self) -> (r: Result<Statement, ParseError>)
        requires
            old(self).current <= old(self).tokens@.len(),
        ensures
            final(self).tokens == old(self).tokens,
            final(self).current <= final(self).tokens@.len(),
            r is Ok ==> final(self).current > old(self).current,
            stmt_agrees(r, declaration(old(self).tokens@, old(self).current as int), final(self).current as int, old(self).tokens@),
        decreases old(self).tokens@.len() - old(self).current, 20int,
    {
        if self.token_match(TokenType::Var) {
            return self.var_declaration();
        }
        self.statement()
    }

    /// varDecl := "var" IDENT ( "=" expression )? ";", from after `var`.
    fn var_declaration(&mut self) -> (r: Result<Statement, ParseError>)
        requires
            old(self).current <= old(self).tokens@.len(),
        ensures
            final(self).tokens == old(self).tokens,
            final(self).current <= final(self).tokens@.len(),
            r is Ok ==> final(self).current > old(self).current,
            stmt_agrees(r, var_declaration(old(self).tokens@, old(self).current as int), final(self).current as int, old(self).tokens@),
        decreases old(self).tokens@.len() - old(self).current, 17int,
    {
        let name = match self.consume(TokenType::Identifier) {
            Ok(t) => t,
            Err(err) => return Err(err),
        };
        let mut initializer: Option<Box<Expr>> = None;
        if self.token_match(TokenType::Equal) {
            match self.expression() {
                Ok(e) => initializer = Some(e),
                Err(err) => return Err(err),
            }
        }
        match self.consume(TokenType::Semicolon) {
            Ok(_) => Ok(Statement::Var(name, initializer)),
            Err(err) => Err(err),
        }
    }

    /// statement := printStmt | ifStmt | whileStmt | forStmt | block | exprStmt
    fn statement(&mut self) -> (r: Result<Statement, ParseError>)
        requires
            old(self).current <= old(self).tokens@.len(),
        ensures
            final(self).tokens == old(self).tokens,
            final(self).current <= final(self).tokens@.len(),
            r is Ok ==> final(self).current > old(self).current,
            stmt_agrees(r, statement(old(self).tokens@, old(self).current as int), final(self).current as int, old(self).tokens@),
        decreases old(self).tokens@.len() - old(self).current, 19int,
    {
        if self.token_match(TokenType::For) {
            return self.for_statement();
        }
        if self.token_match(TokenType::If) {
            return self.if_statement();
        }
        if self.token_match(TokenType::Print) {
            return self.print_statement();
        }
        if self.token_match(TokenType::While) {
            return self.while_statement();
        }
        if self.token_match(TokenType::LeftBrace) {
            return match self.block() {
                Ok(items) => {
                    proof { crate::ast::lemma_block_model(&items); }
                    Ok(Statement::Block(items))
                },
                Err(err) => Err(err),
            };
        }
        self.expression_statement()
    }

    /// forStmt, from after `for`, desugared into a `while` loop.
    #[verifier::rlimit(100)]
    #[verifier::spinoff_prover]
    fn for_statement(&mut self) -> (r: Result<Statement, ParseError>)
        requires
            old(self).current <= old(self).tokens@.len(),
        ensures
            final(self).tokens == old(self).tokens,
            final(self).current <= final(self).tokens@.len(),
            r is Ok ==> final(self).current > old(self).current,
            stmt_agrees(r, for_statement(old(self).tokens@, old(self).current as int), final(self).current as int, old(self).tokens@),
        decreases old(self).tokens@.len() - old(self).current, 18int,
    {
        match self.consume(TokenType::LeftParen) {
            Ok(_) => {},
            Err(err) => return Err(err),
        }
        let initializer: Option<Statement> = if self.token_match(TokenType::Semicolon) {
            None
        } else if self.token_match(TokenType::Var) {
            match self.var_declaration() {
                Ok(s) => Some(s),
                Err(err) => return Err(err),
            }
        } else {
            match self.expression_statement() {
                Ok(s) => Some(s),
                Err(err) => return Err(err),
            }
        };
        let ghost init_model = option_model(initializer);
        let condition: Box<Expr> = if !self.check(TokenType::Semicolon) {
            match self.expression() {
                Ok(e) => e,
                Err(err) => return Err(err),
            }
        } else {
            Box::new(Expr::BoolLiteral(true))
        };
        match self.consume(TokenType::Semicolon) {
            Ok(_) => {},
            Err(err) => return Err(err),
        }
        let increment: Option<Box<Expr>> = if !self.check(TokenType::RightParen) {
            match self.expression() {
                Ok(e) => Some(e),
                Err(err) => return Err(err),
            }
        } else {
            None
        };
        let ghost step_model = option_unbox(increment);
        match self.consume(TokenType::RightParen) {
            Ok(_) => {},
            Err(err) => return Err(err),
        }
        let body = match self.statement() {
            Ok(s) => s,
            Err(err) => return Err(err),
        };
        let ghost body_model = body.model();
        let body = match increment {
            Some(step) => {
                let ghost sm = *step;
                let items = vec![body, Statement::Expression(step)];
                proof {
                    crate::ast::lemma_block_model(&items);
                    assert(models(items@) =~= seq![body_model, StatementModel::Expression(sm)]);
                }
                Statement::Block(items)
            },
            None => body,
        };
        let looped = Statement::While(condition, Box::new(body));
        let result = match initializer {
            Some(init) => {
                let ghost im = init.model();
                let ghost lm = looped.model();
                let items = vec![init, looped];
                proof {
                    crate::ast::lemma_block_model(&items);
                    assert(models(items@) =~= seq![im, lm]);
                }
                Statement::Block(items)
            },
            None => looped,
        };
        assert(result.model() == desugar_for(init_model, *condition, step_model, body_model));
        Ok(result)
    }

    /// ifStmt, from after `if`.
    fn if_statement(&mut self) -> (r: Result<Statement, ParseError>)
        requires
            old(self).current <= old(self).tokens@.len(),
        ensures
            final(self).tokens == old(self).tokens,
            final(self).current <= final(self).tokens@.len(),
            r is Ok ==> final(self).current > old(self).current,
            stmt_agrees(r, if_statement(old(self).tokens@, old(self).current as int), final(self).current as int, old(self).tokens@),
        decreases old(self).tokens@.len() - old(self).current, 17int,
    {
        match self.consume(TokenType::LeftParen) {
            Ok(_) => {},
            Err(err) => return Err(err),
        }
        let condition = match self.expression() {
            Ok(e) => e,
            Err(err) => return Err(err),
        };
        match self.consume(TokenType::RightParen) {
            Ok(_) => {},
            Err(err) => return Err(err),
        }
        let then_branch = match self.statement() {
            Ok(s) => Box::new(s),
            Err(err) => return Err(err),
        };
        let else_branch = if self.token_match(TokenType::Else) {
            match self.statement() {
                Ok(s) => Some(Box::new(s)),
                Err(err) => return Err(err),
            }
        } else {
            None
        };
        Ok(Statement::If(condition, then_branch, else_branch))
    }

    /// whileStmt, from after `while`.
    fn while_statement(&mut self) -> (r: Result<Statement, ParseError>)
        requires
            old(self).current <= old(self).tokens@.len(),
        ensures
            final(self).tokens == old(self).tokens,
            final(self).current <= final(self).tokens@.len(),
            r is Ok ==> final(self).current > old(self).current,
            stmt_agrees(r, while_statement(old(self).tokens@, old(self).current as int), final(self).current as int, old(self).tokens@),
        decreases old(self).tokens@.len() - old(self).current, 17int,
    {
        match self.consume(TokenType::LeftParen) {
            Ok(_) => {},
            Err(err) => return Err(err),
        }
        let condition = match self.expression() {
            Ok(e) => e,
            Err(err) => return Err(err),
        };
        match self.consume(TokenType::RightParen) {
            Ok(_) => {},
            Err(err) => return Err(err),
        }
        match self.statement() {
            Ok(body) => Ok(Statement::While(condition, Box::new(body))),
            Err(err) => Err(err),
        }
    }

    /// block := "{" declaration* "}", from after `{`.
    fn block(&mut self) -> (r: Result<Vec<Statement>, ParseError>)
        requires
            old(self).current <= old(self).tokens@.len(),
        ensures
            final(self).tokens == old(self).tokens,
            final(self).current <= final(self).tokens@.len(),
            r is Ok ==> final(self).current > old(self).current,
            match block(old(self).tokens@, old(self).current as int) {
                Ok((items, q)) => r is Ok && models(r->Ok_0@) == items && final(self).current == q,
                Err(f) => r is Err && r->Err_0.message@ == error_text(old(self).tokens@, f),
            },
        decreases old(self).tokens@.len() - old(self).current, 22int,
    {
        let ghost ts = self.tokens@;
        let ghost p0 = self.current as int;
        let mut statements: Vec<Statement> = Vec::new();
        assert(models(statements@) =~= Seq::<StatementModel>::empty());
        while !self.check(TokenType::RightBrace) && !self.is_at_end()
            invariant
                self.tokens == old(self).tokens,
                self.tokens@ == ts,
                p0 <= self.current <= ts.len(),
                ts == old(self).tokens@,
                p0 == old(self).current,
                block(ts, p0) == block_items(ts, self.current as int, models(statements@)),
            decreases ts.len() - self.current,
        {
            match self.declaration() {
                Ok(s) => {
                    let ghost prev = statements@;
                    statements.push(s);
                    proof { crate::ast::lemma_models_push(prev, s); }
                },
                Err(err) => return Err(err),
            }
        }
        match self.consume(TokenType::RightBrace) {
            Ok(_) => Ok(statements),
            Err(err) => Err(err),
        }
    }

    /// printStmt, from after `print`.
    fn print_statement(&mut self) -> (r: Result<Statement, ParseError>)
        requires
            old(self).current <= old(self).tokens@.len(),
        ensures
            final(self).tokens == old(self).tokens,
            final(self).current <= final(self).tokens@.len(),
            r is Ok ==> final(self).current > old(self).current,
            stmt_agrees(r, print_statement(old(self).tokens@, old(self).current as int), final(self).current as int, old(self).tokens@),
        decreases old(self).tokens@.len() - old(self).current, 17int,
    {
        let value = match self.expression() {
            Ok(e) => e,
            Err(err) => return Err(err),
        };
        match self.consume(TokenType::Semicolon) {
            Ok(_) => Ok(Statement::Print(value)),
            Err(err) => Err(err),
        }
    }

    /// exprStmt := expression ";"
    fn expression_statement(&mut self) -> (r: Result<Statement, ParseError>)
        requires
            old(self).current <= old(self).tokens@.len(),
        ensures
            final(self).tokens == old(self).tokens,
            final(self).current <= final(self).tokens@.len(),
            r is Ok ==> final(self).current > old(self).current,
            stmt_agrees(r, expression_statement(old(self).tokens@, old(self).current as int), final(self).current as int, old(self).tokens@),
        decreases old(self).tokens@.len() - old(self).current, 17int,
    {
        let value = match self.expression() {
            Ok(e) => e,
            Err(err) => return Err(err),
        };
        match self.consume(TokenType::Semicolon) {
            Ok(_) => Ok(Statement::Expression(value)),
            Err(err) => Err(err),
        }
    }
}

} // verus!
