use vstd::prelude::*;
use crate::ast::{Expr, Operator, Statement, StatementModel, models};
use crate::parser::{kind_name, token_type_name};
use crate::text::{push_str, string_of};

verus! {

broadcast use vstd::std_specs::vec::group_vec_axioms;

/// A walk over the syntax tree that yields a `T` for each node.
pub trait Visitor<T> {
    fn visit_expr(&mut self, e: &Expr) -> T;

    fn visit_statement(&mut self, s: &Statement) -> T;
}

/// Writes syntax trees as indented text, for reading while debugging.
pub struct AstPrinter {
    pub indent: u32,
}

/// How an operator is written.
pub open spec fn operator_text(op: Operator) -> Seq<char> {
    match op {
        Operator::Bang => "!"@,
        Operator::BangEqual => "!="@,
        Operator::Equal => "="@,
        Operator::EqualEqual => "=="@,
        Operator::Greater => ">"@,
        Operator::GreaterEqual => ">="@,
        Operator::Less => "<"@,
        Operator::LessEqual => "<="@,
        Operator::Add => "+"@,
        Operator::Subtract => "-"@,
        Operator::Divide => "/"@,
        Operator::Multiply => "*"@,
    }
}

/// An expression as text: operators first and parenthesized, groupings
/// without their parentheses.
pub open spec fn expr_text(e: Expr) -> Seq<char>
    decreases e,
{
    match e {
        Expr::BoolLiteral(b) => if b { "true"@ } else { "false"@ },
        Expr::StringLiteral(t) => t@,
        Expr::IntegerLiteral(t) => t@,
        Expr::FloatLiteral(t) => t@,
        Expr::Logical(l, k, r) => expr_text(*l) + " "@ + kind_name(k) + " "@ + expr_text(*r),
        Expr::Unary(op, r) => "("@ + operator_text(op) + " "@ + expr_text(*r) + ")"@,
        Expr::Binary(l, op, r) => "("@ + operator_text(op) + " "@ + expr_text(*l) + " "@ + expr_text(*r) + ")"@,
        Expr::Grouping(inner) => expr_text(*inner),
        Expr::Variable(name) => name.lexeme@,
        Expr::Assign(name, value) => name.lexeme@ + " = "@ + expr_text(*value),
    }
}

/// `n` spaces.
pub open spec fn pad(n: nat) -> Seq<char> {
    Seq::new(n, |i: int| ' ')
}

/// The indentation of the statements inside a block.
pub open spec fn deeper(indent: nat) -> nat {
    if indent + 2 > u32::MAX { u32::MAX as nat } else { indent + 2 }
}

/// A statement as text, a block's statements one per line and indented two
/// more spaces than its closing brace.
pub open spec fn statement_text(s: StatementModel, indent: nat) -> Seq<char>
    decreases s, 0nat,
{
    match s {
        StatementModel::Expression(e) => expr_text(e),
        StatementModel::If(c, t, e) => match e {
            Some(e) => "if "@ + expr_text(c) + " then "@ + statement_text(*t, indent) + " else "@
                + statement_text(*e, indent),
            None => "if "@ + expr_text(c) + " then "@ + statement_text(*t, indent),
        },
        StatementModel::Print(e) => "print "@ + expr_text(e) + ";"@,
        StatementModel::While(c, body) => "while "@ + expr_text(c) + " "@ + statement_text(*body, indent),
        StatementModel::Var(name, init) => match init {
            Some(e) => "var "@ + name.lexeme@ + " = "@ + expr_text(e) + ";"@,
            None => "var "@ + name.lexeme@ + ";"@,
        },
        StatementModel::Block(items) => "{\n"@ + block_lines(items, deeper(indent), 0) + "\n"@ + pad(indent)
            + "}"@,
    }
}

/// The lines of `items[i..]`, each indented, joined by newlines.
pub open spec fn block_lines(items: Seq<StatementModel>, indent: nat, i: int) -> Seq<char>
    decreases items, items.len() - i,
{
    if i < 0 || i >= items.len() {
        Seq::empty()
    } else if i + 1 == items.len() {
        pad(indent) + statement_text(items[i], indent)
    } else {
        pad(indent) + statement_text(items[i], indent) + "\n"@ + block_lines(items, indent, i + 1)
    }
}

/// How an operator is written.
fn operator_string(op: Operator) -> (r: &'static str)
    ensures
        r@ == operator_text(op),
{
    match op {
        Operator::Bang => "!",
        Operator::BangEqual => "!=",
        Operator::Equal => "=",
        Operator::EqualEqual => "==",
        Operator::Greater => ">",
        Operator::GreaterEqual => ">=",
        Operator::Less => "<",
        Operator::LessEqual => "<=",
        Operator::Add => "+",
        Operator::Subtract => "-",
        Operator::Divide => "/",
        Operator::Multiply => "*",
    }
}

/// Appends `amount` spaces and then `string`.
pub fn left_pad(out: &mut Vec<char>, amount: u32, string: &str)
    ensures
        final(out)@ == old(out)@ + pad(amount as nat) + string@,
{
    let mut k: u32 = 0;
    while k < amount
        invariant
            k <= amount,
            out@ == old(out)@ + pad(k as nat),
        decreases amount - k,
    {
        out.push(' ');
        k = k + 1;
        assert(out@ =~= old(out)@ + pad(k as nat));
    }
    push_str(out, string);
}

/// Appends the text of an expression.
fn write_expr(out: &mut Vec<char>, e: &Expr)
    ensures
        final(out)@ == old(out)@ + expr_text(*e),
    decreases e,
{
    let ghost start = out@;
    match e {
        Expr::BoolLiteral(b) => push_str(out, if *b { "true" } else { "false" }),
        Expr::StringLiteral(t) => push_str(out, t.as_str()),
        Expr::IntegerLiteral(t) => push_str(out, t.as_str()),
        Expr::FloatLiteral(t) => push_str(out, t.as_str()),
        Expr::Logical(l, k, r) => {
            write_expr(out, l);
            push_str(out, " ");
            push_str(out, token_type_name(*k));
            push_str(out, " ");
            write_expr(out, r);
        },
        Expr::Unary(op, r) => {
            push_str(out, "(");
            push_str(out, operator_string(*op));
            push_str(out, " ");
            write_expr(out, r);
            push_str(out, ")");
        },
        Expr::Binary(l, op, r) => {
            push_str(out, "(");
            push_str(out, operator_string(*op));
            push_str(out, " ");
            write_expr(out, l);
            push_str(out, " ");
            write_expr(out, r);
            push_str(out, ")");
        },
        Expr::Grouping(inner) => write_expr(out, inner),
        Expr::Variable(name) => push_str(out, name.lexeme.as_str()),
        Expr::Assign(name, value) => {
            push_str(out, name.lexeme.as_str());
            push_str(out, " = ");
            write_expr(out, value);
        },
    }
    assert(out@ =~= start + expr_text(*e));
}

/// The indentation of the statements inside a block.
fn deeper_indent(indent: u32) -> (r: u32)
    ensures
        r as nat == deeper(indent as nat),
{
    if indent > u32::MAX - 2 { u32::MAX } else { indent + 2 }
}

/// Appends the text of a statement.
fn write_statement(out: &mut Vec<char>, s: &Statement, indent: u32)
    ensures
        final(out)@ == old(out)@ + statement_text(s.model(), indent as nat),
    decreases s, 0int,
{
    let ghost start = out@;
    match s {
        Statement::Expression(e) => write_expr(out, e),
        Statement::If(c, t, e) => {
            push_str(out, "if ");
            write_expr(out, c);
            push_str(out, " then ");
            write_statement(out, t, indent);
            match e {
                Some(e) => {
                    push_str(out, " else ");
                    write_statement(out, e, indent);
                },
                None => {},
            }
        },
        Statement::Print(e) => {
            push_str(out, "print ");
            write_expr(out, e);
            push_str(out, ";");
        },
        Statement::While(c, body) => {
            push_str(out, "while ");
            write_expr(out, c);
            push_str(out, " ");
            write_statement(out, body, indent);
        },
        Statement::Var(name, init) => {
            push_str(out, "var ");
            push_str(out, name.lexeme.as_str());
            match init {
                Some(e) => {
                    push_str(out, " = ");
                    write_expr(out, e);
                },
                None => {},
            }
            push_str(out, ";");
        },
        Statement::Block(items) => {
            proof { crate::ast::lemma_block_model(items); }
            push_str(out, "{\n");
            write_block(out, items, deeper_indent(indent));
            push_str(out, "\n");
            left_pad(out, indent, "}");
        },
    }
    assert(out@ =~= start + statement_text(s.model(), indent as nat));
}

/// Appends the lines of a block's statements.
fn write_block(out: &mut Vec<char>, items: &Vec<Statement>, indent: u32)
    ensures
        final(out)@ == old(out)@ + block_lines(models(items@), indent as nat, 0),
    decreases items, 1int,
{
    let ghost ms = models(items@);
    let ghost start = out@;
    let mut i: usize = 0;
    assert(out@ + block_lines(ms, indent as nat, 0) =~= start + block_lines(ms, indent as nat, 0));
    while i < items.len()
        invariant
            i <= items@.len(),
            ms == models(items@),
            out@ + block_lines(ms, indent as nat, i as int) == start + block_lines(ms, indent as nat, 0),
        decreases items@.len() - i,
    {
        let ghost before = out@;
        assert(ms[i as int] == items@[i as int].model());
        proof { reveal_strlit(""); }
        left_pad(out, indent, "");
        write_statement(out, &items[i], indent);
        if i + 1 < items.len() {
            push_str(out, "\n");
        }
        assert(out@ + block_lines(ms, indent as nat, i + 1) =~= before + block_lines(ms, indent as nat, i as int));
        i = i + 1;
    }
    assert(out@ =~= start + block_lines(ms, indent as nat, 0));
}

impl AstPrinter {
    /// The text of an expression.
    pub fn expr_string(&self, e: &Expr) -> (r: String)
        ensures
            r@ == expr_text(*e),
    {
        let mut out: Vec<char> = Vec::new();
        write_expr(&mut out, e);
        assert(out@ =~= expr_text(*e));
        string_of(&out)
    }

    /// The text of a statement, at the printer's indentation.
    pub fn statement_string(&self, s: &Statement) -> (r: String)
        ensures
            r@ == statement_text(s.model(), self.indent as nat),
    {
        let mut out: Vec<char> = Vec::new();
        write_statement(&mut out, s, self.indent);
        assert(out@ =~= statement_text(s.model(), self.indent as nat));
        string_of(&out)
    }
}

impl Visitor<String> for AstPrinter {
    fn visit_expr(&mut self, e: &Expr) -> String {
        self.expr_string(e)
    }

    fn visit_statement(&mut self, s: &Statement) -> String {
        self.statement_string(s)
    }
}

} // verus!
