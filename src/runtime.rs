use vstd::prelude::*;
use crate::ast::{Expr, Operator, Statement, StatementModel};
use crate::text::{chars_of, decimal_value, is_digit, parse_decimal, push_signed_decimal, push_str, signed_decimal, string_of};
use crate::token::TokenType;

verus! {

/// A runtime value as a mathematical value. A float is held as the bit
/// pattern of an IEEE-754 double.
pub enum Value {
    Nil,
    Float(u64),
    Integer(i64),
    Boolean(bool),
    Str(Seq<char>),
}

/// One scope: bindings from names to values; the last binding of a name
/// is the one in force.
pub type ScopeModel = Seq<(Seq<char>, Value)>;

/// What evaluation can see and change: the stack of scopes, innermost last,
/// and the lines printed so far.
pub struct World {
    pub scopes: Seq<ScopeModel>,
    pub output: Seq<Seq<char>>,
}

/// The index of the binding of `name` in force in `scope`, or -1.
pub open spec fn find_binding(scope: ScopeModel, name: Seq<char>) -> int
    decreases scope.len(),
{
    if scope.len() == 0 {
        -1
    } else if scope.last().0 == name {
        scope.len() - 1
    } else {
        find_binding(scope.drop_last(), name)
    }
}

/// The index of the innermost scope that binds `name`, or -1.
pub open spec fn find_scope(scopes: Seq<ScopeModel>, name: Seq<char>) -> int
    decreases scopes.len(),
{
    if scopes.len() == 0 {
        -1
    } else if find_binding(scopes.last(), name) >= 0 {
        scopes.len() - 1
    } else {
        find_scope(scopes.drop_last(), name)
    }
}

/// The value of `name`, searching from the innermost scope outwards.
pub open spec fn lookup(scopes: Seq<ScopeModel>, name: Seq<char>) -> Option<Value> {
    let j = find_scope(scopes, name);
    if j < 0 {
        None
    } else {
        Some(scopes[j][find_binding(scopes[j], name)].1)
    }
}

/// `scope` with `name` bound to `v`: the binding in force is overwritten,
/// or a new one added.
pub open spec fn scope_set(scope: ScopeModel, name: Seq<char>, v: Value) -> ScopeModel {
    let i = find_binding(scope, name);
    if i < 0 {
        scope.push((name, v))
    } else {
        scope.update(i, (name, v))
    }
}

/// The scopes after declaring `name` as `v` in the innermost scope.
pub open spec fn define(scopes: Seq<ScopeModel>, name: Seq<char>, v: Value) -> Seq<ScopeModel> {
    scopes.update(scopes.len() - 1, scope_set(scopes.last(), name, v))
}

/// The scopes after assigning `v` to the innermost binding of `name`, or
/// `None` where no scope binds it.
pub open spec fn assign(scopes: Seq<ScopeModel>, name: Seq<char>, v: Value) -> Option<Seq<ScopeModel>> {
    let j = find_scope(scopes, name);
    if j < 0 {
        None
    } else {
        Some(scopes.update(j, scope_set(scopes[j], name, v)))
    }
}

/// The message for a name that no scope binds.
pub open spec fn undefined_text(name: Seq<char>) -> Seq<char> {
    "Undefined variable '"@ + name + "'."@
}

/// How a value's kind is named in messages.
pub open spec fn kind_word(v: Value) -> Seq<char> {
    match v {
        Value::Nil => "nil"@,
        Value::Float(_) => "float"@,
        Value::Integer(_) => "integer"@,
        Value::Boolean(_) => "boolean"@,
        Value::Str(_) => "string"@,
    }
}

/// What a binary operator does, in messages.
pub open spec fn op_word(op: Operator) -> Seq<char> {
    match op {
        Operator::Add => "add"@,
        Operator::Subtract => "subtract"@,
        Operator::Multiply => "multiply"@,
        Operator::Divide => "divide"@,
        Operator::Greater => "compare using >"@,
        Operator::GreaterEqual => "compare using >="@,
        Operator::Less => "compare using <"@,
        Operator::LessEqual => "compare using <="@,
        Operator::EqualEqual => "compare using =="@,
        Operator::BangEqual => "compare using !="@,
        Operator::Bang => "apply !"@,
        Operator::Equal => "apply ="@,
    }
}

/// The message for operands of kinds that `op` does not take.
pub open spec fn mismatch_text(op: Operator, a: Value, b: Value) -> Seq<char> {
    "lhs is "@ + kind_word(a) + " rhs is "@ + kind_word(b) + " cannot "@ + op_word(op)
}

/// Whether a value is a number.
pub open spec fn is_number(v: Value) -> bool {
    v is Integer || v is Float
}

/// The value of an integer literal's text.
pub open spec fn integer_literal(text: Seq<char>) -> Result<Value, Seq<char>> {
    if text.len() > 0 && (forall|k: int| 0 <= k < text.len() ==> is_digit(#[trigger] text[k]))
        && decimal_value(text) <= i64::MAX {
        Ok(Value::Integer(decimal_value(text) as i64))
    } else {
        Err("invalid integer literal"@)
    }
}

/// The contents of a string literal's text, without its quotes.
pub open spec fn unquote(text: Seq<char>) -> Seq<char> {
    if text.len() >= 2 && text[0] == '"' && text.last() == '"' {
        text.subrange(1, text.len() - 1)
    } else {
        text
    }
}

/// One answer of the host's float arithmetic, as the evaluator received it.
pub enum HostAnswer {
    Bits(u64),
    Truth(bool),
    Parsed(Option<u64>),
    Text(Seq<char>),
}

/// Whether `log` begins with `prefix`.
pub open spec fn extends(log: Seq<HostAnswer>, prefix: Seq<HostAnswer>) -> bool {
    prefix.len() <= log.len() && forall|i: int| 0 <= i < prefix.len() ==> log[i] == prefix[i]
}

/// The double that the answer at `p` gives.
pub open spec fn bits_at(log: Seq<HostAnswer>, p: int) -> u64 {
    if 0 <= p < log.len() {
        match log[p] {
            HostAnswer::Bits(b) => b,
            _ => 0,
        }
    } else {
        0
    }
}

/// The truth value that the answer at `p` gives.
pub open spec fn truth_at(log: Seq<HostAnswer>, p: int) -> bool {
    0 <= p < log.len() && log[p] == HostAnswer::Truth(true)
}

/// The parsed literal that the answer at `p` gives.
pub open spec fn parsed_at(log: Seq<HostAnswer>, p: int) -> Option<u64> {
    if 0 <= p < log.len() {
        match log[p] {
            HostAnswer::Parsed(r) => r,
            _ => None,
        }
    } else {
        None
    }
}

/// The text that the answer at `p` gives.
pub open spec fn text_at(log: Seq<HostAnswer>, p: int) -> Seq<char> {
    if 0 <= p < log.len() {
        match log[p] {
            HostAnswer::Text(t) => t,
            _ => Seq::empty(),
        }
    } else {
        Seq::empty()
    }
}

/// The result of a unary operator, and the position of the next host
/// answer: negating a double takes one answer.
pub open spec fn unary_value(op: Operator, v: Value, log: Seq<HostAnswer>, p: int) -> (Result<Value, Seq<char>>, int) {
    match op {
        Operator::Bang => match v {
            Value::Boolean(b) => (Ok(Value::Boolean(!b)), p),
            _ => (Err("operand of '!' must be a boolean"@), p),
        },
        Operator::Subtract => match v {
            Value::Integer(i) => (Ok(Value::Integer(0i64.wrapping_sub(i))), p),
            Value::Float(_) => (Ok(Value::Float(bits_at(log, p))), p + 1),
            _ => (Err("operand of '-' must be a number"@), p),
        },
        _ => (Err("invalid unary operator"@), p),
    }
}

/// A binary operator on two doubles: arithmetic gives a double, a
/// comparison a boolean, each from one host answer.
pub open spec fn float_value(op: Operator, log: Seq<HostAnswer>, p: int) -> (Result<Value, Seq<char>>, int) {
    match op {
        Operator::Add | Operator::Subtract | Operator::Multiply | Operator::Divide =>
            (Ok(Value::Float(bits_at(log, p))), p + 1),
        Operator::Bang | Operator::Equal => (Err("invalid binary operator"@), p),
        _ => (Ok(Value::Boolean(truth_at(log, p))), p + 1),
    }
}

/// The result of a binary operator on two values, and the position of the
/// next host answer. Integers wrap; integer division yields a double (two
/// conversions and a division), and fails on a zero divisor. An integer
/// beside a double is converted first. `==` and `!=` take two numbers, two
/// booleans or two strings; other pairs of kinds are an error.
pub open spec fn binary_value(op: Operator, a: Value, b: Value, log: Seq<HostAnswer>, p: int) -> (Result<Value, Seq<char>>, int) {
    match (a, b) {
        (Value::Integer(x), Value::Integer(y)) => match op {
            Operator::Add => (Ok(Value::Integer(x.wrapping_add(y))), p),
            Operator::Subtract => (Ok(Value::Integer(x.wrapping_sub(y))), p),
            Operator::Multiply => (Ok(Value::Integer(x.wrapping_mul(y))), p),
            Operator::Divide => if y == 0 {
                (Err("division by zero"@), p)
            } else {
                (Ok(Value::Float(bits_at(log, p + 2))), p + 3)
            },
            Operator::Greater => (Ok(Value::Boolean(x > y)), p),
            Operator::GreaterEqual => (Ok(Value::Boolean(x >= y)), p),
            Operator::Less => (Ok(Value::Boolean(x < y)), p),
            Operator::LessEqual => (Ok(Value::Boolean(x <= y)), p),
            Operator::EqualEqual => (Ok(Value::Boolean(x == y)), p),
            Operator::BangEqual => (Ok(Value::Boolean(x != y)), p),
            _ => (Err("invalid binary operator"@), p),
        },
        (Value::Float(_), Value::Float(_)) => float_value(op, log, p),
        (Value::Integer(_), Value::Float(_)) => float_value(op, log, p + 1),
        (Value::Float(_), Value::Integer(_)) => float_value(op, log, p + 1),
        (Value::Boolean(x), Value::Boolean(y)) => match op {
            Operator::EqualEqual => (Ok(Value::Boolean(x == y)), p),
            Operator::BangEqual => (Ok(Value::Boolean(x != y)), p),
            _ => (Err(mismatch_text(op, a, b)), p),
        },
        (Value::Str(x), Value::Str(y)) => match op {
            Operator::EqualEqual => (Ok(Value::Boolean(x == y)), p),
            Operator::BangEqual => (Ok(Value::Boolean(x != y)), p),
            _ => (Err(mismatch_text(op, a, b)), p),
        },
        _ => (Err(mismatch_text(op, a, b)), p),
    }
}

/// The message for a logical operand that is not a boolean.
pub open spec fn logic_text() -> Seq<char> {
    "operand of a logical operator must be a boolean"@
}

/// The message for a condition that is not a boolean.
pub open spec fn condition_text() -> Seq<char> {
    "condition must be a boolean"@
}

/// The message for a loop that ran `u64::MAX` times.
pub open spec fn limit_text() -> Seq<char> {
    "loop iteration limit reached"@
}

/// Evaluating `e` in `w`, the host's float answers read from `log` at `p`:
/// the world after it, the value or the error message, and the position of
/// the next answer.
pub open spec fn eval(w: World, e: Expr, log: Seq<HostAnswer>, p: int) -> (World, Result<Value, Seq<char>>, int)
    decreases e,
{
    match e {
        Expr::BoolLiteral(b) => (w, Ok(Value::Boolean(b)), p),
        Expr::IntegerLiteral(t) => (w, integer_literal(t@), p),
        Expr::FloatLiteral(_) => match parsed_at(log, p) {
            Some(bits) => (w, Ok(Value::Float(bits)), p + 1),
            None => (w, Err("invalid float literal"@), p + 1),
        },
        Expr::StringLiteral(t) => (w, Ok(Value::Str(unquote(t@))), p),
        Expr::Grouping(inner) => eval(w, *inner, log, p),
        Expr::Variable(name) => (w, match lookup(w.scopes, name.lexeme@) {
            Some(v) => Ok(v),
            None => Err(undefined_text(name.lexeme@)),
        }, p),
        Expr::Assign(name, value) => {
            let (w1, r, p1) = eval(w, *value, log, p);
            match r {
                Err(m) => (w1, Err(m), p1),
                Ok(v) => match assign(w1.scopes, name.lexeme@, v) {
                    Some(sc) => (World { scopes: sc, output: w1.output }, Ok(v), p1),
                    None => (w1, Err(undefined_text(name.lexeme@)), p1),
                },
            }
        },
        Expr::Unary(op, operand) => {
            let (w1, r, p1) = eval(w, *operand, log, p);
            match r {
                Err(m) => (w1, Err(m), p1),
                Ok(v) => {
                    let (res, p2) = unary_value(op, v, log, p1);
                    (w1, res, p2)
                },
            }
        },
        Expr::Binary(l, op, r) => {
            let (w1, ra, p1) = eval(w, *l, log, p);
            match ra {
                Err(m) => (w1, Err(m), p1),
                Ok(a) => {
                    let (w2, rb, p2) = eval(w1, *r, log, p1);
                    match rb {
                        Err(m) => (w2, Err(m), p2),
                        Ok(b) => {
                            let (res, p3) = binary_value(op, a, b, log, p2);
                            (w2, res, p3)
                        },
                    }
                },
            }
        },
        Expr::Logical(l, k, r) => {
            let (w1, ra, p1) = eval(w, *l, log, p);
            match ra {
                Err(m) => (w1, Err(m), p1),
                Ok(a) => match a {
                    Value::Boolean(b) => if (k == TokenType::Or) == b {
                        (w1, Ok(a), p1)
                    } else {
                        eval(w1, *r, log, p1)
                    },
                    _ => (w1, Err(logic_text()), p1),
                },
            }
        },
    }
}

/// What `print` writes for a value; a double is written by the host, one
/// answer.
pub open spec fn show(v: Value, log: Seq<HostAnswer>, p: int) -> (Seq<char>, int) {
    match v {
        Value::Nil => ("nil"@, p),
        Value::Boolean(b) => (if b { "true"@ } else { "false"@ }, p),
        Value::Integer(i) => (signed_decimal(i as int), p),
        Value::Str(s) => (s, p),
        Value::Float(_) => (text_at(log, p), p + 1),
    }
}

/// The world with one more, empty, innermost scope.
pub open spec fn push_scope(w: World) -> World {
    World { scopes: w.scopes.push(Seq::empty()), output: w.output }
}

/// The world without its innermost scope.
pub open spec fn pop_scope(w: World) -> World {
    World { scopes: w.scopes.drop_last(), output: w.output }
}

/// Executing `s` in `w`, the host's answers read from `log` at `p`: the
/// world after it, whether it completed, and the position of the next
/// answer. Only `true` counts as true: a condition of any other kind is an
/// error. A block runs in a fresh innermost scope, which is gone afterwards
/// however the block ended. A loop runs at most `u64::MAX` times.
pub open spec fn execute(w: World, s: StatementModel, log: Seq<HostAnswer>, p: int) -> (World, Result<(), Seq<char>>, int)
    decreases s, 0nat,
{
    match s {
        StatementModel::Expression(e) => {
            let (w1, r, p1) = eval(w, e, log, p);
            match r {
                Err(m) => (w1, Err(m), p1),
                Ok(_) => (w1, Ok(()), p1),
            }
        },
        StatementModel::Print(e) => {
            let (w1, r, p1) = eval(w, e, log, p);
            match r {
                Err(m) => (w1, Err(m), p1),
                Ok(v) => {
                    let (text, p2) = show(v, log, p1);
                    (World { scopes: w1.scopes, output: w1.output.push(text) }, Ok(()), p2)
                },
            }
        },
        StatementModel::Var(name, init) => {
            let (w1, r, p1) = match init {
                Some(e) => eval(w, e, log, p),
                None => (w, Ok(Value::Nil), p),
            };
            match r {
                Err(m) => (w1, Err(m), p1),
                Ok(v) => (World { scopes: define(w1.scopes, name.lexeme@, v), output: w1.output }, Ok(()), p1),
            }
        },
        StatementModel::Block(items) => {
            let (w1, r, p1) = execute_items(push_scope(w), items, 0, log, p);
            (pop_scope(w1), r, p1)
        },
        StatementModel::If(c, t, e) => {
            let (w1, r, p1) = eval(w, c, log, p);
            match r {
                Err(m) => (w1, Err(m), p1),
                Ok(Value::Boolean(true)) => execute(w1, *t, log, p1),
                Ok(Value::Boolean(false)) => match e {
                    Some(e) => execute(w1, *e, log, p1),
                    None => (w1, Ok(()), p1),
                },
                Ok(_) => (w1, Err(condition_text()), p1),
            }
        },
        StatementModel::While(c, body) => run_loop(w, c, *body, u64::MAX as nat, log, p),
    }
}

/// Executing `items[i..]` in order, stopping at the first error.
pub open spec fn execute_items(w: World, items: Seq<StatementModel>, i: int, log: Seq<HostAnswer>, p: int) -> (World, Result<(), Seq<char>>, int)
    decreases items, items.len() - i,
{
    if i < 0 || i >= items.len() {
        (w, Ok(()), p)
    } else {
        let (w1, r, p1) = execute(w, items[i], log, p);
        match r {
            Err(m) => (w1, Err(m), p1),
            Ok(()) => execute_items(w1, items, i + 1, log, p1),
        }
    }
}

/// A `while` loop with at most `n` iterations left: the condition, then,
/// while it is `true`, the body and the loop again.
pub open spec fn run_loop(w: World, c: Expr, body: StatementModel, n: nat, log: Seq<HostAnswer>, p: int) -> (World, Result<(), Seq<char>>, int)
    decreases body, n,
{
    if n == 0 {
        (w, Err(limit_text()), p)
    } else {
        let (w1, r, p1) = eval(w, c, log, p);
        match r {
            Err(m) => (w1, Err(m), p1),
            Ok(Value::Boolean(true)) => {
                let (w2, r2, p2) = execute(w1, body, log, p1);
                match r2 {
                    Err(m) => (w2, Err(m), p2),
                    Ok(()) => run_loop(w2, c, body, (n - 1) as nat, log, p2),
                }
            },
            Ok(Value::Boolean(false)) => (w1, Ok(()), p1),
            Ok(_) => (w1, Err(condition_text()), p1),
        }
    }
}

} // verus!

verus! {

/// A runtime error, with its message.
#[derive(Debug)]
pub struct RuntimeError {
    pub message: String,
}

/// A runtime value. A float is held as the bit pattern of an IEEE-754
/// double; the arithmetic on it is the host's (see `FloatArith`).
#[derive(Debug)]
pub enum Object {
    Nil,
    Float(u64),
    Integer(i64),
    Boolean(bool),
    StringLiteral(String),
}

impl View for Object {
    type V = Value;

    open spec fn view(&self) -> Value {
        match self {
            Object::Nil => Value::Nil,
            Object::Float(f) => Value::Float(*f),
            Object::Integer(i) => Value::Integer(*i),
            Object::Boolean(b) => Value::Boolean(*b),
            Object::StringLiteral(s) => Value::Str(s@),
        }
    }
}

impl Object {
    /// A copy of the value.
    pub fn copy(&self) -> (r: Object)
        ensures
            r@ == self@,
    {
        match self {
            Object::Nil => Object::Nil,
            Object::Float(f) => Object::Float(*f),
            Object::Integer(i) => Object::Integer(*i),
            Object::Boolean(b) => Object::Boolean(*b),
            Object::StringLiteral(s) => Object::StringLiteral(s.clone()),
        }
    }
}

/// Floating-point arithmetic, supplied by the host. Floats are passed as
/// the bit patterns of IEEE-754 doubles. Nothing is assumed of the results.
pub trait FloatArith {
    /// The double that decimal `text` denotes, or `None` where it is not one.
    fn parse_float(&self, text: &str) -> Option<u64>;

    /// The double nearest to `i`.
    fn from_integer(&self, i: i64) -> u64;

    /// `-a`.
    fn negate(&self, a: u64) -> u64;

    /// `a op b` for `op` among `Add`, `Subtract`, `Multiply` and `Divide`.
    fn arithmetic(&self, op: Operator, a: u64, b: u64) -> u64;

    /// `a op b` for `op` among the comparison and equality operators.
    fn compare(&self, op: Operator, a: u64, b: u64) -> bool;

    /// The shortest decimal text that reads back as `a`.
    fn format(&self, a: u64) -> String;
}

/// One scope: its bindings, the last binding of a name being in force.
pub struct Environment {
    pub values: Vec<(String, Object)>,
}

impl Environment {
    /// The scope as a mathematical value.
    pub open spec fn model(&self) -> ScopeModel {
        Seq::new(self.values@.len(), |i: int| (self.values@[i].0@, self.values@[i].1@))
    }

    /// The index of the binding of `name` in force.
    fn find(&self, name: &String) -> (r: Option<usize>)
        ensures
            match r {
                Some(i) => find_binding(self.model(), name@) == i as int && i < self.values@.len(),
                None => find_binding(self.model(), name@) < 0,
            },
    {
        let mut k: usize = self.values.len();
        assert(self.model().subrange(0, k as int) =~= self.model());
        while k > 0
            invariant
                k <= self.values@.len(),
                find_binding(self.model(), name@) == find_binding(self.model().subrange(0, k as int), name@),
            decreases k,
        {
            let ghost sub = self.model().subrange(0, k as int);
            assert(sub.drop_last() =~= self.model().subrange(0, k - 1));
            if self.values[k - 1].0 == *name {
                return Some(k - 1);
            }
            k = k - 1;
        }
        None
    }

    /// Binds `name` to `v`, over the binding in force if there is one.
    fn set(&mut self, name: String, v: Object)
        ensures
            final(self).model() == scope_set(old(self).model(), name@, v@),
    {
        match self.find(&name) {
            Some(i) => {
                self.values.set(i, (name, v));
                assert(self.model() =~= scope_set(old(self).model(), name@, v@));
            },
            None => {
                self.values.push((name, v));
                assert(self.model() =~= scope_set(old(self).model(), name@, v@));
            },
        }
    }
}

} // verus!

verus! {

/// The message for a name that no scope binds.
fn undefined_error(name: &String) -> (r: RuntimeError)
    ensures
        r.message@ == undefined_text(name@),
{
    let mut m: Vec<char> = Vec::new();
    push_str(&mut m, "Undefined variable '");
    push_str(&mut m, name.as_str());
    push_str(&mut m, "'.");
    assert(m@ =~= undefined_text(name@));
    RuntimeError { message: string_of(&m) }
}

/// An error with a fixed message.
fn error_of(text: &str) -> (r: RuntimeError)
    ensures
        r.message@ == text@,
{
    RuntimeError { message: String::from_str(text) }
}

/// The evaluator: a stack of scopes, the global one outermost, the lines
/// printed so far, and the host's float arithmetic with a record of every
/// answer it gave.
pub struct ExprEvaluator<F: FloatArith> {
    environments: Vec<Environment>,
    floats: F,
    output: Vec<String>,
    answers: Ghost<Seq<HostAnswer>>,
}

/// An evaluator with one, empty, global scope.
pub fn build_interpreter<F: FloatArith>(floats: F) -> (r: ExprEvaluator<F>)
    ensures
        r.wf(),
        r.world().scopes == seq![Seq::<(Seq<char>, Value)>::empty()],
        r.world().output == Seq::<Seq<char>>::empty(),
{
    let mut environments: Vec<Environment> = Vec::new();
    environments.push(Environment { values: Vec::new() });
    let r = ExprEvaluator { environments, floats, output: Vec::new(), answers: Ghost(Seq::empty()) };
    assert(r.environments@[0].model() =~= Seq::<(Seq<char>, Value)>::empty());
    assert(r.world().scopes =~= seq![Seq::<(Seq<char>, Value)>::empty()]);
    assert(r.world().output =~= Seq::<Seq<char>>::empty());
    r
}

/// A log that begins with `b`, which begins with `c`, begins with `c`.
pub proof fn lemma_extends_trans(a: Seq<HostAnswer>, b: Seq<HostAnswer>, c: Seq<HostAnswer>)
    requires
        extends(a, b),
        extends(b, c),
    ensures
        extends(a, c),
{
    assert forall|i: int| 0 <= i < c.len() implies a[i] == c[i] by {
        assert(a[i] == b[i]);
    }
}

/// Evaluating `e` in `w` with the answers after `log0` took the world to
/// `w1`, gave `r` and left the log at `log1`, whatever answers follow.
pub open spec fn evaluates(
    w: World,
    e: Expr,
    log0: Seq<HostAnswer>,
    w1: World,
    r: Result<Value, Seq<char>>,
    log1: Seq<HostAnswer>,
) -> bool {
    &&& extends(log1, log0)
    &&& forall|log: Seq<HostAnswer>| #[trigger] extends(log, log1)
        ==> eval(w, e, log, log0.len() as int) == (w1, r, log1.len() as int)
}

/// Executing `s` in `w` with the answers after `log0` took the world to
/// `w1`, gave `r` and left the log at `log1`, whatever answers follow.
pub open spec fn executes(
    w: World,
    s: StatementModel,
    log0: Seq<HostAnswer>,
    w1: World,
    r: Result<(), Seq<char>>,
    log1: Seq<HostAnswer>,
) -> bool {
    &&& extends(log1, log0)
    &&& forall|log: Seq<HostAnswer>| #[trigger] extends(log, log1)
        ==> execute(w, s, log, log0.len() as int) == (w1, r, log1.len() as int)
}

/// The value or message that an evaluation's outcome stands for.
pub open spec fn value_result(r: Result<Object, RuntimeError>) -> Result<Value, Seq<char>> {
    match r {
        Ok(v) => Ok(v@),
        Err(e) => Err(e.message@),
    }
}

/// What an execution's outcome stands for.
pub open spec fn unit_result(r: Result<(), RuntimeError>) -> Result<(), Seq<char>> {
    match r {
        Ok(()) => Ok(()),
        Err(e) => Err(e.message@),
    }
}

impl<F: FloatArith> ExprEvaluator<F> {
    /// The scopes and the printed lines, as mathematical values.
    pub closed spec fn world(&self) -> World {
        World {
            scopes: self.environments@.map_values(|e: Environment| e.model()),
            output: self.output@.map_values(|s: String| s@),
        }
    }

    /// Every answer that the host's float arithmetic has given, in order.
    pub closed spec fn log(&self) -> Seq<HostAnswer> {
        self.answers@
    }

    /// There is a global scope.
    pub closed spec fn wf(&self) -> bool {
        self.environments@.len() >= 1
    }

    /// A well-formed evaluator has at least one scope.
    pub proof fn lemma_wf_has_scope(&self)
        requires
            self.wf(),
        ensures
            self.world().scopes.len() >= 1,
    {
    }

    /// The lines printed so far, errors included.
    pub fn output(&self) -> (r: &Vec<String>)
        ensures
            r@.map_values(|s: String| s@) == self.world().output,
    {
        &self.output
    }

    /// Hands over the lines printed so far and forgets them.
    pub fn take_output(&mut self) -> (r: Vec<String>)
        ensures
            r@.map_values(|s: String| s@) == old(self).world().output,
            final(self).world().scopes == old(self).world().scopes,
            final(self).world().output == Seq::<Seq<char>>::empty(),
            final(self).wf() == old(self).wf(),
            final(self).log() == old(self).log(),
    {
        let mut r: Vec<String> = Vec::new();
        std::mem::swap(&mut r, &mut self.output);
        assert(self.world().output =~= Seq::<Seq<char>>::empty());
        r
    }

    /// The number of scopes on the stack.
    pub fn depth(&self) -> (r: usize)
        ensures
            r == self.world().scopes.len(),
    {
        self.environments.len()
    }

    /// Declares `name` as `object` in the innermost scope.
    pub fn define_variable(&mut self, name: String, object: Object)
        requires
            old(self).wf(),
        ensures
            final(self).wf(),
            final(self).log() == old(self).log(),
            final(self).world().scopes == define(old(self).world().scopes, name@, object@),
            final(self).world().scopes.len() == old(self).world().scopes.len(),
            final(self).world().output == old(self).world().output,
    {
        let ghost v = object@;
        let ghost n = name@;
        let ghost before = self.world().scopes;
        match self.environments.pop() {
            Some(mut top) => {
                let ghost top_before = top.model();
                top.set(name, object);
                self.environments.push(top);
                assert(top_before == before.last());
                assert(self.world().scopes =~= define(before, n, v));
            },
            None => {},
        }
    }

    /// The value of `name`, searching from the innermost scope outwards.
    pub fn get_variable(&self, name: &String) -> (r: Result<Object, RuntimeError>)
        ensures
            match lookup(self.world().scopes, name@) {
                Some(v) => r is Ok && r->Ok_0@ == v,
                None => r is Err && r->Err_0.message@ == undefined_text(name@),
            },
    {
        let ghost scopes = self.world().scopes;
        let mut j: usize = self.environments.len();
        assert(scopes.subrange(0, j as int) =~= scopes);
        while j > 0
            invariant
                j <= scopes.len(),
                scopes == self.world().scopes,
                find_scope(scopes, name@) == find_scope(scopes.subrange(0, j as int), name@),
            decreases j,
        {
            assert(scopes.subrange(0, j as int).drop_last() =~= scopes.subrange(0, j - 1));
            match self.environments[j - 1].find(name) {
                Some(i) => {
                    return Ok(self.environments[j - 1].values[i].1.copy());
                },
                None => {},
            }
            j = j - 1;
        }
        Err(undefined_error(name))
    }

    /// Assigns `object` to the innermost binding of `name`.
    pub fn assign_variable(&mut self, name: String, object: Object) -> (r: Result<Object, RuntimeError>)
        requires
            old(self).wf(),
        ensures
            final(self).wf(),
            final(self).log() == old(self).log(),
            final(self).world().output == old(self).world().output,
            final(self).world().scopes.len() == old(self).world().scopes.len(),
            match assign(old(self).world().scopes, name@, object@) {
                Some(sc) => r is Ok && r->Ok_0@ == object@ && final(self).world().scopes == sc,
                None => r is Err && r->Err_0.message@ == undefined_text(name@)
                    && final(self).world().scopes == old(self).world().scopes,
            },
    {
        let ghost scopes = self.world().scopes;
        let mut j: usize = self.environments.len();
        assert(scopes.subrange(0, j as int) =~= scopes);
        while j > 0
            invariant
                j <= scopes.len(),
                scopes == self.world().scopes,
                self.environments@.len() >= 1,
                *self == *old(self),
                find_scope(scopes, name@) == find_scope(scopes.subrange(0, j as int), name@),
            decreases j,
        {
            assert(scopes.subrange(0, j as int).drop_last() =~= scopes.subrange(0, j - 1));
            match self.environments[j - 1].find(&name) {
                Some(_) => {
                    let result = object.copy();
                    let mut env = self.environments.remove(j - 1);
                    let ghost em = env.model();
                    env.set(name, object);
                    self.environments.insert(j - 1, env);
                    assert(em == scopes[j - 1]);
                    assert(self.world().scopes =~= scopes.update(j - 1, scope_set(scopes[j - 1], name@, object@)));
                    return Ok(result);
                },
                None => {},
            }
            j = j - 1;
        }
        Err(undefined_error(&name))
    }

    /// Asks the host to read a float literal, and records the answer.
    fn host_parse(&mut self, text: &str) -> (r: Option<u64>)
        ensures
            final(self).world() == old(self).world(),
            final(self).wf() == old(self).wf(),
            final(self).log() == old(self).log().push(HostAnswer::Parsed(r)),
    {
        let r = self.floats.parse_float(text);
        self.answers = Ghost(self.answers@.push(HostAnswer::Parsed(r)));
        r
    }

    /// Asks the host to convert an integer, and records the answer.
    fn host_from_integer(&mut self, i: i64) -> (r: u64)
        ensures
            final(self).world() == old(self).world(),
            final(self).wf() == old(self).wf(),
            final(self).log() == old(self).log().push(HostAnswer::Bits(r)),
    {
        let r = self.floats.from_integer(i);
        self.answers = Ghost(self.answers@.push(HostAnswer::Bits(r)));
        r
    }

    /// Asks the host to negate a double, and records the answer.
    fn host_negate(&mut self, a: u64) -> (r: u64)
        ensures
            final(self).world() == old(self).world(),
            final(self).wf() == old(self).wf(),
            final(self).log() == old(self).log().push(HostAnswer::Bits(r)),
    {
        let r = self.floats.negate(a);
        self.answers = Ghost(self.answers@.push(HostAnswer::Bits(r)));
        r
    }

    /// Asks the host for arithmetic on doubles, and records the answer.
    fn host_arithmetic(&mut self, op: Operator, a: u64, b: u64) -> (r: u64)
        ensures
            final(self).world() == old(self).world(),
            final(self).wf() == old(self).wf(),
            final(self).log() == old(self).log().push(HostAnswer::Bits(r)),
    {
        let r = self.floats.arithmetic(op, a, b);
        self.answers = Ghost(self.answers@.push(HostAnswer::Bits(r)));
        r
    }

    /// Asks the host to compare doubles, and records the answer.
    fn host_compare(&mut self, op: Operator, a: u64, b: u64) -> (r: bool)
        ensures
            final(self).world() == old(self).world(),
            final(self).wf() == old(self).wf(),
            final(self).log() == old(self).log().push(HostAnswer::Truth(r)),
    {
        let r = self.floats.compare(op, a, b);
        self.answers = Ghost(self.answers@.push(HostAnswer::Truth(r)));
        r
    }

    /// Asks the host to write a double, and records the answer.
    fn host_format(&mut self, a: u64) -> (r: String)
        ensures
            final(self).world() == old(self).world(),
            final(self).wf() == old(self).wf(),
            final(self).log() == old(self).log().push(HostAnswer::Text(r@)),
    {
        let r = self.floats.format(a);
        self.answers = Ghost(self.answers@.push(HostAnswer::Text(r@)));
        r
    }
}

} // verus!

verus! {

/// How a value's kind is named in messages.
fn kind_name(v: &Object) -> (r: &'static str)
    ensures
        r@ == kind_word(v@),
{
    match v {
        Object::Nil => "nil",
        Object::Float(_) => "float",
        Object::Integer(_) => "integer",
        Object::Boolean(_) => "boolean",
        Object::StringLiteral(_) => "string",
    }
}

/// What a binary operator does, in messages.
fn operation_name(op: Operator) -> (r: &'static str)
    ensures
        r@ == op_word(op),
{
    match op {
        Operator::Add => "add",
        Operator::Subtract => "subtract",
        Operator::Multiply => "multiply",
        Operator::Divide => "divide",
        Operator::Greater => "compare using >",
        Operator::GreaterEqual => "compare using >=",
        Operator::Less => "compare using <",
        Operator::LessEqual => "compare using <=",
        Operator::EqualEqual => "compare using ==",
        Operator::BangEqual => "compare using !=",
        Operator::Bang => "apply !",
        Operator::Equal => "apply =",
    }
}

/// The error for operands of kinds that `op` does not take.
fn mismatch_error(op: Operator, a: &Object, b: &Object) -> (r: RuntimeError)
    ensures
        r.message@ == mismatch_text(op, a@, b@),
{
    let mut m: Vec<char> = Vec::new();
    push_str(&mut m, "lhs is ");
    push_str(&mut m, kind_name(a));
    push_str(&mut m, " rhs is ");
    push_str(&mut m, kind_name(b));
    push_str(&mut m, " cannot ");
    push_str(&mut m, operation_name(op));
    assert(m@ =~= mismatch_text(op, a@, b@));
    RuntimeError { message: string_of(&m) }
}

/// The value of an integer literal's text.
fn integer_literal_value(text: &String) -> (r: Result<Object, RuntimeError>)
    ensures
        value_result(r) == integer_literal(text@),
{
    let cs = chars_of(text.as_str());
    let mut k: usize = 0;
    while k < cs.len()
        invariant
            cs@ == text@,
            k <= cs@.len(),
            forall|j: int| 0 <= j < k ==> is_digit(#[trigger] cs@[j]),
        decreases cs@.len() - k,
    {
        if !('0' <= cs[k] && cs[k] <= '9') {
            return Err(error_of("invalid integer literal"));
        }
        k = k + 1;
    }
    if cs.len() == 0 {
        return Err(error_of("invalid integer literal"));
    }
    match parse_decimal(&cs) {
        Some(v) => Ok(Object::Integer(v)),
        None => Err(error_of("invalid integer literal")),
    }
}

/// The contents of a string literal's text, without its quotes.
fn unquoted(text: &String) -> (r: String)
    ensures
        r@ == unquote(text@),
{
    let cs = chars_of(text.as_str());
    let n = cs.len();
    if n >= 2 && cs[0] == '"' && cs[n - 1] == '"' {
        let mut v: Vec<char> = Vec::new();
        let mut k: usize = 1;
        while k < n - 1
            invariant
                cs@ == text@,
                n == cs@.len(),
                n >= 2,
                1 <= k <= n - 1,
                v@ == cs@.subrange(1, k as int),
            decreases n - 1 - k,
        {
            v.push(cs[k]);
            k = k + 1;
            assert(v@ =~= cs@.subrange(1, k as int));
        }
        string_of(&v)
    } else {
        text.clone()
    }
}

} // verus!

verus! {

impl<F: FloatArith> ExprEvaluator<F> {
    /// Applies a unary operator to a value.
    fn unary_operation(&mut self, op: Operator, v: Object) -> (r: Result<Object, RuntimeError>)
        ensures
            final(self).world() == old(self).world(),
            final(self).wf() == old(self).wf(),
            extends(final(self).log(), old(self).log()),
            forall|log: Seq<HostAnswer>| #[trigger] extends(log, final(self).log())
                ==> unary_value(op, v@, log, old(self).log().len() as int)
                    == (value_result(r), final(self).log().len() as int),
    {
        match op {
            Operator::Bang => match v {
                Object::Boolean(b) => Ok(Object::Boolean(!b)),
                _ => Err(error_of("operand of '!' must be a boolean")),
            },
            Operator::Subtract => match v {
                Object::Integer(i) => Ok(Object::Integer(0i64.wrapping_sub(i))),
                Object::Float(f) => {
                    let n = self.host_negate(f);
                    Ok(Object::Float(n))
                },
                _ => Err(error_of("operand of '-' must be a number")),
            },
            _ => Err(error_of("invalid unary operator")),
        }
    }

    /// Applies a binary operator to two doubles.
    fn float_operation(&mut self, op: Operator, x: u64, y: u64) -> (r: Result<Object, RuntimeError>)
        ensures
            final(self).world() == old(self).world(),
            final(self).wf() == old(self).wf(),
            extends(final(self).log(), old(self).log()),
            forall|log: Seq<HostAnswer>| #[trigger] extends(log, final(self).log())
                ==> float_value(op, log, old(self).log().len() as int)
                    == (value_result(r), final(self).log().len() as int),
    {
        match op {
            Operator::Add | Operator::Subtract | Operator::Multiply | Operator::Divide => {
                let z = self.host_arithmetic(op, x, y);
                Ok(Object::Float(z))
            },
            Operator::Bang | Operator::Equal => Err(error_of("invalid binary operator")),
            _ => {
                let b = self.host_compare(op, x, y);
                Ok(Object::Boolean(b))
            },
        }
    }

    /// Applies a binary operator to two values, converting an integer to a
    /// double beside a double.
    fn binary_operation(&mut self, op: Operator, a: Object, b: Object) -> (r: Result<Object, RuntimeError>)
        ensures
            final(self).world() == old(self).world(),
            final(self).wf() == old(self).wf(),
            extends(final(self).log(), old(self).log()),
            forall|log: Seq<HostAnswer>| #[trigger] extends(log, final(self).log())
                ==> binary_value(op, a@, b@, log, old(self).log().len() as int)
                    == (value_result(r), final(self).log().len() as int),
    {
        let ghost l0 = self.log();
        match (&a, &b) {
            (Object::Integer(x), Object::Integer(y)) => {
                let (x, y) = (*x, *y);
                match op {
                    Operator::Add => Ok(Object::Integer(x.wrapping_add(y))),
                    Operator::Subtract => Ok(Object::Integer(x.wrapping_sub(y))),
                    Operator::Multiply => Ok(Object::Integer(x.wrapping_mul(y))),
                    Operator::Divide => if y == 0 {
                        Err(error_of("division by zero"))
                    } else {
                        let fx = self.host_from_integer(x);
                        let fy = self.host_from_integer(y);
                        let z = self.host_arithmetic(op, fx, fy);
                        proof {
                            assert forall|log: Seq<HostAnswer>| #[trigger] extends(log, self.log())
                                implies bits_at(log, l0.len() as int + 2) == z by {
                                assert(log[l0.len() as int + 2] == self.log()[l0.len() as int + 2]);
                            }
                        }
                        Ok(Object::Float(z))
                    },
                    Operator::Greater => Ok(Object::Boolean(x > y)),
                    Operator::GreaterEqual => Ok(Object::Boolean(x >= y)),
                    Operator::Less => Ok(Object::Boolean(x < y)),
                    Operator::LessEqual => Ok(Object::Boolean(x <= y)),
                    Operator::EqualEqual => Ok(Object::Boolean(x == y)),
                    Operator::BangEqual => Ok(Object::Boolean(x != y)),
                    _ => Err(error_of("invalid binary operator")),
                }
            },
            (Object::Float(x), Object::Float(y)) => self.float_operation(op, *x, *y),
            (Object::Integer(x), Object::Float(y)) => {
                let fx = self.host_from_integer(*x);
                let ghost l1 = self.log();
                let r = self.float_operation(op, fx, *y);
                proof {
                    assert forall|log: Seq<HostAnswer>| #[trigger] extends(log, self.log())
                        implies extends(log, l1) by {
                        lemma_extends_trans(log, self.log(), l1);
                    }
                    lemma_extends_trans(self.log(), l1, l0);
                }
                r
            },
            (Object::Float(x), Object::Integer(y)) => {
                let fy = self.host_from_integer(*y);
                let ghost l1 = self.log();
                let r = self.float_operation(op, *x, fy);
                proof {
                    assert forall|log: Seq<HostAnswer>| #[trigger] extends(log, self.log())
                        implies extends(log, l1) by {
                        lemma_extends_trans(log, self.log(), l1);
                    }
                    lemma_extends_trans(self.log(), l1, l0);
                }
                r
            },
            (Object::Boolean(x), Object::Boolean(y)) => match op {
                Operator::EqualEqual => Ok(Object::Boolean(*x == *y)),
                Operator::BangEqual => Ok(Object::Boolean(*x != *y)),
                _ => Err(mismatch_error(op, &a, &b)),
            },
            (Object::StringLiteral(x), Object::StringLiteral(y)) => match op {
                Operator::EqualEqual => Ok(Object::Boolean(*x == *y)),
                Operator::BangEqual => Ok(Object::Boolean(!(*x == *y))),
                _ => Err(mismatch_error(op, &a, &b)),
            },
            _ => Err(mismatch_error(op, &a, &b)),
        }
    }
}

} // verus!

verus! {

/// Every log that begins with `b` begins with `c`, where `b` begins with `c`.
pub proof fn lemma_extends_chain(b: Seq<HostAnswer>, c: Seq<HostAnswer>)
    requires
        extends(b, c),
    ensures
        forall|a: Seq<HostAnswer>| #[trigger] extends(a, b) ==> extends(a, c),
{
    assert forall|a: Seq<HostAnswer>| #[trigger] extends(a, b) implies extends(a, c) by {
        lemma_extends_trans(a, b, c);
    }
}

impl<F: FloatArith> ExprEvaluator<F> {
    /// Evaluates an expression.
    pub fn evaluate(&mut self, e: &Expr) -> (r: Result<Object, RuntimeError>)
        requires
            old(self).wf(),
        ensures
            final(self).wf(),
            final(self).world().scopes.len() == old(self).world().scopes.len(),
            final(self).world().output == old(self).world().output,
            evaluates(old(self).world(), *e, old(self).log(), final(self).world(), value_result(r), final(self).log()),
        decreases e,
    {
        let ghost l0 = self.log();
        match e {
            Expr::BoolLiteral(b) => Ok(Object::Boolean(*b)),
            Expr::IntegerLiteral(t) => integer_literal_value(t),
            Expr::FloatLiteral(t) => {
                let parsed = self.host_parse(t.as_str());
                proof {
                    assert forall|log: Seq<HostAnswer>| #[trigger] extends(log, self.log())
                        implies parsed_at(log, l0.len() as int) == parsed by {
                        assert(log[l0.len() as int] == self.log()[l0.len() as int]);
                    }
                    assert(extends(self.log(), l0));
                }
                match parsed {
                    Some(bits) => Ok(Object::Float(bits)),
                    None => Err(error_of("invalid float literal")),
                }
            },
            Expr::StringLiteral(t) => Ok(Object::StringLiteral(unquoted(t))),
            Expr::Grouping(inner) => self.evaluate(inner),
            Expr::Variable(name) => self.get_variable(&name.lexeme),
            Expr::Assign(name, value) => {
                let v = match self.evaluate(value) {
                    Ok(v) => v,
                    Err(err) => return Err(err),
                };
                self.assign_variable(name.lexeme.clone(), v)
            },
            Expr::Unary(op, operand) => {
                let v = match self.evaluate(operand) {
                    Ok(v) => v,
                    Err(err) => return Err(err),
                };
                let ghost l1 = self.log();
                let r = self.unary_operation(*op, v);
                proof {
                    lemma_extends_chain(self.log(), l1);
                    lemma_extends_trans(self.log(), l1, l0);
                }
                r
            },
            Expr::Binary(lhs, op, rhs) => {
                let a = match self.evaluate(lhs) {
                    Ok(v) => v,
                    Err(err) => return Err(err),
                };
                let ghost l1 = self.log();
                let b = match self.evaluate(rhs) {
                    Ok(v) => v,
                    Err(err) => {
                        proof {
                            lemma_extends_chain(self.log(), l1);
                            lemma_extends_trans(self.log(), l1, l0);
                        }
                        return Err(err);
                    },
                };
                let ghost l2 = self.log();
                let r = self.binary_operation(*op, a, b);
                proof {
                    lemma_extends_chain(self.log(), l2);
                    lemma_extends_chain(l2, l1);
                    lemma_extends_trans(self.log(), l2, l1);
                    lemma_extends_trans(self.log(), l1, l0);
                }
                r
            },
            Expr::Logical(lhs, k, rhs) => {
                let a = match self.evaluate(lhs) {
                    Ok(v) => v,
                    Err(err) => return Err(err),
                };
                let ghost l1 = self.log();
                match a {
                    Object::Boolean(b) => if (*k == TokenType::Or) == b {
                        Ok(a)
                    } else {
                        let r = self.evaluate(rhs);
                        proof {
                            lemma_extends_chain(self.log(), l1);
                            lemma_extends_trans(self.log(), l1, l0);
                        }
                        r
                    },
                    _ => Err(error_of("operand of a logical operator must be a boolean")),
                }
            },
        }
    }
}

} // verus!

verus! {

impl<F: FloatArith> ExprEvaluator<F> {
    /// What `print` writes for a value.
    fn stringify(&mut self, v: &Object) -> (r: String)
        ensures
            final(self).world() == old(self).world(),
            final(self).wf() == old(self).wf(),
            extends(final(self).log(), old(self).log()),
            forall|log: Seq<HostAnswer>| #[trigger] extends(log, final(self).log())
                ==> show(v@, log, old(self).log().len() as int) == (r@, final(self).log().len() as int),
    {
        let ghost l0 = self.log();
        match v {
            Object::Nil => String::from_str("nil"),
            Object::Boolean(b) => if *b { String::from_str("true") } else { String::from_str("false") },
            Object::Integer(i) => {
                let mut m: Vec<char> = Vec::new();
                push_signed_decimal(&mut m, *i);
                assert(m@ =~= signed_decimal(*i as int));
                string_of(&m)
            },
            Object::StringLiteral(s) => s.clone(),
            Object::Float(f) => {
                let t = self.host_format(*f);
                proof {
                    assert forall|log: Seq<HostAnswer>| #[trigger] extends(log, self.log())
                        implies text_at(log, l0.len() as int) == t@ by {
                        assert(log[l0.len() as int] == self.log()[l0.len() as int]);
                    }
                }
                t
            },
        }
    }

    /// Appends a line to the output.
    pub fn report(&mut self, line: String)
        requires
            old(self).wf(),
        ensures
            final(self).wf(),
            final(self).log() == old(self).log(),
            final(self).world().scopes == old(self).world().scopes,
            final(self).world().output == old(self).world().output.push(line@),
    {
        self.emit(line);
    }

    /// Appends a line to the output.
    fn emit(&mut self, line: String)
        requires
            old(self).wf(),
        ensures
            final(self).wf(),
            final(self).log() == old(self).log(),
            final(self).world().scopes == old(self).world().scopes,
            final(self).world().output == old(self).world().output.push(line@),
    {
        let ghost before = self.world().output;
        self.output.push(line);
        assert(self.world().output =~= before.push(line@));
    }

    /// Pops the innermost scope.
    fn leave_scope(&mut self)
        requires
            old(self).world().scopes.len() >= 2,
        ensures
            final(self).wf(),
            final(self).log() == old(self).log(),
            final(self).world() == pop_scope(old(self).world()),
    {
        let ghost w1 = self.world();
        self.environments.pop();
        assert(self.world().scopes =~= pop_scope(w1).scopes);
        assert(self.world().output =~= pop_scope(w1).output);
    }

    /// Executes a statement.
    pub fn execute(&mut self, s: &Statement) -> (r: Result<(), RuntimeError>)
        requires
            old(self).wf(),
        ensures
            final(self).wf(),
            final(self).world().scopes.len() == old(self).world().scopes.len(),
            executes(old(self).world(), s.model(), old(self).log(), final(self).world(), unit_result(r), final(self).log()),
        decreases s, 0int,
    {
        let ghost l0 = self.log();
        match s {
            Statement::Expression(e) => match self.evaluate(e) {
                Ok(_) => Ok(()),
                Err(err) => Err(err),
            },
            Statement::Print(e) => {
                let v = match self.evaluate(e) {
                    Ok(v) => v,
                    Err(err) => return Err(err),
                };
                let ghost l1 = self.log();
                let text = self.stringify(&v);
                self.emit(text);
                proof {
                    lemma_extends_chain(self.log(), l1);
                    lemma_extends_trans(self.log(), l1, l0);
                }
                Ok(())
            },
            Statement::Var(name, init) => {
                let v = match init {
                    Some(e) => match self.evaluate(e) {
                        Ok(v) => v,
                        Err(err) => return Err(err),
                    },
                    None => Object::Nil,
                };
                self.define_variable(name.lexeme.clone(), v);
                Ok(())
            },
            Statement::Block(items) => self.execute_block(items),
            Statement::If(cond, then_branch, else_branch) => {
                let c = match self.evaluate(cond) {
                    Ok(v) => v,
                    Err(err) => return Err(err),
                };
                let ghost l1 = self.log();
                let r = match c {
                    Object::Boolean(true) => self.execute(then_branch),
                    Object::Boolean(false) => match else_branch {
                        Some(e) => self.execute(e),
                        None => Ok(()),
                    },
                    _ => Err(error_of("condition must be a boolean")),
                };
                proof {
                    lemma_extends_chain(self.log(), l1);
                    lemma_extends_trans(self.log(), l1, l0);
                }
                r
            },
            Statement::While(cond, body) => self.execute_while(cond, body),
        }
    }

    /// Runs a `while` loop, at most `u64::MAX` iterations.
    fn execute_while(&mut self, cond: &Box<Expr>, body: &Box<Statement>) -> (r: Result<(), RuntimeError>)
        requires
            old(self).wf(),
        ensures
            final(self).wf(),
            final(self).world().scopes.len() == old(self).world().scopes.len(),
            extends(final(self).log(), old(self).log()),
            forall|log: Seq<HostAnswer>| #[trigger] extends(log, final(self).log())
                ==> run_loop(old(self).world(), **cond, body.model(), u64::MAX as nat, log, old(self).log().len() as int)
                    == (final(self).world(), unit_result(r), final(self).log().len() as int),
        decreases body, 1int,
    {
        let ghost w0 = self.world();
        let ghost l0 = self.log();
        let ghost depth = w0.scopes.len();
        let mut n: u64 = u64::MAX;
        loop
            invariant
                self.wf(),
                depth == old(self).world().scopes.len(),
                w0 == old(self).world(),
                l0 == old(self).log(),
                self.world().scopes.len() == depth,
                extends(self.log(), l0),
                forall|log: Seq<HostAnswer>| #[trigger] extends(log, self.log())
                    ==> run_loop(w0, **cond, body.model(), u64::MAX as nat, log, l0.len() as int)
                        == run_loop(self.world(), **cond, body.model(), n as nat, log, self.log().len() as int),
            decreases n,
        {
            let ghost wc = self.world();
            let ghost lc = self.log();
            if n == 0 {
                return Err(error_of("loop iteration limit reached"));
            }
            let c = match self.evaluate(cond) {
                Ok(v) => v,
                Err(err) => {
                    proof {
                        lemma_extends_chain(self.log(), lc);
                        lemma_extends_trans(self.log(), lc, l0);
                    }
                    return Err(err);
                },
            };
            let ghost l1 = self.log();
            match c {
                Object::Boolean(true) => {
                    match self.execute(body) {
                        Ok(()) => {},
                        Err(err) => {
                            proof {
                                lemma_extends_chain(self.log(), l1);
                                lemma_extends_chain(self.log(), lc);
                                lemma_extends_trans(self.log(), l1, lc);
                                lemma_extends_trans(self.log(), lc, l0);
                            }
                            return Err(err);
                        },
                    }
                },
                Object::Boolean(false) => {
                    proof {
                        lemma_extends_chain(self.log(), lc);
                        lemma_extends_trans(self.log(), lc, l0);
                    }
                    return Ok(());
                },
                _ => {
                    proof {
                        lemma_extends_chain(self.log(), lc);
                        lemma_extends_trans(self.log(), lc, l0);
                    }
                    return Err(error_of("condition must be a boolean"));
                },
            }
            proof {
                lemma_extends_chain(self.log(), l1);
                lemma_extends_chain(self.log(), lc);
                lemma_extends_trans(self.log(), l1, lc);
                lemma_extends_trans(self.log(), lc, l0);
            }
            n = n - 1;
        }
    }

    /// Executes statements in a fresh innermost scope, which is popped
    /// again whether they complete or fail.
    fn execute_block(&mut self, statements: &Vec<Statement>) -> (r: Result<(), RuntimeError>)
        requires
            old(self).wf(),
        ensures
            final(self).wf(),
            final(self).world().scopes.len() == old(self).world().scopes.len(),
            executes(old(self).world(), Statement::Block(*statements).model(), old(self).log(),
                final(self).world(), unit_result(r), final(self).log()),
        decreases statements, 1int,
    {
        let ghost w0 = self.world();
        let ghost l0 = self.log();
        let ghost items = crate::ast::models(statements@);
        proof { crate::ast::lemma_block_model(statements); }
        let fresh = Environment { values: Vec::new() };
        assert(fresh.model() =~= Seq::<(Seq<char>, Value)>::empty());
        self.environments.push(fresh);
        assert(self.world().scopes =~= push_scope(w0).scopes);
        assert(self.world().output =~= push_scope(w0).output);
        let mut i: usize = 0;
        while i < statements.len()
            invariant
                self.wf(),
                w0 == old(self).world(),
                l0 == old(self).log(),
                w0.scopes.len() >= 1,
                self.world().scopes.len() == w0.scopes.len() + 1,
                i <= statements@.len(),
                items == crate::ast::models(statements@),
                Statement::Block(*statements).model() == StatementModel::Block(items),
                extends(self.log(), l0),
                forall|log: Seq<HostAnswer>| #[trigger] extends(log, self.log())
                    ==> execute_items(push_scope(w0), items, 0, log, l0.len() as int)
                        == execute_items(self.world(), items, i as int, log, self.log().len() as int),
            decreases statements@.len() - i,
        {
            let ghost lc = self.log();
            proof {
                assert(items[i as int] == statements@[i as int].model());
            }
            match self.execute(&statements[i]) {
                Ok(()) => {},
                Err(err) => {
                    self.leave_scope();
                    proof {
                        lemma_extends_chain(self.log(), lc);
                        lemma_extends_trans(self.log(), lc, l0);
                    }
                    return Err(err);
                },
            }
            proof {
                lemma_extends_chain(self.log(), lc);
                lemma_extends_trans(self.log(), lc, l0);
            }
            i = i + 1;
        }
        self.leave_scope();
        Ok(())
    }
}

} // verus!

verus! {

/// The line that reports a runtime error.
pub open spec fn runtime_error_line(m: Seq<char>) -> Seq<char> {
    "Error evaluating: "@ + m
}

/// Running the top-level statements `items[i..]` in order, the host's
/// answers read from `log` at `p`; an error ends only its own statement and
/// is reported as a line of output.
pub open spec fn interpret_items(w: World, items: Seq<StatementModel>, i: int, log: Seq<HostAnswer>, p: int) -> (World, int)
    decreases items.len() - i,
{
    if i < 0 || i >= items.len() {
        (w, p)
    } else {
        let (w1, r, p1) = execute(w, items[i], log, p);
        match r {
            Ok(()) => interpret_items(w1, items, i + 1, log, p1),
            Err(m) => interpret_items(
                World { scopes: w1.scopes, output: w1.output.push(runtime_error_line(m)) },
                items,
                i + 1,
                log,
                p1,
            ),
        }
    }
}

impl<F: FloatArith> ExprEvaluator<F> {
    /// Runs top-level statements in order. A runtime error ends only the
    /// statement it occurs in and is reported as a line of output.
    pub fn interpret(&mut self, statements: &Vec<Statement>)
        requires
            old(self).wf(),
        ensures
            final(self).wf(),
            final(self).world().scopes.len() == old(self).world().scopes.len(),
            extends(final(self).log(), old(self).log()),
            forall|log: Seq<HostAnswer>| #[trigger] extends(log, final(self).log())
                ==> interpret_items(old(self).world(), crate::ast::models(statements@), 0, log, old(self).log().len() as int)
                    == (final(self).world(), final(self).log().len() as int),
    {
        let ghost w0 = self.world();
        let ghost l0 = self.log();
        let ghost items = crate::ast::models(statements@);
        let mut i: usize = 0;
        while i < statements.len()
            invariant
                self.wf(),
                w0 == old(self).world(),
                l0 == old(self).log(),
                self.world().scopes.len() == w0.scopes.len(),
                i <= statements@.len(),
                items == crate::ast::models(statements@),
                extends(self.log(), l0),
                forall|log: Seq<HostAnswer>| #[trigger] extends(log, self.log())
                    ==> interpret_items(w0, items, 0, log, l0.len() as int)
                        == interpret_items(self.world(), items, i as int, log, self.log().len() as int),
            decreases statements@.len() - i,
        {
            let ghost lc = self.log();
            proof {
                assert(items[i as int] == statements@[i as int].model());
            }
            match self.execute(&statements[i]) {
                Ok(()) => {},
                Err(err) => {
                    let mut m: Vec<char> = Vec::new();
                    push_str(&mut m, "Error evaluating: ");
                    push_str(&mut m, err.message.as_str());
                    assert(m@ =~= runtime_error_line(err.message@));
                    self.emit(string_of(&m));
                },
            }
            proof {
                lemma_extends_chain(self.log(), lc);
                lemma_extends_trans(self.log(), lc, l0);
            }
            i = i + 1;
        }
    }
}

/// An integer literal evaluates to the value of its decimal digits, and
/// changes nothing.
pub proof fn lemma_integer_literal_evaluates(w: World, text: String, log: Seq<HostAnswer>, p: int)
    requires
        text@.len() > 0,
        forall|k: int| 0 <= k < text@.len() ==> is_digit(#[trigger] text@[k]),
        decimal_value(text@) <= i64::MAX,
    ensures
        eval(w, Expr::IntegerLiteral(text), log, p)
            == (w, Ok::<Value, Seq<char>>(Value::Integer(decimal_value(text@) as i64)), p),
{
}

/// `false and x` and `true or x` give their left operand without
/// evaluating `x`: the result, the world and the host answers used do not
/// depend on `x`.
pub proof fn lemma_short_circuit(w: World, x: Expr, log: Seq<HostAnswer>, p: int)
    ensures
        eval(w, Expr::Logical(Box::new(Expr::BoolLiteral(false)), TokenType::And, Box::new(x)), log, p)
            == (w, Ok::<Value, Seq<char>>(Value::Boolean(false)), p),
        eval(w, Expr::Logical(Box::new(Expr::BoolLiteral(true)), TokenType::Or, Box::new(x)), log, p)
            == (w, Ok::<Value, Seq<char>>(Value::Boolean(true)), p),
{
    reveal_with_fuel(eval, 2);
}

/// A declaration in an inner scope shadows and does not change the outer
/// scopes: inside, the name has the new value; once the inner scope is
/// gone, every scope is as it was.
pub proof fn lemma_shadowing(w: World, name: Seq<char>, v: Value)
    ensures
        lookup(define(push_scope(w).scopes, name, v), name) == Some(v),
        define(push_scope(w).scopes, name, v).drop_last() == w.scopes,
{
    let inner = define(push_scope(w).scopes, name, v);
    let top = scope_set(Seq::empty(), name, v);
    assert(top =~= seq![(name, v)]);
    assert(find_binding(top.drop_last(), name) == -1);
    assert(find_binding(top, name) == 0);
    assert(inner.last() == top);
    assert(inner.drop_last() =~= w.scopes);
}

/// Dividing one integer by another that is not zero gives a double, and
/// one by zero is an error, whatever the host answers.
pub proof fn lemma_integer_division(x: i64, y: i64, log: Seq<HostAnswer>, p: int)
    ensures
        y != 0 ==> binary_value(Operator::Divide, Value::Integer(x), Value::Integer(y), log, p).0 is Ok
            && binary_value(Operator::Divide, Value::Integer(x), Value::Integer(y), log, p).0->Ok_0 is Float,
        y == 0 ==> binary_value(Operator::Divide, Value::Integer(x), Value::Integer(y), log, p).0
            == Err::<Value, Seq<char>>("division by zero"@),
{
}

proof fn lemma_find_scope_range(scopes: Seq<ScopeModel>, name: Seq<char>)
    ensures
        -1 <= find_scope(scopes, name) < scopes.len(),
    decreases scopes.len(),
{
    if scopes.len() > 0 {
        lemma_find_scope_range(scopes.drop_last(), name);
    }
}

proof fn lemma_eval_keeps_depth(w: World, e: Expr, log: Seq<HostAnswer>, p: int)
    ensures
        eval(w, e, log, p).0.scopes.len() == w.scopes.len(),
    decreases e,
{
    match e {
        Expr::Grouping(inner) => lemma_eval_keeps_depth(w, *inner, log, p),
        Expr::Assign(name, value) => {
            lemma_eval_keeps_depth(w, *value, log, p);
            let (w1, r, p1) = eval(w, *value, log, p);
            lemma_find_scope_range(w1.scopes, name.lexeme@);
        },
        Expr::Unary(_, operand) => lemma_eval_keeps_depth(w, *operand, log, p),
        Expr::Binary(l, _, r) => {
            lemma_eval_keeps_depth(w, *l, log, p);
            let (w1, ra, p1) = eval(w, *l, log, p);
            lemma_eval_keeps_depth(w1, *r, log, p1);
        },
        Expr::Logical(l, _, r) => {
            lemma_eval_keeps_depth(w, *l, log, p);
            let (w1, ra, p1) = eval(w, *l, log, p);
            lemma_eval_keeps_depth(w1, *r, log, p1);
        },
        _ => {},
    }
}

/// Executing a statement leaves as many scopes as it found: a block pops
/// the scope it pushed, whether its statements completed or failed.
pub proof fn lemma_execute_keeps_depth(w: World, s: StatementModel, log: Seq<HostAnswer>, p: int)
    requires
        w.scopes.len() >= 1,
    ensures
        execute(w, s, log, p).0.scopes.len() == w.scopes.len(),
    decreases s, 0nat,
{
    match s {
        StatementModel::Expression(e) => lemma_eval_keeps_depth(w, e, log, p),
        StatementModel::Print(e) => lemma_eval_keeps_depth(w, e, log, p),
        StatementModel::Var(_, init) => {
            if let Some(e) = init {
                lemma_eval_keeps_depth(w, e, log, p);
            }
        },
        StatementModel::Block(items) => {
            lemma_items_keep_depth(push_scope(w), items, 0, log, p);
        },
        StatementModel::If(c, t, e) => {
            lemma_eval_keeps_depth(w, c, log, p);
            let (w1, r, p1) = eval(w, c, log, p);
            lemma_execute_keeps_depth(w1, *t, log, p1);
            if let Some(e) = e {
                lemma_execute_keeps_depth(w1, *e, log, p1);
            }
        },
        StatementModel::While(c, body) => lemma_loop_keeps_depth(w, c, *body, u64::MAX as nat, log, p),
    }
}

proof fn lemma_items_keep_depth(w: World, items: Seq<StatementModel>, i: int, log: Seq<HostAnswer>, p: int)
    requires
        w.scopes.len() >= 1,
    ensures
        execute_items(w, items, i, log, p).0.scopes.len() == w.scopes.len(),
    decreases items, items.len() - i,
{
    if 0 <= i < items.len() {
        lemma_execute_keeps_depth(w, items[i], log, p);
        let (w1, r, p1) = execute(w, items[i], log, p);
        lemma_items_keep_depth(w1, items, i + 1, log, p1);
    }
}

proof fn lemma_loop_keeps_depth(w: World, c: Expr, body: StatementModel, n: nat, log: Seq<HostAnswer>, p: int)
    requires
        w.scopes.len() >= 1,
    ensures
        run_loop(w, c, body, n, log, p).0.scopes.len() == w.scopes.len(),
    decreases body, n,
{
    if n > 0 {
        lemma_eval_keeps_depth(w, c, log, p);
        let (w1, r, p1) = eval(w, c, log, p);
        lemma_execute_keeps_depth(w1, body, log, p1);
        let (w2, r2, p2) = execute(w1, body, log, p1);
        if n > 1 {
            lemma_loop_keeps_depth(w2, c, body, (n - 1) as nat, log, p2);
        } else {
            lemma_loop_keeps_depth(w2, c, body, 0, log, p2);
        }
    }
}

} // verus!

verus! {

/// No name is bound twice in `scope`.
pub open spec fn names_unique(scope: ScopeModel) -> bool {
    forall|i: int, j: int| 0 <= i < j < scope.len() ==> scope[i].0 != scope[j].0
}

proof fn lemma_find_binding(scope: ScopeModel, name: Seq<char>)
    ensures
        -1 <= find_binding(scope, name) < scope.len(),
        find_binding(scope, name) >= 0 ==> scope[find_binding(scope, name)].0 == name,
        find_binding(scope, name) < 0 ==> forall|i: int| 0 <= i < scope.len() ==> scope[i].0 != name,
    decreases scope.len(),
{
    if scope.len() > 0 {
        let rest = scope.drop_last();
        lemma_find_binding(rest, name);
        assert forall|i: int| 0 <= i < rest.len() implies rest[i] == scope[i] by {}
    }
}

/// Binding a name in a scope never binds a name twice.
pub proof fn lemma_scope_set_keeps_names_unique(scope: ScopeModel, name: Seq<char>, v: Value)
    requires
        names_unique(scope),
    ensures
        names_unique(scope_set(scope, name, v)),
{
    lemma_find_binding(scope, name);
    let s2 = scope_set(scope, name, v);
    let k = find_binding(scope, name);
    assert forall|i: int, j: int| 0 <= i < j < s2.len() implies s2[i].0 != s2[j].0 by {
        if k < 0 {
            if j == scope.len() {
                assert(s2[i] == scope[i]);
            } else {
                assert(s2[i] == scope[i] && s2[j] == scope[j]);
            }
        } else {
            if i == k {
                assert(s2[j] == scope[j]);
                assert(scope[k].0 == name);
            } else if j == k {
                assert(s2[i] == scope[i]);
                assert(scope[k].0 == name);
            } else {
                assert(s2[i] == scope[i] && s2[j] == scope[j]);
            }
        }
    }
}

} // verus!
