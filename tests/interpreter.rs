use crafty::ast::{Expr, Operator};
use crafty::pipeline::run;
use crafty::runtime::{build_interpreter, ExprEvaluator, FloatArith};

struct Host;

impl FloatArith for Host {
    fn parse_float(&self, text: &str) -> Option<u64> {
        text.parse::<f64>().ok().map(f64::to_bits)
    }

    fn from_integer(&self, i: i64) -> u64 {
        (i as f64).to_bits()
    }

    fn negate(&self, a: u64) -> u64 {
        (-f64::from_bits(a)).to_bits()
    }

    fn arithmetic(&self, op: Operator, a: u64, b: u64) -> u64 {
        let (x, y) = (f64::from_bits(a), f64::from_bits(b));
        let r = match op {
            Operator::Add => x + y,
            Operator::Subtract => x - y,
            Operator::Multiply => x * y,
            _ => x / y,
        };
        r.to_bits()
    }

    fn compare(&self, op: Operator, a: u64, b: u64) -> bool {
        let (x, y) = (f64::from_bits(a), f64::from_bits(b));
        match op {
            Operator::Greater => x > y,
            Operator::GreaterEqual => x >= y,
            Operator::Less => x < y,
            Operator::LessEqual => x <= y,
            Operator::EqualEqual => x == y,
            _ => x != y,
        }
    }

    fn format(&self, a: u64) -> String {
        format!("{}", f64::from_bits(a))
    }
}

fn run_on(evaluator: &mut ExprEvaluator<Host>, source: &str) -> Vec<String> {
    run(evaluator, &source.to_string());
    evaluator.take_output()
}

fn run_program(source: &str) -> Vec<String> {
    let mut evaluator = build_interpreter(Host);
    run_on(&mut evaluator, source)
}

#[test]
fn prints_with_precedence() {
    assert_eq!(run_program("print 1 + 2 * 3;"), vec!["7"]);
}

#[test]
fn grouping_overrides_precedence() {
    assert_eq!(run_program("print (1 + 2) * 3;"), vec!["9"]);
}

#[test]
fn subtraction_is_left_associative() {
    assert_eq!(run_program("print 1 - 2 - 3;"), vec!["-4"]);
}

#[test]
fn variables_add() {
    assert_eq!(run_program("var a = 1; var b = 2; print a + b;"), vec!["3"]);
}

#[test]
fn while_loop_counts() {
    assert_eq!(
        run_program("var i = 0; while (i < 3) { print i; i = i + 1; }"),
        vec!["0", "1", "2"]
    );
}

#[test]
fn for_loop_counts() {
    assert_eq!(run_program("for (var i = 0; i < 3; i = i + 1) print i;"), vec!["0", "1", "2"]);
}

#[test]
fn nested_blocks_shadow() {
    assert_eq!(
        run_program("{ var x = 1; { var x = 2; print x; } print x; }"),
        vec!["2", "1"]
    );
}

#[test]
fn inner_declaration_leaves_outer_alone() {
    assert_eq!(run_program("var x = 1; { var x = 2; } print x;"), vec!["1"]);
}

#[test]
fn integer_division_yields_float() {
    assert_eq!(run_program("print 7 / 2;"), vec!["3.5"]);
}

#[test]
fn adding_string_and_integer_fails() {
    let out = run_program("print \"hi\" + 1;");
    assert_eq!(out.len(), 1);
    assert!(out[0].starts_with("Error evaluating: "));
    assert!(out[0].contains("cannot add"));
    assert_eq!(out[0], "Error evaluating: lhs is string rhs is integer cannot add");
}

#[test]
fn false_and_skips_right_operand() {
    assert_eq!(run_program("var x = 0; print false and (x = 1) == 1; print x;"), vec!["false", "0"]);
}

#[test]
fn true_or_skips_right_operand() {
    assert_eq!(run_program("var x = 0; print true or (x = 1) == 1; print x;"), vec!["true", "0"]);
}

#[test]
fn or_evaluates_right_when_left_is_false() {
    assert_eq!(run_program("var x = 0; print false or (x = 1) == 1; print x;"), vec!["true", "1"]);
}

#[test]
fn integer_literal_keeps_its_value() {
    assert_eq!(run_program("print 12345;"), vec!["12345"]);
    assert_eq!(run_program("print 9223372036854775807;"), vec!["9223372036854775807"]);
}

#[test]
fn integer_literal_too_large_fails() {
    assert_eq!(
        run_program("print 9223372036854775808;"),
        vec!["Error evaluating: invalid integer literal"]
    );
}

#[test]
fn integer_addition_wraps() {
    assert_eq!(run_program("print 9223372036854775807 + 1;"), vec!["-9223372036854775808"]);
}

#[test]
fn block_error_keeps_depth() {
    let mut evaluator = build_interpreter(Host);
    assert_eq!(evaluator.depth(), 1);
    let out = run_on(&mut evaluator, "{ var y = 1; { print y + true; } }");
    assert_eq!(out, vec!["Error evaluating: lhs is integer rhs is boolean cannot add"]);
    assert_eq!(evaluator.depth(), 1);
}

#[test]
fn error_ends_only_its_statement() {
    assert_eq!(
        run_program("print nope; print 2;"),
        vec!["Error evaluating: Undefined variable 'nope'.", "2"]
    );
}

#[test]
fn assigning_undeclared_fails() {
    assert_eq!(run_program("y = 1;"), vec!["Error evaluating: Undefined variable 'y'."]);
}

#[test]
fn integer_division_by_zero_fails() {
    assert_eq!(run_program("print 1 / 0;"), vec!["Error evaluating: division by zero"]);
}

#[test]
fn float_division_by_zero_is_infinite() {
    assert_eq!(run_program("print 1.0 / 0;"), vec!["inf"]);
}

#[test]
fn mixed_arithmetic_promotes() {
    assert_eq!(run_program("print 1 + 0.5;"), vec!["1.5"]);
    assert_eq!(run_program("print 2 == 2.0;"), vec!["true"]);
    assert_eq!(run_program("print -2.5;"), vec!["-2.5"]);
}

#[test]
fn strings_print_without_quotes_and_compare() {
    assert_eq!(run_program("print \"hi\";"), vec!["hi"]);
    assert_eq!(run_program("print \"a\" == \"a\";"), vec!["true"]);
    assert_eq!(run_program("print \"a\" != \"b\";"), vec!["true"]);
}

#[test]
fn mismatched_equality_fails() {
    assert_eq!(
        run_program("print 1 == true;"),
        vec!["Error evaluating: lhs is integer rhs is boolean cannot compare using =="]
    );
}

#[test]
fn non_boolean_condition_fails() {
    assert_eq!(run_program("if (1) print 2;"), vec!["Error evaluating: condition must be a boolean"]);
}

#[test]
fn if_else_branches() {
    assert_eq!(run_program("if (1 < 2) print 1; else print 2;"), vec!["1"]);
    assert_eq!(run_program("if (1 > 2) print 1; else print 2;"), vec!["2"]);
}

#[test]
fn unary_operators() {
    assert_eq!(run_program("print !true;"), vec!["false"]);
    assert_eq!(run_program("print -(3);"), vec!["-3"]);
    assert_eq!(
        run_program("print !1;"),
        vec!["Error evaluating: operand of '!' must be a boolean"]
    );
}

#[test]
fn uninitialized_variable_is_nil() {
    assert_eq!(run_program("var z; print z;"), vec!["nil"]);
}

#[test]
fn parse_error_at_end_of_file() {
    assert_eq!(
        run_program("print 1"),
        vec!["Error parsing: expected Semicolon after expression at end of file 1:7"]
    );
}

#[test]
fn parse_error_invalid_target() {
    assert_eq!(
        run_program("1 = 2;"),
        vec!["Error parsing: Invalid assignment target. at ';' line 1:5"]
    );
}

#[test]
fn parse_error_expected_literal() {
    assert_eq!(
        run_program("print ;"),
        vec!["Error parsing: Expected literal at ';' line 1:6"]
    );
}

#[test]
fn parse_error_reserved_word() {
    assert_eq!(
        run_program("\nclass;"),
        vec!["Error parsing: Expected literal at 'class' line 2:0"]
    );
}

#[test]
fn parse_error_stops_the_whole_run() {
    assert_eq!(
        run_program("print 1; print"),
        vec!["Error parsing: Expected literal at end of file 1:14"]
    );
}

#[test]
fn globals_persist_between_runs() {
    let mut evaluator = build_interpreter(Host);
    assert_eq!(run_on(&mut evaluator, "var a = 5;"), Vec::<String>::new());
    assert_eq!(run_on(&mut evaluator, "print a * 2;"), vec!["10"]);
}

#[test]
fn negating_a_boolean_fails() {
    assert_eq!(
        run_program("print -true;"),
        vec!["Error evaluating: operand of '-' must be a number"]
    );
}

#[test]
fn logical_operand_must_be_boolean() {
    assert_eq!(
        run_program("print 1 and true;"),
        vec!["Error evaluating: operand of a logical operator must be a boolean"]
    );
}

#[test]
fn comparing_strings_by_order_fails() {
    assert_eq!(
        run_program("print \"a\" < \"b\";"),
        vec!["Error evaluating: lhs is string rhs is string cannot compare using <"]
    );
}

#[test]
fn redeclaration_overwrites() {
    assert_eq!(run_program("var a = 1; var a = a + 1; print a;"), vec!["2"]);
}

#[test]
fn float_declaration_binds_the_name() {
    assert_eq!(run_program("var x = 1.5; print x; print x * 2;"), vec!["1.5", "3"]);
}

#[test]
fn statements_after_a_float_still_run() {
    assert_eq!(run_program("print 0.25; var a = 2; print a + 1;"), vec!["0.25", "3"]);
}

#[test]
fn float_comparison_gives_boolean() {
    assert_eq!(run_program("print 1.5 < 2; print 2.5 >= 3.0;"), vec!["true", "false"]);
}

#[test]
fn unreadable_float_literal_fails() {
    let mut evaluator = build_interpreter(Host);
    match evaluator.evaluate(&Expr::FloatLiteral("1.2.3".to_string())) {
        Err(e) => assert_eq!(e.message, "invalid float literal"),
        Ok(v) => panic!("unexpected {:?}", v),
    }
}
