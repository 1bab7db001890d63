use crafty::pipeline::parse_tokens;
use crafty::printer::{AstPrinter, Visitor};
use crafty::scanner::scan_tokens;

fn printed(source: &str) -> Vec<String> {
    let statements = match parse_tokens(scan_tokens(&source.to_string())) {
        Ok(s) => s,
        Err(e) => panic!("unexpected parse error: {}", e.message),
    };
    let mut printer = AstPrinter { indent: 0 };
    statements.iter().map(|s| printer.visit_statement(s)).collect()
}

#[test]
fn prints_expressions_prefix() {
    assert_eq!(printed("print 1 + 2 * 3;"), vec!["print (+ 1 (* 2 3));"]);
    assert_eq!(printed("print -(a) and !b or c;"), vec!["print (- a) And (! b) Or c;"]);
    assert_eq!(printed("x = \"s\";"), vec!["x = \"s\""]);
}

#[test]
fn prints_statements() {
    assert_eq!(printed("var a = 1.5; var b;"), vec!["var a = 1.5;", "var b;"]);
    assert_eq!(
        printed("if (a == 1) print a; else print false;"),
        vec!["if (== a 1) then print a; else print false;"]
    );
    assert_eq!(printed("while (a < 3) a = a + 1;"), vec!["while (< a 3) a = (+ a 1)"]);
}

#[test]
fn prints_blocks_indented() {
    assert_eq!(printed("{ var x = 1; { print x; } }"), vec!["{\n  var x = 1;\n  {\n    print x;\n  }\n}"]);
}

#[test]
fn indentation_starts_at_printer_indent() {
    let statements = parse_tokens(scan_tokens(&"{ print 1; }".to_string())).ok().unwrap();
    let printer = AstPrinter { indent: 4 };
    assert_eq!(printer.statement_string(&statements[0]), "{\n      print 1;\n    }");
}
