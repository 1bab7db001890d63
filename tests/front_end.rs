use crafty::ast::{Expr, Operator, Statement};
use crafty::pipeline::{parse_tokens, significant_tokens};
use crafty::scanner::scan_tokens;
use crafty::token::TokenType;

fn kinds(source: &str) -> Vec<TokenType> {
    scan_tokens(&source.to_string()).iter().map(|t| t.token_type).collect()
}

#[test]
fn lexemes_rebuild_the_source() {
    let sources = [
        "var x = 1.5; // note\nprint x >= 2 != !true;",
        "\"open",
        "a\tb\r\n{}()#,.;*/-+ <= < == = !",
        "",
    ];
    for source in sources {
        let tokens = scan_tokens(&source.to_string());
        let joined: String = tokens.iter().map(|t| t.lexeme.as_str()).collect();
        assert_eq!(joined, source);
        assert_eq!(tokens.last().unwrap().token_type, TokenType::Eof);
        assert_eq!(tokens.iter().filter(|t| t.token_type == TokenType::Eof).count(), 1);
    }
}

#[test]
fn two_character_operators() {
    assert_eq!(
        kinds("!= ! == = <= < >= >"),
        vec![
            TokenType::BangEqual, TokenType::Whitespace, TokenType::Bang, TokenType::Whitespace,
            TokenType::EqualEqual, TokenType::Whitespace, TokenType::Equal, TokenType::Whitespace,
            TokenType::LessEqual, TokenType::Whitespace, TokenType::Less, TokenType::Whitespace,
            TokenType::GreaterEqual, TokenType::Whitespace, TokenType::Greater, TokenType::Eof,
        ]
    );
}

#[test]
fn numbers_integer_and_float() {
    assert_eq!(kinds("12.5"), vec![TokenType::Float, TokenType::Eof]);
    assert_eq!(kinds("45."), vec![TokenType::Integer, TokenType::Dot, TokenType::Eof]);
    assert_eq!(kinds("7.x"), vec![TokenType::Integer, TokenType::Dot, TokenType::Identifier, TokenType::Eof]);
}

#[test]
fn keywords_and_identifiers() {
    assert_eq!(
        kinds("while whilex and or var fun"),
        vec![
            TokenType::While, TokenType::Whitespace, TokenType::Identifier, TokenType::Whitespace,
            TokenType::And, TokenType::Whitespace, TokenType::Or, TokenType::Whitespace,
            TokenType::Var, TokenType::Whitespace, TokenType::Fun, TokenType::Eof,
        ]
    );
}

#[test]
fn comment_stops_at_newline() {
    let tokens = scan_tokens(&"1 // two\n3".to_string());
    let k: Vec<TokenType> = tokens.iter().map(|t| t.token_type).collect();
    assert_eq!(
        k,
        vec![
            TokenType::Integer, TokenType::Whitespace, TokenType::Comment, TokenType::Newline,
            TokenType::Integer, TokenType::Eof,
        ]
    );
    assert_eq!(tokens[2].lexeme, "// two");
    assert_eq!((tokens[4].line_number, tokens[4].column_number), (2, 0));
}

#[test]
fn strings_and_unknown_characters() {
    let tokens = scan_tokens(&"\"hi there\" @".to_string());
    assert_eq!(tokens[0].token_type, TokenType::Str);
    assert_eq!(tokens[0].lexeme, "\"hi there\"");
    assert_eq!(tokens[2].token_type, TokenType::Unknown);
    assert_eq!(tokens[2].lexeme, "@");
    assert_eq!(kinds("\"open"), vec![TokenType::Unknown, TokenType::Eof]);
}

#[test]
fn positions_are_line_and_column() {
    let tokens = scan_tokens(&"var a;\n  a = 2;".to_string());
    let a = &tokens[7];
    assert_eq!(a.lexeme, "a");
    assert_eq!((a.line_number, a.column_number), (2, 2));
    let eof = tokens.last().unwrap();
    assert_eq!((eof.line_number, eof.column_number), (2, 8));
}

#[test]
fn trivia_is_dropped() {
    let tokens = significant_tokens(scan_tokens(&"a // c\n b".to_string()));
    let k: Vec<TokenType> = tokens.iter().map(|t| t.token_type).collect();
    assert_eq!(k, vec![TokenType::Identifier, TokenType::Identifier, TokenType::Eof]);
}

fn parse(source: &str) -> Vec<Statement> {
    match parse_tokens(scan_tokens(&source.to_string())) {
        Ok(statements) => statements,
        Err(e) => panic!("unexpected parse error: {}", e.message),
    }
}

#[test]
fn one_statement_per_declaration() {
    assert_eq!(parse("var a = 1; print a; { a = 2; } if (true) print 1;").len(), 4);
}

#[test]
fn binary_is_left_associative() {
    let statements = parse("1 - 2 - 3;");
    match &statements[0] {
        Statement::Expression(e) => match &**e {
            Expr::Binary(left, Operator::Subtract, right) => {
                assert!(matches!(&**left, Expr::Binary(_, Operator::Subtract, _)));
                assert!(matches!(&**right, Expr::IntegerLiteral(t) if t == "3"));
            },
            other => panic!("unexpected {:?}", other),
        },
        other => panic!("unexpected {:?}", other),
    }
}

#[test]
fn for_loop_desugars_to_while() {
    let statements = parse("for (var i = 0; i < 3; i = i + 1) print i;");
    assert_eq!(statements.len(), 1);
    match &statements[0] {
        Statement::Block(items) => {
            assert_eq!(items.len(), 2);
            assert!(matches!(&items[0], Statement::Var(_, Some(_))));
            match &items[1] {
                Statement::While(_, body) => match &**body {
                    Statement::Block(inner) => {
                        assert_eq!(inner.len(), 2);
                        assert!(matches!(&inner[0], Statement::Print(_)));
                        assert!(matches!(&inner[1], Statement::Expression(_)));
                    },
                    other => panic!("unexpected {:?}", other),
                },
                other => panic!("unexpected {:?}", other),
            }
        },
        other => panic!("unexpected {:?}", other),
    }
}

#[test]
fn bare_for_loop_has_true_condition() {
    let statements = parse("for (;;) print 1;");
    match &statements[0] {
        Statement::While(cond, body) => {
            assert!(matches!(&**cond, Expr::BoolLiteral(true)));
            assert!(matches!(&**body, Statement::Print(_)));
        },
        other => panic!("unexpected {:?}", other),
    }
}

#[test]
fn missing_paren_is_reported() {
    match parse_tokens(scan_tokens(&"while (true print 1;".to_string())) {
        Err(e) => assert_eq!(e.message, "expected RightParen after expression at 'print' line 1:12"),
        Ok(_) => panic!("expected a parse error"),
    }
}

#[test]
fn unterminated_string_is_a_parse_error() {
    match parse_tokens(scan_tokens(&"print \"abc".to_string())) {
        Err(e) => assert_eq!(e.message, "Expected literal at '\"abc' line 1:6"),
        Ok(_) => panic!("expected a parse error"),
    }
}
