use monkey_front::ast::{Node, Statement};
use monkey_front::lexer::Lexer;
use monkey_front::parser::Parser;

fn check_parser_errors(parser: &mut Parser) {
    let errors = parser.errors();

    if errors.len() == 0 {
        return;
    }

    for msg in errors {
        panic!("Parser error: {}", msg);
    }
}

fn test_let_statement(stmt: &Statement, expected_ident: &str, expected_value: &str) -> bool {
    if let Statement::Let(let_stmt) = stmt {
        return let_stmt.name.value == expected_ident && let_stmt.value == expected_value;
    }
    false
}

#[test]
fn test_let_statements() {
    let input = r#"
        let x = 5;
        let y = 10;
        let foobar = 838383;
        "#;

    let lexer = Lexer::new(input.to_owned());
    let mut parser = Parser::new(lexer);

    let program = parser.parse_program();
    check_parser_errors(&mut parser);
    if program.len() != 3 {
        panic!("Parsed too few statements");
    }

    let tests = vec![("x", "5"), ("y", "10"), ("foobar", "838383")];

    let mut i = 0;
    for (expected_ident, expected_value) in &tests {
        let stmt = &program[i];

        if !test_let_statement(stmt, expected_ident, expected_value) {
            panic!("test_let_statement failed");
        }
        i += 1;
    }
}

#[test]
fn test_return_statements() {
    let input = r#"
       return 5;
       return 10;
       return add(15);
        "#;

    let lexer = Lexer::new(input.to_owned());
    let mut parser = Parser::new(lexer);

    let program = parser.parse_program();
    check_parser_errors(&mut parser);

    if program.len() != 3 {
        panic!("Parsed too few statements");
    }

    for statement in &program {
        match statement {
            Statement::Let(_) => {}
            Statement::Return(stmt) => {
                println!("{:#?}", stmt);
            }
        }
    }
}

#[test]
fn test_let_missing_identifier_records_one_error() {
    let lexer = Lexer::new(String::from("let = 5;"));
    let mut parser = Parser::new(lexer);

    let program = parser.parse_program();
    let errors = parser.errors();

    assert_eq!(program.len(), 0);
    assert_eq!(errors.len(), 1);
    assert_eq!(errors[0], "expected next token to be Ident, got Assign instead");
}

#[test]
fn test_let_missing_assign_records_one_error() {
    let lexer = Lexer::new(String::from("let x 5;"));
    let mut parser = Parser::new(lexer);

    let program = parser.parse_program();
    let errors = parser.errors();

    assert_eq!(program.len(), 0);
    assert_eq!(errors.len(), 1);
    assert_eq!(errors[0], "expected next token to be Assign, got Int instead");
}

#[test]
fn test_bare_expression_statement_is_skipped_silently() {
    let lexer = Lexer::new(String::from("foobar;"));
    let mut parser = Parser::new(lexer);

    let program = parser.parse_program();
    let errors = parser.errors();

    assert_eq!(program.len(), 0);
    assert_eq!(errors.len(), 0);
}

#[test]
fn test_parse_recovers_after_malformed_let() {
    let lexer = Lexer::new(String::from("let = 5; return 7;"));
    let mut parser = Parser::new(lexer);

    let program = parser.parse_program();
    let errors = parser.errors();

    assert_eq!(program.len(), 1);
    assert_eq!(errors.len(), 1);
    match &program[0] {
        Statement::Return(stmt) => {
            assert_eq!(stmt.value, "7");
            assert_eq!(stmt.token.literal, "return");
        }
        Statement::Let(_) => panic!("expected a return statement"),
    }
}

#[test]
fn test_parse_terminates_without_semicolon() {
    let lexer = Lexer::new(String::from("let x = 5"));
    let mut parser = Parser::new(lexer);

    let program = parser.parse_program();
    let errors = parser.errors();

    assert_eq!(program.len(), 1);
    assert_eq!(errors.len(), 0);
    assert!(test_let_statement(&program[0], "x", "5"));
}

#[test]
fn test_parse_terminates_on_keywords_only() {
    let lexer = Lexer::new(String::from("return return let"));
    let mut parser = Parser::new(lexer);

    let program = parser.parse_program();
    let errors = parser.errors();

    assert_eq!(program.len(), 1);
    assert_eq!(errors.len(), 0);
    match &program[0] {
        Statement::Return(stmt) => {
            assert_eq!(stmt.token.literal, "return");
            assert_eq!(stmt.value, "let");
        }
        Statement::Let(_) => panic!("expected a return statement"),
    }
}

#[test]
fn test_statement_token_literals() {
    let lexer = Lexer::new(String::from("let x = 5; return 10;"));
    let mut parser = Parser::new(lexer);

    let program = parser.parse_program();
    check_parser_errors(&mut parser);

    assert_eq!(program.len(), 2);
    assert_eq!(program[0].token_literal(), "let");
    assert_eq!(program[1].token_literal(), "return");
    match &program[0] {
        Statement::Let(stmt) => {
            assert_eq!(stmt.name.token_literal(), "x");
            assert_eq!(stmt.name.value, "x");
        }
        Statement::Return(_) => panic!("expected a let statement"),
    }
}

#[test]
fn test_errors_read_is_idempotent() {
    let lexer = Lexer::new(String::from("let = 5;"));
    let mut parser = Parser::new(lexer);

    let _ = parser.parse_program();
    let first = parser.errors();
    let second = parser.errors();

    assert_eq!(first.len(), 1);
    assert_eq!(first, second);
}
