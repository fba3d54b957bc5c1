use bea::expressions::Expr;
use bea::parser::{ParseErr, Parser};
use bea::scanner::Scanner;
use bea::statements::Stmt;
use bea::tokens::{Literal, Token, TokenType};

fn parse(source: &str) -> (Vec<Stmt>, Vec<ParseErr>) {
    Parser::parse(Scanner::scan(source.to_string()))
}

fn messages(errors: &[ParseErr]) -> Vec<String> {
    errors.iter().map(|e| e.message.clone()).collect()
}

#[test]
fn a_variable_declaration() {
    let (stmts, errors) = parse("var x = 1;");
    assert!(errors.is_empty());
    assert_eq!(stmts.len(), 1);
    match &stmts[0] {
        Stmt::Var(name, Some(Expr::Literal(Literal::Num(digits)))) => {
            assert_eq!(name.lexeme, "x");
            assert_eq!(digits, "1");
        },
        other => panic!("unexpected statement {:?}", other),
    }
}

#[test]
fn binary_operators_associate_to_the_left() {
    let (stmts, errors) = parse("1 - 2 - 3;");
    assert!(errors.is_empty());
    match &stmts[0] {
        Stmt::Expr(Expr::Binary(left, op, right)) => {
            assert_eq!(op.token_type, TokenType::Minus);
            assert!(matches!(right.as_ref(), Expr::Literal(Literal::Num(d)) if d == "3"));
            assert!(matches!(left.as_ref(), Expr::Binary(_, _, _)));
        },
        other => panic!("unexpected statement {:?}", other),
    }
}

#[test]
fn factors_bind_tighter_than_terms() {
    let (stmts, _) = parse("1 + 2 * 3;");
    match &stmts[0] {
        Stmt::Expr(Expr::Binary(left, op, right)) => {
            assert_eq!(op.token_type, TokenType::Plus);
            assert!(matches!(left.as_ref(), Expr::Literal(_)));
            assert!(matches!(right.as_ref(), Expr::Binary(_, o, _) if o.token_type == TokenType::Star));
        },
        other => panic!("unexpected statement {:?}", other),
    }
}

#[test]
fn assignment_to_a_variable() {
    let (stmts, errors) = parse("a = b = 2;");
    assert!(errors.is_empty());
    match &stmts[0] {
        Stmt::Expr(Expr::Assign(name, value)) => {
            assert_eq!(name.lexeme, "a");
            assert!(matches!(value.as_ref(), Expr::Assign(n, _) if n.lexeme == "b"));
        },
        other => panic!("unexpected statement {:?}", other),
    }
}

#[test]
fn a_call_with_arguments() {
    let (stmts, errors) = parse("f(1, x)(2);");
    assert!(errors.is_empty());
    match &stmts[0] {
        Stmt::Expr(Expr::Call(callee, paren, args)) => {
            assert_eq!(paren.token_type, TokenType::RightParen);
            assert_eq!(args.len(), 1);
            assert!(matches!(callee.as_ref(), Expr::Call(_, _, inner) if inner.len() == 2));
        },
        other => panic!("unexpected statement {:?}", other),
    }
}

#[test]
fn an_endless_for_loop_is_a_while_loop() {
    let (stmts, errors) = parse("for (;;) {}");
    assert!(errors.is_empty());
    assert_eq!(stmts.len(), 1);
    match &stmts[0] {
        Stmt::While(cond, body) => {
            assert!(matches!(cond.as_ref(), Expr::Literal(Literal::True)));
            assert!(matches!(body.as_ref(), Stmt::Block(b) if b.is_empty()));
        },
        other => panic!("unexpected statement {:?}", other),
    }
}

#[test]
fn a_for_loop_becomes_a_block_with_a_while_loop() {
    let (stmts, errors) = parse("for (var i = 0; i < 2; i = i + 1) println(i);");
    assert!(errors.is_empty());
    match &stmts[0] {
        Stmt::Block(parts) => {
            assert_eq!(parts.len(), 2);
            assert!(matches!(&parts[0], Stmt::Var(n, Some(_)) if n.lexeme == "i"));
            match &parts[1] {
                Stmt::While(_, body) => match body.as_ref() {
                    Stmt::Block(inner) => {
                        assert_eq!(inner.len(), 2);
                        assert!(matches!(&inner[1], Stmt::Expr(Expr::Assign(_, _))));
                    },
                    other => panic!("unexpected body {:?}", other),
                },
                other => panic!("unexpected loop {:?}", other),
            }
        },
        other => panic!("unexpected statement {:?}", other),
    }
}

#[test]
fn if_with_else() {
    let (stmts, errors) = parse("if (a) b; else c;");
    assert!(errors.is_empty());
    assert!(matches!(&stmts[0], Stmt::If(Expr::Variable(_), _, Some(_))));
}

#[test]
fn print_is_not_a_keyword() {
    let (stmts, errors) = parse("print 1;");
    assert!(stmts.is_empty());
    assert_eq!(messages(&errors), vec!["Expect ';' after value."]);
    assert_eq!(errors[0].token.lexeme, "1");
}

#[test]
fn an_operator_with_no_operand_is_an_end_of_input_error() {
    let (stmts, errors) = parse("1 -");
    assert!(stmts.is_empty());
    assert_eq!(messages(&errors), vec!["Unexpected end of input at token '-'"]);
}

#[test]
fn an_invalid_assignment_target() {
    let (_, errors) = parse("1 = 2;");
    assert_eq!(messages(&errors), vec!["Invalid asignment target."]);
    assert_eq!(errors[0].token.lexeme, "=");
}

#[test]
fn an_unclosed_grouping() {
    let (_, errors) = parse("(1;");
    assert_eq!(messages(&errors), vec!["Expected ) after expression"]);
    assert_eq!(errors[0].token.lexeme, ";");
}

#[test]
fn an_unclosed_block() {
    let (stmts, errors) = parse("{ var a = 1;");
    assert!(stmts.is_empty());
    assert_eq!(messages(&errors), vec!["Expected '}' after block."]);
}

#[test]
fn parsing_goes_on_after_an_error() {
    let (stmts, errors) = parse("var = 1; var y = 2;");
    assert_eq!(messages(&errors), vec!["Expected variable name."]);
    assert_eq!(stmts.len(), 1);
    assert!(matches!(&stmts[0], Stmt::Var(n, Some(_)) if n.lexeme == "y"));
}

#[test]
fn a_missing_semicolon_after_a_declaration() {
    let (_, errors) = parse("var a = 1 var b;");
    assert_eq!(messages(&errors)[0], "Expected ';' after variable declaration");
}

#[test]
fn the_if_parenthesis_message() {
    let (_, errors) = parse("if 1) a;");
    assert_eq!(messages(&errors)[0], "Expected '(' after 'if'");
}

#[test]
fn full_text_names_the_token() {
    let token = Token {
        token_type: TokenType::Identifier,
        lexeme: "x".to_string(),
        literal: Literal::Nil,
        line: 3,
        column: 7,
    };
    let err = ParseErr::new(&token, "oops".to_string());
    assert_eq!(err.full_text(), "parse error: oops At token 'x' on line 3 column 7");
}

#[test]
fn a_new_parser_starts_with_no_errors() {
    let tokens = Scanner::scan("1;".to_string());
    let _parser = Parser::new(tokens);
}
