use bea::expressions::Expr;
use bea::resolver::{Resolver, ResolverErr, Scope};
use bea::statements::Stmt;
use bea::tokens::{Literal, Token, TokenType};

fn name(n: &str) -> Token {
    Token { token_type: TokenType::Identifier, lexeme: n.to_string(), literal: Literal::Nil, line: 1, column: 1 }
}

#[test]
fn an_error_carries_its_message() {
    assert_eq!(ResolverErr::new("m".to_string()).message, "m");
}

#[test]
fn declarations_resolve_in_a_scope() {
    let mut resolver = Resolver::new();
    resolver.begin_scope();
    resolver.resolve_statement(&Stmt::Var(name("a"), None));
    resolver.resolve_statement(&Stmt::Var(name("b"), Some(Expr::Variable(name("b")))));
    resolver.resolve_statement(&Stmt::Expr(Expr::Literal(Literal::Nil)));
    resolver.end_scope();
    resolver.end_scope();
}

#[test]
fn other_expressions_resolve() {
    let mut resolver = Resolver::new();
    assert!(resolver.resolve_expression(&Expr::Literal(Literal::True)).is_ok());
}

#[test]
fn a_block_resolves_in_its_own_scope() {
    let mut resolver = Resolver::new();
    let block = Stmt::Block(vec![
        Stmt::Var(name("a"), Some(Expr::Literal(Literal::Nil))),
        Stmt::Var(name("b"), Some(Expr::Variable(name("b")))),
        Stmt::Expr(Expr::Literal(Literal::False)),
    ]);
    resolver.resolve_block_statement(&block);
    resolver.end_scope();
}

#[test]
fn scopes_track_declared_names() {
    let mut scope = Scope::new();
    assert_eq!(scope.get("x"), None);
    scope.insert("x", false);
    assert_eq!(scope.get("x"), Some(false));
    scope.insert("x", true);
    assert_eq!(scope.get("x"), Some(true));
}
