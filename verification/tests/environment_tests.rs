use bea::environments::environment::Environment;
use bea::environments::environment_stack::EnvironmentStack;
use bea::literals::LiteralValue;
use bea::tokens::{Literal, Token, TokenType};

fn name(n: &str) -> Token {
    Token { token_type: TokenType::Identifier, lexeme: n.to_string(), literal: Literal::Nil, line: 1, column: 1 }
}

fn text(v: Result<LiteralValue, bea::interpreter::RuntimeErr>) -> String {
    match v {
        Ok(v) => v.cast_string(),
        Err(e) => format!("error: {}", e.message),
    }
}

#[test]
fn a_defined_variable_is_found() {
    let mut stack = EnvironmentStack::new();
    assert!(stack.define_at_head("a", LiteralValue::Str("one".to_string())).is_ok());
    assert_eq!(text(stack.get_value_at_head_or_err(&name("a"))), "one");
}

#[test]
fn an_undefined_variable_is_an_error() {
    let stack = EnvironmentStack::new();
    assert_eq!(text(stack.get_value_at_head_or_err(&name("a"))), "error: Undefined variable: a");
    assert!(matches!(stack.get_value_at_head(&name("a")), Ok(None)));
}

#[test]
fn a_pushed_environment_sees_the_outer_one() {
    let mut stack = EnvironmentStack::new();
    stack.define_at_head("a", LiteralValue::True).unwrap();
    let inner = stack.push();
    assert_eq!(inner, 1);
    assert_eq!(stack.get_head_idx(), 1);
    assert_eq!(text(stack.get_value_at_head_or_err(&name("a"))), "true");
    stack.define_at_head("a", LiteralValue::False).unwrap();
    assert_eq!(text(stack.get_value_at_head_or_err(&name("a"))), "false");
    assert!(stack.pop().is_ok());
    assert_eq!(stack.get_head_idx(), 0);
    assert_eq!(text(stack.get_value_at_head_or_err(&name("a"))), "true");
}

#[test]
fn assignment_changes_the_nearest_binding() {
    let mut stack = EnvironmentStack::new();
    stack.define_at_head("a", LiteralValue::Nil).unwrap();
    stack.push();
    assert_eq!(text(stack.assign_at_head(&name("a"), LiteralValue::Str("x".to_string()))), "x");
    stack.pop().unwrap();
    assert_eq!(text(stack.get_value_at_head_or_err(&name("a"))), "x");
}

#[test]
fn assigning_an_unknown_variable_is_an_error() {
    let mut stack = EnvironmentStack::new();
    assert_eq!(text(stack.assign_at_head(&name("zz"), LiteralValue::Nil)), "error: Undefined variable: zz");
}

#[test]
fn the_global_environment_cannot_be_popped_while_others_exist() {
    let mut stack = EnvironmentStack::new();
    assert!(stack.can_pop());
    let child = stack.add_detached_child(0).unwrap();
    assert_eq!(child, 1);
    assert_eq!(stack.get_head_idx(), 0);
    assert!(!stack.can_pop());
}

#[test]
fn a_missing_parent_is_an_error() {
    let mut stack = EnvironmentStack::new();
    let err = stack.push_child(5).unwrap_err();
    assert_eq!(err.message, "unable to add new environment: parent at idx '5' not found");
}

#[test]
fn removing_an_environment_removes_what_it_encloses() {
    let mut stack = EnvironmentStack::new();
    let a = stack.push();
    let b = stack.push();
    stack.set_head_idx(0);
    assert!(stack.remove_at_idx(a).is_ok());
    assert!(stack.get_env_by_idx_or_err(a).is_err());
    let err = stack.get_env_by_idx_or_err(b).unwrap_err();
    assert_eq!(err.message, "No environment found at idx 2");
    assert_eq!(stack.len(), 3);
}

#[test]
fn a_single_environment_keeps_its_bindings() {
    let mut env = Environment::new(3, Some(1));
    assert_eq!(env.get_idx(), 3);
    assert_eq!(*env.get_parent_idx(), Some(1));
    assert!(!env.can_assign("v"));
    assert!(env.assign("v", LiteralValue::Nil).is_err());
    env.define("v", LiteralValue::True);
    assert!(env.can_assign("v"));
    assert!(matches!(env.get("v"), Some(LiteralValue::True)));
    assert!(env.assign("v", LiteralValue::False).is_ok());
    assert!(matches!(env.get("v"), Some(LiteralValue::False)));
}

#[test]
fn an_environment_knows_its_parent() {
    let mut stack = EnvironmentStack::new();
    stack.push();
    let head = stack.get_env_at_head_or_err().unwrap();
    assert_eq!(head.get_idx(), 1);
    let parent = stack.get_parent(head).unwrap();
    assert_eq!(parent.get_idx(), 0);
    assert!(stack.get_parent(parent).is_none());
}

#[test]
fn every_environment_leads_down_to_the_global_one() {
    let mut stack = EnvironmentStack::new();
    stack.push();
    let child = stack.push_child(0).unwrap();
    assert_eq!(child, 2);
    assert!(stack.push_child(7).is_err());
    let mut env = stack.get_env_at_head_or_err().unwrap();
    let mut steps = 0;
    while let Some(parent) = stack.get_parent(env) {
        env = parent;
        steps += 1;
    }
    assert_eq!(env.get_idx(), 0);
    assert_eq!(steps, 1);
}

#[test]
fn a_lookup_past_an_emptied_environment_finds_nothing() {
    let mut stack = EnvironmentStack::new();
    assert!(stack.define_at_head("x", LiteralValue::True).is_ok());
    stack.push();
    assert!(stack.pop().is_ok());
    let child = stack.push_child(1).unwrap();
    assert_eq!(child, 2);
    assert!(matches!(stack.get_value_at_head(&name("x")), Ok(None)));
    assert!(matches!(stack.get_value_in_env(2, &name("x")), Ok(None)));
    match stack.get_value_in_env(1, &name("x")) {
        Err(e) => assert_eq!(e.message, "No environment found at idx 1"),
        Ok(_) => panic!("the emptied slot has no environment"),
    }
    assert_eq!(text(stack.get_value_at_head_or_err(&name("x"))), "error: Undefined variable: x");
}

#[test]
fn an_environment_changed_in_place_stays_in_the_stack() {
    let mut stack = EnvironmentStack::new();
    stack.get_env_by_idx_mut_or_err(0).unwrap().define("z", LiteralValue::True);
    assert_eq!(text(stack.get_value_at_head_or_err(&name("z"))), "true");
    match stack.get_env_by_idx_mut_or_err(4) {
        Err(e) => assert_eq!(e.message, "No environment found at idx 4"),
        Ok(_) => panic!("there is no environment at 4"),
    }
}

#[test]
fn a_push_then_a_pop_restores_the_head() {
    let mut stack = EnvironmentStack::new();
    stack.push();
    let head = stack.get_head_idx();
    let n = stack.len();
    let i = stack.push();
    assert_eq!(i, n);
    assert!(stack.pop().is_ok());
    assert_eq!(stack.get_head_idx(), head);
    assert_eq!(stack.len(), n + 1);
    assert!(stack.get_env_by_idx_or_err(i).is_err());
    assert!(stack.get_env_by_idx_or_err(head).is_ok());
}
