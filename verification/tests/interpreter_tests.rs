use bea::expressions::Expr;
use bea::statements::Stmt;
use bea::tokens::{Literal, TokenType};
use bea::interpreter::{Interpreter, Request};
use bea::literals::Number;
use bea::parser::Parser;
use bea::scanner::Scanner;
use bea::semantics::ArithOp;

fn number(f: f32) -> Number {
    Number { bits: f.to_bits(), text: format!("{}", f) }
}

fn copy(n: &Number) -> Number {
    Number { bits: n.bits, text: n.text.clone() }
}

/// The reply `f32` arithmetic gives to a request for a number.
fn reply(request: &Request) -> Number {
    match request {
        Request::ParseNumber(digits) => number(digits.parse::<f32>().unwrap()),
        Request::Arithmetic(op, left, right) => {
            let a = f32::from_bits(left.bits);
            let b = f32::from_bits(right.bits);
            number(match op {
                ArithOp::Add => a + b,
                ArithOp::Subtract => a - b,
                ArithOp::Multiply => a * b,
                ArithOp::Divide => a / b,
            })
        },
        Request::Negate(value) => number(-f32::from_bits(value.bits)),
        Request::Print(_) => panic!("printing needs no reply"),
    }
}

fn printed(requests: &[Request]) -> Vec<String> {
    requests
        .iter()
        .filter_map(|r| match r {
            Request::Print(text) => Some(text.clone()),
            _ => None,
        })
        .collect()
}

/// Runs `stmts`, answering each request for a number and running again,
/// until the run needs no more replies.
fn drive(interpreter: &mut Interpreter, stmts: Vec<Stmt>) -> (Vec<String>, Result<(), String>) {
    let mut replies: Vec<Number> = Vec::new();
    loop {
        let run = interpreter.run(&stmts, replies.iter().map(copy).collect());
        match run.waiting {
            Some(request) => replies.push(reply(&request)),
            None => return (printed(&run.requests), run.result.map_err(|e| e.message)),
        }
    }
}

fn run_with(interpreter: &mut Interpreter, source: &str) -> (Vec<String>, Result<(), String>) {
    let tokens = Scanner::scan(source.to_string());
    let (statements, errors) = Parser::parse(tokens);
    assert!(errors.is_empty(), "unexpected parse errors");
    drive(interpreter, statements)
}

fn run(source: &str) -> (Vec<String>, Result<(), String>) {
    let mut interpreter = Interpreter::new();
    run_with(&mut interpreter, source)
}

#[test]
fn prints_a_sum() {
    assert_eq!(run("println(1 + 2);"), (vec!["3".to_string()], Ok(())));
}

#[test]
fn arithmetic_follows_precedence() {
    assert_eq!(run("println(1 + 2 * 3 - 4 / 2);"), (vec!["5".to_string()], Ok(())));
    assert_eq!(run("println((1 + 2) * 3);"), (vec!["9".to_string()], Ok(())));
}

#[test]
fn variables_are_defined_and_read() {
    assert_eq!(run("var a = 1; var b = 2; println(a + b);"), (vec!["3".to_string()], Ok(())));
}

#[test]
fn a_variable_without_initializer_is_nil() {
    assert_eq!(run("var a; println(a);"), (vec!["nil".to_string()], Ok(())));
}

#[test]
fn while_loop_counts() {
    let (out, result) = run("var i = 0; while (i < 3) { println(i); i = i + 1; }");
    assert_eq!(out, vec!["0", "1", "2"]);
    assert_eq!(result, Ok(()));
}

#[test]
fn for_loop_counts() {
    let (out, result) = run("for (var i = 0; i < 2; i = i + 1) println(i);");
    assert_eq!(out, vec!["0", "1"]);
    assert_eq!(result, Ok(()));
}

#[test]
fn if_else_takes_one_branch() {
    assert_eq!(run("if (1 < 2) println(\"yes\"); else println(\"no\");"), (vec!["yes".to_string()], Ok(())));
    assert_eq!(run("if (2 <= 1) println(\"yes\"); else println(\"no\");"), (vec!["no".to_string()], Ok(())));
}

#[test]
fn strings_join_with_values() {
    assert_eq!(run("println(\"a\" + 1);"), (vec!["a1".to_string()], Ok(())));
    assert_eq!(run("println(true + \"b\");"), (vec!["trueb".to_string()], Ok(())));
}

#[test]
fn equality_and_comparison() {
    let (out, _) = run("println(1 == 1); println(\"a\" != \"b\"); println(nil == false); println(2 >= 3);");
    assert_eq!(out, vec!["true", "true", "false", "false"]);
}

#[test]
fn logical_operators_give_an_operand() {
    let (out, _) = run("println(nil or \"x\"); println(false and 1); println(1 and 2);");
    assert_eq!(out, vec!["x", "false", "2"]);
}

#[test]
fn unary_operators() {
    let (out, _) = run("println(-3); println(!nil); println(!0);");
    assert_eq!(out, vec!["-3", "true", "false"]);
}

#[test]
fn blocks_shadow_and_restore() {
    let (out, result) = run("var a = 1; { var a = 2; println(a); } println(a);");
    assert_eq!(out, vec!["2", "1"]);
    assert_eq!(result, Ok(()));
}

#[test]
fn assignment_reaches_enclosing_scope() {
    let (out, _) = run("var a = 1; { a = 5; } println(a);");
    assert_eq!(out, vec!["5"]);
}

#[test]
fn negating_a_string_is_an_error() {
    assert_eq!(run("println(-\"a\");").1, Err("Cannot apply unary operator '-' to token a".to_string()));
}

#[test]
fn reading_an_undefined_variable_is_an_error() {
    assert_eq!(run("println(x);").1, Err("Undefined variable: x".to_string()));
}

#[test]
fn assigning_an_undefined_variable_is_an_error() {
    assert_eq!(run("x = 1;").1, Err("Undefined variable: x".to_string()));
}

#[test]
fn calling_a_number_is_an_error() {
    assert_eq!(run("1();").1, Err("Invalid fn callee: 1".to_string()));
}

#[test]
fn calling_with_too_many_arguments_is_an_error() {
    assert_eq!(run("println(1, 2);").1, Err("Expected 1 arguments but got 2.".to_string()));
}

#[test]
fn subtracting_a_string_is_an_error() {
    assert_eq!(run("println(1 - \"a\");").1, Err("Unable to cast 'a' to number".to_string()));
}

#[test]
fn printing_a_function_shows_its_name() {
    assert_eq!(run("println(println);"), (vec!["<fn println>".to_string()], Ok(())));
}

#[test]
fn an_error_stops_the_program() {
    let (out, result) = run("println(1); println(x); println(2);");
    assert_eq!(out, vec!["1"]);
    assert_eq!(result, Err("Undefined variable: x".to_string()));
}

#[test]
fn an_endless_loop_runs_out_of_budget() {
    let mut interpreter = Interpreter::with_budget(10);
    let (out, result) = run_with(&mut interpreter, "var i = 0; while (true) { i = i + 1; } println(i);");
    assert!(out.is_empty());
    assert_eq!(result, Err("Step budget exhausted".to_string()));
}

#[test]
fn a_loop_within_budget_completes() {
    let mut interpreter = Interpreter::with_budget(3);
    let (out, result) = run_with(&mut interpreter, "var i = 0; while (i < 3) { i = i + 1; } println(i);");
    assert_eq!(out, vec!["3"]);
    assert_eq!(result, Ok(()));
}

#[test]
fn variables_stay_between_runs() {
    let mut interpreter = Interpreter::new();
    assert_eq!(run_with(&mut interpreter, "var a = 41;"), (vec![], Ok(())));
    assert_eq!(run_with(&mut interpreter, "println(a + 1);"), (vec!["42".to_string()], Ok(())));
}

#[test]
fn nan_is_not_equal_to_itself() {
    assert_eq!(run("var n = 0 / 0; println(n == n);"), (vec!["false".to_string()], Ok(())));
}

#[test]
fn zero_equals_negative_zero() {
    assert_eq!(run("println(0 == -0);"), (vec!["true".to_string()], Ok(())));
}

fn statements(source: &str) -> Vec<bea::statements::Stmt> {
    let (statements, errors) = Parser::parse(Scanner::scan(source.to_string()));
    assert!(errors.is_empty());
    statements
}

fn param(n: &str) -> bea::tokens::Token {
    bea::tokens::Token {
        token_type: bea::tokens::TokenType::Identifier,
        lexeme: n.to_string(),
        literal: bea::tokens::Literal::Nil,
        line: 1,
        column: 1,
    }
}

#[test]
fn a_declared_function_runs_in_its_closure() {
    let mut interpreter = Interpreter::new();
    assert_eq!(drive(&mut interpreter, statements("var x = 5;")), (vec![], Ok(())));
    let f = bea::callable::BeaFn::new("f".to_string(), vec![param("y")], statements("println(x + y);"), 0);
    assert_eq!(f.name(), "f");
    assert_eq!(f.arity(), 1);
    interpreter.supply(vec![number(6.0)]);
    let r = f.call(&mut interpreter, vec![bea::literals::LiteralValue::Num(number(1.0))]).unwrap();
    assert_eq!(r.cast_string(), "nil");
    let requests = interpreter.requests();
    assert_eq!(requests.len(), 2);
    match &requests[0] {
        Request::Arithmetic(ArithOp::Add, a, b) => assert_eq!((a.bits, b.bits), (5.0f32.to_bits(), 1.0f32.to_bits())),
        other => panic!("unexpected request {:?}", other),
    }
    assert_eq!(printed(requests), vec!["6"]);
    assert_eq!(interpreter.environment_stack.get_head_idx(), 0);
}

#[test]
fn a_function_without_closure_cannot_be_called() {
    let mut interpreter = Interpreter::new();
    let g = bea::callable::create_bea_fn("g".to_string(), Vec::new(), Vec::new(), None);
    let err = interpreter.call_function(&g, Vec::new()).unwrap_err();
    assert_eq!(err.message, "Unable to call Fn with empty closure index: g");
}

#[test]
fn the_builtin_prints_its_argument() {
    let mut interpreter = Interpreter::new();
    let p = bea::callable::BeaBuiltinPrintln;
    assert_eq!(p.name(), "println");
    assert_eq!(p.arity(), 1);
    let r = p.call(&mut interpreter, vec![bea::literals::LiteralValue::Str("hi".to_string())]).unwrap();
    assert_eq!(r.cast_string(), "nil");
    assert_eq!(printed(interpreter.requests()), vec!["hi"]);
}

#[test]
fn a_block_returns_when_a_statement_returns() {
    let mut interpreter = Interpreter::new();
    let token = param("return");
    let body = vec![
        bea::statements::Stmt::Return(token, Some(bea::expressions::Expr::Literal(bea::tokens::Literal::True))),
        bea::statements::Stmt::Expr(bea::expressions::Expr::Variable(param("missing"))),
    ];
    match interpreter.execute_block(&body, 5).unwrap() {
        bea::interpreter::BeaControlFlow::Return(v) => assert_eq!(v.cast_string(), "true"),
        other => panic!("unexpected flow {:?}", other),
    }
}

#[test]
fn a_runtime_error_carries_its_message() {
    assert_eq!(bea::interpreter::RuntimeErr::new("m".to_string()).message, "m");
    assert_eq!(bea::interpreter::runtime_err("n".to_string()).unwrap_err().message, "n");
}

#[test]
fn comparisons_mirror_each_other() {
    let (out, _) = run("println(1 < 2); println(2 > 1); println(2 <= 2); println(2 >= 2); println(3 < 1); println(1 > 3);");
    assert_eq!(out, vec!["true", "true", "true", "true", "false", "false"]);
    assert_eq!(run("println(\"a\" < 1);").1, Err("Unable to cast 'a' to number".to_string()));
    assert_eq!(run("println(1 > \"a\");").1, Err("Unable to cast 'a' to number".to_string()));
}

fn token(kind: bea::tokens::TokenType, lexeme: &str) -> bea::tokens::Token {
    bea::tokens::Token { token_type: kind, lexeme: lexeme.to_string(), literal: bea::tokens::Literal::Nil, line: 1, column: 1 }
}

fn run_statements(stmts: Vec<bea::statements::Stmt>) -> (Vec<String>, Result<(), String>) {
    let mut interpreter = Interpreter::new();
    drive(&mut interpreter, stmts)
}

#[test]
fn an_unknown_unary_operator_is_an_error() {
    let e = Expr::Unary(token(TokenType::Plus, "+"), Box::new(Expr::Literal(Literal::True)));
    assert_eq!(run_statements(vec![Stmt::Expr(e)]).1, Err("Unexpected unary operator: Plus".to_string()));
}

#[test]
fn an_unknown_binary_operator_is_an_error() {
    let e = Expr::Binary(
        Box::new(Expr::Literal(Literal::True)),
        token(TokenType::Comma, ","),
        Box::new(Expr::Literal(Literal::Nil)),
    );
    assert_eq!(run_statements(vec![Stmt::Expr(e)]).1, Err("Unexpected operator in binary expression: 'Comma'".to_string()));
}

#[test]
fn a_declared_function_returns_a_value() {
    let body = vec![Stmt::Return(token(TokenType::Return, "return"), Some(Expr::Variable(token(TokenType::Identifier, "y"))))];
    let declare = Stmt::Function("f".to_string(), vec![token(TokenType::Identifier, "y")], body);
    let mut rest = statements("println(f(7)); println(f);");
    let mut program = vec![declare];
    program.append(&mut rest);
    assert_eq!(run_statements(program), (vec!["7".to_string(), "<fn f>".to_string()], Ok(())));
}

#[test]
fn a_top_level_return_ends_the_program() {
    let mut program = statements("println(1);");
    program.push(Stmt::Return(token(TokenType::Return, "return"), None));
    program.append(&mut statements("println(2);"));
    assert_eq!(run_statements(program), (vec!["1".to_string()], Ok(())));
}

#[test]
fn nested_blocks_each_restore_the_head() {
    let (out, result) = run("var a = 1; { var a = 2; { var a = 3; println(a); } println(a); } var b = a; println(b);");
    assert_eq!(out, vec!["3", "2", "1"]);
    assert_eq!(result, Ok(()));
}

#[test]
fn a_call_inside_a_block_returns_to_the_block() {
    let body = vec![Stmt::Return(token(TokenType::Return, "return"), Some(Expr::Variable(token(TokenType::Identifier, "y"))))];
    let declare = Stmt::Function("f".to_string(), vec![token(TokenType::Identifier, "y")], body);
    let mut program = vec![declare];
    program.append(&mut statements("var a = 1; { var a = 2; println(f(7)); println(a); } println(a);"));
    assert_eq!(run_statements(program), (vec!["7".to_string(), "2".to_string(), "1".to_string()], Ok(())));
}

#[test]
fn an_assigned_value_reads_back() {
    let (out, result) = run("var x = 3; println(x); x = 4; println(x); println(x = 5); println(x);");
    assert_eq!(out, vec!["3", "4", "5", "5"]);
    assert_eq!(result, Ok(()));
}

#[test]
fn a_run_waits_for_the_reply_it_lacks_and_keeps_the_environments() {
    let mut interpreter = Interpreter::new();
    let stmts = statements("var a = 2; a = a - 1; println(a);");
    let first = interpreter.run(&stmts, Vec::new());
    match first.waiting {
        Some(Request::ParseNumber(ref digits)) => assert_eq!(digits, "2"),
        ref other => panic!("unexpected {:?}", other),
    }
    assert_eq!(first.result.unwrap_err().message, "Awaiting a reply from the host");
    let second = interpreter.run(&stmts, vec![number(2.0)]);
    match second.waiting {
        Some(Request::ParseNumber(ref digits)) => assert_eq!(digits, "1"),
        ref other => panic!("unexpected {:?}", other),
    }
    let third = interpreter.run(&stmts, vec![number(2.0), number(1.0)]);
    match third.waiting {
        Some(Request::Arithmetic(ArithOp::Subtract, ref a, ref b)) => {
            assert_eq!((a.bits, b.bits), (2.0f32.to_bits(), 1.0f32.to_bits()))
        },
        ref other => panic!("unexpected {:?}", other),
    }
    let last = interpreter.run(&stmts, vec![number(2.0), number(1.0), number(1.0)]);
    assert!(last.waiting.is_none());
    assert_eq!(printed(&last.requests), vec!["1"]);
    assert!(last.result.is_ok());
    assert_eq!(run_with(&mut interpreter, "println(a);").0, vec!["1"]);
}

#[test]
fn the_operands_handed_out_are_those_of_the_program() {
    let mut interpreter = Interpreter::new();
    let stmts = statements("println(7 - 2); println(-3); println(4 / 8);");
    let replies = vec![number(7.0), number(2.0), number(5.0), number(3.0), number(-3.0), number(4.0), number(8.0), number(0.5)];
    let run = interpreter.run(&stmts, replies);
    assert!(run.waiting.is_none());
    let kinds: Vec<String> = run.requests.iter().map(|r| format!("{:?}", r)).collect();
    assert_eq!(kinds.len(), 11);
    match &run.requests[2] {
        Request::Arithmetic(ArithOp::Subtract, a, b) => assert_eq!((a.bits, b.bits), (7.0f32.to_bits(), 2.0f32.to_bits())),
        other => panic!("unexpected {:?}", other),
    }
    match &run.requests[5] {
        Request::Negate(a) => assert_eq!(a.bits, 3.0f32.to_bits()),
        other => panic!("unexpected {:?}", other),
    }
    match &run.requests[9] {
        Request::Arithmetic(ArithOp::Divide, a, b) => assert_eq!((a.bits, b.bits), (4.0f32.to_bits(), 8.0f32.to_bits())),
        other => panic!("unexpected {:?}", other),
    }
    assert_eq!(printed(&run.requests), vec!["5", "-3", "0.5"]);
}

#[test]
fn a_function_outliving_its_block_finds_no_block_variable() {
    let function = Stmt::Function("g".to_string(), vec![], statements("y;"));
    let mut inner = statements("var y = 1;");
    inner.push(function);
    inner.append(&mut statements("h = g;"));
    let mut program = statements("var h;");
    program.push(Stmt::Block(inner));
    program.append(&mut statements("h();"));
    assert_eq!(run_statements(program), (vec![], Err("Undefined variable: y".to_string())));
}
