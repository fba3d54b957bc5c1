//! The interpreter: runs statements.
use vstd::prelude::*;

use crate::callable::{BeaBuiltinPrintln, BeaFn, Callable, CallableBody, CallableParam, create_bea_fn, get_builtin_println};
use crate::environments::environment_stack::{EnvironmentStack, initial_stack, spec_push_child, stack_wf};
use crate::expressions::{Expr, exprs_view, lemma_exprs_view};
use crate::literals::{
    LiteralValue, LiteralValueType, LiteralValueView, Number, NumberView, display, number_less,
    number_less_equal,
};
use crate::semantics::{
    ArithOp, Flow, HostRequest, RunState, arity, ask, can_grow, tell, binary_numbers, declared_fn, define_params, expr_size,
    exprs_size, extends, lemma_exprs_size, lemma_stmts_size, spec_binary, spec_call, spec_eval,
    spec_eval_args, spec_exec, spec_exec_block, spec_interpret, spec_literal, spec_run, spec_unary,
    stmt_size, stmts_size,
};
use crate::statements::{Stmt, duplicate_stmts, lemma_stmts_view, stmts_view, token_seq_view};
use crate::text::{push_decimal, push_str, string_of};
use crate::tokens::{Literal, Token, TokenType};

verus! {

broadcast use crate::semantics::lemma_extends_trans;

/// What a run asks of the program around it, which holds floating point
/// (numbers are single-precision floats given by their bit patterns, with
/// the text `{}` renders them as; see [`Number`]) and prints.
#[derive(Debug)]
pub enum Request {
    /// The number the digits of a number literal denote.
    ParseNumber(String),
    /// `left + right`, `left - right`, `left * right` or `left / right`.
    Arithmetic(ArithOp, Number, Number),
    /// `-value`.
    Negate(Number),
    /// Printing `text` on a line of its own.
    Print(String),
}

impl View for Request {
    type V = HostRequest;

    open spec fn view(&self) -> HostRequest {
        match self {
            Request::ParseNumber(d) => HostRequest::ParseNumber(d@),
            Request::Arithmetic(op, a, b) => HostRequest::Arithmetic(*op, a@, b@),
            Request::Negate(a) => HostRequest::Negate(a@),
            Request::Print(t) => HostRequest::Print(t@),
        }
    }
}

/// The views of a sequence of requests.
pub open spec fn requests_view(rs: Seq<Request>) -> Seq<HostRequest> {
    rs.map_values(|r: Request| r@)
}

/// The view of an optional request.
pub open spec fn opt_request_view(o: Option<Request>) -> Option<HostRequest> {
    match o {
        Some(r) => Some(r@),
        None => None,
    }
}

/// The views of a sequence of numbers.
pub open spec fn numbers_view(ns: Seq<Number>) -> Seq<NumberView> {
    ns.map_values(|n: Number| n@)
}

/// The view of the outcome of a request for a number.
pub open spec fn number_result(r: Result<Number, RuntimeErr>) -> Result<NumberView, Seq<char>> {
    match r {
        Ok(n) => Ok(n@),
        Err(e) => Err(e.message@),
    }
}

/// What a run did: how it ended, the requests it made, in order, and the
/// request it stopped at for want of a reply, if it did.
#[derive(Debug)]
pub struct Run {
    pub result: Result<(), RuntimeErr>,
    pub requests: Vec<Request>,
    pub waiting: Option<Request>,
}

/// An error raised while running a program.
#[derive(Debug)]
pub struct RuntimeErr {
    pub message: String,
}

impl RuntimeErr {
    /// An error carrying `message`.
    pub fn new(message: String) -> (r: Self)
        ensures
            r.message@ == message@,
    {
        Self { message }
    }
}

/// A failed evaluation carrying `message`.
pub fn runtime_err(message: String) -> (r: Result<LiteralValue, RuntimeErr>)
    ensures
        r matches Err(e) && e.message@ == message@,
{
    Err(RuntimeErr::new(message))
}

/// What a statement tells the statements around it: go on, or return a value.
#[derive(Debug)]
pub enum BeaControlFlow {
    Continue,
    Return(LiteralValue),
}

impl View for BeaControlFlow {
    type V = Flow;

    open spec fn view(&self) -> Flow {
        match self {
            BeaControlFlow::Continue => Flow::Continue,
            BeaControlFlow::Return(v) => Flow::Return(v@),
        }
    }
}

/// The view of the outcome of an evaluation.
pub open spec fn value_result(r: Result<LiteralValue, RuntimeErr>) -> Result<LiteralValueView, Seq<char>> {
    match r {
        Ok(v) => Ok(v@),
        Err(e) => Err(e.message@),
    }
}

/// The view of the outcome of a statement.
pub open spec fn flow_result(r: Result<BeaControlFlow, RuntimeErr>) -> Result<Flow, Seq<char>> {
    match r {
        Ok(f) => Ok(f@),
        Err(e) => Err(e.message@),
    }
}

/// The view of the outcome of a run.
pub open spec fn unit_result(r: Result<(), RuntimeErr>) -> Result<(), Seq<char>> {
    match r {
        Ok(()) => Ok(()),
        Err(e) => Err(e.message@),
    }
}

/// The views of a sequence of values.
pub open spec fn values_view(vs: Seq<LiteralValue>) -> Seq<LiteralValueView> {
    vs.map_values(|v: LiteralValue| v@)
}

/// The two numbers of a binary operation, or the error for the first
/// operand that is no number.
pub fn parse_floats_from_binary_expr(left: &LiteralValue, right: &LiteralValue) -> (r: Result<(Number, Number), RuntimeErr>)
    ensures
        match binary_numbers(left@, right@) {
            Ok((a, b)) => r matches Ok((x, y)) && x@ == a && y@ == b,
            Err(m) => r matches Err(e) && e.message@ == m,
        },
{
    let l = match left.cast_float() {
        Err(msg) => return Err(RuntimeErr::new(msg)),
        Ok(f) => f,
    };
    let r = match right.cast_float() {
        Err(msg) => return Err(RuntimeErr::new(msg)),
        Ok(f) => f,
    };
    Ok((l, r))
}

/// Whether a value is a string.
pub fn is_string_literal(literal: &LiteralValue) -> (r: bool)
    ensures
        r == (literal@ is Str),
{
    matches!(literal, LiteralValue::Str(_))
}

/// Runs programs, keeping the environments between runs.  The replies
/// to its requests for numbers are given to it before a run.
pub struct Interpreter {
    pub environment_stack: EnvironmentStack,
    requests: Ghost<Seq<HostRequest>>,
    replies: Ghost<Seq<NumberView>>,
    budget: u64,
    given: Vec<Number>,
    next: usize,
    log: Vec<Request>,
    pending: Option<Request>,
}

impl Interpreter {
    /// The state of the interpreter: its environments, the requests it
    /// made, how many replies it read, and the request it waits on.
    pub closed spec fn state(&self) -> RunState {
        RunState {
            envs: self.environment_stack@,
            requests: self.requests@,
            used: self.replies@.len(),
            waiting: opt_request_view(self.pending),
        }
    }

    /// The replies given for the run.
    pub closed spec fn given(&self) -> Seq<NumberView> {
        numbers_view(self.given@)
    }

    /// How many iterations each loop, and how many nested calls, a run allows.
    pub closed spec fn budget(&self) -> nat {
        self.budget as nat
    }

    /// The environments are well formed, the requests made are those
    /// recorded, and the replies read are the first of those given.
    pub closed spec fn wf(&self) -> bool {
        &&& self.environment_stack.wf()
        &&& requests_view(self.log@) == self.requests@
        &&& self.next == self.replies@.len()
        &&& self.next <= self.given.len()
        &&& self.replies@ == numbers_view(self.given@).take(self.next as int)
        &&& (self.pending is Some ==> self.next == self.given.len())
    }

    /// Well formed and not waiting for a reply.
    pub closed spec fn ready(&self) -> bool {
        self.wf() && self.pending is None
    }

    /// What a reply sequence `rp` must be for this state to be the
    /// outcome of a run on it: the replies read begin it, and a run that
    /// waits found none left.
    spec fn settles(&self, rp: Seq<NumberView>) -> bool {
        self.pending is Some ==> rp.len() == self.replies@.len()
    }

    proof fn lemma_given_settles(&self)
        requires
            self.wf(),
        ensures
            extends(self.replies@, self.given()),
            self.settles(self.given()),
    {
    }

    /// The environments (the public field `environment_stack`).
    pub fn environments(&self) -> (r: &EnvironmentStack)
        ensures
            r@ == self.state().envs,
            self.wf() ==> r.wf(),
    {
        &self.environment_stack
    }

    /// Under [`Interpreter::wf`], the environments satisfy [`stack_wf`].
    pub proof fn lemma_stack_wf(&self)
        requires
            self.wf(),
        ensures
            stack_wf(self.state().envs),
    {
        self.environment_stack.lemma_stack_wf();
    }

    /// An interpreter with only the global environment, with the largest budget.
    pub fn new() -> (r: Self)
        ensures
            r.ready(),
            r.state() == (RunState { envs: initial_stack(), requests: Seq::empty(), used: 0, waiting: None }),
            r.given() == Seq::<NumberView>::empty(),
            r.budget() == u64::MAX,
    {
        Self::with_budget(u64::MAX)
    }

    /// An interpreter with only the global environment, that allows
    /// `budget` iterations of each loop and `budget` nested calls.
    pub fn with_budget(budget: u64) -> (r: Self)
        ensures
            r.ready(),
            r.state() == (RunState { envs: initial_stack(), requests: Seq::empty(), used: 0, waiting: None }),
            r.given() == Seq::<NumberView>::empty(),
            r.budget() == budget,
    {
        let r = Self {
            environment_stack: EnvironmentStack::new(),
            requests: Ghost(Seq::empty()),
            replies: Ghost(Seq::empty()),
            budget,
            given: Vec::new(),
            next: 0,
            log: Vec::new(),
            pending: None,
        };
        proof {
            assert(requests_view(r.log@) =~= Seq::<HostRequest>::empty());
            assert(numbers_view(r.given@).take(0) =~= Seq::<NumberView>::empty());
        }
        r
    }

    /// Starts a run with the replies `replies`: no request made, none
    /// read, nothing waited on; the environments stay.
    pub fn supply(&mut self, replies: Vec<Number>)
        requires
            old(self).wf(),
        ensures
            final(self).ready(),
            final(self).state() == (RunState { envs: old(self).state().envs, requests: Seq::empty(), used: 0, waiting: None }),
            final(self).given() == numbers_view(replies@),
            final(self).budget() == old(self).budget(),
    {
        self.given = replies;
        self.next = 0;
        self.log = Vec::new();
        self.pending = None;
        proof {
            self.requests@ = Seq::empty();
            self.replies@ = Seq::empty();
            assert(requests_view(self.log@) =~= Seq::<HostRequest>::empty());
            assert(numbers_view(self.given@).take(0) =~= Seq::<NumberView>::empty());
        }
    }

    /// The requests made since the replies were given, in order.
    pub fn requests(&self) -> (r: &Vec<Request>)
        requires
            self.wf(),
        ensures
            requests_view(r@) == self.state().requests,
    {
        &self.log
    }

    /// The request the run waits on, if it stopped for want of a reply.
    pub fn waiting(&self) -> (r: &Option<Request>)
        ensures
            opt_request_view(*r) == self.state().waiting,
    {
        &self.pending
    }

    /// Asks for a number: gives the next reply and records `req`, or,
    /// with none left, waits on `req`.
    fn answer(&mut self, req: Request) -> (r: Result<Number, RuntimeErr>)
        requires
            old(self).ready(),
        ensures
            final(self).wf(),
            final(self).environment_stack == old(self).environment_stack,
            final(self).budget == old(self).budget,
            final(self).given == old(self).given,
            extends(old(self).replies@, final(self).replies@),
            forall|rp: Seq<NumberView>| #[trigger] extends(final(self).replies@, rp) && final(self).settles(rp) ==>
                ask(old(self).state(), req@, rp) == (final(self).state(), number_result(r)),
            final(self).pending is Some ==> r is Err,
    {
        if self.next < self.given.len() {
            let n = self.given[self.next].duplicate();
            let ghost rv = req@;
            proof {
                self.requests@ = self.requests@.push(rv);
                self.replies@ = self.replies@.push(n@);
            }
            self.log.push(req);
            self.next = self.next + 1;
            proof {
                assert(requests_view(self.log@) =~= requests_view(old(self).log@).push(rv));
                assert(self.replies@ =~= numbers_view(self.given@).take(self.next as int));
            }
            Ok(n)
        } else {
            self.pending = Some(req);
            Err(RuntimeErr::new(string_of("Awaiting a reply from the host")))
        }
    }

    fn host_print(&mut self, text: &String)
        requires
            old(self).ready(),
        ensures
            final(self).ready(),
            final(self).environment_stack == old(self).environment_stack,
            final(self).budget == old(self).budget,
            final(self).given == old(self).given,
            final(self).state() == tell(old(self).state(), text@),
            final(self).replies@ == old(self).replies@,
    {
        let ghost rv = HostRequest::Print(text@);
        proof {
            self.requests@ = self.requests@.push(rv);
        }
        self.log.push(Request::Print(text.clone()));
        proof {
            assert(requests_view(self.log@) =~= requests_view(old(self).log@).push(rv));
        }
    }

    fn eval_literal(&mut self, l: &Literal) -> (r: Result<LiteralValue, RuntimeErr>)
        requires
            old(self).ready(),
        ensures
            final(self).wf(),
            final(self).environment_stack == old(self).environment_stack,
            final(self).budget == old(self).budget,
            final(self).given == old(self).given,
            extends(old(self).replies@, final(self).replies@),
            forall|rp: Seq<NumberView>| #[trigger] extends(final(self).replies@, rp) && final(self).settles(rp) ==>
                spec_literal(l@, old(self).state(), rp) == (final(self).state(), value_result(r)),
            final(self).pending is Some ==> r is Err,
    {
        match l {
            Literal::Nil => Ok(LiteralValue::Nil),
            Literal::True => Ok(LiteralValue::True),
            Literal::False => Ok(LiteralValue::False),
            Literal::Str(s) => Ok(LiteralValue::Str(s.clone())),
            Literal::Num(digits) => match self.answer(Request::ParseNumber(digits.clone())) {
                Ok(n) => Ok(LiteralValue::Num(n)),
                Err(e) => Err(e),
            },
        }
    }

    fn eval_unary(&mut self, operator: &Token, right: LiteralValue) -> (r: Result<LiteralValue, RuntimeErr>)
        requires
            old(self).ready(),
        ensures
            final(self).wf(),
            final(self).given == old(self).given,
            final(self).pending is Some ==> r is Err,
            final(self).environment_stack == old(self).environment_stack,
            final(self).budget == old(self).budget,
            extends(old(self).replies@, final(self).replies@),
            forall|rp: Seq<NumberView>| #[trigger] extends(final(self).replies@, rp) && final(self).settles(rp) ==>
                spec_unary(operator.token_type, right@, old(self).state(), rp) == (final(self).state(), value_result(r)),
    {
        let t = operator.token_type;
        if t == TokenType::Minus {
            match &right {
                LiteralValue::Num(n) => match self.answer(Request::Negate(n.duplicate())) {
                    Ok(m) => Ok(LiteralValue::Num(m)),
                    Err(e) => Err(e),
                },
                _ => {
                    let mut msg = string_of("Cannot apply unary operator '-' to token ");
                    let shown = right.cast_string();
                    push_str(&mut msg, shown.as_str());
                    runtime_err(msg)
                },
            }
        } else if t == TokenType::Bang {
            Ok(right.to_inverse_bool_literal_value())
        } else {
            let mut msg = string_of("Unexpected unary operator: ");
            push_str(&mut msg, t.name());
            runtime_err(msg)
        }
    }

    fn eval_binary(&mut self, operator: &Token, left: LiteralValue, right: LiteralValue) -> (r: Result<LiteralValue, RuntimeErr>)
        requires
            old(self).ready(),
        ensures
            final(self).wf(),
            final(self).given == old(self).given,
            final(self).pending is Some ==> r is Err,
            final(self).environment_stack == old(self).environment_stack,
            final(self).budget == old(self).budget,
            extends(old(self).replies@, final(self).replies@),
            forall|rp: Seq<NumberView>| #[trigger] extends(final(self).replies@, rp) && final(self).settles(rp) ==>
                spec_binary(operator.token_type, left@, right@, old(self).state(), rp) == (final(self).state(), value_result(r)),
    {
        let t = operator.token_type;
        if t == TokenType::Minus || t == TokenType::Star || t == TokenType::Slash || (t == TokenType::Plus
            && !(is_string_literal(&left) || is_string_literal(&right))) {
            let (a, b) = match parse_floats_from_binary_expr(&left, &right) {
                Err(e) => return Err(e),
                Ok(p) => p,
            };
            let op = if t == TokenType::Minus {
                ArithOp::Subtract
            } else if t == TokenType::Star {
                ArithOp::Multiply
            } else if t == TokenType::Slash {
                ArithOp::Divide
            } else {
                ArithOp::Add
            };
            match self.answer(Request::Arithmetic(op, a, b)) {
                Ok(n) => Ok(LiteralValue::Num(n)),
                Err(e) => Err(e),
            }
        } else if t == TokenType::Plus {
            let mut value = left.cast_string();
            let r = right.cast_string();
            push_str(&mut value, r.as_str());
            Ok(LiteralValue::Str(value))
        } else if t == TokenType::Greater || t == TokenType::GreaterEqual || t == TokenType::Less || t
            == TokenType::LessEqual {
            let (a, b) = match parse_floats_from_binary_expr(&left, &right) {
                Err(e) => return Err(e),
                Ok(p) => p,
            };
            let value = if t == TokenType::Greater {
                number_less(&b, &a)
            } else if t == TokenType::GreaterEqual {
                number_less_equal(&b, &a)
            } else if t == TokenType::Less {
                number_less(&a, &b)
            } else {
                number_less_equal(&a, &b)
            };
            Ok(LiteralValue::from_bool(value))
        } else if t == TokenType::EqualEqual {
            Ok(LiteralValue::from_bool(left.equals(&right)))
        } else if t == TokenType::BangEqual {
            Ok(LiteralValue::from_bool(!left.equals(&right)))
        } else {
            let mut msg = string_of("Unexpected operator in binary expression: '");
            push_str(&mut msg, t.name());
            push_str(&mut msg, "'");
            runtime_err(msg)
        }
    }

    fn evaluate_expr(&mut self, expr: &Expr, fuel: u64) -> (r: Result<LiteralValue, RuntimeErr>)
        requires
            old(self).ready(),
        ensures
            final(self).wf(),
            final(self).given == old(self).given,
            final(self).pending is Some ==> r is Err,
            final(self).budget == old(self).budget,
            final(self).environment_stack@.envs.len() >= old(self).environment_stack@.envs.len(),
            extends(old(self).replies@, final(self).replies@),
            forall|rp: Seq<NumberView>| #[trigger] extends(final(self).replies@, rp) && final(self).settles(rp) ==>
                spec_eval(expr@, old(self).state(), rp, fuel as nat) == (final(self).state(), value_result(r)),
        decreases fuel, 1int, expr_size(expr@), 0int,
    {
        match expr {
            Expr::Literal(l) => self.eval_literal(l),
            Expr::Logical(left, operator, right) => {
                let left = match self.evaluate_expr(left, fuel) {
                    Err(e) => return Err(e),
                    Ok(v) => v,
                };
                if operator.token_type == TokenType::Or {
                    if left.is_truthy() {
                        return Ok(left);
                    }
                } else if !left.is_truthy() {
                    return Ok(left);
                }
                self.evaluate_expr(right, fuel)
            },
            Expr::Assign(name, value_expr) => {
                let value = match self.evaluate_expr(value_expr, fuel) {
                    Err(e) => return Err(e),
                    Ok(v) => v,
                };
                match self.environment_stack.assign_at_head(name, value.duplicate()) {
                    Err(e) => Err(e),
                    Ok(_) => Ok(value),
                }
            },
            Expr::Grouping(inner) => self.evaluate_expr(inner, fuel),
            Expr::Unary(operator, right) => {
                let right = match self.evaluate_expr(right, fuel) {
                    Err(e) => return Err(e),
                    Ok(v) => v,
                };
                self.eval_unary(operator, right)
            },
            Expr::Binary(left, operator, right) => {
                let left = match self.evaluate_expr(left, fuel) {
                    Err(e) => return Err(e),
                    Ok(v) => v,
                };
                let right = match self.evaluate_expr(right, fuel) {
                    Err(e) => return Err(e),
                    Ok(v) => v,
                };
                self.eval_binary(operator, left, right)
            },
            Expr::Variable(name) => self.environment_stack.get_value_at_head_or_err(name),
            Expr::Call(callee, _paren, arguments) => {
                proof {
                    lemma_exprs_view(arguments@);
                }
                let callee = match self.evaluate_expr(callee, fuel) {
                    Err(e) => return Err(e),
                    Ok(v) => v,
                };
                let callable = match callee {
                    LiteralValue::Fn(c) => c,
                    other => {
                        let mut msg = string_of("Invalid fn callee: ");
                        let shown = other.cast_string();
                        push_str(&mut msg, shown.as_str());
                        return runtime_err(msg);
                    },
                };
                let expected = match &callable.body {
                    CallableBody::Builtin => 1,
                    CallableBody::Statements(_) => callable.params.len(),
                };
                if arguments.len() != expected {
                    let mut msg = string_of("Expected ");
                    push_decimal(&mut msg, expected);
                    push_str(&mut msg, " arguments but got ");
                    push_decimal(&mut msg, arguments.len());
                    push_str(&mut msg, ".");
                    return runtime_err(msg);
                }
                let values = match self.evaluate_arguments(arguments, fuel) {
                    Err(e) => return Err(e),
                    Ok(vs) => vs,
                };
                self.call(&callable, values, fuel)
            },
        }
    }

    fn evaluate_arguments(&mut self, arguments: &Vec<Expr>, fuel: u64) -> (r: Result<Vec<LiteralValue>, RuntimeErr>)
        requires
            old(self).ready(),
        ensures
            final(self).wf(),
            final(self).given == old(self).given,
            final(self).pending is Some ==> r is Err,
            final(self).budget == old(self).budget,
            final(self).environment_stack@.envs.len() >= old(self).environment_stack@.envs.len(),
            extends(old(self).replies@, final(self).replies@),
            forall|rp: Seq<NumberView>| #[trigger] extends(final(self).replies@, rp) && final(self).settles(rp) ==>
                spec_eval_args(exprs_view(arguments@), 0, Seq::empty(), old(self).state(), rp, fuel as nat) == (
                    final(self).state(),
                    match r {
                        Ok(vs) => Ok(values_view(vs@)),
                        Err(e) => Err(e.message@),
                    },
                ),
            r matches Ok(vs) ==> vs.len() == arguments.len(),
        decreases fuel, 1int, exprs_size(exprs_view(arguments@)), 1int,
    {
        let ghost av = exprs_view(arguments@);
        proof {
            lemma_exprs_view(arguments@);
        }
        let mut values: Vec<LiteralValue> = Vec::new();
        let mut i: usize = 0;
        assert(values_view(values@) =~= Seq::<LiteralValueView>::empty());
        while i < arguments.len()
            invariant
                self.ready(),
                self.given == old(self).given,
                self.budget == old(self).budget,
                self.environment_stack@.envs.len() >= old(self).environment_stack@.envs.len(),
                av == exprs_view(arguments@),
                av.len() == arguments.len(),
                forall|j: int| 0 <= j < arguments.len() ==> #[trigger] av[j] == arguments@[j]@,
                i <= arguments.len(),
                values.len() == i,
                extends(old(self).replies@, self.replies@),
                forall|rp: Seq<NumberView>| #[trigger] extends(self.replies@, rp) ==>
                    spec_eval_args(av, 0, Seq::empty(), old(self).state(), rp, fuel as nat)
                        == spec_eval_args(av, i as int, values_view(values@), self.state(), rp, fuel as nat),
            decreases arguments.len() - i,
        {
            proof {
                lemma_exprs_size(av, i as int);
            }
            let ghost before_values = values_view(values@);
            let v = match self.evaluate_expr(&arguments[i], fuel) {
                Err(e) => return Err(e),
                Ok(v) => v,
            };
            let ghost vv = v@;
            values.push(v);
            assert(values_view(values@) =~= before_values.push(vv));
            i = i + 1;
        }
        Ok(values)
    }

    fn call(&mut self, callable: &Callable, arguments: Vec<LiteralValue>, fuel: u64) -> (r: Result<LiteralValue, RuntimeErr>)
        requires
            old(self).ready(),
            arguments.len() >= arity(callable@),
        ensures
            final(self).wf(),
            final(self).given == old(self).given,
            final(self).pending is Some ==> r is Err,
            final(self).budget == old(self).budget,
            final(self).environment_stack@.envs.len() >= old(self).environment_stack@.envs.len(),
            extends(old(self).replies@, final(self).replies@),
            forall|rp: Seq<NumberView>| #[trigger] extends(final(self).replies@, rp) && final(self).settles(rp) ==>
                spec_call(callable@, values_view(arguments@), old(self).state(), rp, fuel as nat) == (final(self).state(), value_result(r)),
        decreases fuel, 0int, 0int, 0int,
    {
        match &callable.body {
            CallableBody::Builtin => {
                let text = arguments[0].cast_string();
                self.host_print(&text);
                Ok(LiteralValue::Nil)
            },
            CallableBody::Statements(body) => {
                if fuel == 0 {
                    return runtime_err(string_of("Step budget exhausted"));
                }
                let closure_idx = match callable.closure_idx {
                    Some(c) => c,
                    None => {
                        let mut msg = string_of("Unable to call Fn with empty closure index: ");
                        push_str(&mut msg, callable.name.as_str());
                        return runtime_err(msg);
                    },
                };
                if self.environment_stack.len() >= usize::MAX - 3 {
                    return runtime_err(string_of("Too many environments"));
                }
                let prev_head = self.environment_stack.get_head_idx();
                match self.environment_stack.push_child(closure_idx) {
                    Err(e) => return Err(e),
                    Ok(_) => {},
                }
                let ghost envs1 = self.environment_stack@;
                let ghost params = callable@.params;
                let ghost vals = values_view(arguments@);
                let mut i: usize = 0;
                while i < callable.params.len()
                    invariant
                        self.ready(),
                        self.given == old(self).given,
                        self.budget == old(self).budget,
                        self.replies@ == old(self).replies@,
                        self.requests@ == old(self).requests@,
                        old(self).pending is None,
                        self.environment_stack@.envs.len() >= old(self).environment_stack@.envs.len(),
                        prev_head < old(self).environment_stack@.envs.len(),
                        prev_head == old(self).environment_stack@.head,
                        fuel > 0,
                        callable.body == CallableBody::Statements(*body),
                        callable@.closure_idx == Some(closure_idx),
                        can_grow(old(self).environment_stack@),
                        spec_push_child(old(self).environment_stack@, closure_idx) == Ok::<_, Seq<char>>(envs1),
                        params == callable@.params,
                        params.len() == callable.params.len(),
                        vals == values_view(arguments@),
                        arguments.len() >= callable.params.len(),
                        i <= callable.params.len(),
                        define_params(envs1, params, vals, 0) == define_params(self.environment_stack@, params, vals, i as int),
                    decreases callable.params.len() - i,
                {
                    let value = arguments[i].duplicate();
                    let ghost before = self.environment_stack@;
                    assert(params[i as int].name == callable.params@[i as int].name@);
                    assert(vals[i as int] == value@);
                    match self.environment_stack.define_at_head(callable.params[i].name.as_str(), value) {
                        Err(e) => {
                            assert(define_params(before, params, vals, i as int).1 is Err);
                            return Err(e);
                        },
                        Ok(()) => {},
                    }
                    i = i + 1;
                }
                let value = match self.exec_block(body, fuel - 1) {
                    Err(e) => return Err(e),
                    Ok(BeaControlFlow::Return(v)) => v,
                    Ok(BeaControlFlow::Continue) => LiteralValue::Nil,
                };
                self.environment_stack.set_head_idx(prev_head);
                Ok(value)
            },
        }
    }

    /// Calls `callable` with `arguments` (at least as many as it takes):
    /// `println` prints its argument; a declared function runs its body in
    /// a new environment enclosed by the one it was declared in, and the
    /// head environment is restored after it.
    pub fn call_function(&mut self, callable: &Callable, arguments: Vec<LiteralValue>) -> (r: Result<LiteralValue, RuntimeErr>)
        requires
            old(self).ready(),
            arguments.len() >= arity(callable@),
        ensures
            final(self).wf(),
            final(self).given() == old(self).given(),
            final(self).budget() == old(self).budget(),
            spec_call(callable@, values_view(arguments@), old(self).state(), old(self).given(), old(self).budget())
                == (final(self).state(), value_result(r)),
    {
        let fuel = self.budget;
        let r = self.call(callable, arguments, fuel);
        proof {
            self.lemma_given_settles();
        }
        r
    }

    /// Executes `statements` in order until one returns or fails, in the
    /// head environment (the caller makes and removes environments), with
    /// the replies given.  `fuel` bounds the iterations of each loop and
    /// the depth of calls.
    pub fn execute_block(&mut self, statements: &Vec<Stmt>, fuel: u64) -> (r: Result<BeaControlFlow, RuntimeErr>)
        requires
            old(self).ready(),
        ensures
            final(self).wf(),
            final(self).given() == old(self).given(),
            final(self).budget() == old(self).budget(),
            spec_exec_block(stmts_view(statements@), 0, old(self).state(), old(self).given(), fuel as nat)
                == (final(self).state(), flow_result(r)),
    {
        let r = self.exec_block(statements, fuel);
        proof {
            self.lemma_given_settles();
        }
        r
    }

    /// Runs a program with the replies given: binds `println` in the head
    /// environment, then runs the statements until one returns or fails,
    /// or a request for a number finds no reply left.  Loops may iterate,
    /// and calls may nest, as often as the budget allows.
    pub fn interpret(&mut self, stmts: Vec<Stmt>) -> (r: Result<(), RuntimeErr>)
        requires
            old(self).ready(),
        ensures
            final(self).wf(),
            final(self).given() == old(self).given(),
            final(self).budget() == old(self).budget(),
            spec_interpret(stmts_view(stmts@), old(self).state(), old(self).given(), old(self).budget())
                == (final(self).state(), unit_result(r)),
    {
        let r = self.run_statements(stmts);
        proof {
            self.lemma_given_settles();
        }
        r
    }

    /// Runs a program with the replies `replies`, from the environments
    /// as they are, and reports the outcome, the requests made and the
    /// request it stopped at for want of a reply.  A run that stopped so
    /// leaves the environments as they were, so that it can run again
    /// with one more reply.
    pub fn run(&mut self, stmts: &Vec<Stmt>, replies: Vec<Number>) -> (r: Run)
        requires
            old(self).wf(),
        ensures
            final(self).ready(),
            final(self).budget() == old(self).budget(),
            ({
                let st0 = RunState { envs: old(self).state().envs, requests: Seq::empty(), used: 0, waiting: None };
                let (st, res) = spec_interpret(stmts_view(stmts@), st0, numbers_view(replies@), old(self).budget());
                &&& requests_view(r.requests@) == st.requests
                &&& opt_request_view(r.waiting) == st.waiting
                &&& unit_result(r.result) == res
                &&& r.waiting is None ==> final(self).state().envs == st.envs
                &&& r.waiting is Some ==> final(self).state().envs == old(self).state().envs
            }),
    {
        let saved = self.environment_stack.duplicate();
        self.supply(replies);
        let result = self.interpret(duplicate_stmts(stmts));
        let mut requests: Vec<Request> = Vec::new();
        std::mem::swap(&mut requests, &mut self.log);
        let mut waiting: Option<Request> = None;
        std::mem::swap(&mut waiting, &mut self.pending);
        if waiting.is_some() {
            self.environment_stack = saved;
        }
        proof {
            self.requests@ = requests_view(self.log@);
        }
        self.supply(Vec::new());
        Run { result, requests, waiting }
    }

    /// Executes `statements` in order until one returns or fails, in the
    /// head environment (the caller makes and removes environments).
    /// `fuel` bounds the iterations of each loop and the depth of calls.
    fn exec_block(&mut self, statements: &Vec<Stmt>, fuel: u64) -> (r: Result<BeaControlFlow, RuntimeErr>)
        requires
            old(self).ready(),
        ensures
            final(self).wf(),
            final(self).given == old(self).given,
            final(self).pending is Some ==> r is Err,
            final(self).budget == old(self).budget,
            final(self).environment_stack@.envs.len() >= old(self).environment_stack@.envs.len(),
            extends(old(self).replies@, final(self).replies@),
            forall|rp: Seq<NumberView>| #[trigger] extends(final(self).replies@, rp) && final(self).settles(rp) ==>
                spec_exec_block(stmts_view(statements@), 0, old(self).state(), rp, fuel as nat) == (final(self).state(), flow_result(r)),
        decreases fuel, 1int, stmts_size(stmts_view(statements@)), 1int,
    {
        let ghost sv = stmts_view(statements@);
        proof {
            lemma_stmts_view(statements@);
        }
        let mut i: usize = 0;
        while i < statements.len()
            invariant
                self.ready(),
                self.given == old(self).given,
                self.budget == old(self).budget,
                self.environment_stack@.envs.len() >= old(self).environment_stack@.envs.len(),
                sv == stmts_view(statements@),
                sv.len() == statements.len(),
                forall|j: int| 0 <= j < statements.len() ==> #[trigger] sv[j] == statements@[j]@,
                i <= statements.len(),
                extends(old(self).replies@, self.replies@),
                forall|rp: Seq<NumberView>| #[trigger] extends(self.replies@, rp) ==>
                    spec_exec_block(sv, 0, old(self).state(), rp, fuel as nat)
                        == spec_exec_block(sv, i as int, self.state(), rp, fuel as nat),
            decreases statements.len() - i,
        {
            proof {
                lemma_stmts_size(sv, i as int);
            }
            match self.execute_stmt(&statements[i], fuel) {
                Err(e) => return Err(e),
                Ok(BeaControlFlow::Return(v)) => return Ok(BeaControlFlow::Return(v)),
                Ok(BeaControlFlow::Continue) => {},
            }
            i = i + 1;
        }
        Ok(BeaControlFlow::Continue)
    }

    fn execute_stmt(&mut self, stmt: &Stmt, fuel: u64) -> (r: Result<BeaControlFlow, RuntimeErr>)
        requires
            old(self).ready(),
        ensures
            final(self).wf(),
            final(self).given == old(self).given,
            final(self).pending is Some ==> r is Err,
            final(self).budget == old(self).budget,
            final(self).environment_stack@.envs.len() >= old(self).environment_stack@.envs.len(),
            extends(old(self).replies@, final(self).replies@),
            forall|rp: Seq<NumberView>| #[trigger] extends(final(self).replies@, rp) && final(self).settles(rp) ==>
                spec_exec(stmt@, old(self).state(), rp, fuel as nat) == (final(self).state(), flow_result(r)),
        decreases fuel, 1int, stmt_size(stmt@), 0int,
    {
        match stmt {
            Stmt::Block(statements) => {
                if self.environment_stack.len() >= usize::MAX - 3 {
                    return Err(RuntimeErr::new(string_of("Too many environments")));
                }
                self.environment_stack.push();
                let value = match self.exec_block(statements, fuel) {
                    Err(e) => return Err(e),
                    Ok(v) => v,
                };
                if self.environment_stack.can_pop() {
                    let _ = self.environment_stack.pop();
                }
                Ok(value)
            },
            Stmt::Expr(expr) => match self.evaluate_expr(expr, fuel) {
                Err(e) => Err(e),
                Ok(_) => Ok(BeaControlFlow::Continue),
            },
            Stmt::If(cond, then_branch, else_branch) => {
                let value = match self.evaluate_expr(cond, fuel) {
                    Err(e) => return Err(e),
                    Ok(v) => v,
                };
                if value.is_truthy() {
                    self.execute_stmt(then_branch, fuel)
                } else {
                    match else_branch {
                        Some(else_branch) => self.execute_stmt(else_branch, fuel),
                        None => Ok(BeaControlFlow::Continue),
                    }
                }
            },
            Stmt::Print(expr) => {
                let value = match self.evaluate_expr(expr, fuel) {
                    Err(e) => return Err(e),
                    Ok(v) => v,
                };
                let text = value.cast_string();
                self.host_print(&text);
                Ok(BeaControlFlow::Continue)
            },
            Stmt::Return(_keyword, value) => match value {
                None => Ok(BeaControlFlow::Return(LiteralValue::Nil)),
                Some(expr) => match self.evaluate_expr(expr, fuel) {
                    Err(e) => Err(e),
                    Ok(v) => Ok(BeaControlFlow::Return(v)),
                },
            },
            Stmt::Var(name, initializer) => {
                let value = match initializer {
                    Some(expr) => match self.evaluate_expr(expr, fuel) {
                        Err(e) => return Err(e),
                        Ok(v) => v,
                    },
                    None => LiteralValue::Nil,
                };
                let _ = self.environment_stack.define_at_head(name.lexeme.as_str(), value);
                Ok(BeaControlFlow::Continue)
            },
            Stmt::While(condition, body) => {
                let mut f: u64 = fuel;
                loop
                    invariant
                        self.ready(),
                        self.given == old(self).given,
                        self.budget == old(self).budget,
                        self.environment_stack@.envs.len() >= old(self).environment_stack@.envs.len(),
                        f <= fuel,
                        *stmt == Stmt::While(*condition, *body),
                        extends(old(self).replies@, self.replies@),
                        forall|rp: Seq<NumberView>| #[trigger] extends(self.replies@, rp) ==>
                            spec_exec(stmt@, old(self).state(), rp, fuel as nat)
                                == spec_exec(stmt@, self.state(), rp, f as nat),
                    decreases f,
                {
                    let value = match self.evaluate_expr(condition, f) {
                        Err(e) => return Err(e),
                        Ok(v) => v,
                    };
                    if !value.is_truthy() {
                        return Ok(BeaControlFlow::Continue);
                    }
                    if f == 0 {
                        return Err(RuntimeErr::new(string_of("Step budget exhausted")));
                    }
                    match self.execute_stmt(body, f) {
                        Err(e) => return Err(e),
                        Ok(BeaControlFlow::Return(v)) => return Ok(BeaControlFlow::Return(v)),
                        Ok(BeaControlFlow::Continue) => {},
                    }
                    f = f - 1;
                }
            },
            Stmt::Function(name, params, body) => {
                let closure = self.environment_stack.get_head_idx();
                let mut callable_params: Vec<CallableParam> = Vec::new();
                let mut i: usize = 0;
                while i < params.len()
                    invariant
                        i <= params.len(),
                        callable_params.len() == i,
                        forall|j: int| 0 <= j < i ==> #[trigger] callable_params@[j]@ == (
                            crate::callable::CallableParamView { name: params@[j].lexeme@, value_type: LiteralValueType::Any }),
                    decreases params.len() - i,
                {
                    callable_params.push(CallableParam::new(params[i].lexeme.clone(), LiteralValueType::Any));
                    i = i + 1;
                }
                let callable = create_bea_fn(name.clone(), callable_params, duplicate_stmts(body), Some(closure));
                assert(callable@.params =~= declared_fn(name@, token_seq_view(params@), stmts_view(body@), closure).params);
                assert(callable@ == declared_fn(name@, token_seq_view(params@), stmts_view(body@), closure));
                let _ = self.environment_stack.define_at_head(name.as_str(), LiteralValue::Fn(callable));
                Ok(BeaControlFlow::Continue)
            },
        }
    }

    /// Runs a program: binds `println` in the head environment, then runs
    /// the statements until one returns or fails.  Loops may iterate, and
    /// calls may nest, as often as the budget allows.
    fn run_statements(&mut self, stmts: Vec<Stmt>) -> (r: Result<(), RuntimeErr>)
        requires
            old(self).ready(),
        ensures
            final(self).wf(),
            final(self).given == old(self).given,
            final(self).pending is Some ==> r is Err,
            final(self).budget == old(self).budget,
            extends(old(self).replies@, final(self).replies@),
            forall|rp: Seq<NumberView>| #[trigger] extends(final(self).replies@, rp) && final(self).settles(rp) ==>
                spec_interpret(stmts_view(stmts@), old(self).state(), rp, old(self).budget as nat) == (final(self).state(), unit_result(r)),
    {
        let fuel = self.budget;
        let _ = self.environment_stack.define_at_head("println", LiteralValue::Fn(get_builtin_println()));
        let ghost sv = stmts_view(stmts@);
        proof {
            lemma_stmts_view(stmts@);
        }
        let mut i: usize = 0;
        while i < stmts.len()
            invariant
                self.ready(),
                self.given == old(self).given,
                self.budget == old(self).budget,
                fuel == old(self).budget,
                sv == stmts_view(stmts@),
                sv.len() == stmts.len(),
                forall|j: int| 0 <= j < stmts.len() ==> #[trigger] sv[j] == stmts@[j]@,
                i <= stmts.len(),
                extends(old(self).replies@, self.replies@),
                forall|rp: Seq<NumberView>| #[trigger] extends(self.replies@, rp) ==>
                    spec_interpret(sv, old(self).state(), rp, fuel as nat)
                        == spec_run(sv, i as int, self.state(), rp, fuel as nat),
            decreases stmts.len() - i,
        {
            match self.execute_stmt(&stmts[i], fuel) {
                Err(e) => return Err(e),
                Ok(BeaControlFlow::Return(_)) => return Ok(()),
                Ok(BeaControlFlow::Continue) => {},
            }
            i = i + 1;
        }
        Ok(())
    }
}

impl BeaFn {
    /// Calls this function with `arguments` (at least one per parameter),
    /// in `interpreter` (see [`Interpreter::call_function`]).
    pub fn call(&self, interpreter: &mut Interpreter, arguments: Vec<LiteralValue>) -> (r: Result<LiteralValue, RuntimeErr>)
        requires
            old(interpreter).ready(),
            arguments.len() >= self.callable_view().params.len(),
        ensures
            final(interpreter).wf(),
            final(interpreter).given() == old(interpreter).given(),
            final(interpreter).budget() == old(interpreter).budget(),
            spec_call(self.callable_view(), values_view(arguments@), old(interpreter).state(), old(interpreter).given(), old(interpreter).budget())
                == (final(interpreter).state(), value_result(r)),
    {
        let callable = self.callable();
        interpreter.call_function(&callable, arguments)
    }
}

impl BeaBuiltinPrintln {
    /// Prints the first of `arguments` on a line; gives `nil`.
    pub fn call(&self, interpreter: &mut Interpreter, arguments: Vec<LiteralValue>) -> (r: Result<LiteralValue, RuntimeErr>)
        requires
            old(interpreter).ready(),
            arguments.len() >= 1,
        ensures
            final(interpreter).ready(),
            final(interpreter).given() == old(interpreter).given(),
            final(interpreter).budget() == old(interpreter).budget(),
            final(interpreter).state() == tell(old(interpreter).state(), display(arguments@[0]@)),
            r matches Ok(v) && v@ == LiteralValueView::Nil,
    {
        let callable = self.callable();
        interpreter.call_function(&callable, arguments)
    }
}

} // verus!
