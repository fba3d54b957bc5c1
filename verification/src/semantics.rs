//! What running a program does, as functions of the program, the state
//! of the environments, and the replies given to its requests.
//!
//! Floating point belongs to the host, the program around the library:
//! parsing number literals, `+ - * /` on numbers and negation are
//! requests to it, answered by the replies `rp`, in order; a request that
//! finds no reply left stops the run, which waits on it.  Printing is a
//! request too.  Everything else, including comparisons of numbers, is
//! computed here.
use vstd::prelude::*;

use crate::callable::{CallableBodyView, CallableParamView, CallableView, builtin_println_view};
use crate::environments::environment_stack::{
    StackView, encloses, entries_wf, env_at, law_assign_then_lookup, law_define_then_lookup, lemma_remove_ok, pop_forbidden, spec_assign, spec_define,
    spec_first_assignable, spec_lookup, spec_pop, spec_push, spec_push_child, spec_remove, stack_wf,
    undefined_message,
};
use crate::expressions::ExprView;
use crate::literals::{
    LiteralValueType, LiteralValueView, NumberView, bool_value, cast_float_message, display, f32_is_nan, f32_le,
    f32_order_key,
    f32_lt, truthy, values_equal,
};
use crate::statements::StmtView;
use crate::text::decimal;
use crate::tokens::{LiteralView, TokenType, TokenView, token_type_name};

verus! {

/// The arithmetic the host performs on floats.
#[derive(Debug, Clone, Copy, PartialEq, Eq, Structural)]
pub enum ArithOp {
    Add,
    Subtract,
    Multiply,
    Divide,
}

/// What the interpreter asks of the host.
pub enum HostRequest {
    /// The number a literal's digits denote.
    ParseNumber(Seq<char>),
    /// The result of an arithmetic operation.
    Arithmetic(ArithOp, NumberView, NumberView),
    /// The negation of a number.
    Negate(NumberView),
    /// Printing a line of text.
    Print(Seq<char>),
}

/// The state of a run: the environments, the requests made so far, and
/// how many replies have been read.
pub struct RunState {
    pub envs: StackView,
    pub requests: Seq<HostRequest>,
    pub used: nat,
    /// The request that found no reply left, which stopped the run.
    pub waiting: Option<HostRequest>,
}

/// What a statement tells the statements around it.
pub enum Flow {
    Continue,
    Return(LiteralValueView),
}

/// The message of a run stopped for want of a reply.
pub open spec fn awaiting_message() -> Seq<char> {
    "Awaiting a reply from the host"@
}

/// Makes a request that the host answers with a number: the next reply,
/// or, with none left, the run stops waiting for it.
pub open spec fn ask(st: RunState, req: HostRequest, rp: Seq<NumberView>) -> (RunState, Result<NumberView, Seq<char>>) {
    if st.used < rp.len() {
        (RunState { requests: st.requests.push(req), used: st.used + 1, ..st }, Ok(rp[st.used as int]))
    } else {
        (RunState { waiting: Some(req), ..st }, Err(awaiting_message()))
    }
}

/// Asks the host to print `text`.
pub open spec fn tell(st: RunState, text: Seq<char>) -> RunState {
    RunState { requests: st.requests.push(HostRequest::Print(text)), ..st }
}

/// The message when the step budget of a run is exhausted.
pub open spec fn budget_message() -> Seq<char> {
    "Step budget exhausted"@
}

/// The message when no more environments can be made.
pub open spec fn env_limit_message() -> Seq<char> {
    "Too many environments"@
}

/// There is room for another environment.
pub open spec fn can_grow(v: StackView) -> bool {
    v.envs.len() + 3 < usize::MAX
}

/// Pops the head environment, ignoring the outcome (as blocks do).
pub open spec fn pop_quietly(v: StackView) -> StackView {
    if pop_forbidden(v) { v } else { spec_pop(v).0 }
}

/// The value a literal denotes (number literals are parsed by the host).
pub open spec fn spec_literal(l: LiteralView, st: RunState, rp: Seq<NumberView>) -> (RunState, Result<LiteralValueView, Seq<char>>) {
    match l {
        LiteralView::Nil => (st, Ok(LiteralValueView::Nil)),
        LiteralView::True => (st, Ok(LiteralValueView::True)),
        LiteralView::False => (st, Ok(LiteralValueView::False)),
        LiteralView::Str(s) => (st, Ok(LiteralValueView::Str(s))),
        LiteralView::Num(digits) => {
            let (st1, n) = ask(st, HostRequest::ParseNumber(digits), rp);
            (st1, match n { Ok(n) => Ok(LiteralValueView::Num(n)), Err(m) => Err(m) })
        },
    }
}

/// The two numbers of a binary operation, or the message for the first
/// operand that is no number.
pub open spec fn binary_numbers(lv: LiteralValueView, rv: LiteralValueView) -> Result<(NumberView, NumberView), Seq<char>> {
    match lv {
        LiteralValueView::Num(a) => match rv {
            LiteralValueView::Num(b) => Ok((a, b)),
            _ => Err(cast_float_message(rv)),
        },
        _ => Err(cast_float_message(lv)),
    }
}

/// The host operation for an arithmetic operator token.
pub open spec fn arith_of(t: TokenType) -> ArithOp {
    if t == TokenType::Minus { ArithOp::Subtract }
    else if t == TokenType::Star { ArithOp::Multiply }
    else if t == TokenType::Slash { ArithOp::Divide }
    else { ArithOp::Add }
}

/// A comparison of two floats by the operator token `t`.
pub open spec fn compare(t: TokenType, a: NumberView, b: NumberView) -> bool {
    if t == TokenType::Greater { f32_lt(b.bits, a.bits) }
    else if t == TokenType::GreaterEqual { f32_le(b.bits, a.bits) }
    else if t == TokenType::Less { f32_lt(a.bits, b.bits) }
    else { f32_le(a.bits, b.bits) }
}

/// The message for an operator that is not a binary one.
pub open spec fn unexpected_binary_message(t: TokenType) -> Seq<char> {
    "Unexpected operator in binary expression: '"@ + token_type_name(t) + "'"@
}

/// A binary operation on two values.
pub open spec fn spec_binary(t: TokenType, lv: LiteralValueView, rv: LiteralValueView, st: RunState, rp: Seq<NumberView>) -> (RunState, Result<LiteralValueView, Seq<char>>) {
    if t == TokenType::Minus || t == TokenType::Star || t == TokenType::Slash || (t == TokenType::Plus && !(lv is Str || rv is Str)) {
        match binary_numbers(lv, rv) {
            Err(m) => (st, Err(m)),
            Ok((a, b)) => {
                let (st1, n) = ask(st, HostRequest::Arithmetic(arith_of(t), a, b), rp);
                (st1, match n { Ok(n) => Ok(LiteralValueView::Num(n)), Err(m) => Err(m) })
            },
        }
    } else if t == TokenType::Plus {
        (st, Ok(LiteralValueView::Str(display(lv) + display(rv))))
    } else if t == TokenType::Greater || t == TokenType::GreaterEqual || t == TokenType::Less || t == TokenType::LessEqual {
        match binary_numbers(lv, rv) {
            Err(m) => (st, Err(m)),
            Ok((a, b)) => (st, Ok(bool_value(compare(t, a, b)))),
        }
    } else if t == TokenType::EqualEqual {
        (st, Ok(bool_value(values_equal(lv, rv))))
    } else if t == TokenType::BangEqual {
        (st, Ok(bool_value(!values_equal(lv, rv))))
    } else {
        (st, Err(unexpected_binary_message(t)))
    }
}

/// `a < b` and `b > a` agree, as do `a <= b` and `b >= a` (but for the
/// error when neither operand is a number: each names its left operand);
/// comparisons ask the host nothing.
pub proof fn law_comparisons_mirror(a: LiteralValueView, b: LiteralValueView, st: RunState, rp: Seq<NumberView>)
    requires
        a is Num || b is Num,
    ensures
        spec_binary(TokenType::Less, a, b, st, rp) == spec_binary(TokenType::Greater, b, a, st, rp),
        spec_binary(TokenType::LessEqual, a, b, st, rp) == spec_binary(TokenType::GreaterEqual, b, a, st, rp),
        spec_binary(TokenType::Less, a, b, st, rp).0 == st,
        spec_binary(TokenType::LessEqual, a, b, st, rp).0 == st,
{
}

/// `a != b` is the negation of `a == b`, and `a == b` is `b == a`.
pub proof fn law_equality_operators(a: LiteralValueView, b: LiteralValueView, st: RunState, rp: Seq<NumberView>)
    ensures
        spec_binary(TokenType::EqualEqual, a, b, st, rp) == (st, Ok::<LiteralValueView, Seq<char>>(bool_value(values_equal(a, b)))),
        spec_binary(TokenType::BangEqual, a, b, st, rp) == (st, Ok::<LiteralValueView, Seq<char>>(bool_value(!values_equal(a, b)))),
        spec_binary(TokenType::EqualEqual, a, b, st, rp) == spec_binary(TokenType::EqualEqual, b, a, st, rp),
{
}

/// The message for `-` applied to something that is no number.
pub open spec fn negate_message(v: LiteralValueView) -> Seq<char> {
    "Cannot apply unary operator '-' to token "@ + display(v)
}

/// The message for an operator that is not a unary one.
pub open spec fn unexpected_unary_message(t: TokenType) -> Seq<char> {
    "Unexpected unary operator: "@ + token_type_name(t)
}

/// A unary operation on a value.
pub open spec fn spec_unary(t: TokenType, rv: LiteralValueView, st: RunState, rp: Seq<NumberView>) -> (RunState, Result<LiteralValueView, Seq<char>>) {
    if t == TokenType::Minus {
        match rv {
            LiteralValueView::Num(n) => {
                let (st1, m) = ask(st, HostRequest::Negate(n), rp);
                (st1, match m { Ok(m) => Ok(LiteralValueView::Num(m)), Err(e) => Err(e) })
            },
            _ => (st, Err(negate_message(rv))),
        }
    } else if t == TokenType::Bang {
        (st, Ok(bool_value(!truthy(rv))))
    } else {
        (st, Err(unexpected_unary_message(t)))
    }
}

/// How many arguments a call of `c` must pass (`println` takes one).
pub open spec fn arity(c: CallableView) -> nat {
    match c.body {
        CallableBodyView::Builtin => 1,
        CallableBodyView::Statements(_) => c.params.len(),
    }
}

/// The message for a call with the wrong number of arguments.
pub open spec fn arity_message(expected: nat, got: nat) -> Seq<char> {
    "Expected "@ + decimal(expected) + " arguments but got "@ + decimal(got) + "."@
}

/// The message for calling something that is no function.
pub open spec fn callee_message(v: LiteralValueView) -> Seq<char> {
    "Invalid fn callee: "@ + display(v)
}

/// The message for a declared function without an enclosing environment.
pub open spec fn no_closure_message(name: Seq<char>) -> Seq<char> {
    "Unable to call Fn with empty closure index: "@ + name
}

/// Binds the parameters `params[i..]` to the arguments in the head environment.
pub open spec fn define_params(v: StackView, params: Seq<CallableParamView>, args: Seq<LiteralValueView>, i: int) -> (StackView, Result<(), Seq<char>>)
    decreases params.len() - i,
{
    if i < 0 || i >= params.len() || i >= args.len() {
        (v, Ok(()))
    } else {
        let (v1, r) = spec_define(v, v.head as int, params[i].name, args[i]);
        if r is Err { (v1, r) } else { define_params(v1, params, args, i + 1) }
    }
}

/// The callable a function declaration makes, enclosed by environment `closure`.
pub open spec fn declared_fn(name: Seq<char>, params: Seq<TokenView>, body: Seq<StmtView>, closure: usize) -> CallableView {
    CallableView {
        name,
        params: params.map_values(|t: TokenView| CallableParamView { name: t.lexeme, value_type: LiteralValueType::Any }),
        body: CallableBodyView::Statements(body),
        closure_idx: Some(closure),
    }
}

/// The number of nodes of an expression.
pub open spec fn expr_size(e: ExprView) -> nat
    decreases e,
{
    match e {
        ExprView::Literal(_) => 1,
        ExprView::Logical(l, _, r) => 1 + expr_size(*l) + expr_size(*r),
        ExprView::Assign(_, v) => 1 + expr_size(*v),
        ExprView::Unary(_, r) => 1 + expr_size(*r),
        ExprView::Binary(l, _, r) => 1 + expr_size(*l) + expr_size(*r),
        ExprView::Call(c, _, args) => 1 + expr_size(*c) + exprs_size(args),
        ExprView::Grouping(g) => 1 + expr_size(*g),
        ExprView::Variable(_) => 1,
    }
}

/// The number of nodes of a sequence of expressions.
pub open spec fn exprs_size(s: Seq<ExprView>) -> nat
    decreases s,
{
    if s.len() == 0 { 0 } else { expr_size(s[0]) + exprs_size(s.drop_first()) }
}

/// The number of nodes of an optional expression.
pub open spec fn opt_expr_size(e: Option<ExprView>) -> nat {
    match e {
        Some(e) => expr_size(e),
        None => 0,
    }
}

/// The number of nodes of a statement (a function declaration counts as
/// one: its body does not run where it is declared).
pub open spec fn stmt_size(s: StmtView) -> nat
    decreases s,
{
    match s {
        StmtView::Block(ss) => 1 + stmts_size(ss),
        StmtView::Expr(e) => 1 + expr_size(e),
        StmtView::Function(_, _, _) => 1,
        StmtView::If(c, t, el) => 1 + expr_size(c) + stmt_size(*t) + match el {
            Some(b) => stmt_size(*b),
            None => 0,
        },
        StmtView::Print(e) => 1 + expr_size(e),
        StmtView::Return(_, v) => 1 + opt_expr_size(v),
        StmtView::Var(_, v) => 1 + opt_expr_size(v),
        StmtView::While(c, b) => 1 + expr_size(c) + stmt_size(*b),
    }
}

/// The number of nodes of a sequence of statements.
pub open spec fn stmts_size(s: Seq<StmtView>) -> nat
    decreases s,
{
    if s.len() == 0 { 0 } else { stmt_size(s[0]) + stmts_size(s.drop_first()) }
}

pub proof fn lemma_exprs_size(s: Seq<ExprView>, i: int)
    requires
        0 <= i < s.len(),
    ensures
        exprs_size(s.skip(i)) == expr_size(s[i]) + exprs_size(s.skip(i + 1)),
        expr_size(s[i]) <= exprs_size(s),
        exprs_size(s.skip(0)) == exprs_size(s),
    decreases i,
{
    assert(s.skip(i)[0] == s[i]);
    assert(s.skip(i).drop_first() =~= s.skip(i + 1));
    assert(s.skip(0) =~= s);
    if i > 0 {
        lemma_exprs_size(s.drop_first(), i - 1);
        assert(s.drop_first().skip(i - 1) =~= s.skip(i));
        assert(s.drop_first()[i - 1] == s[i]);
    }
}

pub proof fn lemma_stmts_size(s: Seq<StmtView>, i: int)
    requires
        0 <= i < s.len(),
    ensures
        stmts_size(s.skip(i)) == stmt_size(s[i]) + stmts_size(s.skip(i + 1)),
        stmt_size(s[i]) <= stmts_size(s),
        stmts_size(s.skip(0)) == stmts_size(s),
    decreases i,
{
    assert(s.skip(i)[0] == s[i]);
    assert(s.skip(i).drop_first() =~= s.skip(i + 1));
    assert(s.skip(0) =~= s);
    if i > 0 {
        lemma_stmts_size(s.drop_first(), i - 1);
        assert(s.drop_first().skip(i - 1) =~= s.skip(i));
        assert(s.drop_first()[i - 1] == s[i]);
    }
}

pub proof fn lemma_skip_all<T>(s: Seq<T>)
    ensures
        s.skip(0) == s,
{
    assert(s.skip(0) =~= s);
}

/// Evaluates an expression.  `fuel` bounds the iterations of each loop
/// and the depth of calls.
pub open spec fn spec_eval(e: ExprView, st: RunState, rp: Seq<NumberView>, fuel: nat) -> (RunState, Result<LiteralValueView, Seq<char>>)
    decreases fuel, 1int, expr_size(e), 0int,
{
    match e {
        ExprView::Literal(l) => spec_literal(l, st, rp),
        ExprView::Logical(l, op, r) => {
            let (st1, lr) = spec_eval(*l, st, rp, fuel);
            match lr {
                Err(m) => (st1, Err(m)),
                Ok(lv) => if (op.token_type == TokenType::Or && truthy(lv)) || (op.token_type != TokenType::Or && !truthy(lv)) {
                    (st1, Ok(lv))
                } else {
                    spec_eval(*r, st1, rp, fuel)
                },
            }
        },
        ExprView::Assign(name, v) => {
            let (st1, vr) = spec_eval(*v, st, rp, fuel);
            match vr {
                Err(m) => (st1, Err(m)),
                Ok(val) => {
                    let (envs2, ar) = spec_assign(st1.envs, st1.envs.head as int, name.lexeme, val);
                    (RunState { envs: envs2, ..st1 }, match ar { Err(m) => Err(m), Ok(_) => Ok(val) })
                },
            }
        },
        ExprView::Unary(op, r) => {
            let (st1, rr) = spec_eval(*r, st, rp, fuel);
            match rr {
                Err(m) => (st1, Err(m)),
                Ok(rv) => spec_unary(op.token_type, rv, st1, rp),
            }
        },
        ExprView::Binary(l, op, r) => {
            let (st1, lr) = spec_eval(*l, st, rp, fuel);
            match lr {
                Err(m) => (st1, Err(m)),
                Ok(lv) => {
                    let (st2, rr) = spec_eval(*r, st1, rp, fuel);
                    match rr {
                        Err(m) => (st2, Err(m)),
                        Ok(rv) => spec_binary(op.token_type, lv, rv, st2, rp),
                    }
                },
            }
        },
        ExprView::Call(callee, _paren, args) => {
            let (st1, cr) = spec_eval(*callee, st, rp, fuel);
            match cr {
                Err(m) => (st1, Err(m)),
                Ok(cv) => match cv {
                    LiteralValueView::Fn(c) => if args.len() != arity(c) {
                        (st1, Err(arity_message(arity(c), args.len())))
                    } else {
                        let (st2, ar) = {
                            proof {
                                lemma_skip_all(args);
                            }
                            spec_eval_args(args, 0, Seq::empty(), st1, rp, fuel)
                        };
                        match ar {
                            Err(m) => (st2, Err(m)),
                            Ok(vals) => spec_call(c, vals, st2, rp, fuel),
                        }
                    },
                    _ => (st1, Err(callee_message(cv))),
                },
            }
        },
        ExprView::Grouping(g) => spec_eval(*g, st, rp, fuel),
        ExprView::Variable(name) => (st, match spec_lookup(st.envs.envs, st.envs.head as int, name.lexeme) {
            Ok(Some(v)) => Ok(v),
            Ok(None) => Err(undefined_message(name.lexeme)),
            Err(m) => Err(m),
        }),
    }
}

/// Evaluates `args[i..]` in order, after the values `acc`.
pub open spec fn spec_eval_args(args: Seq<ExprView>, i: int, acc: Seq<LiteralValueView>, st: RunState, rp: Seq<NumberView>, fuel: nat) -> (RunState, Result<Seq<LiteralValueView>, Seq<char>>)
    decreases fuel, 1int, exprs_size(args.skip(i)), 1int,
{
    if i < 0 || i >= args.len() {
        (st, Ok(acc))
    } else {
        proof {
            lemma_exprs_size(args, i);
        }
        let (st1, r) = spec_eval(args[i], st, rp, fuel);
        match r {
            Err(m) => (st1, Err(m)),
            Ok(v) => spec_eval_args(args, i + 1, acc.push(v), st1, rp, fuel),
        }
    }
}

/// Calls `c` with the argument values `vals`.  The built-in prints its
/// argument; a declared function runs its body in a new environment
/// enclosed by the one it was declared in, then the head goes back.
pub open spec fn spec_call(c: CallableView, vals: Seq<LiteralValueView>, st: RunState, rp: Seq<NumberView>, fuel: nat) -> (RunState, Result<LiteralValueView, Seq<char>>)
    decreases fuel, 0int, 0int, 0int,
{
    match c.body {
        CallableBodyView::Builtin => (tell(st, display(vals[0])), Ok(LiteralValueView::Nil)),
        CallableBodyView::Statements(body) => if fuel == 0 {
            (st, Err(budget_message()))
        } else {
            match c.closure_idx {
                None => (st, Err(no_closure_message(c.name))),
                Some(closure) => if !can_grow(st.envs) {
                    (st, Err(env_limit_message()))
                } else {
                    match spec_push_child(st.envs, closure) {
                        Err(m) => (st, Err(m)),
                        Ok(envs1) => {
                            let (envs2, dr) = define_params(envs1, c.params, vals, 0);
                            let st2 = RunState { envs: envs2, ..st };
                            match dr {
                                Err(m) => (st2, Err(m)),
                                Ok(_) => {
                                    let (st3, br) = spec_exec_block(body, 0, st2, rp, (fuel - 1) as nat);
                                    match br {
                                        Err(m) => (st3, Err(m)),
                                        Ok(flow) => (
                                            RunState { envs: StackView { head: st.envs.head, ..st3.envs }, ..st3 },
                                            Ok(match flow {
                                                Flow::Return(v) => v,
                                                Flow::Continue => LiteralValueView::Nil,
                                            }),
                                        ),
                                    }
                                },
                            }
                        },
                    }
                },
            }
        },
    }
}

/// Executes a statement.
pub open spec fn spec_exec(s: StmtView, st: RunState, rp: Seq<NumberView>, fuel: nat) -> (RunState, Result<Flow, Seq<char>>)
    decreases fuel, 1int, stmt_size(s), 0int,
{
    match s {
        StmtView::Block(ss) => if !can_grow(st.envs) {
            (st, Err(env_limit_message()))
        } else {
            let st1 = RunState { envs: spec_push(st.envs), ..st };
            let (st2, r) = {
                proof {
                    lemma_skip_all(ss);
                }
                spec_exec_block(ss, 0, st1, rp, fuel)
            };
            match r {
                Err(m) => (st2, Err(m)),
                Ok(flow) => (RunState { envs: pop_quietly(st2.envs), ..st2 }, Ok(flow)),
            }
        },
        StmtView::Expr(e) => {
            let (st1, r) = spec_eval(e, st, rp, fuel);
            (st1, match r { Err(m) => Err(m), Ok(_) => Ok(Flow::Continue) })
        },
        StmtView::If(c, t, el) => {
            let (st1, cr) = spec_eval(c, st, rp, fuel);
            match cr {
                Err(m) => (st1, Err(m)),
                Ok(cv) => if truthy(cv) {
                    spec_exec(*t, st1, rp, fuel)
                } else {
                    match el {
                        Some(b) => spec_exec(*b, st1, rp, fuel),
                        None => (st1, Ok(Flow::Continue)),
                    }
                },
            }
        },
        StmtView::Print(e) => {
            let (st1, r) = spec_eval(e, st, rp, fuel);
            match r {
                Err(m) => (st1, Err(m)),
                Ok(v) => (tell(st1, display(v)), Ok(Flow::Continue)),
            }
        },
        StmtView::Return(_k, v) => match v {
            None => (st, Ok(Flow::Return(LiteralValueView::Nil))),
            Some(e) => {
                let (st1, r) = spec_eval(e, st, rp, fuel);
                (st1, match r { Err(m) => Err(m), Ok(val) => Ok(Flow::Return(val)) })
            },
        },
        StmtView::Var(name, init) => {
            let (st1, r) = match init {
                None => (st, Ok(LiteralValueView::Nil)),
                Some(e) => spec_eval(e, st, rp, fuel),
            };
            match r {
                Err(m) => (st1, Err(m)),
                Ok(val) => (
                    RunState { envs: spec_define(st1.envs, st1.envs.head as int, name.lexeme, val).0, ..st1 },
                    Ok(Flow::Continue),
                ),
            }
        },
        StmtView::While(c, b) => {
            let (st1, cr) = spec_eval(c, st, rp, fuel);
            match cr {
                Err(m) => (st1, Err(m)),
                Ok(cv) => if !truthy(cv) {
                    (st1, Ok(Flow::Continue))
                } else if fuel == 0 {
                    (st1, Err(budget_message()))
                } else {
                    let (st2, r) = spec_exec(*b, st1, rp, fuel);
                    match r {
                        Err(m) => (st2, Err(m)),
                        Ok(Flow::Return(v)) => (st2, Ok(Flow::Return(v))),
                        Ok(Flow::Continue) => spec_exec(StmtView::While(c, b), st2, rp, (fuel - 1) as nat),
                    }
                },
            }
        },
        StmtView::Function(name, params, body) => (
            RunState {
                envs: spec_define(
                    st.envs,
                    st.envs.head as int,
                    name,
                    LiteralValueView::Fn(declared_fn(name, params, body, st.envs.head)),
                ).0,
                ..st
            },
            Ok(Flow::Continue),
        ),
    }
}

/// Executes `ss[i..]` until one returns or fails.
pub open spec fn spec_exec_block(ss: Seq<StmtView>, i: int, st: RunState, rp: Seq<NumberView>, fuel: nat) -> (RunState, Result<Flow, Seq<char>>)
    decreases fuel, 1int, stmts_size(ss.skip(i)), 1int,
{
    if i < 0 || i >= ss.len() {
        (st, Ok(Flow::Continue))
    } else {
        proof {
            lemma_stmts_size(ss, i);
        }
        let (st1, r) = spec_exec(ss[i], st, rp, fuel);
        match r {
            Err(m) => (st1, Err(m)),
            Ok(Flow::Return(v)) => (st1, Ok(Flow::Return(v))),
            Ok(Flow::Continue) => spec_exec_block(ss, i + 1, st1, rp, fuel),
        }
    }
}

/// Runs the statements `ss[i..]` of a program until one returns or fails.
pub open spec fn spec_run(ss: Seq<StmtView>, i: int, st: RunState, rp: Seq<NumberView>, fuel: nat) -> (RunState, Result<(), Seq<char>>)
    decreases ss.len() - i,
{
    if i < 0 || i >= ss.len() {
        (st, Ok(()))
    } else {
        let (st1, r) = spec_exec(ss[i], st, rp, fuel);
        match r {
            Err(m) => (st1, Err(m)),
            Ok(Flow::Return(_)) => (st1, Ok(())),
            Ok(Flow::Continue) => spec_run(ss, i + 1, st1, rp, fuel),
        }
    }
}

/// Runs a program: binds `println` in the head environment, then runs
/// the statements.
pub open spec fn spec_interpret(ss: Seq<StmtView>, st: RunState, rp: Seq<NumberView>, fuel: nat) -> (RunState, Result<(), Seq<char>>) {
    let st0 = RunState {
        envs: spec_define(st.envs, st.envs.head as int, "println"@, LiteralValueView::Fn(builtin_println_view())).0,
        ..st
    };
    spec_run(ss, 0, st0, rp, fuel)
}

/// `a` is a prefix of `b`.
pub open spec fn extends<T>(a: Seq<T>, b: Seq<T>) -> bool {
    a.len() <= b.len() && forall|i: int| 0 <= i < a.len() ==> #[trigger] b[i] == a[i]
}

pub broadcast proof fn lemma_extends_trans<T>(a: Seq<T>, b: Seq<T>, c: Seq<T>)
    requires
        extends(a, b),
        extends(b, c),
    ensures
        #![trigger extends(a, b), extends(b, c)]
        extends(a, c),
{
    assert forall|i: int| 0 <= i < a.len() implies #[trigger] c[i] == a[i] by {
        assert(c[i] == b[i]);
    }
}

/// `b` comes after `a`: the requests of `a` begin those of `b`, and `b`
/// has read at least the replies `a` has.
pub open spec fn grows(a: RunState, b: RunState) -> bool {
    &&& extends(a.requests, b.requests)
    &&& a.used <= b.used
}

proof fn lemma_grows_trans(a: RunState, b: RunState, c: RunState)
    requires
        grows(a, b),
        grows(b, c),
    ensures
        grows(a, c),
{
}

proof fn lemma_grows_refl(a: RunState)
    ensures
        grows(a, a),
{
}

/// Evaluating an expression only adds requests.
#[verifier::spinoff_prover]
pub proof fn lemma_eval_grows(e: ExprView, st: RunState, rp: Seq<NumberView>, fuel: nat)
    ensures
        grows(st, spec_eval(e, st, rp, fuel).0),
    decreases fuel, 1int, expr_size(e), 0int,
{
    match e {
        ExprView::Literal(l) => {},
        ExprView::Logical(l, op, r) => {
            lemma_eval_grows(*l, st, rp, fuel);
            let st1 = spec_eval(*l, st, rp, fuel).0;
            lemma_eval_grows(*r, st1, rp, fuel);
        },
        ExprView::Assign(name, v) => {
            lemma_eval_grows(*v, st, rp, fuel);
        },
        ExprView::Unary(op, r) => {
            lemma_eval_grows(*r, st, rp, fuel);
        },
        ExprView::Binary(l, op, r) => {
            lemma_eval_grows(*l, st, rp, fuel);
            let st1 = spec_eval(*l, st, rp, fuel).0;
            lemma_eval_grows(*r, st1, rp, fuel);
            let st2 = spec_eval(*r, st1, rp, fuel).0;
            lemma_grows_trans(st, st1, st2);
        },
        ExprView::Call(callee, paren, args) => {
            lemma_eval_grows(*callee, st, rp, fuel);
            let (st1, cr) = spec_eval(*callee, st, rp, fuel);
            if let Ok(LiteralValueView::Fn(c)) = cr {
                if args.len() == arity(c) {
                    lemma_skip_all(args);
                    lemma_args_grows(args, 0, Seq::empty(), st1, rp, fuel);
                    let (st2, ar) = spec_eval_args(args, 0, Seq::empty(), st1, rp, fuel);
                    lemma_grows_trans(st, st1, st2);
                    if let Ok(vals) = ar {
                        lemma_call_grows(c, vals, st2, rp, fuel);
                        lemma_grows_trans(st, st2, spec_call(c, vals, st2, rp, fuel).0);
                    }
                }
            }
        },
        ExprView::Grouping(g) => {
            lemma_eval_grows(*g, st, rp, fuel);
        },
        ExprView::Variable(name) => {},
    }
}

/// Evaluating arguments only adds requests.
#[verifier::spinoff_prover]
pub proof fn lemma_args_grows(args: Seq<ExprView>, i: int, acc: Seq<LiteralValueView>, st: RunState, rp: Seq<NumberView>, fuel: nat)
    ensures
        grows(st, spec_eval_args(args, i, acc, st, rp, fuel).0),
    decreases fuel, 1int, exprs_size(args.skip(i)), 1int,
{
    if 0 <= i < args.len() {
        lemma_exprs_size(args, i);
        lemma_eval_grows(args[i], st, rp, fuel);
        let (st1, r) = spec_eval(args[i], st, rp, fuel);
        if let Ok(v) = r {
            lemma_args_grows(args, i + 1, acc.push(v), st1, rp, fuel);
            lemma_grows_trans(st, st1, spec_eval_args(args, i + 1, acc.push(v), st1, rp, fuel).0);
        }
    }
}

/// Calling a function only adds requests.
#[verifier::spinoff_prover]
pub proof fn lemma_call_grows(c: CallableView, vals: Seq<LiteralValueView>, st: RunState, rp: Seq<NumberView>, fuel: nat)
    ensures
        grows(st, spec_call(c, vals, st, rp, fuel).0),
    decreases fuel, 0int, 0int, 0int,
{
    if let CallableBodyView::Statements(body) = c.body {
        if fuel > 0 {
            if let Some(closure) = c.closure_idx {
                if can_grow(st.envs) {
                    if let Ok(envs1) = spec_push_child(st.envs, closure) {
                        let (envs2, dr) = define_params(envs1, c.params, vals, 0);
                        let st2 = RunState { envs: envs2, ..st };
                        if dr is Ok {
                            lemma_block_grows(body, 0, st2, rp, (fuel - 1) as nat);
                        }
                    }
                }
            }
        }
    }
}

/// Executing a statement only adds requests.
#[verifier::spinoff_prover]
pub proof fn lemma_exec_grows(s: StmtView, st: RunState, rp: Seq<NumberView>, fuel: nat)
    ensures
        grows(st, spec_exec(s, st, rp, fuel).0),
    decreases fuel, 1int, stmt_size(s), 0int,
{
    match s {
        StmtView::Block(ss) => {
            if can_grow(st.envs) {
                let st1 = RunState { envs: spec_push(st.envs), ..st };
                lemma_skip_all(ss);
                lemma_block_grows(ss, 0, st1, rp, fuel);
            }
        },
        StmtView::Expr(e) => {
            lemma_eval_grows(e, st, rp, fuel);
        },
        StmtView::If(c, t, el) => {
            lemma_eval_grows(c, st, rp, fuel);
            let st1 = spec_eval(c, st, rp, fuel).0;
            lemma_exec_grows(*t, st1, rp, fuel);
            if let Some(b) = el {
                lemma_exec_grows(*b, st1, rp, fuel);
            }
        },
        StmtView::Print(e) => {
            lemma_eval_grows(e, st, rp, fuel);
        },
        StmtView::Return(k, v) => {
            if let Some(e) = v {
                lemma_eval_grows(e, st, rp, fuel);
            }
        },
        StmtView::Var(name, init) => {
            if let Some(e) = init {
                lemma_eval_grows(e, st, rp, fuel);
            }
        },
        StmtView::While(c, b) => {
            lemma_eval_grows(c, st, rp, fuel);
            let st1 = spec_eval(c, st, rp, fuel).0;
            if fuel > 0 {
                lemma_exec_grows(*b, st1, rp, fuel);
                let st2 = spec_exec(*b, st1, rp, fuel).0;
                lemma_grows_trans(st, st1, st2);
                lemma_exec_grows(StmtView::While(c, b), st2, rp, (fuel - 1) as nat);
                lemma_grows_trans(st, st2, spec_exec(StmtView::While(c, b), st2, rp, (fuel - 1) as nat).0);
            }
        },
        StmtView::Function(name, params, body) => {},
    }
}

/// Executing statements of a block only adds requests.
#[verifier::spinoff_prover]
pub proof fn lemma_block_grows(ss: Seq<StmtView>, i: int, st: RunState, rp: Seq<NumberView>, fuel: nat)
    ensures
        grows(st, spec_exec_block(ss, i, st, rp, fuel).0),
    decreases fuel, 1int, stmts_size(ss.skip(i)), 1int,
{
    if 0 <= i < ss.len() {
        lemma_stmts_size(ss, i);
        lemma_exec_grows(ss[i], st, rp, fuel);
        let (st1, r) = spec_exec(ss[i], st, rp, fuel);
        if r matches Ok(Flow::Continue) {
            lemma_block_grows(ss, i + 1, st1, rp, fuel);
            lemma_grows_trans(st, st1, spec_exec_block(ss, i + 1, st1, rp, fuel).0);
        }
    }
}

proof fn lemma_run_grows(ss: Seq<StmtView>, i: int, st: RunState, rp: Seq<NumberView>, fuel: nat)
    ensures
        grows(st, spec_run(ss, i, st, rp, fuel).0),
    decreases ss.len() - i,
{
    if 0 <= i < ss.len() {
        lemma_exec_grows(ss[i], st, rp, fuel);
        let (st1, r) = spec_exec(ss[i], st, rp, fuel);
        if r matches Ok(Flow::Continue) {
            lemma_run_grows(ss, i + 1, st1, rp, fuel);
            lemma_grows_trans(st, st1, spec_run(ss, i + 1, st1, rp, fuel).0);
        }
    }
}

/// Running a program never takes back what it asked of the host: the
/// requests made before (printed lines among them) begin the requests
/// made after, and replies are read in order, none twice.
pub proof fn law_output_only_grows(ss: Seq<StmtView>, st: RunState, rp: Seq<NumberView>, fuel: nat)
    ensures
        grows(st, spec_interpret(ss, st, rp, fuel).0),
{
    let st0 = RunState {
        envs: spec_define(st.envs, st.envs.head as int, "println"@, LiteralValueView::Fn(builtin_println_view())).0,
        ..st
    };
    lemma_run_grows(ss, 0, st0, rp, fuel);
}

/// `b` keeps the environments of `a`: it has at least as many slots, and
/// each environment `a` has is still there, enclosed by the same one.
pub open spec fn keeps_envs(a: StackView, b: StackView) -> bool {
    &&& a.envs.len() <= b.envs.len()
    &&& forall|j: int| 0 <= j < a.envs.len() ==> (#[trigger] a.envs[j] matches Some(e) ==> (b.envs[j] matches Some(f)
        && f.parent_idx == e.parent_idx))
}

/// From `a` to `b` the environments stay well formed and those of `a`
/// stay; if `ok`, the head is where it was.
pub open spec fn env_frame(a: RunState, b: RunState, ok: bool) -> bool {
    &&& stack_wf(b.envs)
    &&& keeps_envs(a.envs, b.envs)
    &&& ok ==> b.envs.head == a.envs.head
}

proof fn lemma_keeps_trans(a: StackView, b: StackView, c: StackView)
    requires
        keeps_envs(a, b),
        keeps_envs(b, c),
    ensures
        keeps_envs(a, c),
{
    assert forall|j: int| 0 <= j < a.envs.len() implies (#[trigger] a.envs[j] matches Some(e) ==> (c.envs[j] matches Some(f)
        && f.parent_idx == e.parent_idx)) by {
        if a.envs[j] is Some {
            assert(b.envs[j] is Some);
        }
    }
}

proof fn lemma_frame_trans(a: RunState, b: RunState, c: RunState, ok: bool)
    requires
        env_frame(a, b, true),
        env_frame(b, c, ok),
    ensures
        env_frame(a, c, ok),
{
    lemma_keeps_trans(a.envs, b.envs, c.envs);
}

proof fn lemma_define_keeps(v: StackView, idx: int, name: Seq<char>, value: LiteralValueView)
    requires
        stack_wf(v),
    ensures
        stack_wf(spec_define(v, idx, name, value).0),
        keeps_envs(v, spec_define(v, idx, name, value).0),
        spec_define(v, idx, name, value).0.head == v.head,
{
    let w = spec_define(v, idx, name, value).0;
    assert forall|j: int| 0 <= j < w.envs.len() implies (#[trigger] w.envs[j] matches Some(e) ==> {
        &&& e.idx == j
        &&& (e.parent_idx matches Some(p) ==> p < j)
    }) by {
        if j == idx && env_at(v.envs, idx) is Some {
            assert(v.envs[j] is Some);
        } else {
            assert(w.envs[j] == v.envs[j]);
        }
    }
    assert forall|j: int| 0 <= j < v.envs.len() implies (#[trigger] v.envs[j] matches Some(e) ==> (w.envs[j] matches Some(f)
        && f.parent_idx == e.parent_idx)) by {}
}

proof fn lemma_assign_keeps(v: StackView, idx: int, name: Seq<char>, value: LiteralValueView)
    requires
        stack_wf(v),
    ensures
        stack_wf(spec_assign(v, idx, name, value).0),
        keeps_envs(v, spec_assign(v, idx, name, value).0),
        spec_assign(v, idx, name, value).0.head == v.head,
{
    if let Ok(Some(i)) = spec_first_assignable(v.envs, idx, name) {
        lemma_define_keeps(v, i as int, name, value);
        assert(spec_assign(v, idx, name, value).0 == spec_define(v, i as int, name, value).0);
    }
}

proof fn lemma_define_params_keeps(v: StackView, params: Seq<CallableParamView>, args: Seq<LiteralValueView>, i: int)
    requires
        stack_wf(v),
    ensures
        stack_wf(define_params(v, params, args, i).0),
        keeps_envs(v, define_params(v, params, args, i).0),
        define_params(v, params, args, i).0.head == v.head,
    decreases params.len() - i,
{
    if 0 <= i < params.len() && i < args.len() {
        lemma_define_keeps(v, v.head as int, params[i].name, args[i]);
        let (v1, r) = spec_define(v, v.head as int, params[i].name, args[i]);
        if r is Ok {
            lemma_define_params_keeps(v1, params, args, i + 1);
            lemma_keeps_trans(v, v1, define_params(v1, params, args, i + 1).0);
        }
    }
}

proof fn lemma_push_keeps(v: StackView)
    requires
        stack_wf(v),
        can_grow(v),
    ensures
        stack_wf(spec_push(v)),
        keeps_envs(v, spec_push(v)),
        spec_push(v).head == v.envs.len(),
        spec_push(v).envs[v.envs.len() as int] matches Some(e) && e.parent_idx == Some(v.head),
{
    let w = spec_push(v);
    assert forall|j: int| 0 <= j < w.envs.len() implies (#[trigger] w.envs[j] matches Some(e) ==> {
        &&& e.idx == j
        &&& (e.parent_idx matches Some(p) ==> p < j)
    }) by {
        if j < v.envs.len() {
            assert(w.envs[j] == v.envs[j]);
        }
    }
    assert forall|j: int| 0 <= j < v.envs.len() implies (#[trigger] v.envs[j] matches Some(e) ==> (w.envs[j] matches Some(f)
        && f.parent_idx == e.parent_idx)) by {
        assert(w.envs[j] == v.envs[j]);
    }
}

proof fn lemma_push_child_keeps(v: StackView, parent: usize)
    requires
        stack_wf(v),
        can_grow(v),
    ensures
        spec_push_child(v, parent) matches Ok(w) ==> stack_wf(w) && keeps_envs(v, w),
{
    if let Ok(w) = spec_push_child(v, parent) {
        assert forall|j: int| 0 <= j < w.envs.len() implies (#[trigger] w.envs[j] matches Some(e) ==> {
            &&& e.idx == j
            &&& (e.parent_idx matches Some(p) ==> p < j)
        }) by {
            if j < v.envs.len() {
                assert(w.envs[j] == v.envs[j]);
            }
        }
        assert forall|j: int| 0 <= j < v.envs.len() implies (#[trigger] v.envs[j] matches Some(e) ==> (w.envs[j] matches Some(f)
            && f.parent_idx == e.parent_idx)) by {
            assert(w.envs[j] == v.envs[j]);
        }
    }
}

/// Popping the environment a block pushed, after the block kept it as
/// the head, takes the head back and keeps what was there before.
proof fn lemma_pop_back(v: StackView, w: StackView)
    requires
        stack_wf(v),
        can_grow(v),
        stack_wf(w),
        keeps_envs(spec_push(v), w),
        w.head == v.envs.len(),
    ensures
        stack_wf(pop_quietly(w)),
        keeps_envs(v, pop_quietly(w)),
        pop_quietly(w).head == v.head,
{
    lemma_push_keeps(v);
    let c = v.envs.len() as int;
    assert(spec_push(v).envs[c] is Some);
    assert(w.envs[c] matches Some(e) && e.parent_idx == Some(v.head));
    assert(!pop_forbidden(w));
    assert(entries_wf(w.envs)) by {
        assert forall|i: int| 0 <= i < w.envs.len() implies (#[trigger] w.envs[i] matches Some(e) ==> {
            &&& e.idx == i
            &&& (e.parent_idx matches Some(p) ==> p < i)
        }) by {}
    }
    lemma_remove_ok(w.envs, c);
    let out = spec_remove(w.envs, c).0;
    let r = pop_quietly(w);
    assert(r == StackView { envs: out, head: v.head });
    assert forall|j: int| 0 <= j < out.len() implies (#[trigger] out[j] matches Some(e) ==> {
        &&& e.idx == j
        &&& (e.parent_idx matches Some(p) ==> p < j)
    }) by {
        if out[j] != w.envs[j] {
            assert(out[j] is None);
        }
    }
    assert forall|j: int| 0 <= j < v.envs.len() implies (#[trigger] v.envs[j] matches Some(e) ==> (out[j] matches Some(f)
        && f.parent_idx == e.parent_idx)) by {
        if v.envs[j] is Some {
            assert(spec_push(v).envs[j] == v.envs[j]);
            assert(w.envs[j] is Some);
            if out[j] != w.envs[j] {
                assert(encloses(w.envs, c, j));
            }
        }
    }
}

/// Evaluating an expression keeps the environments there were, and,
/// when it gives a value, the head.
#[verifier::spinoff_prover]
pub proof fn lemma_eval_keeps(e: ExprView, st: RunState, rp: Seq<NumberView>, fuel: nat)
    requires
        stack_wf(st.envs),
    ensures
        env_frame(st, spec_eval(e, st, rp, fuel).0, spec_eval(e, st, rp, fuel).1 is Ok),
    decreases fuel, 1int, expr_size(e), 0int,
{
    match e {
        ExprView::Literal(l) => {},
        ExprView::Logical(l, op, r) => {
            lemma_eval_keeps(*l, st, rp, fuel);
            let (st1, lr) = spec_eval(*l, st, rp, fuel);
            if lr is Ok {
                lemma_eval_keeps(*r, st1, rp, fuel);
                lemma_frame_trans(st, st1, spec_eval(*r, st1, rp, fuel).0, spec_eval(*r, st1, rp, fuel).1 is Ok);
            }
        },
        ExprView::Assign(name, v) => {
            lemma_eval_keeps(*v, st, rp, fuel);
            let (st1, vr) = spec_eval(*v, st, rp, fuel);
            if let Ok(val) = vr {
                lemma_assign_keeps(st1.envs, st1.envs.head as int, name.lexeme, val);
                lemma_keeps_trans(st.envs, st1.envs, spec_assign(st1.envs, st1.envs.head as int, name.lexeme, val).0);
            }
        },
        ExprView::Unary(op, r) => {
            lemma_eval_keeps(*r, st, rp, fuel);
        },
        ExprView::Binary(l, op, r) => {
            lemma_eval_keeps(*l, st, rp, fuel);
            let (st1, lr) = spec_eval(*l, st, rp, fuel);
            if lr is Ok {
                lemma_eval_keeps(*r, st1, rp, fuel);
                let st2 = spec_eval(*r, st1, rp, fuel).0;
                lemma_frame_trans(st, st1, st2, spec_eval(*r, st1, rp, fuel).1 is Ok);
            }
        },
        ExprView::Call(callee, paren, args) => {
            lemma_eval_keeps(*callee, st, rp, fuel);
            let (st1, cr) = spec_eval(*callee, st, rp, fuel);
            if let Ok(LiteralValueView::Fn(c)) = cr {
                if args.len() == arity(c) {
                    lemma_skip_all(args);
                    lemma_args_keeps(args, 0, Seq::empty(), st1, rp, fuel);
                    let (st2, ar) = spec_eval_args(args, 0, Seq::empty(), st1, rp, fuel);
                    lemma_frame_trans(st, st1, st2, ar is Ok);
                    if let Ok(vals) = ar {
                        lemma_call_keeps(c, vals, st2, rp, fuel);
                        let st3 = spec_call(c, vals, st2, rp, fuel).0;
                        lemma_frame_trans(st, st2, st3, spec_call(c, vals, st2, rp, fuel).1 is Ok);
                    }
                }
            }
        },
        ExprView::Grouping(g) => {
            lemma_eval_keeps(*g, st, rp, fuel);
        },
        ExprView::Variable(name) => {},
    }
}

/// Evaluating arguments keeps the environments there were and, when all
/// give values, the head.
#[verifier::spinoff_prover]
pub proof fn lemma_args_keeps(args: Seq<ExprView>, i: int, acc: Seq<LiteralValueView>, st: RunState, rp: Seq<NumberView>, fuel: nat)
    requires
        stack_wf(st.envs),
    ensures
        env_frame(st, spec_eval_args(args, i, acc, st, rp, fuel).0, spec_eval_args(args, i, acc, st, rp, fuel).1 is Ok),
    decreases fuel, 1int, exprs_size(args.skip(i)), 1int,
{
    if 0 <= i < args.len() {
        lemma_exprs_size(args, i);
        lemma_eval_keeps(args[i], st, rp, fuel);
        let (st1, r) = spec_eval(args[i], st, rp, fuel);
        if let Ok(v) = r {
            lemma_args_keeps(args, i + 1, acc.push(v), st1, rp, fuel);
            let out = spec_eval_args(args, i + 1, acc.push(v), st1, rp, fuel);
            lemma_frame_trans(st, st1, out.0, out.1 is Ok);
        }
    }
}

/// A call keeps the environments there were and, when it returns, the
/// caller's head.
#[verifier::spinoff_prover]
pub proof fn lemma_call_keeps(c: CallableView, vals: Seq<LiteralValueView>, st: RunState, rp: Seq<NumberView>, fuel: nat)
    requires
        stack_wf(st.envs),
    ensures
        env_frame(st, spec_call(c, vals, st, rp, fuel).0, spec_call(c, vals, st, rp, fuel).1 is Ok),
    decreases fuel, 0int, 0int, 0int,
{
    if let CallableBodyView::Statements(body) = c.body {
        if fuel > 0 {
            if let Some(closure) = c.closure_idx {
                if can_grow(st.envs) {
                    lemma_push_child_keeps(st.envs, closure);
                    if let Ok(envs1) = spec_push_child(st.envs, closure) {
                        lemma_define_params_keeps(envs1, c.params, vals, 0);
                        let (envs2, dr) = define_params(envs1, c.params, vals, 0);
                        lemma_keeps_trans(st.envs, envs1, envs2);
                        let st2 = RunState { envs: envs2, ..st };
                        if dr is Ok {
                            lemma_block_keeps(body, 0, st2, rp, (fuel - 1) as nat);
                            let st3 = spec_exec_block(body, 0, st2, rp, (fuel - 1) as nat).0;
                            lemma_keeps_trans(st.envs, envs2, st3.envs);
                        }
                    }
                }
            }
        }
    }
}

/// Executing a statement keeps the environments there were and, when it
/// goes through, the head.
#[verifier::spinoff_prover]
pub proof fn lemma_exec_keeps(s: StmtView, st: RunState, rp: Seq<NumberView>, fuel: nat)
    requires
        stack_wf(st.envs),
    ensures
        env_frame(st, spec_exec(s, st, rp, fuel).0, spec_exec(s, st, rp, fuel).1 is Ok),
    decreases fuel, 1int, stmt_size(s), 0int,
{
    match s {
        StmtView::Block(ss) => {
            if can_grow(st.envs) {
                lemma_push_keeps(st.envs);
                let st1 = RunState { envs: spec_push(st.envs), ..st };
                lemma_skip_all(ss);
                lemma_block_keeps(ss, 0, st1, rp, fuel);
                let (st2, r) = spec_exec_block(ss, 0, st1, rp, fuel);
                lemma_keeps_trans(st.envs, st1.envs, st2.envs);
                if r is Ok {
                    lemma_pop_back(st.envs, st2.envs);
                }
            }
        },
        StmtView::Expr(e) => {
            lemma_eval_keeps(e, st, rp, fuel);
        },
        StmtView::If(c, t, el) => {
            lemma_eval_keeps(c, st, rp, fuel);
            let (st1, cr) = spec_eval(c, st, rp, fuel);
            if cr is Ok {
                lemma_exec_keeps(*t, st1, rp, fuel);
                lemma_frame_trans(st, st1, spec_exec(*t, st1, rp, fuel).0, spec_exec(*t, st1, rp, fuel).1 is Ok);
                if let Some(b) = el {
                    lemma_exec_keeps(*b, st1, rp, fuel);
                    lemma_frame_trans(st, st1, spec_exec(*b, st1, rp, fuel).0, spec_exec(*b, st1, rp, fuel).1 is Ok);
                }
            }
        },
        StmtView::Print(e) => {
            lemma_eval_keeps(e, st, rp, fuel);
        },
        StmtView::Return(k, v) => {
            if let Some(e) = v {
                lemma_eval_keeps(e, st, rp, fuel);
            }
        },
        StmtView::Var(name, init) => {
            if let Some(e) = init {
                lemma_eval_keeps(e, st, rp, fuel);
            }
            let (st1, r) = match init {
                None => (st, Ok(LiteralValueView::Nil)),
                Some(e) => spec_eval(e, st, rp, fuel),
            };
            if let Ok(val) = r {
                lemma_define_keeps(st1.envs, st1.envs.head as int, name.lexeme, val);
                lemma_keeps_trans(st.envs, st1.envs, spec_define(st1.envs, st1.envs.head as int, name.lexeme, val).0);
            }
        },
        StmtView::While(c, b) => {
            lemma_eval_keeps(c, st, rp, fuel);
            let (st1, cr) = spec_eval(c, st, rp, fuel);
            if cr is Ok && fuel > 0 {
                lemma_exec_keeps(*b, st1, rp, fuel);
                let (st2, r) = spec_exec(*b, st1, rp, fuel);
                lemma_frame_trans(st, st1, st2, r is Ok);
                if r is Ok {
                    lemma_exec_keeps(StmtView::While(c, b), st2, rp, (fuel - 1) as nat);
                    let out = spec_exec(StmtView::While(c, b), st2, rp, (fuel - 1) as nat);
                    lemma_frame_trans(st, st2, out.0, out.1 is Ok);
                }
            }
        },
        StmtView::Function(name, params, body) => {
            lemma_define_keeps(
                st.envs,
                st.envs.head as int,
                name,
                LiteralValueView::Fn(declared_fn(name, params, body, st.envs.head)),
            );
        },
    }
}

/// Executing statements of a block keeps the environments there were
/// and, when they go through, the head.
#[verifier::spinoff_prover]
pub proof fn lemma_block_keeps(ss: Seq<StmtView>, i: int, st: RunState, rp: Seq<NumberView>, fuel: nat)
    requires
        stack_wf(st.envs),
    ensures
        env_frame(st, spec_exec_block(ss, i, st, rp, fuel).0, spec_exec_block(ss, i, st, rp, fuel).1 is Ok),
    decreases fuel, 1int, stmts_size(ss.skip(i)), 1int,
{
    if 0 <= i < ss.len() {
        lemma_stmts_size(ss, i);
        lemma_exec_keeps(ss[i], st, rp, fuel);
        let (st1, r) = spec_exec(ss[i], st, rp, fuel);
        if r matches Ok(Flow::Continue) {
            lemma_block_keeps(ss, i + 1, st1, rp, fuel);
            let out = spec_exec_block(ss, i + 1, st1, rp, fuel);
            lemma_frame_trans(st, st1, out.0, out.1 is Ok);
        }
    }
}

/// A statement that goes through leaves the head environment as it found
/// it (a block takes off the environment it added, a call goes back to
/// the caller's), and every environment there was before is still there,
/// enclosed by the same one.
pub proof fn law_statement_keeps_head(s: StmtView, st: RunState, rp: Seq<NumberView>, fuel: nat)
    requires
        stack_wf(st.envs),
    ensures
        spec_exec(s, st, rp, fuel).1 is Ok ==> spec_exec(s, st, rp, fuel).0.envs.head == st.envs.head,
        keeps_envs(st.envs, spec_exec(s, st, rp, fuel).0.envs),
{
    lemma_exec_keeps(s, st, rp, fuel);
}

/// The value `var` gives a variable: that of its initializer, or nil.
pub open spec fn initial_value(init: Option<ExprView>, st: RunState, rp: Seq<NumberView>, fuel: nat) -> LiteralValueView {
    match init {
        None => LiteralValueView::Nil,
        Some(e) => spec_eval(e, st, rp, fuel).1->Ok_0,
    }
}

/// After `var name = init;` goes through, reading `name` gives the value
/// it was given.
pub proof fn law_var_then_read(name: TokenView, init: Option<ExprView>, st: RunState, rp: Seq<NumberView>, fuel: nat, later: nat)
    requires
        stack_wf(st.envs),
        env_at(st.envs.envs, st.envs.head as int) is Some,
    ensures
        spec_exec(StmtView::Var(name, init), st, rp, fuel).1 is Ok ==> {
            let st2 = spec_exec(StmtView::Var(name, init), st, rp, fuel).0;
            spec_eval(ExprView::Variable(name), st2, rp, later) == (st2, Ok::<LiteralValueView, Seq<char>>(
                initial_value(init, st, rp, fuel),
            ))
        },
{
    let (st1, r) = match init {
        None => (st, Ok(LiteralValueView::Nil)),
        Some(e) => spec_eval(e, st, rp, fuel),
    };
    if let Some(e) = init {
        lemma_eval_keeps(e, st, rp, fuel);
    }
    if let Ok(val) = r {
        assert(st.envs.envs[st.envs.head as int] is Some);
        law_define_then_lookup(st1.envs, st1.envs.head as int, name.lexeme, val);
    }
}

/// After an assignment `name = value` goes through, reading `name` gives
/// the value assigned.
pub proof fn law_assign_then_read(name: TokenView, value: ExprView, st: RunState, rp: Seq<NumberView>, fuel: nat, later: nat)
    requires
        stack_wf(st.envs),
    ensures
        spec_eval(ExprView::Assign(name, Box::new(value)), st, rp, fuel).1 is Ok ==> {
            let (st2, r) = spec_eval(ExprView::Assign(name, Box::new(value)), st, rp, fuel);
            spec_eval(ExprView::Variable(name), st2, rp, later) == (st2, r)
        },
{
    lemma_eval_keeps(value, st, rp, fuel);
    let (st1, vr) = spec_eval(value, st, rp, fuel);
    if let Ok(val) = vr {
        if spec_assign(st1.envs, st1.envs.head as int, name.lexeme, val).1 is Ok {
            law_assign_then_lookup(st1.envs, st1.envs.head as int, name.lexeme, val);
        }
    }
}


/// Evaluating `l == r` and `l != r` from the same state, where both
/// operands give values, gives the same state, neither fails, and the two
/// results are a boolean and its negation: exactly one of them is `true`.
pub proof fn law_equal_and_not_equal(l: ExprView, eq: TokenView, ne: TokenView, r: ExprView, st: RunState, rp: Seq<NumberView>, fuel: nat)
    requires
        eq.token_type == TokenType::EqualEqual,
        ne.token_type == TokenType::BangEqual,
        spec_eval(l, st, rp, fuel).1 is Ok,
        spec_eval(r, spec_eval(l, st, rp, fuel).0, rp, fuel).1 is Ok,
    ensures
        ({
            let (st1, lr) = spec_eval(l, st, rp, fuel);
            let (st2, rr) = spec_eval(r, st1, rp, fuel);
            let same = values_equal(lr->Ok_0, rr->Ok_0);
            &&& spec_eval(ExprView::Binary(Box::new(l), eq, Box::new(r)), st, rp, fuel) == (st2, Ok::<LiteralValueView, Seq<char>>(bool_value(same)))
            &&& spec_eval(ExprView::Binary(Box::new(l), ne, Box::new(r)), st, rp, fuel) == (st2, Ok::<LiteralValueView, Seq<char>>(bool_value(!same)))
            &&& (bool_value(same) == LiteralValueView::True) != (bool_value(!same) == LiteralValueView::True)
        }),
{
}

/// Running on `rp2`, which `rp` begins, goes as running on `rp`: the
/// same where the run on `rp` needed no reply past those of `rp`; where it
/// stopped waiting on a request, the run failed, and if `rp2` has a reply
/// for it, the run on `rp2` makes the same requests, that one, and
/// perhaps more.  (The run on `rp` reads no more replies than `rp` has.)
pub open spec fn replays<T>(a: (RunState, Result<T, Seq<char>>), b: (RunState, Result<T, Seq<char>>), rp: Seq<NumberView>, rp2: Seq<NumberView>) -> bool {
    &&& a.0.used <= rp.len()
    &&& a.0.waiting is None ==> b == a
    &&& a.0.waiting matches Some(q) ==> a.1 is Err && (rp.len() < rp2.len() ==> extends(a.0.requests.push(q), b.0.requests))
}

/// A run may start on `rp` and `rp2`: `rp` begins `rp2`, nothing is
/// waited on and no reply past `rp` was read.
pub open spec fn replay_start(st: RunState, rp: Seq<NumberView>, rp2: Seq<NumberView>) -> bool {
    &&& extends(rp, rp2)
    &&& st.waiting is None
    &&& st.used <= rp.len()
}

proof fn lemma_ask_replays(st: RunState, req: HostRequest, rp: Seq<NumberView>, rp2: Seq<NumberView>)
    requires
        replay_start(st, rp, rp2),
    ensures
        replays(ask(st, req, rp), ask(st, req, rp2), rp, rp2),
{
    if st.used < rp.len() {
        assert(rp2[st.used as int] == rp[st.used as int]);
    } else {
        let a = ask(st, req, rp);
        if rp.len() < rp2.len() {
            assert(extends(a.0.requests.push(req), ask(st, req, rp2).0.requests));
        }
    }
}

/// Evaluating an expression on more replies than it needs goes as on
/// those it needs.
#[verifier::spinoff_prover]
#[verifier::rlimit(40)]
pub proof fn lemma_eval_replays(e: ExprView, st: RunState, rp: Seq<NumberView>, rp2: Seq<NumberView>, fuel: nat)
    requires
        replay_start(st, rp, rp2),
    ensures
        replays(spec_eval(e, st, rp, fuel), spec_eval(e, st, rp2, fuel), rp, rp2),
    decreases fuel, 1int, expr_size(e), 0int,
{
    match e {
        ExprView::Literal(l) => {
            if let LiteralView::Num(digits) = l {
                lemma_ask_replays(st, HostRequest::ParseNumber(digits), rp, rp2);
            }
        },
        ExprView::Logical(l, op, r) => {
            lemma_eval_replays(*l, st, rp, rp2, fuel);
            let (st1, lr) = spec_eval(*l, st, rp, fuel);
            let (st1b, lrb) = spec_eval(*l, st, rp2, fuel);
            if st1.waiting is None {
                if lr is Ok {
                    lemma_eval_replays(*r, st1, rp, rp2, fuel);
                }
            } else if rp.len() < rp2.len() {
                if let Ok(lv) = lrb {
                    lemma_eval_grows(*r, st1b, rp2, fuel);
                }
            }
        },
        ExprView::Assign(name, v) => {
            lemma_eval_replays(*v, st, rp, rp2, fuel);
        },
        ExprView::Unary(op, r) => {
            lemma_eval_replays(*r, st, rp, rp2, fuel);
            let (st1, rr) = spec_eval(*r, st, rp, fuel);
            if st1.waiting is None {
                if let Ok(rv) = rr {
                    if let LiteralValueView::Num(n) = rv {
                        lemma_ask_replays(st1, HostRequest::Negate(n), rp, rp2);
                    }
                }
            }
        },
        ExprView::Binary(l, op, r) => {
            lemma_eval_replays(*l, st, rp, rp2, fuel);
            let (st1, lr) = spec_eval(*l, st, rp, fuel);
            let (st1b, lrb) = spec_eval(*l, st, rp2, fuel);
            if st1.waiting is None {
                if let Ok(lv) = lr {
                    lemma_eval_replays(*r, st1, rp, rp2, fuel);
                    let (st2, rr) = spec_eval(*r, st1, rp, fuel);
                    if st2.waiting is None {
                        if let Ok(rv) = rr {
                            if let Ok((a, b)) = binary_numbers(lv, rv) {
                                lemma_ask_replays(st2, HostRequest::Arithmetic(arith_of(op.token_type), a, b), rp, rp2);
                            }
                        }
                    }
                }
            } else if rp.len() < rp2.len() {
                if let Ok(lv) = lrb {
                    lemma_eval_grows(*r, st1b, rp2, fuel);
                    let (st2b, rrb) = spec_eval(*r, st1b, rp2, fuel);
                    lemma_grows_trans(st1b, st2b, spec_eval(e, st, rp2, fuel).0);
                }
            }
        },
        ExprView::Call(callee, paren, args) => {
            lemma_eval_replays(*callee, st, rp, rp2, fuel);
            let (st1, cr) = spec_eval(*callee, st, rp, fuel);
            let (st1b, crb) = spec_eval(*callee, st, rp2, fuel);
            lemma_skip_all(args);
            if st1.waiting is None {
                if let Ok(LiteralValueView::Fn(c)) = cr {
                    if args.len() == arity(c) {
                        lemma_args_replays(args, 0, Seq::empty(), st1, rp, rp2, fuel);
                        let (st2, ar) = spec_eval_args(args, 0, Seq::empty(), st1, rp, fuel);
                        if st2.waiting is None {
                            if let Ok(vals) = ar {
                                lemma_call_replays(c, vals, st2, rp, rp2, fuel);
                            }
                        } else if rp.len() < rp2.len() {
                            let (st2b, arb) = spec_eval_args(args, 0, Seq::empty(), st1, rp2, fuel);
                            if let Ok(vals) = arb {
                                lemma_call_grows(c, vals, st2b, rp2, fuel);
                            }
                        }
                    }
                }
            } else if rp.len() < rp2.len() {
                if let Ok(LiteralValueView::Fn(c)) = crb {
                    if args.len() == arity(c) {
                        lemma_args_grows(args, 0, Seq::empty(), st1b, rp2, fuel);
                        let (st2b, arb) = spec_eval_args(args, 0, Seq::empty(), st1b, rp2, fuel);
                        if let Ok(vals) = arb {
                            lemma_call_grows(c, vals, st2b, rp2, fuel);
                            lemma_grows_trans(st1b, st2b, spec_call(c, vals, st2b, rp2, fuel).0);
                        }
                    }
                }
            }
        },
        ExprView::Grouping(g) => {
            lemma_eval_replays(*g, st, rp, rp2, fuel);
        },
        ExprView::Variable(name) => {},
    }
}

/// Evaluating arguments on more replies than they need goes as on those
/// they need.
#[verifier::spinoff_prover]
pub proof fn lemma_args_replays(args: Seq<ExprView>, i: int, acc: Seq<LiteralValueView>, st: RunState, rp: Seq<NumberView>, rp2: Seq<NumberView>, fuel: nat)
    requires
        replay_start(st, rp, rp2),
    ensures
        replays(spec_eval_args(args, i, acc, st, rp, fuel), spec_eval_args(args, i, acc, st, rp2, fuel), rp, rp2),
    decreases fuel, 1int, exprs_size(args.skip(i)), 1int,
{
    if 0 <= i < args.len() {
        lemma_exprs_size(args, i);
        lemma_eval_replays(args[i], st, rp, rp2, fuel);
        let (st1, r) = spec_eval(args[i], st, rp, fuel);
        let (st1b, rb) = spec_eval(args[i], st, rp2, fuel);
        if st1.waiting is None {
            if let Ok(v) = r {
                lemma_args_replays(args, i + 1, acc.push(v), st1, rp, rp2, fuel);
            }
        } else if rp.len() < rp2.len() {
            if let Ok(v) = rb {
                lemma_args_grows(args, i + 1, acc.push(v), st1b, rp2, fuel);
            }
        }
    }
}

/// A call on more replies than it needs goes as on those it needs.
#[verifier::spinoff_prover]
pub proof fn lemma_call_replays(c: CallableView, vals: Seq<LiteralValueView>, st: RunState, rp: Seq<NumberView>, rp2: Seq<NumberView>, fuel: nat)
    requires
        replay_start(st, rp, rp2),
    ensures
        replays(spec_call(c, vals, st, rp, fuel), spec_call(c, vals, st, rp2, fuel), rp, rp2),
    decreases fuel, 0int, 0int, 0int,
{
    if let CallableBodyView::Statements(body) = c.body {
        if fuel > 0 {
            if let Some(closure) = c.closure_idx {
                if can_grow(st.envs) {
                    if let Ok(envs1) = spec_push_child(st.envs, closure) {
                        let (envs2, dr) = define_params(envs1, c.params, vals, 0);
                        let st2 = RunState { envs: envs2, ..st };
                        if dr is Ok {
                            lemma_block_replays(body, 0, st2, rp, rp2, (fuel - 1) as nat);
                        }
                    }
                }
            }
        }
    }
}

/// Executing a statement on more replies than it needs goes as on those
/// it needs.
#[verifier::spinoff_prover]
#[verifier::rlimit(40)]
pub proof fn lemma_exec_replays(s: StmtView, st: RunState, rp: Seq<NumberView>, rp2: Seq<NumberView>, fuel: nat)
    requires
        replay_start(st, rp, rp2),
    ensures
        replays(spec_exec(s, st, rp, fuel), spec_exec(s, st, rp2, fuel), rp, rp2),
    decreases fuel, 1int, stmt_size(s), 0int,
{
    match s {
        StmtView::Block(ss) => {
            if can_grow(st.envs) {
                let st1 = RunState { envs: spec_push(st.envs), ..st };
                lemma_skip_all(ss);
                lemma_block_replays(ss, 0, st1, rp, rp2, fuel);
            }
        },
        StmtView::Expr(e) => {
            lemma_eval_replays(e, st, rp, rp2, fuel);
        },
        StmtView::If(c, t, el) => {
            lemma_eval_replays(c, st, rp, rp2, fuel);
            let (st1, cr) = spec_eval(c, st, rp, fuel);
            let (st1b, crb) = spec_eval(c, st, rp2, fuel);
            if st1.waiting is None {
                if cr is Ok {
                    lemma_exec_replays(*t, st1, rp, rp2, fuel);
                    if let Some(b) = el {
                        lemma_exec_replays(*b, st1, rp, rp2, fuel);
                    }
                }
            } else if rp.len() < rp2.len() {
                if crb is Ok {
                    lemma_exec_grows(*t, st1b, rp2, fuel);
                    if let Some(b) = el {
                        lemma_exec_grows(*b, st1b, rp2, fuel);
                    }
                }
            }
        },
        StmtView::Print(e) => {
            lemma_eval_replays(e, st, rp, rp2, fuel);
        },
        StmtView::Return(k, v) => {
            if let Some(e) = v {
                lemma_eval_replays(e, st, rp, rp2, fuel);
            }
        },
        StmtView::Var(name, init) => {
            if let Some(e) = init {
                lemma_eval_replays(e, st, rp, rp2, fuel);
            }
        },
        StmtView::While(c, b) => {
            lemma_eval_replays(c, st, rp, rp2, fuel);
            let (st1, cr) = spec_eval(c, st, rp, fuel);
            let (st1b, crb) = spec_eval(c, st, rp2, fuel);
            if st1.waiting is None {
                if cr is Ok && fuel > 0 {
                    lemma_exec_replays(*b, st1, rp, rp2, fuel);
                    let (st2, r) = spec_exec(*b, st1, rp, fuel);
                    let (st2b, rb) = spec_exec(*b, st1, rp2, fuel);
                    if st2.waiting is None {
                        if r is Ok {
                            lemma_exec_replays(StmtView::While(c, b), st2, rp, rp2, (fuel - 1) as nat);
                        }
                    } else if rp.len() < rp2.len() {
                        if rb matches Ok(Flow::Continue) {
                            lemma_exec_grows(StmtView::While(c, b), st2b, rp2, (fuel - 1) as nat);
                        }
                    }
                }
            } else if rp.len() < rp2.len() {
                if crb is Ok && fuel > 0 {
                    lemma_exec_grows(*b, st1b, rp2, fuel);
                    let (st2b, rb) = spec_exec(*b, st1b, rp2, fuel);
                    if rb matches Ok(Flow::Continue) {
                        lemma_exec_grows(StmtView::While(c, b), st2b, rp2, (fuel - 1) as nat);
                        lemma_grows_trans(st1b, st2b, spec_exec(StmtView::While(c, b), st2b, rp2, (fuel - 1) as nat).0);
                    }
                }
            }
        },
        StmtView::Function(name, params, body) => {},
    }
}

/// Executing statements of a block on more replies than they need goes
/// as on those they need.
#[verifier::spinoff_prover]
pub proof fn lemma_block_replays(ss: Seq<StmtView>, i: int, st: RunState, rp: Seq<NumberView>, rp2: Seq<NumberView>, fuel: nat)
    requires
        replay_start(st, rp, rp2),
    ensures
        replays(spec_exec_block(ss, i, st, rp, fuel), spec_exec_block(ss, i, st, rp2, fuel), rp, rp2),
    decreases fuel, 1int, stmts_size(ss.skip(i)), 1int,
{
    if 0 <= i < ss.len() {
        lemma_stmts_size(ss, i);
        lemma_exec_replays(ss[i], st, rp, rp2, fuel);
        let (st1, r) = spec_exec(ss[i], st, rp, fuel);
        let (st1b, rb) = spec_exec(ss[i], st, rp2, fuel);
        if st1.waiting is None {
            if r matches Ok(Flow::Continue) {
                lemma_block_replays(ss, i + 1, st1, rp, rp2, fuel);
            }
        } else if rp.len() < rp2.len() {
            if rb matches Ok(Flow::Continue) {
                lemma_block_grows(ss, i + 1, st1b, rp2, fuel);
            }
        }
    }
}

proof fn lemma_run_replays(ss: Seq<StmtView>, i: int, st: RunState, rp: Seq<NumberView>, rp2: Seq<NumberView>, fuel: nat)
    requires
        replay_start(st, rp, rp2),
    ensures
        replays(spec_run(ss, i, st, rp, fuel), spec_run(ss, i, st, rp2, fuel), rp, rp2),
    decreases ss.len() - i,
{
    if 0 <= i < ss.len() {
        lemma_exec_replays(ss[i], st, rp, rp2, fuel);
        let (st1, r) = spec_exec(ss[i], st, rp, fuel);
        let (st1b, rb) = spec_exec(ss[i], st, rp2, fuel);
        if st1.waiting is None {
            if r matches Ok(Flow::Continue) {
                lemma_run_replays(ss, i + 1, st1, rp, rp2, fuel);
            }
        } else if rp.len() < rp2.len() {
            if rb matches Ok(Flow::Continue) {
                lemma_run_grows(ss, i + 1, st1b, rp2, fuel);
            }
        }
    }
}

/// Answering a run and running again is sound: a program run on replies
/// `rp` that `rp2` begins runs on `rp2` as on `rp` where it needed no
/// more; where it stopped waiting on a request, it failed, and if `rp2`
/// holds one more reply, the run on `rp2` makes the same requests, the
/// one waited on and perhaps more.
pub proof fn law_more_replies_replay(ss: Seq<StmtView>, st: RunState, rp: Seq<NumberView>, rp2: Seq<NumberView>, fuel: nat)
    requires
        replay_start(st, rp, rp2),
    ensures
        replays(spec_interpret(ss, st, rp, fuel), spec_interpret(ss, st, rp2, fuel), rp, rp2),
{
    let st0 = RunState {
        envs: spec_define(st.envs, st.envs.head as int, "println"@, LiteralValueView::Fn(builtin_println_view())).0,
        ..st
    };
    lemma_run_replays(ss, 0, st0, rp, rp2, fuel);
}

/// `or` and `and` give back an operand: `l or r` is the value of `l`
/// when that is neither `nil` nor `false` (and `r` is not evaluated),
/// else whatever `r` gives, evaluated after `l`; `l and r` is the value
/// of `l` when that is `nil` or `false`, else whatever `r` gives.
pub proof fn law_logical_short_circuit(l: ExprView, op: TokenView, r: ExprView, st: RunState, rp: Seq<NumberView>, fuel: nat)
    requires
        op.token_type == TokenType::Or || op.token_type == TokenType::And,
        spec_eval(l, st, rp, fuel).1 is Ok,
    ensures
        ({
            let (st1, lr) = spec_eval(l, st, rp, fuel);
            let v = lr->Ok_0;
            let whole = spec_eval(ExprView::Logical(Box::new(l), op, Box::new(r)), st, rp, fuel);
            &&& op.token_type == TokenType::Or && !(v is Nil) && !(v is False) ==> whole == (st1, Ok::<LiteralValueView, Seq<char>>(v))
            &&& op.token_type == TokenType::Or && (v is Nil || v is False) ==> whole == spec_eval(r, st1, rp, fuel)
            &&& op.token_type == TokenType::And && (v is Nil || v is False) ==> whole == (st1, Ok::<LiteralValueView, Seq<char>>(v))
            &&& op.token_type == TokenType::And && !(v is Nil) && !(v is False) ==> whole == spec_eval(r, st1, rp, fuel)
        }),
{
}

/// An `if` runs exactly one of its branches, after its condition: the
/// then-branch when the condition gives anything but `nil` or `false`
/// (numbers and strings included), else the else-branch, or nothing when
/// there is none.
pub proof fn law_if_runs_one_branch(c: ExprView, t: StmtView, e: Option<Box<StmtView>>, st: RunState, rp: Seq<NumberView>, fuel: nat)
    requires
        spec_eval(c, st, rp, fuel).1 is Ok,
    ensures
        ({
            let (st1, cr) = spec_eval(c, st, rp, fuel);
            let v = cr->Ok_0;
            let whole = spec_exec(StmtView::If(c, Box::new(t), e), st, rp, fuel);
            &&& !(v is Nil) && !(v is False) ==> whole == spec_exec(t, st1, rp, fuel)
            &&& (v is Nil || v is False) ==> whole == match e {
                Some(b) => spec_exec(*b, st1, rp, fuel),
                None => (st1, Ok::<Flow, Seq<char>>(Flow::Continue)),
            }
        }),
{
}

/// The sign bit of a float's bit pattern is set.
pub open spec fn sign_set(b: u32) -> bool {
    b >= 0x8000_0000u32
}

/// The bits of a float after the sign bit: its magnitude, ordered as the
/// magnitudes of the floats are.
pub open spec fn magnitude(b: u32) -> int {
    if sign_set(b) { b - 0x8000_0000u32 } else { b as int }
}

/// The bit pattern of a NaN: all exponent bits set and a non-zero fraction.
pub open spec fn nan_pattern(b: u32) -> bool {
    magnitude(b) > 0x7f80_0000
}

/// `a` lies below `b` on the float line, for bit patterns of non-NaN
/// floats: among non-negative ones the larger pattern is the larger
/// float; among negative ones the larger pattern is the smaller float;
/// every negative float but `-0` lies below every non-negative one.
pub open spec fn float_below(a: u32, b: u32) -> bool {
    if !sign_set(a) && !sign_set(b) {
        a < b
    } else if sign_set(a) && sign_set(b) {
        b < a
    } else if sign_set(a) {
        !(magnitude(a) == 0 && magnitude(b) == 0)
    } else {
        false
    }
}

/// The floats with patterns `a` and `b` are equal: the same pattern, or
/// the two zeros.
pub open spec fn float_same(a: u32, b: u32) -> bool {
    a == b || (magnitude(a) == 0 && magnitude(b) == 0)
}

proof fn lemma_order_key_bits(b: u32)
    ensures
        f32_order_key(b) == if sign_set(b) { -magnitude(b) } else { magnitude(b) },
        f32_is_nan(b) == nan_pattern(b),
{
    assert(((b & 0x8000_0000u32) != 0) == (b >= 0x8000_0000u32)) by (bit_vector);
    assert(b >= 0x8000_0000u32 ==> (b & 0x7fff_ffffu32) == b - 0x8000_0000u32) by (bit_vector);
    assert(b < 0x8000_0000u32 ==> (b & 0x7fff_ffffu32) == b) by (bit_vector);
    assert(((b & 0x7f80_0000u32) == 0x7f80_0000u32 && (b & 0x007f_ffffu32) != 0) == ((b & 0x7fff_ffffu32) > 0x7f80_0000u32))
        by (bit_vector);
}

/// Comparisons of two numbers follow the float line: `a < b` is true
/// exactly when the float `a` lies below `b`, `a <= b` when it lies below
/// or is equal, and `>`/`>=` the other way round; anything compared with
/// a NaN is false.  None of them asks the host anything.
pub proof fn law_number_comparisons(a: NumberView, b: NumberView, st: RunState, rp: Seq<NumberView>)
    ensures
        ({
            let x = LiteralValueView::Num(a);
            let y = LiteralValueView::Num(b);
            let truth = |p: bool| if p { LiteralValueView::True } else { LiteralValueView::False };
            let ordered = !nan_pattern(a.bits) && !nan_pattern(b.bits);
            &&& spec_binary(TokenType::Less, x, y, st, rp) == (st, Ok::<LiteralValueView, Seq<char>>(
                truth(ordered && float_below(a.bits, b.bits))))
            &&& spec_binary(TokenType::LessEqual, x, y, st, rp) == (st, Ok::<LiteralValueView, Seq<char>>(
                truth(ordered && (float_below(a.bits, b.bits) || float_same(a.bits, b.bits)))))
            &&& spec_binary(TokenType::Greater, x, y, st, rp) == (st, Ok::<LiteralValueView, Seq<char>>(
                truth(ordered && float_below(b.bits, a.bits))))
            &&& spec_binary(TokenType::GreaterEqual, x, y, st, rp) == (st, Ok::<LiteralValueView, Seq<char>>(
                truth(ordered && (float_below(b.bits, a.bits) || float_same(a.bits, b.bits)))))
        }),
{
    lemma_order_key_bits(a.bits);
    lemma_order_key_bits(b.bits);
}

} // verus!
