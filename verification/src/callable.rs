//! Functions a program can call: the built-in `println` and the
//! functions a program declares.
use vstd::prelude::*;

use crate::literals::LiteralValueType;
use crate::semantics::declared_fn;
use crate::statements::{duplicate_stmts, stmts_view, token_seq_view, Stmt, StmtView};
use crate::tokens::Token;
use crate::text::string_of;

verus! {

/// A parameter of a callable: its name and the kind of value it expects
/// (`Any` for the parameters of declared functions, which are untyped).
#[derive(Debug)]
pub struct CallableParam {
    pub name: String,
    pub value_type: LiteralValueType,
}

/// The mathematical value of a [`CallableParam`].
pub struct CallableParamView {
    pub name: Seq<char>,
    pub value_type: LiteralValueType,
}

impl View for CallableParam {
    type V = CallableParamView;

    open spec fn view(&self) -> CallableParamView {
        CallableParamView { name: self.name@, value_type: self.value_type }
    }
}

impl CallableParam {
    /// A parameter named `name` expecting values of kind `value_type`.
    pub fn new(name: String, value_type: LiteralValueType) -> (r: Self)
        ensures
            r.name@ == name@,
            r.value_type == value_type,
    {
        Self { name, value_type }
    }

    /// A copy of this parameter.
    pub fn duplicate(&self) -> (r: Self)
        ensures
            r@ == self@,
    {
        CallableParam { name: self.name.clone(), value_type: self.value_type }
    }
}

/// What running a callable does: a built-in action, or the statements
/// of a declared function.
#[derive(Debug)]
pub enum CallableBody {
    Builtin,
    Statements(Vec<Stmt>),
}

/// The mathematical value of a [`CallableBody`].
pub enum CallableBodyView {
    Builtin,
    Statements(Seq<StmtView>),
}

impl View for CallableBody {
    type V = CallableBodyView;

    open spec fn view(&self) -> CallableBodyView {
        match self {
            CallableBody::Builtin => CallableBodyView::Builtin,
            CallableBody::Statements(b) => CallableBodyView::Statements(stmts_view(b@)),
        }
    }
}

/// A function value: its name, its parameters, its body, and for a
/// declared function the environment it was declared in.
#[derive(Debug)]
pub struct Callable {
    pub name: String,
    pub params: Vec<CallableParam>,
    pub body: CallableBody,
    pub closure_idx: Option<usize>,
}

/// The mathematical value of a [`Callable`].
pub struct CallableView {
    pub name: Seq<char>,
    pub params: Seq<CallableParamView>,
    pub body: CallableBodyView,
    pub closure_idx: Option<usize>,
}

impl View for Callable {
    type V = CallableView;

    open spec fn view(&self) -> CallableView {
        CallableView {
            name: self.name@,
            params: self.params@.map_values(|p: CallableParam| p@),
            body: self.body@,
            closure_idx: self.closure_idx,
        }
    }
}

/// Copies of the parameters in `ps`, in order.
pub fn duplicate_params(ps: &Vec<CallableParam>) -> (r: Vec<CallableParam>)
    ensures
        r@.map_values(|p: CallableParam| p@) == ps@.map_values(|p: CallableParam| p@),
{
    let mut copies: Vec<CallableParam> = Vec::new();
    let mut i: usize = 0;
    while i < ps.len()
        invariant
            i <= ps.len(),
            copies.len() == i,
            forall|j: int| 0 <= j < i ==> #[trigger] copies@[j]@ == ps@[j]@,
        decreases ps.len() - i,
    {
        copies.push(ps[i].duplicate());
        i = i + 1;
    }
    assert(copies@.map_values(|p: CallableParam| p@) =~= ps@.map_values(|p: CallableParam| p@));
    copies
}

impl Callable {
    /// The name the callable was declared with.
    pub fn name(&self) -> (r: String)
        ensures
            r@ == self.name@,
    {
        self.name.clone()
    }

    /// How many arguments a call must pass.
    pub fn arity(&self) -> (r: usize)
        ensures
            r == self.params.len(),
    {
        self.params.len()
    }

    /// A copy of this callable.
    pub fn duplicate(&self) -> (r: Self)
        ensures
            r@ == self@,
    {
        let body = match &self.body {
            CallableBody::Builtin => CallableBody::Builtin,
            CallableBody::Statements(b) => CallableBody::Statements(duplicate_stmts(b)),
        };
        Callable {
            name: self.name.clone(),
            params: duplicate_params(&self.params),
            body,
            closure_idx: self.closure_idx,
        }
    }
}

/// The built-in `println`, as a callable: one parameter, "text".
pub open spec fn builtin_println_view() -> CallableView {
    CallableView {
        name: "println"@,
        params: seq![CallableParamView { name: "text"@, value_type: LiteralValueType::Str }],
        body: CallableBodyView::Builtin,
        closure_idx: None,
    }
}

/// The built-in `println`, which prints its argument on a line.
pub fn get_builtin_println() -> (r: Callable)
    ensures
        r@ == builtin_println_view(),
{
    let mut params = Vec::new();
    params.push(CallableParam::new(string_of("text"), LiteralValueType::Str));
    let r = Callable {
        name: string_of("println"),
        params,
        body: CallableBody::Builtin,
        closure_idx: None,
    };
    assert(r@.params =~= builtin_println_view().params);
    r
}

/// A declared function with the given parts.
pub fn create_bea_fn(
    name: String,
    params: Vec<CallableParam>,
    body: Vec<Stmt>,
    closure_idx: Option<usize>,
) -> (r: Callable)
    ensures
        r.name@ == name@,
        r@.params == params@.map_values(|p: CallableParam| p@),
        r@.body == CallableBodyView::Statements(stmts_view(body@)),
        r.closure_idx == closure_idx,
{
    Callable { name, params, closure_idx, body: CallableBody::Statements(body) }
}

/// The built-in `println` function.
pub struct BeaBuiltinPrintln;

impl BeaBuiltinPrintln {
    /// "println".
    pub fn name(&self) -> (r: String)
        ensures
            r@ == "println"@,
    {
        string_of("println")
    }

    /// One argument.
    pub fn arity(&self) -> (r: usize)
        ensures
            r == 1,
    {
        1
    }

    /// This function as a callable value.
    pub fn callable(&self) -> (r: Callable)
        ensures
            r@ == builtin_println_view(),
    {
        get_builtin_println()
    }
}

/// A function a program declared: its name, parameters and body, and
/// the environment it was declared in.
pub struct BeaFn {
    pub closure_idx: usize,
    name: String,
    params: Vec<Token>,
    body: Vec<Stmt>,
}

impl BeaFn {
    /// The function `name` with parameters `params` and body `body`,
    /// declared in the environment `closure_idx`.
    pub fn new(name: String, params: Vec<Token>, body: Vec<Stmt>, closure_idx: usize) -> (r: Self)
        ensures
            r.callable_view() == declared_fn(name@, token_seq_view(params@), stmts_view(body@), closure_idx),
    {
        BeaFn { name, params, body, closure_idx }
    }

    /// The callable value this function is.
    pub closed spec fn callable_view(&self) -> CallableView {
        declared_fn(self.name@, token_seq_view(self.params@), stmts_view(self.body@), self.closure_idx)
    }

    /// The name the function was declared with.
    pub fn name(&self) -> (r: String)
        ensures
            r@ == self.callable_view().name,
    {
        self.name.clone()
    }

    /// How many arguments a call must pass: one per parameter.
    pub fn arity(&self) -> (r: usize)
        ensures
            r == self.callable_view().params.len(),
    {
        self.params.len()
    }

    /// This function as a callable value (its parameters accept any value).
    pub fn callable(&self) -> (r: Callable)
        ensures
            r@ == self.callable_view(),
            r@.body is Statements,
    {
        let mut params: Vec<CallableParam> = Vec::new();
        let mut i: usize = 0;
        while i < self.params.len()
            invariant
                i <= self.params.len(),
                params.len() == i,
                forall|j: int| 0 <= j < i ==> #[trigger] params@[j]@ == (CallableParamView {
                    name: self.params@[j].lexeme@,
                    value_type: LiteralValueType::Any,
                }),
            decreases self.params.len() - i,
        {
            params.push(CallableParam::new(self.params[i].lexeme.clone(), LiteralValueType::Any));
            i = i + 1;
        }
        let r = create_bea_fn(self.name.clone(), params, duplicate_stmts(&self.body), Some(self.closure_idx));
        assert(r@.params =~= self.callable_view().params);
        r
    }
}

} // verus!
