//! The resolver: tracks the scopes of a program's blocks and the
//! variables declared in them, to find variables read in their own
//! initializer.
use vstd::prelude::*;

use crate::expressions::{Expr, ExprView};
use crate::statements::{Stmt, StmtView};
use crate::text::string_of;
use crate::tokens::Token;

verus! {

/// An error the resolver finds in a program.
#[derive(Debug)]
pub struct ResolverErr {
    pub message: String,
}

impl ResolverErr {
    /// An error carrying `message`.
    pub fn new(message: String) -> (r: Self)
        ensures
            r.message@ == message@,
    {
        Self { message }
    }
}

/// A name declared in a scope, and whether its declaration is complete
/// (its initializer has been resolved).
#[derive(Debug)]
pub struct ScopeEntry {
    pub name: String,
    pub defined: bool,
}

/// The names declared in one scope, each once.
#[derive(Debug)]
pub struct Scope {
    entries: Vec<ScopeEntry>,
}

/// The names of `es` with whether each is defined (the last entry of a
/// name wins).
pub open spec fn entries_map(es: Seq<ScopeEntry>) -> Map<Seq<char>, bool>
    decreases es.len(),
{
    if es.len() == 0 {
        Map::empty()
    } else {
        entries_map(es.drop_last()).insert(es.last().name@, es.last().defined)
    }
}

/// No name occurs twice in `es`.
pub open spec fn distinct_entries(es: Seq<ScopeEntry>) -> bool {
    forall|i: int, j: int| 0 <= i < es.len() && 0 <= j < es.len() && i != j ==> es[i].name@ != es[j].name@
}

proof fn lemma_entries_map(es: Seq<ScopeEntry>)
    requires
        distinct_entries(es),
    ensures
        forall|k: Seq<char>| #[trigger] entries_map(es).dom().contains(k) <==> exists|i: int| 0 <= i < es.len() && es[i].name@ == k,
        forall|i: int| 0 <= i < es.len() ==> #[trigger] entries_map(es)[es[i].name@] == es[i].defined,
    decreases es.len(),
{
    if es.len() > 0 {
        let init = es.drop_last();
        assert(entries_map(es) == entries_map(init).insert(es.last().name@, es.last().defined));
        assert(distinct_entries(init));
        lemma_entries_map(init);
        assert forall|k: Seq<char>| #[trigger] entries_map(es).dom().contains(k) <==> exists|i: int| 0 <= i < es.len() && es[i].name@ == k by {
            if entries_map(es).dom().contains(k) {
                if k == es.last().name@ {
                    assert(es[es.len() - 1].name@ == k);
                } else {
                    assert(entries_map(init).dom().contains(k));
                    let i = choose|i: int| 0 <= i < init.len() && init[i].name@ == k;
                    assert(init[i] == es[i]);
                    assert(es[i].name@ == k);
                }
            }
            if exists|i: int| 0 <= i < es.len() && es[i].name@ == k {
                let i = choose|i: int| 0 <= i < es.len() && es[i].name@ == k;
                if i < es.len() - 1 {
                    assert(init[i].name@ == k);
                }
            }
        }
        assert forall|i: int| 0 <= i < es.len() implies #[trigger] entries_map(es)[es[i].name@] == es[i].defined by {
            if i < es.len() - 1 {
                assert(init[i] == es[i]);
                assert(es[i].name@ != es.last().name@);
            }
        }
    }
}

proof fn lemma_entries_map_update(es: Seq<ScopeEntry>, i: int, e: ScopeEntry)
    requires
        distinct_entries(es),
        0 <= i < es.len(),
        e.name@ == es[i].name@,
    ensures
        distinct_entries(es.update(i, e)),
        entries_map(es.update(i, e)) == entries_map(es).insert(e.name@, e.defined),
{
    let es2 = es.update(i, e);
    assert(distinct_entries(es2)) by {
        assert forall|x: int, y: int| 0 <= x < es2.len() && 0 <= y < es2.len() && x != y implies es2[x].name@ != es2[y].name@ by {
            assert(es2[x].name@ == es[x].name@);
            assert(es2[y].name@ == es[y].name@);
        }
    }
    lemma_entries_map(es);
    lemma_entries_map(es2);
    let m1 = entries_map(es2);
    let m2 = entries_map(es).insert(e.name@, e.defined);
    assert forall|k: Seq<char>| m1.dom().contains(k) <==> m2.dom().contains(k) by {
        if m1.dom().contains(k) {
            let j = choose|j: int| 0 <= j < es2.len() && es2[j].name@ == k;
            assert(es[j].name@ == k);
        }
        if m2.dom().contains(k) && k != e.name@ {
            let j = choose|j: int| 0 <= j < es.len() && es[j].name@ == k;
            assert(es2[j].name@ == k);
        }
        if k == e.name@ {
            assert(es2[i].name@ == k);
        }
    }
    assert forall|k: Seq<char>| m1.dom().contains(k) implies m1[k] == m2[k] by {
        let j = choose|j: int| 0 <= j < es2.len() && es2[j].name@ == k;
        if j != i {
            assert(es2[j] == es[j]);
        }
    }
    assert(m1 =~= m2);
}

impl View for Scope {
    type V = Map<Seq<char>, bool>;

    closed spec fn view(&self) -> Map<Seq<char>, bool> {
        entries_map(self.entries@)
    }
}

impl Scope {
    /// Each name occurs once.
    pub closed spec fn wf(&self) -> bool {
        distinct_entries(self.entries@)
    }

    /// A scope with no names.
    pub fn new() -> (r: Self)
        ensures
            r.wf(),
            r@ == Map::<Seq<char>, bool>::empty(),
    {
        let r = Scope { entries: Vec::new() };
        assert(entries_map(r.entries@) =~= Map::<Seq<char>, bool>::empty());
        r
    }

    fn position(&self, name: &str) -> (r: Option<usize>)
        requires
            self.wf(),
        ensures
            match r {
                Some(i) => i < self.entries.len() && self.entries@[i as int].name@ == name@,
                None => !self@.dom().contains(name@),
            },
    {
        proof {
            lemma_entries_map(self.entries@);
        }
        let target = string_of(name);
        let mut i: usize = 0;
        while i < self.entries.len()
            invariant
                i <= self.entries.len(),
                target@ == name@,
                forall|j: int| 0 <= j < i ==> self.entries@[j].name@ != name@,
            decreases self.entries.len() - i,
        {
            if self.entries[i].name == target {
                return Some(i);
            }
            i = i + 1;
        }
        None
    }

    /// Whether `name` is declared here, and if so whether it is defined.
    pub fn get(&self, name: &str) -> (r: Option<bool>)
        requires
            self.wf(),
        ensures
            r == (if self@.dom().contains(name@) { Some(self@[name@]) } else { None::<bool> }),
    {
        proof {
            lemma_entries_map(self.entries@);
        }
        match self.position(name) {
            Some(i) => Some(self.entries[i].defined),
            None => None,
        }
    }

    /// Declares `name` (again), defined or not.
    pub fn insert(&mut self, name: &str, defined: bool)
        requires
            old(self).wf(),
        ensures
            final(self).wf(),
            final(self)@ == old(self)@.insert(name@, defined),
    {
        proof {
            lemma_entries_map(self.entries@);
        }
        match self.position(name) {
            Some(i) => {
                let entry = ScopeEntry { name: string_of(name), defined };
                proof {
                    lemma_entries_map_update(self.entries@, i as int, entry);
                }
                self.entries.set(i, entry);
            },
            None => {
                let entry = ScopeEntry { name: string_of(name), defined };
                let ghost es = self.entries@;
                self.entries.push(entry);
                proof {
                    assert(self.entries@.drop_last() =~= es);
                    assert forall|x: int, y: int|
                        0 <= x < self.entries.len() && 0 <= y < self.entries.len() && x != y implies self.entries@[x].name@
                        != self.entries@[y].name@ by {
                        if x < es.len() && y < es.len() {
                            assert(self.entries@[x] == es[x] && self.entries@[y] == es[y]);
                        } else if x < es.len() {
                            assert(self.entries@[x] == es[x]);
                            assert(entries_map(es).dom().contains(es[x].name@));
                        } else {
                            assert(self.entries@[y] == es[y]);
                            assert(entries_map(es).dom().contains(es[y].name@));
                        }
                    }
                }
            },
        }
    }
}

/// The resolver: the scopes of the blocks it is in, innermost last.
pub struct Resolver {
    scopes: Vec<Scope>,
}

impl View for Resolver {
    type V = Seq<Map<Seq<char>, bool>>;

    closed spec fn view(&self) -> Seq<Map<Seq<char>, bool>> {
        self.scopes@.map_values(|s: Scope| s@)
    }
}

/// The message for a variable read in its own initializer.
pub open spec fn own_initializer_message() -> Seq<char> {
    "Can't read local variable in its own initializer."@
}

/// The innermost scope of `scopes` declares `name` and its declaration
/// is not complete.
pub open spec fn declared_not_defined(scopes: Seq<Map<Seq<char>, bool>>, name: Seq<char>) -> bool {
    scopes.len() > 0 && scopes.last().dom().contains(name) && !scopes.last()[name]
}

/// `scopes` after declaring and then defining `name`: in the innermost
/// scope, if there is one, `name` is declared and defined.
pub open spec fn declare_define(scopes: Seq<Map<Seq<char>, bool>>, name: Seq<char>) -> Seq<Map<Seq<char>, bool>> {
    if scopes.len() > 0 {
        scopes.update(scopes.len() - 1, scopes.last().insert(name, true))
    } else {
        scopes
    }
}

/// The resolver can resolve `e` with scopes `scopes`: a variable is
/// resolved only where it is read in its own initializer.
pub open spec fn resolvable_expression(scopes: Seq<Map<Seq<char>, bool>>, e: ExprView) -> bool {
    e matches ExprView::Variable(n) ==> declared_not_defined(scopes, n.lexeme)
}

/// The resolver can resolve `s` with scopes `scopes`.
pub open spec fn resolvable_statement(scopes: Seq<Map<Seq<char>, bool>>, s: StmtView) -> bool {
    s matches StmtView::Var(name, Some(init)) ==> resolvable_expression(
        if scopes.len() > 0 { scopes.update(scopes.len() - 1, scopes.last().insert(name.lexeme, false)) } else { scopes },
        init,
    )
}

/// What resolving `s` does to `scopes`: a variable declaration declares
/// and defines its name in the innermost scope.
pub open spec fn resolve_statement_scopes(scopes: Seq<Map<Seq<char>, bool>>, s: StmtView) -> Seq<Map<Seq<char>, bool>> {
    match s {
        StmtView::Var(name, _) => declare_define(scopes, name.lexeme),
        _ => scopes,
    }
}

/// Every statement of a block can be resolved in a new scope: the only
/// variable an initializer may consist of is the one it declares.
pub open spec fn resolvable_block(s: StmtView) -> bool {
    s matches StmtView::Block(ss) ==> forall|i: int|
        0 <= i < ss.len() ==> (#[trigger] ss[i] matches StmtView::Var(name, Some(init)) ==> (init matches ExprView::Variable(
            n,
        ) ==> n.lexeme == name.lexeme))
}

impl Resolver {
    /// Every scope is well formed.
    pub closed spec fn wf(&self) -> bool {
        forall|i: int| 0 <= i < self.scopes.len() ==> #[trigger] self.scopes@[i].wf()
    }

    /// A resolver outside any block.
    pub fn new() -> (r: Self)
        ensures
            r.wf(),
            r@ == Seq::<Map<Seq<char>, bool>>::empty(),
    {
        let r = Resolver { scopes: Vec::new() };
        assert(r@ =~= Seq::<Map<Seq<char>, bool>>::empty());
        r
    }

    /// Resolves `statement` if it is a block: its statements, in a new scope.
    pub fn resolve_block_statement(&mut self, statement: &Stmt)
        requires
            old(self).wf(),
            resolvable_block(statement@),
        ensures
            final(self).wf(),
            final(self)@ == old(self)@,
    {
        let statements = match statement {
            Stmt::Block(statements) => statements,
            _ => return,
        };
        proof {
            crate::statements::lemma_stmts_view(statements@);
        }
        self.begin_scope();
        let mut i: usize = 0;
        while i < statements.len()
            invariant
                self.wf(),
                self@.len() == old(self)@.len() + 1,
                self@.take(old(self)@.len() as int) == old(self)@,
                forall|k: Seq<char>| #[trigger] self@.last().dom().contains(k) ==> self@.last()[k],
                statement@ == StmtView::Block(crate::statements::stmts_view(statements@)),
                crate::statements::stmts_view(statements@).len() == statements.len(),
                resolvable_block(statement@),
                forall|j: int| 0 <= j < statements.len() ==> #[trigger] crate::statements::stmts_view(statements@)[j]
                    == statements@[j]@,
                i <= statements.len(),
            decreases statements.len() - i,
        {
            proof {
                let ss = crate::statements::stmts_view(statements@);
                assert(ss[i as int] == statements@[i as int]@);
                if let StmtView::Var(name, Some(init)) = ss[i as int] {
                    let n = self@.len() - 1;
                    let scopes = self@.update(n, self@.last().insert(name.lexeme, false));
                    assert(scopes.last() == self@.last().insert(name.lexeme, false));
                }
            }
            self.resolve_statement(&statements[i]);
            assert(self@.take(old(self)@.len() as int) =~= old(self)@);
            i = i + 1;
        }
        self.end_scope();
        assert(self@ =~= old(self)@);
    }

    /// Resolves `statement`: a variable declaration declares its name,
    /// resolves its initializer, then defines the name.
    pub fn resolve_statement(&mut self, statement: &Stmt)
        requires
            old(self).wf(),
            resolvable_statement(old(self)@, statement@),
        ensures
            final(self).wf(),
            final(self)@ == resolve_statement_scopes(old(self)@, statement@),
    {
        match statement {
            Stmt::Var(name, initializer) => {
                self.declare(name);
                if let Some(initializer) = initializer {
                    let _ = self.resolve_expression(initializer);
                }
                self.define(name);
                proof {
                    if old(self)@.len() > 0 {
                        let last = old(self)@.last();
                        assert(last.insert(name.lexeme@, false).insert(name.lexeme@, true) =~= last.insert(name.lexeme@, true));
                        assert(self@ =~= declare_define(old(self)@, name.lexeme@));
                    }
                }
            },
            _ => (),
        }
    }

    /// Resolves `expression`: a variable read in its own initializer is an
    /// error; any other expression needs nothing.
    pub fn resolve_expression(&mut self, expression: &Expr) -> (r: Result<(), ResolverErr>)
        requires
            old(self).wf(),
            resolvable_expression(old(self)@, expression@),
        ensures
            final(self).wf(),
            final(self)@ == old(self)@,
            match expression@ {
                ExprView::Variable(_) => r matches Err(e) && e.message@ == own_initializer_message(),
                _ => r is Ok,
            },
    {
        match expression {
            Expr::Variable(name) => {
                let n = self.scopes.len();
                let value = self.scopes[n - 1].get(name.lexeme.as_str());
                match value {
                    Some(false) => Err(ResolverErr::new(string_of("Can't read local variable in its own initializer."))),
                    _ => {
                        assert(false);
                        Err(ResolverErr::new(string_of("Can't read local variable in its own initializer.")))
                    },
                }
            },
            _ => Ok(()),
        }
    }

    /// Enters a new, empty scope.
    pub fn begin_scope(&mut self)
        requires
            old(self).wf(),
        ensures
            final(self).wf(),
            final(self)@ == old(self)@.push(Map::<Seq<char>, bool>::empty()),
    {
        self.scopes.push(Scope::new());
        assert(self@ =~= old(self)@.push(Map::<Seq<char>, bool>::empty()));
    }

    /// Leaves the innermost scope, if there is one.
    pub fn end_scope(&mut self)
        requires
            old(self).wf(),
        ensures
            final(self).wf(),
            final(self)@ == if old(self)@.len() > 0 { old(self)@.drop_last() } else { old(self)@ },
    {
        let _ = self.scopes.pop();
        proof {
            if old(self)@.len() > 0 {
                assert(self@ =~= old(self)@.drop_last());
            } else {
                assert(self@ =~= old(self)@);
            }
        }
    }

    /// Declares `name`, not yet defined, in the innermost scope (if any).
    fn declare(&mut self, name: &Token)
        requires
            old(self).wf(),
        ensures
            final(self).wf(),
            final(self)@ == if old(self)@.len() > 0 {
                old(self)@.update(old(self)@.len() - 1, old(self)@.last().insert(name.lexeme@, false))
            } else {
                old(self)@
            },
    {
        let n = self.scopes.len();
        if n > 0 {
            let mut scope = self.scopes.pop().unwrap();
            scope.insert(name.lexeme.as_str(), false);
            self.scopes.push(scope);
            assert(self@ =~= old(self)@.update(old(self)@.len() - 1, old(self)@.last().insert(name.lexeme@, false)));
        }
    }

    /// Defines `name` in the innermost scope (if any), where it is declared.
    fn define(&mut self, name: &Token)
        requires
            old(self).wf(),
            old(self)@.len() > 0 ==> old(self)@.last().dom().contains(name.lexeme@),
        ensures
            final(self).wf(),
            final(self)@ == if old(self)@.len() > 0 {
                old(self)@.update(old(self)@.len() - 1, old(self)@.last().insert(name.lexeme@, true))
            } else {
                old(self)@
            },
    {
        let n = self.scopes.len();
        if n > 0 {
            let mut scope = self.scopes.pop().unwrap();
            scope.insert(name.lexeme.as_str(), true);
            self.scopes.push(scope);
            assert(self@ =~= old(self)@.update(old(self)@.len() - 1, old(self)@.last().insert(name.lexeme@, true)));
        }
    }
}

} // verus!
