//! One environment: the variables of one scope.
use vstd::prelude::*;

use crate::interpreter::RuntimeErr;
use crate::literals::{display, LiteralValue, LiteralValueView};
use crate::text::{push_str, string_of};

verus! {

/// The index of an environment in an [`EnvironmentStack`](super::EnvironmentStack).
pub type EnvironmentIdx = usize;

/// A variable and its value.
#[derive(Debug)]
pub struct Binding {
    pub name: String,
    pub value: LiteralValue,
}

/// The variables named in `bs`, each with the value of its last binding.
pub open spec fn bindings_map(bs: Seq<Binding>) -> Map<Seq<char>, LiteralValueView>
    decreases bs.len(),
{
    if bs.len() == 0 {
        Map::empty()
    } else {
        bindings_map(bs.drop_last()).insert(bs.last().name@, bs.last().value@)
    }
}

/// No two bindings have the same name.
pub open spec fn distinct_names(bs: Seq<Binding>) -> bool {
    forall|i: int, j: int| 0 <= i < bs.len() && 0 <= j < bs.len() && i != j ==> bs[i].name@ != bs[j].name@
}

pub proof fn lemma_bindings_map(bs: Seq<Binding>)
    requires
        distinct_names(bs),
    ensures
        forall|k: Seq<char>| #[trigger] bindings_map(bs).dom().contains(k) <==> exists|i: int| 0 <= i < bs.len() && bs[i].name@ == k,
        forall|i: int| 0 <= i < bs.len() ==> #[trigger] bindings_map(bs)[bs[i].name@] == bs[i].value@,
    decreases bs.len(),
{
    if bs.len() > 0 {
        let init = bs.drop_last();
        assert(bindings_map(bs) == bindings_map(init).insert(bs.last().name@, bs.last().value@));
        assert(distinct_names(init));
        lemma_bindings_map(init);
        assert forall|k: Seq<char>| #[trigger] bindings_map(bs).dom().contains(k) <==> exists|i: int| 0 <= i < bs.len() && bs[i].name@ == k by {
            if bindings_map(bs).dom().contains(k) {
                if k == bs.last().name@ {
                    assert(bs[bs.len() - 1].name@ == k);
                } else {
                    assert(bindings_map(init).dom().contains(k));
                    let i = choose|i: int| 0 <= i < init.len() && init[i].name@ == k;
                    assert(init[i] == bs[i]);
                    assert(bs[i].name@ == k);
                }
            }
            if exists|i: int| 0 <= i < bs.len() && bs[i].name@ == k {
                let i = choose|i: int| 0 <= i < bs.len() && bs[i].name@ == k;
                if i < bs.len() - 1 {
                    assert(init[i].name@ == k);
                }
            }
        }
        assert forall|i: int| 0 <= i < bs.len() implies #[trigger] bindings_map(bs)[bs[i].name@] == bs[i].value@ by {
            if i < bs.len() - 1 {
                assert(init[i] == bs[i]);
                assert(bs[i].name@ != bs.last().name@);
            }
        }
    }
}

/// Bindings with the same names and values, one for one, make the same map.
pub proof fn lemma_bindings_map_same(a: Seq<Binding>, b: Seq<Binding>)
    requires
        a.len() == b.len(),
        forall|j: int| 0 <= j < a.len() ==> #[trigger] a[j].name@ == b[j].name@ && a[j].value@ == b[j].value@,
    ensures
        bindings_map(a) == bindings_map(b),
        distinct_names(a) == distinct_names(b),
    decreases a.len(),
{
    if a.len() > 0 {
        let (ia, ib) = (a.drop_last(), b.drop_last());
        assert forall|j: int| 0 <= j < ia.len() implies #[trigger] ia[j].name@ == ib[j].name@ && ia[j].value@ == ib[j].value@ by {
            assert(a[j].name@ == b[j].name@ && a[j].value@ == b[j].value@);
        }
        lemma_bindings_map_same(ia, ib);
        assert(a[a.len() - 1].name@ == b[b.len() - 1].name@);
    }
    assert(distinct_names(a) == distinct_names(b)) by {
        if distinct_names(a) {
            assert forall|i: int, j: int| 0 <= i < b.len() && 0 <= j < b.len() && i != j implies b[i].name@ != b[j].name@ by {
                assert(a[i].name@ == b[i].name@ && a[j].name@ == b[j].name@);
            }
        }
        if distinct_names(b) {
            assert forall|i: int, j: int| 0 <= i < a.len() && 0 <= j < a.len() && i != j implies a[i].name@ != a[j].name@ by {
                assert(a[i].name@ == b[i].name@ && a[j].name@ == b[j].name@);
            }
        }
    }
}

pub proof fn lemma_bindings_map_update(bs: Seq<Binding>, i: int, b: Binding)
    requires
        distinct_names(bs),
        0 <= i < bs.len(),
        b.name@ == bs[i].name@,
    ensures
        distinct_names(bs.update(i, b)),
        bindings_map(bs.update(i, b)) == bindings_map(bs).insert(b.name@, b.value@),
{
    let bs2 = bs.update(i, b);
    assert(distinct_names(bs2)) by {
        assert forall|x: int, y: int| 0 <= x < bs2.len() && 0 <= y < bs2.len() && x != y implies bs2[x].name@ != bs2[y].name@ by {
            assert(bs2[x].name@ == bs[x].name@);
            assert(bs2[y].name@ == bs[y].name@);
        }
    }
    lemma_bindings_map(bs);
    lemma_bindings_map(bs2);
    let m1 = bindings_map(bs2);
    let m2 = bindings_map(bs).insert(b.name@, b.value@);
    assert forall|k: Seq<char>| m1.dom().contains(k) <==> m2.dom().contains(k) by {
        if m1.dom().contains(k) {
            let j = choose|j: int| 0 <= j < bs2.len() && bs2[j].name@ == k;
            assert(bs[j].name@ == k);
            assert(bindings_map(bs).dom().contains(k));
        }
        if m2.dom().contains(k) && k != b.name@ {
            let j = choose|j: int| 0 <= j < bs.len() && bs[j].name@ == k;
            assert(bs2[j].name@ == k);
            assert(m1.dom().contains(k));
        }
        if k == b.name@ {
            assert(bs2[i].name@ == k);
        }
    }
    assert forall|k: Seq<char>| m1.dom().contains(k) implies m1[k] == m2[k] by {
        let j = choose|j: int| 0 <= j < bs2.len() && bs2[j].name@ == k;
        assert(m1[bs2[j].name@] == bs2[j].value@);
        if j == i {
        } else {
            assert(bs2[j] == bs[j]);
            assert(bindings_map(bs)[bs[j].name@] == bs[j].value@);
        }
    }
    assert(m1 =~= m2);
}

/// One scope: its own index, the index of the scope around it, and its variables.
#[derive(Debug)]
pub struct Environment {
    pub parent_idx: Option<EnvironmentIdx>,
    pub idx: usize,
    values: Vec<Binding>,
}

/// The mathematical value of an [`Environment`].
pub struct EnvironmentView {
    pub parent_idx: Option<usize>,
    pub idx: usize,
    pub values: Map<Seq<char>, LiteralValueView>,
}

impl View for Environment {
    type V = EnvironmentView;

    closed spec fn view(&self) -> EnvironmentView {
        EnvironmentView {
            parent_idx: self.parent_idx,
            idx: self.idx,
            values: bindings_map(self.values@),
        }
    }
}

/// The message for assigning a variable that is not in a scope.
pub open spec fn assign_message(name: Seq<char>, value: LiteralValueView) -> Seq<char> {
    "Unable to assign variable: "@ + name + " value: "@ + display(value)
}

impl Environment {
    /// The bindings have distinct names.
    pub closed spec fn wf(&self) -> bool {
        distinct_names(self.values@)
    }

    /// A copy of this scope.
    pub fn duplicate(&self) -> (r: Self)
        requires
            self.wf(),
        ensures
            r.wf(),
            r@ == self@,
    {
        let mut values: Vec<Binding> = Vec::new();
        let mut i: usize = 0;
        while i < self.values.len()
            invariant
                i <= self.values.len(),
                values.len() == i,
                forall|j: int| 0 <= j < i ==> #[trigger] values@[j].name@ == self.values@[j].name@
                    && values@[j].value@ == self.values@[j].value@,
            decreases self.values.len() - i,
        {
            let b = Binding { name: self.values[i].name.clone(), value: self.values[i].value.duplicate() };
            values.push(b);
            i = i + 1;
        }
        proof {
            lemma_bindings_map_same(values@, self.values@);
        }
        Environment { parent_idx: self.parent_idx, idx: self.idx, values }
    }

    /// An empty scope with the given index and enclosing scope.
    pub fn new(idx: usize, parent_idx: Option<usize>) -> (r: Self)
        ensures
            r.wf(),
            r@ == (EnvironmentView { parent_idx, idx, values: Map::empty() }),
    {
        let r = Self { idx, parent_idx, values: Vec::new() };
        assert(bindings_map(r.values@) =~= Map::empty());
        r
    }

    fn position(&self, name: &str) -> (r: Option<usize>)
        requires
            self.wf(),
        ensures
            match r {
                Some(i) => i < self.values.len() && self.values@[i as int].name@ == name@,
                None => !self@.values.dom().contains(name@),
            },
    {
        proof {
            lemma_bindings_map(self.values@);
        }
        let target = string_of(name);
        let mut i: usize = 0;
        while i < self.values.len()
            invariant
                i <= self.values.len(),
                target@ == name@,
                forall|j: int| 0 <= j < i ==> self.values@[j].name@ != name@,
            decreases self.values.len() - i,
        {
            if self.values[i].name == target {
                return Some(i);
            }
            i = i + 1;
        }
        None
    }

    /// The index of this environment.
    pub fn get_idx(&self) -> (r: usize)
        ensures
            r == self@.idx,
    {
        self.idx
    }

    /// The index of the enclosing environment, if any.
    pub fn get_parent_idx(&self) -> (r: &Option<usize>)
        ensures
            *r == self@.parent_idx,
    {
        &self.parent_idx
    }

    /// Binds `name` to `value` in this scope, replacing an earlier binding.
    pub fn define(&mut self, name: &str, value: LiteralValue)
        requires
            old(self).wf(),
        ensures
            final(self).wf(),
            final(self)@ == (EnvironmentView {
                values: old(self)@.values.insert(name@, value@),
                ..old(self)@
            }),
    {
        proof {
            lemma_bindings_map(self.values@);
        }
        let ghost v = value@;
        match self.position(name) {
            Some(i) => {
                let ghost old_values = self.values@;
                let b = Binding { name: string_of(name), value };
                proof {
                    lemma_bindings_map_update(old_values, i as int, b);
                }
                self.values.set(i, b);
                assert(self.values@ == old_values.update(i as int, b));
            },
            None => {
                let ghost old_values = self.values@;
                let b = Binding { name: string_of(name), value };
                self.values.push(b);
                proof {
                    assert(self.values@.drop_last() =~= old_values);
                    assert(distinct_names(self.values@));
                }
            },
        }
    }

    /// Whether `name` is bound in this scope.
    pub fn can_assign(&self, name: &str) -> (r: bool)
        requires
            self.wf(),
        ensures
            r == self@.values.dom().contains(name@),
    {
        proof {
            lemma_bindings_map(self.values@);
        }
        self.position(name).is_some()
    }

    /// Replaces the value of `name`, which must be bound in this scope,
    /// and gives back (a copy of) the value stored.
    pub fn assign(&mut self, name: &str, value: LiteralValue) -> (r: Result<LiteralValue, RuntimeErr>)
        requires
            old(self).wf(),
        ensures
            final(self).wf(),
            old(self)@.values.dom().contains(name@) ==> {
                &&& final(self)@ == (EnvironmentView {
                    values: old(self)@.values.insert(name@, value@),
                    ..old(self)@
                })
                &&& r matches Ok(v) && v@ == value@
            },
            !old(self)@.values.dom().contains(name@) ==> {
                &&& final(self)@ == old(self)@
                &&& r matches Err(e) && e.message@ == assign_message(name@, value@)
            },
    {
        if !self.can_assign(name) {
            let mut message = string_of("Unable to assign variable: ");
            push_str(&mut message, name);
            push_str(&mut message, " value: ");
            let shown = value.cast_string();
            push_str(&mut message, shown.as_str());
            return Err(RuntimeErr::new(message));
        }
        let stored = value.duplicate();
        self.define(name, value);
        Ok(stored)
    }

    /// The value bound to `name` in this scope, if any.
    pub fn get(&self, name: &str) -> (r: Option<&LiteralValue>)
        requires
            self.wf(),
        ensures
            match r {
                Some(v) => self@.values.dom().contains(name@) && v@ == self@.values[name@],
                None => !self@.values.dom().contains(name@),
            },
    {
        proof {
            lemma_bindings_map(self.values@);
        }
        match self.position(name) {
            Some(i) => Some(&self.values[i].value),
            None => None,
        }
    }
}

} // verus!
