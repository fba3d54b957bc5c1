//! The tree of environments of a running program, and the head
//! environment that statements currently run in.
use vstd::prelude::*;

use super::environment::{Environment, EnvironmentIdx, EnvironmentView};
use crate::interpreter::RuntimeErr;
use crate::literals::{LiteralValue, LiteralValueView};
use crate::text::{decimal, push_decimal, push_str, string_of};
use crate::tokens::Token;

verus! {

/// The environments (`None` where one was removed) and the head index.
pub struct StackView {
    pub envs: Seq<Option<EnvironmentView>>,
    pub head: usize,
}

/// The message for an index with no environment.
pub open spec fn no_env_message(idx: int) -> Seq<char> {
    "No environment found at idx "@ + decimal(idx as nat)
}

/// The message for a missing parent environment.
pub open spec fn no_parent_message(idx: int) -> Seq<char> {
    "unable to add new environment: parent at idx '"@ + decimal(idx as nat) + "' not found"@
}

/// The message for a variable that no environment binds.
pub open spec fn undefined_message(name: Seq<char>) -> Seq<char> {
    "Undefined variable: "@ + name
}

/// The environment at `idx`, if there is one.
pub open spec fn env_at(envs: Seq<Option<EnvironmentView>>, idx: int) -> Option<EnvironmentView> {
    if 0 <= idx < envs.len() { envs[idx] } else { None }
}

/// A new, empty environment at the end, enclosed by the head, becomes the head.
pub open spec fn spec_push(v: StackView) -> StackView {
    StackView {
        envs: v.envs.push(
            Some(EnvironmentView { parent_idx: Some(v.head), idx: v.envs.len() as usize, values: Map::empty() }),
        ),
        head: v.envs.len() as usize,
    }
}

/// Like [`spec_push`], with the new environment enclosed by `parent`,
/// which must be an index of the stack.
pub open spec fn spec_push_child(v: StackView, parent: usize) -> Result<StackView, Seq<char>> {
    if parent >= v.envs.len() {
        Err(no_parent_message(parent as int))
    } else {
        let v1 = spec_push(v);
        Ok(StackView {
            envs: v1.envs.update(
                v1.head as int,
                Some(EnvironmentView { parent_idx: Some(parent), idx: v1.head, values: Map::empty() }),
            ),
            ..v1
        })
    }
}

/// A new, empty environment at the end, enclosed by `parent`; the head stays.
pub open spec fn spec_add_detached_child(v: StackView, parent: usize) -> Result<(StackView, usize), Seq<char>> {
    if parent >= v.envs.len() {
        Err(no_parent_message(parent as int))
    } else {
        Ok((
            StackView {
                envs: v.envs.push(
                    Some(EnvironmentView { parent_idx: Some(parent), idx: v.envs.len() as usize, values: Map::empty() }),
                ),
                ..v
            },
            v.envs.len() as usize,
        ))
    }
}

/// The indices of the environments enclosed directly by `parent`, among
/// the first `n`, in increasing order.
pub open spec fn children_upto(envs: Seq<Option<EnvironmentView>>, parent: usize, n: int) -> Seq<usize>
    decreases n,
{
    if n <= 0 {
        Seq::empty()
    } else {
        let rest = children_upto(envs, parent, n - 1);
        match env_at(envs, n - 1) {
            Some(e) => if e.parent_idx == Some(parent) { rest.push(e.idx) } else { rest },
            None => rest,
        }
    }
}

/// The indices of the environments enclosed directly by `parent`.
pub open spec fn children_of(envs: Seq<Option<EnvironmentView>>, parent: usize) -> Seq<usize> {
    children_upto(envs, parent, envs.len() as int)
}

/// The environment at `j` is directly enclosed by `parent` and has index `c`.
pub open spec fn is_child_at(envs: Seq<Option<EnvironmentView>>, j: int, parent: usize, c: usize) -> bool {
    match env_at(envs, j) {
        Some(e) => e.parent_idx == Some(parent) && e.idx == c,
        None => false,
    }
}

/// Some environment below `n` is directly enclosed by `parent` and has index `c`.
pub open spec fn child_witnessed(envs: Seq<Option<EnvironmentView>>, parent: usize, n: int, c: usize) -> bool {
    exists|j: int| 0 <= j < n && #[trigger] is_child_at(envs, j, parent, c)
}

pub proof fn lemma_children_upto(envs: Seq<Option<EnvironmentView>>, parent: usize, n: int)
    requires
        n <= envs.len(),
    ensures
        children_upto(envs, parent, n).len() <= if n < 0 { 0 } else { n },
        forall|k: int| 0 <= k < children_upto(envs, parent, n).len() ==> child_witnessed(envs, parent, n, #[trigger] children_upto(envs, parent, n)[k]),
    decreases n,
{
    if n > 0 {
        lemma_children_upto(envs, parent, n - 1);
        let rest = children_upto(envs, parent, n - 1);
        let cs = children_upto(envs, parent, n);
        let added = match env_at(envs, n - 1) {
            Some(e) => e.parent_idx == Some(parent),
            None => false,
        };
        if added {
            assert(cs == rest.push(env_at(envs, n - 1)->Some_0.idx));
        } else {
            assert(cs == rest);
        }
        assert forall|k: int| 0 <= k < cs.len() implies child_witnessed(envs, parent, n, #[trigger] cs[k]) by {
            if k < rest.len() {
                assert(cs[k] == rest[k]);
                assert(child_witnessed(envs, parent, n - 1, rest[k]));
                let j = choose|j: int| 0 <= j < n - 1 && #[trigger] is_child_at(envs, j, parent, rest[k]);
                assert(is_child_at(envs, j, parent, cs[k]));
            } else {
                assert(is_child_at(envs, n - 1, parent, cs[k]));
            }
        }
    }
}

/// Under [`stack_wf`], the environments directly enclosed by `parent` have
/// larger indices, within the stack.
pub proof fn lemma_children_of_wf(envs: Seq<Option<EnvironmentView>>, head: usize, parent: usize)
    requires
        stack_wf(StackView { envs, head }),
    ensures
        children_of(envs, parent).len() <= envs.len(),
        forall|k: int| 0 <= k < children_of(envs, parent).len() ==> parent < #[trigger] children_of(envs, parent)[k] < envs.len(),
{
    lemma_children_upto(envs, parent, envs.len() as int);
    let cs = children_of(envs, parent);
    assert forall|k: int| 0 <= k < cs.len() implies parent < #[trigger] cs[k] < envs.len() by {
        assert(child_witnessed(envs, parent, envs.len() as int, cs[k]));
        let j = choose|j: int| 0 <= j < envs.len() && #[trigger] is_child_at(envs, j, parent, cs[k]);
        assert(envs[j] matches Some(e) && e.idx == j);
    }
}

/// Under [`stack_wf`], the environment [`spec_first_assignable`] finds
/// exists and binds the name.
pub proof fn lemma_first_assignable(v: StackView, idx: int, name: Seq<char>)
    requires
        stack_wf(v),
    ensures
        spec_first_assignable(v.envs, idx, name) matches Ok(Some(i)) ==> (env_at(v.envs, i as int) matches Some(e)
            && e.values.dom().contains(name)),
    decreases idx,
{
    match env_at(v.envs, idx) {
        None => {},
        Some(e) => {
            if e.values.dom().contains(name) {
                assert(v.envs[idx] matches Some(f) && f.idx == idx);
            } else {
                match e.parent_idx {
                    Some(p) => if 0 <= p < idx { lemma_first_assignable(v, p as int, name); },
                    None => {},
                }
            }
        },
    }
}

/// Removes the environment at `idx` and, one after the other, the
/// environments it directly encloses (each with what it encloses).
/// Gives the environments afterwards and whether it went through.
pub open spec fn spec_remove(envs: Seq<Option<EnvironmentView>>, idx: int) -> (Seq<Option<EnvironmentView>>, Result<(), Seq<char>>)
    decreases envs.len() - idx, envs.len() + 1,
{
    if !(0 <= idx < envs.len()) || envs[idx] is None {
        (envs, Err(no_env_message(idx)))
    } else {
        let e1 = envs.update(idx, None);
        proof {
            lemma_children_upto(e1, idx as usize, e1.len() as int);
        }
        spec_remove_all(e1, children_of(e1, idx as usize), 0, idx)
    }
}

/// Removes, in order, the environments `cs[i..]` (see [`spec_remove`]).
pub open spec fn spec_remove_all(envs: Seq<Option<EnvironmentView>>, cs: Seq<usize>, i: int, parent: int) -> (Seq<Option<EnvironmentView>>, Result<(), Seq<char>>)
    decreases envs.len() - parent, cs.len() - i,
{
    if i >= cs.len() || i < 0 || cs.len() > envs.len() {
        (envs, Ok(()))
    } else if cs[i] <= parent || cs[i] >= envs.len() {
        (envs, Ok(()))
    } else {
        let (e2, r) = spec_remove(envs, cs[i] as int);
        if r is Err || e2.len() != envs.len() {
            (e2, r)
        } else {
            spec_remove_all(e2, cs, i + 1, parent)
        }
    }
}

/// Popping would take off an environment that no environment encloses
/// (the global one) while other slots exist.
pub open spec fn pop_forbidden(v: StackView) -> bool {
    v.envs.len() > 1 && (env_at(v.envs, v.head as int) matches Some(e) && e.parent_idx is None)
}

/// Removes the head environment (with what it encloses) and makes its
/// enclosing environment the head; with a single environment slot, does
/// nothing.
pub open spec fn spec_pop(v: StackView) -> (StackView, Result<(), Seq<char>>) {
    if v.envs.len() > 1 {
        match env_at(v.envs, v.head as int) {
            None => (v, Err(no_env_message(v.head as int))),
            Some(e) => {
                let (envs, r) = spec_remove(v.envs, v.head as int);
                match r {
                    Err(m) => (StackView { envs, ..v }, Err(m)),
                    Ok(()) => (StackView { envs, head: e.parent_idx.unwrap() }, Ok(())),
                }
            },
        }
    } else {
        (v, Ok(()))
    }
}

/// Binds `name` to `value` in the environment at `idx`.
pub open spec fn spec_define(v: StackView, idx: int, name: Seq<char>, value: LiteralValueView) -> (StackView, Result<(), Seq<char>>) {
    match env_at(v.envs, idx) {
        None => (v, Err(no_env_message(idx))),
        Some(e) => (
            StackView {
                envs: v.envs.update(idx, Some(EnvironmentView { values: e.values.insert(name, value), ..e })),
                ..v
            },
            Ok(()),
        ),
    }
}

/// The binding of `name` in the nearest environment, from the one at
/// `idx` outwards, that binds it; the search ends without one where the
/// chain of enclosing environments reaches the global one or an emptied
/// slot.
pub open spec fn spec_find(envs: Seq<Option<EnvironmentView>>, idx: int, name: Seq<char>) -> Option<LiteralValueView>
    decreases idx,
{
    match env_at(envs, idx) {
        None => None,
        Some(e) => if e.values.dom().contains(name) {
            Some(e.values[name])
        } else {
            match e.parent_idx {
                Some(p) => if 0 <= p < idx { spec_find(envs, p as int, name) } else { None },
                None => None,
            }
        },
    }
}

/// The value of `name` seen from the environment at `idx` (see
/// [`spec_find`]); an error only where there is no environment at `idx`.
pub open spec fn spec_lookup(envs: Seq<Option<EnvironmentView>>, idx: int, name: Seq<char>) -> Result<Option<LiteralValueView>, Seq<char>> {
    match env_at(envs, idx) {
        None => Err(no_env_message(idx)),
        Some(_) => Ok(spec_find(envs, idx, name)),
    }
}

/// The nearest environment, from `idx` outwards, that binds `name`.
pub open spec fn spec_first_assignable(envs: Seq<Option<EnvironmentView>>, idx: int, name: Seq<char>) -> Result<Option<usize>, Seq<char>>
    decreases idx,
{
    match env_at(envs, idx) {
        None => Err(no_env_message(idx)),
        Some(e) => if e.values.dom().contains(name) {
            Ok(Some(e.idx))
        } else {
            match e.parent_idx {
                Some(p) => if 0 <= p < idx { spec_first_assignable(envs, p as int, name) } else { Ok(None) },
                None => Ok(None),
            }
        },
    }
}

/// Replaces the value of `name` in the nearest environment, from `idx`
/// outwards, that binds it.
pub open spec fn spec_assign(v: StackView, idx: int, name: Seq<char>, value: LiteralValueView) -> (StackView, Result<LiteralValueView, Seq<char>>) {
    match spec_first_assignable(v.envs, idx, name) {
        Err(m) => (v, Err(m)),
        Ok(None) => (v, Err(undefined_message(name))),
        Ok(Some(i)) => match env_at(v.envs, i as int) {
            None => (v, Err(no_env_message(i as int))),
            Some(e) => (
                StackView {
                    envs: v.envs.update(i as int, Some(EnvironmentView { values: e.values.insert(name, value), ..e })),
                    ..v
                },
                Ok(value),
            ),
        },
    }
}

/// The stack holding only the global environment, as its head.
pub open spec fn initial_stack() -> StackView {
    StackView {
        envs: seq![Some(EnvironmentView { parent_idx: None, idx: 0, values: Map::empty() })],
        head: 0,
    }
}

/// A variable defined in an environment is found there, with the value
/// it was given.
pub proof fn law_define_then_lookup(v: StackView, idx: int, name: Seq<char>, value: LiteralValueView)
    requires
        stack_wf(v),
        env_at(v.envs, idx) is Some,
    ensures
        spec_lookup(spec_define(v, idx, name, value).0.envs, idx, name) == Ok::<Option<LiteralValueView>, Seq<char>>(
            Some(value),
        ),
{
    let envs = spec_define(v, idx, name, value).0.envs;
    assert(env_at(envs, idx) matches Some(e) && e.values.dom().contains(name) && e.values[name] == value);
}

proof fn lemma_lookup_after_assign(v: StackView, idx: int, name: Seq<char>, value: LiteralValueView)
    requires
        stack_wf(v),
        spec_assign(v, idx, name, value).1 is Ok,
    ensures
        spec_lookup(spec_assign(v, idx, name, value).0.envs, idx, name) == Ok::<Option<LiteralValueView>, Seq<char>>(
            Some(value),
        ),
    decreases idx,
{
    let envs2 = spec_assign(v, idx, name, value).0.envs;
    lemma_first_assignable(v, idx, name);
    let e = env_at(v.envs, idx)->Some_0;
    if e.values.dom().contains(name) {
        assert(v.envs[idx] matches Some(f) && f.idx == idx);
        assert(spec_first_assignable(v.envs, idx, name) == Ok::<Option<usize>, Seq<char>>(Some(idx as usize)));
        assert(env_at(envs2, idx) matches Some(f) && f.values.dom().contains(name) && f.values[name] == value);
    } else {
        let p = e.parent_idx->Some_0;
        assert(v.envs[idx] matches Some(f) && f.idx == idx && (f.parent_idx matches Some(q) ==> q < idx));
        assert(spec_first_assignable(v.envs, idx, name) == spec_first_assignable(v.envs, p as int, name));
        assert(spec_assign(v, idx, name, value) == spec_assign(v, p as int, name, value));
        lemma_lookup_after_assign(v, p as int, name, value);
        let i = spec_first_assignable(v.envs, p as int, name)->Ok_0->Some_0;
        lemma_first_assignable(v, p as int, name);
        lemma_first_assignable_below(v, p as int, name);
        assert(i <= p < idx);
        assert(envs2[idx] == v.envs[idx]);
    }
}

proof fn lemma_first_assignable_below(v: StackView, idx: int, name: Seq<char>)
    requires
        stack_wf(v),
    ensures
        spec_first_assignable(v.envs, idx, name) matches Ok(Some(i)) ==> i <= idx,
    decreases idx,
{
    match env_at(v.envs, idx) {
        None => {},
        Some(e) => {
            assert(v.envs[idx] matches Some(f) && f.idx == idx);
            if !e.values.dom().contains(name) {
                match e.parent_idx {
                    Some(p) => if 0 <= p < idx { lemma_first_assignable_below(v, p as int, name); },
                    None => {},
                }
            }
        },
    }
}

/// A variable that an assignment went through for is found, from where
/// it was assigned, with the value assigned.
pub proof fn law_assign_then_lookup(v: StackView, idx: int, name: Seq<char>, value: LiteralValueView)
    requires
        stack_wf(v),
        spec_assign(v, idx, name, value).1 is Ok,
    ensures
        spec_lookup(spec_assign(v, idx, name, value).0.envs, idx, name) == Ok::<Option<LiteralValueView>, Seq<char>>(
            Some(value),
        ),
{
    lemma_lookup_after_assign(v, idx, name, value);
}

proof fn lemma_lookup_prefix(envs: Seq<Option<EnvironmentView>>, x: Option<EnvironmentView>, idx: int, name: Seq<char>)
    requires
        forall|i: int| 0 <= i < envs.len() ==> (#[trigger] envs[i] matches Some(e) ==> (e.parent_idx matches Some(p) ==> p < i)),
        idx < envs.len(),
    ensures
        spec_find(envs.push(x), idx, name) == spec_find(envs, idx, name),
        spec_lookup(envs.push(x), idx, name) == spec_lookup(envs, idx, name),
    decreases idx,
{
    if 0 <= idx {
        assert(envs.push(x)[idx] == envs[idx]);
        match envs[idx] {
            None => {},
            Some(e) => {
                if !e.values.dom().contains(name) {
                    match e.parent_idx {
                        Some(p) => if 0 <= p < idx {
                            lemma_lookup_prefix(envs, x, p as int, name);
                        },
                        None => {},
                    }
                }
            },
        }
    }
}

/// A new environment pushed on top sees what its enclosing environment
/// sees: every lookup from it finds what the old head finds (and gives
/// what a lookup from the old head gives, where that one is there).
pub proof fn law_push_then_lookup(v: StackView, name: Seq<char>)
    requires
        stack_wf(v),
    ensures
        spec_lookup(spec_push(v).envs, spec_push(v).head as int, name) == Ok::<Option<LiteralValueView>, Seq<char>>(
            spec_find(v.envs, v.head as int, name),
        ),
        env_at(v.envs, v.head as int) is Some ==> spec_lookup(spec_push(v).envs, spec_push(v).head as int, name)
            == spec_lookup(v.envs, v.head as int, name),
{
    let w = spec_push(v);
    let e = w.envs[w.head as int];
    assert(e matches Some(f) && !f.values.dom().contains(name) && f.parent_idx == Some(v.head));
    lemma_lookup_prefix(v.envs, e, v.head as int, name);
}

/// Popping an environment just pushed takes the head back to where it
/// was and leaves the environments before it as they were (its own slot
/// is emptied).
pub proof fn law_push_then_pop(v: StackView)
    requires
        stack_wf(v),
        v.envs.len() + 2 < usize::MAX,
    ensures
        spec_pop(spec_push(v)) == (StackView { envs: v.envs.push(None), head: v.head }, Ok::<(), Seq<char>>(())),
{
    let w = spec_push(v);
    let last = v.envs.len() as int;
    let e1 = w.envs.update(last, None);
    assert(e1 =~= v.envs.push(None));
    assert(stack_wf(StackView { envs: e1, head: v.head })) by {
        assert forall|i: int| 0 <= i < e1.len() implies (#[trigger] e1[i] matches Some(e) ==> {
            &&& e.idx == i
            &&& (e.parent_idx matches Some(p) ==> p < i)
        }) by {
            if i < last {
                assert(e1[i] == v.envs[i]);
            }
        }
    }
    lemma_children_of_wf(e1, v.head, last as usize);
    let cs = children_of(e1, last as usize);
    if cs.len() > 0 {
        assert(last < cs[0] < e1.len());
    }
    assert(spec_remove(w.envs, last) == spec_remove_all(e1, cs, 0, last));
}

/// The environments are where their indices say, each enclosed by one of
/// smaller index (the part of [`stack_wf`] about the slots).
pub open spec fn entries_wf(envs: Seq<Option<EnvironmentView>>) -> bool {
    forall|i: int| 0 <= i < envs.len() ==> (#[trigger] envs[i] matches Some(e) ==> {
        &&& e.idx == i
        &&& (e.parent_idx matches Some(p) ==> p < i)
    })
}

/// The environment at `z` is the one at `y` or lies, through enclosing
/// environments, inside it.
pub open spec fn encloses(envs: Seq<Option<EnvironmentView>>, y: int, z: int) -> bool
    decreases z,
{
    if z == y {
        true
    } else if z < y {
        false
    } else {
        match env_at(envs, z) {
            Some(e) => match e.parent_idx {
                Some(p) => if p < z { encloses(envs, y, p as int) } else { false },
                None => false,
            },
            None => false,
        }
    }
}

/// Every slot where `b` differs from `a` is emptied in `b` and lay inside
/// the environment at `y` in `a`.
pub open spec fn removed_within(a: Seq<Option<EnvironmentView>>, b: Seq<Option<EnvironmentView>>, y: int) -> bool {
    forall|z: int| 0 <= z < a.len() && #[trigger] b[z] != a[z] ==> b[z] is None && encloses(a, y, z)
}

proof fn lemma_encloses_trans(envs: Seq<Option<EnvironmentView>>, x: int, y: int, z: int)
    requires
        encloses(envs, x, y),
        encloses(envs, y, z),
    ensures
        encloses(envs, x, z),
    decreases z,
{
    if z != y {
        let e = env_at(envs, z)->Some_0;
        let p = e.parent_idx->Some_0;
        lemma_encloses_trans(envs, x, y, p as int);
    }
}

/// Emptying slots only takes away what encloses what.
proof fn lemma_encloses_emptied(a: Seq<Option<EnvironmentView>>, b: Seq<Option<EnvironmentView>>, y: int, z: int)
    requires
        a.len() == b.len(),
        forall|k: int| 0 <= k < a.len() ==> #[trigger] b[k] == a[k] || b[k] is None,
        encloses(b, y, z),
    ensures
        encloses(a, y, z),
    decreases z,
{
    if z != y {
        let e = env_at(b, z)->Some_0;
        let p = e.parent_idx->Some_0;
        assert(b[z] == a[z]);
        lemma_encloses_emptied(a, b, y, p as int);
    }
}

/// The environments directly enclosed by `parent` come in increasing
/// order, each there and enclosed by `parent`.
proof fn lemma_children_sorted(envs: Seq<Option<EnvironmentView>>, parent: usize, n: int)
    requires
        entries_wf(envs),
        n <= envs.len(),
    ensures
        forall|k: int| 0 <= k < children_upto(envs, parent, n).len() ==> (#[trigger] children_upto(envs, parent, n)[k]) < n
            && (env_at(envs, children_upto(envs, parent, n)[k] as int) matches Some(e) && e.parent_idx == Some(parent)),
        forall|a: int, b: int| 0 <= a < b < children_upto(envs, parent, n).len() ==> #[trigger] children_upto(envs, parent, n)[a]
            < #[trigger] children_upto(envs, parent, n)[b],
    decreases n,
{
    if n > 0 {
        lemma_children_sorted(envs, parent, n - 1);
        let rest = children_upto(envs, parent, n - 1);
        let cs = children_upto(envs, parent, n);
        let added = match env_at(envs, n - 1) {
            Some(e) => e.parent_idx == Some(parent),
            None => false,
        };
        if added {
            assert(cs == rest.push(env_at(envs, n - 1)->Some_0.idx));
            assert(envs[n - 1] matches Some(e) && e.idx == n - 1);
            assert forall|a: int, b: int| 0 <= a < b < cs.len() implies #[trigger] cs[a] < #[trigger] cs[b] by {
                assert(cs[a] == rest[a]);
                if b < rest.len() {
                    assert(cs[b] == rest[b]);
                }
            }
            assert forall|k: int| 0 <= k < cs.len() implies (#[trigger] cs[k]) < n
                && (env_at(envs, cs[k] as int) matches Some(e) && e.parent_idx == Some(parent)) by {
                if k < rest.len() {
                    assert(cs[k] == rest[k]);
                }
            }
        } else {
            assert(cs == rest);
        }
    }
}

/// Under [`entries_wf`], removing an environment that is there goes
/// through, keeps the number of slots, and empties only the environment
/// and what lies inside it.
pub proof fn lemma_remove_ok(envs: Seq<Option<EnvironmentView>>, idx: int)
    requires
        entries_wf(envs),
        0 <= idx < envs.len(),
        envs[idx] is Some,
    ensures
        spec_remove(envs, idx).1 is Ok,
        spec_remove(envs, idx).0.len() == envs.len(),
        removed_within(envs, spec_remove(envs, idx).0, idx),
    decreases envs.len() - idx, envs.len() + 1,
{
    let e1 = envs.update(idx, None);
    lemma_children_upto(e1, idx as usize, e1.len() as int);
    lemma_children_sorted(e1, idx as usize, e1.len() as int);
    let cs = children_of(e1, idx as usize);
    assert(entries_wf(e1)) by {
        assert forall|i: int| 0 <= i < e1.len() implies (#[trigger] e1[i] matches Some(e) ==> {
            &&& e.idx == i
            &&& (e.parent_idx matches Some(p) ==> p < i)
        }) by {
            if i != idx {
                assert(e1[i] == envs[i]);
            }
        }
    }
    assert forall|k: int| 0 <= k < cs.len() implies idx < #[trigger] cs[k] < e1.len()
        && (e1[cs[k] as int] matches Some(e) && e.parent_idx == Some(idx as usize)) by {
        assert(e1[cs[k] as int] matches Some(e) && e.idx == cs[k]);
    }
    lemma_remove_all_ok(e1, cs, 0, idx);
    assert(spec_remove(envs, idx) == spec_remove_all(e1, cs, 0, idx));
    let out = spec_remove_all(e1, cs, 0, idx).0;
    assert forall|z: int| 0 <= z < envs.len() && #[trigger] out[z] != envs[z] implies out[z] is None && encloses(envs, idx, z) by {
        if z != idx {
            assert(e1[z] == envs[z]);
            assert(out[z] != e1[z]);
            assert forall|k: int| 0 <= k < envs.len() implies #[trigger] e1[k] == envs[k] || e1[k] is None by {}
            lemma_encloses_emptied(envs, e1, idx, z);
        } else if out[z] == e1[z] {
        }
    }
}

/// Removing, in order, environments directly enclosed by the emptied slot
/// `parent` goes through and empties only what lies inside `parent`.
proof fn lemma_remove_all_ok(envs: Seq<Option<EnvironmentView>>, cs: Seq<usize>, i: int, parent: int)
    requires
        entries_wf(envs),
        0 <= parent < envs.len(),
        envs[parent] is None,
        0 <= i,
        cs.len() <= envs.len(),
        forall|k: int| i <= k < cs.len() ==> parent < #[trigger] cs[k] < envs.len()
            && (envs[cs[k] as int] matches Some(e) && e.parent_idx == Some(parent as usize)),
        forall|a: int, b: int| i <= a < b < cs.len() ==> #[trigger] cs[a] < #[trigger] cs[b],
    ensures
        spec_remove_all(envs, cs, i, parent).1 is Ok,
        spec_remove_all(envs, cs, i, parent).0.len() == envs.len(),
        removed_within(envs, spec_remove_all(envs, cs, i, parent).0, parent),
    decreases envs.len() - parent, cs.len() - i,
{
    if i < cs.len() {
        let c = cs[i] as int;
        lemma_remove_ok(envs, c);
        let e2 = spec_remove(envs, c).0;
        assert forall|k: int| 0 <= k < envs.len() implies #[trigger] e2[k] == envs[k] || e2[k] is None by {
            if e2[k] != envs[k] {}
        }
        assert(entries_wf(e2)) by {
            assert forall|j: int| 0 <= j < e2.len() implies (#[trigger] e2[j] matches Some(e) ==> {
                &&& e.idx == j
                &&& (e.parent_idx matches Some(p) ==> p < j)
            }) by {
                assert(e2[j] == envs[j] || e2[j] is None);
            }
        }
        if e2[parent] != envs[parent] {
            assert(encloses(envs, c, parent));
        }
        assert forall|k: int| i + 1 <= k < cs.len() implies parent < #[trigger] cs[k] < e2.len()
            && (e2[cs[k] as int] matches Some(e) && e.parent_idx == Some(parent as usize)) by {
            let ck = cs[k] as int;
            assert(cs[i] < cs[k]);
            if e2[ck] != envs[ck] {
                assert(encloses(envs, c, ck));
                assert(envs[ck] matches Some(e) && e.parent_idx == Some(parent as usize));
                assert(encloses(envs, c, parent));
            }
        }
        lemma_remove_all_ok(e2, cs, i + 1, parent);
        let out = spec_remove_all(e2, cs, i + 1, parent).0;
        assert(spec_remove_all(envs, cs, i, parent).0 == out);
        assert(encloses(envs, parent, c)) by {
            assert(encloses(envs, parent, parent));
        }
        assert forall|z: int| 0 <= z < envs.len() && #[trigger] out[z] != envs[z] implies out[z] is None && encloses(envs, parent, z) by {
            if e2[z] != envs[z] {
                assert(encloses(envs, c, z));
                lemma_encloses_trans(envs, parent, c, z);
                if out[z] == e2[z] {
                } else {
                    assert(out[z] is None);
                }
            } else {
                assert(out[z] != e2[z]);
                lemma_encloses_emptied(envs, e2, parent, z);
            }
        }
    }
}

/// Every environment but the global one, at index 0, is enclosed by
/// another of smaller index, so that the enclosing links lead down to the
/// global environment; the head is an index of the stack.
pub open spec fn rooted(v: StackView) -> bool {
    &&& v.head < v.envs.len()
    &&& forall|i: int| 0 <= i < v.envs.len() ==> (#[trigger] v.envs[i] matches Some(e) ==> {
        &&& e.idx == i
        &&& (e.parent_idx matches Some(p) ==> p < i)
        &&& (e.parent_idx is None <==> i == 0)
    })
}

/// Pushing an environment, or one enclosed by a given environment, keeps
/// the stack rooted in the global environment; a refused push changes
/// nothing.  (A new slot's index must fit in `usize`.)
pub proof fn law_push_keeps_rooted(v: StackView, parent: usize)
    requires
        rooted(v),
        v.envs.len() < usize::MAX,
    ensures
        rooted(spec_push(v)),
        match spec_push_child(v, parent) {
            Ok(w) => rooted(w),
            Err(_) => parent >= v.envs.len(),
        },
{
    let w = spec_push(v);
    let n = v.envs.len() as int;
    assert forall|i: int| 0 <= i < w.envs.len() implies (#[trigger] w.envs[i] matches Some(e) ==> {
        &&& e.idx == i
        &&& (e.parent_idx matches Some(p) ==> p < i)
        &&& (e.parent_idx is None <==> i == 0)
    }) by {
        if i < n {
            assert(w.envs[i] == v.envs[i]);
        }
    }
    if let Ok(u) = spec_push_child(v, parent) {
        assert forall|i: int| 0 <= i < u.envs.len() implies (#[trigger] u.envs[i] matches Some(e) ==> {
            &&& e.idx == i
            &&& (e.parent_idx matches Some(p) ==> p < i)
            &&& (e.parent_idx is None <==> i == 0)
        }) by {
            if i < n {
                assert(u.envs[i] == v.envs[i]);
            }
        }
    }
}

/// On every stack the library can hold, a push followed by a pop goes
/// through: `pop` may be called after `push`, it takes the head back to
/// where it was, empties the slot the push added and leaves every earlier
/// slot as it was.
pub proof fn law_push_then_pop_stack(s: &EnvironmentStack)
    requires
        s.wf(),
        s@.envs.len() + 2 < usize::MAX,
    ensures
        !pop_forbidden(spec_push(s@)),
        spec_pop(spec_push(s@)) == (StackView { envs: s@.envs.push(None), head: s@.head }, Ok::<(), Seq<char>>(())),
{
    s.lemma_stack_wf();
    law_push_then_pop(s@);
    assert(spec_push(s@).envs[s@.envs.len() as int] matches Some(e) && e.parent_idx is Some);
}

/// Replacing one slot of the environments replaces that slot of the view.
proof fn lemma_update_view(s: Seq<Option<Environment>>, i: int)
    requires
        0 <= i < s.len(),
    ensures
        forall|x: Option<Environment>| (#[trigger] s.update(i, x)).map_values(|o: Option<Environment>| opt_env_view(o))
            == s.map_values(|o: Option<Environment>| opt_env_view(o)).update(i, opt_env_view(x)),
{
    assert forall|x: Option<Environment>| (#[trigger] s.update(i, x)).map_values(|o: Option<Environment>| opt_env_view(o))
        == s.map_values(|o: Option<Environment>| opt_env_view(o)).update(i, opt_env_view(x)) by {
        assert(s.update(i, x).map_values(|o: Option<Environment>| opt_env_view(o))
            =~= s.map_values(|o: Option<Environment>| opt_env_view(o)).update(i, opt_env_view(x)));
    }
}

/// The environments of a running program.
#[derive(Debug)]
pub struct EnvironmentStack {
    environments: Vec<Option<Environment>>,
    head_idx: usize,
}

/// The view of an optional environment.
pub open spec fn opt_env_view(o: Option<Environment>) -> Option<EnvironmentView> {
    match o {
        Some(e) => Some(e@),
        None => None,
    }
}

impl View for EnvironmentStack {
    type V = StackView;

    closed spec fn view(&self) -> StackView {
        StackView {
            envs: self.environments@.map_values(|o: Option<Environment>| opt_env_view(o)),
            head: self.head_idx,
        }
    }
}

/// The environments are where their indices say, each enclosed by an
/// environment of smaller index, and the head is an index of the stack.
pub open spec fn stack_wf(v: StackView) -> bool {
    &&& v.head < v.envs.len()
    &&& v.envs.len() + 1 < usize::MAX
    &&& forall|i: int| 0 <= i < v.envs.len() ==> (#[trigger] v.envs[i] matches Some(e) ==> {
        &&& e.idx == i
        &&& (e.parent_idx matches Some(p) ==> p < i)
    })
}

impl EnvironmentStack {
    /// The stack is well formed (see [`stack_wf`]) and its environments are.
    pub closed spec fn wf(&self) -> bool {
        &&& stack_wf(self@)
        &&& forall|i: int| 0 <= i < self.environments.len() ==> (#[trigger] self.environments@[i] matches Some(e) ==> e.wf())
    }

    proof fn lemma_view(&self)
        ensures
            self@.envs.len() == self.environments.len(),
            forall|i: int| 0 <= i < self.environments.len() ==> #[trigger] self@.envs[i] == opt_env_view(self.environments@[i]),
    {
    }

    /// A stack holding only the global environment, which is the head.
    pub fn new() -> (r: Self)
        ensures
            r.wf(),
            r@ == initial_stack(),
    {
        let global_env = Some(Environment::new(0, None));
        let mut environments = Vec::new();
        environments.push(global_env);
        let r = Self { environments, head_idx: 0 };
        proof {
            r.lemma_view();
        }
        assert(r@.envs =~= seq![Some(EnvironmentView { parent_idx: None, idx: 0, values: Map::empty() })]);
        r
    }

    /// Under [`EnvironmentStack::wf`], the view satisfies [`stack_wf`], so
    /// the laws over views apply to every stack.
    pub proof fn lemma_stack_wf(&self)
        requires
            self.wf(),
        ensures
            stack_wf(self@),
    {
    }

    /// A copy of the stack.
    pub fn duplicate(&self) -> (r: Self)
        requires
            self.wf(),
        ensures
            r.wf(),
            r@ == self@,
    {
        proof {
            self.lemma_view();
        }
        let mut environments: Vec<Option<Environment>> = Vec::new();
        let mut i: usize = 0;
        while i < self.environments.len()
            invariant
                self.wf(),
                i <= self.environments.len(),
                environments.len() == i,
                forall|j: int| 0 <= j < i ==> #[trigger] opt_env_view(environments@[j]) == opt_env_view(self.environments@[j]),
                forall|j: int| 0 <= j < i ==> (#[trigger] environments@[j] matches Some(e) ==> e.wf()),
            decreases self.environments.len() - i,
        {
            let copy = match &self.environments[i] {
                Some(e) => {
                    assert(self.environments@[i as int] matches Some(f) && f.wf());
                    Some(e.duplicate())
                },
                None => None,
            };
            environments.push(copy);
            i = i + 1;
        }
        let r = Self { environments, head_idx: self.head_idx };
        proof {
            assert(r@.envs =~= self@.envs);
        }
        r
    }


    /// How many environment slots the stack has (removed ones included).
    pub fn len(&self) -> (r: usize)
        ensures
            r == self@.envs.len(),
    {
        proof {
            self.lemma_view();
        }
        self.environments.len()
    }

    /// Whether [`pop`](Self::pop) may be called: it may, unless the head
    /// is the global environment and other slots exist.
    pub fn can_pop(&self) -> (r: bool)
        requires
            self.wf(),
        ensures
            r == !pop_forbidden(self@),
    {
        proof {
            self.lemma_view();
        }
        if self.environments.len() <= 1 {
            return true;
        }
        match &self.environments[self.head_idx] {
            None => true,
            Some(e) => e.get_parent_idx().is_some(),
        }
    }

    /// The index of the head environment.
    pub fn get_head_idx(&self) -> (r: EnvironmentIdx)
        ensures
            r == self@.head,
            self.wf() ==> r < self@.envs.len(),
    {
        self.head_idx
    }

    /// Makes the environment slot at `new_head_idx` the head.
    pub fn set_head_idx(&mut self, new_head_idx: EnvironmentIdx)
        requires
            old(self).wf(),
            new_head_idx < old(self)@.envs.len(),
        ensures
            final(self).wf(),
            final(self)@ == (StackView { head: new_head_idx, ..old(self)@ }),
    {
        self.head_idx = new_head_idx;
    }

    /// Adds an empty environment enclosed by `parent_idx` without making it
    /// the head; gives its index.
    pub fn add_detached_child(&mut self, parent_idx: usize) -> (r: Result<EnvironmentIdx, RuntimeErr>)
        requires
            old(self).wf(),
            old(self)@.envs.len() + 2 < usize::MAX,
        ensures
            final(self).wf(),
            match spec_add_detached_child(old(self)@, parent_idx) {
                Ok((v, i)) => {
                    &&& final(self)@ == v
                    &&& r matches Ok(j) && j == i
                },
                Err(m) => {
                    &&& final(self)@ == old(self)@
                    &&& r matches Err(e) && e.message@ == m
                },
            },
    {
        proof {
            self.lemma_view();
        }
        if parent_idx >= self.environments.len() {
            let mut message = string_of("unable to add new environment: parent at idx '");
            push_decimal(&mut message, parent_idx);
            push_str(&mut message, "' not found");
            return Err(RuntimeErr::new(message));
        }
        let idx = self.environments.len();
        let env = Environment::new(idx, Some(parent_idx));
        self.environments.push(Some(env));
        proof {
            self.lemma_view();
        }
        assert(self@.envs =~= spec_add_detached_child(old(self)@, parent_idx)->Ok_0.0.envs);
        Ok(idx)
    }

    /// Pushes an empty environment enclosed by `parent_idx` and makes it the
    /// head; gives its index.
    pub fn push_child(&mut self, parent_idx: EnvironmentIdx) -> (r: Result<EnvironmentIdx, RuntimeErr>)
        requires
            old(self).wf(),
            old(self)@.envs.len() + 2 < usize::MAX,
        ensures
            final(self).wf(),
            match spec_push_child(old(self)@, parent_idx) {
                Ok(v) => {
                    &&& final(self)@ == v
                    &&& r matches Ok(j) && j == v.head
                },
                Err(m) => {
                    &&& final(self)@ == old(self)@
                    &&& r matches Err(e) && e.message@ == m
                },
            },
    {
        proof {
            self.lemma_view();
        }
        if parent_idx >= self.environments.len() {
            let mut message = string_of("unable to add new environment: parent at idx '");
            push_decimal(&mut message, parent_idx);
            push_str(&mut message, "' not found");
            return Err(RuntimeErr::new(message));
        }
        let head = self.head_idx;
        let idx = self.environments.len();
        let env = Environment::new(idx, Some(parent_idx));
        self.environments.push(Some(env));
        self.head_idx = idx;
        proof {
            self.lemma_view();
        }
        assert(self@.envs =~= spec_push_child(old(self)@, parent_idx)->Ok_0.envs);
        Ok(self.head_idx)
    }

    /// Pushes an empty environment enclosed by the head and makes it the
    /// head; gives its index.
    pub fn push(&mut self) -> (r: EnvironmentIdx)
        requires
            old(self).wf(),
            old(self)@.envs.len() + 2 < usize::MAX,
        ensures
            final(self).wf(),
            final(self)@ == spec_push(old(self)@),
            r == final(self)@.head,
    {
        proof {
            self.lemma_view();
        }
        let prev_head_idx = self.head_idx;
        let idx = self.environments.len();
        let env = Environment::new(idx, Some(prev_head_idx));
        self.environments.push(Some(env));
        self.head_idx = idx;
        proof {
            self.lemma_view();
        }
        assert(self@.envs =~= spec_push(old(self)@).envs);
        self.head_idx
    }

    /// Removes the head environment (and what it encloses) and makes its
    /// enclosing environment the head.  The global environment, which no
    /// environment encloses, cannot be popped while other slots exist.
    pub fn pop(&mut self) -> (r: Result<(), RuntimeErr>)
        requires
            old(self).wf(),
            !pop_forbidden(old(self)@),
        ensures
            final(self).wf(),
            final(self)@.envs.len() == old(self)@.envs.len(),
            final(self)@ == spec_pop(old(self)@).0,
            match spec_pop(old(self)@).1 {
                Ok(()) => r is Ok,
                Err(m) => r matches Err(e) && e.message@ == m,
            },
    {
        proof {
            self.lemma_view();
        }
        if self.environments.len() > 1 {
            let head_idx = self.head_idx;
            let new_head_idx = match self.get_env_by_idx_or_err(self.head_idx) {
                Err(e) => return Err(e),
                Ok(env) => match env.get_parent_idx() {
                    Some(p) => *p,
                    None => {
                        assert(false);
                        0
                    },
                },
            };
            let removed = self.remove_at_idx(head_idx);
            match removed {
                Err(e) => {
                    return Err(e);
                },
                Ok(()) => {},
            }
            proof {
                self.lemma_view();
            }
            self.head_idx = new_head_idx;
        }
        Ok(())
    }

    /// Removes the environment at `idx` and, one after the other, the
    /// environments it directly encloses, each with what it encloses.
    pub fn remove_at_idx(&mut self, idx: EnvironmentIdx) -> (r: Result<(), RuntimeErr>)
        requires
            old(self).wf(),
        ensures
            final(self).wf(),
            final(self)@.head == old(self)@.head,
            final(self)@.envs.len() == old(self)@.envs.len(),
            final(self)@.envs == spec_remove(old(self)@.envs, idx as int).0,
            match spec_remove(old(self)@.envs, idx as int).1 {
                Ok(()) => r is Ok,
                Err(m) => r matches Err(e) && e.message@ == m,
            },
        decreases old(self)@.envs.len() - idx,
    {
        proof {
            self.lemma_view();
        }
        let found = match self.get_env_by_idx_or_err(idx) {
            Err(e) => return Err(e),
            Ok(env) => env.get_idx(),
        };
        assert(found == idx);
        self.environments.set(idx, None);
        proof {
            self.lemma_view();
            assert(self@.envs =~= old(self)@.envs.update(idx as int, None));
        }
        let children = self.get_env_idxes_by_parent_idx(idx);
        let ghost e1 = self@.envs;
        let ghost n = e1.len();
        proof {
            lemma_children_of_wf(e1, self@.head, idx);
            assert(spec_remove(old(self)@.envs, idx as int) == spec_remove_all(e1, children@, 0, idx as int));
        }
        let mut i: usize = 0;
        while i < children.len()
            invariant
                self.wf(),
                self@.head == old(self)@.head,
                self@.envs.len() == n,
                n == old(self)@.envs.len(),
                children@ == children_of(e1, idx),
                children.len() <= n,
                idx < n,
                0 <= i <= children.len(),
                forall|k: int| 0 <= k < children.len() ==> idx < #[trigger] children@[k] < n,
                spec_remove(old(self)@.envs, idx as int) == spec_remove_all(self@.envs, children@, i as int, idx as int),
            decreases children.len() - i,
        {
            let c = children[i];
            assert(idx < c < n);
            let ghost before = self@.envs;
            proof {
                assert(spec_remove_all(before, children@, i as int, idx as int) == ({
                    let (e2, r) = spec_remove(before, c as int);
                    if r is Err || e2.len() != before.len() { (e2, r) } else { spec_remove_all(e2, children@, i + 1, idx as int) }
                }));
            }
            let r = self.remove_at_idx(c);
            proof {
                self.lemma_view();
            }
            match r {
                Err(e) => {
                    return Err(e);
                },
                Ok(()) => {},
            }
            i = i + 1;
        }
        Ok(())
    }

    /// Binds `name` to `value` in the environment at `idx`.
    pub fn define_at_idx(&mut self, idx: EnvironmentIdx, name: &str, value: LiteralValue) -> (r: Result<(), RuntimeErr>)
        requires
            old(self).wf(),
        ensures
            final(self).wf(),
            final(self)@.envs.len() == old(self)@.envs.len(),
            final(self)@ == spec_define(old(self)@, idx as int, name@, value@).0,
            match spec_define(old(self)@, idx as int, name@, value@).1 {
                Ok(()) => r is Ok,
                Err(m) => r matches Err(e) && e.message@ == m,
            },
    {
        proof {
            self.lemma_view();
        }
        let ghost v = value@;
        if idx >= self.environments.len() || self.environments[idx].is_none() {
            return Err(no_env_error(idx));
        }
        let mut slot = None;
        std::mem::swap(&mut slot, &mut self.environments[idx]);
        let mut env = match slot {
            Some(env) => env,
            None => {
                assert(false);
                return Err(no_env_error(idx));
            },
        };
        let ghost before = env@;
        env.define(name, value);
        self.environments.set(idx, Some(env));
        proof {
            self.lemma_view();
            assert(self@.envs =~= spec_define(old(self)@, idx as int, name@, v).0.envs);
        }
        Ok(())
    }

    /// Binds `name` to `value` in the head environment.
    pub fn define_at_head(&mut self, name: &str, value: LiteralValue) -> (r: Result<(), RuntimeErr>)
        requires
            old(self).wf(),
        ensures
            final(self).wf(),
            final(self)@.envs.len() == old(self)@.envs.len(),
            final(self)@ == spec_define(old(self)@, old(self)@.head as int, name@, value@).0,
            match spec_define(old(self)@, old(self)@.head as int, name@, value@).1 {
                Ok(()) => r is Ok,
                Err(m) => r matches Err(e) && e.message@ == m,
            },
    {
        let head = self.head_idx;
        self.define_at_idx(head, name, value)
    }

    /// Replaces the value of `name` in the nearest environment, from `idx`
    /// outwards, that binds it; gives back (a copy of) the value stored.
    pub fn assign_at_idx(&mut self, idx: EnvironmentIdx, name: &Token, value: LiteralValue) -> (r: Result<LiteralValue, RuntimeErr>)
        requires
            old(self).wf(),
        ensures
            final(self).wf(),
            final(self)@.envs.len() == old(self)@.envs.len(),
            final(self)@ == spec_assign(old(self)@, idx as int, name.lexeme@, value@).0,
            match spec_assign(old(self)@, idx as int, name.lexeme@, value@).1 {
                Ok(v) => r matches Ok(w) && w@ == v,
                Err(m) => r matches Err(e) && e.message@ == m,
            },
    {
        proof {
            self.lemma_view();
        }
        let ghost v = value@;
        proof {
            lemma_first_assignable(self@, idx as int, name.lexeme@);
        }
        match self.get_first_assignable_idx(idx, name) {
            Err(e) => Err(e),
            Ok(None) => {
                let mut message = string_of("Undefined variable: ");
                push_str(&mut message, name.lexeme.as_str());
                Err(RuntimeErr::new(message))
            },
            Ok(Some(i)) => {
                if i >= self.environments.len() || self.environments[i].is_none() {
                    return Err(no_env_error(i));
                }
                let mut slot = None;
                std::mem::swap(&mut slot, &mut self.environments[i]);
                let mut env = match slot {
                    Some(env) => env,
                    None => {
                        assert(false);
                        return Err(no_env_error(i));
                    },
                };
                let r = env.assign(name.lexeme.as_str(), value);
                self.environments.set(i, Some(env));
                proof {
                    self.lemma_view();
                    assert(self@.envs =~= spec_assign(old(self)@, idx as int, name.lexeme@, v).0.envs);
                }
                r
            },
        }
    }

    /// Replaces the value of `name` in the nearest environment, from the
    /// head outwards, that binds it; gives back (a copy of) the value stored.
    pub fn assign_at_head(&mut self, name: &Token, value: LiteralValue) -> (r: Result<LiteralValue, RuntimeErr>)
        requires
            old(self).wf(),
        ensures
            final(self).wf(),
            final(self)@.envs.len() == old(self)@.envs.len(),
            final(self)@ == spec_assign(old(self)@, old(self)@.head as int, name.lexeme@, value@).0,
            match spec_assign(old(self)@, old(self)@.head as int, name.lexeme@, value@).1 {
                Ok(v) => r matches Ok(w) && w@ == v,
                Err(m) => r matches Err(e) && e.message@ == m,
            },
    {
        let idx = self.head_idx;
        self.assign_at_idx(idx, name, value)
    }

    /// The value of `name` seen from the environment at `env_idx` (see
    /// [`spec_lookup`]): an error only when there is no environment at
    /// `env_idx`; `Ok(None)` when no environment on the way binds it.
    pub fn get_value_in_env(&self, env_idx: EnvironmentIdx, name: &Token) -> (r: Result<Option<&LiteralValue>, RuntimeErr>)
        requires
            self.wf(),
        ensures
            match spec_lookup(self@.envs, env_idx as int, name.lexeme@) {
                Ok(Some(v)) => r matches Ok(Some(w)) && w@ == v,
                Ok(None) => r matches Ok(None),
                Err(m) => r matches Err(e) && e.message@ == m,
            },
    {
        match self.get_env_by_idx_or_err(env_idx) {
            Err(e) => Err(e),
            Ok(_) => Ok(self.find_value(env_idx, name)),
        }
    }

    /// The binding of `name` in the nearest environment, from the one at
    /// `env_idx` outwards, that binds it (see [`spec_find`]).
    fn find_value(&self, env_idx: EnvironmentIdx, name: &Token) -> (r: Option<&LiteralValue>)
        requires
            self.wf(),
        ensures
            match spec_find(self@.envs, env_idx as int, name.lexeme@) {
                Some(v) => r matches Some(w) && w@ == v,
                None => r is None,
            },
        decreases env_idx,
    {
        proof {
            self.lemma_view();
        }
        let env = match self.get_env_by_idx_or_err(env_idx) {
            Err(_) => return None,
            Ok(env) => env,
        };
        if let Some(value) = env.get(name.lexeme.as_str()) {
            Some(value)
        } else if let Some(parent_idx) = env.get_parent_idx() {
            self.find_value(*parent_idx, name)
        } else {
            None
        }
    }

    /// The value of `name` seen from the head environment.
    pub fn get_value_at_head(&self, name: &Token) -> (r: Result<Option<&LiteralValue>, RuntimeErr>)
        requires
            self.wf(),
        ensures
            match spec_lookup(self@.envs, self@.head as int, name.lexeme@) {
                Ok(Some(v)) => r matches Ok(Some(w)) && w@ == v,
                Ok(None) => r matches Ok(None),
                Err(m) => r matches Err(e) && e.message@ == m,
            },
    {
        self.get_value_in_env(self.head_idx, name)
    }

    /// (A copy of) the value of `name` seen from the head environment, or
    /// an "Undefined variable" error when no environment binds it.
    pub fn get_value_at_head_or_err(&self, name: &Token) -> (r: Result<LiteralValue, RuntimeErr>)
        requires
            self.wf(),
        ensures
            match spec_lookup(self@.envs, self@.head as int, name.lexeme@) {
                Ok(Some(v)) => r matches Ok(w) && w@ == v,
                Ok(None) => r matches Err(e) && e.message@ == undefined_message(name.lexeme@),
                Err(m) => r matches Err(e) && e.message@ == m,
            },
    {
        match self.get_value_at_head(name) {
            Err(e) => Err(e),
            Ok(Some(v)) => Ok(v.duplicate()),
            Ok(None) => {
                let mut message = string_of("Undefined variable: ");
                push_str(&mut message, name.lexeme.as_str());
                Err(RuntimeErr::new(message))
            },
        }
    }

    /// The environment at `idx`, to change in place, or an error when
    /// there is none.  The stack afterwards holds, at `idx`, the
    /// environment as the caller left it; it stays well formed when the
    /// caller keeps that environment's index and enclosing environment.
    pub fn get_env_by_idx_mut_or_err(&mut self, idx: usize) -> (r: Result<&mut Environment, RuntimeErr>)
        requires
            old(self).wf(),
        ensures
            match r {
                Ok(f) => {
                    &&& env_at(old(self)@.envs, idx as int) == Some(f@)
                    &&& f.wf()
                    &&& final(self)@ == (StackView { envs: old(self)@.envs.update(idx as int, Some(final(f)@)), head: old(self)@.head })
                    &&& (final(f).wf() && final(f)@.idx == f@.idx && final(f)@.parent_idx == f@.parent_idx) ==> final(self).wf()
                },
                Err(err) => {
                    &&& env_at(old(self)@.envs, idx as int) is None
                    &&& err.message@ == no_env_message(idx as int)
                    &&& final(self)@ == old(self)@
                    &&& final(self).wf()
                },
            },
    {
        proof {
            self.lemma_view();
        }
        if idx < self.environments.len() {
            proof {
                lemma_update_view(self.environments@, idx as int);
            }
            if self.environments[idx].is_some() {
                match &mut self.environments[idx] {
                    Some(env) => return Ok(env),
                    None => {},
                }
            }
        }
        Err(no_env_error(idx))
    }

    /// The environment at `idx`, or an error when there is none.
    pub fn get_env_by_idx_or_err(&self, idx: usize) -> (r: Result<&Environment, RuntimeErr>)
        requires
            self.wf(),
        ensures
            match env_at(self@.envs, idx as int) {
                Some(e) => {
                    &&& r matches Ok(f)
                    &&& f@ == e
                    &&& f.wf()
                },
                None => r matches Err(err) && err.message@ == no_env_message(idx as int),
            },
    {
        proof {
            self.lemma_view();
        }
        if idx < self.environments.len() {
            if let Some(env) = &self.environments[idx] {
                return Ok(env);
            }
        }
        Err(no_env_error(idx))
    }

    /// The environment at the head.
    pub fn get_env_at_head_or_err(&self) -> (r: Result<&Environment, RuntimeErr>)
        requires
            self.wf(),
        ensures
            match env_at(self@.envs, self@.head as int) {
                Some(e) => r matches Ok(f) && f@ == e,
                None => r matches Err(err) && err.message@ == no_env_message(self@.head as int),
            },
    {
        self.get_env_by_idx_or_err(self.head_idx)
    }

    /// The environment that encloses `env`, if there is one in the stack.
    pub fn get_parent(&self, env: &Environment) -> (r: Option<&Environment>)
        requires
            self.wf(),
        ensures
            match env@.parent_idx {
                Some(p) => match env_at(self@.envs, p as int) {
                    Some(e) => r matches Some(f) && f@ == e,
                    None => r is None,
                },
                None => r is None,
            },
    {
        proof {
            self.lemma_view();
        }
        if let Some(parent_idx) = *env.get_parent_idx() {
            if parent_idx < self.environments.len() {
                if let Some(parent) = &self.environments[parent_idx] {
                    return Some(parent);
                }
            }
        }
        None
    }

    // follow the environments outwards, giving the index of the first one
    // that binds the name
    fn get_first_assignable_idx(&self, idx: usize, name: &Token) -> (r: Result<Option<usize>, RuntimeErr>)
        requires
            self.wf(),
        ensures
            match spec_first_assignable(self@.envs, idx as int, name.lexeme@) {
                Ok(o) => r matches Ok(p) && p == o,
                Err(m) => r matches Err(e) && e.message@ == m,
            },
        decreases idx,
    {
        let environment = match self.get_env_by_idx_or_err(idx) {
            Err(e) => return Err(e),
            Ok(env) => env,
        };
        if environment.can_assign(name.lexeme.as_str()) {
            Ok(Some(environment.get_idx()))
        } else if let Some(parent_idx) = environment.get_parent_idx() {
            self.get_first_assignable_idx(*parent_idx, name)
        } else {
            Ok(None)
        }
    }

    fn get_env_idxes_by_parent_idx(&self, target_parent_idx: usize) -> (r: Vec<usize>)
        requires
            self.wf(),
        ensures
            r@ == children_of(self@.envs, target_parent_idx),
    {
        proof {
            self.lemma_view();
        }
        let mut r: Vec<usize> = Vec::new();
        let mut i: usize = 0;
        while i < self.environments.len()
            invariant
                self.wf(),
                i <= self.environments.len(),
                self@.envs.len() == self.environments.len(),
                r@ == children_upto(self@.envs, target_parent_idx, i as int),
            decreases self.environments.len() - i,
        {
            proof {
                self.lemma_view();
            }
            if let Some(env) = &self.environments[i] {
                match env.get_parent_idx() {
                    Some(p) => if *p == target_parent_idx {
                        r.push(env.get_idx());
                    },
                    None => {},
                }
            }
            i = i + 1;
        }
        r
    }
}

fn no_env_error(idx: usize) -> (r: RuntimeErr)
    ensures
        r.message@ == no_env_message(idx as int),
{
    let mut message = string_of("No environment found at idx ");
    push_decimal(&mut message, idx);
    RuntimeErr::new(message)
}

} // verus!
