//! Chained, mutable variable-binding scopes.
//!
//! Scopes live in an arena: each scope holds its bindings and the index of
//! its enclosing scope, so sibling blocks may share one parent and a chain
//! stays alive as long as the environment does. `define` always writes the
//! current scope; `get` and `assign` walk outward to the root and fail when
//! no scope on the chain binds the name.

use vstd::prelude::*;

use crate::token::LiteralTypes;
use crate::token::Token;
use crate::token::ValueV;
use crate::token::bytes_clone;
use crate::token::bytes_eq;
use crate::token::clone_literal;

verus! {

struct Scope {
    entries: Vec<(Vec<u8>, LiteralTypes)>,
    parent: Option<usize>,
}

/// Mathematical model of one scope: its bindings and its enclosing scope.
pub struct ScopeV {
    pub map: Map<Seq<u8>, ValueV>,
    pub parent: Option<int>,
}

/// Mathematical model of an environment: the scope arena and the index of
/// the current scope.
pub struct EnvV {
    pub scopes: Seq<ScopeV>,
    pub current: int,
}

/// The bindings of a scope, later entries shadowing earlier ones.
pub open spec fn entries_map(s: Seq<(Vec<u8>, LiteralTypes)>) -> Map<Seq<u8>, ValueV>
    decreases s.len(),
{
    if s.len() == 0 {
        Map::empty()
    } else {
        entries_map(s.drop_last()).insert(s.last().0@, s.last().1@)
    }
}

impl View for Scope {
    type V = ScopeV;

    closed spec fn view(&self) -> ScopeV {
        ScopeV {
            map: entries_map(self.entries@),
            parent: match self.parent {
                Some(p) => Some(p as int),
                None => None,
            },
        }
    }
}

pub struct Environment {
    scopes: Vec<Scope>,
    current: usize,
}

impl View for Environment {
    type V = EnvV;

    closed spec fn view(&self) -> EnvV {
        EnvV { scopes: self.scopes@.map(|i: int, s: Scope| s@), current: self.current as int }
    }
}

pub open spec fn parent_ok(p: Option<int>, i: int) -> bool {
    match p {
        Some(q) => 0 <= q < i,
        None => true,
    }
}

/// Well-formedness: the current index is in range and every parent link
/// points strictly backwards, so chains are acyclic and end at a root.
pub open spec fn env_wf(e: EnvV) -> bool {
    &&& 0 <= e.current < e.scopes.len()
    &&& forall|i: int| 0 <= i < e.scopes.len() ==> parent_ok(#[trigger] e.scopes[i].parent, i)
}

/// The index of the nearest scope, from `i` outward, that binds `name`.
pub open spec fn resolve_scope(scopes: Seq<ScopeV>, i: int, name: Seq<u8>) -> Option<int>
    decreases i,
{
    if i < 0 || i >= scopes.len() {
        None
    } else if scopes[i].map.contains_key(name) {
        Some(i)
    } else {
        match scopes[i].parent {
            Some(p) => if 0 <= p < i {
                resolve_scope(scopes, p, name)
            } else {
                None
            },
            None => None,
        }
    }
}

/// The value bound to `name` on the chain from `i` outward.
pub open spec fn lookup_from(scopes: Seq<ScopeV>, i: int, name: Seq<u8>) -> Option<ValueV> {
    match resolve_scope(scopes, i, name) {
        Some(j) => Some(scopes[j].map[name]),
        None => None,
    }
}

/// Reading `name` in the current scope chain.
pub open spec fn env_get(e: EnvV, name: Seq<u8>) -> Option<ValueV> {
    lookup_from(e.scopes, e.current, name)
}

/// Binding `name` in the current scope, shadowing any outer binding.
pub open spec fn env_define(e: EnvV, name: Seq<u8>, v: ValueV) -> EnvV {
    EnvV {
        scopes: e.scopes.update(
            e.current,
            ScopeV { map: e.scopes[e.current].map.insert(name, v), parent: e.scopes[e.current].parent },
        ),
        current: e.current,
    }
}

/// Mutating the nearest binding of `name`; `None` when no scope on the
/// chain binds it — assignment never creates a binding.
pub open spec fn env_assign(e: EnvV, name: Seq<u8>, v: ValueV) -> Option<EnvV> {
    match resolve_scope(e.scopes, e.current, name) {
        Some(j) => Some(
            EnvV {
                scopes: e.scopes.update(
                    j,
                    ScopeV { map: e.scopes[j].map.insert(name, v), parent: e.scopes[j].parent },
                ),
                current: e.current,
            },
        ),
        None => None,
    }
}

/// Entering a block: a fresh empty scope whose parent is the current one.
pub open spec fn env_push(e: EnvV) -> EnvV {
    EnvV {
        scopes: e.scopes.push(ScopeV { map: Map::empty(), parent: Some(e.current) }),
        current: e.scopes.len() as int,
    }
}

/// Leaving a block: the current scope's parent becomes current again.
pub open spec fn env_exit(e: EnvV) -> EnvV
    recommends
        env_wf(e),
        e.scopes[e.current].parent is Some,
{
    EnvV { scopes: e.scopes, current: e.scopes[e.current].parent.unwrap() }
}

proof fn lemma_resolve_prefix(s1: Seq<ScopeV>, s2: Seq<ScopeV>, i: int, name: Seq<u8>)
    requires
        s1.len() <= s2.len(),
        forall|k: int| 0 <= k < s1.len() ==> s2[k] == s1[k],
        0 <= i < s1.len(),
        forall|k: int| 0 <= k < s1.len() ==> parent_ok(#[trigger] s1[k].parent, k),
    ensures
        resolve_scope(s2, i, name) == resolve_scope(s1, i, name),
    decreases i,
{
    if !s1[i].map.contains_key(name) {
        match s1[i].parent {
            Some(p) => {
                assert(parent_ok(s1[i].parent, i));
                lemma_resolve_prefix(s1, s2, p, name);
            },
            None => {},
        }
    }
}

/// Shadowing is local: a name defined in a freshly entered block scope hides
/// any outer binding only while that scope is current. Inside the block the
/// name reads back the shadowing value; after leaving the block, every scope
/// that existed before holds exactly the bindings it held before, and a read
/// of the name sees whatever the outer chain bound it to, unchanged.
pub proof fn lemma_block_shadowing(e: EnvV, name: Seq<u8>, v: ValueV)
    requires
        env_wf(e),
    ensures
        env_get(env_define(env_push(e), name, v), name) == Some(v),
        env_get(env_exit(env_define(env_push(e), name, v)), name) == env_get(e, name),
        forall|i: int|
            0 <= i < e.scopes.len() ==> #[trigger] env_exit(
                env_define(env_push(e), name, v),
            ).scopes[i].map == e.scopes[i].map,
{
    let inner = env_define(env_push(e), name, v);
    let n = e.scopes.len() as int;
    assert(inner.current == n);
    assert(inner.scopes.len() == n + 1);
    assert forall|k: int| 0 <= k < n implies inner.scopes[k] == e.scopes[k] by {}
    assert(inner.scopes[n].map.contains_key(name));
    assert(resolve_scope(inner.scopes, n, name) == Some(n));
    assert(env_get(inner, name) == Some(v));
    let after = env_exit(inner);
    assert(after.current == e.current);
    lemma_resolve_prefix(e.scopes, after.scopes, e.current, name);
    assert(resolve_scope(after.scopes, e.current, name) == resolve_scope(
        e.scopes,
        e.current,
        name,
    ));
    match resolve_scope(e.scopes, e.current, name) {
        Some(j) => {
            lemma_resolve_in_range(e.scopes, e.current, name);
            assert(after.scopes[j] == e.scopes[j]);
        },
        None => {},
    }
}

proof fn lemma_resolve_in_range(s: Seq<ScopeV>, i: int, name: Seq<u8>)
    ensures
        resolve_scope(s, i, name) matches Some(j) ==> 0 <= j <= i && j < s.len(),
    decreases i,
{
    if 0 <= i < s.len() && !s[i].map.contains_key(name) {
        match s[i].parent {
            Some(p) => {
                if 0 <= p < i {
                    lemma_resolve_in_range(s, p, name);
                }
            },
            None => {},
        }
    }
}

/// Model of an optional literal value.
pub open spec fn view_opt(o: Option<LiteralTypes>) -> Option<ValueV> {
    match o {
        Some(v) => Some(v@),
        None => None,
    }
}

/// Searches one scope for the visible (latest) entry binding `name`.
fn scope_find(sc: &Scope, name: &Vec<u8>) -> (r: Option<usize>)
    ensures
        r matches Some(j) ==> {
            &&& j < sc.entries@.len()
            &&& sc@.map.contains_key(name@)
            &&& sc@.map[name@] == sc.entries@[j as int].1@
        },
        r is None ==> !sc@.map.contains_key(name@),
{
    let mut i: usize = sc.entries.len();
    proof {
        assert(sc.entries@.take(i as int) =~= sc.entries@);
    }
    while i > 0
        invariant
            i <= sc.entries@.len(),
            forall|k: int| i <= k < sc.entries@.len() ==> #[trigger] sc.entries@[k].0@ != name@,
            entries_map(sc.entries@).contains_key(name@) == entries_map(
                sc.entries@.take(i as int),
            ).contains_key(name@),
            entries_map(sc.entries@).contains_key(name@) ==> entries_map(sc.entries@)[name@]
                == entries_map(sc.entries@.take(i as int))[name@],
        decreases i,
    {
        i = i - 1;
        proof {
            assert(sc.entries@.take(i as int + 1).drop_last() =~= sc.entries@.take(i as int));
            assert(sc.entries@.take(i as int + 1).last() == sc.entries@[i as int]);
        }
        if bytes_eq(&sc.entries[i].0, name) {
            return Some(i);
        }
    }
    proof {
        assert(sc.entries@.take(0) =~= Seq::<(Vec<u8>, LiteralTypes)>::empty());
    }
    None
}

impl Environment {
    pub closed spec fn wf(&self) -> bool {
        env_wf(self@)
    }

    /// A fresh environment holding a single global scope.
    pub fn new() -> (r: Environment)
        ensures
            r.wf(),
            r@.scopes.len() == 1,
            r@.current == 0,
            r@.scopes[0].map == Map::<Seq<u8>, ValueV>::empty(),
            r@.scopes[0].parent is None,
    {
        let mut scopes: Vec<Scope> = Vec::new();
        scopes.push(Scope { entries: Vec::new(), parent: None });
        let r = Environment { scopes, current: 0 };
        proof {
            assert(r@.scopes[0].map =~= Map::<Seq<u8>, ValueV>::empty());
        }
        r
    }

    /// Enters a fresh scope enclosed by the current one.
    pub fn new_with_enclosing(&mut self)
        requires
            old(self).wf(),
        ensures
            final(self).wf(),
            final(self)@ == env_push(old(self)@),
            final(self)@.current == old(self)@.scopes.len(),
            final(self)@.scopes.len() == old(self)@.scopes.len() + 1,
            forall|i: int|
                0 <= i < old(self)@.scopes.len() ==> #[trigger] final(self)@.scopes[i] == old(
                    self,
                )@.scopes[i],
            final(self)@.scopes[old(self)@.scopes.len() as int].parent == Some(old(self)@.current),
    {
        let parent = self.current;
        self.current = self.scopes.len();
        self.scopes.push(Scope { entries: Vec::new(), parent: Some(parent) });
        proof {
            assert(final(self)@.scopes =~= env_push(old(self)@).scopes);
        }
    }

    /// Returns to the enclosing scope.
    pub fn exit_scope(&mut self)
        requires
            old(self).wf(),
            old(self)@.scopes[old(self)@.current].parent is Some,
        ensures
            final(self).wf(),
            final(self)@ == env_exit(old(self)@),
            final(self)@.scopes == old(self)@.scopes,
            final(self)@.current == old(self)@.scopes[old(self)@.current].parent.unwrap(),
    {
        let p = match self.scopes[self.current].parent {
            Some(p) => p,
            None => 0,
        };
        self.current = p;
    }

    /// Binds `key` in the current scope, shadowing any outer binding.
    pub fn define(&mut self, key: Vec<u8>, value: LiteralTypes)
        requires
            old(self).wf(),
        ensures
            final(self).wf(),
            final(self)@ == env_define(old(self)@, key@, value@),
            final(self)@.current == old(self)@.current,
            final(self)@.scopes.len() == old(self)@.scopes.len(),
            forall|i: int|
                0 <= i < old(self)@.scopes.len() ==> #[trigger] final(self)@.scopes[i].parent
                    == old(self)@.scopes[i].parent,
    {
        let ghost pre = self@;
        let cur = self.current;
        let ghost entries_pre = self.scopes@[cur as int].entries@;
        self.scopes[cur].entries.push((key, value));
        proof {
            assert(self.scopes@[cur as int].entries@.drop_last() =~= entries_pre);
            assert(final(self)@.scopes =~= env_define(pre, key@, value@).scopes);
        }
    }

    /// Reads the value visible for `token`'s lexeme, walking outward.
    pub fn get(&self, token: &Token) -> (r: Option<LiteralTypes>)
        requires
            self.wf(),
        ensures
            view_opt(r) == env_get(self@, token.lexeme@),
    {
        let mut idx: usize = self.current;
        loop
            invariant
                self.wf(),
                idx < self.scopes@.len(),
                lookup_from(self@.scopes, idx as int, token.lexeme@) == env_get(self@, token.lexeme@),
            decreases idx,
        {
            proof {
                assert(self@.scopes[idx as int] == self.scopes@[idx as int]@);
            }
            match scope_find(&self.scopes[idx], &token.lexeme) {
                Some(j) => {
                    let v = clone_literal(&self.scopes[idx].entries[j].1);
                    proof {
                        assert((idx as int) < self@.scopes.len());
                        assert(self.scopes@[idx as int]@.map.contains_key(token.lexeme@));
                        assert(self@.scopes[idx as int].map.contains_key(token.lexeme@));
                        reveal_with_fuel(resolve_scope, 2);
                        assert(resolve_scope(self@.scopes, idx as int, token.lexeme@) == Some(idx as int));
                    }
                    return Some(v);
                },
                None => {
                    proof {
                        assert(parent_ok(self@.scopes[idx as int].parent, idx as int));
                    }
                    match self.scopes[idx].parent {
                        Some(p) => {
                            proof {
                                assert(resolve_scope(self@.scopes, idx as int, token.lexeme@)
                                    == resolve_scope(self@.scopes, p as int, token.lexeme@));
                            }
                            idx = p;
                        },
                        None => {
                            proof {
                                assert(resolve_scope(self@.scopes, idx as int, token.lexeme@) is None);
                            }
                            return None;
                        },
                    }
                },
            }
        }
    }

    /// Mutates the nearest binding of `name`'s lexeme; fails without
    /// touching anything when no scope on the chain binds it.
    pub fn assign(&mut self, name: &Token, value: LiteralTypes) -> (r: Result<(), ()>)
        requires
            old(self).wf(),
        ensures
            final(self).wf(),
            match env_assign(old(self)@, name.lexeme@, value@) {
                Some(m) => r is Ok && final(self)@ == m,
                None => r is Err && final(self)@ == old(self)@,
            },
            final(self)@.current == old(self)@.current,
            final(self)@.scopes.len() == old(self)@.scopes.len(),
            forall|i: int|
                0 <= i < old(self)@.scopes.len() ==> #[trigger] final(self)@.scopes[i].parent
                    == old(self)@.scopes[i].parent,
    {
        let ghost pre = self@;
        let ghost nm = name.lexeme@;
        let mut idx: usize = self.current;
        loop
            invariant
                nm == name.lexeme@,
                pre == self@,
                self.wf(),
                idx < self.scopes@.len(),
                resolve_scope(pre.scopes, idx as int, nm) == resolve_scope(
                    pre.scopes,
                    pre.current,
                    nm,
                ),
            ensures
                self.wf(),
                self@ == pre,
                idx < self.scopes@.len(),
                resolve_scope(pre.scopes, pre.current, nm) == Some(idx as int),
            decreases idx,
        {
            proof {
                assert(self@.scopes[idx as int] == self.scopes@[idx as int]@);
            }
            match scope_find(&self.scopes[idx], &name.lexeme) {
                Some(_) => {
                    proof {
                        assert(resolve_scope(pre.scopes, idx as int, nm) == Some(idx as int));
                    }
                    break;
                },
                None => {
                    proof {
                        assert(parent_ok(pre.scopes[idx as int].parent, idx as int));
                    }
                    match self.scopes[idx].parent {
                        Some(p) => {
                            proof {
                                assert(resolve_scope(pre.scopes, idx as int, nm)
                                    == resolve_scope(pre.scopes, p as int, nm));
                            }
                            idx = p;
                        },
                        None => {
                            proof {
                                assert(resolve_scope(pre.scopes, idx as int, nm) is None);
                            }
                            return Err(());
                        },
                    }
                },
            }
        }
        let ghost entries_pre = self.scopes@[idx as int].entries@;
        let key = bytes_clone(&name.lexeme);
        self.scopes[idx].entries.push((key, value));
        proof {
            assert(self.scopes@[idx as int].entries@.drop_last() =~= entries_pre);
            let m = env_assign(pre, nm, value@).unwrap();
            assert(final(self)@.scopes =~= m.scopes);
            assert forall|i: int| 0 <= i < final(self)@.scopes.len() implies parent_ok(
                #[trigger] final(self)@.scopes[i].parent,
                i,
            ) by {
                assert(parent_ok(pre.scopes[i].parent, i));
                assert(final(self)@.scopes[i].parent == pre.scopes[i].parent);
            }
        }
        Ok(())
    }
}

} // verus!
