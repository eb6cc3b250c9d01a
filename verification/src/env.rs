//! Lexically scoped environments: an arena of scopes addressed by index.
//!
//! A scope maps names to values and points to its parent scope by a smaller
//! arena index, so the parent chain can never be cyclic.  Closures capture
//! the index of their defining scope; since scopes are never removed from
//! the arena, a captured scope outlives the call that created it, and a
//! later `define` in it is seen by every closure holding the index.

use vstd::prelude::*;
use vstd::string::*;
use crate::values::{Value, Val, val_view};

verus! {

/// One scope: parallel name/value columns plus an optional parent index.
pub struct Scope {
    pub names: Vec<String>,
    pub vals: Vec<Value>,
    pub parent: Option<usize>,
}

/// The mathematical model of one scope.
pub ghost struct ScopeS {
    pub bindings: Map<Seq<char>, Val>,
    pub parent: Option<int>,
}

/// The binding map denoted by parallel name/value columns.
pub open spec fn scope_map(names: Seq<String>, vals: Seq<Value>) -> Map<Seq<char>, Val>
    decreases names.len(),
{
    if names.len() == 0 || vals.len() == 0 {
        Map::empty()
    } else {
        scope_map(names.drop_last(), vals.drop_last()).insert(
            names.last()@,
            val_view(vals.last()),
        )
    }
}

/// A scope's columns are aligned and its names are distinct.
pub open spec fn scope_wf(s: Scope) -> bool {
    &&& s.names@.len() == s.vals@.len()
    &&& forall|i: int, j: int|
        0 <= i < j < s.names@.len() ==> (#[trigger] s.names@[i])@ != (#[trigger] s.names@[j])@
}

pub open spec fn scope_view(s: Scope) -> ScopeS {
    ScopeS {
        bindings: scope_map(s.names@, s.vals@),
        parent: match s.parent {
            Option::Some(p) => Option::Some(p as int),
            Option::None => Option::None,
        },
    }
}

/// The environment arena.
pub struct Env {
    pub scopes: Vec<Scope>,
}

pub open spec fn scopes_view(s: Seq<Scope>) -> Seq<ScopeS> {
    s.map_values(|sc: Scope| scope_view(sc))
}

impl View for Env {
    type V = Seq<ScopeS>;

    open spec fn view(&self) -> Seq<ScopeS> {
        scopes_view(self.scopes@)
    }
}

pub open spec fn env_wf(e: Env) -> bool {
    forall|j: int| 0 <= j < e.scopes@.len() ==> scope_wf(#[trigger] e.scopes@[j])
}

/// Name lookup: search the scope, then the parent chain, innermost first.
pub open spec fn lookup_s(st: Seq<ScopeS>, scope: int, name: Seq<char>) -> Option<Val>
    decreases scope,
{
    if !(0 <= scope < st.len()) {
        Option::None
    } else if st[scope].bindings.contains_key(name) {
        Option::Some(st[scope].bindings[name])
    } else {
        match st[scope].parent {
            Option::Some(p) => if 0 <= p < scope {
                lookup_s(st, p, name)
            } else {
                Option::None
            },
            Option::None => Option::None,
        }
    }
}

/// Insert or overwrite a binding in one scope, touching nothing else.
pub open spec fn define_s(st: Seq<ScopeS>, scope: int, name: Seq<char>, v: Val) -> Seq<ScopeS> {
    if 0 <= scope < st.len() {
        st.update(
            scope,
            ScopeS { bindings: st[scope].bindings.insert(name, v), parent: st[scope].parent },
        )
    } else {
        st
    }
}

/// A fresh scope whose parent is `parent`.
pub open spec fn child_s(st: Seq<ScopeS>, parent: int) -> Seq<ScopeS> {
    st.push(ScopeS { bindings: Map::empty(), parent: Option::Some(parent) })
}

proof fn lemma_scope_map_get(names: Seq<String>, vals: Seq<Value>, i: int)
    requires
        names.len() == vals.len(),
        0 <= i < names.len(),
        forall|a: int, b: int|
            0 <= a < b < names.len() ==> (#[trigger] names[a])@ != (#[trigger] names[b])@,
    ensures
        scope_map(names, vals).contains_key(names[i]@),
        scope_map(names, vals)[names[i]@] == val_view(vals[i]),
    decreases names.len(),
{
    if i == names.len() - 1 {
    } else {
        lemma_scope_map_get(names.drop_last(), vals.drop_last(), i);
        assert(names.drop_last()[i] == names[i]);
        assert(vals.drop_last()[i] == vals[i]);
        assert(names.last()@ != names[i]@);
    }
}

proof fn lemma_scope_map_absent(names: Seq<String>, vals: Seq<Value>, name: Seq<char>)
    requires
        names.len() == vals.len(),
        forall|a: int| 0 <= a < names.len() ==> (#[trigger] names[a])@ != name,
    ensures
        !scope_map(names, vals).contains_key(name),
    decreases names.len(),
{
    if names.len() > 0 {
        lemma_scope_map_absent(names.drop_last(), vals.drop_last(), name);
        assert(names.last() == names[names.len() - 1]);
    }
}

proof fn lemma_scope_map_update(names: Seq<String>, vals: Seq<Value>, j: int, v: Value)
    requires
        names.len() == vals.len(),
        0 <= j < names.len(),
        forall|a: int, b: int|
            0 <= a < b < names.len() ==> (#[trigger] names[a])@ != (#[trigger] names[b])@,
    ensures
        scope_map(names, vals.update(j, v)) =~= scope_map(names, vals).insert(
            names[j]@,
            val_view(v),
        ),
    decreases names.len(),
{
    let nv = vals.update(j, v);
    if j == names.len() - 1 {
        assert(nv.drop_last() =~= vals.drop_last());
        assert(nv.last() == v);
    } else {
        assert(nv.drop_last() =~= vals.drop_last().update(j, v));
        lemma_scope_map_update(names.drop_last(), vals.drop_last(), j, v);
        assert(names.drop_last()[j] == names[j]);
        assert(nv.last() == vals.last());
        assert(names.last()@ != names[j]@);
        assert(scope_map(names, nv) =~= scope_map(names, vals).insert(names[j]@, val_view(v)));
    }
}

proof fn lemma_scopes_view_update(s: Seq<Scope>, i: int, sc: Scope)
    requires
        0 <= i < s.len(),
    ensures
        scopes_view(s.update(i, sc)) =~= scopes_view(s).update(i, scope_view(sc)),
{
}

proof fn lemma_scopes_view_push(s: Seq<Scope>, sc: Scope)
    ensures
        scopes_view(s.push(sc)) =~= scopes_view(s).push(scope_view(sc)),
{
}

/// Search one scope's names for `name`.
fn scope_find(sc: &Scope, name: &String) -> (r: Option<usize>)
    requires
        scope_wf(*sc),
    ensures
        match r {
            Option::Some(j) => j < sc.names@.len() && sc.names@[j as int]@ == name@
                && scope_view(*sc).bindings.contains_key(name@)
                && scope_view(*sc).bindings[name@] == val_view(sc.vals@[j as int]),
            Option::None => !scope_view(*sc).bindings.contains_key(name@) && forall|k: int|
                0 <= k < sc.names@.len() ==> (#[trigger] sc.names@[k])@ != name@,
        },
{
    let n: usize = sc.names.len();
    let mut i: usize = 0;
    while i < n
        invariant
            i <= n,
            n == sc.names@.len(),
            scope_wf(*sc),
            forall|k: int| 0 <= k < i ==> (#[trigger] sc.names@[k])@ != name@,
        decreases n - i,
    {
        if sc.names[i].eq(name) {
            proof {
                lemma_scope_map_get(sc.names@, sc.vals@, i as int);
            }
            return Option::Some(i);
        }
        i = i + 1;
    }
    proof {
        lemma_scope_map_absent(sc.names@, sc.vals@, name@);
    }
    Option::None
}

impl Env {
    /// A fresh arena holding one empty root scope.
    pub fn new() -> (r: Env)
        ensures
            r@ =~= seq![ScopeS { bindings: Map::empty(), parent: Option::None }],
            env_wf(r),
    {
        let root = Scope { names: Vec::new(), vals: Vec::new(), parent: Option::None };
        let mut scopes: Vec<Scope> = Vec::new();
        scopes.push(root);
        Env { scopes }
    }

    /// Look a name up through the parent chain, innermost scope first.
    pub fn get(&self, scope: usize, name: &String) -> (r: Option<Value>)
        requires
            env_wf(*self),
        ensures
            match r {
                Option::Some(v) => lookup_s(self@, scope as int, name@) == Option::Some(
                    val_view(v),
                ),
                Option::None => lookup_s(self@, scope as int, name@) == Option::<Val>::None,
            },
        decreases scope,
    {
        if scope >= self.scopes.len() {
            return Option::None;
        }
        let sc: &Scope = &self.scopes[scope];
        match scope_find(sc, name) {
            Option::Some(j) => Option::Some(sc.vals[j].duplicate()),
            Option::None => {
                match sc.parent {
                    Option::Some(p) => if p < scope {
                        self.get(p, name)
                    } else {
                        Option::None
                    },
                    Option::None => Option::None,
                }
            },
        }
    }

    /// Bind `name` in the given scope alone, shadowing but never touching
    /// outer scopes; an existing binding in that scope is replaced.
    pub fn define(&mut self, scope: usize, name: &String, value: Value)
        requires
            env_wf(*old(self)),
        ensures
            final(self)@ == define_s(old(self)@, scope as int, name@, val_view(value)),
            env_wf(*final(self)),
            final(self).scopes@.len() == old(self).scopes@.len(),
    {
        let ghost st0: Seq<ScopeS> = self@;
        if scope >= self.scopes.len() {
            return ;
        }
        let fr: Option<usize> = scope_find(&self.scopes[scope], name);
        let ghost names0: Seq<String> = self.scopes@[scope as int].names@;
        let ghost vals0: Seq<Value> = self.scopes@[scope as int].vals@;
        let sc: &mut Scope = &mut self.scopes[scope];
        match fr {
            Option::Some(j) => {
                sc.vals[j] = value;
                proof {
                    lemma_scope_map_update(names0, vals0, j as int, sc.vals@[j as int]);
                    lemma_scopes_view_update(
                        old(self).scopes@,
                        scope as int,
                        Scope { names: sc.names, vals: sc.vals, parent: sc.parent },
                    );
                    assert(final(self)@ =~= define_s(st0, scope as int, name@, val_view(
                        sc.vals@[j as int],
                    )));
                    assert forall|k: int| 0 <= k < final(self).scopes@.len() implies scope_wf(
                        #[trigger] final(self).scopes@[k],
                    ) by {
                        if k != scope as int {
                            assert(final(self).scopes@[k] == old(self).scopes@[k]);
                        }
                    }
                }
            },
            Option::None => {
                sc.names.push(name.clone());
                sc.vals.push(value);
                proof {
                    assert(sc.names@.drop_last() =~= names0);
                    assert(sc.vals@.drop_last() =~= vals0);
                    lemma_scopes_view_update(
                        old(self).scopes@,
                        scope as int,
                        Scope { names: sc.names, vals: sc.vals, parent: sc.parent },
                    );
                    assert(final(self)@ =~= define_s(st0, scope as int, name@, val_view(value)));
                    assert forall|k: int| 0 <= k < final(self).scopes@.len() implies scope_wf(
                        #[trigger] final(self).scopes@[k],
                    ) by {
                        if k != scope as int {
                            assert(final(self).scopes@[k] == old(self).scopes@[k]);
                        } else {
                            let nn = final(self).scopes@[k].names@;
                            assert forall|a: int, b: int| 0 <= a < b < nn.len() implies (
                            #[trigger] nn[a])@ != (#[trigger] nn[b])@ by {
                                if b == nn.len() - 1 {
                                    assert(nn[a] == names0[a]);
                                    assert(nn[b]@ == name@);
                                } else {
                                    assert(nn[a] == names0[a]);
                                    assert(nn[b] == names0[b]);
                                }
                            }
                        }
                    }
                }
            },
        }
    }

    /// Append a fresh scope whose parent is `parent`; its index is returned.
    pub fn child(&mut self, parent: usize) -> (id: usize)
        requires
            env_wf(*old(self)),
        ensures
            final(self)@ == child_s(old(self)@, parent as int),
            id == old(self)@.len(),
            env_wf(*final(self)),
    {
        let id: usize = self.scopes.len();
        let sc = Scope { names: Vec::new(), vals: Vec::new(), parent: Option::Some(parent) };
        proof {
            lemma_scopes_view_push(self.scopes@, sc);
        }
        self.scopes.push(sc);
        id
    }
}

} // verus!
