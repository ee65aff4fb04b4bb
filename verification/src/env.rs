//! The environment: scopes that name values, chained from the innermost outward.
//!
//! All scopes of a session live in one arena, the [`Env`]. A scope is known by its
//! handle, its index in the arena, and points at its parent by the parent's handle.
//! A scope is always younger than its parent, so every chain is finite and ends at a
//! scope without parent.
//!
//! A scope is not discarded at the moment the form that made it completes. The
//! scopes that an evaluation makes stay in the arena while it runs, one for every
//! `begin`, `let` and call that it goes through. When it is finished the youngest
//! scopes are taken away, down to the youngest of them that is still held, by a
//! closure that was made in it and has escaped into an older scope or into the
//! result. That scope stays, and with it every scope older than it, also those among
//! them that nothing refers to any more. The handle of a scope that was discarded is
//! given out again.

use crate::object::{holds_scope, Object, Value};
use crate::text::text_eq;
use vstd::prelude::*;

verus! {

/// The model of one scope: the handle of its parent and what it binds itself.
pub struct ScopeModel {
    pub parent: Option<nat>,
    pub bindings: Map<Seq<char>, Value>,
}

/// Every scope's parent is older than the scope.
pub open spec fn well_formed(env: Seq<ScopeModel>) -> bool {
    forall|i: int|
        0 <= i < env.len() ==> match (#[trigger] env[i]).parent {
            Some(p) => p < i,
            None => true,
        }
}

/// What `name` means in `scope`: the binding of the nearest scope on the chain from
/// `scope` outward that binds it, or nothing if none does.
pub open spec fn lookup(env: Seq<ScopeModel>, scope: nat, name: Seq<char>) -> Option<Value>
    decreases scope,
{
    if scope >= env.len() {
        None
    } else if env[scope as int].bindings.contains_key(name) {
        Some(env[scope as int].bindings[name])
    } else {
        match env[scope as int].parent {
            Some(p) => if p < scope {
                lookup(env, p, name)
            } else {
                None
            },
            None => None,
        }
    }
}

/// The arena after `name` is bound to `value` in `scope` itself.
pub open spec fn defined(env: Seq<ScopeModel>, scope: nat, name: Seq<char>, value: Value) -> Seq<
    ScopeModel,
> {
    env.update(
        scope as int,
        ScopeModel {
            parent: env[scope as int].parent,
            bindings: env[scope as int].bindings.insert(name, value),
        },
    )
}

/// The arena after a new, empty scope is added under `parent`. Its handle is the
/// number of scopes there were before.
pub open spec fn extended(env: Seq<ScopeModel>, parent: nat) -> Seq<ScopeModel> {
    env.push(ScopeModel { parent: Some(parent), bindings: Map::empty() })
}

/// The arena that holds one empty scope without parent.
pub open spec fn fresh() -> Seq<ScopeModel> {
    seq![ScopeModel { parent: None, bindings: Map::empty() }]
}

/// Whether a binding of `scope` holds a closure that was made in a scope with a handle
/// of `n` or more.
pub open spec fn scope_holds(scope: ScopeModel, n: nat) -> bool {
    exists|key: Seq<char>|
        scope.bindings.contains_key(key) && holds_scope(#[trigger] scope.bindings[key], n)
}

/// Whether a binding of one of the first `k` scopes holds a closure that was made in a
/// scope with a handle of `n` or more.
pub open spec fn held_below(env: Seq<ScopeModel>, k: nat, n: nat) -> bool
    decreases k,
{
    0 < k <= env.len() && (scope_holds(env[k - 1], n) || held_below(env, (k - 1) as nat, n))
}

/// Whether the scopes with handles of `n` or more can go: there are `n` scopes or
/// more, and no binding of the first `n` holds a closure that was made in a later one.
pub open spec fn releasable(env: Seq<ScopeModel>, n: nat) -> bool {
    n <= env.len() && !held_below(env, n, n)
}

/// The arena after the scopes with handles of `n` or more are discarded, if they can
/// go; the arena as it is, if not.
pub open spec fn released(env: Seq<ScopeModel>, n: nat) -> Seq<ScopeModel> {
    if releasable(env, n) {
        env.take(n as int)
    } else {
        env
    }
}

/// One name and what it is bound to.
#[derive(Debug, PartialEq)]
struct Binding {
    name: String,
    value: Object,
}

/// One scope: its parent's handle and its own bindings, each name once.
#[derive(Debug, PartialEq)]
struct Scope {
    parent: Option<usize>,
    entries: Vec<Binding>,
}

impl Scope {
    /// Whether the entry at position `i` binds `key`.
    spec fn holds(self, key: Seq<char>, i: int) -> bool {
        0 <= i < self.entries@.len() && self.entries@[i].name@ == key
    }

    /// No two entries bind the same name.
    spec fn distinct(self) -> bool {
        forall|i: int, j: int|
            0 <= i < j < self.entries@.len() ==> self.entries@[i].name@ != self.entries@[j].name@
    }

    /// The scope as a map from the names it binds to their values.
    spec fn model(self) -> ScopeModel {
        ScopeModel {
            parent: match self.parent {
                Some(p) => Some(p as nat),
                None => None,
            },
            bindings: Map::new(
                |key: Seq<char>| exists|i: int| self.holds(key, i),
                |key: Seq<char>| self.entries@[choose|i: int| self.holds(key, i)].value@,
            ),
        }
    }

    /// The entry at position `i` is a binding of the scope.
    proof fn lemma_entry(self, i: int)
        requires
            self.distinct(),
            0 <= i < self.entries@.len(),
        ensures
            self.model().bindings.contains_key(self.entries@[i].name@),
            self.model().bindings[self.entries@[i].name@] == self.entries@[i].value@,
    {
        let key = self.entries@[i].name@;
        assert(self.holds(key, i));
        let j = choose|j: int| self.holds(key, j);
        if j < i {
            assert(self.entries@[j].name@ != self.entries@[i].name@);
        } else if i < j {
            assert(self.entries@[i].name@ != self.entries@[j].name@);
        }
    }

    /// Whether a binding of this scope holds a closure that was made in a scope with
    /// a handle of `n` or more.
    fn keeps(&self, n: usize) -> (r: bool)
        requires
            self.distinct(),
        ensures
            r == scope_holds(self.model(), n as nat),
    {
        let mut i: usize = 0;
        while i < self.entries.len()
            invariant
                i <= self.entries.len(),
                self.distinct(),
                forall|j: int| 0 <= j < i ==> !holds_scope(#[trigger] self.entries@[j].value@, n as nat),
            decreases self.entries.len() - i,
        {
            if self.entries[i].value.holds_scope(n) {
                proof {
                    self.lemma_entry(i as int);
                }
                return true;
            }
            i += 1;
        }
        proof {
            let bindings = self.model().bindings;
            assert forall|key: Seq<char>| bindings.contains_key(key) implies !holds_scope(
                #[trigger] bindings[key],
                n as nat,
            ) by {
                let j = choose|j: int| self.holds(key, j);
                assert(!holds_scope(self.entries@[j].value@, n as nat));
            }
        }
        false
    }

    /// The position of `name` among the entries, if it is bound here.
    fn find(&self, name: &str) -> (r: Option<usize>)
        requires
            self.distinct(),
        ensures
            match r {
                Some(i) => self.holds(name@, i as int) && self.model().bindings.contains_key(name@)
                    && self.model().bindings[name@] == self.entries@[i as int].value@,
                None => !self.model().bindings.contains_key(name@) && forall|i: int|
                    !self.holds(name@, i),
            },
    {
        let mut i: usize = 0;
        while i < self.entries.len()
            invariant
                i <= self.entries.len(),
                self.distinct(),
                forall|j: int| 0 <= j < i ==> !self.holds(name@, j),
            decreases self.entries.len() - i,
        {
            if text_eq(self.entries[i].name.as_str(), name) {
                proof {
                    assert(self.holds(name@, i as int));
                    let j = choose|j: int| self.holds(name@, j);
                    if j < i {
                        assert(self.entries@[j].name@ != self.entries@[i as int].name@);
                    } else if i < j {
                        assert(self.entries@[i as int].name@ != self.entries@[j].name@);
                    }
                    assert(j == i);
                }
                return Some(i);
            }
            i += 1;
        }
        None
    }
}

/// An arena of scopes. It grows with [`Env::extend`] and shrinks with
/// [`Env::release`] only.
#[derive(Debug, PartialEq)]
pub struct Env {
    scopes: Vec<Scope>,
}

impl View for Env {
    type V = Seq<ScopeModel>;

    closed spec fn view(&self) -> Seq<ScopeModel> {
        Seq::new(self.scopes@.len(), |i: int| self.scopes@[i].model())
    }
}

impl Default for Env {
    fn default() -> (env: Env)
        ensures
            env.wf(),
            env@ == fresh(),
    {
        Env::new()
    }
}

impl Env {
    /// The arena's invariant: no scope binds a name twice, and every parent is older
    /// than its child.
    pub closed spec fn wf(&self) -> bool {
        &&& forall|i: int| 0 <= i < self.scopes@.len() ==> (#[trigger] self.scopes@[i]).distinct()
        &&& well_formed(self@)
    }

    /// A well-formed arena has a well-formed model.
    pub proof fn lemma_wf(&self)
        requires
            self.wf(),
        ensures
            well_formed(self@),
    {
    }

    /// An arena with one scope, the root, which has handle 0 and binds nothing.
    pub fn new() -> (env: Env)
        ensures
            env.wf(),
            env@ == fresh(),
    {
        let mut scopes: Vec<Scope> = Vec::new();
        scopes.push(Scope { parent: None, entries: Vec::new() });
        let env = Env { scopes };
        proof {
            assert(env.scopes@[0].model().bindings =~= Map::empty());
            assert(env@ =~= fresh());
        }
        env
    }

    /// The number of scopes. The handles in use are the numbers below it.
    pub fn len(&self) -> (n: usize)
        ensures
            n == self@.len(),
    {
        self.scopes.len()
    }

    /// Adds an empty scope under `parent` and returns its handle.
    pub fn extend(&mut self, parent: usize) -> (child: usize)
        requires
            old(self).wf(),
            parent < old(self)@.len(),
        ensures
            final(self).wf(),
            child == old(self)@.len(),
            final(self)@ == extended(old(self)@, parent as nat),
    {
        let child = self.scopes.len();
        self.scopes.push(Scope { parent: Some(parent), entries: Vec::new() });
        proof {
            assert(self.scopes@[child as int].model().bindings =~= Map::empty());
            assert(self@ =~= extended(old(self)@, parent as nat));
        }
        child
    }

    /// Binds `name` to `value` in `scope` itself, replacing what `scope` bound to it
    /// before. No other scope changes.
    pub fn set(&mut self, scope: usize, name: String, value: Object)
        requires
            old(self).wf(),
            scope < old(self)@.len(),
        ensures
            final(self).wf(),
            final(self)@ == defined(old(self)@, scope as nat, name@, value@),
    {
        let ghost before = self.scopes@[scope as int];
        let found = self.scopes[scope].find(name.as_str());
        match found {
            Some(i) => {
                self.scopes[scope].entries[i].value = value;
            },
            None => {
                self.scopes[scope].entries.push(Binding { name, value });
            },
        }
        proof {
            let after = self.scopes@[scope as int];
            let key = name@;
            assert(before.distinct());
            match found {
                Some(i) => {
                    assert(after.entries@.len() == before.entries@.len());
                    assert forall|j: int| 0 <= j < after.entries@.len() implies after.entries@[j].name@
                        == before.entries@[j].name@ by {}
                },
                None => {
                    assert(after.entries@.len() == before.entries@.len() + 1);
                    assert forall|j: int| 0 <= j < before.entries@.len() implies after.entries@[j]
                        == before.entries@[j] by {}
                    assert forall|j: int| 0 <= j < before.entries@.len() implies before.entries@[j].name@
                        != key by {
                        assert(!before.holds(key, j));
                    }
                },
            }
            assert(after.distinct());
            assert forall|k: Seq<char>|
                after.model().bindings.contains_key(k) <==> before.model().bindings.insert(
                    key,
                    value@,
                ).contains_key(k) by {
                if after.model().bindings.contains_key(k) {
                    let i = choose|i: int| after.holds(k, i);
                    if k != key {
                        assert(before.holds(k, i));
                    }
                }
                if before.model().bindings.contains_key(k) {
                    let i = choose|i: int| before.holds(k, i);
                    assert(after.holds(k, i));
                }
                if k == key {
                    match found {
                        Some(i) => {
                            assert(after.holds(k, i as int));
                        },
                        None => {
                            assert(after.holds(k, before.entries@.len() as int));
                        },
                    }
                }
            }
            assert forall|k: Seq<char>| after.model().bindings.contains_key(k) implies after.model().bindings[k]
                == before.model().bindings.insert(key, value@)[k] by {
                let i = choose|i: int| after.holds(k, i);
                if k == key {
                    match found {
                        Some(j) => {
                            assert(after.holds(k, j as int));
                            assert(i == j);
                        },
                        None => {
                            assert(after.holds(k, before.entries@.len() as int));
                            assert(i == before.entries@.len());
                        },
                    }
                } else {
                    assert(before.holds(k, i));
                    let j = choose|j: int| before.holds(k, j);
                    assert(after.holds(k, j));
                    assert(i == j);
                }
            }
            assert(after.model().bindings =~= before.model().bindings.insert(key, value@));
            assert(self@ =~= defined(old(self)@, scope as nat, name@, value@));
        }
    }

    /// Discards the scopes with handles of `n` or more, if no binding of an older
    /// scope holds a closure that was made in one of them. Tells whether it did.
    ///
    /// What is left is what was there when the arena had `n` scopes, with the bindings
    /// made in those scopes since.
    pub fn release(&mut self, n: usize) -> (done: bool)
        requires
            old(self).wf(),
        ensures
            final(self).wf(),
            done == releasable(old(self)@, n as nat),
            final(self)@ == released(old(self)@, n as nat),
    {
        if n > self.scopes.len() {
            return false;
        }
        let mut s: usize = 0;
        while s < n
            invariant
                s <= n <= self.scopes.len(),
                self.wf(),
                *self == *old(self),
                !held_below(self@, s as nat, n as nat),
            decreases n - s,
        {
            if self.scopes[s].keeps(n) {
                proof {
                    lemma_held_below_grows(self@, (s + 1) as nat, n as nat, n as nat);
                }
                return false;
            }
            s += 1;
        }
        self.scopes.truncate(n);
        proof {
            assert(self@ =~= old(self)@.take(n as int));
        }
        true
    }

    /// What `name` means in `scope`, as a copy: the nearest binding on the chain from
    /// `scope` outward. Nothing if no scope on the chain binds `name`, or if `scope`
    /// is no handle of this arena.
    pub fn get(&self, scope: usize, name: &str) -> (r: Option<Object>)
        requires
            self.wf(),
        ensures
            match lookup(self@, scope as nat, name@) {
                Some(v) => r matches Some(o) && o@ == v,
                None => r is None,
            },
    {
        let mut current = scope;
        loop
            invariant
                self.wf(),
                lookup(self@, current as nat, name@) == lookup(self@, scope as nat, name@),
            decreases current,
        {
            if current >= self.scopes.len() {
                return None;
            }
            match self.scopes[current].find(name) {
                Some(i) => {
                    return Some(self.scopes[current].entries[i].value.copy());
                },
                None => {},
            }
            match self.scopes[current].parent {
                Some(p) => {
                    assert(self@[current as int].parent == Some(p as nat));
                    current = p;
                },
                None => {
                    return None;
                },
            }
        }
    }
}

/// What a binding of one of the first `k` scopes holds, a binding of one of the first
/// `m` holds, for `m` from `k` up to the number of scopes.
pub proof fn lemma_held_below_grows(env: Seq<ScopeModel>, k: nat, m: nat, n: nat)
    requires
        k <= m <= env.len(),
        held_below(env, k, n),
    ensures
        held_below(env, m, n),
    decreases m,
{
    if k < m {
        lemma_held_below_grows(env, k, (m - 1) as nat, n);
    }
}

/// Discarding the younger scopes changes nothing in the scopes that stay.
pub proof fn lemma_take_holds_the_same(env: Seq<ScopeModel>, k: nat, m: nat, n: nat)
    requires
        k <= m <= env.len(),
    ensures
        held_below(env.take(m as int), k, n) == held_below(env, k, n),
    decreases k,
{
    if k > 0 {
        lemma_take_holds_the_same(env, (k - 1) as nat, m, n);
    }
}

/// After a release nothing that is left refers to a scope that is gone: no binding
/// holds a closure that was made in a discarded scope.
pub proof fn lemma_released_holds_nothing(env: Seq<ScopeModel>, n: nat)
    requires
        releasable(env, n),
    ensures
        !held_below(released(env, n), n, n),
        released(env, n).len() == n,
{
    lemma_take_holds_the_same(env, n, n, n);
}

/// Discarding the younger scopes changes no lookup made from a scope that stays.
pub proof fn lemma_released_keeps_lookups(
    env: Seq<ScopeModel>,
    n: nat,
    from: nat,
    key: Seq<char>,
)
    requires
        well_formed(env),
        from < n <= env.len(),
    ensures
        lookup(env.take(n as int), from, key) == lookup(env, from, key),
        well_formed(env.take(n as int)),
    decreases from,
{
    match env[from as int].parent {
        Some(p) => {
            lemma_released_keeps_lookups(env, n, p, key);
        },
        None => {},
    }
}

/// A binding made in a scope is what a lookup from that scope finds.
pub proof fn lemma_defined_is_found(
    env: Seq<ScopeModel>,
    scope: nat,
    name: Seq<char>,
    value: Value,
)
    requires
        scope < env.len(),
    ensures
        lookup(defined(env, scope, name, value), scope, name) == Some(value),
{
}

/// Binding a name in a scope changes no lookup of another name, from any scope.
pub proof fn lemma_defined_keeps_other_names(
    env: Seq<ScopeModel>,
    scope: nat,
    name: Seq<char>,
    value: Value,
    from: nat,
    other: Seq<char>,
)
    requires
        scope < env.len(),
        other != name,
    ensures
        lookup(defined(env, scope, name, value), from, other) == lookup(env, from, other),
    decreases from,
{
    let after = defined(env, scope, name, value);
    if from < env.len() {
        match env[from as int].parent {
            Some(p) => {
                if p < from {
                    lemma_defined_keeps_other_names(env, scope, name, value, p, other);
                }
            },
            None => {},
        }
    }
}

/// Shadowing does not leak outward: binding a name in a scope changes no lookup made
/// from an older scope. In a well-formed arena these include the scope's parent and
/// every scope further out.
pub proof fn lemma_defined_is_local(
    env: Seq<ScopeModel>,
    scope: nat,
    name: Seq<char>,
    value: Value,
    from: nat,
    key: Seq<char>,
)
    requires
        well_formed(env),
        scope < env.len(),
        from < scope,
    ensures
        lookup(defined(env, scope, name, value), from, key) == lookup(env, from, key),
    decreases from,
{
    match env[from as int].parent {
        Some(p) => {
            lemma_defined_is_local(env, scope, name, value, p, key);
        },
        None => {},
    }
}

/// A new scope changes no lookup made from the scopes that were there before.
pub proof fn lemma_extended_keeps_lookups(
    env: Seq<ScopeModel>,
    parent: nat,
    from: nat,
    key: Seq<char>,
)
    requires
        from < env.len(),
    ensures
        lookup(extended(env, parent), from, key) == lookup(env, from, key),
    decreases from,
{
    match env[from as int].parent {
        Some(p) => {
            if p < from {
                lemma_extended_keeps_lookups(env, parent, p, key);
            }
        },
        None => {},
    }
}

/// A new scope sees exactly what its parent sees.
pub proof fn lemma_extended_inherits(env: Seq<ScopeModel>, parent: nat, key: Seq<char>)
    requires
        parent < env.len(),
    ensures
        lookup(extended(env, parent), env.len(), key) == lookup(env, parent, key),
{
    lemma_extended_keeps_lookups(env, parent, parent, key);
}

} // verus!
