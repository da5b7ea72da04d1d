//! Variable scopes of the Jutsu runtime.
//!
//! A scope maps names to values; the environment is a stack of scopes, the
//! first one global and the last one innermost. A name is looked up from the
//! innermost scope outwards.
use vstd::prelude::*;

verus! {

/// One scope: its bindings in the order they were made.
#[derive(Clone)]
pub struct Scope<V> {
    entries: Vec<(String, V)>,
}

/// The map of a sequence of bindings: a later binding of a name overrides an
/// earlier one.
pub open spec fn bindings_map<V>(s: Seq<(String, V)>) -> Map<Seq<char>, V>
    decreases s.len(),
{
    if s.len() == 0 {
        Map::empty()
    } else {
        bindings_map(s.drop_last()).insert(s.last().0@, s.last().1)
    }
}

/// No binding after index `i` has the name `k`.
pub open spec fn last_binding<V>(s: Seq<(String, V)>, k: Seq<char>, i: int) -> bool {
    &&& 0 <= i < s.len()
    &&& s[i].0@ == k
    &&& forall|j: int| i < j < s.len() ==> s[j].0@ != k
}

proof fn lemma_map_last_binding<V>(s: Seq<(String, V)>, k: Seq<char>, i: int)
    requires
        last_binding(s, k, i),
    ensures
        bindings_map(s).dom().contains(k),
        bindings_map(s)[k] == s[i].1,
    decreases s.len(),
{
    if i < s.len() - 1 {
        assert(last_binding(s.drop_last(), k, i));
        lemma_map_last_binding(s.drop_last(), k, i);
    }
}

proof fn lemma_map_no_binding<V>(s: Seq<(String, V)>, k: Seq<char>)
    requires
        forall|j: int| 0 <= j < s.len() ==> s[j].0@ != k,
    ensures
        !bindings_map(s).dom().contains(k),
    decreases s.len(),
{
    if s.len() > 0 {
        lemma_map_no_binding(s.drop_last(), k);
    }
}

proof fn lemma_map_update_last<V>(s: Seq<(String, V)>, k: String, v: V, i: int)
    requires
        last_binding(s, k@, i),
    ensures
        bindings_map(s.update(i, (k, v))) == bindings_map(s).insert(k@, v),
    decreases s.len(),
{
    let t = s.update(i, (k, v));
    if i == s.len() - 1 {
        assert(t.drop_last() =~= s.drop_last());
        assert(bindings_map(t) =~= bindings_map(s).insert(k@, v));
    } else {
        assert(last_binding(s.drop_last(), k@, i));
        lemma_map_update_last(s.drop_last(), k, v, i);
        assert(t.drop_last() =~= s.drop_last().update(i, (k, v)));
        assert(bindings_map(t) =~= bindings_map(s).insert(k@, v));
    }
}

impl<V> View for Scope<V> {
    type V = Map<Seq<char>, V>;

    closed spec fn view(&self) -> Map<Seq<char>, V> {
        bindings_map(self.entries@)
    }
}

impl<V> Scope<V> {
    /// An empty scope.
    pub fn new() -> (s: Self)
        ensures
            s@ == Map::<Seq<char>, V>::empty(),
    {
        Scope { entries: Vec::new() }
    }

    /// The index of the last binding of `name`, if any.
    fn find(&self, name: &String) -> (r: Option<usize>)
        ensures
            match r {
                Some(i) => last_binding(self.entries@, name@, i as int),
                None => forall|j: int| 0 <= j < self.entries@.len() ==> self.entries@[j].0@ != name@,
            },
    {
        let mut i = self.entries.len();
        while i > 0
            invariant
                i <= self.entries.len(),
                forall|j: int| i <= j < self.entries@.len() ==> self.entries@[j].0@ != name@,
            decreases i,
        {
            if self.entries[i - 1].0 == *name {
                return Some(i - 1);
            }
            i = i - 1;
        }
        None
    }

    /// The value bound to `name`.
    pub fn get(&self, name: &String) -> (r: Option<&V>)
        ensures
            match r {
                Some(v) => self@.dom().contains(name@) && self@[name@] == *v,
                None => !self@.dom().contains(name@),
            },
    {
        match self.find(name) {
            Some(i) => {
                proof {
                    lemma_map_last_binding(self.entries@, name@, i as int);
                }
                Some(&self.entries[i].1)
            },
            None => {
                proof {
                    lemma_map_no_binding(self.entries@, name@);
                }
                None
            },
        }
    }

    /// Whether `name` is bound.
    pub fn contains(&self, name: &String) -> (b: bool)
        ensures
            b == self@.dom().contains(name@),
    {
        self.get(name).is_some()
    }

    /// Binds `name` to `value`, replacing an earlier binding.
    pub fn insert(&mut self, name: String, value: V)
        ensures
            final(self)@ == old(self)@.insert(name@, value),
    {
        match self.find(&name) {
            Some(i) => {
                proof {
                    lemma_map_update_last(self.entries@, name, value, i as int);
                }
                self.entries.set(i, (name, value));
            },
            None => {
                let ghost before = self.entries@;
                self.entries.push((name, value));
                assert(self.entries@.drop_last() =~= before);
            },
        }
    }
}

/// The value of `k` in the innermost scope that binds it.
pub open spec fn env_lookup<V>(scopes: Seq<Map<Seq<char>, V>>, k: Seq<char>) -> Option<V>
    decreases scopes.len(),
{
    if scopes.len() == 0 {
        None
    } else if scopes.last().dom().contains(k) {
        Some(scopes.last()[k])
    } else {
        env_lookup(scopes.drop_last(), k)
    }
}

/// The index of the innermost scope that binds `k`.
pub open spec fn env_binding_scope<V>(scopes: Seq<Map<Seq<char>, V>>, k: Seq<char>) -> Option<int>
    decreases scopes.len(),
{
    if scopes.len() == 0 {
        None
    } else if scopes.last().dom().contains(k) {
        Some(scopes.len() - 1)
    } else {
        env_binding_scope(scopes.drop_last(), k)
    }
}

/// The innermost binding scope is one of the scopes, and binds the name.
pub proof fn lemma_binding_scope<V>(scopes: Seq<Map<Seq<char>, V>>, k: Seq<char>)
    ensures
        env_binding_scope(scopes, k) matches Some(i) ==> 0 <= i < scopes.len()
            && scopes[i].dom().contains(k),
        env_binding_scope(scopes, k) is None <==> env_lookup(scopes, k) is None,
    decreases scopes.len(),
{
    if scopes.len() > 0 && !scopes.last().dom().contains(k) {
        lemma_binding_scope(scopes.drop_last(), k);
    }
}

/// The stack of scopes: the first is global, the last innermost.
#[derive(Clone)]
pub struct Environment<V> {
    scopes: Vec<Scope<V>>,
}

impl<V> View for Environment<V> {
    type V = Seq<Map<Seq<char>, V>>;

    closed spec fn view(&self) -> Seq<Map<Seq<char>, V>> {
        Seq::new(self.scopes@.len(), |i: int| self.scopes@[i]@)
    }
}

impl<V> Environment<V> {
    /// An environment with one empty global scope.
    pub fn new() -> (e: Self)
        ensures
            e@ == seq![Map::<Seq<char>, V>::empty()],
    {
        let mut scopes: Vec<Scope<V>> = Vec::new();
        scopes.push(Scope::new());
        let e = Environment { scopes };
        assert(e@ =~= seq![Map::<Seq<char>, V>::empty()]);
        e
    }

    /// The number of scopes.
    pub fn depth(&self) -> (n: usize)
        ensures
            n == self@.len(),
    {
        self.scopes.len()
    }

    /// Opens a new innermost scope.
    pub fn push_scope(&mut self)
        ensures
            final(self)@ == old(self)@.push(Map::empty()),
    {
        self.scopes.push(Scope::new());
        assert(self@ =~= old(self)@.push(Map::empty()));
    }

    /// Closes the innermost scope (none if there is no scope).
    pub fn pop_scope(&mut self)
        ensures
            old(self)@.len() > 0 ==> final(self)@ == old(self)@.drop_last(),
            old(self)@.len() == 0 ==> final(self)@ == old(self)@,
    {
        if self.scopes.len() > 0 {
            self.scopes.pop();
            assert(self@ =~= old(self)@.drop_last());
        }
    }

    /// The value of `name` in the innermost scope that binds it.
    pub fn get_variable(&self, name: &str) -> (r: Option<&V>)
        ensures
            match r {
                Some(v) => env_lookup(self@, name@) == Some(*v),
                None => env_lookup(self@, name@) is None,
            },
    {
        let key = String::from_str(name);
        let mut i = self.scopes.len();
        assert(self@.subrange(0, i as int) =~= self@);
        while i > 0
            invariant
                i <= self.scopes.len(),
                key@ == name@,
                env_lookup(self@, name@) == env_lookup(self@.subrange(0, i as int), name@),
            decreases i,
        {
            let ghost sub = self@.subrange(0, i as int);
            assert(sub.last() == self.scopes@[i - 1]@);
            assert(sub.drop_last() =~= self@.subrange(0, i - 1));
            match self.scopes[i - 1].get(&key) {
                Some(v) => {
                    return Some(v);
                },
                None => {},
            }
            i = i - 1;
        }
        None
    }

    /// The index of the innermost scope that binds `name`.
    pub fn binding_scope(&self, name: &str) -> (r: Option<usize>)
        ensures
            match r {
                Some(i) => env_binding_scope(self@, name@) == Some(i as int),
                None => env_binding_scope(self@, name@) is None,
            },
    {
        let key = String::from_str(name);
        let mut i = self.scopes.len();
        assert(self@.subrange(0, i as int) =~= self@);
        while i > 0
            invariant
                i <= self.scopes.len(),
                key@ == name@,
                env_binding_scope(self@, name@) == env_binding_scope(self@.subrange(0, i as int), name@),
            decreases i,
        {
            let ghost sub = self@.subrange(0, i as int);
            assert(sub.last() == self.scopes@[i - 1]@);
            assert(sub.drop_last() =~= self@.subrange(0, i - 1));
            if self.scopes[i - 1].contains(&key) {
                return Some(i - 1);
            }
            i = i - 1;
        }
        None
    }

    /// The value of `name` in scope `i` alone.
    pub fn get_in_scope(&self, i: usize, name: &str) -> (r: Option<&V>)
        ensures
            i >= self@.len() ==> r is None,
            i < self@.len() ==> match r {
                Some(v) => self@[i as int].dom().contains(name@) && self@[i as int][name@] == *v,
                None => !self@[i as int].dom().contains(name@),
            },
    {
        if i < self.scopes.len() {
            let key = String::from_str(name);
            self.scopes[i].get(&key)
        } else {
            None
        }
    }

    /// Binds `name` to `value` in scope `i` (nothing if there is no such scope).
    pub fn set_in_scope(&mut self, i: usize, name: String, value: V)
        ensures
            i < old(self)@.len() ==> final(self)@ == old(self)@.update(
                i as int,
                old(self)@[i as int].insert(name@, value),
            ),
            i >= old(self)@.len() ==> final(self)@ == old(self)@,
    {
        if i < self.scopes.len() {
            let mut scopes: Vec<Scope<V>> = Vec::new();
            std::mem::swap(&mut scopes, &mut self.scopes);
            let mut scope = scopes.remove(i);
            scope.insert(name, value);
            scopes.insert(i, scope);
            self.scopes = scopes;
            assert(self@ =~= old(self)@.update(i as int, old(self)@[i as int].insert(name@, value)));
        }
    }

    /// Binds `name` in the innermost scope (a `let`).
    pub fn define(&mut self, name: String, value: V)
        ensures
            old(self)@.len() > 0 ==> final(self)@ == old(self)@.update(
                old(self)@.len() - 1,
                old(self)@.last().insert(name@, value),
            ),
            old(self)@.len() == 0 ==> final(self)@ == old(self)@,
    {
        if self.scopes.len() > 0 {
            let last = self.scopes.len() - 1;
            self.set_in_scope(last, name, value);
        }
    }

    /// Binds `name` in the global scope.
    pub fn set_global_variable(&mut self, name: String, value: V)
        ensures
            old(self)@.len() > 0 ==> final(self)@ == old(self)@.update(0, old(self)@[0].insert(name@, value)),
            old(self)@.len() == 0 ==> final(self)@ == old(self)@,
    {
        self.set_in_scope(0, name, value);
    }

    /// Rebinds `name` in the innermost scope that binds it; `false` when no
    /// scope binds it.
    pub fn assign(&mut self, name: String, value: V) -> (found: bool)
        ensures
            found == (env_binding_scope(old(self)@, name@) is Some),
            match env_binding_scope(old(self)@, name@) {
                Some(i) => final(self)@ == old(self)@.update(i, old(self)@[i].insert(name@, value)),
                None => final(self)@ == old(self)@,
            },
    {
        proof {
            lemma_binding_scope(self@, name@);
        }
        match self.binding_scope(name.as_str()) {
            Some(i) => {
                self.set_in_scope(i, name, value);
                true
            },
            None => false,
        }
    }
}

/// A `let` binds in the innermost scope: reading the name right after gives
/// back the value just bound.
pub proof fn law_read_after_define<V>(e: Seq<Map<Seq<char>, V>>, k: Seq<char>, v: V)
    requires
        e.len() > 0,
    ensures
        env_lookup(e.update(e.len() - 1, e.last().insert(k, v)), k) == Some(v),
{
    let e2 = e.update(e.len() - 1, e.last().insert(k, v));
    assert(e2.last() == e.last().insert(k, v));
}

/// A `let` of one name leaves every other name reading as before.
pub proof fn law_define_keeps_other_names<V>(e: Seq<Map<Seq<char>, V>>, k: Seq<char>, v: V, k2: Seq<char>)
    requires
        e.len() > 0,
        k2 != k,
    ensures
        env_lookup(e.update(e.len() - 1, e.last().insert(k, v)), k2) == env_lookup(e, k2),
{
    let e2 = e.update(e.len() - 1, e.last().insert(k, v));
    assert(e2.drop_last() =~= e.drop_last());
    assert(e2.last().dom().contains(k2) == e.last().dom().contains(k2));
    if e.last().dom().contains(k2) {
        assert(e2.last()[k2] == e.last()[k2]);
    }
}

/// A block's bindings vanish with it: opening a scope, binding a name in it
/// and closing it again leaves the environment as it was.
pub proof fn law_block_scope_restores<V>(e: Seq<Map<Seq<char>, V>>, k: Seq<char>, v: V)
    ensures
        ({
            let opened = e.push(Map::<Seq<char>, V>::empty());
            let bound = opened.update(opened.len() - 1, opened.last().insert(k, v));
            bound.drop_last() == e
        }),
{
    let opened = e.push(Map::<Seq<char>, V>::empty());
    let bound = opened.update(opened.len() - 1, opened.last().insert(k, v));
    assert(bound.drop_last() =~= e);
}

/// An inner binding shadows an outer one while its scope is open.
pub proof fn law_inner_binding_shadows<V>(e: Seq<Map<Seq<char>, V>>, k: Seq<char>, v: V)
    ensures
        ({
            let opened = e.push(Map::<Seq<char>, V>::empty());
            env_lookup(opened.update(opened.len() - 1, opened.last().insert(k, v)), k) == Some(v)
        }),
{
    let opened = e.push(Map::<Seq<char>, V>::empty());
    law_read_after_define(opened, k, v);
}

/// Assigning to a bound name makes it read back the assigned value.
pub proof fn law_read_after_assign<V>(e: Seq<Map<Seq<char>, V>>, k: Seq<char>, v: V)
    requires
        env_binding_scope(e, k) is Some,
    ensures
        ({
            let i = env_binding_scope(e, k)->0;
            env_lookup(e.update(i, e[i].insert(k, v)), k) == Some(v)
        }),
    decreases e.len(),
{
    lemma_binding_scope(e, k);
    let i = env_binding_scope(e, k)->0;
    let e2 = e.update(i, e[i].insert(k, v));
    if i == e.len() - 1 {
        assert(e2.last() == e[i].insert(k, v));
    } else {
        assert(!e.last().dom().contains(k));
        assert(e2.last() == e.last());
        assert(e2.drop_last() =~= e.drop_last().update(i, e[i].insert(k, v)));
        assert(e.drop_last()[i] == e[i]);
        law_read_after_assign(e.drop_last(), k, v);
    }
}

/// A global binding is visible wherever no inner scope binds the same name.
pub proof fn law_global_visible<V>(e: Seq<Map<Seq<char>, V>>, k: Seq<char>, v: V)
    requires
        e.len() > 0,
        forall|j: int| 0 < j < e.len() ==> !e[j].dom().contains(k),
    ensures
        env_lookup(e.update(0, e[0].insert(k, v)), k) == Some(v),
    decreases e.len(),
{
    let e2 = e.update(0, e[0].insert(k, v));
    if e.len() == 1 {
        assert(e2.last() == e[0].insert(k, v));
    } else {
        assert(e2.last() == e.last());
        assert(e2.drop_last() =~= e.drop_last().update(0, e[0].insert(k, v)));
        law_global_visible(e.drop_last(), k, v);
    }
}

} // verus!
