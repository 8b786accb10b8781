use vstd::prelude::*;

verus! {

/// What one scope binds, given its entries: a later entry for a name wins (the
/// environment keeps one entry per name in each scope).
pub open spec fn scope_map<V>(es: Seq<(String, V)>) -> Map<Seq<char>, V>
    decreases es.len(),
{
    if es.len() == 0 {
        Map::empty()
    } else {
        scope_map(es.drop_last()).insert(es.last().0@, es.last().1)
    }
}

pub open spec fn unique_names<V>(es: Seq<(String, V)>) -> bool {
    forall|i: int, j: int| 0 <= i < j < es.len() ==> es[i].0@ != es[j].0@
}

/// The value bound to `k`, searching from the innermost scope outward.
pub open spec fn lookup<V>(s: Seq<Map<Seq<char>, V>>, k: Seq<char>) -> Option<V>
    decreases s.len(),
{
    if s.len() == 0 {
        None
    } else if s.last().contains_key(k) {
        Some(s.last()[k])
    } else {
        lookup(s.drop_last(), k)
    }
}

/// Index of the innermost scope that binds `k`.
pub open spec fn binding_scope<V>(s: Seq<Map<Seq<char>, V>>, k: Seq<char>) -> Option<int>
    decreases s.len(),
{
    if s.len() == 0 {
        None
    } else if s.last().contains_key(k) {
        Some(s.len() - 1)
    } else {
        binding_scope(s.drop_last(), k)
    }
}

/// The scopes after a new empty innermost scope is added.
pub open spec fn pushed<V>(s: Seq<Map<Seq<char>, V>>) -> Seq<Map<Seq<char>, V>> {
    s.push(Map::empty())
}

/// The scopes after the innermost one is removed; the global scope stays.
pub open spec fn popped<V>(s: Seq<Map<Seq<char>, V>>) -> Seq<Map<Seq<char>, V>> {
    if s.len() > 1 {
        s.drop_last()
    } else {
        s
    }
}

/// The scopes after `k` is bound to `v` in the innermost scope.
pub open spec fn defined<V>(s: Seq<Map<Seq<char>, V>>, k: Seq<char>, v: V) -> Seq<
    Map<Seq<char>, V>,
> {
    s.update(s.len() - 1, s.last().insert(k, v))
}

/// The scopes after the nearest binding of `k` is overwritten with `v`; `None` where
/// no scope binds `k`.
pub open spec fn assigned<V>(s: Seq<Map<Seq<char>, V>>, k: Seq<char>, v: V) -> Option<
    Seq<Map<Seq<char>, V>>,
> {
    match binding_scope(s, k) {
        Some(i) => Some(s.update(i, s[i].insert(k, v))),
        None => None,
    }
}

proof fn lemma_scope_map_find<V>(es: Seq<(String, V)>, i: int)
    requires
        unique_names(es),
        0 <= i < es.len(),
    ensures
        scope_map(es).contains_key(es[i].0@),
        scope_map(es)[es[i].0@] == es[i].1,
    decreases es.len(),
{
    if i < es.len() - 1 {
        lemma_scope_map_find(es.drop_last(), i);
    }
}

proof fn lemma_scope_map_absent<V>(es: Seq<(String, V)>, k: Seq<char>)
    requires
        forall|i: int| 0 <= i < es.len() ==> es[i].0@ != k,
    ensures
        !scope_map(es).contains_key(k),
    decreases es.len(),
{
    if es.len() > 0 {
        lemma_scope_map_absent(es.drop_last(), k);
    }
}

proof fn lemma_scope_map_update<V>(es: Seq<(String, V)>, i: int, e: (String, V))
    requires
        unique_names(es),
        0 <= i < es.len(),
        e.0@ == es[i].0@,
    ensures
        scope_map(es.update(i, e)) == scope_map(es).insert(e.0@, e.1),
    decreases es.len(),
{
    let u = es.update(i, e);
    if i == es.len() - 1 {
        assert(u.drop_last() =~= es.drop_last());
        assert(scope_map(u) =~= scope_map(es).insert(e.0@, e.1));
    } else {
        assert(u.drop_last() =~= es.drop_last().update(i, e));
        lemma_scope_map_update(es.drop_last(), i, e);
        assert(scope_map(u) =~= scope_map(es).insert(e.0@, e.1));
    }
}

proof fn lemma_scope_map_push<V>(es: Seq<(String, V)>, e: (String, V))
    ensures
        scope_map(es.push(e)) == scope_map(es).insert(e.0@, e.1),
{
    assert(es.push(e).drop_last() =~= es);
}

proof fn lemma_binding_scope<V>(s: Seq<Map<Seq<char>, V>>, k: Seq<char>)
    ensures
        match binding_scope(s, k) {
            Some(i) => 0 <= i < s.len() && s[i].contains_key(k) && lookup(s, k) == Some(s[i][k])
                && forall|j: int| i < j < s.len() ==> !s[j].contains_key(k),
            None => lookup(s, k) is None && forall|j: int|
                0 <= j < s.len() ==> !s[j].contains_key(k),
        },
    decreases s.len(),
{
    if s.len() > 0 {
        let t = s.drop_last();
        lemma_binding_scope(t, k);
        assert forall|j: int| 0 <= j < t.len() implies t[j] == s[j] by {}
        if !s.last().contains_key(k) {
            match binding_scope(t, k) {
                Some(i) => {
                    assert forall|j: int| i < j < s.len() implies !s[j].contains_key(k) by {
                        if j < t.len() {
                            assert(t[j] == s[j]);
                        }
                    }
                },
                None => {
                    assert forall|j: int| 0 <= j < s.len() implies !s[j].contains_key(k) by {
                        if j < t.len() {
                            assert(t[j] == s[j]);
                        }
                    }
                },
            }
        }
    }
}

/// A stack of scopes binding names to values. There is always at least the global
/// scope; lookups and assignments search from the innermost scope outward, and new
/// bindings go into the innermost scope.
pub struct Environment<V> {
    scopes: Vec<Vec<(String, V)>>,
}

impl<V> Environment<V> {
    /// The scopes, from the global one to the innermost.
    pub closed spec fn scopes(&self) -> Seq<Map<Seq<char>, V>> {
        Seq::new(self.scopes.len() as nat, |i: int| scope_map(self.scopes[i]@))
    }

    pub closed spec fn wf(&self) -> bool {
        &&& self.scopes.len() >= 1
        &&& forall|i: int| 0 <= i < self.scopes.len() ==> unique_names(#[trigger] self.scopes[i]@)
    }

    /// An environment with one empty global scope.
    pub fn new() -> (r: Environment<V>)
        ensures
            r.wf(),
            r.scopes() == seq![Map::<Seq<char>, V>::empty()],
            r.scopes().len() >= 1,
    {
        let mut scopes: Vec<Vec<(String, V)>> = Vec::new();
        scopes.push(Vec::new());
        let r = Environment { scopes };
        assert(r.scopes() =~= seq![Map::<Seq<char>, V>::empty()]);
        r
    }

    /// Adds an empty innermost scope.
    pub fn push_scope(&mut self)
        requires
            old(self).wf(),
        ensures
            final(self).wf(),
            final(self).scopes() == pushed(old(self).scopes()),
            final(self).scopes().len() >= 1,
    {
        self.scopes.push(Vec::new());
        assert(self.scopes() =~= pushed(old(self).scopes()));
    }

    /// Removes the innermost scope, unless it is the global one.
    pub fn pop_scope(&mut self)
        requires
            old(self).wf(),
        ensures
            final(self).wf(),
            final(self).scopes() == popped(old(self).scopes()),
            final(self).scopes().len() >= 1,
    {
        if self.scopes.len() > 1 {
            self.scopes.pop();
            assert(self.scopes() =~= popped(old(self).scopes()));
        }
    }

    /// A well-formed environment always has its global scope.
    pub proof fn lemma_has_global_scope(&self)
        requires
            self.wf(),
        ensures
            self.scopes().len() >= 1,
    {
    }

    /// Number of scopes, the global one included.
    pub fn current_scope_size(&self) -> (r: usize)
        ensures
            r == self.scopes().len(),
    {
        self.scopes.len()
    }
}


impl<V> Environment<V> {
    /// Position of the entry for `name` in scope `j`.
    fn find_in_scope(&self, j: usize, name: &String) -> (r: Option<usize>)
        requires
            self.wf(),
            j < self.scopes.len(),
        ensures
            match r {
                Some(i) => i < self.scopes[j as int].len() && self.scopes[j as int]@[i as int].0@
                    == name@,
                None => forall|i: int|
                    0 <= i < self.scopes[j as int].len() ==> self.scopes[j as int]@[i].0@ != name@,
            },
    {
        let mut i: usize = 0;
        while i < self.scopes[j].len()
            invariant
                j < self.scopes.len(),
                i <= self.scopes[j as int].len(),
                forall|k: int| 0 <= k < i ==> self.scopes[j as int]@[k].0@ != name@,
            decreases self.scopes[j as int].len() - i,
        {
            if self.scopes[j][i].0 == *name {
                return Some(i);
            }
            i = i + 1;
        }
        None
    }

    /// Binds `name` to `value` in the innermost scope, replacing a binding of it there.
    pub fn define(&mut self, name: String, value: V)
        requires
            old(self).wf(),
        ensures
            final(self).wf(),
            final(self).scopes() == defined(old(self).scopes(), name@, value),
            final(self).scopes().len() >= 1,
    {
        let last = self.scopes.len() - 1;
        let ghost s0 = self.scopes();
        let ghost es = self.scopes[last as int]@;
        let ghost k = name@;
        let found = self.find_in_scope(last, &name);
        let ghost e = (name, value);
        match found {
            Some(i) => {
                proof {
                    lemma_scope_map_update(es, i as int, e);
                }
                self.scopes[last][i] = (name, value);
                assert(self.scopes[last as int]@ == es.update(i as int, e));
            },
            None => {
                proof {
                    lemma_scope_map_push(es, e);
                }
                self.scopes[last].push((name, value));
                assert(self.scopes[last as int]@ == es.push(e));
            },
        }
        assert(self.scopes() =~= defined(s0, k, value));
    }
}


impl<V> Environment<V> {
    /// Innermost scope binding `key` and the position of its entry there.
    fn find(&self, key: &String) -> (r: Option<(usize, usize)>)
        requires
            self.wf(),
        ensures
            match r {
                Some((j, i)) => binding_scope(self.scopes(), key@) == Some(j as int) && j
                    < self.scopes.len() && i < self.scopes[j as int].len() && self.scopes[j as int]@[i as int].0@ == key@
                    && lookup(self.scopes(), key@) == Some(self.scopes[j as int]@[i as int].1),
                None => binding_scope(self.scopes(), key@) is None && lookup(
                    self.scopes(),
                    key@,
                ) is None,
            },
    {
        let ghost s = self.scopes();
        proof {
            lemma_binding_scope(s, key@);
        }
        let mut j = self.scopes.len();
        while j > 0
            invariant
                self.wf(),
                s == self.scopes(),
                j <= self.scopes.len(),
                forall|m: int| j <= m < self.scopes.len() ==> !s[m].contains_key(key@),
            decreases j,
        {
            j = j - 1;
            match self.find_in_scope(j, key) {
                Some(i) => {
                    proof {
                        lemma_scope_map_find(self.scopes[j as int]@, i as int);
                        assert(s[j as int] == scope_map(self.scopes[j as int]@));
                        assert(s[j as int].contains_key(key@));
                        lemma_binding_scope(s, key@);
                        match binding_scope(s, key@) {
                            Some(b) => {
                                if b < j {
                                    assert(!s[j as int].contains_key(key@));
                                } else if b > j {
                                    assert(!s[b].contains_key(key@));
                                }
                            },
                            None => {
                                assert(!s[j as int].contains_key(key@));
                            },
                        }
                    }
                    return Some((j, i));
                },
                None => {
                    proof {
                        lemma_scope_map_absent(self.scopes[j as int]@, key@);
                        assert(s[j as int] == scope_map(self.scopes[j as int]@));
                    }
                },
            }
        }
        None
    }

    /// The value bound to `name` in the nearest scope that binds it.
    pub fn get(&self, name: &str) -> (r: Option<&V>)
        requires
            self.wf(),
        ensures
            match r {
                Some(v) => lookup(self.scopes(), name@) == Some(*v),
                None => lookup(self.scopes(), name@) is None,
            },
    {
        let key = String::from_str(name);
        match self.find(&key) {
            Some((j, i)) => Some(&self.scopes[j][i].1),
            None => None,
        }
    }

    /// Overwrites the binding of `name` in the nearest scope that binds it; fails
    /// where no scope does, and never creates a binding.
    pub fn set(&mut self, name: &str, value: V) -> (r: Result<(), String>)
        requires
            old(self).wf(),
        ensures
            final(self).wf(),
            final(self).scopes().len() == old(self).scopes().len(),
            match assigned(old(self).scopes(), name@, value) {
                Some(s) => r is Ok && final(self).scopes() == s,
                None => r is Err && r->Err_0@ == "Undefined variable: "@ + name@
                    && final(self).scopes() == old(self).scopes(),
            },
    {
        let key = String::from_str(name);
        let ghost s0 = self.scopes();
        match self.find(&key) {
            Some((j, i)) => {
                let ghost es = self.scopes[j as int]@;
                let ghost e = (key, value);
                assert(unique_names(self.scopes[j as int]@));
                proof {
                    lemma_scope_map_update(es, i as int, e);
                }
                self.scopes[j][i] = (key, value);
                assert(self.scopes[j as int]@ == es.update(i as int, e));
                assert(self.scopes() =~= s0.update(j as int, s0[j as int].insert(name@, value)));
                Ok(())
            },
            None => {
                let mut m = String::from_str("Undefined variable: ");
                m.append(name);
                Err(m)
            },
        }
    }
}


/// Scoping: a name bound in a freshly pushed scope is seen there, shadowing any outer
/// binding of it, while every other name keeps its binding; once that scope is popped
/// again, all names are bound exactly as before the push, so the inner binding is
/// gone and an outer one of the same name is intact.
pub proof fn lemma_scope_shadowing<V>(s: Seq<Map<Seq<char>, V>>, k: Seq<char>, v: V)
    requires
        s.len() >= 1,
    ensures
        lookup(defined(pushed(s), k, v), k) == Some(v),
        forall|m: Seq<char>| m != k ==> lookup(defined(pushed(s), k, v), m) == lookup(s, m),
        popped(defined(pushed(s), k, v)) == s,
        forall|m: Seq<char>| lookup(popped(defined(pushed(s), k, v)), m) == lookup(s, m),
{
    let inner = defined(pushed(s), k, v);
    assert(inner.drop_last() =~= s);
    assert(inner.last() == Map::<Seq<char>, V>::empty().insert(k, v));
}


/// Assignment is local to its name: after `k` is assigned `v` where some scope binds
/// it, reading `k` gives `v`, and every other name keeps the value it had, so a
/// separately bound value is never changed through `k`.
pub proof fn lemma_assignment_is_local<V>(s: Seq<Map<Seq<char>, V>>, k: Seq<char>, v: V)
    requires
        assigned(s, k, v) is Some,
    ensures
        lookup(assigned(s, k, v)->0, k) == Some(v),
        forall|m: Seq<char>| m != k ==> lookup(assigned(s, k, v)->0, m) == lookup(s, m),
    decreases s.len(),
{
    let u = assigned(s, k, v)->0;
    let t = s.drop_last();
    if s.last().contains_key(k) {
        assert(u.drop_last() =~= t);
        assert(u.last() == s.last().insert(k, v));
        assert forall|m: Seq<char>| m != k implies lookup(u, m) == lookup(s, m) by {
            assert(u.last().contains_key(m) == s.last().contains_key(m));
        }
    } else {
        lemma_binding_scope(t, k);
        let i = binding_scope(t, k)->0;
        lemma_assignment_is_local(t, k, v);
        assert(t[i] == s[i]);
        assert(u.drop_last() =~= assigned(t, k, v)->0);
        assert(u.last() == s.last());
        assert forall|m: Seq<char>| m != k implies lookup(u, m) == lookup(s, m) by {
            assert(lookup(assigned(t, k, v)->0, m) == lookup(t, m));
            assert(u.drop_last() == assigned(t, k, v)->0);
            assert(u.len() == s.len());
        }
    }
}


/// Bindings made in the innermost scope never touch the scopes around it: after a
/// push, any run of definitions leaves every outer scope as it was, and popping then
/// gives back exactly the scopes from before the push.
pub proof fn lemma_define_keeps_outer_scopes<V>(
    s: Seq<Map<Seq<char>, V>>,
    t: Seq<Map<Seq<char>, V>>,
    k: Seq<char>,
    v: V,
)
    requires
        s.len() >= 1,
        t.len() == s.len() + 1,
        t.drop_last() == s,
    ensures
        defined(t, k, v).len() == t.len(),
        defined(t, k, v).drop_last() == s,
        popped(defined(t, k, v)) == s,
        popped(pushed(s)) == s,
{
    assert(defined(t, k, v).drop_last() =~= t.drop_last());
    assert(pushed(s).drop_last() =~= s);
}

} // verus!
