use vstd::prelude::*;

use crate::builtins::{NUM_BUILTINS, builtin_name_spec, lookup};
use crate::object::{Object, RuntimeError};

verus! {

/// A scope of the tree-walking evaluator: its own bindings, no name twice,
/// and the scope it extends, if any.
#[derive(Debug)]
pub struct Environment {
    store: Vec<(String, Object)>,
    outer: Option<Box<Environment>>,
}

/// No name is bound twice.
pub open spec fn names_unique(s: Seq<(String, Object)>) -> bool {
    forall|i: int, j: int| 0 <= i < j < s.len() ==> #[trigger] s[i].0@ != #[trigger] s[j].0@
}

/// The value that a scope's own bindings give `key`.
pub open spec fn store_get(s: Seq<(String, Object)>, key: Seq<char>) -> Option<Object> {
    if exists|i: int| 0 <= i < s.len() && s[i].0@ == key {
        Some(s[choose|i: int| 0 <= i < s.len() && s[i].0@ == key].1)
    } else {
        None
    }
}

/// Whether `key` names a builtin.
pub open spec fn is_builtin_name(key: Seq<char>) -> bool {
    exists|i: usize| i < NUM_BUILTINS && builtin_name_spec(i) == key
}

proof fn lemma_store_get_at(s: Seq<(String, Object)>, i: int)
    requires
        names_unique(s),
        0 <= i < s.len(),
    ensures
        store_get(s, s[i].0@) == Some(s[i].1),
{
    let c = choose|j: int| 0 <= j < s.len() && s[j].0@ == s[i].0@;
    if c != i {
        if c < i {
            assert(s[c].0@ != s[i].0@);
        } else {
            assert(s[i].0@ != s[c].0@);
        }
    }
}

impl Environment {
    pub closed spec fn wf(&self) -> bool
        decreases self,
    {
        &&& names_unique(self.store@)
        &&& match self.outer {
            Some(o) => o.wf(),
            None => true,
        }
    }

    /// The value bound to `key` here or, failing that, in the outer scopes.
    pub closed spec fn binding(&self, key: Seq<char>) -> Option<Object>
        decreases self,
    {
        match store_get(self.store@, key) {
            Some(v) => Some(v),
            None => match self.outer {
                Some(o) => o.binding(key),
                None => None,
            },
        }
    }

    /// The names bound in this scope itself.
    pub closed spec fn own_names(&self) -> Seq<Seq<char>> {
        self.store@.map_values(|p: (String, Object)| p.0@)
    }

    /// An empty scope with no outer scope.
    pub fn new() -> (r: Environment)
        ensures
            r.wf(),
            forall|k: Seq<char>| #[trigger] r.binding(k) is None,
            r.own_names().len() == 0,
    {
        Environment { store: Vec::new(), outer: None }
    }

    /// An empty scope that extends `outer`.
    pub fn extend(outer: Environment) -> (r: Environment)
        requires
            outer.wf(),
        ensures
            r.wf(),
            forall|k: Seq<char>| #[trigger] r.binding(k) == outer.binding(k),
            r.own_names().len() == 0,
    {
        let r = Environment { store: Vec::new(), outer: Some(Box::new(outer)) };
        proof {
            assert forall|k: Seq<char>| #[trigger] r.binding(k) == outer.binding(k) by {
                assert(store_get(r.store@, k) is None);
            }
        }
        r
    }

    fn find(&self, key: &String) -> (r: Option<usize>)
        ensures
            match r {
                Some(i) => i < self.store@.len() && self.store@[i as int].0@ == key@,
                None => forall|i: int| 0 <= i < self.store@.len() ==> self.store@[i].0@ != key@,
            },
    {
        let mut i: usize = 0;
        while i < self.store.len()
            invariant
                i <= self.store@.len(),
                forall|j: int| 0 <= j < i ==> self.store@[j].0@ != key@,
            decreases self.store@.len() - i,
        {
            if self.store[i].0 == *key {
                return Some(i);
            }
            i = i + 1;
        }
        None
    }

    /// The value bound to `key` in the nearest scope that binds it.
    pub fn get(&self, key: &str) -> (r: Option<Object>)
        requires
            self.wf(),
        ensures
            r == self.binding(key@),
        decreases self,
    {
        let k = key.to_owned();
        match self.find(&k) {
            Some(i) => {
                proof {
                    lemma_store_get_at(self.store@, i as int);
                }
                Some(self.store[i].1)
            },
            None => {
                proof {
                    assert(store_get(self.store@, key@) is None);
                }
                match &self.outer {
                    Some(o) => o.get(key),
                    None => None,
                }
            },
        }
    }

    /// Binds `key` to `val` in this scope; a builtin's name cannot be bound.
    pub fn set(&mut self, key: &str, val: Object) -> (r: Result<(), RuntimeError>)
        requires
            old(self).wf(),
        ensures
            final(self).wf(),
            is_builtin_name(key@) ==> r is Err && *final(self) == *old(self)
                && (r matches Err(RuntimeError::VariableHasBeenDeclared(n)) && n@ == key@),
            !is_builtin_name(key@) ==> r is Ok && forall|k: Seq<char>| #[trigger] final(self).binding(k)
                == if k == key@ { Some(val) } else { old(self).binding(k) },
    {
        match lookup(key) {
            Some(_) => {
                return Err(RuntimeError::VariableHasBeenDeclared(key.to_owned()));
            },
            None => {},
        }
        let k = key.to_owned();
        let ghost s0 = self.store@;
        let ghost mut at: int = 0;
        match self.find(&k) {
            Some(i) => {
                self.store.set(i, (k, val));
                proof {
                    at = i as int;
                }
            },
            None => {
                self.store.push((k, val));
                proof {
                    at = s0.len() as int;
                }
            },
        }
        proof {
            let s1 = self.store@;
            assert(names_unique(s1));
            assert forall|q: Seq<char>| #[trigger] store_get(s1, q) == if q == key@ {
                Some(val)
            } else {
                store_get(s0, q)
            } by {
                if q == key@ {
                    lemma_store_get_at(s1, at);
                } else if exists|j: int| 0 <= j < s0.len() && s0[j].0@ == q {
                    let j = choose|j: int| 0 <= j < s0.len() && s0[j].0@ == q;
                    lemma_store_get_at(s0, j);
                    lemma_store_get_at(s1, j);
                } else {
                    assert(!exists|j: int| 0 <= j < s1.len() && s1[j].0@ == q);
                }
            }
            assert(self.wf());
            assert forall|q: Seq<char>| #[trigger] self.binding(q) == if q == key@ {
                Some(val)
            } else {
                old(self).binding(q)
            } by {
                assert(store_get(s1, q) == if q == key@ { Some(val) } else { store_get(s0, q) });
            }
        }
        Ok(())
    }

    /// Whether `key` is bound here or in an outer scope.
    pub fn contains(&self, key: &str) -> (r: bool)
        requires
            self.wf(),
        ensures
            r == self.binding(key@) is Some,
        decreases self,
    {
        let k = key.to_owned();
        match self.find(&k) {
            Some(i) => {
                proof {
                    lemma_store_get_at(self.store@, i as int);
                }
                true
            },
            None => {
                proof {
                    assert(store_get(self.store@, key@) is None);
                }
                match &self.outer {
                    Some(o) => o.contains(key),
                    None => false,
                }
            },
        }
    }

    /// The names bound in this scope itself.
    pub fn keys(&self) -> (r: Vec<String>)
        requires
            self.wf(),
        ensures
            r@.map_values(|s: String| s@) == self.own_names(),
            forall|i: int, j: int| 0 <= i < j < r@.len() ==> #[trigger] r@[i]@ != #[trigger] r@[j]@,
    {
        let mut r: Vec<String> = Vec::new();
        let mut i: usize = 0;
        while i < self.store.len()
            invariant
                i <= self.store@.len(),
                r@.len() == i,
                forall|j: int| 0 <= j < i ==> #[trigger] r@[j]@ == self.store@[j].0@,
            decreases self.store@.len() - i,
        {
            r.push(self.store[i].0.clone());
            i = i + 1;
        }
        proof {
            assert(r@.map_values(|s: String| s@) =~= self.own_names());
            assert(names_unique(self.store@));
            assert forall|i: int, j: int| 0 <= i < j < r@.len() implies #[trigger] r@[i]@ != #[trigger] r@[j]@ by {
                assert(self.store@[i].0@ != self.store@[j].0@);
            }
        }
        r
    }
}

} // verus!
