use vstd::prelude::*;

use crate::heap::{entries_get, keys_unique, lookup};
use crate::object::Object;
use crate::vm::{Vm, bytes_equal};

verus! {

impl Vm {
    /// Structural equality of two values: arrays element by element, hashes
    /// key by key, functions by their code and sizes, closures by their
    /// function and captured values. Elements that are themselves containers
    /// compare as handles: arrays and hashes can be made to hold themselves.
    /// Strings are interned, so their slots are equal exactly when their bytes are.
    pub open spec fn obj_eq(&self, a: Object, b: Object) -> bool {
        match (a, b) {
            (Object::Array(x), Object::Array(y)) => x == y || (x < self.arrays@.len()
                && y < self.arrays@.len() && self.arrays@[x as int]@ == self.arrays@[y as int]@),
            (Object::Hash(x), Object::Hash(y)) => x == y || (x < self.hashes@.len()
                && y < self.hashes@.len() && self.hashes@[x as int]@.len() == self.hashes@[y as int]@.len()
                && forall|i: int| 0 <= i < self.hashes@[x as int]@.len() ==>
                    lookup(self.hashes@[y as int]@, (#[trigger] self.hashes@[x as int]@[i]).0)
                        == Some(self.hashes@[x as int]@[i].1)),
            (Object::Function(x), Object::Function(y)) => x == y || (x < self.functions@.len()
                && y < self.functions@.len() && self.fn_eq(x, y)),
            (Object::Closure(x), Object::Closure(y)) => x == y || (x < self.closures@.len()
                && y < self.closures@.len()
                && self.closures@[x as int].function < self.functions@.len()
                && self.closures@[y as int].function < self.functions@.len()
                && self.fn_eq(self.closures@[x as int].function, self.closures@[y as int].function)
                && self.closures@[x as int].free@ == self.closures@[y as int].free@),
            _ => a == b,
        }
    }

    /// Two function slots hold the same code and sizes.
    pub open spec fn fn_eq(&self, x: usize, y: usize) -> bool {
        &&& self.functions@[x as int].instructions@ == self.functions@[y as int].instructions@
        &&& self.functions@[x as int].num_locals == self.functions@[y as int].num_locals
        &&& self.functions@[x as int].num_parameters == self.functions@[y as int].num_parameters
    }

    fn functions_equal(&self, x: usize, y: usize) -> (r: bool)
        requires
            x < self.functions@.len(),
            y < self.functions@.len(),
        ensures
            r == self.fn_eq(x, y),
    {
        bytes_equal(&self.functions[x].instructions, &self.functions[y].instructions)
            && self.functions[x].num_locals == self.functions[y].num_locals
            && self.functions[x].num_parameters == self.functions[y].num_parameters
    }

    /// Structural equality of two values (see `obj_eq`).
    pub fn objects_equal(&self, a: Object, b: Object) -> (r: bool)
        requires
            self.wf(),
        ensures
            r == self.obj_eq(a, b),
    {
        match (a, b) {
            (Object::Array(x), Object::Array(y)) => {
                if x == y {
                    return true;
                }
                if x >= self.arrays.len() || y >= self.arrays.len() {
                    return false;
                }
                objects_slice_equal(&self.arrays[x], &self.arrays[y])
            },
            (Object::Hash(x), Object::Hash(y)) => {
                if x == y {
                    return true;
                }
                if x >= self.hashes.len() || y >= self.hashes.len()
                    || self.hashes[x].len() != self.hashes[y].len() {
                    return false;
                }
                proof {
                    assert(keys_unique(self.hashes@[y as int]@));
                }
                let n = self.hashes[x].len();
                let mut i: usize = 0;
                while i < n
                    invariant
                        self.wf(),
                        a == Object::Hash(x),
                        b == Object::Hash(y),
                        x != y,
                        x < self.hashes@.len(),
                        y < self.hashes@.len(),
                        keys_unique(self.hashes@[y as int]@),
                        n == self.hashes@[x as int]@.len(),
                        n == self.hashes@[y as int]@.len(),
                        i <= n,
                        forall|j: int| 0 <= j < i ==>
                            lookup(self.hashes@[y as int]@, (#[trigger] self.hashes@[x as int]@[j]).0)
                                == Some(self.hashes@[x as int]@[j].1),
                    decreases n - i,
                {
                    let e = self.hashes[x][i];
                    match entries_get(&self.hashes[y], e.0) {
                        Some(w) => {
                            if w != e.1 {
                                proof {
                                    assert(self.hashes@[x as int]@[i as int] == e);
                                    assert(lookup(self.hashes@[y as int]@, self.hashes@[x as int]@[i as int].0)
                                        != Some(self.hashes@[x as int]@[i as int].1));
                                }
                                return false;
                            }
                        },
                        None => {
                            proof {
                                assert(self.hashes@[x as int]@[i as int] == e);
                                assert(lookup(self.hashes@[y as int]@, self.hashes@[x as int]@[i as int].0)
                                    != Some(self.hashes@[x as int]@[i as int].1));
                            }
                            return false;
                        },
                    }
                    i = i + 1;
                }
                true
            },
            (Object::Function(x), Object::Function(y)) => {
                if x == y {
                    return true;
                }
                x < self.functions.len() && y < self.functions.len() && self.functions_equal(x, y)
            },
            (Object::Closure(x), Object::Closure(y)) => {
                if x == y {
                    return true;
                }
                if x >= self.closures.len() || y >= self.closures.len() {
                    return false;
                }
                proof {
                    assert(self.closures@[x as int].function < self.functions@.len());
                    assert(self.closures@[y as int].function < self.functions@.len());
                }
                self.functions_equal(self.closures[x].function, self.closures[y].function)
                    && objects_slice_equal(&self.closures[x].free, &self.closures[y].free)
            },
            _ => a == b,
        }
    }
}

/// Whether two sequences of values are equal, value by value.
fn objects_slice_equal(a: &Vec<Object>, b: &Vec<Object>) -> (r: bool)
    ensures
        r == (a@ == b@),
{
    if a.len() != b.len() {
        return false;
    }
    let mut i: usize = 0;
    while i < a.len()
        invariant
            a@.len() == b@.len(),
            i <= a@.len(),
            forall|j: int| 0 <= j < i ==> a@[j] == b@[j],
        decreases a@.len() - i,
    {
        if a[i] != b[i] {
            return false;
        }
        i = i + 1;
    }
    proof {
        assert(a@ =~= b@);
    }
    true
}

} // verus!
