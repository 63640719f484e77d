use vstd::prelude::*;

use crate::object::{Object, RuntimeError};
use crate::vm::Vm;

verus! {

/// Number of entries in the builtin registry.
pub const NUM_BUILTINS: usize = 5;

/// The registry's names, by index: `len`, `first`, `last`, `rest`, `push`.
pub open spec fn builtin_name_spec(i: usize) -> Seq<char> {
    if i == 0 {
        "len"@
    } else if i == 1 {
        "first"@
    } else if i == 2 {
        "last"@
    } else if i == 3 {
        "rest"@
    } else {
        "push"@
    }
}

/// The name of builtin `i`.
pub fn builtin_name(i: usize) -> (r: String)
    requires
        i < NUM_BUILTINS,
    ensures
        r@ == builtin_name_spec(i),
{
    let s = if i == 0 {
        "len"
    } else if i == 1 {
        "first"
    } else if i == 2 {
        "last"
    } else if i == 3 {
        "rest"
    } else {
        "push"
    };
    s.to_owned()
}

/// The index of the builtin called `name`, if there is one.
pub fn lookup(name: &str) -> (r: Option<usize>)
    ensures
        match r {
            Some(i) => i < NUM_BUILTINS && builtin_name_spec(i) == name@,
            None => forall|i: usize| i < NUM_BUILTINS ==> builtin_name_spec(i) != name@,
        },
{
    let key = name.to_owned();
    let mut i: usize = 0;
    while i < NUM_BUILTINS
        invariant
            key@ == name@,
            i <= NUM_BUILTINS,
            forall|j: usize| j < i ==> builtin_name_spec(j) != name@,
        decreases NUM_BUILTINS - i,
    {
        let n = builtin_name(i);
        if n == key {
            return Some(i);
        }
        i = i + 1;
    }
    None
}

impl Vm {
    /// The elements of array `h`.
    pub open spec fn array_at(&self, h: usize) -> Seq<Object> {
        self.arrays@[h as int]@
    }

    /// The array slot of a value, if it is an array of the heap.
    pub open spec fn as_array(&self, o: Object) -> Option<usize> {
        match o {
            Object::Array(h) => if h < self.arrays@.len() { Some(h) } else { None },
            _ => None,
        }
    }

    /// `self` is `old` after builtin `b` was called on `args` and gave `r`.
    pub open spec fn builtin_outcome(&self, old: &Vm, b: usize, args: Seq<Object>, r: Result<Object, RuntimeError>) -> bool {
        {
            let want: usize = if b == 4 { 2 } else { 1 };
            if args.len() != want {
                r == Err::<Object, RuntimeError>(RuntimeError::WrongArgumentCount(want, args.len() as usize))
            } else {
                let a = args[0];
                if b == 0 {
                    match a {
                        Object::String(s) if s < old.strings@.len() =>
                            r == Ok::<Object, RuntimeError>(Object::Integer(old.string_at(s).len() as i64)),
                        Object::Array(h) if h < old.arrays@.len() =>
                            r == Ok::<Object, RuntimeError>(Object::Integer(old.array_at(h).len() as i64)),
                        _ => r matches Err(RuntimeError::CustomErrMsg(_)),
                    }
                } else {
                    match old.as_array(a) {
                        None => r matches Err(RuntimeError::CustomErrMsg(_)),
                        Some(h) => {
                            let items = old.array_at(h);
                            if b == 1 {
                                r == Ok::<Object, RuntimeError>(if items.len() > 0 { items[0] } else { Object::Null })
                            } else if b == 2 {
                                r == Ok::<Object, RuntimeError>(if items.len() > 0 { items.last() } else { Object::Null })
                            } else if b == 3 && items.len() == 0 {
                                r == Ok::<Object, RuntimeError>(Object::Null)
                            } else {
                                &&& r == Ok::<Object, RuntimeError>(Object::Array(old.arrays@.len() as usize))
                                &&& self.arrays@.len() == old.arrays@.len() + 1
                                &&& self.array_at(old.arrays@.len() as usize) == if b == 3 {
                                    items.subrange(1, items.len() as int)
                                } else {
                                    items.push(args[1])
                                }
                            }
                        },
                    }
                }
            }
        }
    }

    /// Calls builtin `b` on `args`.
    ///
    /// `len` gives the byte length of a string or the length of an array;
    /// `first` and `last` the first and last element of an array, `Null` for
    /// an empty one; `rest` a new array of all elements but the first, `Null`
    /// for an empty one; `push` a new array with one value added at the end.
    /// Each takes one argument but `push`, which takes two, the first an
    /// array.
    pub fn call_builtin(&mut self, b: usize, args: &Vec<Object>) -> (r: Result<Object, RuntimeError>)
        requires
            old(self).wf(),
            b < NUM_BUILTINS,
        ensures
            final(self).wf(),
            final(self).same_but_arrays(old(self)),
            old(self).arrays@.len() <= final(self).arrays@.len(),
            final(self).arrays@.subrange(0, old(self).arrays@.len() as int) == old(self).arrays@,
            final(self).builtin_outcome(old(self), b, args@, r),
            r is Err ==> *final(self) == *old(self),
    {
        proof {
            assert(self.arrays@.subrange(0, self.arrays@.len() as int) =~= self.arrays@);
        }
        let want: usize = if b == 4 { 2 } else { 1 };
        if args.len() != want {
            return Err(RuntimeError::WrongArgumentCount(want, args.len()));
        }
        let a = args[0];
        if b == 0 {
            return match a {
                Object::String(s) if s < self.strings.len() => Ok(Object::Integer(self.strings[s].len() as i64)),
                Object::Array(h) if h < self.arrays.len() => Ok(Object::Integer(self.arrays[h].len() as i64)),
                _ => Err(RuntimeError::CustomErrMsg("argument to `len` not supported".to_owned())),
            };
        }
        let h = match a {
            Object::Array(h) => h,
            _ => 0,
        };
        let is_array = match a {
            Object::Array(_) => true,
            _ => false,
        };
        if !is_array || h >= self.arrays.len() {
            return Err(RuntimeError::CustomErrMsg("argument must be an array".to_owned()));
        }
        let n = self.arrays[h].len();
        if b == 1 {
            return Ok(if n > 0 { self.arrays[h][0] } else { Object::Null });
        }
        if b == 2 {
            return Ok(if n > 0 { self.arrays[h][n - 1] } else { Object::Null });
        }
        if b == 3 && n == 0 {
            return Ok(Object::Null);
        }
        let ghost items = self.array_at(h);
        let first: usize = if b == 3 { 1 } else { 0 };
        let mut out: Vec<Object> = Vec::new();
        let mut i: usize = first;
        while i < n
            invariant
                first <= i <= n,
                n == self.arrays@[h as int]@.len(),
                h < self.arrays@.len(),
                out@ == self.arrays@[h as int]@.subrange(first as int, i as int),
            decreases n - i,
        {
            out.push(self.arrays[h][i]);
            i = i + 1;
            proof {
                assert(out@ =~= self.arrays@[h as int]@.subrange(first as int, i as int));
            }
        }
        if b == 4 {
            out.push(args[1]);
        }
        proof {
            if b == 4 {
                assert(out@ =~= items.push(args@[1]));
            }
        }
        let r = self.arrays.len();
        self.arrays.push(out);
        proof {
            assert(self.arrays@.subrange(0, old(self).arrays@.len() as int) =~= old(self).arrays@);
        }
        Ok(Object::Array(r))
    }
}

} // verus!
