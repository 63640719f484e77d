use vstd::prelude::*;

use crate::code::Opcode;

verus! {

/// A runtime value. Strings, arrays, hashes, compiled functions and closures
/// live in the machine's heap and are named here by their slot there, so that
/// every alias of an array or a hash sees the same contents. Strings are
/// interned: two string slots never hold the same bytes.
#[derive(Debug, Clone, Copy, PartialEq, Eq, Structural)]
pub enum Object {
    Integer(i64),
    Boolean(bool),
    Null,
    String(usize),
    Array(usize),
    Hash(usize),
    Function(usize),
    Closure(usize),
    Builtin(usize),
}

/// The hashable projection of a primitive value.
#[derive(Debug, Clone, Copy, PartialEq, Eq, Hash, Structural)]
pub enum HashKey {
    Integer(i64),
    Boolean(bool),
    String(usize),
}

#[derive(Debug, Clone, PartialEq, Eq)]
pub enum RuntimeError {
    DivisionByZero(Object, Object),
    UnsupportedBinOperation(Opcode, Object, Object),
    UnsupportedBinOperator(Opcode),
    UnsupportedUnOperation(Opcode, Object),
    UnsupportedIndexOperation(Object, Object),
    UnsupportedHashKey(Object),
    WrongArgumentCount(usize, usize),
    CallingNonFunction,
    CustomErrMsg(String),
    VariableHasBeenDeclared(String),
    StackOverflow,
    StackUnderflow,
    FrameOverflow,
    InvalidInstruction(usize),
    InvalidReference(Object),
    InvalidLocal(usize),
    UnknownGlobal(usize),
    UnknownBuiltin(usize),
    UnknownConstant(usize),
    InvalidFree(usize),
    StepLimitReached,
}

/// `False` and `Null` are falsy; every other value, `Integer(0)` included, is truthy.
pub open spec fn is_truthy(o: Object) -> bool {
    !(o == Object::Boolean(false) || o == Object::Null)
}

/// The hash key of a primitive value; none for any other.
pub open spec fn hash_key_of(o: Object) -> Option<HashKey> {
    match o {
        Object::Integer(v) => Some(HashKey::Integer(v)),
        Object::Boolean(b) => Some(HashKey::Boolean(b)),
        Object::String(s) => Some(HashKey::String(s)),
        _ => None,
    }
}

impl Object {
    pub fn truthy(&self) -> (r: bool)
        ensures
            r == is_truthy(*self),
    {
        match self {
            Object::Boolean(b) => *b,
            Object::Null => false,
            _ => true,
        }
    }
}

impl HashKey {
    /// Derives the hash key of a value; fails with `UnsupportedHashKey` on any
    /// value that is not an integer, a boolean or a string.
    pub fn from_object(o: &Object) -> (r: Result<HashKey, RuntimeError>)
        ensures
            match hash_key_of(*o) {
                Some(k) => r == Ok::<HashKey, RuntimeError>(k),
                None => r == Err::<HashKey, RuntimeError>(RuntimeError::UnsupportedHashKey(*o)),
            },
    {
        match o {
            Object::Integer(v) => Ok(HashKey::Integer(*v)),
            Object::Boolean(b) => Ok(HashKey::Boolean(*b)),
            Object::String(s) => Ok(HashKey::String(*s)),
            _ => Err(RuntimeError::UnsupportedHashKey(*o)),
        }
    }
}

/// The decimal digits of a natural number.
pub open spec fn digits(n: nat) -> Seq<u8>
    decreases n,
{
    if n < 10 {
        seq![(48 + n) as u8]
    } else {
        digits(n / 10) + seq![(48 + n % 10) as u8]
    }
}

/// The decimal rendering of an integer, with a leading `-` when negative.
pub open spec fn decimal(v: int) -> Seq<u8> {
    if v < 0 {
        seq![45u8] + digits((-v) as nat)
    } else {
        digits(v as nat)
    }
}

fn push_digits(n: u64, out: &mut Vec<u8>)
    ensures
        final(out)@ == old(out)@ + digits(n as nat),
    decreases n,
{
    if n < 10 {
        out.push((48 + n) as u8);
    } else {
        push_digits(n / 10, out);
        out.push((48 + n % 10) as u8);
    }
    proof {
        assert(final(out)@ =~= old(out)@ + digits(n as nat));
    }
}

/// Appends the decimal rendering of `v` to `out`.
pub fn push_decimal(v: i64, out: &mut Vec<u8>)
    ensures
        final(out)@ == old(out)@ + decimal(v as int),
{
    if v < 0 {
        out.push(45u8);
        let m: u64 = (0 - (v as i128)) as u64;
        push_digits(m, out);
        proof {
            assert(final(out)@ =~= old(out)@ + decimal(v as int));
        }
    } else {
        push_digits(v as u64, out);
    }
}

} // verus!
