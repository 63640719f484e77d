use vstd::prelude::*;

use crate::code::{Opcode, widths, widths_ok, offset, decode_operands, read_operands, opcode_of};
use crate::heap::{
    Closure, CompiledFunction, keys_unique, lookup, pairs_lookup, entries_get, entries_insert,
};
use crate::builtins::NUM_BUILTINS;
use crate::object::{HashKey, Object, RuntimeError, is_truthy, hash_key_of, decimal, push_decimal};

verus! {

/// Capacity of the operand stack.
pub const STACK_SIZE: usize = 2048;

/// Bound on the depth of the frame stack.
pub const MAX_FRAMES: usize = 1024;

/// Integers in `[0, INT_CACHE_SIZE)` are served from the small-integer cache.
pub const INT_CACHE_SIZE: usize = 256;

/// Activation record: the closure being run (a slot of the closure heap), the
/// next instruction, and the stack slot of the first local.
#[derive(Debug, Clone, Copy, PartialEq, Eq, Structural)]
pub struct Frame {
    pub closure: usize,
    pub ip: usize,
    pub base_pointer: usize,
}

impl Frame {
    pub fn new(closure: usize, base_pointer: usize) -> (r: Frame)
        ensures
            r == (Frame { closure, ip: 0, base_pointer }),
    {
        Frame { closure, ip: 0, base_pointer }
    }
}

/// A constant as the compiler emits it.
#[derive(Debug)]
pub enum Constant {
    Integer(i64),
    String(Vec<u8>),
    Function(CompiledFunction),
}

/// The virtual machine: operand stack, frames, globals, constants, the heap
/// that strings, arrays, hashes, functions and closures live in, and the
/// caches of canonical values.
pub struct Vm {
    pub constants: Vec<Object>,
    pub stack: Vec<Object>,
    pub sp: usize,
    pub frames: Vec<Frame>,
    pub globals: Vec<Object>,
    pub strings: Vec<Vec<u8>>,
    pub arrays: Vec<Vec<Object>>,
    pub hashes: Vec<Vec<(HashKey, Object)>>,
    pub functions: Vec<CompiledFunction>,
    pub closures: Vec<Closure>,
    pub int_cache: Vec<Object>,
    pub null_cache: Object,
    pub bool_cache_true: Object,
    pub bool_cache_false: Object,
}

/// The contents of each string slot, no two alike.
pub open spec fn strings_unique(s: Seq<Vec<u8>>) -> bool {
    forall|i: int, j: int| 0 <= i < j < s.len() ==> #[trigger] s[i]@ != #[trigger] s[j]@
}


/// The quotient of two integers, truncated, wrapping on the one overflow.
pub open spec fn quotient(a: i64, b: i64) -> i64 {
    match a.checked_div(b) {
        Some(q) => q,
        None => 0i64.wrapping_sub(a),
    }
}

/// The outcome of an arithmetic opcode on two integers.
pub open spec fn int_binary(op: Opcode, a: i64, b: i64) -> Result<i64, RuntimeError> {
    match op {
        Opcode::Add => Ok(a.wrapping_add(b)),
        Opcode::Sub => Ok(a.wrapping_sub(b)),
        Opcode::Mul => Ok(a.wrapping_mul(b)),
        Opcode::Div => if b == 0 {
            Err(RuntimeError::DivisionByZero(Object::Integer(a), Object::Integer(b)))
        } else {
            Ok(quotient(a, b))
        },
        _ => Err(RuntimeError::UnsupportedBinOperator(op)),
    }
}

/// The outcome of a comparison opcode on two values of machine `vm`;
/// `Equal` and `NotEqual` compare structurally.
pub open spec fn compare(vm: &Vm, op: Opcode, l: Object, r: Object) -> Result<bool, RuntimeError> {
    match (l, r) {
        (Object::Integer(a), Object::Integer(b)) => match op {
            Opcode::GreaterThan => Ok(a > b),
            Opcode::GreaterEq => Ok(a >= b),
            Opcode::LessThan => Ok(a < b),
            Opcode::LessEq => Ok(a <= b),
            Opcode::Equal => Ok(a == b),
            Opcode::NotEqual => Ok(a != b),
            _ => Err(RuntimeError::UnsupportedBinOperator(op)),
        },
        _ => match op {
            Opcode::Equal => Ok(vm.obj_eq(l, r)),
            Opcode::NotEqual => Ok(!vm.obj_eq(l, r)),
            _ => Err(RuntimeError::UnsupportedBinOperation(op, l, r)),
        },
    }
}

/// The outcome of `Not`.
pub open spec fn negation(v: Object) -> Result<bool, RuntimeError> {
    match v {
        Object::Boolean(b) => Ok(!b),
        Object::Null => Ok(true),
        _ => Err(RuntimeError::UnsupportedUnOperation(Opcode::Not, v)),
    }
}

/// Whether a pair of operands is one that `Add` concatenates.
pub open spec fn is_concat_pair(l: Object, r: Object) -> bool {
    match (l, r) {
        (Object::String(_), Object::String(_)) => true,
        (Object::Integer(_), Object::String(_)) => true,
        (Object::String(_), Object::Integer(_)) => true,
        _ => false,
    }
}

/// Global `index` set to `v`; the globals grow to `index + 1`, the new slots
/// below `index` holding `Null`.
pub open spec fn globals_set(g: Seq<Object>, index: int, v: Object) -> Seq<Object> {
    if index < g.len() {
        g.update(index, v)
    } else {
        g + Seq::new((index - g.len()) as nat, |j: int| Object::Null) + seq![v]
    }
}

/// Key and value pairs of a hash literal: the `n` alternating keys and values
/// of `w`, keys first.
pub open spec fn literal_pairs(w: Seq<Object>, n: int) -> Seq<(HashKey, Object)> {
    Seq::new(n as nat, |j: int| (hash_key_of(w[2 * j]).unwrap(), w[2 * j + 1]))
}

/// Whether every key among the `n` pairs of `w` can be hashed.
pub open spec fn literal_keys_ok(w: Seq<Object>, n: int) -> bool {
    forall|j: int| 0 <= j < n ==> (#[trigger] hash_key_of(w[2 * j])) is Some
}

/// The canonical object that `True`, `False` or `Null` pushes.
pub open spec fn literal_of(op: Opcode) -> Object {
    match op {
        Opcode::True => Object::Boolean(true),
        Opcode::False => Object::Boolean(false),
        _ => Object::Null,
    }
}

/// `new` is `old` with the current frame's instruction pointer set to `ip`.
pub open spec fn jumped(old: Vm, new: Vm, ip: int) -> bool {
    new.frames@ == old.frames@.update(old.frames@.len() - 1, Frame { ip: ip as usize, ..old.frames@.last() })
}

/// What one step takes `old` to: `new`, with outcome `r`.
///
/// The instruction at the current frame's `ip` is decoded: a byte that is
/// no opcode, or operands cut short, fail with `InvalidInstruction`; the end
/// of the root frame's code ends the run. Then the instruction pointer moves
/// past the operands and the opcode acts: `Constant`, `Pop`, `True`,
/// `False`, `Null`, the arithmetic on integers, the comparisons, `Jump`,
/// `JumpIfNotTruthy`, `GetGlobal`, `SetGlobal`, `GetLocal`, `GetFree`,
/// `ReturnValue` from a called function and `Call` of a closure as stated
/// here; the other opcodes as the contract of their handler states.
pub open spec fn step_spec(old: Vm, new: Vm, r: Result<(), RuntimeError>) -> bool {
    let f = old.frames@.last();
    let code = old.code_of(f);
    &&& (f.ip >= code.len() && old.frames@.len() == 1 ==> {
        &&& r is Ok
        &&& new.frames@.len() == 0
        &&& new.stack == old.stack
        &&& new.sp == old.sp
        &&& new.globals == old.globals
    })
    &&& (f.ip < code.len() && opcode_of(code[f.ip as int]) is None ==>
        r == Err::<(), RuntimeError>(RuntimeError::InvalidInstruction(f.ip)))
    &&& (f.ip < code.len() && opcode_of(code[f.ip as int]) is Some ==> {
        let op = opcode_of(code[f.ip as int]).unwrap();
        let ws = widths(op);
        let next = f.ip + 1 + offset(ws, ws.len() as int);
        if next > code.len() {
            r == Err::<(), RuntimeError>(RuntimeError::InvalidInstruction(f.ip))
        } else {
            let ops = decode_operands(ws, code.subrange(f.ip + 1, code.len() as int));
            let a: usize = if ops.len() > 0 { ops[0] } else { 0usize };
            let n = old.sp as int;
            let live = old.live();
            let advanced = jumped(old, new, next);
            match op {
                Opcode::Constant => if a < old.constants@.len() {
                    if n < STACK_SIZE {
                        r is Ok && new.live() == live.push(old.constants@[a as int]) && advanced
                    } else {
                        r == Err::<(), RuntimeError>(RuntimeError::StackOverflow)
                    }
                } else {
                    r == Err::<(), RuntimeError>(RuntimeError::UnknownConstant(a))
                },
                Opcode::Pop => if n > 0 {
                    r is Ok && new.live() == live.drop_last() && advanced
                } else {
                    r == Err::<(), RuntimeError>(RuntimeError::StackUnderflow)
                },
                Opcode::True | Opcode::False | Opcode::Null => if n < STACK_SIZE {
                    r is Ok && new.live() == live.push(literal_of(op)) && advanced
                } else {
                    r == Err::<(), RuntimeError>(RuntimeError::StackOverflow)
                },
                Opcode::Add | Opcode::Sub | Opcode::Mul | Opcode::Div => if n < 2 {
                    r == Err::<(), RuntimeError>(RuntimeError::StackUnderflow)
                } else {
                    match (live[n - 2], live[n - 1]) {
                        (Object::Integer(x), Object::Integer(y)) => match int_binary(op, x, y) {
                            Ok(v) => r is Ok && new.live() == live.subrange(0, n - 2).push(Object::Integer(v)) && advanced,
                            Err(e) => r == Err::<(), RuntimeError>(e),
                        },
                        _ => true,
                    }
                },
                Opcode::Equal | Opcode::NotEqual | Opcode::GreaterThan | Opcode::GreaterEq
                | Opcode::LessThan | Opcode::LessEq => if n < 2 {
                    r == Err::<(), RuntimeError>(RuntimeError::StackUnderflow)
                } else {
                    match compare(&old, op, live[n - 2], live[n - 1]) {
                        Ok(b) => r is Ok && new.live() == live.subrange(0, n - 2).push(Object::Boolean(b)) && advanced,
                        Err(e) => r == Err::<(), RuntimeError>(e),
                    }
                },
                Opcode::Jump => r is Ok && new.live() == live && jumped(old, new, a as int),
                Opcode::JumpIfNotTruthy => if n > 0 {
                    r is Ok && new.live() == live.drop_last()
                        && jumped(old, new, if is_truthy(live.last()) { next } else { a as int })
                } else {
                    r == Err::<(), RuntimeError>(RuntimeError::StackUnderflow)
                },
                Opcode::GetGlobal => match old.binding(a, false) {
                    None => r == Err::<(), RuntimeError>(RuntimeError::UnknownGlobal(a)),
                    Some(v) => if n < STACK_SIZE {
                        r is Ok && new.live() == live.push(v) && advanced
                    } else {
                        r == Err::<(), RuntimeError>(RuntimeError::StackOverflow)
                    },
                },
                Opcode::SetGlobal => if n == 0 {
                    r == Err::<(), RuntimeError>(RuntimeError::StackUnderflow)
                } else {
                    r is Ok && new.live() == live.drop_last()
                        && new.globals@ == globals_set(old.globals@, a as int, live.last()) && advanced
                },
                Opcode::GetLocal => match old.binding(a, true) {
                    None => r == Err::<(), RuntimeError>(RuntimeError::InvalidLocal(a)),
                    Some(v) => if n < STACK_SIZE {
                        r is Ok && new.live() == live.push(v) && advanced
                    } else {
                        r == Err::<(), RuntimeError>(RuntimeError::StackOverflow)
                    },
                },
                Opcode::GetFree => {
                    let free = old.closures@[f.closure as int].free@;
                    if a >= free.len() {
                        r == Err::<(), RuntimeError>(RuntimeError::InvalidFree(a))
                    } else if n < STACK_SIZE {
                        r is Ok && new.live() == live.push(free[a as int]) && advanced
                    } else {
                        r == Err::<(), RuntimeError>(RuntimeError::StackOverflow)
                    }
                },
                Opcode::ReturnValue => if n == 0 {
                    r == Err::<(), RuntimeError>(RuntimeError::StackUnderflow)
                } else if old.frames@.len() > 1 {
                    let bp = f.base_pointer;
                    if bp == 0 || bp - 1 >= n - 1 {
                        r == Err::<(), RuntimeError>(RuntimeError::StackUnderflow)
                    } else {
                        r is Ok && new.frames@ == old.frames@.drop_last()
                            && new.live() == live.subrange(0, bp - 1).push(live.last())
                    }
                } else {
                    true
                },
                Opcode::Call => a < n && (live[n - a - 1] matches Object::Closure(c) && c < old.closures@.len()) ==> {
                    let c = live[n - a - 1]->Closure_0;
                    let fun = old.function_of(c);
                    let bp = n - a;
                    if a != fun.num_parameters {
                        r == Err::<(), RuntimeError>(RuntimeError::WrongArgumentCount(fun.num_parameters, a))
                    } else if bp + fun.num_locals > STACK_SIZE {
                        r == Err::<(), RuntimeError>(RuntimeError::StackOverflow)
                    } else if old.frames@.len() >= MAX_FRAMES {
                        r == Err::<(), RuntimeError>(RuntimeError::FrameOverflow)
                    } else {
                        &&& r is Ok
                        &&& new.frames@ == old.frames@.update(old.frames@.len() - 1, Frame { ip: next as usize, ..f })
                            .push(Frame { closure: c, ip: 0, base_pointer: bp as usize })
                        &&& new.sp == bp + fun.num_locals
                        &&& forall|i: int| 0 <= i < n ==> #[trigger] new.stack@[i] == old.stack@[i]
                    }
                },
                _ => true,
            }
        }
    })
}

/// Each machine of `t` steps to the next without error.
pub open spec fn is_trace(t: Seq<Vm>) -> bool {
    forall|i: int| 0 <= i < t.len() - 1 ==> #[trigger] step_spec(t[i], t[i + 1], Ok(()))
}

impl Vm {
    pub open spec fn wf(&self) -> bool {
        &&& self.sp <= self.stack@.len() <= STACK_SIZE
        &&& self.frames@.len() <= MAX_FRAMES
        &&& forall|i: int| 0 <= i < self.frames@.len() ==> #[trigger] self.frames@[i].closure < self.closures@.len()
        &&& forall|c: int| 0 <= c < self.closures@.len() ==> #[trigger] self.closures@[c].function < self.functions@.len()
        &&& strings_unique(self.strings@)
        &&& forall|h: int| 0 <= h < self.hashes@.len() ==> keys_unique(#[trigger] self.hashes@[h]@)
        &&& self.int_cache@.len() == INT_CACHE_SIZE
        &&& forall|k: int| 0 <= k < INT_CACHE_SIZE ==> #[trigger] self.int_cache@[k] == Object::Integer(k as i64)
        &&& self.null_cache == Object::Null
        &&& self.bool_cache_true == Object::Boolean(true)
        &&& self.bool_cache_false == Object::Boolean(false)
    }

    /// The live part of the operand stack, bottom first.
    pub open spec fn live(&self) -> Seq<Object> {
        self.stack@.subrange(0, self.sp as int)
    }

    /// The bytes of string slot `s`.
    pub open spec fn string_at(&self, s: usize) -> Seq<u8> {
        self.strings@[s as int]@
    }

    /// Nothing but the operand stack differs between the two machines.
    pub open spec fn same_but_stack(&self, old: &Vm) -> bool {
        &&& self.frames == old.frames
        &&& self.globals == old.globals
        &&& self.constants == old.constants
        &&& self.strings == old.strings
        &&& self.arrays == old.arrays
        &&& self.hashes == old.hashes
        &&& self.functions == old.functions
        &&& self.closures == old.closures
        &&& self.int_cache == old.int_cache
    }

    /// Nothing but the frames differ between the two machines.
    pub open spec fn same_but_frames(&self, old: &Vm) -> bool {
        &&& self.stack == old.stack
        &&& self.sp == old.sp
        &&& self.globals == old.globals
        &&& self.constants == old.constants
        &&& self.strings == old.strings
        &&& self.arrays == old.arrays
        &&& self.hashes == old.hashes
        &&& self.functions == old.functions
        &&& self.closures == old.closures
        &&& self.int_cache == old.int_cache
    }

    /// Nothing but the arrays differ between the two machines.
    pub open spec fn same_but_arrays(&self, old: &Vm) -> bool {
        &&& self.stack == old.stack
        &&& self.sp == old.sp
        &&& self.frames == old.frames
        &&& self.globals == old.globals
        &&& self.constants == old.constants
        &&& self.strings == old.strings
        &&& self.hashes == old.hashes
        &&& self.functions == old.functions
        &&& self.closures == old.closures
        &&& self.int_cache == old.int_cache
    }

    /// The text that a value contributes to a concatenation: the bytes of a
    /// string, the decimal rendering of an integer.
    pub open spec fn text_of(&self, o: Object) -> Option<Seq<u8>> {
        match o {
            Object::Integer(v) => Some(decimal(v as int)),
            Object::String(s) => if s < self.strings@.len() {
                Some(self.string_at(s))
            } else {
                None
            },
            _ => None,
        }
    }

    /// The string slot that holds `bytes`, if any.
    pub fn find_string(&self, bytes: &Vec<u8>) -> (r: Option<usize>)
        ensures
            match r {
                Some(i) => i < self.strings@.len() && self.string_at(i) == bytes@,
                None => forall|j: int| 0 <= j < self.strings@.len() ==> self.strings@[j]@ != bytes@,
            },
    {
        let mut i: usize = 0;
        while i < self.strings.len()
            invariant
                i <= self.strings@.len(),
                forall|j: int| 0 <= j < i ==> self.strings@[j]@ != bytes@,
            decreases self.strings@.len() - i,
        {
            if bytes_equal(&self.strings[i], bytes) {
                return Some(i);
            }
            i = i + 1;
        }
        None
    }

    /// The string slot holding `bytes`: the one that already does, or a new one.
    pub fn intern(&mut self, bytes: Vec<u8>) -> (r: usize)
        requires
            old(self).wf(),
        ensures
            final(self).wf(),
            r < final(self).strings@.len(),
            final(self).string_at(r) == bytes@,
            old(self).strings@.len() <= final(self).strings@.len() <= old(self).strings@.len() + 1,
            final(self).strings@.subrange(0, old(self).strings@.len() as int) == old(self).strings@,
            final(self).stack == old(self).stack,
            final(self).sp == old(self).sp,
            final(self).frames == old(self).frames,
            final(self).globals == old(self).globals,
            final(self).constants == old(self).constants,
            final(self).arrays == old(self).arrays,
            final(self).hashes == old(self).hashes,
            final(self).functions == old(self).functions,
            final(self).closures == old(self).closures,
            final(self).int_cache == old(self).int_cache,
    {
        match self.find_string(&bytes) {
            Some(i) => {
                proof {
                    assert(self.strings@.subrange(0, self.strings@.len() as int) =~= self.strings@);
                }
                return i;
            },
            None => {},
        }
        let r = self.strings.len();
        self.strings.push(bytes);
        proof {
            assert(self.strings@.subrange(0, old(self).strings@.len() as int) =~= old(self).strings@);
            assert forall|a: int, b: int| 0 <= a < b < self.strings@.len() implies
                #[trigger] self.strings@[a]@ != #[trigger] self.strings@[b]@ by {
                if b < r {
                    assert(old(self).strings@[a]@ != old(self).strings@[b]@);
                }
            }
        }
        r
    }

    /// The text of a value for concatenation, if it has one.
    fn text(&self, o: Object) -> (r: Option<Vec<u8>>)
        ensures
            match self.text_of(o) {
                Some(t) => r is Some && r.unwrap()@ == t,
                None => r is None,
            },
    {
        match o {
            Object::Integer(v) => {
                let mut out: Vec<u8> = Vec::new();
                push_decimal(v, &mut out);
                proof {
                    assert(out@ =~= decimal(v as int));
                }
                Some(out)
            },
            Object::String(s) => {
                if s < self.strings.len() {
                    Some(copy_bytes(&self.strings[s]))
                } else {
                    None
                }
            },
            _ => None,
        }
    }

    /// Pops the right operand, then the left, and pushes the result of `op`
    /// on them: integers compute with wrapping 64-bit arithmetic, and `Add`
    /// concatenates two strings, or a string and the decimal rendering of an
    /// integer.
    pub fn execute_binary_operation(&mut self, op: &Opcode) -> (r: Result<(), RuntimeError>)
        requires
            old(self).wf(),
        ensures
            final(self).wf(),
            final(self).frames == old(self).frames,
            final(self).globals == old(self).globals,
            final(self).constants == old(self).constants,
            final(self).arrays == old(self).arrays,
            final(self).hashes == old(self).hashes,
            final(self).functions == old(self).functions,
            final(self).closures == old(self).closures,
            final(self).int_cache == old(self).int_cache,
            old(self).strings@.len() <= final(self).strings@.len(),
            final(self).strings@.subrange(0, old(self).strings@.len() as int) == old(self).strings@,
            old(self).sp < 2 ==> r == Err::<(), RuntimeError>(RuntimeError::StackUnderflow) && *final(self) == *old(self),
            old(self).sp >= 2 && r is Err ==> {
                &&& final(self).stack == old(self).stack
                &&& final(self).sp == old(self).sp - 2
                &&& final(self).same_but_stack(old(self))
            },
            old(self).sp >= 2 ==> {
                let l = old(self).live()[old(self).sp - 2];
                let rt = old(self).live()[old(self).sp - 1];
                let base = old(self).live().subrange(0, old(self).sp - 2);
                match (l, rt) {
                    (Object::Integer(a), Object::Integer(b)) => match int_binary(*op, a, b) {
                        Ok(v) => r is Ok && final(self).live() == base.push(Object::Integer(v))
                            && final(self).same_but_stack(old(self)),
                        Err(e) => r == Err::<(), RuntimeError>(e),
                    },
                    _ => if is_concat_pair(l, rt) && *op == Opcode::Add {
                        match (old(self).text_of(l), old(self).text_of(rt)) {
                            (Some(x), Some(y)) => r is Ok && final(self).live().len() == base.len() + 1
                                && final(self).live().subrange(0, base.len() as int) == base
                                && (final(self).live().last() matches Object::String(s)
                                    && s < final(self).strings@.len()
                                    && final(self).string_at(s) == x + y),
                            (None, _) => r == Err::<(), RuntimeError>(RuntimeError::InvalidReference(l)),
                            (_, None) => r == Err::<(), RuntimeError>(RuntimeError::InvalidReference(rt)),
                        }
                    } else {
                        r == Err::<(), RuntimeError>(RuntimeError::UnsupportedBinOperation(*op, l, rt))
                    },
                }
            },
    {
        proof {
            assert(self.strings@.subrange(0, self.strings@.len() as int) =~= self.strings@);
        }
        if self.sp < 2 {
            return Err(RuntimeError::StackUnderflow);
        }
        let right = self.pop_stack()?;
        let left = self.pop_stack()?;
        let ghost base = self.live();
        proof {
            assert(base =~= old(self).live().subrange(0, old(self).sp - 2));
        }
        match (left, right) {
            (Object::Integer(a), Object::Integer(b)) => {
                let v = match op {
                    Opcode::Add => a.wrapping_add(b),
                    Opcode::Sub => a.wrapping_sub(b),
                    Opcode::Mul => a.wrapping_mul(b),
                    Opcode::Div => {
                        if b == 0 {
                            return Err(RuntimeError::DivisionByZero(left, right));
                        }
                        match a.checked_div(b) {
                            Some(q) => q,
                            None => 0i64.wrapping_sub(a),
                        }
                    },
                    _ => {
                        return Err(RuntimeError::UnsupportedBinOperator(*op));
                    },
                };
                let o = self.integer_object(v);
                self.push_stack(o)
            },
            _ => {
                let concat = match (left, right) {
                    (Object::String(_), Object::String(_)) => true,
                    (Object::Integer(_), Object::String(_)) => true,
                    (Object::String(_), Object::Integer(_)) => true,
                    _ => false,
                };
                if !concat || *op != Opcode::Add {
                    return Err(RuntimeError::UnsupportedBinOperation(*op, left, right));
                }
                let x = match self.text(left) {
                    Some(x) => x,
                    None => {
                        return Err(RuntimeError::InvalidReference(left));
                    },
                };
                let y = match self.text(right) {
                    Some(y) => y,
                    None => {
                        return Err(RuntimeError::InvalidReference(right));
                    },
                };
                let joined = concat_bytes(&x, &y);
                let s = self.intern(joined);
                self.push_stack(Object::String(s))
            },
        }
    }

    /// Pops the right operand, then the left, and returns the result of the
    /// comparison `op` on them as a canonical boolean.
    pub fn execute_comparison_operation(&mut self, op: &Opcode) -> (r: Result<Object, RuntimeError>)
        requires
            old(self).wf(),
        ensures
            final(self).wf(),
            final(self).same_but_stack(old(self)),
            old(self).sp < 2 ==> r == Err::<Object, RuntimeError>(RuntimeError::StackUnderflow),
            old(self).sp >= 2 ==> {
                let l = old(self).live()[old(self).sp - 2];
                let rt = old(self).live()[old(self).sp - 1];
                &&& final(self).live() == old(self).live().subrange(0, old(self).sp - 2)
                &&& match compare(old(self), *op, l, rt) {
                    Ok(b) => r == Ok::<Object, RuntimeError>(Object::Boolean(b)),
                    Err(e) => r == Err::<Object, RuntimeError>(e),
                }
            },
    {
        let right = self.pop_stack()?;
        let left = self.pop_stack()?;
        proof {
            assert(self.live() =~= old(self).live().subrange(0, old(self).sp - 2));
        }
        match (left, right) {
            (Object::Integer(a), Object::Integer(b)) => {
                let v = match op {
                    Opcode::GreaterThan => a > b,
                    Opcode::GreaterEq => a >= b,
                    Opcode::LessThan => a < b,
                    Opcode::LessEq => a <= b,
                    Opcode::Equal => a == b,
                    Opcode::NotEqual => a != b,
                    _ => {
                        return Err(RuntimeError::UnsupportedBinOperator(*op));
                    },
                };
                Ok(self.get_bool_from_cache(v))
            },
            _ => match op {
                Opcode::Equal => {
                    let e = self.objects_equal(left, right);
                    Ok(self.get_bool_from_cache(e))
                },
                Opcode::NotEqual => {
                    let e = self.objects_equal(left, right);
                    Ok(self.get_bool_from_cache(!e))
                },
                _ => Err(RuntimeError::UnsupportedBinOperation(*op, left, right)),
            },
        }
    }

    /// Pushes the negation of `value`: `True` gives `False`, `False` and
    /// `Null` give `True`; any other value is refused.
    pub fn execute_not_expression(&mut self, value: &Object) -> (r: Result<(), RuntimeError>)
        requires
            old(self).wf(),
        ensures
            final(self).wf(),
            final(self).same_but_stack(old(self)),
            r is Err ==> *final(self) == *old(self),
            match negation(*value) {
                Ok(b) => if old(self).sp < STACK_SIZE {
                    r is Ok && final(self).live() == old(self).live().push(Object::Boolean(b))
                } else {
                    r == Err::<(), RuntimeError>(RuntimeError::StackOverflow)
                },
                Err(e) => r == Err::<(), RuntimeError>(e),
            },
    {
        match value {
            Object::Boolean(b) => {
                let o = self.get_bool_from_cache(!*b);
                self.push_stack(o)
            },
            Object::Null => {
                let o = self.bool_cache_true;
                self.push_stack(o)
            },
            _ => Err(RuntimeError::UnsupportedUnOperation(Opcode::Not, *value)),
        }
    }

    /// Pushes the wrapping negation of an integer; any other value is refused.
    pub fn execute_minus_expression(&mut self, value: &Object) -> (r: Result<(), RuntimeError>)
        requires
            old(self).wf(),
        ensures
            final(self).wf(),
            final(self).same_but_stack(old(self)),
            r is Err ==> *final(self) == *old(self),
            match *value {
                Object::Integer(v) => if old(self).sp < STACK_SIZE {
                    r is Ok && final(self).live() == old(self).live().push(Object::Integer(0i64.wrapping_sub(v)))
                } else {
                    r == Err::<(), RuntimeError>(RuntimeError::StackOverflow)
                },
                _ => r == Err::<(), RuntimeError>(RuntimeError::UnsupportedUnOperation(Opcode::Minus, *value)),
            },
    {
        match value {
            Object::Integer(v) => {
                let o = self.integer_object(0i64.wrapping_sub(*v));
                self.push_stack(o)
            },
            _ => Err(RuntimeError::UnsupportedUnOperation(Opcode::Minus, *value)),
        }
    }

    /// Slot of local `index` in the frame being run.
    pub open spec fn local_slot(&self, index: usize) -> int {
        self.frames@.last().base_pointer + index
    }

    /// The value bound to a local or a global, if any.
    pub open spec fn binding(&self, index: usize, is_local: bool) -> Option<Object> {
        if is_local {
            if self.local_slot(index) < self.stack@.len() {
                Some(self.stack@[self.local_slot(index)])
            } else {
                None
            }
        } else if index < self.globals@.len() {
            Some(self.globals@[index as int])
        } else {
            None
        }
    }

    /// The outcome of `Index` on a container and an index.
    pub open spec fn index_result(&self, c: Object, i: Object) -> Result<Object, RuntimeError> {
        match c {
            Object::Array(h) => if h >= self.arrays@.len() {
                Err(RuntimeError::InvalidReference(c))
            } else {
                match i {
                    Object::Integer(k) => if 0 <= k < self.arrays@[h as int]@.len() {
                        Ok(self.arrays@[h as int]@[k as int])
                    } else {
                        Ok(Object::Null)
                    },
                    _ => Err(RuntimeError::UnsupportedIndexOperation(c, i)),
                }
            },
            Object::Hash(h) => if h >= self.hashes@.len() {
                Err(RuntimeError::InvalidReference(c))
            } else {
                match hash_key_of(i) {
                    Some(k) => Ok(
                        match lookup(self.hashes@[h as int]@, k) {
                            Some(v) => v,
                            None => Object::Null,
                        },
                    ),
                    None => Err(RuntimeError::UnsupportedHashKey(i)),
                }
            },
            _ => Err(RuntimeError::UnsupportedIndexOperation(c, i)),
        }
    }

    /// The element of an array, or the value a hash maps a key to; `Null`
    /// where there is none.
    pub fn execute_index_operation(&self, obj: &Object, index: &Object) -> (r: Result<Object, RuntimeError>)
        requires
            self.wf(),
        ensures
            r == self.index_result(*obj, *index),
    {
        match obj {
            Object::Array(h) => {
                if *h >= self.arrays.len() {
                    return Err(RuntimeError::InvalidReference(*obj));
                }
                match index {
                    Object::Integer(k) => {
                        let items = &self.arrays[*h];
                        if 0 <= *k && (*k as u64) < (items.len() as u64) {
                            Ok(items[*k as usize])
                        } else {
                            Ok(Object::Null)
                        }
                    },
                    _ => Err(RuntimeError::UnsupportedIndexOperation(*obj, *index)),
                }
            },
            Object::Hash(h) => {
                if *h >= self.hashes.len() {
                    return Err(RuntimeError::InvalidReference(*obj));
                }
                let key = HashKey::from_object(index)?;
                proof {
                    assert(keys_unique(self.hashes@[*h as int]@));
                }
                match entries_get(&self.hashes[*h], key) {
                    Some(v) => Ok(v),
                    None => Ok(Object::Null),
                }
            },
            _ => Err(RuntimeError::UnsupportedIndexOperation(*obj, *index)),
        }
    }

    /// Replaces the top `n` values by a new array of them, bottom first.
    pub fn build_array(&mut self, n: usize) -> (r: Result<(), RuntimeError>)
        requires
            old(self).wf(),
        ensures
            final(self).wf(),
            final(self).frames == old(self).frames,
            n > old(self).sp ==> r == Err::<(), RuntimeError>(RuntimeError::StackUnderflow),
            n <= old(self).sp && old(self).sp - n >= STACK_SIZE ==> r == Err::<(), RuntimeError>(RuntimeError::StackOverflow),
            n <= old(self).sp && old(self).sp - n < STACK_SIZE ==> {
                &&& r is Ok
                &&& final(self).live() == old(self).live().subrange(0, old(self).sp - n).push(
                    Object::Array(old(self).arrays@.len() as usize))
                &&& final(self).arrays@ == old(self).arrays@.push(final(self).arrays@.last())
                &&& final(self).arrays@.last()@ == old(self).live().subrange(old(self).sp - n, old(self).sp as int)
                &&& final(self).frames == old(self).frames
                &&& final(self).globals == old(self).globals
                &&& final(self).strings == old(self).strings
                &&& final(self).hashes == old(self).hashes
                &&& final(self).functions == old(self).functions
                &&& final(self).closures == old(self).closures
            },
    {
        if n > self.sp {
            return Err(RuntimeError::StackUnderflow);
        }
        if self.sp - n >= STACK_SIZE {
            return Err(RuntimeError::StackOverflow);
        }
        let start = self.sp - n;
        let mut items: Vec<Object> = Vec::new();
        let mut i: usize = start;
        while i < self.sp
            invariant
                start <= i <= self.sp <= self.stack@.len(),
                items@ == self.stack@.subrange(start as int, i as int),
            decreases self.sp - i,
        {
            items.push(self.stack[i]);
            i = i + 1;
            proof {
                assert(items@ =~= self.stack@.subrange(start as int, i as int));
            }
        }
        let ghost base = self.live().subrange(0, start as int);
        self.sp = start;
        let h = self.arrays.len();
        self.arrays.push(items);
        proof {
            assert(self.live() =~= base);
        }
        self.push_stack(Object::Array(h))
    }

    /// Replaces the top `2 * n` values, alternating keys and values, by a new
    /// hash of them; of two equal keys the later one wins.
    pub fn build_hash(&mut self, n: usize) -> (r: Result<(), RuntimeError>)
        requires
            old(self).wf(),
        ensures
            final(self).wf(),
            final(self).frames == old(self).frames,
            n > old(self).sp / 2 ==> r == Err::<(), RuntimeError>(RuntimeError::StackUnderflow),
            n <= old(self).sp / 2 && old(self).sp - 2 * n >= STACK_SIZE ==> r == Err::<(), RuntimeError>(RuntimeError::StackOverflow),
            n <= old(self).sp / 2 && old(self).sp - 2 * n < STACK_SIZE ==> {
                let w = old(self).live().subrange(old(self).sp - 2 * n, old(self).sp as int);
                if !literal_keys_ok(w, n as int) {
                    &&& *final(self) == *old(self)
                    &&& exists|j: int| 0 <= j < n && (#[trigger] hash_key_of(w[2 * j])) is None
                        && literal_keys_ok(w, j)
                        && r == Err::<(), RuntimeError>(RuntimeError::UnsupportedHashKey(w[2 * j]))
                } else {
                    &&& r is Ok
                    &&& final(self).live() == old(self).live().subrange(0, old(self).sp - 2 * n).push(
                        Object::Hash(old(self).hashes@.len() as usize))
                    &&& final(self).hashes@ == old(self).hashes@.push(final(self).hashes@.last())
                    &&& forall|k: HashKey| #[trigger] lookup(final(self).hashes@.last()@, k)
                        == pairs_lookup(literal_pairs(w, n as int), k)
                    &&& final(self).frames == old(self).frames
                    &&& final(self).globals == old(self).globals
                    &&& final(self).strings == old(self).strings
                    &&& final(self).arrays == old(self).arrays
                    &&& final(self).functions == old(self).functions
                    &&& final(self).closures == old(self).closures
                }
            },
    {
        if n > self.sp / 2 {
            return Err(RuntimeError::StackUnderflow);
        }
        if self.sp - 2 * n >= STACK_SIZE {
            return Err(RuntimeError::StackOverflow);
        }
        let start = self.sp - 2 * n;
        let ghost w = self.live().subrange(start as int, self.sp as int);
        let mut entries: Vec<(HashKey, Object)> = Vec::new();
        let mut j: usize = 0;
        while j < n
            invariant
                self.wf(),
                start == self.sp - 2 * n,
                w == self.live().subrange(start as int, self.sp as int),
                j <= n,
                keys_unique(entries@),
                forall|q: int| 0 <= q < j ==> (#[trigger] hash_key_of(w[2 * q])) is Some,
                forall|k: HashKey| #[trigger] lookup(entries@, k)
                    == pairs_lookup(literal_pairs(w, n as int).subrange(0, j as int), k),
            decreases n - j,
        {
            let key_obj = self.stack[start + 2 * j];
            let val = self.stack[start + 2 * j + 1];
            assert(key_obj == w[2 * j]);
            let key = match HashKey::from_object(&key_obj) {
                Ok(k) => k,
                Err(e) => {
                    proof {
                        assert(hash_key_of(w[2 * j]) is None);
                        assert(literal_keys_ok(w, j as int));
                    }
                    return Err(e);
                },
            };
            let ghost before = entries@;
            entries_insert(&mut entries, key, val);
            proof {
                let p = literal_pairs(w, n as int);
                let pre = p.subrange(0, j as int);
                let post = p.subrange(0, j + 1);
                assert(post.drop_last() =~= pre);
                assert(post.last() == (key, val));
                assert forall|k: HashKey| #[trigger] lookup(entries@, k) == pairs_lookup(post, k) by {
                    assert(lookup(before, k) == pairs_lookup(pre, k));
                }
            }
            j = j + 1;
        }
        proof {
            assert(literal_pairs(w, n as int).subrange(0, n as int) =~= literal_pairs(w, n as int));
            assert(literal_keys_ok(w, n as int));
        }
        let ghost base = self.live().subrange(0, start as int);
        self.sp = start;
        let h = self.hashes.len();
        self.hashes.push(entries);
        proof {
            assert(self.live() =~= base);
        }
        self.push_stack(Object::Hash(h))
    }

    /// `self` is `old` after `SetGlobal(index)` gave `r`.
    pub open spec fn popped_to_global(&self, old: &Vm, index: usize, r: Result<(), RuntimeError>) -> bool {
        if old.sp == 0 {
            r == Err::<(), RuntimeError>(RuntimeError::StackUnderflow)
        } else {
            &&& r is Ok
            &&& self.globals@ == globals_set(old.globals@, index as int, old.live().last())
            &&& self.live() == old.live().drop_last()
            &&& self.stack == old.stack
            &&& self.frames == old.frames
            &&& self.strings == old.strings
            &&& self.arrays == old.arrays
            &&& self.hashes == old.hashes
            &&& self.functions == old.functions
            &&& self.closures == old.closures
        }
    }

    /// `self` is `old` after `SetLocal(index)` gave `r`.
    pub open spec fn popped_to_local(&self, old: &Vm, index: usize, r: Result<(), RuntimeError>) -> bool {
        if old.sp == 0 {
            r == Err::<(), RuntimeError>(RuntimeError::StackUnderflow)
        } else if old.local_slot(index) >= old.stack@.len() {
            r == Err::<(), RuntimeError>(RuntimeError::InvalidLocal(index))
        } else {
            &&& r is Ok
            &&& self.stack@ == old.stack@.update(old.local_slot(index), old.live().last())
            &&& self.sp == old.sp - 1
            &&& self.globals == old.globals
            &&& self.frames == old.frames
            &&& self.strings == old.strings
            &&& self.arrays == old.arrays
            &&& self.hashes == old.hashes
            &&& self.functions == old.functions
            &&& self.closures == old.closures
        }
    }

    /// Pops the top value into global `index`, growing the globals as needed.
    pub fn pop_and_set_global(&mut self, index: usize) -> (r: Result<(), RuntimeError>)
        requires
            old(self).wf(),
        ensures
            final(self).wf(),
            final(self).frames == old(self).frames,
            final(self).popped_to_global(old(self), index, r),
    {
        let v = self.pop_stack()?;
        let ghost g0 = self.globals@;
        while self.globals.len() < index
            invariant
                self.wf(),
                g0 == old(self).globals@,
                g0.len() <= self.globals@.len() <= if index < g0.len() { g0.len() as int } else { index as int },
                self.globals@ == g0 + Seq::new((self.globals@.len() - g0.len()) as nat, |j: int| Object::Null),
                self.live() == old(self).live().drop_last(),
                self.stack == old(self).stack,
                self.frames == old(self).frames,
                self.strings == old(self).strings,
                self.arrays == old(self).arrays,
                self.hashes == old(self).hashes,
                self.functions == old(self).functions,
                self.closures == old(self).closures,
            decreases index - self.globals@.len(),
        {
            self.globals.push(Object::Null);
            proof {
                assert(self.globals@ =~= g0 + Seq::new((self.globals@.len() - g0.len()) as nat, |j: int| Object::Null));
            }
        }
        if index < self.globals.len() {
            proof {
                if index >= g0.len() {
                    assert(false);
                }
            }
            self.globals.set(index, v);
        } else {
            self.globals.push(v);
            proof {
                assert(self.globals@ =~= globals_set(g0, index as int, v));
            }
        }
        Ok(())
    }

    /// Pops the top value into local `index` of the frame being run.
    pub fn pop_and_set_local(&mut self, index: usize) -> (r: Result<(), RuntimeError>)
        requires
            old(self).wf(),
            old(self).frames@.len() > 0,
        ensures
            final(self).wf(),
            final(self).frames == old(self).frames,
            final(self).popped_to_local(old(self), index, r),
    {
        let bp = self.current_frame().base_pointer;
        if self.sp == 0 {
            return Err(RuntimeError::StackUnderflow);
        }
        if index >= self.stack.len() || bp >= self.stack.len() - index {
            return Err(RuntimeError::InvalidLocal(index));
        }
        let v = self.pop_stack()?;
        self.stack.set(bp + index, v);
        Ok(())
    }

    /// The value of local `index` of the frame being run, if its slot exists.
    pub fn get_local(&self, index: usize) -> (r: Option<Object>)
        requires
            self.frames@.len() > 0,
        ensures
            r == self.binding(index, true),
    {
        let bp = self.current_frame().base_pointer;
        if index >= self.stack.len() || bp >= self.stack.len() - index {
            None
        } else {
            Some(self.stack[bp + index])
        }
    }

    /// Pushes local `index` of the frame being run.
    pub fn get_local_and_push(&mut self, index: usize) -> (r: Result<(), RuntimeError>)
        requires
            old(self).wf(),
            old(self).frames@.len() > 0,
        ensures
            final(self).wf(),
            final(self).same_but_stack(old(self)),
            match old(self).binding(index, true) {
                None => r == Err::<(), RuntimeError>(RuntimeError::InvalidLocal(index)),
                Some(v) => if old(self).sp < STACK_SIZE {
                    r is Ok && final(self).live() == old(self).live().push(v)
                } else {
                    r == Err::<(), RuntimeError>(RuntimeError::StackOverflow)
                },
            },
    {
        match self.get_local(index) {
            Some(v) => self.push_stack(v),
            None => Err(RuntimeError::InvalidLocal(index)),
        }
    }

    /// Pushes global `index`.
    pub fn get_global_and_push(&mut self, index: usize) -> (r: Result<(), RuntimeError>)
        requires
            old(self).wf(),
        ensures
            final(self).wf(),
            final(self).same_but_stack(old(self)),
            match old(self).binding(index, false) {
                None => r == Err::<(), RuntimeError>(RuntimeError::UnknownGlobal(index)),
                Some(v) => if old(self).sp < STACK_SIZE {
                    r is Ok && final(self).live() == old(self).live().push(v)
                } else {
                    r == Err::<(), RuntimeError>(RuntimeError::StackOverflow)
                },
            },
    {
        match self.get_global(index) {
            Some(v) => self.push_stack(v),
            None => Err(RuntimeError::UnknownGlobal(index)),
        }
    }

    /// The builtin of registry index `index`.
    pub fn get_builtin(&self, index: usize) -> (r: Result<Object, RuntimeError>)
        ensures
            index < NUM_BUILTINS ==> r == Ok::<Object, RuntimeError>(Object::Builtin(index)),
            index >= NUM_BUILTINS ==> r == Err::<Object, RuntimeError>(RuntimeError::UnknownBuiltin(index)),
    {
        if index < NUM_BUILTINS {
            Ok(Object::Builtin(index))
        } else {
            Err(RuntimeError::UnknownBuiltin(index))
        }
    }

    /// Rebinds a local or global, or assigns into the array or hash it holds.
    ///
    /// Where the variable holds an array, pops a value and then an index and
    /// stores the value at that index; where it holds a hash, pops a value and
    /// then a key and maps the key to the value. Otherwise, and where the
    /// variable does not exist yet, pops a value into it.
    pub fn execute_assign_operation_or_pop_and_set_global(&mut self, index: usize, is_local: bool) -> (r: Result<(), RuntimeError>)
        requires
            old(self).wf(),
            is_local ==> old(self).frames@.len() > 0,
        ensures
            final(self).wf(),
            final(self).frames == old(self).frames,
            match old(self).binding(index, is_local) {
                Some(Object::Array(h)) => if h >= old(self).arrays@.len() {
                    r == Err::<(), RuntimeError>(RuntimeError::InvalidReference(Object::Array(h))) && *final(self) == *old(self)
                } else if old(self).sp < 2 {
                    r == Err::<(), RuntimeError>(RuntimeError::StackUnderflow) && *final(self) == *old(self)
                } else {
                    let i = old(self).live()[old(self).sp - 2];
                    let v = old(self).live()[old(self).sp - 1];
                    &&& match i {
                        Object::Integer(k) => if 0 <= k < old(self).arrays@[h as int]@.len() {
                            &&& r is Ok
                            &&& final(self).live() == old(self).live().subrange(0, old(self).sp - 2)
                            &&& final(self).arrays@ == old(self).arrays@.update(h as int, final(self).arrays@[h as int])
                            &&& final(self).arrays@[h as int]@ == old(self).arrays@[h as int]@.update(k as int, v)
                            &&& final(self).globals == old(self).globals
                            &&& final(self).hashes == old(self).hashes
                            &&& final(self).strings == old(self).strings
                        } else {
                            r == Err::<(), RuntimeError>(RuntimeError::UnsupportedIndexOperation(Object::Array(h), i))
                        },
                        _ => r == Err::<(), RuntimeError>(RuntimeError::UnsupportedIndexOperation(Object::Array(h), i)),
                    }
                    &&& final(self).stack == old(self).stack
                    &&& final(self).sp == old(self).sp - 2
                    &&& r is Err ==> final(self).same_but_stack(old(self))
                },
                Some(Object::Hash(h)) => if h >= old(self).hashes@.len() {
                    r == Err::<(), RuntimeError>(RuntimeError::InvalidReference(Object::Hash(h))) && *final(self) == *old(self)
                } else if old(self).sp < 2 {
                    r == Err::<(), RuntimeError>(RuntimeError::StackUnderflow) && *final(self) == *old(self)
                } else {
                    let i = old(self).live()[old(self).sp - 2];
                    let v = old(self).live()[old(self).sp - 1];
                    &&& match hash_key_of(i) {
                        Some(k) => {
                            &&& r is Ok
                            &&& final(self).live() == old(self).live().subrange(0, old(self).sp - 2)
                            &&& final(self).hashes@ == old(self).hashes@.update(h as int, final(self).hashes@[h as int])
                            &&& forall|q: HashKey| #[trigger] lookup(final(self).hashes@[h as int]@, q)
                                == if q == k { Some(v) } else { lookup(old(self).hashes@[h as int]@, q) }
                            &&& final(self).globals == old(self).globals
                            &&& final(self).arrays == old(self).arrays
                            &&& final(self).strings == old(self).strings
                        },
                        None => r == Err::<(), RuntimeError>(RuntimeError::UnsupportedHashKey(i)),
                    }
                    &&& final(self).stack == old(self).stack
                    &&& final(self).sp == old(self).sp - 2
                    &&& r is Err ==> final(self).same_but_stack(old(self))
                },
                _ => if is_local {
                    final(self).popped_to_local(old(self), index, r)
                } else {
                    final(self).popped_to_global(old(self), index, r)
                },
            },
    {
        let existing = if is_local {
            self.get_local(index)
        } else {
            self.get_global(index)
        };
        match existing {
            Some(Object::Array(h)) => {
                if h >= self.arrays.len() {
                    return Err(RuntimeError::InvalidReference(Object::Array(h)));
                }
                if self.sp < 2 {
                    return Err(RuntimeError::StackUnderflow);
                }
                let v = self.pop_stack()?;
                let i = self.pop_stack()?;
                proof {
                    assert(self.live() =~= old(self).live().subrange(0, old(self).sp - 2));
                }
                match i {
                    Object::Integer(k) => {
                        if 0 <= k && (k as u64) < (self.arrays[h].len() as u64) {
                            self.arrays[h].set(k as usize, v);
                            Ok(())
                        } else {
                            Err(RuntimeError::UnsupportedIndexOperation(Object::Array(h), i))
                        }
                    },
                    _ => Err(RuntimeError::UnsupportedIndexOperation(Object::Array(h), i)),
                }
            },
            Some(Object::Hash(h)) => {
                if h >= self.hashes.len() {
                    return Err(RuntimeError::InvalidReference(Object::Hash(h)));
                }
                if self.sp < 2 {
                    return Err(RuntimeError::StackUnderflow);
                }
                let v = self.pop_stack()?;
                let i = self.pop_stack()?;
                proof {
                    assert(self.live() =~= old(self).live().subrange(0, old(self).sp - 2));
                }
                let key = HashKey::from_object(&i)?;
                proof {
                    assert(keys_unique(self.hashes@[h as int]@));
                }
                let ghost hs = self.hashes@;
                entries_insert(&mut self.hashes[h], key, v);
                proof {
                    assert forall|x: int| 0 <= x < self.hashes@.len() implies keys_unique(#[trigger] self.hashes@[x]@) by {
                        if x != h {
                            assert(self.hashes@[x] == hs[x]);
                        }
                    }
                }
                Ok(())
            },
            _ => {
                if is_local {
                    self.pop_and_set_local(index)
                } else {
                    self.pop_and_set_global(index)
                }
            },
        }
    }

    /// The code of the function that a frame runs.
    pub open spec fn code_of(&self, f: Frame) -> Seq<u8> {
        self.functions@[self.closures@[f.closure as int].function as int].instructions@
    }

    /// The compiled function that closure slot `c` runs.
    pub open spec fn function_of(&self, c: usize) -> CompiledFunction {
        self.functions@[self.closures@[c as int].function as int]
    }

    /// Calls the value that lies below the top `n` arguments.
    ///
    /// A closure gets a new frame whose locals start at its first argument,
    /// with its other locals reserved above the arguments. A builtin runs at
    /// once, and its result replaces it and its arguments.
    pub fn call_function(&mut self, n: usize) -> (r: Result<(), RuntimeError>)
        requires
            old(self).wf(),
        ensures
            final(self).wf(),
            final(self).frames@.len() >= old(self).frames@.len(),
            r is Err ==> *final(self) == *old(self),
            final(self).globals == old(self).globals,
            final(self).constants == old(self).constants,
            final(self).strings == old(self).strings,
            final(self).hashes == old(self).hashes,
            final(self).functions == old(self).functions,
            final(self).closures == old(self).closures,
            final(self).int_cache == old(self).int_cache,
            final(self).arrays@.len() >= old(self).arrays@.len(),
            final(self).arrays@.subrange(0, old(self).arrays@.len() as int) == old(self).arrays@,
            ({
                let callee = old(self).live()[old(self).sp - n - 1];
                n < old(self).sp && !(callee is Closure) ==> final(self).frames == old(self).frames
            }),
            n >= old(self).sp ==> r == Err::<(), RuntimeError>(RuntimeError::StackUnderflow),
            n < old(self).sp ==> {
                let callee = old(self).live()[old(self).sp - n - 1];
                let bp = old(self).sp - n;
                match callee {
                    Object::Closure(c) => if c >= old(self).closures@.len() {
                        r == Err::<(), RuntimeError>(RuntimeError::InvalidReference(callee))
                    } else {
                        let f = old(self).function_of(c);
                        if n != f.num_parameters {
                            r == Err::<(), RuntimeError>(RuntimeError::WrongArgumentCount(f.num_parameters, n))
                        } else if bp + f.num_locals > STACK_SIZE {
                            r == Err::<(), RuntimeError>(RuntimeError::StackOverflow)
                        } else if old(self).frames@.len() >= MAX_FRAMES {
                            r == Err::<(), RuntimeError>(RuntimeError::FrameOverflow)
                        } else {
                            &&& r is Ok
                            &&& final(self).frames@ == old(self).frames@.push(
                                Frame { closure: c, ip: 0, base_pointer: bp as usize })
                            &&& final(self).sp == bp + f.num_locals
                            &&& old(self).stack@.len() <= final(self).stack@.len()
                            &&& forall|i: int| 0 <= i < old(self).stack@.len() ==> #[trigger] final(self).stack@[i] == old(self).stack@[i]
                            &&& final(self).globals == old(self).globals
                            &&& final(self).strings == old(self).strings
                            &&& final(self).arrays == old(self).arrays
                            &&& final(self).hashes == old(self).hashes
                            &&& final(self).functions == old(self).functions
                            &&& final(self).closures == old(self).closures
                        }
                    },
                    Object::Builtin(b) => if b >= NUM_BUILTINS {
                        r == Err::<(), RuntimeError>(RuntimeError::UnknownBuiltin(b))
                    } else {
                        exists|res: Result<Object, RuntimeError>| {
                            &&& #[trigger] final(self).builtin_outcome(old(self), b, old(self).live().subrange(bp, old(self).sp as int), res)
                            &&& match res {
                                Ok(v) => r is Ok && final(self).live() == old(self).live().subrange(0, bp - 1).push(v),
                                Err(e) => r == Err::<(), RuntimeError>(e),
                            }
                        }
                    },
                    _ => r == Err::<(), RuntimeError>(RuntimeError::CallingNonFunction),
                }
            },
    {
        proof {
            assert(self.arrays@.subrange(0, self.arrays@.len() as int) =~= self.arrays@);
        }
        if n >= self.sp {
            return Err(RuntimeError::StackUnderflow);
        }
        let bp = self.sp - n;
        let callee = self.stack[bp - 1];
        match callee {
            Object::Closure(c) => {
                if c >= self.closures.len() {
                    return Err(RuntimeError::InvalidReference(callee));
                }
                let fidx = self.closures[c].function;
                let num_parameters = self.functions[fidx].num_parameters;
                let num_locals = self.functions[fidx].num_locals;
                if n != num_parameters {
                    return Err(RuntimeError::WrongArgumentCount(num_parameters, n));
                }
                if num_locals > STACK_SIZE - bp {
                    return Err(RuntimeError::StackOverflow);
                }
                if self.frames.len() >= MAX_FRAMES {
                    return Err(RuntimeError::FrameOverflow);
                }
                let new_sp = bp + num_locals;
                let ghost s0 = self.stack@;
                while self.stack.len() < new_sp
                    invariant
                        self.wf(),
                        new_sp <= STACK_SIZE,
                        s0.len() <= self.stack@.len(),
                        forall|i: int| 0 <= i < s0.len() ==> #[trigger] self.stack@[i] == s0[i],
                        self.sp == old(self).sp,
                        self.frames == old(self).frames,
                        self.globals == old(self).globals,
                        self.strings == old(self).strings,
                        self.arrays == old(self).arrays,
                        self.hashes == old(self).hashes,
                        self.functions == old(self).functions,
                        self.closures == old(self).closures,
                        self.constants == old(self).constants,
                        self.int_cache == old(self).int_cache,
                    decreases new_sp - self.stack@.len(),
                {
                    self.stack.push(Object::Null);
                }
                self.sp = new_sp;
                let pr = self.push_frame(Frame::new(c, bp));
                proof {
                    assert(self.arrays == old(self).arrays);
                    assert(self.arrays@.subrange(0, old(self).arrays@.len() as int) =~= old(self).arrays@);
                }
                pr
            },
            Object::Builtin(b) => {
                if b >= NUM_BUILTINS {
                    return Err(RuntimeError::UnknownBuiltin(b));
                }
                let mut args: Vec<Object> = Vec::new();
                let mut i: usize = bp;
                while i < self.sp
                    invariant
                        bp <= i <= self.sp <= self.stack@.len(),
                        args@ == self.stack@.subrange(bp as int, i as int),
                    decreases self.sp - i,
                {
                    args.push(self.stack[i]);
                    i = i + 1;
                    proof {
                        assert(args@ =~= self.stack@.subrange(bp as int, i as int));
                    }
                }
                proof {
                    assert(args@ =~= old(self).live().subrange(bp as int, old(self).sp as int));
                }
                let res = self.call_builtin(b, &args);
                proof {
                    assert(self.builtin_outcome(old(self), b, args@, res));
                }
                match res {
                    Ok(v) => {
                        let ghost base = old(self).live().subrange(0, bp - 1);
                        self.sp = bp - 1;
                        proof {
                            assert(self.live() =~= base);
                        }
                        let pr = self.push_stack(v);
                        proof {
                            assert(self.builtin_outcome(old(self), b, old(self).live().subrange(bp as int, old(self).sp as int), res));
                        }
                        pr
                    },
                    Err(e) => Err(e),
                }
            },
            _ => Err(RuntimeError::CallingNonFunction),
        }
    }

    /// Pops `free_count` values and pushes a new closure of the function in
    /// constant `const_index` that captures them, in the order they were pushed.
    pub fn build_closure(&mut self, const_index: usize, free_count: usize) -> (r: Result<(), RuntimeError>)
        requires
            old(self).wf(),
        ensures
            final(self).wf(),
            final(self).frames == old(self).frames,
            const_index >= old(self).constants@.len() ==> r == Err::<(), RuntimeError>(RuntimeError::UnknownConstant(const_index)),
            const_index < old(self).constants@.len() ==> {
                let k = old(self).constants@[const_index as int];
                match k {
                    Object::Function(f) => if f >= old(self).functions@.len() {
                        r == Err::<(), RuntimeError>(RuntimeError::InvalidReference(k))
                    } else if free_count > old(self).sp {
                        r == Err::<(), RuntimeError>(RuntimeError::StackUnderflow)
                    } else if old(self).sp - free_count >= STACK_SIZE {
                        r == Err::<(), RuntimeError>(RuntimeError::StackOverflow)
                    } else {
                        &&& r is Ok
                        &&& final(self).closures@ == old(self).closures@.push(final(self).closures@.last())
                        &&& final(self).closures@.last().function == f
                        &&& final(self).closures@.last().free@ == old(self).live().subrange(old(self).sp - free_count, old(self).sp as int)
                        &&& final(self).live() == old(self).live().subrange(0, old(self).sp - free_count).push(
                            Object::Closure(old(self).closures@.len() as usize))
                        &&& final(self).frames == old(self).frames
                        &&& final(self).globals == old(self).globals
                        &&& final(self).strings == old(self).strings
                        &&& final(self).arrays == old(self).arrays
                        &&& final(self).hashes == old(self).hashes
                        &&& final(self).functions == old(self).functions
                    },
                    _ => r == Err::<(), RuntimeError>(RuntimeError::InvalidReference(k)),
                }
            },
    {
        let k = match self.get_const_object(const_index) {
            Some(k) => k,
            None => {
                return Err(RuntimeError::UnknownConstant(const_index));
            },
        };
        let f = match k {
            Object::Function(f) => f,
            _ => {
                return Err(RuntimeError::InvalidReference(k));
            },
        };
        if f >= self.functions.len() {
            return Err(RuntimeError::InvalidReference(k));
        }
        if free_count > self.sp {
            return Err(RuntimeError::StackUnderflow);
        }
        if self.sp - free_count >= STACK_SIZE {
            return Err(RuntimeError::StackOverflow);
        }
        let start = self.sp - free_count;
        let mut free: Vec<Object> = Vec::new();
        let mut i: usize = start;
        while i < self.sp
            invariant
                start <= i <= self.sp <= self.stack@.len(),
                free@ == self.stack@.subrange(start as int, i as int),
            decreases self.sp - i,
        {
            free.push(self.stack[i]);
            i = i + 1;
            proof {
                assert(free@ =~= self.stack@.subrange(start as int, i as int));
            }
        }
        let ghost base = self.live().subrange(0, start as int);
        self.sp = start;
        let c = self.closures.len();
        self.closures.push(Closure { function: f, free });
        proof {
            assert(self.live() =~= base);
            assert forall|x: int| 0 <= x < self.frames@.len() implies #[trigger] self.frames@[x].closure < self.closures@.len() by {
                assert(old(self).frames@[x].closure < old(self).closures@.len());
            }
            assert forall|x: int| 0 <= x < self.closures@.len() implies #[trigger] self.closures@[x].function < self.functions@.len() by {
                if x < c {
                    assert(old(self).closures@[x].function < old(self).functions@.len());
                }
            }
        }
        self.push_stack(Object::Closure(c))
    }

    /// Pushes free value `index` of the closure being run.
    pub fn get_free(&mut self, index: usize) -> (r: Result<(), RuntimeError>)
        requires
            old(self).wf(),
            old(self).frames@.len() > 0,
        ensures
            final(self).wf(),
            final(self).same_but_stack(old(self)),
            ({
                let free = old(self).closures@[old(self).frames@.last().closure as int].free@;
                if index >= free.len() {
                    r == Err::<(), RuntimeError>(RuntimeError::InvalidFree(index))
                } else if old(self).sp >= STACK_SIZE {
                    r == Err::<(), RuntimeError>(RuntimeError::StackOverflow)
                } else {
                    r is Ok && final(self).live() == old(self).live().push(free[index as int])
                }
            }),
    {
        let c = self.current_frame().closure;
        proof {
            assert(self.frames@[self.frames@.len() - 1].closure < self.closures@.len());
        }
        if index >= self.closures[c].free.len() {
            return Err(RuntimeError::InvalidFree(index));
        }
        let v = self.closures[c].free[index];
        self.push_stack(v)
    }

    /// The big-endian 16-bit operand at `start`.
    pub fn read_u16(&self, insts: &[u8], start: usize) -> (r: usize)
        requires
            start + 1 < insts@.len(),
        ensures
            r == insts@[start as int] as usize * 0x100 + insts@[start + 1] as usize,
    {
        insts[start] as usize * 0x100 + insts[start + 1] as usize
    }

    /// The 8-bit operand at `start`.
    pub fn _read_u8(&self, insts: &[u8], start: usize) -> (r: usize)
        requires
            start < insts@.len(),
        ensures
            r == insts@[start as int] as usize,
    {
        insts[start] as usize
    }

    /// The first operand of `op` at `ip` in the code being run, and the
    /// number of bytes that all of `op`'s operands take.
    pub fn read_usize(&self, op: Opcode, ip: usize) -> (r: (usize, usize))
        requires
            self.wf(),
            self.frames@.len() > 0,
            widths(op).len() > 0,
            ip + offset(widths(op), widths(op).len() as int) <= self.code_of(self.frames@.last()).len(),
        ensures
            ({
                let code = self.code_of(self.frames@.last());
                r.0 == decode_operands(widths(op), code.subrange(ip as int, code.len() as int))[0]
            }),
            r.1 == offset(widths(op), widths(op).len() as int),
    {
        let frame = self.current_frame();
        proof {
            assert(self.frames@[self.frames@.len() - 1].closure < self.closures@.len());
            crate::code::lemma_widths_ok(op);
        }
        let fidx = self.closures[frame.closure].function;
        let def = op.definition();
        let (operands, n) = read_operands(&def, self.functions[fidx].instructions.as_slice(), ip);
        (operands[0], n)
    }

    /// The jump of `JumpIfNotTruthy` whose operand stands at `ip` in `ins`:
    /// past the operand when the tested value was truthy, else to its target.
    pub fn jump_if(&mut self, truthy: bool, ins: &[u8], ip: usize)
        requires
            old(self).wf(),
            old(self).frames@.len() > 0,
            ip + 1 < ins@.len(),
            old(self).frames@.last().ip + 2 <= usize::MAX,
        ensures
            final(self).wf(),
            final(self).same_but_frames(old(self)),
            final(self).frames@ == old(self).frames@.update(
                old(self).frames@.len() - 1,
                Frame {
                    ip: if truthy {
                        (old(self).frames@.last().ip + 2) as usize
                    } else {
                        (ins@[ip as int] as usize * 0x100 + ins@[ip + 1] as usize) as usize
                    },
                    ..old(self).frames@.last()
                },
            ),
    {
        if truthy {
            self.current_frame_ip_inc(2);
        } else {
            let target = self.read_u16(ins, ip);
            self.set_ip(target);
        }
    }

    /// `o` is what the machine made of constant `c` when it loaded it.
    pub open spec fn loaded(&self, c: Constant, o: Object) -> bool {
        match c {
            Constant::Integer(v) => o == Object::Integer(v),
            Constant::String(s) => o matches Object::String(h) && h < self.strings@.len() && self.string_at(h) == s@,
            Constant::Function(f) => o matches Object::Function(h) && h < self.functions@.len()
                && self.functions@[h as int].instructions@ == f.instructions@
                && self.functions@[h as int].num_locals == f.num_locals
                && self.functions@[h as int].num_parameters == f.num_parameters,
        }
    }

    /// A machine with nothing in its heap, stack, frames or globals.
    pub fn empty() -> (r: Vm)
        ensures
            r.wf(),
            r.sp == 0,
            r.stack@.len() == 0,
            r.frames@.len() == 0,
            r.globals@.len() == 0,
            r.constants@.len() == 0,
            r.strings@.len() == 0,
            r.arrays@.len() == 0,
            r.hashes@.len() == 0,
            r.functions@.len() == 0,
            r.closures@.len() == 0,
    {
        let mut int_cache: Vec<Object> = Vec::new();
        let mut k: usize = 0;
        while k < INT_CACHE_SIZE
            invariant
                k <= INT_CACHE_SIZE,
                int_cache@.len() == k,
                forall|j: int| 0 <= j < k ==> #[trigger] int_cache@[j] == Object::Integer(j as i64),
            decreases INT_CACHE_SIZE - k,
        {
            int_cache.push(Object::Integer(k as i64));
            k = k + 1;
        }
        Vm {
            constants: Vec::new(),
            stack: Vec::new(),
            sp: 0,
            frames: Vec::new(),
            globals: Vec::new(),
            strings: Vec::new(),
            arrays: Vec::new(),
            hashes: Vec::new(),
            functions: Vec::new(),
            closures: Vec::new(),
            int_cache,
            null_cache: Object::Null,
            bool_cache_true: Object::Boolean(true),
            bool_cache_false: Object::Boolean(false),
        }
    }

    /// A machine ready to run `instructions` with `constants`.
    pub fn new(instructions: Vec<u8>, constants: &Vec<Constant>) -> (r: Vm)
        ensures
            r.wf(),
            r.sp == 0,
            r.globals@.len() == 0,
            r.frames@.len() == 1,
            r.frames@[0].ip == 0,
            r.frames@[0].base_pointer == 0,
            r.code_of(r.frames@[0]) == instructions@,
            r.constants@.len() == constants@.len(),
            forall|i: int| 0 <= i < constants@.len() ==> r.loaded(#[trigger] constants@[i], r.constants@[i]),
    {
        Vm::with_globals(Vm::empty(), instructions, constants)
    }

    /// A machine ready to run `instructions` with `constants` that keeps the
    /// globals of `prev`, and the heap they refer to.
    pub fn with_globals(prev: Vm, instructions: Vec<u8>, constants: &Vec<Constant>) -> (r: Vm)
        requires
            prev.wf(),
        ensures
            r.wf(),
            r.sp == 0,
            r.globals == prev.globals,
            r.frames@.len() == 1,
            r.frames@[0].ip == 0,
            r.frames@[0].base_pointer == 0,
            r.code_of(r.frames@[0]) == instructions@,
            r.constants@.len() == constants@.len(),
            forall|i: int| 0 <= i < constants@.len() ==> r.loaded(#[trigger] constants@[i], r.constants@[i]),
    {
        let mut vm = prev;
        vm.stack = Vec::new();
        vm.sp = 0;
        vm.frames = Vec::new();
        vm.constants = Vec::new();
        let ghost g = vm.globals;
        let mut i: usize = 0;
        while i < constants.len()
            invariant
                vm.wf(),
                vm.sp == 0,
                vm.frames@.len() == 0,
                vm.globals == g,
                i <= constants@.len(),
                vm.constants@.len() == i,
                forall|j: int| 0 <= j < i ==> vm.loaded(#[trigger] constants@[j], vm.constants@[j]),
            decreases constants@.len() - i,
        {
            let ghost before = vm;
            let o = match &constants[i] {
                Constant::Integer(v) => Object::Integer(*v),
                Constant::String(s) => {
                    let h = vm.intern(copy_bytes(s));
                    proof {
                        assert forall|x: int| 0 <= x < before.strings@.len() implies vm.strings@[x] == before.strings@[x] by {
                            assert(vm.strings@.subrange(0, before.strings@.len() as int)[x] == before.strings@[x]);
                        }
                    }
                    Object::String(h)
                },
                Constant::Function(f) => {
                    let h = vm.functions.len();
                    vm.functions.push(CompiledFunction {
                        instructions: copy_bytes(&f.instructions),
                        num_locals: f.num_locals,
                        num_parameters: f.num_parameters,
                    });
                    proof {
                        assert forall|x: int| 0 <= x < vm.closures@.len() implies #[trigger] vm.closures@[x].function < vm.functions@.len() by {
                            assert(before.closures@[x].function < before.functions@.len());
                        }
                    }
                    Object::Function(h)
                },
            };
            proof {
                assert(vm.loaded(constants@[i as int], o));
                assert(before.strings@.len() <= vm.strings@.len());
                assert(forall|x: int| 0 <= x < before.strings@.len() ==> vm.strings@[x] == before.strings@[x]);
                assert(before.functions@.len() <= vm.functions@.len());
                assert(forall|x: int| 0 <= x < before.functions@.len() ==> vm.functions@[x] == before.functions@[x]);
            }
            vm.constants.push(o);
            proof {
                assert forall|j: int| 0 <= j < i + 1 implies vm.loaded(#[trigger] constants@[j], vm.constants@[j]) by {
                    if j < i {
                        assert(before.loaded(constants@[j], before.constants@[j]));
                        match constants@[j] {
                            Constant::String(s) => {
                                let h = before.constants@[j]->String_0;
                                assert(vm.strings@[h as int] == before.strings@[h as int]);
                            },
                            Constant::Function(f) => {
                                let h = before.constants@[j]->Function_0;
                                assert(vm.functions@[h as int] == before.functions@[h as int]);
                            },
                            _ => {},
                        }
                    }
                }
            }
            i = i + 1;
        }
        let fidx = vm.functions.len();
        vm.functions.push(CompiledFunction { instructions, num_locals: 0, num_parameters: 0 });
        let c = vm.closures.len();
        vm.closures.push(Closure { function: fidx, free: Vec::new() });
        vm.frames.push(Frame::new(c, 0));
        proof {
            assert forall|j: int| 0 <= j < constants@.len() implies vm.loaded(#[trigger] constants@[j], vm.constants@[j]) by {
                match constants@[j] {
                    Constant::Function(f) => {
                        let h = vm.constants@[j]->Function_0;
                        assert(h < fidx);
                    },
                    _ => {},
                }
            }
            assert forall|x: int| 0 <= x < vm.closures@.len() implies #[trigger] vm.closures@[x].function < vm.functions@.len() by {
                if x < c {
                    assert(vm.closures@[x] == vm.closures@.drop_last()[x]);
                }
            }
        }
        vm
    }

    /// Leaves the frame being run with `value` as its result. The root frame
    /// leaves the value in the slot of the last popped element; any other
    /// frame drops its locals, arguments and callee and pushes the value.
    fn return_from_frame(&mut self, value: Object) -> (r: Result<(), RuntimeError>)
        requires
            old(self).wf(),
            old(self).frames@.len() > 0,
        ensures
            final(self).wf(),
            final(self).frames@ == old(self).frames@.drop_last(),
            r is Ok && final(self).frames@.len() == 0 ==> final(self).sp < final(self).stack@.len()
                && final(self).stack@[final(self).sp as int] == value,
            final(self).globals == old(self).globals,
            old(self).frames@.len() > 1 ==> {
                let bp = old(self).frames@.last().base_pointer;
                if bp == 0 || bp - 1 >= old(self).sp {
                    r == Err::<(), RuntimeError>(RuntimeError::StackUnderflow)
                } else {
                    r is Ok && final(self).live() == old(self).live().subrange(0, bp - 1).push(value)
                }
            },
    {
        let frame = self.pop_frame();
        if self.frames.len() == 0 {
            self.push_stack(value)?;
            self.pop_stack()?;
            return Ok(());
        }
        let bp = frame.base_pointer;
        if bp == 0 || bp - 1 >= self.sp {
            return Err(RuntimeError::StackUnderflow);
        }
        let ghost base = old(self).live().subrange(0, bp - 1);
        self.sp = bp - 1;
        proof {
            assert(self.live() =~= base);
        }
        self.push_stack(value)
    }

    /// The number of bytes that operands of widths `def` take.
    fn operands_width(def: &Vec<usize>) -> (r: usize)
        requires
            widths_ok(def@),
            def@.len() <= 2,
        ensures
            r == offset(def@, def@.len() as int),
            r <= 4,
    {
        let mut w: usize = 0;
        let mut i: usize = 0;
        while i < def.len()
            invariant
                widths_ok(def@),
                def@.len() <= 2,
                i <= def@.len(),
                w == offset(def@, i as int),
                w <= 2 * i,
            decreases def@.len() - i,
        {
            w = w + def[i];
            i = i + 1;
        }
        w
    }

    /// Fetches, decodes and executes one instruction of the frame being run.
    /// Running off the end of a function's code returns `Null` from it; at the
    /// end of the root frame's code the run is over.
    #[verifier::rlimit(100)]
    pub fn step(&mut self) -> (r: Result<(), RuntimeError>)
        requires
            old(self).wf(),
            old(self).frames@.len() > 0,
        ensures
            final(self).wf(),
            step_spec(*old(self), *final(self), r),
    {
        let frame = self.current_frame();
        proof {
            assert(self.frames@[self.frames@.len() - 1].closure < self.closures@.len());
        }
        let fidx = self.closures[frame.closure].function;
        let ip = frame.ip;
        let len = self.functions[fidx].instructions.len();
        if ip >= len {
            if self.frames.len() == 1 {
                self.pop_frame();
                return Ok(());
            }
            return self.return_from_frame(Object::Null);
        }
        let op = match Opcode::from_byte(self.functions[fidx].instructions[ip]) {
            Some(op) => op,
            None => {
                return Err(RuntimeError::InvalidInstruction(ip));
            },
        };
        let def = op.definition();
        proof {
            crate::code::lemma_widths_ok(op);
        }
        let width = Vm::operands_width(&def);
        if width > len - ip - 1 {
            return Err(RuntimeError::InvalidInstruction(ip));
        }
        let (operands, _) = read_operands(&def, self.functions[fidx].instructions.as_slice(), ip + 1);
        let ghost code = old(self).code_of(frame);
        proof {
            assert(code == self.functions@[fidx as int].instructions@);
            assert(opcode_of(code[ip as int]) == Some(op));
            assert(self.functions@[fidx as int].instructions@.subrange(ip + 1, len as int) == code.subrange(ip + 1, code.len() as int));
        }
        self.current_frame_ip_inc(1 + width);
        let a: usize = if operands.len() > 0 { operands[0] } else { 0 };
        let b: usize = if operands.len() > 1 { operands[1] } else { 0 };
        let ghost next = ip + 1 + width;
        proof {
            assert(jumped(*old(self), *self, next));
            assert(self.live() == old(self).live());
            assert(a == (if decode_operands(widths(op), code.subrange(ip + 1, code.len() as int)).len() > 0 {
                decode_operands(widths(op), code.subrange(ip + 1, code.len() as int))[0] } else { 0usize }));
        }
        match op {
            Opcode::Constant => {
                match self.get_const_object(a) {
                    Some(k) => self.push_stack(k),
                    None => Err(RuntimeError::UnknownConstant(a)),
                }
            },
            Opcode::Pop => {
                self.pop_stack()?;
                Ok(())
            },
            Opcode::Add | Opcode::Sub | Opcode::Mul | Opcode::Div => self.execute_binary_operation(&op),
            Opcode::True => {
                let o = self.bool_cache_true;
                self.push_stack(o)
            },
            Opcode::False => {
                let o = self.bool_cache_false;
                self.push_stack(o)
            },
            Opcode::Null => {
                let o = self.null_cache;
                self.push_stack(o)
            },
            Opcode::Equal | Opcode::NotEqual | Opcode::GreaterThan | Opcode::GreaterEq
            | Opcode::LessThan | Opcode::LessEq => {
                proof {
                    if self.sp >= 2 {
                        let l = self.live()[self.sp - 2];
                        let rr = self.live()[self.sp - 1];
                        assert(self.obj_eq(l, rr) == old(self).obj_eq(l, rr));
                        assert(compare(self, op, l, rr) == compare(old(self), op, l, rr));
                    }
                }
                let ghost mid = *self;
                let v = self.execute_comparison_operation(&op)?;
                proof {
                    assert(self.live().len() == mid.sp - 2);
                    assert(self.sp == mid.sp - 2);
                    assert(jumped(*old(self), *self, next));
                }
                let pr = self.push_stack(v);
                proof {
                    assert(pr is Ok);
                    assert(jumped(*old(self), *self, next));
                }
                pr
            },
            Opcode::Minus => {
                let v = self.pop_stack()?;
                self.execute_minus_expression(&v)
            },
            Opcode::Not => {
                let v = self.pop_stack()?;
                self.execute_not_expression(&v)
            },
            Opcode::JumpIfNotTruthy => {
                let v = self.pop_stack()?;
                if !v.truthy() {
                    self.set_ip(a);
                    proof {
                        assert(jumped(*old(self), *self, a as int)) by {
                            assert(self.frames@ =~= old(self).frames@.update(old(self).frames@.len() - 1,
                                Frame { ip: a, ..old(self).frames@.last() }));
                        }
                    }
                }
                Ok(())
            },
            Opcode::Jump => {
                self.set_ip(a);
                proof {
                    assert(jumped(*old(self), *self, a as int)) by {
                        assert(self.frames@ =~= old(self).frames@.update(old(self).frames@.len() - 1,
                            Frame { ip: a, ..old(self).frames@.last() }));
                    }
                }
                Ok(())
            },
            Opcode::GetGlobal => self.get_global_and_push(a),
            Opcode::SetGlobal => self.pop_and_set_global(a),
            Opcode::Array => self.build_array(a),
            Opcode::Hash => self.build_hash(a),
            Opcode::Index => {
                let index = self.pop_stack()?;
                let container = self.pop_stack()?;
                let v = self.execute_index_operation(&container, &index)?;
                self.push_stack(v)
            },
            Opcode::Call => self.call_function(a),
            Opcode::ReturnValue => {
                let v = self.pop_stack()?;
                let ghost mid = *self;
                let rr = self.return_from_frame(v);
                proof {
                    assert(self.frames@ =~= old(self).frames@.drop_last());
                    let bp = old(self).frames@.last().base_pointer;
                    if 0 < bp && bp - 1 < mid.sp {
                        assert(mid.live().subrange(0, bp - 1) =~= old(self).live().subrange(0, bp - 1));
                    }
                }
                rr
            },
            Opcode::Return => self.return_from_frame(Object::Null),
            Opcode::GetLocal => self.get_local_and_push(a),
            Opcode::SetLocal => self.pop_and_set_local(a),
            Opcode::GetBuiltin => {
                let v = self.get_builtin(a)?;
                self.push_stack(v)
            },
            Opcode::Closure => self.build_closure(a, b),
            Opcode::GetFree => self.get_free(a),
            Opcode::Assign => self.execute_assign_operation_or_pop_and_set_global(a, b != 0),
        }
    }

    /// Runs until the frame stack is empty, or an instruction fails. After a
    /// run that ends well, the slot just above the live stack holds the value
    /// popped last (`Null` where nothing was).
    pub fn run(&mut self) -> (r: Result<(), RuntimeError>)
        requires
            old(self).wf(),
        ensures
            final(self).wf(),
            r is Ok ==> final(self).frames@.len() == 0,
            r is Ok ==> final(self).sp < final(self).stack@.len(),
            r is Ok ==> exists|t: Seq<Vm>| {
                &&& t.len() >= 1
                &&& t[0] == *old(self)
                &&& #[trigger] is_trace(t)
                &&& t.last().frames@.len() == 0
                &&& final(self).sp == t.last().sp
                &&& final(self).globals == t.last().globals
                &&& final(self).stack@[final(self).sp as int] == if t.last().sp < t.last().stack@.len() {
                    t.last().stack@[t.last().sp as int]
                } else {
                    Object::Null
                }
            },
            r is Err && r != Err::<(), RuntimeError>(RuntimeError::StepLimitReached) ==> (exists|t: Seq<Vm>| {
                &&& t.len() >= 1
                &&& t[0] == *old(self)
                &&& #[trigger] is_trace(t)
                &&& t.last().frames@.len() > 0
                &&& step_spec(t.last(), *final(self), r)
            }) || (r == Err::<(), RuntimeError>(RuntimeError::StackOverflow) && final(self).frames@.len() == 0
                && final(self).sp == STACK_SIZE),
    {
        let mut fuel: u64 = u64::MAX;
        let ghost mut trace: Seq<Vm> = seq![*self];
        while self.frames.len() > 0
            invariant
                self.wf(),
                trace.len() >= 1,
                trace[0] == *old(self),
                trace.last() == *self,
                is_trace(trace),
            decreases fuel,
        {
            if fuel == 0 {
                return Err(RuntimeError::StepLimitReached);
            }
            fuel = fuel - 1;
            let ghost before = *self;
            match self.step() {
                Ok(()) => {
                    proof {
                        let t2 = trace.push(*self);
                        assert forall|i: int| 0 <= i < t2.len() - 1 implies #[trigger] step_spec(t2[i], t2[i + 1], Ok(())) by {
                            if i < trace.len() - 1 {
                                assert(t2[i] == trace[i] && t2[i + 1] == trace[i + 1]);
                            }
                        }
                        trace = t2;
                    }
                },
                Err(e) => {
                    proof {
                        assert(before.frames@.len() > 0);
                        assert(trace.last() == before);
                        assert(is_trace(trace) && step_spec(trace.last(), *self, Err::<(), RuntimeError>(e)));
                    }
                    return Err(e);
                },
            }
        }
        let ghost end = *self;
        if self.sp == self.stack.len() {
            self.push_stack(Object::Null)?;
            proof {
                assert(self.live().len() == self.sp);
                assert(self.live()[end.sp as int] == Object::Null);
            }
            self.sp = self.sp - 1;
        }
        proof {
            assert(is_trace(trace) && trace.last() == end);
        }
        Ok(())
    }

    /// Pushes a value; fails with `StackOverflow` when the stack is full.
    pub fn push_stack(&mut self, object: Object) -> (r: Result<(), RuntimeError>)
        requires
            old(self).wf(),
        ensures
            final(self).wf(),
            r is Ok <==> old(self).sp < STACK_SIZE,
            r is Err ==> r == Err::<(), RuntimeError>(RuntimeError::StackOverflow) && *final(self) == *old(self),
            r is Ok ==> final(self).live() == old(self).live().push(object),
            final(self).frames == old(self).frames,
            final(self).globals == old(self).globals,
            final(self).constants == old(self).constants,
            final(self).strings == old(self).strings,
            final(self).arrays == old(self).arrays,
            final(self).hashes == old(self).hashes,
            final(self).functions == old(self).functions,
            final(self).closures == old(self).closures,
            final(self).int_cache == old(self).int_cache,
    {
        if self.sp >= STACK_SIZE {
            return Err(RuntimeError::StackOverflow);
        }
        if self.sp == self.stack.len() {
            self.stack.push(object);
        } else {
            self.stack.set(self.sp, object);
        }
        self.sp = self.sp + 1;
        proof {
            assert(self.live() =~= old(self).live().push(object));
        }
        Ok(())
    }

    /// Pops the top value; fails with `StackUnderflow` on an empty stack. The
    /// popped value stays in its slot until it is overwritten.
    pub fn pop_stack(&mut self) -> (r: Result<Object, RuntimeError>)
        requires
            old(self).wf(),
        ensures
            final(self).wf(),
            r is Ok <==> old(self).sp > 0,
            r is Err ==> r == Err::<Object, RuntimeError>(RuntimeError::StackUnderflow) && *final(self) == *old(self),
            r is Ok ==> r == Ok::<Object, RuntimeError>(old(self).live().last())
                && final(self).live() == old(self).live().drop_last()
                && final(self).stack == old(self).stack
                && final(self).sp == old(self).sp - 1,
            final(self).frames == old(self).frames,
            final(self).globals == old(self).globals,
            final(self).constants == old(self).constants,
            final(self).strings == old(self).strings,
            final(self).arrays == old(self).arrays,
            final(self).hashes == old(self).hashes,
            final(self).functions == old(self).functions,
            final(self).closures == old(self).closures,
            final(self).int_cache == old(self).int_cache,
    {
        if self.sp == 0 {
            return Err(RuntimeError::StackUnderflow);
        }
        self.sp = self.sp - 1;
        proof {
            assert(self.live() =~= old(self).live().drop_last());
        }
        Ok(self.stack[self.sp])
    }

    /// The value of the slot just above the live stack: the one popped last;
    /// `Null` when no slot is there.
    pub fn last_popped_stack_element(&self) -> (r: Object)
        ensures
            self.sp < self.stack@.len() ==> r == self.stack@[self.sp as int],
            self.sp >= self.stack@.len() ==> r == Object::Null,
    {
        if self.sp < self.stack.len() {
            self.stack[self.sp]
        } else {
            Object::Null
        }
    }

    /// The canonical boolean object of `b`.
    pub fn get_bool_from_cache(&self, b: bool) -> (r: Object)
        requires
            self.wf(),
        ensures
            r == Object::Boolean(b),
    {
        if b {
            self.bool_cache_true
        } else {
            self.bool_cache_false
        }
    }

    /// The integer object of `v`: the cached entry when `v` lies in the cache's range.
    pub fn integer_object(&self, v: i64) -> (r: Object)
        requires
            self.wf(),
        ensures
            r == Object::Integer(v),
            0 <= v < INT_CACHE_SIZE ==> r == self.int_cache@[v as int],
    {
        if 0 <= v && v < INT_CACHE_SIZE as i64 {
            self.int_cache[v as usize]
        } else {
            Object::Integer(v)
        }
    }

    /// Constant `index`; `None` when there is no such constant.
    pub fn get_const_object(&self, index: usize) -> (r: Option<Object>)
        ensures
            index < self.constants@.len() ==> r == Some(self.constants@[index as int]),
            index >= self.constants@.len() ==> r is None,
    {
        if index < self.constants.len() {
            Some(self.constants[index])
        } else {
            None
        }
    }

    /// Global `index`, if it has been set.
    pub fn get_global(&self, index: usize) -> (r: Option<Object>)
        ensures
            index < self.globals@.len() ==> r == Some(self.globals@[index as int]),
            index >= self.globals@.len() ==> r is None,
    {
        if index < self.globals.len() {
            Some(self.globals[index])
        } else {
            None
        }
    }

    /// The frame being run.
    pub fn current_frame(&self) -> (r: Frame)
        requires
            self.frames@.len() > 0,
        ensures
            r == self.frames@.last(),
    {
        self.frames[self.frames.len() - 1]
    }

    /// Pushes a frame; fails with `FrameOverflow` when the frame stack is full.
    pub fn push_frame(&mut self, frame: Frame) -> (r: Result<(), RuntimeError>)
        requires
            old(self).wf(),
            frame.closure < old(self).closures@.len(),
        ensures
            final(self).wf(),
            r is Ok <==> old(self).frames@.len() < MAX_FRAMES,
            r is Ok ==> final(self).frames@ == old(self).frames@.push(frame),
            r is Err ==> r == Err::<(), RuntimeError>(RuntimeError::FrameOverflow)
                && final(self).frames == old(self).frames,
            final(self).stack == old(self).stack,
            final(self).sp == old(self).sp,
            final(self).globals == old(self).globals,
            final(self).strings == old(self).strings,
            final(self).arrays == old(self).arrays,
            final(self).hashes == old(self).hashes,
            final(self).functions == old(self).functions,
            final(self).closures == old(self).closures,
            final(self).constants == old(self).constants,
            final(self).int_cache == old(self).int_cache,
    {
        if self.frames.len() >= MAX_FRAMES {
            return Err(RuntimeError::FrameOverflow);
        }
        self.frames.push(frame);
        Ok(())
    }

    /// Pops the frame being run and returns it.
    pub fn pop_frame(&mut self) -> (r: Frame)
        requires
            old(self).wf(),
            old(self).frames@.len() > 0,
        ensures
            final(self).wf(),
            r == old(self).frames@.last(),
            final(self).frames@ == old(self).frames@.drop_last(),
            final(self).stack == old(self).stack,
            final(self).sp == old(self).sp,
            final(self).globals == old(self).globals,
            final(self).strings == old(self).strings,
            final(self).arrays == old(self).arrays,
            final(self).hashes == old(self).hashes,
            final(self).functions == old(self).functions,
            final(self).closures == old(self).closures,
            final(self).constants == old(self).constants,
            final(self).int_cache == old(self).int_cache,
    {
        self.frames.pop().unwrap()
    }

    /// Moves the current frame's instruction pointer on by `n`.
    pub fn current_frame_ip_inc(&mut self, n: usize)
        requires
            old(self).wf(),
            old(self).frames@.len() > 0,
            old(self).frames@.last().ip + n <= usize::MAX,
        ensures
            final(self).wf(),
            final(self).frames@ == old(self).frames@.update(
                old(self).frames@.len() - 1,
                Frame { ip: (old(self).frames@.last().ip + n) as usize, ..old(self).frames@.last() },
            ),
            final(self).stack == old(self).stack,
            final(self).sp == old(self).sp,
            final(self).globals == old(self).globals,
            final(self).strings == old(self).strings,
            final(self).arrays == old(self).arrays,
            final(self).hashes == old(self).hashes,
            final(self).functions == old(self).functions,
            final(self).closures == old(self).closures,
            final(self).constants == old(self).constants,
            final(self).int_cache == old(self).int_cache,
    {
        let last = self.frames.len() - 1;
        let f = self.frames[last];
        self.frames.set(last, Frame { ip: f.ip + n, ..f });
    }

    /// Sets the current frame's instruction pointer to `ip`.
    fn set_ip(&mut self, ip: usize)
        requires
            old(self).wf(),
            old(self).frames@.len() > 0,
        ensures
            final(self).wf(),
            final(self).frames@ == old(self).frames@.update(
                old(self).frames@.len() - 1,
                Frame { ip, ..old(self).frames@.last() },
            ),
            final(self).stack == old(self).stack,
            final(self).sp == old(self).sp,
            final(self).globals == old(self).globals,
            final(self).strings == old(self).strings,
            final(self).arrays == old(self).arrays,
            final(self).hashes == old(self).hashes,
            final(self).functions == old(self).functions,
            final(self).closures == old(self).closures,
            final(self).constants == old(self).constants,
            final(self).int_cache == old(self).int_cache,
    {
        let last = self.frames.len() - 1;
        let f = self.frames[last];
        self.frames.set(last, Frame { ip, ..f });
    }
}


/// Each integer in `[0, INT_CACHE_SIZE)` has an entry of its own in the
/// small-integer cache, and that entry is the integer; `integer_object` and
/// every arithmetic result in that range are served from it.
pub proof fn lemma_small_integers_cached(vm: &Vm, n: int)
    requires
        vm.wf(),
        0 <= n < INT_CACHE_SIZE,
    ensures
        vm.int_cache@[n] == Object::Integer(n as i64),
{
}

/// Two hash literals that hold the same key and value pairs, no key twice,
/// in whatever order, build hashes that map every key alike (see
/// `Vm::build_hash`, whose result maps each key as `pairs_lookup` does).
pub proof fn lemma_hash_literal_order(w1: Seq<Object>, w2: Seq<Object>, n1: int, n2: int)
    requires
        literal_keys_ok(w1, n1),
        literal_keys_ok(w2, n2),
        keys_unique(literal_pairs(w1, n1)),
        keys_unique(literal_pairs(w2, n2)),
        literal_pairs(w1, n1).to_set() == literal_pairs(w2, n2).to_set(),
    ensures
        forall|k: HashKey| #[trigger] pairs_lookup(literal_pairs(w1, n1), k) == pairs_lookup(literal_pairs(w2, n2), k),
{
    crate::heap::lemma_order_irrelevant(literal_pairs(w1, n1), literal_pairs(w2, n2));
}

/// Whether two byte strings are equal.
pub fn bytes_equal(a: &Vec<u8>, b: &Vec<u8>) -> (r: bool)
    ensures
        r == (a@ == b@),
{
    if a.len() != b.len() {
        return false;
    }
    let mut i: usize = 0;
    while i < a.len()
        invariant
            a@.len() == b@.len(),
            i <= a@.len(),
            forall|j: int| 0 <= j < i ==> a@[j] == b@[j],
        decreases a@.len() - i,
    {
        if a[i] != b[i] {
            return false;
        }
        i = i + 1;
    }
    proof {
        assert(a@ =~= b@);
    }
    true
}

/// A fresh copy of a byte string.
pub fn copy_bytes(a: &Vec<u8>) -> (r: Vec<u8>)
    ensures
        r@ == a@,
{
    let mut r: Vec<u8> = Vec::new();
    let mut i: usize = 0;
    while i < a.len()
        invariant
            i <= a@.len(),
            r@ == a@.subrange(0, i as int),
        decreases a@.len() - i,
    {
        r.push(a[i]);
        i = i + 1;
        proof {
            assert(r@ =~= a@.subrange(0, i as int));
        }
    }
    proof {
        assert(a@.subrange(0, a@.len() as int) =~= a@);
    }
    r
}

/// The concatenation of two byte strings.
pub fn concat_bytes(a: &Vec<u8>, b: &Vec<u8>) -> (r: Vec<u8>)
    ensures
        r@ == a@ + b@,
{
    let mut r = copy_bytes(a);
    let mut i: usize = 0;
    while i < b.len()
        invariant
            i <= b@.len(),
            r@ == a@ + b@.subrange(0, i as int),
        decreases b@.len() - i,
    {
        r.push(b[i]);
        i = i + 1;
        proof {
            assert(r@ =~= a@ + b@.subrange(0, i as int));
        }
    }
    proof {
        assert(b@.subrange(0, b@.len() as int) =~= b@);
    }
    r
}

} // verus!
