use vstd::prelude::*;

verus! {

/// The instruction set. Each opcode is one byte in the instruction stream,
/// followed by its operands, big-endian, with the widths `definition` gives.
#[derive(Debug, Clone, Copy, PartialEq, Eq, Structural)]
pub enum Opcode {
    Constant,
    Pop,
    Add,
    Sub,
    Mul,
    Div,
    True,
    False,
    Equal,
    NotEqual,
    GreaterThan,
    GreaterEq,
    LessThan,
    LessEq,
    Minus,
    Not,
    JumpIfNotTruthy,
    Jump,
    Null,
    GetGlobal,
    SetGlobal,
    Array,
    Hash,
    Index,
    Call,
    ReturnValue,
    Return,
    GetLocal,
    SetLocal,
    GetBuiltin,
    Closure,
    GetFree,
    Assign,
}

/// The byte that stands for an opcode.
pub open spec fn op_byte(op: Opcode) -> u8 {
    match op {
        Opcode::Constant => 0,
        Opcode::Pop => 1,
        Opcode::Add => 2,
        Opcode::Sub => 3,
        Opcode::Mul => 4,
        Opcode::Div => 5,
        Opcode::True => 6,
        Opcode::False => 7,
        Opcode::Equal => 8,
        Opcode::NotEqual => 9,
        Opcode::GreaterThan => 10,
        Opcode::GreaterEq => 11,
        Opcode::LessThan => 12,
        Opcode::LessEq => 13,
        Opcode::Minus => 14,
        Opcode::Not => 15,
        Opcode::JumpIfNotTruthy => 16,
        Opcode::Jump => 17,
        Opcode::Null => 18,
        Opcode::GetGlobal => 19,
        Opcode::SetGlobal => 20,
        Opcode::Array => 21,
        Opcode::Hash => 22,
        Opcode::Index => 23,
        Opcode::Call => 24,
        Opcode::ReturnValue => 25,
        Opcode::Return => 26,
        Opcode::GetLocal => 27,
        Opcode::SetLocal => 28,
        Opcode::GetBuiltin => 29,
        Opcode::Closure => 30,
        Opcode::GetFree => 31,
        Opcode::Assign => 32,
    }
}

/// The operand widths, in bytes, of an opcode.
pub open spec fn widths(op: Opcode) -> Seq<usize> {
    match op {
        Opcode::Constant | Opcode::JumpIfNotTruthy | Opcode::Jump | Opcode::GetGlobal
        | Opcode::SetGlobal | Opcode::Array | Opcode::Hash => seq![2usize],
        Opcode::Call | Opcode::GetLocal | Opcode::SetLocal | Opcode::GetBuiltin
        | Opcode::GetFree => seq![1usize],
        Opcode::Closure | Opcode::Assign => seq![2usize, 1usize],
        _ => Seq::empty(),
    }
}

/// Every width is one or two bytes.
pub open spec fn widths_ok(ws: Seq<usize>) -> bool {
    forall|k: int| 0 <= k < ws.len() ==> (#[trigger] ws[k] == 1 || ws[k] == 2)
}

/// The largest value an operand of width `w` holds.
pub open spec fn fits_width(v: usize, w: usize) -> bool {
    if w == 1 { v < 0x100 } else { v < 0x10000 }
}

/// The big-endian bytes of an operand.
pub open spec fn operand_bytes(v: usize, w: usize) -> Seq<u8> {
    if w == 1 { seq![v as u8] } else { seq![(v / 0x100) as u8, (v % 0x100) as u8] }
}

/// The offset of operand `k` from the first operand byte.
pub open spec fn offset(ws: Seq<usize>, k: int) -> int
    decreases k,
{
    if k <= 0 { 0 } else { offset(ws, k - 1) + ws[k - 1] }
}

/// The bytes of the first `k` operands.
pub open spec fn encode_operands(ws: Seq<usize>, ops: Seq<usize>, k: int) -> Seq<u8>
    decreases k,
{
    if k <= 0 {
        Seq::empty()
    } else {
        encode_operands(ws, ops, k - 1) + operand_bytes(ops[k - 1], ws[k - 1])
    }
}

/// One instruction: the opcode's byte, then its operands.
pub open spec fn encode(op: Opcode, ops: Seq<usize>) -> Seq<u8> {
    seq![op_byte(op)] + encode_operands(widths(op), ops, widths(op).len() as int)
}

/// The operand of width `w` that starts at `at`.
pub open spec fn operand_at(bytes: Seq<u8>, at: int, w: usize) -> usize {
    if w == 1 {
        bytes[at] as usize
    } else {
        (bytes[at] as usize * 0x100 + bytes[at + 1] as usize) as usize
    }
}

/// The operands that `bytes` holds for the widths `ws`.
pub open spec fn decode_operands(ws: Seq<usize>, bytes: Seq<u8>) -> Seq<usize> {
    Seq::new(ws.len(), |k: int| operand_at(bytes, offset(ws, k), ws[k]))
}

/// The opcode of a byte, if it stands for one.
pub open spec fn opcode_of(b: u8) -> Option<Opcode> {
    if exists|op: Opcode| op_byte(op) == b {
        Some(choose|op: Opcode| op_byte(op) == b)
    } else {
        None
    }
}

/// What a whole instruction decodes to.
pub open spec fn decode(bytes: Seq<u8>) -> Option<(Opcode, Seq<usize>)> {
    if bytes.len() == 0 {
        None
    } else {
        match opcode_of(bytes[0]) {
            Some(op) => if bytes.len() >= 1 + offset(widths(op), widths(op).len() as int) {
                Some((op, decode_operands(widths(op), bytes.subrange(1, bytes.len() as int))))
            } else {
                None
            },
            None => None,
        }
    }
}

pub proof fn lemma_op_byte_injective(a: Opcode, b: Opcode)
    ensures
        op_byte(a) == op_byte(b) ==> a == b,
{
}

pub proof fn lemma_widths_ok(op: Opcode)
    ensures
        widths_ok(widths(op)),
        widths(op).len() <= 2,
{
}

proof fn lemma_offset_bounds(ws: Seq<usize>, k: int)
    requires
        widths_ok(ws),
        0 <= k <= ws.len(),
    ensures
        k <= offset(ws, k) <= 2 * k,
    decreases k,
{
    if k > 0 {
        lemma_offset_bounds(ws, k - 1);
    }
}

proof fn lemma_encode_operands(ws: Seq<usize>, ops: Seq<usize>, n: int)
    requires
        widths_ok(ws),
        0 <= n <= ws.len(),
        ops.len() == ws.len(),
        forall|k: int| 0 <= k < ops.len() ==> fits_width(#[trigger] ops[k], ws[k]),
    ensures
        encode_operands(ws, ops, n).len() == offset(ws, n),
        forall|k: int|
            0 <= k < n ==> operand_at(#[trigger] encode_operands(ws, ops, n), offset(ws, k), ws[k])
                == ops[k],
    decreases n,
{
    if n > 0 {
        lemma_encode_operands(ws, ops, n - 1);
        let prev = encode_operands(ws, ops, n - 1);
        let cur = encode_operands(ws, ops, n);
        let v = ops[n - 1];
        assert(fits_width(ops[n - 1], ws[n - 1]));
        assert forall|k: int| 0 <= k < n implies operand_at(cur, offset(ws, k), ws[k]) == ops[k] by {
            if k < n - 1 {
                lemma_offset_bounds(ws, k + 1);
                assert(operand_at(prev, offset(ws, k), ws[k]) == ops[k]);
                assert(offset(ws, k + 1) <= offset(ws, n - 1)) by {
                    lemma_offset_mono(ws, k + 1, n - 1);
                }
            } else {
                if ws[k] == 1 {
                    assert(cur[offset(ws, k)] == v as u8);
                } else {
                    assert(cur[offset(ws, k)] == (v / 0x100) as u8);
                    assert(cur[offset(ws, k) + 1] == (v % 0x100) as u8);
                    assert((v / 0x100) * 0x100 + v % 0x100 == v) by (nonlinear_arith);
                }
            }
        }
    }
}

proof fn lemma_offset_mono(ws: Seq<usize>, j: int, k: int)
    requires
        widths_ok(ws),
        0 <= j <= k <= ws.len(),
    ensures
        offset(ws, j) <= offset(ws, k),
    decreases k - j,
{
    if j < k {
        lemma_offset_mono(ws, j, k - 1);
    }
}

/// Encoding an instruction and decoding it gives back the opcode and its
/// operands, for every opcode and every operand that fits its width.
pub proof fn lemma_round_trip(op: Opcode, ops: Seq<usize>)
    requires
        ops.len() == widths(op).len(),
        forall|k: int| 0 <= k < ops.len() ==> fits_width(#[trigger] ops[k], widths(op)[k]),
    ensures
        decode(encode(op, ops)) == Some((op, ops)),
{
    let ws = widths(op);
    let n = ws.len() as int;
    lemma_widths_ok(op);
    lemma_encode_operands(ws, ops, n);
    let enc = encode(op, ops);
    let body = encode_operands(ws, ops, n);
    assert(enc[0] == op_byte(op));
    assert(opcode_of(op_byte(op)) == Some(op)) by {
        let c = choose|o: Opcode| op_byte(o) == op_byte(op);
        lemma_op_byte_injective(c, op);
    }
    assert(enc.subrange(1, enc.len() as int) =~= body);
    let dec = decode_operands(ws, body);
    assert forall|k: int| 0 <= k < n implies dec[k] == ops[k] by {
        assert(operand_at(body, offset(ws, k), ws[k]) == ops[k]);
    }
    assert(dec =~= ops);
}

proof fn lemma_op_byte_bound(op: Opcode)
    ensures
        op_byte(op) <= 32,
{
}

impl Opcode {
    /// The byte that stands for this opcode.
    pub fn to_byte(&self) -> (r: u8)
        ensures
            r == op_byte(*self),
    {
        match self {
            Opcode::Constant => 0,
            Opcode::Pop => 1,
            Opcode::Add => 2,
            Opcode::Sub => 3,
            Opcode::Mul => 4,
            Opcode::Div => 5,
            Opcode::True => 6,
            Opcode::False => 7,
            Opcode::Equal => 8,
            Opcode::NotEqual => 9,
            Opcode::GreaterThan => 10,
            Opcode::GreaterEq => 11,
            Opcode::LessThan => 12,
            Opcode::LessEq => 13,
            Opcode::Minus => 14,
            Opcode::Not => 15,
            Opcode::JumpIfNotTruthy => 16,
            Opcode::Jump => 17,
            Opcode::Null => 18,
            Opcode::GetGlobal => 19,
            Opcode::SetGlobal => 20,
            Opcode::Array => 21,
            Opcode::Hash => 22,
            Opcode::Index => 23,
            Opcode::Call => 24,
            Opcode::ReturnValue => 25,
            Opcode::Return => 26,
            Opcode::GetLocal => 27,
            Opcode::SetLocal => 28,
            Opcode::GetBuiltin => 29,
            Opcode::Closure => 30,
            Opcode::GetFree => 31,
            Opcode::Assign => 32,
        }
    }

    /// The opcode that a byte stands for, if any.
    pub fn from_byte(b: u8) -> (r: Option<Opcode>)
        ensures
            r == opcode_of(b),
    {
        let r = match b {
            0 => Some(Opcode::Constant),
            1 => Some(Opcode::Pop),
            2 => Some(Opcode::Add),
            3 => Some(Opcode::Sub),
            4 => Some(Opcode::Mul),
            5 => Some(Opcode::Div),
            6 => Some(Opcode::True),
            7 => Some(Opcode::False),
            8 => Some(Opcode::Equal),
            9 => Some(Opcode::NotEqual),
            10 => Some(Opcode::GreaterThan),
            11 => Some(Opcode::GreaterEq),
            12 => Some(Opcode::LessThan),
            13 => Some(Opcode::LessEq),
            14 => Some(Opcode::Minus),
            15 => Some(Opcode::Not),
            16 => Some(Opcode::JumpIfNotTruthy),
            17 => Some(Opcode::Jump),
            18 => Some(Opcode::Null),
            19 => Some(Opcode::GetGlobal),
            20 => Some(Opcode::SetGlobal),
            21 => Some(Opcode::Array),
            22 => Some(Opcode::Hash),
            23 => Some(Opcode::Index),
            24 => Some(Opcode::Call),
            25 => Some(Opcode::ReturnValue),
            26 => Some(Opcode::Return),
            27 => Some(Opcode::GetLocal),
            28 => Some(Opcode::SetLocal),
            29 => Some(Opcode::GetBuiltin),
            30 => Some(Opcode::Closure),
            31 => Some(Opcode::GetFree),
            32 => Some(Opcode::Assign),
            _ => None,
        };
        proof {
            match r {
                Some(op) => {
                    assert(op_byte(op) == b);
                    let c = choose|o: Opcode| op_byte(o) == b;
                    lemma_op_byte_injective(c, op);
                },
                None => {
                    assert forall|o: Opcode| op_byte(o) != b by {
                        lemma_op_byte_bound(o);
                    }
                },
            }
        }
        r
    }

    /// The widths of this opcode's operands, in bytes.
    pub fn definition(&self) -> (r: Vec<usize>)
        ensures
            r@ == widths(*self),
    {
        let r = match self {
            Opcode::Constant | Opcode::JumpIfNotTruthy | Opcode::Jump | Opcode::GetGlobal
            | Opcode::SetGlobal | Opcode::Array | Opcode::Hash => vec![2usize],
            Opcode::Call | Opcode::GetLocal | Opcode::SetLocal | Opcode::GetBuiltin
            | Opcode::GetFree => vec![1usize],
            Opcode::Closure | Opcode::Assign => vec![2usize, 1usize],
            _ => Vec::new(),
        };
        proof {
            assert(r@ =~= widths(*self));
        }
        r
    }
}

/// Encodes one instruction: the opcode's byte, then each operand big-endian
/// in its width.
pub fn make(op: Opcode, operands: &Vec<usize>) -> (r: Vec<u8>)
    requires
        operands@.len() == widths(op).len(),
        forall|k: int| 0 <= k < operands@.len() ==> fits_width(#[trigger] operands@[k], widths(op)[k]),
    ensures
        r@ == encode(op, operands@),
{
    let def = op.definition();
    let mut r: Vec<u8> = Vec::new();
    r.push(op.to_byte());
    let mut i: usize = 0;
    proof {
        lemma_widths_ok(op);
    }
    while i < def.len()
        invariant
            def@ == widths(op),
            widths_ok(def@),
            def@.len() <= 2,
            operands@.len() == def@.len(),
            i <= def@.len(),
            r@ == seq![op_byte(op)] + encode_operands(def@, operands@, i as int),
        decreases def@.len() - i,
    {
        let v = operands[i];
        let w = def[i];
        if w == 1 {
            r.push(v as u8);
        } else {
            r.push((v / 0x100) as u8);
            r.push((v % 0x100) as u8);
        }
        proof {
            assert(r@ =~= seq![op_byte(op)] + encode_operands(def@, operands@, i + 1));
        }
        i = i + 1;
    }
    r
}

/// Reads the operands of widths `def` from `bytes`, starting at `start`;
/// returns them and the number of bytes they take.
pub fn read_operands(def: &Vec<usize>, bytes: &[u8], start: usize) -> (r: (Vec<usize>, usize))
    requires
        widths_ok(def@),
        def@.len() <= 2,
        start + offset(def@, def@.len() as int) <= bytes@.len(),
    ensures
        r.0@ == decode_operands(def@, bytes@.subrange(start as int, bytes@.len() as int)),
        r.1 == offset(def@, def@.len() as int),
{
    let ghost tail = bytes@.subrange(start as int, bytes@.len() as int);
    let blen = bytes.len();
    let mut ops: Vec<usize> = Vec::new();
    let mut at: usize = 0;
    let mut i: usize = 0;
    while i < def.len()
        invariant
            widths_ok(def@),
            def@.len() <= 2,
            start + offset(def@, def@.len() as int) <= bytes@.len(),
            tail == bytes@.subrange(start as int, bytes@.len() as int),
            blen == bytes@.len(),
            i <= def@.len(),
            at == offset(def@, i as int),
            ops@.len() == i,
            forall|k: int| 0 <= k < i ==> ops@[k] == operand_at(tail, offset(def@, k), def@[k]),
        decreases def@.len() - i,
    {
        proof {
            lemma_offset_mono(def@, i + 1, def@.len() as int);
            assert(offset(def@, i + 1) == at + def@[i as int]);
        }
        let w = def[i];
        if w == 1 {
            ops.push(bytes[start + at] as usize);
        } else {
            ops.push(bytes[start + at] as usize * 0x100 + bytes[start + at + 1] as usize);
        }
        at = at + w;
        i = i + 1;
    }
    proof {
        assert(ops@ =~= decode_operands(def@, tail));
    }
    (ops, at)
}

} // verus!
