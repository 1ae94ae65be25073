//! Bytecode chunks: a byte buffer, a parallel line table, and a constant
//! pool. The line table always has exactly one entry per code byte.

use crate::value::Value;
use crate::value::ValueArray;
use vstd::prelude::*;

verus! {

/// The instruction set, in its stable numeric order. `Unknown` is the
/// sentinel that decoding maps every unassigned byte to; it is never emitted.
#[derive(Clone, Copy, PartialEq, Eq, Structural, Debug)]
pub enum OpCode {
    Constant,
    Nil,
    True,
    False,
    Equal,
    Greater,
    Less,
    Add,
    Subtract,
    Multiply,
    Divide,
    Not,
    Negate,
    Return,
    Unknown,
}

/// The fixed byte each opcode encodes to.
pub open spec fn spec_op_byte(op: OpCode) -> u8 {
    match op {
        OpCode::Constant => 0,
        OpCode::Nil => 1,
        OpCode::True => 2,
        OpCode::False => 3,
        OpCode::Equal => 4,
        OpCode::Greater => 5,
        OpCode::Less => 6,
        OpCode::Add => 7,
        OpCode::Subtract => 8,
        OpCode::Multiply => 9,
        OpCode::Divide => 10,
        OpCode::Not => 11,
        OpCode::Negate => 12,
        OpCode::Return => 13,
        OpCode::Unknown => 14,
    }
}

/// The total decoding of a byte: the opcode it encodes, or `Unknown`.
pub open spec fn spec_op_from_byte(b: u8) -> OpCode {
    if b == 0 {
        OpCode::Constant
    } else if b == 1 {
        OpCode::Nil
    } else if b == 2 {
        OpCode::True
    } else if b == 3 {
        OpCode::False
    } else if b == 4 {
        OpCode::Equal
    } else if b == 5 {
        OpCode::Greater
    } else if b == 6 {
        OpCode::Less
    } else if b == 7 {
        OpCode::Add
    } else if b == 8 {
        OpCode::Subtract
    } else if b == 9 {
        OpCode::Multiply
    } else if b == 10 {
        OpCode::Divide
    } else if b == 11 {
        OpCode::Not
    } else if b == 12 {
        OpCode::Negate
    } else if b == 13 {
        OpCode::Return
    } else {
        OpCode::Unknown
    }
}

impl OpCode {
    /// Encodes the opcode as its instruction byte.
    pub fn to_byte(self) -> (r: u8)
        ensures
            r == spec_op_byte(self),
    {
        match self {
            OpCode::Constant => 0,
            OpCode::Nil => 1,
            OpCode::True => 2,
            OpCode::False => 3,
            OpCode::Equal => 4,
            OpCode::Greater => 5,
            OpCode::Less => 6,
            OpCode::Add => 7,
            OpCode::Subtract => 8,
            OpCode::Multiply => 9,
            OpCode::Divide => 10,
            OpCode::Not => 11,
            OpCode::Negate => 12,
            OpCode::Return => 13,
            OpCode::Unknown => 14,
        }
    }

    /// Decodes a byte; every byte no opcode encodes to yields `Unknown`.
    pub fn from_byte(b: u8) -> (r: OpCode)
        ensures
            r == spec_op_from_byte(b),
    {
        if b == 0 {
            OpCode::Constant
        } else if b == 1 {
            OpCode::Nil
        } else if b == 2 {
            OpCode::True
        } else if b == 3 {
            OpCode::False
        } else if b == 4 {
            OpCode::Equal
        } else if b == 5 {
            OpCode::Greater
        } else if b == 6 {
            OpCode::Less
        } else if b == 7 {
            OpCode::Add
        } else if b == 8 {
            OpCode::Subtract
        } else if b == 9 {
            OpCode::Multiply
        } else if b == 10 {
            OpCode::Divide
        } else if b == 11 {
            OpCode::Not
        } else if b == 12 {
            OpCode::Negate
        } else if b == 13 {
            OpCode::Return
        } else {
            OpCode::Unknown
        }
    }
}

/// Decoding inverts encoding on every opcode.
pub proof fn lemma_op_byte_round_trip(op: OpCode)
    ensures
        spec_op_from_byte(spec_op_byte(op)) == op,
{
}

/// Straight-line well-formedness of the code bytes in `[from, to)` against a
/// constant pool of `nconst` entries. Starting from stack depth `d_in`, the
/// bytes decode into whole instructions, every `Constant` operand indexes
/// into the pool, no instruction pops below the values pushed since `from`,
/// no `Return` or unknown byte occurs, and the depth at `to` is `d_out`.
pub open spec fn seg_wf(
    code: Seq<u8>,
    nconst: int,
    from: int,
    to: int,
    d_in: int,
    d_out: int,
) -> bool
    decreases to - from,
{
    if from >= to {
        from == to && d_in == d_out
    } else {
        match spec_op_from_byte(code[from]) {
            OpCode::Constant => from + 1 < to && (code[from + 1] as int) < nconst && seg_wf(
                code,
                nconst,
                from + 2,
                to,
                d_in + 1,
                d_out,
            ),
            OpCode::Nil | OpCode::True | OpCode::False => seg_wf(
                code,
                nconst,
                from + 1,
                to,
                d_in + 1,
                d_out,
            ),
            OpCode::Equal | OpCode::Greater | OpCode::Less | OpCode::Add | OpCode::Subtract
                | OpCode::Multiply | OpCode::Divide => d_in >= 2 && seg_wf(
                code,
                nconst,
                from + 1,
                to,
                d_in - 1,
                d_out,
            ),
            OpCode::Not | OpCode::Negate => d_in >= 1 && seg_wf(
                code,
                nconst,
                from + 1,
                to,
                d_in,
                d_out,
            ),
            OpCode::Return | OpCode::Unknown => false,
        }
    }
}

/// An expression segment: for every starting depth it runs to completion and
/// leaves exactly one more value on the stack.
pub open spec fn expr_seg(code: Seq<u8>, nconst: int, from: int, to: int) -> bool {
    forall|d: int| d >= 0 ==> #[trigger] seg_wf(code, nconst, from, to, d, d + 1)
}

/// The net push/pop effect of the instructions in `[from, to)`.
pub open spec fn net_effect(code: Seq<u8>, from: int, to: int) -> int
    decreases to - from,
{
    if from >= to {
        0
    } else {
        match spec_op_from_byte(code[from]) {
            OpCode::Constant => if from + 2 <= to {
                1 + net_effect(code, from + 2, to)
            } else {
                1
            },
            OpCode::Nil | OpCode::True | OpCode::False => 1 + net_effect(code, from + 1, to),
            OpCode::Equal | OpCode::Greater | OpCode::Less | OpCode::Add | OpCode::Subtract
                | OpCode::Multiply | OpCode::Divide => net_effect(code, from + 1, to) - 1,
            OpCode::Not | OpCode::Negate => net_effect(code, from + 1, to),
            OpCode::Return | OpCode::Unknown => net_effect(code, from + 1, to),
        }
    }
}

/// Every `Constant` byte at an instruction boundary at or after `i` is
/// followed by an operand byte that indexes into the constant pool.
pub open spec fn constant_operands_ok(code: Seq<u8>, nconst: int, i: int) -> bool
    decreases code.len() - i,
{
    if i < 0 || i >= code.len() {
        true
    } else if spec_op_from_byte(code[i]) == OpCode::Constant {
        i + 1 < code.len() && (code[i + 1] as int) < nconst && constant_operands_ok(
            code,
            nconst,
            i + 2,
        )
    } else {
        constant_operands_ok(code, nconst, i + 1)
    }
}

/// Two well-formed segments laid end to end form a well-formed segment.
pub proof fn lemma_seg_wf_concat(
    code: Seq<u8>,
    nconst: int,
    a: int,
    b: int,
    c: int,
    d1: int,
    d2: int,
    d3: int,
)
    requires
        seg_wf(code, nconst, a, b, d1, d2),
        seg_wf(code, nconst, b, c, d2, d3),
        b <= c,
    ensures
        seg_wf(code, nconst, a, c, d1, d3),
    decreases b - a,
{
    if a < b {
        match spec_op_from_byte(code[a]) {
            OpCode::Constant => {
                lemma_seg_wf_concat(code, nconst, a + 2, b, c, d1 + 1, d2, d3);
            },
            OpCode::Nil | OpCode::True | OpCode::False => {
                lemma_seg_wf_concat(code, nconst, a + 1, b, c, d1 + 1, d2, d3);
            },
            OpCode::Equal | OpCode::Greater | OpCode::Less | OpCode::Add | OpCode::Subtract
                | OpCode::Multiply | OpCode::Divide => {
                lemma_seg_wf_concat(code, nconst, a + 1, b, c, d1 - 1, d2, d3);
            },
            OpCode::Not | OpCode::Negate => {
                lemma_seg_wf_concat(code, nconst, a + 1, b, c, d1, d2, d3);
            },
            OpCode::Return | OpCode::Unknown => {},
        }
    }
}

/// A well-formed segment stays well formed when the code around it grows and
/// the constant pool gains entries, as long as the segment's own bytes are
/// unchanged.
pub proof fn lemma_seg_wf_extend(
    code1: Seq<u8>,
    code2: Seq<u8>,
    n1: int,
    n2: int,
    from: int,
    to: int,
    d1: int,
    d2: int,
)
    requires
        seg_wf(code1, n1, from, to, d1, d2),
        n1 <= n2,
        0 <= from,
        to <= code1.len(),
        to <= code2.len(),
        code2.subrange(from, to) == code1.subrange(from, to),
    ensures
        seg_wf(code2, n2, from, to, d1, d2),
    decreases to - from,
{
    if from < to {
        assert(code2.subrange(from, to)[0] == code2[from]);
        assert(code1.subrange(from, to)[0] == code1[from]);
        if from + 1 < to {
            assert(code2.subrange(from, to)[1] == code2[from + 1]);
            assert(code1.subrange(from, to)[1] == code1[from + 1]);
        }
        if from + 1 <= to {
            assert(code2.subrange(from + 1, to) =~= code1.subrange(from + 1, to)) by {
                assert forall|j: int| 0 <= j < to - from - 1 implies #[trigger] code2.subrange(
                    from + 1,
                    to,
                )[j] == code1.subrange(from + 1, to)[j] by {
                    assert(code2.subrange(from, to)[j + 1] == code2[from + 1 + j]);
                    assert(code1.subrange(from, to)[j + 1] == code1[from + 1 + j]);
                }
            }
        }
        if from + 2 <= to {
            assert(code2.subrange(from + 2, to) =~= code1.subrange(from + 2, to)) by {
                assert forall|j: int| 0 <= j < to - from - 2 implies #[trigger] code2.subrange(
                    from + 2,
                    to,
                )[j] == code1.subrange(from + 2, to)[j] by {
                    assert(code2.subrange(from, to)[j + 2] == code2[from + 2 + j]);
                    assert(code1.subrange(from, to)[j + 2] == code1[from + 2 + j]);
                }
            }
        }
        match spec_op_from_byte(code1[from]) {
            OpCode::Constant => {
                lemma_seg_wf_extend(code1, code2, n1, n2, from + 2, to, d1 + 1, d2);
            },
            OpCode::Nil | OpCode::True | OpCode::False => {
                lemma_seg_wf_extend(code1, code2, n1, n2, from + 1, to, d1 + 1, d2);
            },
            OpCode::Equal | OpCode::Greater | OpCode::Less | OpCode::Add | OpCode::Subtract
                | OpCode::Multiply | OpCode::Divide => {
                lemma_seg_wf_extend(code1, code2, n1, n2, from + 1, to, d1 - 1, d2);
            },
            OpCode::Not | OpCode::Negate => {
                lemma_seg_wf_extend(code1, code2, n1, n2, from + 1, to, d1, d2);
            },
            OpCode::Return | OpCode::Unknown => {},
        }
    }
}

/// An operator tail: for every starting depth of at least one (the left
/// operand is already on the stack), it runs to completion and leaves the
/// depth unchanged.
pub open spec fn binary_seg(code: Seq<u8>, nconst: int, from: int, to: int) -> bool {
    forall|d: int| d >= 1 ==> #[trigger] seg_wf(code, nconst, from, to, d, d)
}

/// A prefix of a longer sequence agrees with it on every subrange.
pub proof fn lemma_prefix_subrange<A>(a: Seq<A>, b: Seq<A>, i: int, j: int)
    requires
        0 <= i <= j <= a.len(),
        a.len() <= b.len(),
        b.subrange(0, a.len() as int) == a,
    ensures
        b.subrange(i, j) == a.subrange(i, j),
{
    assert(b.subrange(i, j) =~= a.subrange(i, j)) by {
        assert forall|k: int| 0 <= k < j - i implies #[trigger] b.subrange(i, j)[k] == a.subrange(
            i,
            j,
        )[k] by {
            assert(b.subrange(0, a.len() as int)[i + k] == b[i + k]);
            assert(a[i + k] == b[i + k]);
        }
    }
}

/// A well-formed segment survives appending code and constants at the end.
pub proof fn lemma_seg_wf_grow(
    code1: Seq<u8>,
    code2: Seq<u8>,
    n1: int,
    n2: int,
    from: int,
    to: int,
    d1: int,
    d2: int,
)
    requires
        seg_wf(code1, n1, from, to, d1, d2),
        n1 <= n2,
        0 <= from <= to <= code1.len(),
        code1.len() <= code2.len(),
        code2.subrange(0, code1.len() as int) == code1,
    ensures
        seg_wf(code2, n2, from, to, d1, d2),
{
    lemma_prefix_subrange(code1, code2, from, to);
    lemma_seg_wf_extend(code1, code2, n1, n2, from, to, d1, d2);
}

/// An expression segment survives appending code and constants at the end.
pub proof fn lemma_expr_seg_grow(
    code1: Seq<u8>,
    code2: Seq<u8>,
    n1: int,
    n2: int,
    from: int,
    to: int,
)
    requires
        expr_seg(code1, n1, from, to),
        n1 <= n2,
        0 <= from <= to <= code1.len(),
        code1.len() <= code2.len(),
        code2.subrange(0, code1.len() as int) == code1,
    ensures
        expr_seg(code2, n2, from, to),
{
    assert forall|d: int| d >= 0 implies #[trigger] seg_wf(code2, n2, from, to, d, d + 1) by {
        assert(seg_wf(code1, n1, from, to, d, d + 1));
        lemma_seg_wf_grow(code1, code2, n1, n2, from, to, d, d + 1);
    }
}

/// Starting from a non-negative stack depth, a well-formed segment never
/// drives the depth negative.
pub proof fn lemma_seg_wf_depth_nonneg(
    code: Seq<u8>,
    nconst: int,
    from: int,
    to: int,
    d1: int,
    d2: int,
)
    requires
        seg_wf(code, nconst, from, to, d1, d2),
        d1 >= 0,
    ensures
        d2 >= 0,
    decreases to - from,
{
    if from < to {
        match spec_op_from_byte(code[from]) {
            OpCode::Constant => {
                lemma_seg_wf_depth_nonneg(code, nconst, from + 2, to, d1 + 1, d2);
            },
            OpCode::Nil | OpCode::True | OpCode::False => {
                lemma_seg_wf_depth_nonneg(code, nconst, from + 1, to, d1 + 1, d2);
            },
            OpCode::Equal | OpCode::Greater | OpCode::Less | OpCode::Add | OpCode::Subtract
                | OpCode::Multiply | OpCode::Divide => {
                lemma_seg_wf_depth_nonneg(code, nconst, from + 1, to, d1 - 1, d2);
            },
            OpCode::Not | OpCode::Negate => {
                lemma_seg_wf_depth_nonneg(code, nconst, from + 1, to, d1, d2);
            },
            OpCode::Return | OpCode::Unknown => {},
        }
    }
}

/// Through a well-formed segment, the stack depth changes by exactly the net
/// push/pop effect of its instructions: at every instruction boundary the
/// machine reaches, the depth equals the net effect of the opcodes executed
/// so far (the machine's dispatch loop maintains `seg_wf` from offset zero
/// at depth zero up to its instruction pointer, with the current stack depth
/// as the segment's final depth).
pub proof fn lemma_seg_wf_net(code: Seq<u8>, nconst: int, from: int, to: int, d1: int, d2: int)
    requires
        seg_wf(code, nconst, from, to, d1, d2),
    ensures
        d2 == d1 + net_effect(code, from, to),
    decreases to - from,
{
    if from < to {
        match spec_op_from_byte(code[from]) {
            OpCode::Constant => {
                lemma_seg_wf_net(code, nconst, from + 2, to, d1 + 1, d2);
            },
            OpCode::Nil | OpCode::True | OpCode::False => {
                lemma_seg_wf_net(code, nconst, from + 1, to, d1 + 1, d2);
            },
            OpCode::Equal | OpCode::Greater | OpCode::Less | OpCode::Add | OpCode::Subtract
                | OpCode::Multiply | OpCode::Divide => {
                lemma_seg_wf_net(code, nconst, from + 1, to, d1 - 1, d2);
            },
            OpCode::Not | OpCode::Negate => {
                lemma_seg_wf_net(code, nconst, from + 1, to, d1, d2);
            },
            OpCode::Return | OpCode::Unknown => {},
        }
    }
}

/// In a well-formed segment closed by a final `Return` byte, every `Constant`
/// operand indexes into the pool.
pub proof fn lemma_seg_wf_constants_ok(
    code: Seq<u8>,
    nconst: int,
    from: int,
    d1: int,
    d2: int,
)
    requires
        code.len() >= 1,
        0 <= from,
        seg_wf(code, nconst, from, code.len() - 1, d1, d2),
        spec_op_from_byte(code[code.len() - 1]) == OpCode::Return,
    ensures
        constant_operands_ok(code, nconst, from),
    decreases code.len() - from,
{
    let to = code.len() - 1;
    assert(constant_operands_ok(code, nconst, code.len() as int));
    if from < to {
        match spec_op_from_byte(code[from]) {
            OpCode::Constant => {
                lemma_seg_wf_constants_ok(code, nconst, from + 2, d1 + 1, d2);
            },
            OpCode::Nil | OpCode::True | OpCode::False => {
                lemma_seg_wf_constants_ok(code, nconst, from + 1, d1 + 1, d2);
            },
            OpCode::Equal | OpCode::Greater | OpCode::Less | OpCode::Add | OpCode::Subtract
                | OpCode::Multiply | OpCode::Divide => {
                lemma_seg_wf_constants_ok(code, nconst, from + 1, d1 - 1, d2);
            },
            OpCode::Not | OpCode::Negate => {
                lemma_seg_wf_constants_ok(code, nconst, from + 1, d1, d2);
            },
            OpCode::Return | OpCode::Unknown => {},
        }
    }
}

/// A unit of compiled bytecode: the code bytes, one source line per byte,
/// and the constant pool the code indexes into.
pub struct Chunk {
    code: Vec<u8>,
    lines: Vec<usize>,
    constants: ValueArray,
}

impl Chunk {
    /// The code bytes.
    pub closed spec fn code(&self) -> Seq<u8> {
        self.code@
    }

    /// The line table.
    pub closed spec fn line_table(&self) -> Seq<usize> {
        self.lines@
    }

    /// The constant pool.
    pub closed spec fn constants(&self) -> Seq<Value> {
        self.constants@
    }

    /// The chunk's invariant: the line table is exactly parallel to the code.
    pub open spec fn wf(&self) -> bool {
        self.line_table().len() == self.code().len()
    }

    pub fn new() -> (r: Self)
        ensures
            r.wf(),
            r.code() == Seq::<u8>::empty(),
            r.line_table() == Seq::<usize>::empty(),
            r.constants() == Seq::<Value>::empty(),
    {
        Chunk { code: Vec::new(), constants: ValueArray::new(), lines: Vec::new() }
    }

    /// Appends one byte together with the source line it came from.
    pub fn write(&mut self, byte: u8, line: usize)
        requires
            old(self).wf(),
        ensures
            final(self).wf(),
            final(self).code() == old(self).code().push(byte),
            final(self).line_table() == old(self).line_table().push(line),
            final(self).constants() == old(self).constants(),
    {
        self.code.push(byte);
        self.lines.push(line)
    }

    /// The code byte at `ip`.
    pub fn get(&self, ip: usize) -> (r: u8)
        requires
            ip < self.code().len(),
        ensures
            r == self.code()[ip as int],
    {
        self.code[ip]
    }

    /// The line recorded for the byte at `ip`.
    pub fn get_line(&self, ip: usize) -> (r: usize)
        requires
            ip < self.line_table().len(),
        ensures
            r == self.line_table()[ip as int],
    {
        self.lines[ip]
    }

    /// How many code bytes the chunk holds.
    pub fn count(&self) -> (r: usize)
        ensures
            r == self.code().len(),
    {
        self.code.len()
    }

    /// Appends a value to the constant pool and returns its index. The pool
    /// itself has no cap; the compiler refuses indexes above 255.
    pub fn add_constant(&mut self, value: Value) -> (r: usize)
        requires
            old(self).constants().len() < usize::MAX,
        ensures
            final(self).wf() == old(self).wf(),
            final(self).code() == old(self).code(),
            final(self).line_table() == old(self).line_table(),
            final(self).constants() == old(self).constants().push(value),
            r == old(self).constants().len(),
    {
        self.constants.write(value);
        self.constants.len() - 1
    }

    /// The constant at index `seq`.
    pub fn get_constant(&self, seq: usize) -> (r: Value)
        requires
            seq < self.constants().len(),
        ensures
            r == self.constants()[seq as int],
    {
        self.constants.get(seq)
    }

    /// How many constants the pool holds.
    pub fn constants_count(&self) -> (r: usize)
        ensures
            r == self.constants().len(),
    {
        self.constants.len()
    }

    /// Decodes the instruction at `offset`: its opcode, the operand byte of a
    /// `Constant` instruction when one is present, and the offset of the next
    /// instruction. Total on every byte, for the disassembler's sake.
    pub fn decode_instruction(&self, offset: usize) -> (r: (OpCode, Option<u8>, usize))
        requires
            offset < self.code().len(),
        ensures
            r.0 == spec_op_from_byte(self.code()[offset as int]),
            r.0 == OpCode::Constant && offset + 1 < self.code().len() ==> r.1 == Some(
                self.code()[offset + 1],
            ) && r.2 == offset + 2,
            r.0 == OpCode::Constant && offset + 1 >= self.code().len() ==> r.1 == None::<u8> && r.2
                == self.code().len(),
            r.0 != OpCode::Constant ==> r.1 == None::<u8> && r.2 == offset + 1,
            offset < r.2 <= self.code().len(),
    {
        let n = self.code.len();
        let op = OpCode::from_byte(self.code[offset]);
        if op == OpCode::Constant {
            if offset + 1 < n {
                (op, Some(self.code[offset + 1]), offset + 2)
            } else {
                (op, None, n)
            }
        } else {
            (op, None, offset + 1)
        }
    }
}

/// A chunk the virtual machine may run: the line table is parallel to the
/// code, the code is a well-formed expression segment that leaves exactly
/// one value on the stack, and its final byte is `Return`.
pub open spec fn chunk_ready(c: &Chunk) -> bool {
    &&& c.wf()
    &&& c.code().len() >= 1
    &&& spec_op_from_byte(c.code()[c.code().len() - 1]) == OpCode::Return
    &&& seg_wf(c.code(), c.constants().len() as int, 0, c.code().len() - 1, 0, 1)
}

/// In a ready chunk, every `Constant` byte is followed by an operand byte
/// that indexes into the constant pool.
pub proof fn lemma_chunk_ready_constants_ok(c: &Chunk)
    requires
        chunk_ready(c),
    ensures
        constant_operands_ok(c.code(), c.constants().len() as int, 0),
{
    lemma_seg_wf_constants_ok(c.code(), c.constants().len() as int, 0, 0, 1);
}

} // verus!
