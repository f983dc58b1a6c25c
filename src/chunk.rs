use vstd::prelude::*;

use crate::buffer::GrowableBuffer;
use crate::lines::{starts_line, LineTable};

verus! {

pub const OP_CONSTANT: u8 = 0;

pub const OP_CONSTANT_LONG: u8 = 1;

pub const OP_RETURN: u8 = 2;

/// The largest constant index that the one-byte form can address.
pub const SHORT_INDEX_MAX: usize = 255;

/// A decoded instruction kind with its operand.
#[derive(Clone, Copy, Debug, PartialEq, Eq, Structural)]
pub enum OpCode {
    /// Loads the constant at a one-byte index.
    Constant(usize),
    /// Loads the constant at an eight-byte little-endian index.
    ConstantLong(usize),
    Return,
}

/// One decoded instruction of a chunk, as the disassembler lists it.
#[derive(Clone, Copy, Debug, PartialEq, Eq, Structural)]
pub struct Instruction {
    pub offset: usize,
    pub op_code: OpCode,
    pub line: usize,
    /// Whether the instruction's first byte is the first byte of its line.
    pub starts_line: bool,
}

#[derive(Clone, Copy, Debug, PartialEq, Eq, Structural)]
pub enum ChunkError {
    /// A one-byte constant operand was asked for an index above 255.
    TooManyConstants,
    /// The stream holds an unknown opcode, a cut-off operand, or an index
    /// outside the constant pool.
    CorruptStream,
}

/// The eight little-endian bytes of a long constant index.
pub open spec fn long_index_bytes(i: u64) -> Seq<u8> {
    seq![
        i as u8,
        (i >> 8u64) as u8,
        (i >> 16u64) as u8,
        (i >> 24u64) as u8,
        (i >> 32u64) as u8,
        (i >> 40u64) as u8,
        (i >> 48u64) as u8,
        (i >> 56u64) as u8,
    ]
}

/// The index that the eight bytes from `at` encode, little-endian.
pub open spec fn long_index_at(code: Seq<u8>, at: int) -> u64 {
    (code[at] as u64) | ((code[at + 1] as u64) << 8u64) | ((code[at + 2] as u64) << 16u64) | ((
    code[at + 3] as u64) << 24u64) | ((code[at + 4] as u64) << 32u64) | ((code[at + 5] as u64)
        << 40u64) | ((code[at + 6] as u64) << 48u64) | ((code[at + 7] as u64) << 56u64)
}

/// The bytes that an instruction is written as.
pub open spec fn encode(op: OpCode) -> Seq<u8> {
    match op {
        OpCode::Constant(i) => seq![OP_CONSTANT, i as u8],
        OpCode::ConstantLong(i) => seq![OP_CONSTANT_LONG] + long_index_bytes(i as u64),
        OpCode::Return => seq![OP_RETURN],
    }
}

/// The instruction that starts at `off` and its length in bytes, for a
/// pool of `n_consts` constants; `None` where the stream is corrupt there.
pub open spec fn decode_at(code: Seq<u8>, n_consts: nat, off: int) -> Option<(OpCode, usize)> {
    if off < 0 || off >= code.len() {
        None
    } else if code[off] == OP_CONSTANT {
        if off + 2 <= code.len() && (code[off + 1] as nat) < n_consts {
            Some((OpCode::Constant(code[off + 1] as usize), 2usize))
        } else {
            None
        }
    } else if code[off] == OP_CONSTANT_LONG {
        if off + 9 <= code.len() && (long_index_at(code, off + 1) as nat) < n_consts {
            Some((OpCode::ConstantLong(long_index_at(code, off + 1) as usize), 9usize))
        } else {
            None
        }
    } else if code[off] == OP_RETURN {
        Some((OpCode::Return, 1usize))
    } else {
        None
    }
}

/// `rest` with `first` put before it, when there is a `rest`.
pub open spec fn prepend<A>(first: Seq<A>, rest: Option<Seq<A>>) -> Option<Seq<A>> {
    match rest {
        Some(r) => Some(first + r),
        None => None,
    }
}

/// The instructions from `off` to the end of the stream, each with its
/// offset; `None` where one of them is corrupt.
pub open spec fn decode_from(code: Seq<u8>, n_consts: nat, off: int) -> Option<
    Seq<(usize, OpCode)>,
>
    decreases code.len() - off,
{
    if off < 0 || off >= code.len() {
        Some(Seq::empty())
    } else {
        match decode_at(code, n_consts, off) {
            None => None,
            Some((op, len)) => prepend(
                seq![(off as usize, op)],
                decode_from(code, n_consts, off + len),
            ),
        }
    }
}

/// The short form when the index fits one byte, the long form otherwise.
pub open spec fn constant_op(index: usize) -> OpCode {
    if index <= SHORT_INDEX_MAX {
        OpCode::Constant(index)
    } else {
        OpCode::ConstantLong(index)
    }
}

/// `lines` followed by `n` more bytes of `line`.
pub open spec fn with_line(lines: Seq<usize>, line: usize, n: nat) -> Seq<usize> {
    lines + Seq::new(n, |k: int| line)
}

/// The instruction record of the instruction `op` found at `off`.
pub open spec fn instruction_record(lines: Seq<usize>, off: usize, op: OpCode) -> Instruction {
    Instruction {
        offset: off,
        op_code: op,
        line: lines[off as int],
        starts_line: starts_line(lines, off as int),
    }
}

proof fn lemma_long_index_round_trip(i: u64)
    ensures
        long_index_at(long_index_bytes(i), 0) == i,
{
    let b = long_index_bytes(i);
    assert(long_index_at(b, 0) == (i as u8 as u64) | (((i >> 8u64) as u8 as u64) << 8u64) | (((i
        >> 16u64) as u8 as u64) << 16u64) | (((i >> 24u64) as u8 as u64) << 24u64) | (((i
        >> 32u64) as u8 as u64) << 32u64) | (((i >> 40u64) as u8 as u64) << 40u64) | (((i
        >> 48u64) as u8 as u64) << 48u64) | (((i >> 56u64) as u8 as u64) << 56u64));
    assert((i as u8 as u64) | (((i >> 8u64) as u8 as u64) << 8u64) | (((i >> 16u64) as u8 as u64)
        << 16u64) | (((i >> 24u64) as u8 as u64) << 24u64) | (((i >> 32u64) as u8 as u64)
        << 32u64) | (((i >> 40u64) as u8 as u64) << 40u64) | (((i >> 48u64) as u8 as u64)
        << 48u64) | (((i >> 56u64) as u8 as u64) << 56u64) == i) by (bit_vector);
}

/// What an encoded instruction at the end of a stream decodes to.
proof fn lemma_decode_encoded(code: Seq<u8>, n_consts: nat, op: OpCode)
    requires
        match op {
            OpCode::Constant(i) => i <= SHORT_INDEX_MAX && i < n_consts,
            OpCode::ConstantLong(i) => i < n_consts,
            OpCode::Return => true,
        },
    ensures
        decode_at(code + encode(op), n_consts, code.len() as int) == Some(
            (op, encode(op).len() as usize),
        ),
{
    let s = code + encode(op);
    let at = code.len() as int;
    match op {
        OpCode::ConstantLong(i) => {
            lemma_long_index_round_trip(i as u64);
            let b = long_index_bytes(i as u64);
            assert(forall|k: int| 0 <= k < 8 ==> s[at + 1 + k] == #[trigger] b[k]);
            assert(long_index_at(s, at + 1) == long_index_at(b, 0));
        },
        _ => {},
    }
}

/// The first 256 constants, indices 0 to 255, are loaded by the two-byte
/// short form; every later one by the long form, its opcode followed by
/// eight index bytes that decode back to the index.
pub proof fn law_short_long_boundary(index: usize)
    ensures
        index <= SHORT_INDEX_MAX ==> encode(constant_op(index)) == seq![OP_CONSTANT, index as u8],
        index > SHORT_INDEX_MAX ==> encode(constant_op(index)).len() == 9 && encode(
            constant_op(index),
        )[0] == OP_CONSTANT_LONG && long_index_at(encode(constant_op(index)), 1) == index,
{
    if index > SHORT_INDEX_MAX {
        lemma_long_index_round_trip(index as u64);
        let e = encode(constant_op(index));
        let b = long_index_bytes(index as u64);
        assert(forall|k: int| 0 <= k < 8 ==> e[1 + k] == #[trigger] b[k]);
        assert(long_index_at(e, 1) == long_index_at(b, 0));
    }
}

/// An append-only table of constant values, indexed by position.
pub struct ConstantPool<V> {
    values: GrowableBuffer<V>,
}

impl<V> View for ConstantPool<V> {
    type V = Seq<V>;

    closed spec fn view(&self) -> Seq<V> {
        self.values@
    }
}

impl<V> ConstantPool<V> {
    pub closed spec fn wf(&self) -> bool {
        self.values.wf()
    }

    pub fn new() -> (r: Self)
        ensures
            r.wf(),
            r@ == Seq::<V>::empty(),
    {
        ConstantPool { values: GrowableBuffer::new() }
    }

    /// Appends `value` and returns its index.
    pub fn add(&mut self, value: V) -> (r: usize)
        requires
            old(self).wf(),
            old(self)@.len() < usize::MAX / 2,
        ensures
            final(self).wf(),
            final(self)@ == old(self)@.push(value),
            r == old(self)@.len(),
    {
        self.values.push(value);
        self.values.len() - 1
    }

    pub fn len(&self) -> (r: usize)
        ensures
            r == self@.len(),
    {
        self.values.len()
    }

    pub fn get(&self, index: usize) -> (r: &V)
        requires
            index < self@.len(),
        ensures
            *r == self@[index as int],
    {
        self.values.get(index)
    }
}

/// One compiled unit: a byte stream of instructions, the constants they
/// load, and the source line of every byte.
pub struct Chunk<V> {
    code: GrowableBuffer<u8>,
    constants: ConstantPool<V>,
    lines: LineTable,
}

impl<V> Default for Chunk<V> {
    fn default() -> (r: Self)
        ensures
            r.wf(),
            r.bytes() == Seq::<u8>::empty(),
            r.consts() == Seq::<V>::empty(),
            r.line_seq() == Seq::<usize>::empty(),
    {
        Chunk::new()
    }
}

impl<V> Chunk<V> {
    pub closed spec fn bytes(&self) -> Seq<u8> {
        self.code@
    }

    pub closed spec fn consts(&self) -> Seq<V> {
        self.constants@
    }

    pub closed spec fn line_seq(&self) -> Seq<usize> {
        self.lines@
    }

    pub closed spec fn wf(&self) -> bool {
        &&& self.code.wf()
        &&& self.constants.wf()
        &&& self.lines.wf()
        &&& self.lines@.len() == self.code@.len()
    }

    /// Room in the stream for one more instruction.
    pub open spec fn has_room(&self) -> bool {
        self.bytes().len() + 9 < usize::MAX / 2
    }

    pub fn new() -> (r: Self)
        ensures
            r.wf(),
            r.bytes() == Seq::<u8>::empty(),
            r.consts() == Seq::<V>::empty(),
            r.line_seq() == Seq::<usize>::empty(),
    {
        Chunk { code: GrowableBuffer::new(), constants: ConstantPool::new(), lines: LineTable::new() }
    }

    /// Appends one byte to the stream and attributes it to `line`.
    pub fn write_byte(&mut self, byte: u8, line: usize)
        requires
            old(self).wf(),
            old(self).bytes().len() < usize::MAX / 2,
        ensures
            final(self).wf(),
            final(self).bytes() == old(self).bytes().push(byte),
            final(self).line_seq() == old(self).line_seq().push(line),
            final(self).consts() == old(self).consts(),
    {
        self.code.push(byte);
        self.lines.record(line);
    }

    fn write_long_index(&mut self, index: usize, line: usize)
        requires
            old(self).wf(),
            old(self).bytes().len() + 8 < usize::MAX / 2,
        ensures
            final(self).wf(),
            final(self).bytes() == old(self).bytes() + long_index_bytes(index as u64),
            final(self).line_seq() == with_line(old(self).line_seq(), line, 8),
            final(self).consts() == old(self).consts(),
    {
        let ghost l0 = self.line_seq();
        let x = index as u64;
        self.write_byte(#[verifier::truncate] (x as u8), line);
        self.write_byte(#[verifier::truncate] ((x >> 8u64) as u8), line);
        self.write_byte(#[verifier::truncate] ((x >> 16u64) as u8), line);
        self.write_byte(#[verifier::truncate] ((x >> 24u64) as u8), line);
        self.write_byte(#[verifier::truncate] ((x >> 32u64) as u8), line);
        self.write_byte(#[verifier::truncate] ((x >> 40u64) as u8), line);
        self.write_byte(#[verifier::truncate] ((x >> 48u64) as u8), line);
        self.write_byte(#[verifier::truncate] ((x >> 56u64) as u8), line);
        assert(self.bytes() =~= old(self).bytes() + long_index_bytes(x));
        assert(self.line_seq() =~= with_line(l0, line, 8));
    }

    /// Appends the bytes of `op_code`, all attributed to `line`. A one-byte
    /// constant operand above 255 is refused and leaves the chunk unchanged.
    pub fn push(&mut self, op_code: OpCode, line: usize) -> (r: Result<(), ChunkError>)
        requires
            old(self).wf(),
            old(self).has_room(),
        ensures
            final(self).wf(),
            final(self).consts() == old(self).consts(),
            match op_code {
                OpCode::Constant(i) => i > SHORT_INDEX_MAX,
                _ => false,
            } ==> r == Err::<(), ChunkError>(ChunkError::TooManyConstants) && final(self).bytes()
                == old(self).bytes() && final(self).line_seq() == old(self).line_seq(),
            r is Ok ==> final(self).bytes() == old(self).bytes() + encode(op_code)
                && final(self).line_seq() == with_line(
                old(self).line_seq(),
                line,
                encode(op_code).len(),
            ),
            match op_code {
                OpCode::Constant(i) => i <= SHORT_INDEX_MAX,
                _ => true,
            } ==> r is Ok,
    {
        let ghost l0 = self.line_seq();
        match op_code {
            OpCode::Constant(i) => {
                if i > SHORT_INDEX_MAX {
                    return Err(ChunkError::TooManyConstants);
                }
                self.write_byte(OP_CONSTANT, line);
                self.write_byte(i as u8, line);
                assert(with_line(l0, line, 2) =~= l0.push(line).push(line));
            },
            OpCode::ConstantLong(i) => {
                self.write_byte(OP_CONSTANT_LONG, line);
                self.write_long_index(i, line);
                assert(with_line(l0, line, 9) =~= with_line(l0.push(line), line, 8));
            },
            OpCode::Return => {
                self.write_byte(OP_RETURN, line);
                assert(with_line(l0, line, 1) =~= l0.push(line));
            },
        }
        assert(self.bytes() =~= old(self).bytes() + encode(op_code));
        Ok(())
    }

    /// Adds `value` to the pool and appends the instruction that loads it:
    /// the one-byte form while the index fits a byte, the long form after.
    /// Returns the index.
    pub fn push_constant(&mut self, value: V, line: usize) -> (r: usize)
        requires
            old(self).wf(),
            old(self).has_room(),
            old(self).consts().len() < usize::MAX / 2,
        ensures
            final(self).wf(),
            r == old(self).consts().len(),
            final(self).consts() == old(self).consts().push(value),
            final(self).bytes() == old(self).bytes() + encode(constant_op(r)),
            final(self).line_seq() == with_line(
                old(self).line_seq(),
                line,
                encode(constant_op(r)).len(),
            ),
            decode_at(final(self).bytes(), final(self).consts().len(), old(self).bytes().len() as int)
                == Some((constant_op(r), encode(constant_op(r)).len() as usize)),
    {
        let index = self.constants.add(value);
        let op = if index <= SHORT_INDEX_MAX {
            OpCode::Constant(index)
        } else {
            OpCode::ConstantLong(index)
        };
        let _ = self.push(op, line);
        proof {
            lemma_decode_encoded(old(self).bytes(), self.consts().len(), op);
        }
        index
    }

    pub fn code(&self) -> (r: &Vec<u8>)
        ensures
            r@ == self.bytes(),
    {
        self.code.as_vec()
    }

    pub fn constant_count(&self) -> (r: usize)
        ensures
            r == self.consts().len(),
    {
        self.constants.len()
    }

    pub fn constant(&self, index: usize) -> (r: &V)
        requires
            index < self.consts().len(),
        ensures
            *r == self.consts()[index as int],
    {
        self.constants.get(index)
    }

    /// The instruction that starts at `offset` and its length in bytes, or
    /// `None` where the stream is corrupt there.
    pub fn decode(&self, offset: usize) -> (r: Option<(OpCode, usize)>)
        requires
            self.wf(),
        ensures
            r == decode_at(self.bytes(), self.consts().len(), offset as int),
    {
        let code = self.code.as_vec();
        let n = code.len();
        if offset >= n {
            return None;
        }
        let op = code[offset];
        if op == OP_CONSTANT {
            if n - offset >= 2 && (code[offset + 1] as usize) < self.constants.len() {
                Some((OpCode::Constant(code[offset + 1] as usize), 2))
            } else {
                None
            }
        } else if op == OP_CONSTANT_LONG {
            if n - offset >= 9 {
                let at = offset + 1;
                let v: u64 = (code[at] as u64) | ((code[at + 1] as u64) << 8u64) | ((code[at
                    + 2] as u64) << 16u64) | ((code[at + 3] as u64) << 24u64) | ((code[at + 4]
                    as u64) << 32u64) | ((code[at + 5] as u64) << 40u64) | ((code[at + 6] as u64)
                    << 48u64) | ((code[at + 7] as u64) << 56u64);
                if v < self.constants.len() as u64 {
                    Some((OpCode::ConstantLong(v as usize), 9))
                } else {
                    None
                }
            } else {
                None
            }
        } else if op == OP_RETURN {
            Some((OpCode::Return, 1))
        } else {
            None
        }
    }

    /// Every instruction of the stream from offset 0 in order, each with its
    /// line and whether it starts that line; `CorruptStream` where one of them
    /// cannot be decoded.
    pub fn instructions(&self) -> (r: Result<Vec<Instruction>, ChunkError>)
        requires
            self.wf(),
        ensures
            match decode_from(self.bytes(), self.consts().len(), 0) {
                Some(s) => r is Ok && r->Ok_0@ == s.map_values(
                    |p: (usize, OpCode)| instruction_record(self.line_seq(), p.0, p.1),
                ),
                None => r == Err::<Vec<Instruction>, ChunkError>(ChunkError::CorruptStream),
            },
    {
        let ghost code = self.bytes();
        let ghost nc = self.consts().len();
        let ghost lines = self.line_seq();
        let n = self.code.len();
        let mut out: Vec<Instruction> = Vec::new();
        let ghost done: Seq<(usize, OpCode)> = Seq::empty();
        let mut off: usize = 0;
        while off < n
            invariant
                self.wf(),
                code == self.bytes(),
                nc == self.consts().len(),
                lines == self.line_seq(),
                n == code.len(),
                off <= n,
                decode_from(code, nc, 0) == prepend(done, decode_from(code, nc, off as int)),
                out@ == done.map_values(
                    |p: (usize, OpCode)| instruction_record(lines, p.0, p.1),
                ),
            decreases n - off,
        {
            match self.decode(off) {
                None => {
                    return Err(ChunkError::CorruptStream);
                },
                Some((op, len)) => {
                    let (line, first) = self.lines.lookup(off);
                    out.push(Instruction { offset: off, op_code: op, line, starts_line: first });
                    proof {
                        let rest = decode_from(code, nc, off + len);
                        let step = seq![(off, op)];
                        match rest {
                            Some(r) => {
                                assert(done + (step + r) =~= (done + step) + r);
                            },
                            None => {},
                        }
                        done = done + step;
                        assert(out@ =~= done.map_values(
                            |p: (usize, OpCode)| instruction_record(lines, p.0, p.1),
                        ));
                    }
                    off = off + len;
                },
            }
        }
        proof {
            assert(done + Seq::<(usize, OpCode)>::empty() =~= done);
        }
        Ok(out)
    }

    /// The source line of the byte at `offset`, and whether that byte is the
    /// first of its line.
    pub fn line_at(&self, offset: usize) -> (r: (usize, bool))
        requires
            self.wf(),
            offset < self.bytes().len(),
        ensures
            r.0 == self.line_seq()[offset as int],
            r.1 == starts_line(self.line_seq(), offset as int),
    {
        self.lines.lookup(offset)
    }
}

} // verus!
