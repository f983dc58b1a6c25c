use vstd::prelude::*;
use vstd::string::StringExecFns;

use crate::chunk::{decode_at, decode_from, instruction_record, Chunk, ChunkError, Instruction, OpCode};

verus! {

pub open spec fn digit(d: nat) -> char {
    seq!['0', '1', '2', '3', '4', '5', '6', '7', '8', '9'][d as int]
}

/// The decimal digits of `n`, most significant first, without leading zeros.
pub open spec fn decimal(n: nat) -> Seq<char>
    decreases n,
{
    if n < 10 {
        seq![digit(n)]
    } else {
        decimal(n / 10) + seq![digit(n % 10)]
    }
}

/// `s` preceded by copies of `fill` up to `width` characters.
pub open spec fn pad_left(s: Seq<char>, width: nat, fill: char) -> Seq<char> {
    if s.len() >= width {
        s
    } else {
        Seq::new((width - s.len()) as nat, |k: int| fill) + s
    }
}

/// `s` followed by spaces up to `width` characters.
pub open spec fn pad_right(s: Seq<char>, width: nat) -> Seq<char> {
    if s.len() >= width {
        s
    } else {
        s + Seq::new((width - s.len()) as nat, |k: int| ' ')
    }
}

pub open spec fn mnemonic(op: OpCode) -> Seq<char> {
    match op {
        OpCode::Constant(_) => seq!['O', 'P', '_', 'C', 'O', 'N', 'S', 'T', 'A', 'N', 'T'],
        OpCode::ConstantLong(_) => seq![
            'O',
            'P',
            '_',
            'C',
            'O',
            'N',
            'S',
            'T',
            'A',
            'N',
            'T',
            '_',
            'L',
            'O',
            'N',
            'G',
        ],
        OpCode::Return => seq!['O', 'P', '_', 'R', 'E', 'T', 'U', 'R', 'N'],
    }
}

/// One line of the listing: the offset zero-padded to four digits, the line
/// right-aligned to four columns or `   |` for a byte that continues its
/// line, then the mnemonic; a constant load adds its index and the text of
/// its value, quoted.
pub open spec fn instruction_text(ins: Instruction, constant_texts: Seq<Seq<char>>) -> Seq<char> {
    head_text(ins) + body_text(ins.op_code, constant_texts)
}

/// The offset and line columns of a listing line.
pub open spec fn head_text(ins: Instruction) -> Seq<char> {
    pad_left(decimal(ins.offset as nat), 4, '0') + seq![' '] + (if ins.starts_line {
        pad_left(decimal(ins.line as nat), 4, ' ')
    } else {
        seq![' ', ' ', ' ', '|']
    }) + seq![' ']
}

/// The mnemonic and operand columns of a listing line.
pub open spec fn body_text(op: OpCode, constant_texts: Seq<Seq<char>>) -> Seq<char> {
    match op {
        OpCode::Return => mnemonic(op) + seq!['\n'],
        OpCode::Constant(i) | OpCode::ConstantLong(i) => pad_right(mnemonic(op), 16) + seq![' ']
            + pad_left(decimal(i as nat), 4, ' ') + seq![' ', '\''] + constant_texts[i as int]
            + seq!['\'', '\n'],
    }
}

/// The lines of all of `ins`, in order.
pub open spec fn listing_text(ins: Seq<Instruction>, constant_texts: Seq<Seq<char>>) -> Seq<char>
    decreases ins.len(),
{
    if ins.len() == 0 {
        Seq::empty()
    } else {
        listing_text(ins.drop_last(), constant_texts) + instruction_text(ins.last(), constant_texts)
    }
}

/// The header naming the chunk.
pub open spec fn header_text(name: Seq<char>) -> Seq<char> {
    seq!['=', '=', ' '] + name + seq![' ', '=', '=', '\n']
}

fn digit_str(d: usize) -> (r: &'static str)
    requires
        d < 10,
    ensures
        r@ == seq![digit(d as nat)],
{
    proof {
        reveal_strlit("0");
        reveal_strlit("1");
        reveal_strlit("2");
        reveal_strlit("3");
        reveal_strlit("4");
        reveal_strlit("5");
        reveal_strlit("6");
        reveal_strlit("7");
        reveal_strlit("8");
        reveal_strlit("9");
    }
    match d {
        0 => "0",
        1 => "1",
        2 => "2",
        3 => "3",
        4 => "4",
        5 => "5",
        6 => "6",
        7 => "7",
        8 => "8",
        _ => "9",
    }
}

fn append_decimal(out: &mut String, n: usize)
    ensures
        final(out)@ == old(out)@ + decimal(n as nat),
    decreases n,
{
    if n >= 10 {
        append_decimal(out, n / 10);
        out.append(digit_str(n % 10));
        assert(final(out)@ =~= old(out)@ + decimal(n as nat)) by {
            assert(decimal(n as nat) == decimal((n / 10) as nat) + seq![digit((n % 10) as nat)]);
        }
    } else {
        out.append(digit_str(n));
    }
}

fn decimal_len(n: usize) -> (r: usize)
    ensures
        r == decimal(n as nat).len(),
        r <= 20,
    decreases n,
{
    if n >= 10 {
        let k = decimal_len(n / 10);
        proof {
            lemma_decimal_len_bound(n as nat);
        }
        k + 1
    } else {
        1
    }
}

proof fn lemma_decimal_len_bound(n: nat)
    requires
        n <= usize::MAX,
    ensures
        decimal(n).len() <= 20,
{
    reveal_with_fuel(pow10, 21);
    assert(pow10(20) == 100000000000000000000nat);
    lemma_decimal_len_pow(n, 20);
}

/// Below `10^k` a number has at most `k` digits.
proof fn lemma_decimal_len_pow(n: nat, k: nat)
    requires
        k >= 1,
        n < pow10(k),
    ensures
        decimal(n).len() <= k,
    decreases k,
{
    if n >= 10 && k > 1 {
        assert(n / 10 < pow10((k - 1) as nat)) by (nonlinear_arith)
            requires
                n < pow10(k),
                pow10(k) == 10 * pow10((k - 1) as nat),
        ;
        lemma_decimal_len_pow(n / 10, (k - 1) as nat);
        assert(decimal(n) == decimal(n / 10) + seq![digit(n % 10)]);
    } else if n >= 10 {
        assert(pow10(1) == 10 * pow10(0));
    }
}

spec fn pow10(k: nat) -> nat
    decreases k,
{
    if k == 0 {
        1
    } else {
        10 * pow10((k - 1) as nat)
    }
}

/// Appends `count` copies of the one-character `piece`.
fn append_repeat(out: &mut String, piece: &str, count: usize)
    requires
        piece@.len() == 1,
    ensures
        final(out)@ == old(out)@ + Seq::new(count as nat, |k: int| piece@[0]),
{
    let mut i: usize = 0;
    while i < count
        invariant
            i <= count,
            piece@.len() == 1,
            out@ == old(out)@ + Seq::new(i as nat, |k: int| piece@[0]),
        decreases count - i,
    {
        out.append(piece);
        i = i + 1;
        assert(out@ =~= old(out)@ + Seq::new(i as nat, |k: int| piece@[0]));
    }
}

/// Appends `n` in decimal, preceded by `fill` up to `width` characters.
fn append_padded(out: &mut String, n: usize, width: usize, fill: &str)
    requires
        fill@.len() == 1,
    ensures
        final(out)@ == old(out)@ + pad_left(decimal(n as nat), width as nat, fill@[0]),
{
    let len = decimal_len(n);
    if len < width {
        append_repeat(out, fill, width - len);
    }
    append_decimal(out, n);
    assert(final(out)@ =~= old(out)@ + pad_left(decimal(n as nat), width as nat, fill@[0]));
}

/// The text of each constant, as the listing quotes it.
pub open spec fn texts_view(constant_texts: Seq<String>) -> Seq<Seq<char>> {
    constant_texts.map_values(|t: String| t@)
}

/// Whether the constant that `op` loads, if any, has a text.
pub open spec fn has_text(op: OpCode, n_texts: nat) -> bool {
    match op {
        OpCode::Constant(i) | OpCode::ConstantLong(i) => i < n_texts,
        OpCode::Return => true,
    }
}

fn mnemonic_str(op: OpCode) -> (r: &'static str)
    ensures
        r@ == mnemonic(op),
{
    proof {
        reveal_strlit("OP_CONSTANT");
        reveal_strlit("OP_CONSTANT_LONG");
        reveal_strlit("OP_RETURN");
    }
    match op {
        OpCode::Constant(_) => "OP_CONSTANT",
        OpCode::ConstantLong(_) => "OP_CONSTANT_LONG",
        OpCode::Return => "OP_RETURN",
    }
}

fn append_head(out: &mut String, ins: &Instruction)
    ensures
        final(out)@ == old(out)@ + head_text(*ins),
{
    proof {
        reveal_strlit(" ");
        reveal_strlit("0");
        reveal_strlit("   |");
    }
    let ghost start = out@;
    append_padded(out, ins.offset, 4, "0");
    out.append(" ");
    if ins.starts_line {
        append_padded(out, ins.line, 4, " ");
    } else {
        out.append("   |");
    }
    out.append(" ");
    assert(out@ =~= start + head_text(*ins));
}

fn append_body(out: &mut String, op: OpCode, constant_texts: &Vec<String>)
    requires
        has_text(op, constant_texts@.len()),
    ensures
        final(out)@ == old(out)@ + body_text(op, texts_view(constant_texts@)),
{
    proof {
        reveal_strlit(" ");
        reveal_strlit(" '");
        reveal_strlit("'\n");
        reveal_strlit("\n");
    }
    let ghost start = out@;
    match op {
        OpCode::Return => {
            out.append(mnemonic_str(op));
            out.append("\n");
        },
        OpCode::Constant(i) | OpCode::ConstantLong(i) => {
            out.append(mnemonic_str(op));
            let fill: usize = match op {
                OpCode::Constant(_) => 5,
                _ => 0,
            };
            append_repeat(out, " ", fill);
            assert(pad_right(mnemonic(op), 16) =~= mnemonic(op) + Seq::new(
                fill as nat,
                |k: int| ' ',
            ));
            let ghost mid = out@;
            assert(mid =~= start + pad_right(mnemonic(op), 16));
            out.append(" ");
            append_padded(out, i, 4, " ");
            out.append(" '");
            out.append(constant_texts[i].as_str());
            out.append("'\n");
        },
    }
    assert(out@ =~= start + body_text(op, texts_view(constant_texts@)));
}

/// Appends the listing line of `ins`.
fn append_instruction(out: &mut String, ins: &Instruction, constant_texts: &Vec<String>)
    requires
        has_text(ins.op_code, constant_texts@.len()),
    ensures
        final(out)@ == old(out)@ + instruction_text(*ins, texts_view(constant_texts@)),
{
    let ghost start = out@;
    append_head(out, ins);
    append_body(out, ins.op_code, constant_texts);
    assert(out@ =~= start + instruction_text(*ins, texts_view(constant_texts@)));
}

/// The listing line of `ins`: its offset, its line, its mnemonic and, for a
/// constant load, the index and the given text of the constant.
pub fn render_instruction(ins: &Instruction, constant_texts: &Vec<String>) -> (r: String)
    requires
        has_text(ins.op_code, constant_texts@.len()),
    ensures
        r@ == instruction_text(*ins, texts_view(constant_texts@)),
{
    let mut out = String::new();
    append_instruction(&mut out, ins, constant_texts);
    out
}

impl<V> Chunk<V> {
    /// The listing of the chunk: a header with `name`, then one line per
    /// instruction from offset 0. `constant_texts[i]` is how constant `i`
    /// is shown. `CorruptStream` where an instruction cannot be decoded.
    pub fn disassemble(&self, name: &str, constant_texts: &Vec<String>) -> (r: Result<
        String,
        ChunkError,
    >)
        requires
            self.wf(),
            constant_texts@.len() == self.consts().len(),
        ensures
            match decode_from(self.bytes(), self.consts().len(), 0) {
                Some(s) => r is Ok && r->Ok_0@ == header_text(name@) + listing_text(
                    s.map_values(
                        |p: (usize, OpCode)| instruction_record(self.line_seq(), p.0, p.1),
                    ),
                    texts_view(constant_texts@),
                ),
                None => r == Err::<String, ChunkError>(ChunkError::CorruptStream),
            },
    {
        proof {
            reveal_strlit("== ");
            reveal_strlit(" ==\n");
        }
        let ins = match self.instructions() {
            Ok(v) => v,
            Err(e) => {
                return Err(e);
            },
        };
        let ghost s = decode_from(self.bytes(), self.consts().len(), 0)->Some_0;
        proof {
            lemma_decoded_in_pool(self.bytes(), self.consts().len(), 0);
        }
        let mut out = String::new();
        out.append("== ");
        out.append(name);
        out.append(" ==\n");
        let ghost head = out@;
        assert(head == header_text(name@));
        let mut i: usize = 0;
        while i < ins.len()
            invariant
                0 <= i <= ins@.len(),
                ins@.len() == s.len(),
                forall|k: int| 0 <= k < ins@.len() ==> has_text(#[trigger] ins@[k].op_code, constant_texts@.len()),
                out@ == head + listing_text(ins@.subrange(0, i as int), texts_view(constant_texts@)),
            decreases ins@.len() - i,
        {
            append_instruction(&mut out, &ins[i], constant_texts);
            assert(ins@.subrange(0, i + 1).drop_last() =~= ins@.subrange(0, i as int));
            assert(out@ =~= head + listing_text(ins@.subrange(0, i + 1), texts_view(constant_texts@)));
            i = i + 1;
        }
        assert(ins@.subrange(0, i as int) =~= ins@);
        Ok(out)
    }
}

/// Every constant that a decoded stream loads lies in the pool.
proof fn lemma_decoded_in_pool(code: Seq<u8>, n_consts: nat, off: int)
    requires
        decode_from(code, n_consts, off) is Some,
    ensures
        forall|k: int|
            0 <= k < decode_from(code, n_consts, off)->Some_0.len() ==> has_text(
                #[trigger] decode_from(code, n_consts, off)->Some_0[k].1,
                n_consts,
            ),
    decreases code.len() - off,
{
    if off >= 0 && off < code.len() {
        let (op, len) = decode_at(code, n_consts, off)->Some_0;
        lemma_decoded_in_pool(code, n_consts, off + len);
    }
}

} // verus!
