use bytecode_chunk::buffer::GrowableBuffer;
use bytecode_chunk::chunk::{Chunk, ChunkError, Instruction, OpCode, OP_CONSTANT, OP_RETURN};
use bytecode_chunk::listing::render_instruction;
use bytecode_chunk::vm::{DataStoreError, VM};

fn texts(values: &[f64]) -> Vec<String> {
    values.iter().map(|v| format!("{}", v)).collect()
}

#[test]
fn buffer_keeps_every_appended_element() {
    let mut b: GrowableBuffer<u32> = GrowableBuffer::new();
    for i in 0..100u32 {
        b.push(i * 3);
        assert_eq!(b.len(), (i + 1) as usize);
        for j in 0..=i {
            assert_eq!(*b.get(j as usize), j * 3);
        }
    }
}

#[test]
fn buffer_growth_policy() {
    let mut b: GrowableBuffer<u8> = GrowableBuffer::new();
    assert_eq!(b.cap(), 0);
    let mut caps = Vec::new();
    for i in 0..40u8 {
        let before = b.cap();
        b.push(i);
        let after = b.cap();
        assert!(after >= before);
        if after != before {
            caps.push(after);
        }
    }
    assert_eq!(caps, vec![8, 16, 32, 64]);
}

#[test]
fn buffer_pop_and_empty() {
    let mut b: GrowableBuffer<u8> = GrowableBuffer::new();
    assert_eq!(b.pop(), None);
    b.push(1);
    b.push(2);
    assert_eq!(b.pop(), Some(2));
    assert_eq!(b.pop(), Some(1));
    assert_eq!(b.pop(), None);
    assert_eq!(b.cap(), 8);
}

#[test]
fn line_lookup_returns_recorded_lines() {
    let mut c: Chunk<f64> = Chunk::new();
    let lines = [1usize, 1, 2, 2, 2, 3, 1, 1];
    for &l in lines.iter() {
        c.write_byte(OP_RETURN, l);
    }
    for (o, &l) in lines.iter().enumerate() {
        assert_eq!(c.line_at(o).0, l);
    }
}

#[test]
fn line_lookup_marks_first_byte_of_each_run() {
    let mut c: Chunk<f64> = Chunk::new();
    let lines = [7usize, 7, 9, 9, 9, 7];
    for &l in lines.iter() {
        c.write_byte(OP_RETURN, l);
    }
    let firsts: Vec<bool> = (0..lines.len()).map(|o| c.line_at(o).1).collect();
    assert_eq!(firsts, vec![true, false, true, false, false, true]);
}

#[test]
fn constant_index_round_trip() {
    let mut c: Chunk<f64> = Chunk::new();
    let a = c.push_constant(1.5, 1);
    let b = c.push_constant(-2.25, 1);
    assert_eq!((a, b), (0, 1));
    assert_eq!(c.decode(0), Some((OpCode::Constant(0), 2)));
    assert_eq!(c.decode(2), Some((OpCode::Constant(1), 2)));
    assert_eq!(*c.constant(a), 1.5);
    assert_eq!(*c.constant(b), -2.25);
}

#[test]
fn repeated_constants_take_separate_slots() {
    let mut c: Chunk<f64> = Chunk::new();
    assert_eq!(c.push_constant(4.0, 1), 0);
    assert_eq!(c.push_constant(4.0, 1), 1);
    assert_eq!(c.constant_count(), 2);
}

#[test]
fn short_long_boundary() {
    let mut c: Chunk<f64> = Chunk::new();
    for i in 0..256usize {
        assert_eq!(c.push_constant(i as f64, 1), i);
    }
    assert_eq!(c.code().len(), 512);
    assert!(c.code().chunks(2).all(|p| p[0] == OP_CONSTANT));
    assert_eq!(c.push_constant(256.0, 2), 256);
    assert_eq!(c.code().len(), 521);
    assert_eq!(&c.code()[512..], &[1u8, 0, 1, 0, 0, 0, 0, 0, 0][..]);
    assert_eq!(c.decode(512), Some((OpCode::ConstantLong(256), 9)));
    assert_eq!(*c.constant(256), 256.0);
    let ins = c.instructions().unwrap();
    assert_eq!(ins.len(), 257);
    assert_eq!(ins[256].offset, 512);
    assert!(ins[256].starts_line);
}

#[test]
fn end_to_end_disassembly() {
    let mut c: Chunk<f64> = Chunk::default();
    c.push_constant(1.2, 123);
    c.push(OpCode::Return, 123).unwrap();
    let text = c.disassemble("test chunk", &texts(&[1.2])).unwrap();
    assert_eq!(
        text,
        "== test chunk ==\n0000  123 OP_CONSTANT         0 '1.2'\n0002    | OP_RETURN\n"
    );
}

#[test]
fn disassembly_of_long_constant_and_new_line() {
    let mut c: Chunk<f64> = Chunk::new();
    for _ in 0..257 {
        c.push_constant(0.5, 10);
    }
    c.push(OpCode::Return, 12345).unwrap();
    let text = c.disassemble("big", &texts(&vec![0.5; 257])).unwrap();
    let lines: Vec<&str> = text.lines().collect();
    assert_eq!(lines.len(), 259);
    assert_eq!(lines[1], "0000   10 OP_CONSTANT         0 '0.5'");
    assert_eq!(lines[2], "0002    | OP_CONSTANT         1 '0.5'");
    assert_eq!(lines[257], "0512    | OP_CONSTANT_LONG  256 '0.5'");
    assert_eq!(lines[258], "0521 12345 OP_RETURN");
}

#[test]
fn render_one_instruction() {
    let ins = Instruction { offset: 12345, op_code: OpCode::Constant(3), line: 7, starts_line: true };
    let t = texts(&[0.0, 0.0, 0.0, 2.5]);
    assert_eq!(render_instruction(&ins, &t), "12345    7 OP_CONSTANT         3 '2.5'\n");
}

#[test]
fn short_operand_above_255_is_refused() {
    let mut c: Chunk<f64> = Chunk::new();
    assert_eq!(c.push(OpCode::Constant(256), 1), Err(ChunkError::TooManyConstants));
    assert_eq!(c.code().len(), 0);
    assert_eq!(c.push(OpCode::Constant(255), 1), Ok(()));
    assert_eq!(c.code(), &vec![OP_CONSTANT, 255]);
}

#[test]
fn unknown_opcode_is_corrupt() {
    let mut c: Chunk<f64> = Chunk::new();
    c.write_byte(99, 1);
    assert_eq!(c.decode(0), None);
    assert_eq!(c.instructions(), Err(ChunkError::CorruptStream));
    assert_eq!(c.disassemble("x", &Vec::new()), Err(ChunkError::CorruptStream));
}

#[test]
fn cut_off_operand_is_corrupt() {
    let mut c: Chunk<f64> = Chunk::new();
    c.push_constant(1.0, 1);
    c.write_byte(OP_CONSTANT, 1);
    assert_eq!(c.instructions(), Err(ChunkError::CorruptStream));
}

#[test]
fn operand_outside_pool_is_corrupt() {
    let mut c: Chunk<f64> = Chunk::new();
    c.push(OpCode::Constant(0), 1).unwrap();
    assert_eq!(c.decode(0), None);
    assert_eq!(c.instructions(), Err(ChunkError::CorruptStream));
}

#[test]
fn empty_chunk_disassembles_to_header() {
    let c: Chunk<f64> = Chunk::new();
    assert_eq!(c.instructions(), Ok(Vec::new()));
    assert_eq!(c.disassemble("empty", &Vec::new()), Ok("== empty ==\n".to_string()));
}

#[test]
fn vm_runs_to_return() {
    let mut c: Chunk<f64> = Chunk::new();
    c.push_constant(1.2, 1);
    c.push(OpCode::Return, 1).unwrap();
    assert_eq!(VM::new(c).interpret(), Ok(()));
}

#[test]
fn vm_without_return_fails() {
    let mut c: Chunk<f64> = Chunk::new();
    c.push_constant(1.2, 1);
    assert_eq!(VM::new(c).interpret(), Err(DataStoreError::RuntimeError));
    let empty: Chunk<f64> = Chunk::new();
    assert_eq!(VM::new(empty).interpret(), Err(DataStoreError::RuntimeError));
}

#[test]
fn vm_on_corrupt_stream_fails() {
    let mut c: Chunk<f64> = Chunk::new();
    c.write_byte(200, 1);
    c.push(OpCode::Return, 1).unwrap();
    assert_eq!(VM::new(c).interpret(), Err(DataStoreError::RuntimeError));
}
