use vstd::prelude::*;

use crate::chunk::{decode_at, Chunk, OpCode};

verus! {

#[derive(Clone, Copy, Debug, PartialEq, Eq, Structural)]
pub enum DataStoreError {
    CompileError,
    RuntimeError,
}

/// Whether decoding from `off` meets a `Return` before the stream ends or
/// an instruction fails to decode.
pub open spec fn reaches_return(code: Seq<u8>, n_consts: nat, off: int) -> bool
    decreases code.len() - off,
{
    if off < 0 || off >= code.len() {
        false
    } else {
        match decode_at(code, n_consts, off) {
            None => false,
            Some((op, len)) => op == OpCode::Return || reaches_return(code, n_consts, off + len),
        }
    }
}

/// A machine that reads a chunk through an instruction pointer.
pub struct VM<V> {
    chunk: Chunk<V>,
    ip: usize,
}

impl<V> VM<V> {
    pub closed spec fn program(&self) -> Chunk<V> {
        self.chunk
    }

    pub closed spec fn ip_offset(&self) -> nat {
        self.ip as nat
    }

    /// A machine over `chunk` with its instruction pointer at offset 0.
    pub fn new(chunk: Chunk<V>) -> (r: Self)
        ensures
            r.program() == chunk,
            r.ip_offset() == 0,
    {
        VM { chunk, ip: 0 }
    }

    /// Runs the chunk from the instruction pointer: `Ok` once a `Return` is
    /// reached, `RuntimeError` when the stream ends or cannot be decoded
    /// first.
    pub fn interpret(&self) -> (r: Result<(), DataStoreError>)
        requires
            self.program().wf(),
        ensures
            r is Ok <==> reaches_return(
                self.program().bytes(),
                self.program().consts().len(),
                self.ip_offset() as int,
            ),
            r is Err ==> r == Err::<(), DataStoreError>(DataStoreError::RuntimeError),
    {
        self.run()
    }

    fn run(&self) -> (r: Result<(), DataStoreError>)
        requires
            self.chunk.wf(),
        ensures
            r is Ok <==> reaches_return(self.chunk.bytes(), self.chunk.consts().len(), self.ip as int),
            r is Err ==> r == Err::<(), DataStoreError>(DataStoreError::RuntimeError),
    {
        let ghost code = self.chunk.bytes();
        let ghost nc = self.chunk.consts().len();
        let n = self.chunk.code().len();
        let mut ip = self.ip;
        while ip < n
            invariant
                self.chunk.wf(),
                code == self.chunk.bytes(),
                nc == self.chunk.consts().len(),
                n == code.len(),
                reaches_return(code, nc, self.ip as int) == reaches_return(code, nc, ip as int),
            decreases n - ip,
        {
            match self.chunk.decode(ip) {
                None => {
                    return Err(DataStoreError::RuntimeError);
                },
                Some((op, len)) => {
                    if op == OpCode::Return {
                        return Ok(());
                    }
                    ip = ip + len;
                },
            }
        }
        Err(DataStoreError::RuntimeError)
    }
}

} // verus!
