use vstd::prelude::*;

use crate::buffer::GrowableBuffer;

verus! {

/// A run of consecutive stream bytes attributed to one source line.
#[derive(Clone, Copy, Debug, PartialEq, Eq)]
pub struct LineRun {
    pub line: usize,
    pub run: usize,
}

/// The per-byte lines that a sequence of runs stands for.
pub open spec fn expand(runs: Seq<LineRun>) -> Seq<usize>
    decreases runs.len(),
{
    if runs.len() == 0 {
        Seq::empty()
    } else {
        expand(runs.drop_last()) + Seq::new(runs.last().run as nat, |k: int| runs.last().line)
    }
}

/// Whether the byte at `offset` is the first one of its line: it opens the
/// stream, or the byte before it came from another line.
pub open spec fn starts_line(lines: Seq<usize>, offset: int) -> bool {
    offset == 0 || lines[offset - 1] != lines[offset]
}

/// Runs are non-empty and neighbouring runs carry different lines.
pub open spec fn canonical(runs: Seq<LineRun>) -> bool {
    &&& forall|i: int| 0 <= i < runs.len() ==> #[trigger] runs[i].run > 0
    &&& forall|i: int| 0 < i < runs.len() ==> #[trigger] runs[i].line != runs[i - 1].line
}

proof fn lemma_expand_prefix(runs: Seq<LineRun>, j: int)
    requires
        0 <= j <= runs.len(),
    ensures
        expand(runs.subrange(0, j)).len() <= expand(runs).len(),
        forall|k: int|
            0 <= k < expand(runs.subrange(0, j)).len() ==> #[trigger] expand(runs.subrange(0, j))[k]
                == expand(runs)[k],
    decreases runs.len() - j,
{
    if j < runs.len() {
        lemma_expand_prefix(runs, j + 1);
        let a = runs.subrange(0, j);
        let b = runs.subrange(0, j + 1);
        assert(b.drop_last() =~= a);
        assert forall|k: int| 0 <= k < expand(a).len() implies #[trigger] expand(a)[k] == expand(
            runs,
        )[k] by {
            assert(expand(b)[k] == expand(a)[k]);
        }
    } else {
        assert(runs.subrange(0, j) =~= runs);
    }
}

/// The first byte of a stream starts a line; of two neighbouring bytes, the
/// second starts a line exactly when its line differs from the first's.
pub proof fn law_elision(lines: Seq<usize>, o: int)
    requires
        0 <= o,
        o + 1 < lines.len(),
    ensures
        starts_line(lines, 0),
        starts_line(lines, o + 1) <==> lines[o] != lines[o + 1],
{
}

/// A run-length encoded map from stream offset to source line.
pub struct LineTable {
    runs: GrowableBuffer<LineRun>,
}

impl View for LineTable {
    type V = Seq<usize>;

    closed spec fn view(&self) -> Seq<usize> {
        expand(self.runs@)
    }
}

impl LineTable {
    pub closed spec fn wf(&self) -> bool {
        &&& self.runs.wf()
        &&& canonical(self.runs@)
        &&& self.runs@.len() <= expand(self.runs@).len()
    }

    pub fn new() -> (r: Self)
        ensures
            r.wf(),
            r@ == Seq::<usize>::empty(),
    {
        LineTable { runs: GrowableBuffer::new() }
    }

    /// Attributes one more stream byte to `line`: a line equal to the last one
    /// lengthens the last run, another line opens a run.
    pub fn record(&mut self, line: usize)
        requires
            old(self).wf(),
            old(self)@.len() < usize::MAX / 2,
        ensures
            final(self).wf(),
            final(self)@ == old(self)@.push(line),
    {
        let n = self.runs.len();
        let ghost old_runs = self.runs@;
        if n > 0 && self.runs.get(n - 1).line == line {
            let last = *self.runs.get(n - 1);
            let _ = self.runs.pop();
            self.runs.push(LineRun { line, run: last.run + 1 });
            assert(self.runs@.drop_last() =~= old_runs.drop_last());
            assert(expand(self.runs@) =~= expand(old_runs).push(line));
        } else {
            self.runs.push(LineRun { line, run: 1 });
            assert(self.runs@.drop_last() =~= old_runs);
            assert(expand(self.runs@) =~= expand(old_runs).push(line));
        }
    }

    /// The line of the byte at `offset`, and whether that byte is the first
    /// of its run.
    pub fn lookup(&self, offset: usize) -> (r: (usize, bool))
        requires
            self.wf(),
            offset < self@.len(),
        ensures
            r.0 == self@[offset as int],
            r.1 == starts_line(self@, offset as int),
    {
        let ghost runs = self.runs@;
        let n = self.runs.len();
        let mut i: usize = 0;
        let mut rem: usize = offset;
        proof {
            assert(runs.subrange(0, 0) =~= Seq::<LineRun>::empty());
        }
        while i < n
            invariant
                self.wf(),
                runs == self.runs@,
                n == runs.len(),
                offset < expand(runs).len(),
                0 <= i <= n,
                rem + expand(runs.subrange(0, i as int)).len() == offset,
            decreases n - i,
        {
            let r = *self.runs.get(i);
            proof {
                assert(runs.subrange(0, i + 1).drop_last() =~= runs.subrange(0, i as int));
            }
            if rem < r.run {
                let ghost pre = expand(runs.subrange(0, i as int));
                proof {
                    lemma_expand_prefix(runs, i + 1);
                    assert(expand(runs.subrange(0, i + 1))[offset as int] == r.line);
                    if rem == 0 && i > 0 {
                        lemma_expand_prefix(runs, i as int);
                        assert(runs.subrange(0, i as int).drop_last() =~= runs.subrange(
                            0,
                            i - 1,
                        ));
                        assert(pre[offset - 1] == runs[i - 1].line);
                        assert(runs[i as int].line != runs[i - 1].line);
                    }
                    if rem > 0 {
                        assert(expand(runs.subrange(0, i + 1))[offset - 1] == r.line);
                    }
                }
                return (r.line, rem == 0);
            }
            rem = rem - r.run;
            i = i + 1;
        }
        proof {
            assert(runs.subrange(0, n as int) =~= runs);
        }
        (0, false)
    }
}

} // verus!
