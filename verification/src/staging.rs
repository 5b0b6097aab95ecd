//! The atomic write discipline of the downloader, as a state machine:
//! bytes are staged into a temporary buffer and published in one step,
//! so the final artifact is only ever observed absent or complete.

use vstd::prelude::*;

verus! {

/// One item's artifact being written: `staged` models the temporary
/// sibling file, `committed` the final destination path, which holds a
/// value exactly when the destination file exists.
pub struct StagedWrite {
    staged: Vec<u8>,
    committed: Option<Vec<u8>>,
}

/// Mathematical view of a [`StagedWrite`].
pub ghost struct StagedWriteView {
    pub staged: Seq<u8>,
    pub committed: Option<Seq<u8>>,
}

impl View for StagedWrite {
    type V = StagedWriteView;

    closed spec fn view(&self) -> StagedWriteView {
        StagedWriteView {
            staged: self.staged@,
            committed: match self.committed {
                Some(b) => Some(b@),
                None => None,
            },
        }
    }
}

impl StagedWrite {
    /// A fresh transfer: nothing staged, nothing published.
    pub fn new() -> (s: StagedWrite)
        ensures
            s@.staged.len() == 0,
            s@.committed is None,
    {
        StagedWrite { staged: Vec::new(), committed: None }
    }

    /// Appends one received chunk to the temporary file. The final
    /// destination is untouched, whatever has been staged so far.
    pub fn write_chunk(&mut self, chunk: &[u8])
        ensures
            final(self)@.staged == old(self)@.staged + chunk@,
            final(self)@.committed == old(self)@.committed,
    {
        let mut i: usize = 0;
        while i < chunk.len()
            invariant
                i <= chunk@.len(),
                self@.staged == old(self)@.staged + chunk@.take(i as int),
                self@.committed == old(self)@.committed,
            decreases chunk@.len() - i,
        {
            let b = chunk[i];
            self.staged.push(b);
            i = i + 1;
            proof {
                assert(old(self)@.staged + chunk@.take(i - 1) + seq![chunk@[i - 1]] =~= old(
                    self,
                )@.staged + chunk@.take(i as int));
            }
        }
        proof {
            assert(chunk@.take(chunk@.len() as int) =~= chunk@);
        }
    }

    /// Abandons the transfer: the temporary file is removed and the
    /// final destination is untouched.
    pub fn abort(&mut self)
        ensures
            final(self)@.staged.len() == 0,
            final(self)@.committed == old(self)@.committed,
    {
        self.staged = Vec::new();
    }

    /// Publishes the transfer in one step, the rename: the final
    /// destination now holds exactly the bytes staged so far, and the
    /// temporary file is gone.
    pub fn commit(&mut self)
        ensures
            final(self)@.committed == Some(old(self)@.staged),
            final(self)@.staged.len() == 0,
    {
        let mut buf: Vec<u8> = Vec::new();
        core::mem::swap(&mut buf, &mut self.staged);
        self.committed = Some(buf);
    }

    /// What the final destination path holds, if it exists.
    pub fn committed_bytes(&self) -> (r: &Option<Vec<u8>>)
        ensures
            match r {
                Some(b) => self@.committed == Some(b@),
                None => self@.committed is None,
            },
    {
        &self.committed
    }
}

/// A transfer step that is not the publishing rename: receiving a chunk
/// into the temporary file, or abandoning the transfer.
pub ghost enum StageStep {
    Write(Seq<u8>),
    Abort,
}

/// The state after one non-publishing step.
pub open spec fn apply_step(s: StagedWriteView, step: StageStep) -> StagedWriteView {
    match step {
        StageStep::Write(chunk) => StagedWriteView {
            staged: s.staged + chunk,
            committed: s.committed,
        },
        StageStep::Abort => StagedWriteView { staged: Seq::empty(), committed: s.committed },
    }
}

/// The state after a sequence of non-publishing steps.
pub open spec fn apply_steps(s: StagedWriteView, steps: Seq<StageStep>) -> StagedWriteView
    decreases steps.len(),
{
    if steps.len() == 0 {
        s
    } else {
        apply_steps(apply_step(s, steps[0]), steps.drop_first())
    }
}

/// Atomicity of the temp-then-rename discipline: a transfer interrupted
/// after any sequence of partial writes and abandonments never changes
/// what the final destination path holds — it stays absent, or stays
/// exactly the previously published content.
pub proof fn lemma_interrupted_transfer_publishes_nothing(s: StagedWriteView, steps: Seq<StageStep>)
    ensures
        apply_steps(s, steps).committed == s.committed,
    decreases steps.len(),
{
    if steps.len() > 0 {
        lemma_interrupted_transfer_publishes_nothing(apply_step(s, steps[0]), steps.drop_first());
    }
}

} // verus!
