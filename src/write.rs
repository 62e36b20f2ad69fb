use vstd::prelude::*;

use crate::render::RenderError;
use crate::text::copy_bytes;
use crate::tree::FileEntry;

verus! {

/// What the writer is to do next.
#[derive(Clone, Copy, Debug, PartialEq, Eq, Structural)]
pub enum WriteAction {
    /// Write file `index` of the plan, replacing a file already there only
    /// where `overwrite` holds.
    Write { index: usize, overwrite: bool },
    /// Every file is written.
    Finished,
    /// A write failed; the files written before it stay in place.
    Aborted,
}

/// What came of writing one file.
pub enum WriteOutcome {
    Written,
    /// A file already stood at the path and was left alone.
    AlreadyExists,
    Failed(String),
}

/// Writes a rendered plan one file at a time, in order, stopping at the first
/// failure.
pub struct WriteSession {
    pub plan: Vec<FileEntry>,
    pub overwrite: bool,
    /// How many files of the plan, from the first, are written.
    pub written: usize,
    pub failure: Option<RenderError>,
}

/// The action that a session in this state asks for.
pub open spec fn action_of(s: WriteSession) -> WriteAction {
    if s.failure is Some {
        WriteAction::Aborted
    } else if s.written >= s.plan@.len() {
        WriteAction::Finished
    } else {
        WriteAction::Write { index: s.written, overwrite: s.overwrite }
    }
}

/// What recording an outcome does to a session.
pub open spec fn record_outcome(before: WriteSession, outcome: WriteOutcome, after: WriteSession) -> bool {
    let path = before.plan@[before.written as int].relative_path@;
    &&& after.plan == before.plan
    &&& after.overwrite == before.overwrite
    &&& match outcome {
        WriteOutcome::Written => after.written == before.written + 1 && after.failure is None,
        WriteOutcome::AlreadyExists => after.written == before.written && after.failure is Some
            && after.failure->Some_0 is DestinationConflict
            && after.failure->Some_0->DestinationConflict_0@ == path,
        WriteOutcome::Failed(cause) => after.written == before.written && after.failure is Some
            && after.failure->Some_0 is WriteError && after.failure->Some_0->WriteError_0@ == path
            && after.failure->Some_0->WriteError_1@ == cause@,
    }
}

impl WriteSession {
    pub open spec fn wf(&self) -> bool {
        self.written <= self.plan@.len()
    }

    pub fn new(plan: Vec<FileEntry>, overwrite: bool) -> (r: WriteSession)
        ensures
            r.wf(),
            r.plan == plan,
            r.overwrite == overwrite,
            r.written == 0,
            r.failure is None,
    {
        WriteSession { plan, overwrite, written: 0, failure: None }
    }

    pub fn next_action(&self) -> (r: WriteAction)
        ensures
            r == action_of(*self),
    {
        if self.failure.is_some() {
            WriteAction::Aborted
        } else if self.written >= self.plan.len() {
            WriteAction::Finished
        } else {
            WriteAction::Write { index: self.written, overwrite: self.overwrite }
        }
    }

    /// Applies the conflict policy to the file that `next_action` asked for,
    /// given whether a file already stands at its path: without overwrite such
    /// a file ends the session with a conflict. Returns whether to write.
    pub fn check_destination(&mut self, occupied: bool) -> (r: bool)
        requires
            old(self).wf(),
            action_of(*old(self)) is Write,
        ensures
            final(self).wf(),
            r == (!occupied || old(self).overwrite),
            r ==> *final(self) == *old(self),
            !r ==> record_outcome(*old(self), WriteOutcome::AlreadyExists, *final(self)),
    {
        if occupied && !self.overwrite {
            self.record(WriteOutcome::AlreadyExists);
            false
        } else {
            true
        }
    }

    /// Takes in what came of the write that `next_action` asked for.
    pub fn record(&mut self, outcome: WriteOutcome)
        requires
            old(self).wf(),
            action_of(*old(self)) is Write,
        ensures
            final(self).wf(),
            record_outcome(*old(self), outcome, *final(self)),
    {
        let n = self.plan.len();
        let path = copy_bytes(self.plan[self.written].relative_path.as_slice());
        match outcome {
            WriteOutcome::Written => {
                assert(self.written < n);
                self.written = self.written + 1;
            },
            WriteOutcome::AlreadyExists => {
                self.failure = Some(RenderError::DestinationConflict(path));
            },
            WriteOutcome::Failed(cause) => {
                self.failure = Some(RenderError::WriteError(path, cause));
            },
        }
    }
}

/// A failed write ends the session: the files written before it are still
/// counted as written, none is taken back, and nothing more is written.
pub proof fn lemma_failed_write_stops(before: WriteSession, cause: String, after: WriteSession)
    requires
        before.wf(),
        action_of(before) is Write,
        record_outcome(before, WriteOutcome::Failed(cause), after),
    ensures
        after.written == before.written,
        after.plan == before.plan,
        action_of(after) == WriteAction::Aborted,
        after.failure is Some,
{
}

} // verus!
