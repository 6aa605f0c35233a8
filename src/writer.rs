use vstd::prelude::*;

verus! {

/// Records written between two progress notes.
pub const SAVE_MILESTONE: usize = 1000;

/// Count of records written since the last progress note.
pub struct WriteTally {
    since_note: usize,
}

impl WriteTally {
    pub closed spec fn spec_count(&self) -> nat {
        self.since_note as nat
    }

    pub open spec fn wf(&self) -> bool {
        self.spec_count() < SAVE_MILESTONE
    }

    pub fn new() -> (r: WriteTally)
        ensures
            r.wf(),
            r.spec_count() == 0,
    {
        WriteTally { since_note: 0 }
    }

    /// Counts one written record; at the milestone the count is handed back
    /// for a progress note and starts again from zero.
    pub fn note_written(&mut self) -> (r: Option<usize>)
        requires
            old(self).wf(),
        ensures
            final(self).wf(),
            old(self).spec_count() + 1 == SAVE_MILESTONE ==> r == Some(SAVE_MILESTONE) && final(self).spec_count() == 0,
            old(self).spec_count() + 1 < SAVE_MILESTONE ==> r is None && final(self).spec_count() == old(self).spec_count() + 1,
    {
        self.since_note = self.since_note + 1;
        if self.since_note >= SAVE_MILESTONE {
            self.since_note = 0;
            Some(SAVE_MILESTONE)
        } else {
            None
        }
    }
}

} // verus!
