use vstd::prelude::*;

use crate::pulse::PulseLevel;

verus! {

/// The three values of the pipeline-wide run flag.
#[derive(Clone, Copy, Debug, PartialEq, Eq, Structural)]
pub enum State {
    Iddling,
    Processing,
    Exit,
}

/// Code stored for `State::Exit`.
pub const EXIT: u8 = 1;

/// Code stored for `State::Iddling`.
pub const IDLE: u8 = 0;

/// Code stored for `State::Processing`.
pub const PROCESS: u8 = 2;

/// The run flag that every stage consults before doing work.
///
/// It is a broadcast flag, not a guarded state machine: any state may be set
/// from any state, and each setter overwrites the whole value.
pub struct SyncState {
    code: u8,
}

impl SyncState {
    /// The code held; only the three named codes are ever stored.
    pub closed spec fn spec_code(&self) -> u8 {
        self.code
    }

    pub open spec fn wf(&self) -> bool {
        self.spec_code() == EXIT || self.spec_code() == IDLE || self.spec_code() == PROCESS
    }

    /// The state that the stored code denotes; any unknown code reads as idle.
    pub open spec fn view_state(&self) -> State {
        if self.spec_code() == EXIT {
            State::Exit
        } else if self.spec_code() == PROCESS {
            State::Processing
        } else {
            State::Iddling
        }
    }

    pub fn new() -> (r: SyncState)
        ensures
            r.wf(),
            r.view_state() == State::Iddling,
    {
        SyncState { code: IDLE }
    }

    /// Pulse colour family for the current state: red while exiting, green
    /// while processing, black otherwise.
    pub fn as_pulse_level(&self) -> (r: PulseLevel)
        ensures
            r == (match self.view_state() {
                State::Exit => PulseLevel::Red,
                State::Processing => PulseLevel::Green,
                State::Iddling => PulseLevel::Black,
            }),
    {
        if self.code == EXIT {
            PulseLevel::Red
        } else if self.code == PROCESS {
            PulseLevel::Green
        } else {
            PulseLevel::Black
        }
    }

    pub fn is_exiting(&self) -> (r: bool)
        ensures
            r == (self.view_state() == State::Exit),
    {
        self.code == EXIT
    }

    pub fn is_idling(&self) -> (r: bool)
        ensures
            r == (self.view_state() == State::Iddling),
    {
        self.code != EXIT && self.code != PROCESS
    }

    pub fn is_processing(&self) -> (r: bool)
        ensures
            r == (self.view_state() == State::Processing),
    {
        self.code == PROCESS
    }

    pub fn idle(&mut self)
        ensures
            final(self).wf(),
            final(self).view_state() == State::Iddling,
    {
        self.code = IDLE;
    }

    pub fn exit(&mut self)
        ensures
            final(self).wf(),
            final(self).view_state() == State::Exit,
    {
        self.code = EXIT;
    }

    pub fn process(&mut self)
        ensures
            final(self).wf(),
            final(self).view_state() == State::Processing,
    {
        self.code = PROCESS;
    }

    /// The current state as a value.
    pub fn state(&self) -> (r: State)
        ensures
            r == self.view_state(),
    {
        if self.code == EXIT {
            State::Exit
        } else if self.code == PROCESS {
            State::Processing
        } else {
            State::Iddling
        }
    }

    /// Upper-case name of the current state, as the status line shows it.
    pub fn as_str(&self) -> (r: &'static str)
        ensures
            self.view_state() == State::Exit ==> r@ == "EXITING"@,
            self.view_state() == State::Iddling ==> r@ == "IDLING"@,
            self.view_state() == State::Processing ==> r@ == "PROCESSING"@,
    {
        if self.code == EXIT {
            "EXITING"
        } else if self.code == PROCESS {
            "PROCESSING"
        } else {
            "IDLING"
        }
    }
}

} // verus!
