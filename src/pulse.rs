use vstd::prelude::*;

verus! {

/// Colour family of the status pulse.
#[derive(Clone, Copy, Debug, PartialEq, Eq, Structural)]
pub enum PulseLevel {
    Red,
    Green,
    Black,
}

/// Frame-rate setting of the status pulse.
#[derive(Clone, Copy, Debug, PartialEq, Eq, Structural)]
pub enum PulseFps {
    VeryLow,
    Low,
    Normal,
    High,
    VeryHigh,
}

/// The ten colours (as `0x00RRGGBB`) that a pulse of this family cycles through.
pub open spec fn palette(level: PulseLevel) -> Seq<u32> {
    match level {
        PulseLevel::Red => seq![
            0x00FF0000u32, 0x00FF3333u32, 0x00FF6666u32, 0x00FF9999u32, 0x00FFCCCCu32,
            0x00FF9999u32, 0x00FF6666u32, 0x00FF3333u32, 0x00FF0000u32, 0x00990000u32,
        ],
        PulseLevel::Green => seq![
            0x0000FF00u32, 0x0033FF33u32, 0x0066FF66u32, 0x0099FF99u32, 0x00CCFFCCu32,
            0x0099FF99u32, 0x0066FF66u32, 0x0033FF33u32, 0x0000FF00u32, 0x00009900u32,
        ],
        PulseLevel::Black => seq![
            0x00888888u32, 0x009A9A9Au32, 0x00ACACACu32, 0x00BEBEBEu32, 0x00D0D0D0u32,
            0x00BEBEBEu32, 0x00ACACACu32, 0x009A9A9Au32, 0x00888888u32, 0x006E6E6Eu32,
        ],
    }
}

impl PulseLevel {
    pub fn as_colors(&self) -> (r: [u32; 10])
        ensures
            r@ == palette(*self),
    {
        let r = match *self {
            PulseLevel::Red => [
                0x00FF0000u32, 0x00FF3333u32, 0x00FF6666u32, 0x00FF9999u32, 0x00FFCCCCu32,
                0x00FF9999u32, 0x00FF6666u32, 0x00FF3333u32, 0x00FF0000u32, 0x00990000u32,
            ],
            PulseLevel::Green => [
                0x0000FF00u32, 0x0033FF33u32, 0x0066FF66u32, 0x0099FF99u32, 0x00CCFFCCu32,
                0x0099FF99u32, 0x0066FF66u32, 0x0033FF33u32, 0x0000FF00u32, 0x00009900u32,
            ],
            PulseLevel::Black => [
                0x00888888u32, 0x009A9A9Au32, 0x00ACACACu32, 0x00BEBEBEu32, 0x00D0D0D0u32,
                0x00BEBEBEu32, 0x00ACACACu32, 0x009A9A9Au32, 0x00888888u32, 0x006E6E6Eu32,
            ],
        };
        assert(r@ =~= palette(*self));
        r
    }
}

impl PulseFps {
    /// Frames per second that the setting stands for.
    pub open spec fn spec_frames(self) -> u64 {
        match self {
            PulseFps::VeryLow => 15,
            PulseFps::Low => 30,
            PulseFps::Normal => 45,
            PulseFps::High => 60,
            PulseFps::VeryHigh => 90,
        }
    }

    pub fn frames(&self) -> (r: u64)
        ensures
            r == self.spec_frames(),
    {
        match *self {
            PulseFps::VeryLow => 15,
            PulseFps::Low => 30,
            PulseFps::Normal => 45,
            PulseFps::High => 60,
            PulseFps::VeryHigh => 90,
        }
    }

    /// Setting chosen for a requested frame rate. Every request currently
    /// selects the low setting, whatever its value.
    pub fn from_u8(value: u8) -> (r: PulseFps)
        ensures
            r == PulseFps::Low,
    {
        let _ = value;
        PulseFps::Low
    }

    /// Milliseconds between two steps of the pulse.
    pub fn frame_millis(&self) -> (r: u64)
        ensures
            r == 1000u64 / self.spec_frames(),
    {
        1000 / self.frames()
    }
}

/// Direction in which the pulse currently walks its palette.
#[derive(Clone, Copy, Debug, PartialEq, Eq, Structural)]
pub enum StepDir {
    Right,
    Left,
}

impl StepDir {
    pub fn flip(&mut self)
        ensures
            *final(self) == (match *old(self) {
                StepDir::Right => StepDir::Left,
                StepDir::Left => StepDir::Right,
            }),
    {
        match *self {
            StepDir::Right => *self = StepDir::Left,
            StepDir::Left => *self = StepDir::Right,
        }
    }
}

/// Position of the status pulse within its palette.
///
/// The pulse walks from the first colour to the last and back. Whether a
/// frame is due is decided by the caller, which owns the clock.
pub struct PulseState {
    pub fps: PulseFps,
    pub steps: usize,
    pub step_dir: StepDir,
}

/// Index of the last colour of a palette.
pub const LAST_STEP: usize = 9;

/// The step and direction after one frame.
pub open spec fn advance(steps: int, dir: StepDir) -> (int, StepDir) {
    match dir {
        StepDir::Right => if steps >= LAST_STEP {
            (steps - 1, StepDir::Left)
        } else {
            (steps + 1, StepDir::Right)
        },
        StepDir::Left => if steps == 0 {
            (steps + 1, StepDir::Right)
        } else {
            (steps - 1, StepDir::Left)
        },
    }
}

impl PulseState {
    pub open spec fn wf(&self) -> bool {
        self.steps <= LAST_STEP
    }

    pub fn new(fps: PulseFps) -> (r: PulseState)
        ensures
            r.wf(),
            r.fps == fps,
            r.steps == 0,
            r.step_dir == StepDir::Right,
    {
        PulseState { fps, steps: 0, step_dir: StepDir::Right }
    }

    pub fn fps(self, fps: PulseFps) -> (r: PulseState)
        ensures
            r.fps == fps,
            r.steps == self.steps,
            r.step_dir == self.step_dir,
    {
        PulseState { fps, ..self }
    }

    /// Colour to draw now; when `frame_due` the pulse first takes one step.
    /// The colour shown is the one before the current step (the first one at
    /// step zero).
    pub fn color(&mut self, level: PulseLevel, frame_due: bool) -> (r: u32)
        requires
            old(self).wf(),
        ensures
            final(self).wf(),
            final(self).fps == old(self).fps,
            frame_due ==> (final(self).steps as int, final(self).step_dir) == advance(
                old(self).steps as int,
                old(self).step_dir,
            ),
            !frame_due ==> final(self).steps == old(self).steps && final(self).step_dir
                == old(self).step_dir,
            r == palette(level)[if final(self).steps == 0 { 0 } else { final(self).steps - 1 }],
    {
        let colors = level.as_colors();
        if frame_due {
            match self.step_dir {
                StepDir::Right => {
                    if self.steps >= LAST_STEP {
                        self.steps = self.steps - 1;
                        self.step_dir.flip();
                    } else {
                        self.steps = self.steps + 1;
                    }
                },
                StepDir::Left => {
                    if self.steps == 0 {
                        self.steps = self.steps + 1;
                        self.step_dir.flip();
                    } else {
                        self.steps = self.steps - 1;
                    }
                },
            }
        }
        let idx: usize = if self.steps == 0 { 0 } else { self.steps - 1 };
        colors[idx]
    }
}

} // verus!
