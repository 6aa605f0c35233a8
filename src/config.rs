use vstd::prelude::*;

verus! {

/// Settings the pipeline reads: paths, credentials and the frame rate.
#[derive(Clone)]
pub struct AppArgs {
    pub fps: u8,
    pub email: Option<String>,
    pub password: Option<String>,
    pub headless: bool,
    pub username: Option<String>,
    pub input: Option<String>,
    pub output: Option<String>,
}

/// Frame rates below this are raised to it.
pub const MIN_FPS: u8 = 5;

/// Interval used when no frame rate is set: one minute.
pub const IDLE_FRAME_MILLIS: u64 = 60000;

pub open spec fn raised_fps(fps: u8) -> u64 {
    if fps < MIN_FPS { MIN_FPS as u64 } else { fps as u64 }
}

impl AppArgs {
    /// Milliseconds between two redraws: a minute when the frame rate is
    /// zero, else a second divided by the rate, raised to at least five.
    pub fn frame_interval_millis(&self) -> (r: u64)
        ensures
            r == (if self.fps == 0 { IDLE_FRAME_MILLIS } else { 1000u64 / raised_fps(self.fps) }),
    {
        if self.fps == 0 {
            IDLE_FRAME_MILLIS
        } else {
            let f: u64 = if self.fps < MIN_FPS { MIN_FPS as u64 } else { self.fps as u64 };
            1000 / f
        }
    }

    /// Milliseconds between two looks at the settings for a changed path:
    /// the frame rate raised to at least five, read as milliseconds.
    pub fn change_poll_millis(&self) -> (r: u64)
        ensures
            r == raised_fps(self.fps),
    {
        if self.fps < MIN_FPS { MIN_FPS as u64 } else { self.fps as u64 }
    }
}

} // verus!
