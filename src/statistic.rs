use vstd::prelude::*;

use crate::pulse::{PulseFps, PulseState};
use crate::text::{digits, nat_digits, push_char, push_nat};

verus! {

/// Sum of two counters as a wrapping machine add computes it.
pub open spec fn wrap_add(a: int, b: int) -> int {
    if a + b <= usize::MAX {
        a + b
    } else {
        a + b - (usize::MAX + 1)
    }
}

/// The counters, as plain values.
pub struct StatsModel {
    pub cur: nat,
    pub max: nat,
    pub start_time: Option<u64>,
    pub rate: nat,
    pub errors: nat,
    pub bytes_processed: nat,
}

/// Progress counters shown to the operator. No relation between the fields
/// is kept: `cur` may exceed `max`.
///
/// Times are whole seconds on a clock the caller reads.
pub struct Statistic {
    cur: usize,
    max: usize,
    pulse_state: PulseState,
    start_time: Option<u64>,
    processed_rate: usize,
    errors: usize,
    bytes_processed: usize,
}

/// Whole percent of `cur` against `max`, at most 100, and zero when `max` is zero.
pub open spec fn percentage(cur: int, max: int) -> int {
    if max == 0 {
        0
    } else if cur * 100 / max > 100 {
        100
    } else {
        cur * 100 / max
    }
}

/// A number written with at least two digits.
pub open spec fn two_digits(n: nat) -> Seq<char> {
    if n < 10 {
        seq!['0'] + nat_digits(n)
    } else {
        nat_digits(n)
    }
}

/// Elapsed seconds as `MM:SS`, or `HH:MM:SS` from one hour on.
pub open spec fn clock_text(secs: nat) -> Seq<char> {
    let hours = secs / 3600;
    let minutes = (secs % 3600) / 60;
    let seconds = secs % 60;
    if hours > 0 {
        two_digits(hours) + seq![':'] + two_digits(minutes) + seq![':'] + two_digits(seconds)
    } else {
        two_digits(minutes) + seq![':'] + two_digits(seconds)
    }
}

fn push_two_digits(s: &mut String, n: u64)
    ensures
        final(s)@ == old(s)@ + two_digits(n as nat),
{
    if n < 10 {
        push_char(s, '0');
    }
    push_nat(s, n);
    assert(final(s)@ =~= old(s)@ + two_digits(n as nat));
}

impl View for Statistic {
    type V = StatsModel;

    closed spec fn view(&self) -> StatsModel {
        StatsModel {
            cur: self.cur as nat,
            max: self.max as nat,
            start_time: self.start_time,
            rate: self.processed_rate as nat,
            errors: self.errors as nat,
            bytes_processed: self.bytes_processed as nat,
        }
    }
}

impl Statistic {
    pub closed spec fn spec_pulse(&self) -> PulseState {
        self.pulse_state
    }

    /// All counters at zero, not started, with a resting pulse.
    pub fn new() -> (r: Statistic)
        ensures
            r@ == (StatsModel {
                cur: 0,
                max: 0,
                start_time: None,
                rate: 0,
                errors: 0,
                bytes_processed: 0,
            }),
            r.spec_pulse().wf(),
    {
        Statistic {
            cur: 0,
            max: 0,
            pulse_state: PulseState::new(PulseFps::VeryLow),
            start_time: None,
            processed_rate: 0,
            errors: 0,
            bytes_processed: 0,
        }
    }

    pub fn pulse_state(self, pulse_state: PulseState) -> (r: Statistic)
        ensures
            r@ == self@,
            r.spec_pulse() == pulse_state,
    {
        Statistic { pulse_state, ..self }
    }

    pub fn set_pulse_state(&mut self, pulse_state: PulseState)
        ensures
            final(self)@ == old(self)@,
            final(self).spec_pulse() == pulse_state,
    {
        self.pulse_state = pulse_state;
    }

    pub fn set_current(&mut self, value: usize)
        ensures
            final(self)@ == (StatsModel { cur: value as nat, ..old(self)@ }),
            final(self).spec_pulse() == old(self).spec_pulse(),
    {
        self.cur = value;
    }

    pub fn set_max(&mut self, value: usize)
        ensures
            final(self)@ == (StatsModel { max: value as nat, ..old(self)@ }),
            final(self).spec_pulse() == old(self).spec_pulse(),
    {
        self.max = value;
    }

    pub fn increment(&mut self)
        ensures
            final(self)@ == (StatsModel { cur: wrap_add(old(self)@.cur as int, 1) as nat, ..old(self)@ }),
            final(self).spec_pulse() == old(self).spec_pulse(),
    {
        self.cur = self.cur.wrapping_add(1);
    }

    pub fn get_cur(&self) -> (r: usize)
        ensures
            r == self@.cur,
    {
        self.cur
    }

    pub fn get_max(&self) -> (r: usize)
        ensures
            r == self@.max,
    {
        self.max
    }

    /// Marks the start of processing at time `now`.
    pub fn start_processing(&mut self, now: u64)
        ensures
            final(self)@ == (StatsModel { start_time: Some(now), ..old(self)@ }),
            final(self).spec_pulse() == old(self).spec_pulse(),
    {
        self.start_time = Some(now);
    }

    pub fn stop_processing(&mut self)
        ensures
            final(self)@ == (StatsModel { start_time: None, ..old(self)@ }),
            final(self).spec_pulse() == old(self).spec_pulse(),
    {
        self.start_time = None;
    }

    pub fn increment_errors(&mut self)
        ensures
            final(self)@ == (StatsModel { errors: wrap_add(old(self)@.errors as int, 1) as nat, ..old(self)@ }),
            final(self).spec_pulse() == old(self).spec_pulse(),
    {
        self.errors = self.errors.wrapping_add(1);
    }

    pub fn get_errors(&self) -> (r: usize)
        ensures
            r == self@.errors,
    {
        self.errors
    }

    pub fn add_bytes_processed(&mut self, bytes: usize)
        ensures
            final(self)@ == (StatsModel {
                bytes_processed: wrap_add(old(self)@.bytes_processed as int, bytes as int) as nat,
                ..old(self)@
            }),
            final(self).spec_pulse() == old(self).spec_pulse(),
    {
        self.bytes_processed = self.bytes_processed.wrapping_add(bytes);
    }

    pub fn get_bytes_processed(&self) -> (r: usize)
        ensures
            r == self@.bytes_processed,
    {
        self.bytes_processed
    }

    /// Refreshes the rate, in items per whole second since the start; it is
    /// left alone before the start, at the start second, or when the clock
    /// reads earlier than the start.
    pub fn update_rate(&mut self, now: u64)
        ensures
            final(self).spec_pulse() == old(self).spec_pulse(),
            final(self)@ == (match old(self)@.start_time {
                Some(start) => if now > start {
                    StatsModel { rate: old(self)@.cur / (now - start) as nat, ..old(self)@ }
                } else {
                    old(self)@
                },
                None => old(self)@,
            }),
    {
        if let Some(start) = self.start_time {
            if now > start {
                let seconds: u64 = now - start;
                let rate: u64 = (self.cur as u64) / seconds;
                assert(rate <= self.cur) by (nonlinear_arith)
                    requires rate == (self.cur as u64) / seconds, seconds > 0;
                self.processed_rate = rate as usize;
            }
        }
    }

    pub fn get_processing_rate(&self) -> (r: usize)
        ensures
            r == self@.rate,
    {
        self.processed_rate
    }

    /// Whole seconds since the start at time `now`; none before the start or
    /// when the clock reads earlier than the start.
    pub fn get_elapsed_time(&self, now: u64) -> (r: Option<u64>)
        ensures
            r == (match self@.start_time {
                Some(start) => if now >= start { Some((now - start) as u64) } else { None },
                None => None,
            }),
    {
        match self.start_time {
            Some(start) => if now >= start { Some(now - start) } else { None },
            None => None,
        }
    }

    pub fn get_percentage_abs(&self) -> (r: u8)
        ensures
            r == percentage(self@.cur as int, self@.max as int),
    {
        if self.max == 0 {
            0
        } else {
            let p: u128 = (self.cur as u128) * 100 / (self.max as u128);
            if p > 100 { 100 } else { p as u8 }
        }
    }

    pub fn is_complete(&self) -> (r: bool)
        ensures
            r == (self@.cur >= self@.max),
    {
        self.cur >= self.max
    }

    /// Elapsed time at `now` as a clock, `00:00` when not started.
    pub fn format_elapsed_time(&self, now: u64) -> (r: String)
        ensures
            r@ == (match self.get_elapsed_time_spec(now) {
                Some(secs) => clock_text(secs as nat),
                None => "00:00"@,
            }),
    {
        match self.get_elapsed_time(now) {
            Some(total) => {
                let hours = total / 3600;
                let minutes = (total % 3600) / 60;
                let seconds = total % 60;
                let mut out = String::new();
                if hours > 0 {
                    push_two_digits(&mut out, hours);
                    push_char(&mut out, ':');
                }
                push_two_digits(&mut out, minutes);
                push_char(&mut out, ':');
                push_two_digits(&mut out, seconds);
                assert(out@ =~= clock_text(total as nat));
                out
            },
            None => String::from_str("00:00"),
        }
    }

    pub open spec fn get_elapsed_time_spec(&self, now: u64) -> Option<u64> {
        match self@.start_time {
            Some(start) => if now >= start { Some((now - start) as u64) } else { None },
            None => None,
        }
    }
}

} // verus!
