//! The record of what a launched game wrote to its console.
//!
//! A session starts when the game is launched. Every line the game writes
//! is kept with the number of milliseconds since the start. The log is
//! handed out only once the game has exited.

use vstd::prelude::*;
use std::time::{Duration, Instant};

verus! {

#[verifier::external_type_specification]
#[verifier::external_body]
pub struct ExInstant(Instant);

/// Reads the clock with `Instant::now` of the standard library. Nothing is
/// claimed of the instant read.
#[verifier::external_body]
fn clock_now() -> Instant {
    Instant::now()
}

/// The time since `start`, by `Instant::elapsed` of the standard library.
/// Nothing is claimed of the duration.
#[verifier::external_body]
fn time_since(start: &Instant) -> Duration {
    start.elapsed()
}

/// The whole milliseconds of a duration, by `Duration::as_millis` of the
/// standard library. Nothing is claimed of the number.
#[verifier::external_body]
fn whole_millis(d: &Duration) -> u128 {
    d.as_millis()
}

/// A count of milliseconds cut to 64 bits: what is left of it after
/// division by 2^64.
pub open spec fn low_64_bits(ms: u128) -> u64 {
    (ms % 0x1_0000_0000_0000_0000) as u64
}

/// Cuts a count of milliseconds to 64 bits.
pub fn cut_to_64_bits(ms: u128) -> (r: u64)
    ensures
        r == low_64_bits(ms),
        ms <= u64::MAX ==> r == ms,
{
    (ms % 0x1_0000_0000_0000_0000) as u64
}

/// The console output of one run of the game.
pub struct GZDoomSession {
    pub start_time: Instant,
    /// The lines written so far, each with the milliseconds since the start.
    pub lines: Vec<(u64, String)>,
    /// Whether the game has exited.
    pub finished: bool,
}

impl GZDoomSession {
    /// A session that starts now: no lines yet, and not finished.
    pub fn new() -> (s: Self)
        ensures
            s.lines@ == Seq::<(u64, String)>::empty(),
            !s.finished,
    {
        Self { start_time: clock_now(), lines: Vec::new(), finished: false }
    }

    /// The milliseconds since the start of the session, cut to 64 bits.
    /// The time is read from the clock, so nothing is known of the number
    /// beforehand.
    pub fn elapsed_ms(&self) -> u64 {
        let d = time_since(&self.start_time);
        let ms: u128 = whole_millis(&d);
        cut_to_64_bits(ms)
    }

    /// Appends a line with the time at which it was written.
    pub fn push_line(&mut self, elapsed_ms: u64, line: String)
        ensures
            final(self).lines@ == old(self).lines@.push((elapsed_ms, line)),
            final(self).finished == old(self).finished,
            final(self).start_time == old(self).start_time,
    {
        self.lines.push((elapsed_ms, line));
    }

    /// Appends a line written now. The lines before it stay as they are;
    /// the time that goes with the new line is read from the clock.
    pub fn record_line(&mut self, line: String)
        ensures
            final(self).lines@.len() == old(self).lines@.len() + 1,
            final(self).lines@.drop_last() == old(self).lines@,
            final(self).lines@.last().1 == line,
            final(self).finished == old(self).finished,
            final(self).start_time == old(self).start_time,
    {
        let elapsed: u64 = self.elapsed_ms();
        let ghost before = self.lines@;
        self.push_line(elapsed, line);
        assert(self.lines@.drop_last() =~= before);
    }

    /// Marks the game as exited.
    pub fn mark_finished(&mut self)
        ensures
            final(self).finished,
            final(self).lines@ == old(self).lines@,
            final(self).start_time == old(self).start_time,
    {
        self.finished = true;
    }

    /// The log of the session: every line with its time, once the game has
    /// exited, and nothing before that.
    pub fn log(&self) -> (r: Option<Vec<(u64, String)>>)
        ensures
            match r {
                Some(lines) => self.finished && lines@ == self.lines@,
                None => !self.finished,
            },
    {
        if !self.finished {
            return None;
        }
        let mut out: Vec<(u64, String)> = Vec::new();
        let mut i: usize = 0;
        while i < self.lines.len()
            invariant
                i <= self.lines@.len(),
                out@ == self.lines@.subrange(0, i as int),
            decreases self.lines@.len() - i,
        {
            let ghost before = out@;
            let time: u64 = self.lines[i].0;
            let text: String = self.lines[i].1.clone();
            out.push((time, text));
            assert(out@ =~= self.lines@.subrange(0, i + 1));
            i += 1;
        }
        assert(out@ =~= self.lines@);
        Some(out)
    }
}

/// The log to hand out for the current session, if there is one: `None`
/// while no game was launched or the game is still running.
pub fn session_log(session: Option<&GZDoomSession>) -> (r: Option<Vec<(u64, String)>>)
    ensures
        match r {
            Some(lines) => session matches Some(s) && s.finished && lines@ == s.lines@,
            None => session matches Some(s) ==> !s.finished,
        },
{
    match session {
        Some(s) => s.log(),
        None => None,
    }
}

} // verus!
