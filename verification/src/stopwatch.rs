//! A stopwatch over a caller-supplied millisecond clock.
//!
//! The stopwatch itself is pure state-transition logic: every operation takes
//! the current time in milliseconds as an argument, so the reading of the
//! clock stays with the caller. It cycles through three states — not started,
//! running, done — and remembers time spent before a pause so that resuming
//! continues the count.

use vstd::prelude::*;
use vstd::string::StringExecFns;

use crate::game::push_char;

verus! {

/// The three faces of the stopwatch.
#[derive(Clone, Copy, Debug, PartialEq, Eq, Structural)]
pub enum StopwatchState {
    NotStarted,
    Running,
    Done,
}

/// The character for one decimal digit.
pub open spec fn digit_char(d: int) -> char {
    (48 + d) as char
}

/// The decimal digits of a number, most significant first.
pub open spec fn dec_digits(n: nat) -> Seq<char>
    decreases n,
{
    if n < 10 {
        seq![digit_char(n as int)]
    } else {
        dec_digits(n / 10).push(digit_char((n % 10) as int))
    }
}

/// The decimal digits of a number, padded to at least two digits.
pub open spec fn dec2(n: nat) -> Seq<char> {
    if n < 10 {
        seq!['0'] + dec_digits(n)
    } else {
        dec_digits(n)
    }
}

/// An elapsed time rendered as minutes, seconds and hundredths, each at least
/// two digits wide, separated by colons.
pub open spec fn elapsed_display(elapsed_ms: nat) -> Seq<char> {
    dec2(elapsed_ms / 60000) + seq![':'] + dec2((elapsed_ms % 60000) / 1000) + seq![':'] + dec2(
        ((elapsed_ms % 60000) % 1000) / 10,
    )
}

/// The character for one decimal digit, executable.
fn digit_char_exec(d: u8) -> (r: char)
    requires
        d < 10,
    ensures
        r == digit_char(d as int),
{
    (48 + d) as char
}

/// The decimal digits of a number, executable.
fn dec_digits_exec(n: u128) -> (r: String)
    ensures
        r@ == dec_digits(n as nat),
    decreases n,
{
    if n < 10 {
        let mut s = String::new();
        push_char(&mut s, digit_char_exec(n as u8));
        proof {
            assert(s@ =~= dec_digits(n as nat));
        }
        s
    } else {
        let mut s = dec_digits_exec(n / 10);
        push_char(&mut s, digit_char_exec((n % 10) as u8));
        proof {
            assert(s@ =~= dec_digits(n as nat));
        }
        s
    }
}

/// The decimal digits of a number padded to at least two digits, executable.
fn dec2_exec(n: u128) -> (r: String)
    ensures
        r@ == dec2(n as nat),
{
    if n < 10 {
        let mut s = String::new();
        push_char(&mut s, '0');
        push_char(&mut s, digit_char_exec(n as u8));
        proof {
            assert(s@ =~= dec2(n as nat));
        }
        s
    } else {
        dec_digits_exec(n)
    }
}

/// A stopwatch: when it was started, what state it is in, the frozen display
/// once it is done, and the time accumulated before pauses.
pub struct Stopwatch {
    pub start_ms: u64,
    pub state: StopwatchState,
    pub display: String,
    pub paused_ms: u64,
}

impl Stopwatch {
    /// What the stopwatch shows at a given time: zeros before it is started,
    /// the elapsed time while it runs, and the frozen display once done.
    pub open spec fn time_display(self, now_ms: u64) -> Seq<char> {
        match self.state {
            StopwatchState::NotStarted => "00:00:00"@,
            StopwatchState::Running => elapsed_display(
                (now_ms - self.start_ms + self.paused_ms) as nat,
            ),
            StopwatchState::Done => self.display@,
        }
    }

    /// A stopwatch that has not been started.
    pub fn new(now_ms: u64) -> (s: Stopwatch)
        ensures
            s.state == StopwatchState::NotStarted,
            s.start_ms == now_ms,
            s.paused_ms == 0,
            s.display@ == "0:00:00"@,
    {
        Stopwatch {
            start_ms: now_ms,
            state: StopwatchState::NotStarted,
            display: String::from_str("0:00:00"),
            paused_ms: 0,
        }
    }

    /// Renders the stopwatch at the given time.
    pub fn get_time(&self, now_ms: u64) -> (r: String)
        requires
            self.state == StopwatchState::Running ==> now_ms >= self.start_ms,
        ensures
            r@ == self.time_display(now_ms),
    {
        match self.state {
            StopwatchState::NotStarted => String::from_str("00:00:00"),
            StopwatchState::Running => {
                let elapsed: u128 = (now_ms - self.start_ms) as u128 + self.paused_ms as u128;
                let minutes: u128 = elapsed / 60000;
                let rem: u128 = elapsed % 60000;
                let seconds: u128 = rem / 1000;
                let centis: u128 = (rem % 1000) / 10;
                let mut out = dec2_exec(minutes);
                push_char(&mut out, ':');
                let mid = dec2_exec(seconds);
                out.append(mid.as_str());
                push_char(&mut out, ':');
                let last = dec2_exec(centis);
                out.append(last.as_str());
                proof {
                    assert(out@ =~= self.time_display(now_ms));
                }
                out
            },
            StopwatchState::Done => self.display.clone(),
        }
    }

    /// Advances the stopwatch one state: starts it, or freezes the display,
    /// or clears it back to the beginning.
    pub fn next_state(&mut self, now_ms: u64)
        requires
            old(self).state == StopwatchState::Running ==> now_ms >= old(self).start_ms,
        ensures
            old(self).state == StopwatchState::NotStarted ==> final(self).state
                == StopwatchState::Running && final(self).start_ms == now_ms
                && final(self).paused_ms == old(self).paused_ms
                && final(self).display == old(self).display,
            old(self).state == StopwatchState::Running ==> final(self).state
                == StopwatchState::Done && final(self).display@ == old(self).time_display(now_ms)
                && final(self).start_ms == old(self).start_ms
                && final(self).paused_ms == old(self).paused_ms,
            old(self).state == StopwatchState::Done ==> final(self).state
                == StopwatchState::NotStarted && final(self).paused_ms == 0
                && final(self).start_ms == old(self).start_ms
                && final(self).display == old(self).display,
    {
        match self.state {
            StopwatchState::NotStarted => {
                self.start_ms = now_ms;
                self.state = StopwatchState::Running;
            },
            StopwatchState::Running => {
                let shown = self.get_time(now_ms);
                self.display = shown;
                self.state = StopwatchState::Done;
            },
            StopwatchState::Done => {
                self.state = StopwatchState::NotStarted;
                self.paused_ms = 0;
            },
        }
    }

    /// Pauses a running stopwatch, banking the time elapsed so far; in any
    /// other state it does nothing.
    pub fn pause(&mut self, now_ms: u64)
        requires
            old(self).state == StopwatchState::Running ==> now_ms >= old(self).start_ms
                && old(self).paused_ms + now_ms - old(self).start_ms <= u64::MAX,
        ensures
            old(self).state == StopwatchState::Running ==> final(self).state
                == StopwatchState::NotStarted
                && final(self).paused_ms == old(self).paused_ms + (now_ms - old(self).start_ms)
                && final(self).start_ms == old(self).start_ms
                && final(self).display == old(self).display,
            old(self).state != StopwatchState::Running ==> *final(self) == *old(self),
    {
        match self.state {
            StopwatchState::Running => {
                self.paused_ms = self.paused_ms + (now_ms - self.start_ms);
                self.state = StopwatchState::NotStarted;
            },
            _ => {
            },
        }
    }

    /// Resumes a paused (not-started) stopwatch from the given time, keeping
    /// the banked elapsed time; in any other state it does nothing.
    pub fn resume(&mut self, now_ms: u64)
        ensures
            old(self).state == StopwatchState::NotStarted ==> final(self).state
                == StopwatchState::Running && final(self).start_ms == now_ms
                && final(self).paused_ms == old(self).paused_ms
                && final(self).display == old(self).display,
            old(self).state != StopwatchState::NotStarted ==> *final(self) == *old(self),
    {
        match self.state {
            StopwatchState::NotStarted => {
                self.start_ms = now_ms;
                self.state = StopwatchState::Running;
            },
            _ => {
            },
        }
    }
}

} // verus!
