//! The countdown state machine: a mode fixes the work/break durations, a
//! phase selects which one is running down, and `Timer` advances by elapsed
//! milliseconds.

use vstd::prelude::*;
use vstd::string::*;
use crate::clock;
use crate::text;

verus! {

/// The two session presets: 25 minutes of work with a 5 minute break, or
/// 50 minutes of work with a 10 minute break.
#[derive(Debug, Clone, Copy, PartialEq, Eq, Structural)]
pub enum PomodoroMode {
    Short,
    Long,
}

impl PomodoroMode {
    /// Length of this mode's work phase, in seconds.
    pub open spec fn spec_work_secs(self) -> int {
        match self {
            PomodoroMode::Short => 25int * 60,
            PomodoroMode::Long => 50int * 60,
        }
    }

    /// Length of this mode's break phase, in seconds.
    pub open spec fn spec_break_secs(self) -> int {
        match self {
            PomodoroMode::Short => 5int * 60,
            PomodoroMode::Long => 10int * 60,
        }
    }

    pub fn work_duration(&self) -> (d: Duration)
        ensures
            d@ == self.spec_work_secs() * 1000,
    {
        match self {
            PomodoroMode::Short => Duration::from_secs(25 * 60),
            PomodoroMode::Long => Duration::from_secs(50 * 60),
        }
    }

    pub fn break_duration(&self) -> (d: Duration)
        ensures
            d@ == self.spec_break_secs() * 1000,
    {
        match self {
            PomodoroMode::Short => Duration::from_secs(5 * 60),
            PomodoroMode::Long => Duration::from_secs(10 * 60),
        }
    }
}

/// A span of time, counted in whole milliseconds.
///
/// The view of a `Duration` is its length in milliseconds.
#[derive(Debug, Clone, Copy, PartialEq, Eq, Structural)]
pub struct Duration {
    millis: u64,
}

impl View for Duration {
    type V = int;

    closed spec fn view(&self) -> int {
        self.millis as int
    }
}

impl Duration {
    pub fn from_secs(secs: u64) -> (d: Duration)
        requires
            secs * 1000 <= u64::MAX,
        ensures
            d@ == secs * 1000,
    {
        Duration { millis: secs * 1000 }
    }

    pub fn from_millis(millis: u64) -> (d: Duration)
        ensures
            d@ == millis,
    {
        Duration { millis }
    }

    pub fn as_secs(&self) -> (s: u64)
        ensures
            s == self@ / 1000,
    {
        self.millis / 1000
    }

    pub fn as_millis(&self) -> (m: u64)
        ensures
            m == self@,
    {
        self.millis
    }

}

/// The display label of a mode.
pub open spec fn mode_label(m: PomodoroMode) -> Seq<char> {
    match m {
        PomodoroMode::Short => "Short (25/5)"@,
        PomodoroMode::Long => "Long (50/10)"@,
    }
}

impl PomodoroMode {
    pub fn name(&self) -> (r: &'static str)
        ensures
            r@ == mode_label(*self),
    {
        match self {
            PomodoroMode::Short => "Short (25/5)",
            PomodoroMode::Long => "Long (50/10)",
        }
    }
}

/// The two halves of a cycle: the work interval and the break that follows.
#[derive(Debug, Clone, Copy, PartialEq, Eq, Structural)]
pub enum TimerPhase {
    Work,
    Break,
}

impl TimerPhase {
    pub fn name(&self) -> (r: &'static str)
        ensures
            *self is Work ==> r@ == "Work"@,
            *self is Break ==> r@ == "Break"@,
    {
        match self {
            TimerPhase::Work => "Work",
            TimerPhase::Break => "Break",
        }
    }
}

/// The configured length of a phase under a mode, in milliseconds.
pub open spec fn phase_millis(mode: PomodoroMode, phase: TimerPhase) -> int {
    match phase {
        TimerPhase::Work => mode.spec_work_secs() * 1000,
        TimerPhase::Break => mode.spec_break_secs() * 1000,
    }
}

/// What is observable of a timer: the hidden clock reference is not part
/// of it.
pub ghost struct TimerView {
    pub mode: PomodoroMode,
    pub phase: TimerPhase,
    pub remaining: int,
    pub paused: bool,
}

impl TimerView {
    /// The countdown never holds more time than the running phase is
    /// configured with.
    pub open spec fn wf(self) -> bool {
        0 <= self.remaining <= phase_millis(self.mode, self.phase)
    }
}

/// One live session's countdown: a fixed mode, the phase now running, the
/// time still to go, and whether the countdown is paused. Advancing is
/// driven either by the monotonic clock (`tick`) or by an explicit elapsed
/// span (`tick_elapsed`).
#[derive(Debug, Clone, Copy)]
pub struct Timer {
    pub mode: PomodoroMode,
    pub phase: TimerPhase,
    pub remaining: Duration,
    pub paused: bool,
    /// The reference point for measuring elapsed time; not part of the
    /// observable state.
    pub last_tick: clock::MonotonicStamp,
}

impl View for Timer {
    type V = TimerView;

    open spec fn view(&self) -> TimerView {
        TimerView {
            mode: self.mode,
            phase: self.phase,
            remaining: self.remaining@,
            paused: self.paused,
        }
    }
}

/// How one observation of `elapsed` milliseconds moves a running countdown:
/// the phase completes exactly when the whole remainder is used up.
pub open spec fn tick_outcome(rem0: int, elapsed: int, rem1: int, completed: bool) -> bool {
    if elapsed >= rem0 {
        rem1 == 0 && completed
    } else {
        rem1 == rem0 - elapsed && !completed
    }
}

impl Timer {
    /// A fresh session: work phase, full work duration, running.
    pub fn new(mode: PomodoroMode) -> (t: Timer)
        ensures
            t@ == (TimerView {
                mode,
                phase: TimerPhase::Work,
                remaining: mode.spec_work_secs() * 1000,
                paused: false,
            }),
            t@.wf(),
    {
        Timer {
            mode,
            phase: TimerPhase::Work,
            remaining: mode.work_duration(),
            paused: false,
            last_tick: clock::MonotonicStamp::now(),
        }
    }

    /// Advance the countdown by a known elapsed span. While paused nothing
    /// moves and no completion is reported; while running, the span is taken
    /// off the remainder, flooring at zero, and completion is reported
    /// exactly when the remainder is used up.
    pub fn tick_elapsed(&mut self, elapsed_ms: u64) -> (completed: bool)
        ensures
            final(self)@.mode == old(self)@.mode,
            final(self)@.phase == old(self)@.phase,
            final(self)@.paused == old(self)@.paused,
            old(self)@.paused ==> !completed && final(self)@.remaining == old(self)@.remaining,
            !old(self)@.paused ==> tick_outcome(
                old(self)@.remaining,
                elapsed_ms as int,
                final(self)@.remaining,
                completed,
            ),
            final(self)@.remaining <= old(self)@.remaining,
            old(self)@.wf() ==> final(self)@.wf(),
    {
        if self.paused {
            return false;
        }
        if elapsed_ms >= self.remaining.as_millis() {
            self.remaining = Duration::from_millis(0);
            true
        } else {
            self.remaining = Duration::from_millis(self.remaining.as_millis() - elapsed_ms);
            false
        }
    }

    /// Advance the countdown by the time elapsed on the monotonic clock
    /// since the last observation. While paused this only moves the
    /// reference point, so no time is charged; while running, some observed
    /// span is taken off the remainder as in `tick_elapsed`.
    pub fn tick(&mut self) -> (completed: bool)
        ensures
            final(self)@.mode == old(self)@.mode,
            final(self)@.phase == old(self)@.phase,
            final(self)@.paused == old(self)@.paused,
            old(self)@.paused ==> !completed && final(self)@.remaining == old(self)@.remaining,
            !old(self)@.paused ==> exists|elapsed_ms: u64| tick_outcome(
                old(self)@.remaining,
                elapsed_ms as int,
                final(self)@.remaining,
                completed,
            ),
            final(self)@.remaining <= old(self)@.remaining,
            completed ==> final(self)@.remaining == 0,
            old(self)@.wf() ==> final(self)@.wf(),
    {
        if self.paused {
            self.last_tick = clock::MonotonicStamp::now();
            return false;
        }
        let now = clock::MonotonicStamp::now();
        let elapsed_ms = self.last_tick.millis_to(&now);
        self.last_tick = now;
        let completed = self.tick_elapsed(elapsed_ms);
        proof {
            assert(tick_outcome(
                old(self)@.remaining,
                elapsed_ms as int,
                final(self)@.remaining,
                completed,
            ));
        }
        completed
    }

    /// Flip the pause state; on resuming, the clock reference is moved to
    /// now so the paused span is never charged.
    pub fn toggle_pause(&mut self)
        ensures
            final(self)@ == (TimerView { paused: !old(self)@.paused, ..old(self)@ }),
    {
        self.paused = !self.paused;
        if !self.paused {
            self.last_tick = clock::MonotonicStamp::now();
        }
    }

    /// Refill the current phase to its full duration and resume.
    pub fn reset(&mut self)
        ensures
            final(self)@ == (TimerView {
                remaining: phase_millis(old(self)@.mode, old(self)@.phase),
                paused: false,
                ..old(self)@
            }),
            final(self)@.wf(),
    {
        self.remaining = match self.phase {
            TimerPhase::Work => self.mode.work_duration(),
            TimerPhase::Break => self.mode.break_duration(),
        };
        self.paused = false;
        self.last_tick = clock::MonotonicStamp::now();
    }

    /// Force the break phase, with its full duration, running.
    pub fn start_break(&mut self)
        ensures
            final(self)@ == (TimerView {
                phase: TimerPhase::Break,
                remaining: old(self)@.mode.spec_break_secs() * 1000,
                paused: false,
                ..old(self)@
            }),
            final(self)@.wf(),
    {
        self.phase = TimerPhase::Break;
        self.remaining = self.mode.break_duration();
        self.paused = false;
        self.last_tick = clock::MonotonicStamp::now();
    }

    /// Force the work phase, with its full duration, running.
    pub fn start_work(&mut self)
        ensures
            final(self)@ == (TimerView {
                phase: TimerPhase::Work,
                remaining: old(self)@.mode.spec_work_secs() * 1000,
                paused: false,
                ..old(self)@
            }),
            final(self)@.wf(),
    {
        self.phase = TimerPhase::Work;
        self.remaining = self.mode.work_duration();
        self.paused = false;
        self.last_tick = clock::MonotonicStamp::now();
    }

    /// End the current phase at once and start the other one; reports
    /// whether the ended phase was the work phase, which is the signal that
    /// a pomodoro was completed.
    pub fn skip_phase(&mut self) -> (was_work: bool)
        ensures
            was_work == (old(self)@.phase is Work),
            old(self)@.phase is Work ==> final(self)@ == (TimerView {
                phase: TimerPhase::Break,
                remaining: old(self)@.mode.spec_break_secs() * 1000,
                paused: false,
                ..old(self)@
            }),
            old(self)@.phase is Break ==> final(self)@ == (TimerView {
                phase: TimerPhase::Work,
                remaining: old(self)@.mode.spec_work_secs() * 1000,
                paused: false,
                ..old(self)@
            }),
            final(self)@.wf(),
    {
        let was_work = self.phase == TimerPhase::Work;
        match self.phase {
            TimerPhase::Work => self.start_break(),
            TimerPhase::Break => self.start_work(),
        }
        was_work
    }

    /// The remaining time as zero-padded minutes and seconds, `MM:SS`; the
    /// minutes keep all their digits beyond 99 rather than rolling over.
    pub fn format_remaining(&self) -> (r: String)
        ensures
            r@ == text::padded2((self@.remaining / 1000 / 60) as nat)
                + seq![':']
                + text::padded2(((self@.remaining / 1000) % 60) as nat),
    {
        let secs = self.remaining.as_secs();
        let minutes = secs / 60;
        let seconds = secs % 60;
        let mut r = text::u64_to_dec2(minutes);
        r.append(":");
        let sec_str = text::u64_to_dec2(seconds);
        r.append(sec_str.as_str());
        proof {
            reveal_strlit(":");
            assert(r@ =~= text::padded2((self@.remaining / 1000 / 60) as nat)
                + seq![':']
                + text::padded2(((self@.remaining / 1000) % 60) as nat));
        }
        r
    }
}

} // verus!

