//! The session controller: one optional countdown, the analytics aggregate,
//! and the screen/flag state the interface shows. Commands and periodic
//! ticks drive every transition; each one is specified by a step relation
//! over the controller's view.

use vstd::prelude::*;
use crate::analytics::{Analytics, RecordView};
use crate::timer::{
    mode_label, phase_millis, PomodoroMode, Timer, TimerPhase, TimerView,
};

verus! {

/// Which screen the interface is on.
#[derive(Debug, Clone, Copy, PartialEq, Eq, Structural)]
pub enum Screen {
    ModeSelection,
    Timer,
    Analytics,
}

/// The discrete commands the surrounding interface can hand in; the
/// periodic tick is a separate event.
#[derive(Debug, Clone, Copy, PartialEq, Eq, Structural)]
pub enum Command {
    NavigateUp,
    NavigateDown,
    Confirm,
    Quit,
    PauseResume,
    Reset,
    Skip,
    OpenAnalytics,
    Back,
    ClearAnalytics,
    AcknowledgeTransition,
    RequestAbandon,
    ConfirmAbandon,
    CancelAbandon,
}

/// Everything observable of the controller.
pub ghost struct AppView {
    pub screen: Screen,
    pub running: bool,
    pub selected_mode: int,
    pub timer: Option<TimerView>,
    pub analytics: Seq<RecordView>,
    pub show_completion_message: bool,
    pub show_exit_confirm: bool,
    pub waiting_for_next_phase: bool,
    pub auto_advance: bool,
}

/// The mode the selection index stands for: the first entry is the short
/// mode, the second the long one.
pub open spec fn mode_of_index(i: int) -> PomodoroMode {
    if i == 0 {
        PomodoroMode::Short
    } else {
        PomodoroMode::Long
    }
}

/// A freshly started countdown under `mode`.
pub open spec fn fresh_timer(mode: PomodoroMode) -> TimerView {
    TimerView {
        mode,
        phase: TimerPhase::Work,
        remaining: mode.spec_work_secs() * 1000,
        paused: false,
    }
}

/// The countdown after moving to the other phase: full duration, running.
pub open spec fn advanced_timer(t: TimerView) -> TimerView {
    match t.phase {
        TimerPhase::Work => TimerView {
            phase: TimerPhase::Break,
            remaining: phase_millis(t.mode, TimerPhase::Break),
            paused: false,
            ..t
        },
        TimerPhase::Break => TimerView {
            phase: TimerPhase::Work,
            remaining: phase_millis(t.mode, TimerPhase::Work),
            paused: false,
            ..t
        },
    }
}

/// Apply `f` under the option.
pub open spec fn map_timer(
    o: Option<TimerView>,
    f: spec_fn(TimerView) -> TimerView,
) -> Option<TimerView> {
    match o {
        None => None,
        Some(t) => Some(f(t)),
    }
}

/// What a command does on the mode-selection screen.
pub open spec fn mode_selection_step(pre: AppView, cmd: Command) -> AppView {
    match cmd {
        Command::Quit => AppView { running: false, ..pre },
        Command::NavigateDown => AppView {
            selected_mode: (pre.selected_mode + 1) % 2,
            ..pre
        },
        Command::NavigateUp => AppView {
            selected_mode: if pre.selected_mode == 0 { 1int } else { 0int },
            ..pre
        },
        Command::Confirm => AppView {
            timer: Some(fresh_timer(mode_of_index(pre.selected_mode))),
            screen: Screen::Timer,
            ..pre
        },
        Command::OpenAnalytics => AppView { screen: Screen::Analytics, ..pre },
        _ => pre,
    }
}

/// What a command does on the analytics screen.
pub open spec fn analytics_step(pre: AppView, cmd: Command) -> AppView {
    match cmd {
        Command::Quit => AppView { running: false, ..pre },
        Command::Back => AppView { screen: Screen::ModeSelection, ..pre },
        Command::ClearAnalytics => AppView {
            analytics: Seq::<RecordView>::empty(),
            ..pre
        },
        _ => pre,
    }
}

/// What a command does on the timer screen. A relation, not a function:
/// skipping a work phase records a pomodoro stamped with whatever day the
/// clock yields.
pub open spec fn timer_step(pre: AppView, cmd: Command, post: AppView) -> bool {
    if pre.show_exit_confirm {
        match cmd {
            Command::ConfirmAbandon => post == AppView {
                show_exit_confirm: false,
                timer: None,
                screen: Screen::ModeSelection,
                ..pre
            },
            Command::CancelAbandon => post == AppView { show_exit_confirm: false, ..pre },
            _ => post == pre,
        }
    } else if pre.waiting_for_next_phase {
        match cmd {
            Command::AcknowledgeTransition => post == AppView {
                timer: map_timer(pre.timer, |t: TimerView| advanced_timer(t)),
                waiting_for_next_phase: false,
                show_completion_message: false,
                ..pre
            },
            Command::Quit => post == AppView { running: false, ..pre },
            Command::RequestAbandon => post == AppView {
                waiting_for_next_phase: false,
                show_exit_confirm: true,
                ..pre
            },
            _ => post == pre,
        }
    } else {
        match cmd {
            Command::Quit => post == AppView { running: false, ..pre },
            Command::PauseResume => post == AppView {
                timer: map_timer(pre.timer, |t: TimerView| TimerView { paused: !t.paused, ..t }),
                ..pre
            },
            Command::Reset => post == AppView {
                timer: map_timer(
                    pre.timer,
                    |t: TimerView| TimerView {
                        remaining: phase_millis(t.mode, t.phase),
                        paused: false,
                        ..t
                    },
                ),
                ..pre
            },
            Command::Skip => match pre.timer {
                None => post == pre,
                Some(t) => if t.phase is Work {
                    exists|d: u64|
                        1 <= d && post == AppView {
                            timer: Some(advanced_timer(t)),
                            analytics: pre.analytics.push(
                                RecordView { day: d as int, mode: mode_label(t.mode) },
                            ),
                            show_completion_message: true,
                            ..pre
                        }
                } else {
                    post == AppView { timer: Some(advanced_timer(t)), ..pre }
                },
            },
            Command::RequestAbandon => post == AppView {
                timer: map_timer(pre.timer, |t: TimerView| TimerView { paused: true, ..t }),
                show_exit_confirm: true,
                ..pre
            },
            _ => post == pre,
        }
    }
}

/// What one command does, by screen.
pub open spec fn handle_step(pre: AppView, cmd: Command, post: AppView) -> bool {
    match pre.screen {
        Screen::ModeSelection => post == mode_selection_step(pre, cmd),
        Screen::Analytics => post == analytics_step(pre, cmd),
        Screen::Timer => timer_step(pre, cmd, post),
    }
}

/// The countdown right after a phase completed: advanced at once when the
/// controller auto-advances, otherwise left at zero, paused, awaiting the
/// user's acknowledgment.
pub open spec fn after_completion(t: TimerView, auto: bool) -> TimerView {
    if auto {
        advanced_timer(t)
    } else {
        TimerView { paused: true, ..t }
    }
}

/// What one tick does once the countdown observed `e` elapsed milliseconds.
pub open spec fn tick_step_elapsed(pre: AppView, t: TimerView, e: u64, post: AppView) -> bool {
    if (e as int) < t.remaining {
        post == AppView {
            show_completion_message: false,
            timer: Some(TimerView { remaining: t.remaining - e, ..t }),
            ..pre
        }
    } else {
        let done = TimerView { remaining: 0, ..t };
        if t.phase is Work {
            exists|d: u64|
                1 <= d && post == AppView {
                    show_completion_message: true,
                    analytics: pre.analytics.push(
                        RecordView { day: d as int, mode: mode_label(t.mode) },
                    ),
                    timer: Some(after_completion(done, pre.auto_advance)),
                    waiting_for_next_phase: !pre.auto_advance,
                    ..pre
                }
        } else {
            post == AppView {
                show_completion_message: false,
                timer: Some(after_completion(done, pre.auto_advance)),
                waiting_for_next_phase: !pre.auto_advance,
                ..pre
            }
        }
    }
}

/// What one periodic tick does. While awaiting acknowledgment nothing
/// moves; otherwise the completion banner is withdrawn, a running countdown
/// loses some observed span, and a phase that completes records a pomodoro
/// (work only) and either advances or waits, by policy.
pub open spec fn tick_step(pre: AppView, post: AppView) -> bool {
    if pre.waiting_for_next_phase {
        post == pre
    } else {
        match pre.timer {
            None => post == AppView { show_completion_message: false, ..pre },
            Some(t) => {
                if t.paused {
                    post == AppView { show_completion_message: false, ..pre }
                } else {
                    exists|e: u64| #[trigger] tick_step_elapsed(pre, t, e, post)
                }
            },
        }
    }
}

/// The initial controller state.
pub open spec fn initial_app(v: AppView) -> bool {
    v == AppView {
        screen: Screen::ModeSelection,
        running: true,
        selected_mode: 0,
        timer: None,
        analytics: Seq::<RecordView>::empty(),
        show_completion_message: false,
        show_exit_confirm: false,
        waiting_for_next_phase: false,
        auto_advance: false,
    }
}

/// The session controller. Starts on mode selection with no live session
/// and an empty in-memory history; the surrounding program may hand it a
/// loaded history by replacing `analytics`. `auto_advance` chooses the
/// policy at a phase boundary: move straight to the next phase, or pause
/// and await an explicit acknowledgment (the default).
pub struct App {
    pub screen: Screen,
    pub running: bool,
    pub selected_mode: usize,
    pub timer: Option<Timer>,
    pub analytics: Analytics,
    pub show_completion_message: bool,
    pub show_exit_confirm: bool,
    pub waiting_for_next_phase: bool,
    pub auto_advance: bool,
}

impl View for App {
    type V = AppView;

    open spec fn view(&self) -> AppView {
        AppView {
            screen: self.screen,
            running: self.running,
            selected_mode: self.selected_mode as int,
            timer: match self.timer {
                None => None,
                Some(t) => Some(t@),
            },
            analytics: self.analytics@,
            show_completion_message: self.show_completion_message,
            show_exit_confirm: self.show_exit_confirm,
            waiting_for_next_phase: self.waiting_for_next_phase,
            auto_advance: self.auto_advance,
        }
    }
}

impl App {
    /// A controller in its initial state.
    pub fn new() -> (a: App)
        ensures
            initial_app(a@),
    {
        App {
            screen: Screen::ModeSelection,
            running: true,
            selected_mode: 0,
            timer: None,
            analytics: Analytics::default(),
            show_completion_message: false,
            show_exit_confirm: false,
            waiting_for_next_phase: false,
            auto_advance: false,
        }
    }

    /// A controller in its initial state, with nothing loaded from disk.
    pub fn new_for_test() -> (a: App)
        ensures
            initial_app(a@),
    {
        App::new()
    }

    fn handle_mode_selection_key(&mut self, cmd: Command)
        ensures
            final(self)@ == mode_selection_step(old(self)@, cmd),
    {
        match cmd {
            Command::Quit => {
                self.running = false;
            },
            Command::NavigateDown => {
                self.selected_mode = (self.selected_mode % 2 + 1) % 2;
                proof {
                    vstd::arithmetic::div_mod::lemma_add_mod_noop(
                        old(self).selected_mode as int,
                        1,
                        2,
                    );
                }
            },
            Command::NavigateUp => {
                self.selected_mode = if self.selected_mode == 0 {
                    1
                } else {
                    0
                };
            },
            Command::Confirm => {
                let mode = if self.selected_mode == 0 {
                    PomodoroMode::Short
                } else {
                    PomodoroMode::Long
                };
                self.timer = Some(Timer::new(mode));
                self.screen = Screen::Timer;
            },
            Command::OpenAnalytics => {
                self.screen = Screen::Analytics;
            },
            _ => {},
        }
    }

    fn handle_timer_key(&mut self, cmd: Command)
        ensures
            timer_step(old(self)@, cmd, final(self)@),
    {
        if self.show_exit_confirm {
            match cmd {
                Command::ConfirmAbandon => {
                    self.show_exit_confirm = false;
                    self.timer = None;
                    self.screen = Screen::ModeSelection;
                },
                Command::CancelAbandon => {
                    self.show_exit_confirm = false;
                },
                _ => {},
            }
            return;
        }
        if self.waiting_for_next_phase {
            match cmd {
                Command::AcknowledgeTransition => {
                    if let Some(mut t) = self.timer {
                        match t.phase {
                            TimerPhase::Work => t.start_break(),
                            TimerPhase::Break => t.start_work(),
                        }
                        self.timer = Some(t);
                    }
                    self.waiting_for_next_phase = false;
                    self.show_completion_message = false;
                },
                Command::Quit => {
                    self.running = false;
                },
                Command::RequestAbandon => {
                    self.waiting_for_next_phase = false;
                    self.show_exit_confirm = true;
                },
                _ => {},
            }
            return;
        }
        match cmd {
            Command::Quit => {
                self.running = false;
            },
            Command::PauseResume => {
                if let Some(mut t) = self.timer {
                    t.toggle_pause();
                    self.timer = Some(t);
                }
            },
            Command::Reset => {
                if let Some(mut t) = self.timer {
                    t.reset();
                    self.timer = Some(t);
                }
            },
            Command::Skip => {
                if let Some(mut t) = self.timer {
                    let ghost t0 = t@;
                    let was_work = t.skip_phase();
                    self.timer = Some(t);
                    if was_work {
                        self.analytics.record_pomodoro(t.mode);
                        self.show_completion_message = true;
                        proof {
                            assert(t@ == advanced_timer(t0));
                            let d = choose|d: u64|
                                1 <= d && self.analytics@ =~= old(self)@.analytics.push(
                                    RecordView { day: d as int, mode: mode_label(t0.mode) },
                                );
                            assert(1 <= d && self@ == (AppView {
                                timer: Some(advanced_timer(t0)),
                                analytics: old(self)@.analytics.push(
                                    RecordView { day: d as int, mode: mode_label(t0.mode) },
                                ),
                                show_completion_message: true,
                                ..old(self)@
                            }));
                        }
                    } else {
                        proof {
                            assert(t@ == advanced_timer(t0));
                        }
                    }
                }
            },
            Command::RequestAbandon => {
                if let Some(mut t) = self.timer {
                    t.paused = true;
                    self.timer = Some(t);
                }
                self.show_exit_confirm = true;
            },
            _ => {},
        }
    }

    fn handle_analytics_key(&mut self, cmd: Command)
        ensures
            final(self)@ == analytics_step(old(self)@, cmd),
    {
        match cmd {
            Command::Quit => {
                self.running = false;
            },
            Command::Back => {
                self.screen = Screen::ModeSelection;
            },
            Command::ClearAnalytics => {
                self.analytics.clear();
            },
            _ => {},
        }
    }

    /// Route one command to the screen it lands on.
    pub fn handle_command(&mut self, cmd: Command)
        ensures
            handle_step(old(self)@, cmd, final(self)@),
    {
        match self.screen {
            Screen::ModeSelection => self.handle_mode_selection_key(cmd),
            Screen::Timer => self.handle_timer_key(cmd),
            Screen::Analytics => self.handle_analytics_key(cmd),
        }
    }

    /// One periodic tick.
    pub fn tick(&mut self)
        ensures
            tick_step(old(self)@, final(self)@),
    {
        if self.waiting_for_next_phase {
            return;
        }
        self.show_completion_message = false;
        if let Some(mut t) = self.timer {
            let ghost pre = old(self)@;
            let ghost t0 = t@;
            let completed = t.tick();
            let ghost t1 = t@;
            if completed {
                let was_work = t.phase == TimerPhase::Work;
                if was_work {
                    self.analytics.record_pomodoro(t.mode);
                    self.show_completion_message = true;
                }
                if self.auto_advance {
                    match t.phase {
                        TimerPhase::Work => t.start_break(),
                        TimerPhase::Break => t.start_work(),
                    }
                } else {
                    t.paused = true;
                    self.waiting_for_next_phase = true;
                }
            }
            self.timer = Some(t);
            proof {
                if !t0.paused {
                    let e = choose|e: u64| crate::timer::tick_outcome(
                        t0.remaining,
                        e as int,
                        t1.remaining,
                        completed,
                    );
                    if completed && t0.phase is Work {
                        let d = choose|d: u64|
                            1 <= d && self.analytics@ =~= pre.analytics.push(
                                RecordView { day: d as int, mode: mode_label(t0.mode) },
                            );
                        assert(1 <= d && self@ == (AppView {
                            show_completion_message: true,
                            analytics: pre.analytics.push(
                                RecordView { day: d as int, mode: mode_label(t0.mode) },
                            ),
                            timer: Some(after_completion(t1, pre.auto_advance)),
                            waiting_for_next_phase: !pre.auto_advance,
                            ..pre
                        }));
                    }
                    assert(tick_step_elapsed(pre, t0, e, self@));
                }
            }
        }
    }
}

} // verus!
