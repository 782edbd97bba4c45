//! A Pomodoro productivity core: a work/break countdown state machine and a
//! session-analytics aggregate over calendar-day records, with verified
//! contracts for every operation.

pub mod analytics;
pub mod clock;
pub mod codec;
pub mod controller;
pub mod text;
pub mod timer;

pub use analytics::Analytics;
pub use analytics::PomodoroRecord;
pub use clock::today_day_number;
pub use controller::App;
pub use controller::Command;
pub use controller::Screen;
pub use timer::Duration;
pub use timer::PomodoroMode;
pub use timer::Timer;
pub use timer::TimerPhase;
