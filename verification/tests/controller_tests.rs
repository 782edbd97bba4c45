use pomo::App;
use pomo::Command;
use pomo::Duration;
use pomo::PomodoroMode;
use pomo::Screen;
use pomo::Timer;
use pomo::TimerPhase;

#[test]
fn test_initial_state() {
    let app = App::new_for_test();
    assert_eq!(app.screen, Screen::ModeSelection);
    assert!(app.running);
    assert_eq!(app.selected_mode, 0);
    assert!(app.timer.is_none());
}

#[test]
fn test_mode_selection_navigate_down() {
    let mut app = App::new_for_test();
    app.handle_command(Command::NavigateDown);
    assert_eq!(app.selected_mode, 1);

    app.handle_command(Command::NavigateDown);
    assert_eq!(app.selected_mode, 0); // Wraps around
}

#[test]
fn test_mode_selection_navigate_up() {
    let mut app = App::new_for_test();
    app.handle_command(Command::NavigateUp);
    assert_eq!(app.selected_mode, 1); // Wraps to bottom

    app.handle_command(Command::NavigateUp);
    assert_eq!(app.selected_mode, 0);
}

#[test]
fn test_mode_selection_arrow_keys() {
    let mut app = App::new_for_test();
    app.handle_command(Command::NavigateDown);
    assert_eq!(app.selected_mode, 1);

    app.handle_command(Command::NavigateUp);
    assert_eq!(app.selected_mode, 0);
}

#[test]
fn test_mode_selection_start_short() {
    let mut app = App::new_for_test();
    app.selected_mode = 0;
    app.handle_command(Command::Confirm);

    assert_eq!(app.screen, Screen::Timer);
    assert!(app.timer.is_some());
    assert_eq!(app.timer.as_ref().unwrap().mode, PomodoroMode::Short);
}

#[test]
fn test_mode_selection_start_long() {
    let mut app = App::new_for_test();
    app.selected_mode = 1;
    app.handle_command(Command::Confirm);

    assert_eq!(app.screen, Screen::Timer);
    assert!(app.timer.is_some());
    assert_eq!(app.timer.as_ref().unwrap().mode, PomodoroMode::Long);
}

#[test]
fn test_mode_selection_go_to_analytics() {
    let mut app = App::new_for_test();
    app.handle_command(Command::OpenAnalytics);

    assert_eq!(app.screen, Screen::Analytics);
}

#[test]
fn test_mode_selection_quit() {
    let mut app = App::new_for_test();
    app.handle_command(Command::Quit);

    assert!(!app.running);
}

#[test]
fn test_timer_pause() {
    let mut app = App::new_for_test();
    app.timer = Some(Timer::new(PomodoroMode::Short));
    app.screen = Screen::Timer;

    assert!(!app.timer.as_ref().unwrap().paused);
    app.handle_command(Command::PauseResume);
    assert!(app.timer.as_ref().unwrap().paused);
}

#[test]
fn test_timer_reset() {
    let mut app = App::new_for_test();
    app.timer = Some(Timer::new(PomodoroMode::Short));
    app.screen = Screen::Timer;

    app.timer.as_mut().unwrap().remaining = Duration::from_secs(100);
    app.handle_command(Command::Reset);

    assert_eq!(
        app.timer.as_ref().unwrap().remaining,
        Duration::from_secs(25 * 60)
    );
}

#[test]
fn test_timer_skip_work_to_break() {
    let mut app = App::new_for_test();
    app.timer = Some(Timer::new(PomodoroMode::Short));
    app.screen = Screen::Timer;

    app.handle_command(Command::Skip);

    assert_eq!(app.timer.as_ref().unwrap().phase, TimerPhase::Break);
    assert!(app.show_completion_message);
}

#[test]
fn test_timer_skip_break_to_work() {
    let mut app = App::new_for_test();
    app.timer = Some(Timer::new(PomodoroMode::Short));
    app.timer.as_mut().unwrap().start_break();
    app.screen = Screen::Timer;

    app.handle_command(Command::Skip);

    assert_eq!(app.timer.as_ref().unwrap().phase, TimerPhase::Work);
    assert!(!app.show_completion_message);
}

#[test]
fn test_timer_exit_shows_confirm() {
    let mut app = App::new_for_test();
    app.timer = Some(Timer::new(PomodoroMode::Short));
    app.screen = Screen::Timer;

    app.handle_command(Command::RequestAbandon);

    assert!(app.show_exit_confirm);
    assert!(app.timer.as_ref().unwrap().paused);
    assert_eq!(app.screen, Screen::Timer); // Still on timer screen
}

#[test]
fn test_timer_exit_confirm_yes() {
    let mut app = App::new_for_test();
    app.timer = Some(Timer::new(PomodoroMode::Short));
    app.screen = Screen::Timer;
    app.show_exit_confirm = true;

    app.handle_command(Command::ConfirmAbandon);

    assert!(!app.show_exit_confirm);
    assert!(app.timer.is_none());
    assert_eq!(app.screen, Screen::ModeSelection);
}

#[test]
fn test_timer_exit_confirm_no() {
    let mut app = App::new_for_test();
    app.timer = Some(Timer::new(PomodoroMode::Short));
    app.screen = Screen::Timer;
    app.show_exit_confirm = true;

    app.handle_command(Command::CancelAbandon);

    assert!(!app.show_exit_confirm);
    assert!(app.timer.is_some());
    assert_eq!(app.screen, Screen::Timer);
}

#[test]
fn test_timer_quit() {
    let mut app = App::new_for_test();
    app.timer = Some(Timer::new(PomodoroMode::Short));
    app.screen = Screen::Timer;

    app.handle_command(Command::Quit);

    assert!(!app.running);
}

#[test]
fn test_analytics_back() {
    let mut app = App::new_for_test();
    app.screen = Screen::Analytics;

    app.handle_command(Command::Back);

    assert_eq!(app.screen, Screen::ModeSelection);
}

#[test]
fn test_analytics_back_esc() {
    let mut app = App::new_for_test();
    app.screen = Screen::Analytics;

    app.handle_command(Command::Back);

    assert_eq!(app.screen, Screen::ModeSelection);
}

#[test]
fn test_analytics_quit() {
    let mut app = App::new_for_test();
    app.screen = Screen::Analytics;

    app.handle_command(Command::Quit);

    assert!(!app.running);
}

#[test]
fn test_analytics_clear_command() {
    let mut app = App::new_for_test();
    app.screen = Screen::Analytics;
    app.analytics
        .add_record_with_timestamp(1000, PomodoroMode::Short);

    app.handle_command(Command::ClearAnalytics);

    assert_eq!(app.analytics.total_count(), 0);
}

#[test]
fn test_skip_records_pomodoro() {
    let mut app = App::new_for_test();
    app.timer = Some(Timer::new(PomodoroMode::Short));
    app.screen = Screen::Timer;

    app.handle_command(Command::Skip);

    assert_eq!(app.analytics.total_count(), 1);
    assert_eq!(app.analytics.short_mode_count(), 1);
}

#[test]
fn test_tick_work_completion_awaits_acknowledgment() {
    let mut app = App::new_for_test();
    app.timer = Some(Timer::new(PomodoroMode::Short));
    app.screen = Screen::Timer;
    app.timer.as_mut().unwrap().remaining = Duration::from_millis(0);

    app.tick();

    assert!(app.waiting_for_next_phase);
    assert!(app.show_completion_message);
    assert!(app.timer.as_ref().unwrap().paused);
    assert_eq!(app.timer.as_ref().unwrap().phase, TimerPhase::Work);
    assert_eq!(app.analytics.total_count(), 1);

    // a further tick changes nothing while awaiting acknowledgment
    app.tick();
    assert!(app.waiting_for_next_phase);
    assert_eq!(app.analytics.total_count(), 1);

    // acknowledging moves to the break phase
    app.handle_command(Command::AcknowledgeTransition);
    assert!(!app.waiting_for_next_phase);
    assert!(!app.show_completion_message);
    assert_eq!(app.timer.as_ref().unwrap().phase, TimerPhase::Break);
    assert_eq!(
        app.timer.as_ref().unwrap().remaining,
        Duration::from_secs(5 * 60)
    );
}

#[test]
fn test_tick_auto_advance_moves_straight_on() {
    let mut app = App::new_for_test();
    app.auto_advance = true;
    app.timer = Some(Timer::new(PomodoroMode::Short));
    app.screen = Screen::Timer;
    app.timer.as_mut().unwrap().remaining = Duration::from_millis(0);

    app.tick();

    assert!(!app.waiting_for_next_phase);
    assert!(app.show_completion_message);
    assert_eq!(app.timer.as_ref().unwrap().phase, TimerPhase::Break);
    assert!(!app.timer.as_ref().unwrap().paused);
    assert_eq!(
        app.timer.as_ref().unwrap().remaining,
        Duration::from_secs(5 * 60)
    );
    assert_eq!(app.analytics.total_count(), 1);
}

#[test]
fn test_tick_break_completion_records_nothing() {
    let mut app = App::new_for_test();
    app.timer = Some(Timer::new(PomodoroMode::Short));
    app.timer.as_mut().unwrap().start_break();
    app.timer.as_mut().unwrap().remaining = Duration::from_millis(0);
    app.screen = Screen::Timer;

    app.tick();

    assert!(app.waiting_for_next_phase);
    assert!(!app.show_completion_message);
    assert_eq!(app.analytics.total_count(), 0);
}
