use htop_win::collector::{CollectorSchedule, TickAction, WaitStep};
use htop_win::system::ProcessEnrichmentRequirements;

fn none() -> ProcessEnrichmentRequirements {
    ProcessEnrichmentRequirements::default()
}

fn users() -> ProcessEnrichmentRequirements {
    ProcessEnrichmentRequirements { user: true, ..Default::default() }
}

#[test]
fn schedule_keeps_a_fixed_period() {
    let mut s = CollectorSchedule::start(1000, 50, none());
    assert_eq!(s.next_tick_ms, 1050);
    assert_eq!(s.before_wait(1000, 900), WaitStep::WaitUntil(1050));
    assert!(s.after_wait(false, 1051, false, none()));
    assert_eq!(s.next_tick_ms, 2050);
    // Collection overran the deadline: tick at once, one period from now.
    assert_eq!(s.before_wait(1000, 2500), WaitStep::TickNow);
    assert_eq!(s.next_tick_ms, 3500);
}

#[test]
fn rate_change_restarts_the_schedule_and_zero_rate_means_one_millisecond() {
    let mut s = CollectorSchedule::start(1000, 0, none());
    assert_eq!(s.before_wait(250, 100), WaitStep::WaitUntil(350));
    assert_eq!(s.before_wait(0, 400), WaitStep::WaitUntil(401));
}

#[test]
fn early_wake_ticks_only_when_the_interface_waits() {
    let mut s = CollectorSchedule::start(1000, 0, users());
    assert!(!s.after_wait(true, 10, false, users()));
    assert_eq!(s.next_tick_ms, 1000);
    assert!(s.after_wait(true, 20, true, users()));
    assert_eq!(s.next_tick_ms, 1020);
    let more = ProcessEnrichmentRequirements { exe_path: true, ..users() };
    assert!(s.after_wait(true, 30, false, more));
    assert_eq!(s.next_tick_ms, 1030);
}

#[test]
fn paused_ticks_skip_unless_metadata_is_missing_and_resume_zeroes_rates() {
    let mut s = CollectorSchedule::start(1000, 0, users());
    assert_eq!(s.tick(true, users()), TickAction::Skip);
    let more = ProcessEnrichmentRequirements { arch: true, ..users() };
    assert_eq!(s.tick(true, more), TickAction::CollectWhilePaused);
    assert!(s.should_publish(true, more));
    s.published_with(more);
    assert_eq!(s.tick(true, more), TickAction::Skip);
    assert!(!s.should_publish(true, users()));
    assert_eq!(s.tick(false, more), TickAction::Collect { zero_rates: true });
    assert_eq!(s.tick(false, more), TickAction::Collect { zero_rates: false });
    assert!(s.should_publish(false, none()));
}
