use shivacore::timer::duration;
use shivacore::timer::{MonotonicClock, SimulatedTimerSource, TimerCallback, TimerManager, TimerSource};

fn make_source() -> &'static SimulatedTimerSource {
    // Leaked für &'static — nur in Tests akzeptabel
    Box::leak(Box::new(SimulatedTimerSource::new(1_000_000_000))) // 1 GHz
}

// ── SimulatedTimerSource ────────────────────────────────────────────────

#[test]
fn test_simulated_source_starts_at_zero() {
    let src = make_source();
    assert_eq!(src.now_ns(), 0);
    assert_eq!(src.frequency(), 1_000_000_000);
    assert_eq!(src.resolution_ns(), 1);
}

#[test]
fn test_simulated_source_advance() {
    let src = make_source();
    src.advance(500_000_000); // 500ms
    assert_eq!(src.now_ns(), 500_000_000);
    src.advance(500_000_000); // +500ms
    assert_eq!(src.now_ns(), 1_000_000_000); // 1s
}

#[test]
fn test_simulated_source_set() {
    let src = make_source();
    src.set(42_000_000_000);
    assert_eq!(src.now_ns(), 42_000_000_000);
}

// ── MonotonicClock ──────────────────────────────────────────────────────

#[test]
fn test_clock_uptime_from_zero() {
    let src = make_source();
    let clock = MonotonicClock::new(src);
    assert_eq!(clock.uptime_ns(), 0);
    src.advance(1_500_000_000); // 1.5s
    assert_eq!(clock.uptime_ns(), 1_500_000_000);
    assert_eq!(clock.uptime_ms(), 1500);
    assert_eq!(clock.uptime_secs(), 1);
}

#[test]
fn test_clock_uptime_string() {
    let src = make_source();
    let clock = MonotonicClock::new(src);
    src.advance(12_345_000_000); // 12.345s
    assert_eq!(clock.uptime_string(), "12.345s");
}

#[test]
fn test_clock_now_vs_uptime() {
    let src = make_source();
    src.set(100_000_000_000); // Start at 100s
    let clock = MonotonicClock::new(src);
    src.advance(5_000_000_000); // +5s
    assert_eq!(clock.now_ns(), 105_000_000_000);
    assert_eq!(clock.uptime_ns(), 5_000_000_000);
}

// ── TimerManager — Sleep ─────────────────────────────────────────────────

#[test]
fn test_sleep_registers_deadline() {
    let src = make_source();
    let mut tm = TimerManager::new(src);
    let id = tm.sleep(1, 1_000_000_000); // pid=1, 1s sleep
    assert_eq!(tm.active_count(), 1);
    assert!(tm.next_deadline().is_some());
}

#[test]
fn test_sleep_fires_after_duration() {
    let src = make_source();
    let mut tm = TimerManager::new(src);
    tm.sleep(1, 1_000_000_000); // 1s

    // Vor Ablauf: nichts fired
    src.advance(999_000_000); // 999ms
    let fired = tm.tick();
    assert_eq!(fired.len(), 0);

    // Nach Ablauf: fired
    src.advance(2_000_000); // +2ms → 1001ms total
    let fired = tm.tick();
    assert_eq!(fired.len(), 1);
    assert_eq!(fired[0].pid, 1);
    assert!(matches!(fired[0].callback_type, TimerCallback::Wakeup(1)));
}

#[test]
fn test_multiple_timers_ordered_by_deadline() {
    let src = make_source();
    let mut tm = TimerManager::new(src);
    tm.sleep(1, 3_000_000_000); // 3s
    tm.sleep(2, 1_000_000_000); // 1s
    tm.sleep(3, 2_000_000_000); // 2s

    src.advance(2_500_000_000); // 2.5s
    let fired = tm.tick();
    assert_eq!(fired.len(), 2);
    assert_eq!(fired[0].pid, 2); // 1s deadline first
    assert_eq!(fired[1].pid, 3); // 2s deadline second
}

// ── TimerManager — Periodic ─────────────────────────────────────────────

#[test]
fn test_periodic_timer_refires() {
    let src = make_source();
    let mut tm = TimerManager::new(src);
    let _id = tm.schedule_periodic(1, 1_000_000_000); // 1s interval

    // Erster Tick
    src.advance(1_000_000_000); // 1s
    let fired = tm.tick();
    assert_eq!(fired.len(), 1);
    assert!(matches!(fired[0].callback_type, TimerCallback::Periodic(_)));
    assert_eq!(tm.active_count(), 1); // re-registered

    // Zweiter Tick
    src.advance(1_000_000_000); // +1s
    let fired = tm.tick();
    assert_eq!(fired.len(), 1);
    assert_eq!(tm.active_count(), 1); // still active
}

#[test]
fn test_periodic_timer_multiple_intervals() {
    let src = make_source();
    let mut tm = TimerManager::new(src);
    tm.schedule_periodic(1, 100_000_000); // 100ms interval

    src.advance(350_000_000); // 350ms
    let fired = tm.tick();
    assert_eq!(fired.len(), 3); // fires at 100, 200, 300ms
    assert_eq!(tm.active_count(), 1); // next at 400ms
}

// ── TimerManager — Alarm ────────────────────────────────────────────────

#[test]
fn test_alarm_one_shot() {
    let src = make_source();
    let mut tm = TimerManager::new(src);
    tm.schedule_alarm(1, 500_000_000); // 500ms

    src.advance(500_000_000);
    let fired = tm.tick();
    assert_eq!(fired.len(), 1);
    assert!(matches!(fired[0].callback_type, TimerCallback::Alarm));

    // Alarm ist einmalig — nicht re-registriert
    src.advance(1_000_000_000);
    let fired2 = tm.tick();
    assert_eq!(fired2.len(), 0);
    assert_eq!(tm.active_count(), 0);
}

// ── TimerManager — Cancel ────────────────────────────────────────────────

#[test]
fn test_cancel_timer() {
    let src = make_source();
    let mut tm = TimerManager::new(src);
    let id = tm.sleep(1, 1_000_000_000);

    assert_eq!(tm.active_count(), 1);
    assert!(tm.cancel(id));
    assert_eq!(tm.active_count(), 0);

    // Cancel nochmal → false
    assert!(!tm.cancel(id));
}

#[test]
fn test_cancel_nonexistent() {
    let src = make_source();
    let mut tm = TimerManager::new(src);
    assert!(!tm.cancel(999));
}

// ── TimerManager — next_deadline ────────────────────────────────────────

#[test]
fn test_next_deadline() {
    let src = make_source();
    let mut tm = TimerManager::new(src);
    assert!(tm.next_deadline().is_none());
    assert!(tm.time_to_next_deadline().is_none());

    tm.sleep(1, 5_000_000_000); // 5s
    assert_eq!(tm.next_deadline(), Some(5_000_000_000));

    src.advance(2_000_000_000); // 2s
    assert_eq!(tm.time_to_next_deadline(), Some(3_000_000_000));
}

#[test]
fn test_empty_timer_manager() {
    let src = make_source();
    let mut tm = TimerManager::new(src);
    assert_eq!(tm.active_count(), 0);
    assert_eq!(tm.tick().len(), 0);
}

// ── Duration-Hilfsfunktionen ─────────────────────────────────────────────

#[test]
fn test_duration_conversions() {
    assert_eq!(duration::from_ms(1), 1_000_000);
    assert_eq!(duration::from_secs(1), 1_000_000_000);
    assert_eq!(duration::from_us(1), 1_000);
    assert_eq!(duration::from_mins(1), 60_000_000_000);
    assert_eq!(duration::to_ms(1_000_000_000), 1000);
    assert_eq!(duration::to_secs(1_000_000_000), 1);
    assert_eq!(duration::to_us(1_000_000), 1000);
}

#[test]
fn test_duration_constants() {
    assert_eq!(duration::NS_PER_US, 1_000);
    assert_eq!(duration::NS_PER_MS, 1_000_000);
    assert_eq!(duration::NS_PER_SEC, 1_000_000_000);
    assert_eq!(duration::NS_PER_MIN, 60 * 1_000_000_000);
    assert_eq!(duration::NS_PER_HOUR, 3600 * 1_000_000_000);
}

// ── Integration: Clock + Timer ──────────────────────────────────────────

#[test]
fn test_clock_and_timer_integration() {
    let src = make_source();
    let clock = MonotonicClock::new(src);
    let mut tm = TimerManager::new(src);

    tm.sleep(1, 2_000_000_000); // 2s sleep

    src.advance(1_000_000_000); // 1s
    assert_eq!(clock.uptime_secs(), 1);
    assert_eq!(tm.tick().len(), 0); // not yet

    src.advance(1_000_000_000); // +1s → 2s
    assert_eq!(clock.uptime_secs(), 2);
    let fired = tm.tick();
    assert_eq!(fired.len(), 1);
    assert_eq!(fired[0].pid, 1);
}

#[test]
fn test_simulated_source_reports_its_frequency() {
    let src = SimulatedTimerSource::new(1000);
    assert_eq!(src.frequency(), 1000);
}
