use slidestep::clock::{toggle_mode, SimulationClock, SteppingMode, DEFAULT_TICK_MICROS};

#[test]
fn default_clock_starts_at_zero() {
    let c = SimulationClock::default();
    assert_eq!(c.tick_micros, DEFAULT_TICK_MICROS);
    assert_eq!(c.tick_micros, 15625);
    assert_eq!(c.overstep_micros, 0);
    assert_eq!(c.elapsed_micros, 0);
    assert_eq!(c.ticks_run, 0);
}

#[test]
fn try_expend_drains_one_tick_when_owed() {
    let mut c = SimulationClock::new(100);
    c.accumulate(250);
    assert!(c.try_expend());
    assert_eq!(c.overstep_micros, 150);
    assert_eq!(c.elapsed_micros, 100);
    assert_eq!(c.ticks_run, 1);
    assert!(c.try_expend());
    assert!(!c.try_expend());
    assert_eq!(c.overstep_micros, 50);
    assert_eq!(c.ticks_run, 2);
}

#[test]
fn free_running_frame_runs_whole_owed_ticks() {
    let mut c = SimulationClock::new(100);
    // a fast frame runs no tick, a slow frame catches up
    assert_eq!(c.advance_frame(SteppingMode::FreeRunning, 70), 0);
    assert_eq!(c.advance_frame(SteppingMode::FreeRunning, 340), 4);
    assert_eq!(c.overstep_micros, 10);
    assert_eq!(c.ticks_run, 4);
    assert_eq!(c.elapsed_micros, 400);
}

#[test]
fn accumulation_is_split_invariant() {
    // the same total real time, split differently across frames, runs
    // the same number of ticks and leaves the same overstep
    let deltas: [u64; 5] = [10000, 20000, 1, 64234, 15624];
    let total: u64 = deltas.iter().sum();

    let mut split = SimulationClock::new(15625);
    let mut split_ticks: u64 = 0;
    for d in deltas {
        split_ticks += split.advance_frame(SteppingMode::FreeRunning, d);
    }

    let mut whole = SimulationClock::new(15625);
    let whole_ticks = whole.advance_frame(SteppingMode::FreeRunning, total);

    assert_eq!(split_ticks, whole_ticks);
    assert_eq!(split_ticks, total / 15625);
    assert_eq!(split.overstep_micros, whole.overstep_micros);
    assert_eq!(split.overstep_micros, total % 15625);
    assert_eq!(split.ticks_run, whole.ticks_run);
    assert_eq!(split.elapsed_micros, whole.elapsed_micros);
}

#[test]
fn single_pulse_preserves_overstep_and_runs_on_request() {
    let mut c = SimulationClock::new(100);
    // frames in single-pulse mode only grow the budget
    assert_eq!(c.advance_frame(SteppingMode::SinglePulse, 550), 0);
    assert_eq!(c.advance_frame(SteppingMode::SinglePulse, 275), 0);
    assert_eq!(c.overstep_micros, 825);
    assert_eq!(c.ticks_run, 0);
    // three explicit requests run exactly three ticks, untouched budget
    c.single_step();
    c.single_step();
    c.single_step();
    assert_eq!(c.ticks_run, 3);
    assert_eq!(c.overstep_micros, 825);
    // back to free running, the owed ticks catch up at once
    assert_eq!(c.advance_frame(SteppingMode::FreeRunning, 0), 8);
    assert_eq!(c.overstep_micros, 25);
}

#[test]
fn toggle_mode_flips_and_returns() {
    let m = SteppingMode::FreeRunning;
    let m2 = toggle_mode(m);
    assert_eq!(m2, SteppingMode::SinglePulse);
    assert_eq!(toggle_mode(m2), SteppingMode::FreeRunning);
}
