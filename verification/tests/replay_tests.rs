use slidestep::mover::{apply_sweep, begin_move, MoveProgress};
use slidestep::replay::{select_velocity, CharacterController, RecordedVelocities};
use slidestep::vecfix::{Vec3Fix, MICRO};

fn v(x: i64, y: i64, z: i64) -> Vec3Fix {
    Vec3Fix::new(x, y, z)
}

#[test]
fn record_then_lookup_returns_the_recorded_velocity() {
    let mut store = RecordedVelocities::new();
    assert_eq!(store.len(), 0);
    store.record(0, v(MICRO, 0, 0));
    store.record(1, v(0, MICRO, 0));
    store.record(1, v(0, 0, MICRO));
    assert_eq!(store.len(), 2);
    assert_eq!(store.lookup(0), Some(v(MICRO, 0, 0)));
    assert_eq!(store.lookup(1), Some(v(0, 0, MICRO)));
    assert_eq!(store.lookup(2), None);
}

#[test]
fn live_selection_drives_and_records() {
    let mut store = RecordedVelocities::new();
    let mut body = CharacterController::new();
    select_velocity(false, &mut store, 0, v(5, 6, 7), &mut body);
    assert_eq!(body.velocity, v(5, 6, 7));
    assert_eq!(store.lookup(0), Some(v(5, 6, 7)));
}

#[test]
fn playback_selection_uses_the_record_and_falls_back_to_no_change() {
    let mut store = RecordedVelocities::new();
    store.record(3, v(1, 2, 3));
    let mut body = CharacterController::new();
    body.velocity = v(9, 9, 9);
    // a recorded tick drives the body
    select_velocity(true, &mut store, 3, v(0, 0, 0), &mut body);
    assert_eq!(body.velocity, v(1, 2, 3));
    // a missing tick leaves the velocity unchanged, and playback never
    // writes the record
    select_velocity(true, &mut store, 4, v(7, 7, 7), &mut body);
    assert_eq!(body.velocity, v(1, 2, 3));
    assert_eq!(store.len(), 1);
    assert_eq!(store.lookup(4), None);
}

/// One unobstructed tick of the simulation, as the frame loop runs it.
fn run_tick(position: Vec3Fix, velocity: Vec3Fix, tick_micros: u64) -> Vec3Fix {
    match begin_move(position, velocity, tick_micros) {
        None => position,
        Some(state) => match apply_sweep(state, None) {
            MoveProgress::Finished { position } => position,
            MoveProgress::Continuing { state } => state.position,
        },
    }
}

#[test]
fn replay_round_trip_reproduces_the_live_positions() {
    let tick: u64 = 15625;
    let live_inputs =
        [v(MICRO, 0, 0), v(MICRO, 0, MICRO), v(0, 0, 0), v(-2 * MICRO, MICRO, 0), v(0, 0, MICRO)];

    // live session: sample, record, move
    let mut store = RecordedVelocities::new();
    let mut body = CharacterController::new();
    let mut position = v(0, 0, 0);
    let mut live_positions = Vec::new();
    for (i, live) in live_inputs.iter().enumerate() {
        select_velocity(false, &mut store, i as u32, *live, &mut body);
        position = run_tick(position, body.velocity, tick);
        live_positions.push(position);
    }

    // playback session: the record drives the body instead
    let mut replay_body = CharacterController::new();
    let mut replay_position = v(0, 0, 0);
    for i in 0..live_inputs.len() {
        select_velocity(true, &mut store, i as u32, v(0, 0, 0), &mut replay_body);
        replay_position = run_tick(replay_position, replay_body.velocity, tick);
        assert_eq!(replay_position, live_positions[i]);
    }
}
