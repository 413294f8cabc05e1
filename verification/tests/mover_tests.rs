use slidestep::mover::{
    apply_sweep, begin_move, MoveProgress, SweepHit, MAX_BOUNCES, SKIN_WIDTH,
};
use slidestep::vecfix::{mul_div, norm, Vec3Fix, MICRO};

fn v(x: i64, y: i64, z: i64) -> Vec3Fix {
    Vec3Fix::new(x, y, z)
}

#[test]
fn zero_velocity_begins_no_move() {
    assert!(begin_move(v(7, 8, 9), Vec3Fix::zero(), 15625).is_none());
}

#[test]
fn vanishing_velocity_begins_no_move() {
    // a velocity whose scaled travel rounds to zero is degenerate input,
    // skipped rather than faulted
    assert!(begin_move(v(0, 0, 0), v(1, 0, 0), 15625).is_none());
}

#[test]
fn unobstructed_tick_travels_exactly_the_desired_distance() {
    // one unit per second for one second: exactly one unit, no rounding
    let state = begin_move(v(0, 0, 0), v(MICRO, 0, 0), 1_000_000).unwrap();
    assert_eq!(state.remaining, MICRO);
    let req = state.request();
    assert_eq!(req.max_distance, MICRO + SKIN_WIDTH);
    match apply_sweep(state, None) {
        MoveProgress::Finished { position } => assert_eq!(position, v(MICRO, 0, 0)),
        MoveProgress::Continuing { .. } => panic!("open sweep must finish the tick"),
    }
}

#[test]
fn far_hit_stops_short_of_the_contact() {
    // obstacle past the remaining travel: advance to it, less the skin
    let state = begin_move(v(0, 0, 0), v(MICRO, 0, 0), 1_000_000).unwrap();
    let hit = SweepHit {
        normal: v(-MICRO, 0, 0),
        point: v(MICRO + 2_000, 0, 0),
        time_of_impact: MICRO + 2_000,
    };
    match apply_sweep(state, Some(hit)) {
        MoveProgress::Finished { position } => {
            assert_eq!(position, v(MICRO - 3_000, 0, 0));
        }
        MoveProgress::Continuing { .. } => panic!("a far hit must finish the tick"),
    }
}

#[test]
fn head_on_wall_stops_a_skin_width_short_and_does_not_penetrate() {
    // driving straight into a wall half a unit away, asking for a whole
    // unit: the body stops skin-width short of the wall
    let state = begin_move(v(0, 0, 0), v(MICRO, 0, 0), 1_000_000).unwrap();
    let hit = SweepHit {
        normal: v(-MICRO, 0, 0),
        point: v(500_000, 0, 0),
        time_of_impact: 500_000,
    };
    let position = match apply_sweep(state, Some(hit)) {
        MoveProgress::Finished { position } => position,
        MoveProgress::Continuing { state } => state.position,
    };
    assert_eq!(position, v(500_000 - SKIN_WIDTH, 0, 0));
    assert!(position.x < 500_000);

    // a following tick sliding purely parallel to that wall is
    // unobstructed
    let slide = begin_move(position, v(0, 0, MICRO), 1_000_000).unwrap();
    match apply_sweep(slide, None) {
        MoveProgress::Finished { position: p2 } => {
            assert_eq!(p2, v(500_000 - SKIN_WIDTH, 0, MICRO));
        }
        MoveProgress::Continuing { .. } => panic!("parallel slide must finish"),
    }
}

#[test]
fn angled_wall_redirects_leftover_motion_along_the_surface() {
    // moving diagonally into a wall facing -x: the blocked leftover is
    // projected onto the wall plane, leaving pure +z travel
    let state = begin_move(v(0, 0, 0), v(MICRO, 0, MICRO), 1_000_000).unwrap();
    assert_eq!(state.remaining, 1_414_213);
    let hit = SweepHit {
        normal: v(-MICRO, 0, 0),
        point: v(400_000, 0, 400_000),
        time_of_impact: 400_000,
    };
    match apply_sweep(state, Some(hit)) {
        MoveProgress::Continuing { state: s2 } => {
            assert_eq!(s2.position, v(279_307, 0, 279_307));
            assert_eq!(s2.travel, v(0, 0, 720_692));
            assert_eq!(s2.remaining, 720_692);
            assert_eq!(s2.bounces, 1);
            assert_eq!(s2.planes.len(), 1);
        }
        MoveProgress::Finished { .. } => panic!("an angled block must continue sliding"),
    }
}

#[test]
fn shallow_contact_redirects_without_moving_the_body() {
    // a blocking contact whose advance falls short of a whole skin
    // width redirects the motion but does not move the body
    let state = begin_move(v(0, 0, 0), v(MICRO, 0, MICRO), 1_000_000).unwrap();
    let hit = SweepHit {
        normal: v(-MICRO, 0, 0),
        point: v(7_000, 0, 7_000),
        time_of_impact: 7_000,
    };
    match apply_sweep(state, Some(hit)) {
        MoveProgress::Continuing { state: s2 } => {
            assert_eq!(s2.position, v(0, 0, 0));
            assert_eq!(s2.travel, v(0, 0, 998_585));
            assert_eq!(s2.remaining, 998_585);
        }
        MoveProgress::Finished { .. } => panic!("a shallow angled block must continue"),
    }
}

#[test]
fn opposing_wall_stops_the_slide_instead_of_backtracking() {
    // a wall square in the path: the projected leftover is zero, so the
    // slide ends rather than oscillating
    let state = begin_move(v(0, 0, 0), v(MICRO, 0, 0), 1_000_000).unwrap();
    let hit = SweepHit {
        normal: v(-MICRO, 0, 0),
        point: v(500_000, 0, 0),
        time_of_impact: 500_000,
    };
    match apply_sweep(state, Some(hit)) {
        MoveProgress::Finished { position } => assert_eq!(position.x, 495_000),
        MoveProgress::Continuing { .. } => panic!("head-on block must finish"),
    }
}

#[test]
fn concave_corner_is_bounded_by_the_bounce_budget_and_never_overshoots() {
    // wedged against two nearly parallel planes reported at zero
    // distance: the crease nudges keep the slide alive, the bounce
    // budget ends it, and the body never travels at all
    let start = v(0, 0, 0);
    let mut state = begin_move(start, v(MICRO, 0, MICRO), 1_000_000).unwrap();
    let initial_remaining = state.remaining;
    let mut sweeps: u32 = 1;
    let final_position = loop {
        // alternate two nearly parallel creased surfaces, touching at once
        let normal = if sweeps % 2 == 1 {
            v(-MICRO, 0, 0)
        } else {
            v(-999_999, 0, 1_413)
        };
        let hit = SweepHit { normal, point: state.position, time_of_impact: 0 };
        match apply_sweep(state, Some(hit)) {
            MoveProgress::Finished { position } => break position,
            MoveProgress::Continuing { state: s2 } => {
                sweeps += 1;
                assert!(s2.remaining <= initial_remaining);
                state = s2;
            }
        }
    };
    assert!(sweeps <= MAX_BOUNCES);
    // zero-distance contacts advance nothing: no overshoot, no drift
    assert_eq!(final_position, start);
}

#[test]
fn norm_is_exact_on_pythagorean_triples() {
    assert_eq!(norm(&v(3 * MICRO, 4 * MICRO, 0)), 5 * MICRO);
    assert_eq!(norm(&v(0, 0, 0)), 0);
    assert_eq!(norm(&v(-MICRO, 0, 0)), MICRO);
}

#[test]
fn scaled_multiplication_rounds_toward_zero() {
    assert_eq!(mul_div(5, 1, 2), 2);
    assert_eq!(mul_div(-5, 1, 2), -2);
    assert_eq!(mul_div(7, 3, 1), 21);
    assert_eq!(mul_div(-1, 1_000_000, 1_000_000), -1);
}
