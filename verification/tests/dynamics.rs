use tracksim::geom::{SCALE, Vec2};
use tracksim::physics::{CarAction, CarDynamicsParams, CarKinematicState, step_car_dynamics};

fn lcg_next(seed: &mut u64) -> u32 {
    *seed = seed.wrapping_mul(6364136223846793005).wrapping_add(1);
    (*seed >> 32) as u32
}

/// Steering drawn uniformly in `[-SCALE, SCALE]` from one 32-bit sample.
fn steering_of(v: u32) -> i64 {
    ((v as i128) * 2 * (SCALE as i128) / (u32::MAX as i128)) as i64 - SCALE
}

/// Full throttle on roughly 65% of samples.
fn throttle_of(v: u32) -> i64 {
    if v > 1503238553 { SCALE } else { 0 }
}

#[test]
fn deterministic_replay_same_seed_same_actions_identical_trajectory() {
    let dt = SCALE / 60;
    let steps = 1200;
    let seed = 0xDEADBEEFCAFEBABEu64;
    let params = CarDynamicsParams {
        rotation_speed: 1335088,  // 4 radians per second, in angle units
        thrust: 1500 * 1024,
        drag: 64553,  // 0.985 of SCALE
    };

    let mut first_run_state = CarKinematicState {
        position: Vec2 { x: 0, y: 0 },
        velocity: Vec2 { x: 0, y: 0 },
        heading: 0,
    };
    let mut second_run_state = first_run_state;

    let mut first_seed = seed;
    for _ in 0..steps {
        let steering = steering_of(lcg_next(&mut first_seed));
        let throttle = throttle_of(lcg_next(&mut first_seed));
        step_car_dynamics(&mut first_run_state, steering, throttle, dt, params);
    }

    let mut second_seed = seed;
    for _ in 0..steps {
        let steering = steering_of(lcg_next(&mut second_seed));
        let throttle = throttle_of(lcg_next(&mut second_seed));
        step_car_dynamics(&mut second_run_state, steering, throttle, dt, params);
    }

    assert_eq!(first_run_state.position, second_run_state.position);
    assert_eq!(first_run_state.velocity, second_run_state.velocity);
    assert_eq!(first_run_state.heading, second_run_state.heading);
}

#[test]
fn straight_throttle_step_accumulates_exact_velocity_and_position() {
    // One full-throttle second heading east with no rotation and no drag
    // loss: velocity gains exactly `thrust`, position advances by exactly
    // one tick of it.
    let mut state = CarKinematicState {
        position: Vec2 { x: 0, y: 0 },
        velocity: Vec2 { x: 0, y: 0 },
        heading: 0,
    };
    let params = CarDynamicsParams { rotation_speed: 0, thrust: 100, drag: SCALE };
    step_car_dynamics(&mut state, 0, SCALE, SCALE, params);
    assert_eq!(state.heading, 0);
    assert_eq!(state.velocity, Vec2 { x: 100, y: 0 });
    assert_eq!(state.position, Vec2 { x: 100, y: 0 });
}

#[test]
fn coasting_with_zero_throttle_only_applies_drag() {
    let mut state = CarKinematicState {
        position: Vec2 { x: 0, y: 0 },
        velocity: Vec2 { x: 1000, y: -1000 },
        heading: 12345,
    };
    // Half drag: the velocity halves, the position advances one tick of
    // the damped velocity.
    let params = CarDynamicsParams { rotation_speed: 0, thrust: 5000, drag: SCALE / 2 };
    step_car_dynamics(&mut state, 0, 0, SCALE, params);
    assert_eq!(state.velocity, Vec2 { x: 500, y: -500 });
    assert_eq!(state.position, Vec2 { x: 500, y: -500 });
    assert_eq!(state.heading, 12345);
}

#[test]
fn positive_steering_turns_heading_negative() {
    // Heading moves by -steering * rotation_speed * dt: full right steer
    // for one second at 1000 angle units per second turns by -1000.
    let mut state = CarKinematicState {
        position: Vec2 { x: 0, y: 0 },
        velocity: Vec2 { x: 0, y: 0 },
        heading: 0,
    };
    let params = CarDynamicsParams { rotation_speed: 1000, thrust: 0, drag: SCALE };
    step_car_dynamics(&mut state, SCALE, 0, SCALE, params);
    assert_eq!(state.heading, -1000);
    step_car_dynamics(&mut state, -SCALE, 0, SCALE, params);
    assert_eq!(state.heading, 0);
}

#[test]
fn action_clamps_to_nominal_ranges() {
    let wild = CarAction { steering: 10 * SCALE, throttle: -3 };
    let c = wild.clamped();
    assert_eq!(c.steering, SCALE);
    assert_eq!(c.throttle, 0);
    let mild = CarAction { steering: -123, throttle: 456 };
    let m = mild.clamped();
    assert_eq!(m.steering, -123);
    assert_eq!(m.throttle, 456);
    let low = CarAction { steering: -99 * SCALE, throttle: 99 * SCALE };
    let l = low.clamped();
    assert_eq!(l.steering, -SCALE);
    assert_eq!(l.throttle, SCALE);
}
