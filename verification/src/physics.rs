use vstd::prelude::*;
use crate::geom::{
    SCALE, Vec2, clamp_spec, clamp64, div_floor128, lemma_div_bounds, lemma_mul_bounds, mul64,
    mul128, narrow64,
};
use crate::trig::{cos_fp, cos_fp_spec, sin_fp, sin_fp_spec};

verus! {

/// Largest permitted time step, in `SCALE`-scaled seconds (4 seconds).
pub const DT_MAX: i64 = 262144;

/// Largest permitted rotation speed, in angle units per second.
pub const ROT_SPEED_MAX: i64 = 16777216;

/// Largest permitted thrust, in world units per second squared.
pub const THRUST_MAX: i64 = 0x1_0000_0000;

/// Velocity magnitude bound accepted by the stepper, per axis.
pub const VEL_LIMIT: i64 = 0x1000_0000_0000;

/// Position magnitude bound accepted by the stepper, per axis.
pub const POS_LIMIT: i64 = 0x1000_0000_0000_0000;

/// Heading magnitude bound accepted by the stepper, in angle units.
pub const HEADING_LIMIT: i64 = 0x1_0000_0000_0000;

/// How much one step can move the heading, at the limits above.
pub const HEADING_STEP_BOUND: i64 = 0x800_0000;

/// How much one step can grow a velocity component, at the limits above.
pub const VEL_STEP_BOUND: i64 = 0x10_0000_0000;

/// How much one step can move a position component, at the limits above.
pub const POS_STEP_BOUND: i64 = 0x8000_0000_0000;

/// Continuous action for the car: `steering` in `[-SCALE, SCALE]`
/// (left negative, right positive) and `throttle` in `[0, SCALE]`
/// (0 = coast, `SCALE` = full throttle), both fixed-point.
#[derive(Clone, Copy, Debug, Default, PartialEq, Eq, Structural)]
pub struct CarAction {
    pub steering: i64,
    pub throttle: i64,
}

impl CarAction {
    /// Returns this action clamped to its allowed ranges. The stepper itself
    /// does not re-clamp, so controllers pass their output through here.
    pub fn clamped(self) -> (r: CarAction)
        ensures
            r.steering == clamp_spec(self.steering as int, -SCALE as int, SCALE as int),
            r.throttle == clamp_spec(self.throttle as int, 0, SCALE as int),
    {
        CarAction {
            steering: clamp64(self.steering, -SCALE, SCALE),
            throttle: clamp64(self.throttle, 0, SCALE),
        }
    }
}

/// Minimal deterministic car state used by the pure stepper: integer world
/// position, integer velocity in world units per second, and an unwrapped
/// heading in angle units.
#[derive(Clone, Copy, Debug, PartialEq, Eq, Structural)]
pub struct CarKinematicState {
    pub position: Vec2,
    pub velocity: Vec2,
    pub heading: i64,
}

/// Immutable car dynamics parameters consumed by the pure stepper.
/// `drag` is a fixed-point per-tick damping factor in `(0, SCALE]`.
#[derive(Clone, Copy, Debug, PartialEq, Eq, Structural)]
pub struct CarDynamicsParams {
    pub rotation_speed: i64,
    pub thrust: i64,
    pub drag: i64,
}

impl CarDynamicsParams {
    pub open spec fn wf(self) -> bool {
        &&& 0 <= self.rotation_speed <= ROT_SPEED_MAX
        &&& 0 <= self.thrust <= THRUST_MAX
        &&& 0 < self.drag <= SCALE
    }
}

impl CarKinematicState {
    /// The state lies within the ranges the stepper accepts.
    pub open spec fn wf(self) -> bool {
        &&& -POS_LIMIT <= self.position.x <= POS_LIMIT
        &&& -POS_LIMIT <= self.position.y <= POS_LIMIT
        &&& -VEL_LIMIT <= self.velocity.x <= VEL_LIMIT
        &&& -VEL_LIMIT <= self.velocity.y <= VEL_LIMIT
        &&& -HEADING_LIMIT <= self.heading <= HEADING_LIMIT
    }
}

/// One deterministic step of the vehicle dynamics, as a mathematical
/// function `(px, py, vx, vy, heading) -> (px', py', vx', vy', heading')`.
///
/// The heading turns by `-steering * rotation_speed * dt`; with positive
/// throttle the velocity accumulates thrust along the new forward direction;
/// the velocity is then damped by `drag` and the position advances by one
/// tick of the damped velocity. All divisions round toward negative
/// infinity.
pub open spec fn step_model(
    px: int,
    py: int,
    vx: int,
    vy: int,
    heading: int,
    steering: int,
    throttle: int,
    dt: int,
    rotation_speed: int,
    thrust: int,
    drag: int,
) -> (int, int, int, int, int) {
    let h2 = heading - (steering * rotation_speed * dt) / ((SCALE as int) * (SCALE as int));
    let s3 = (SCALE as int) * (SCALE as int) * (SCALE as int);
    let vx1 = if throttle > 0 {
        vx + (cos_fp_spec(h2) * (thrust * throttle * dt)) / s3
    } else {
        vx
    };
    let vy1 = if throttle > 0 {
        vy + (sin_fp_spec(h2) * (thrust * throttle * dt)) / s3
    } else {
        vy
    };
    let vx2 = (vx1 * drag) / (SCALE as int);
    let vy2 = (vy1 * drag) / (SCALE as int);
    let px2 = px + (vx2 * dt) / (SCALE as int);
    let py2 = py + (vy2 * dt) / (SCALE as int);
    (px2, py2, vx2, vy2, h2)
}

/// The state reached by stepping through a whole action sequence.
pub open spec fn run_model(
    px: int,
    py: int,
    vx: int,
    vy: int,
    heading: int,
    actions: Seq<(int, int)>,
    dt: int,
    rotation_speed: int,
    thrust: int,
    drag: int,
) -> (int, int, int, int, int)
    decreases actions.len(),
{
    if actions.len() == 0 {
        (px, py, vx, vy, heading)
    } else {
        let s = step_model(
            px,
            py,
            vx,
            vy,
            heading,
            actions[0].0,
            actions[0].1,
            dt,
            rotation_speed,
            thrust,
            drag,
        );
        run_model(
            s.0,
            s.1,
            s.2,
            s.3,
            s.4,
            actions.drop_first(),
            dt,
            rotation_speed,
            thrust,
            drag,
        )
    }
}

/// Replay determinism: two runs from equal initial states, fed equal action
/// sequences with equal time steps and parameters, reach exactly equal
/// position, velocity and heading — the dynamics is a pure function of its
/// inputs, with no hidden state.
pub proof fn lemma_replay_deterministic(
    a: CarKinematicState,
    b: CarKinematicState,
    actions_a: Seq<(int, int)>,
    actions_b: Seq<(int, int)>,
    dt: int,
    p: CarDynamicsParams,
    q: CarDynamicsParams,
)
    requires
        a == b,
        actions_a == actions_b,
        p == q,
    ensures
        run_model(
            a.position.x as int,
            a.position.y as int,
            a.velocity.x as int,
            a.velocity.y as int,
            a.heading as int,
            actions_a,
            dt,
            p.rotation_speed as int,
            p.thrust as int,
            p.drag as int,
        ) == run_model(
            b.position.x as int,
            b.position.y as int,
            b.velocity.x as int,
            b.velocity.y as int,
            b.heading as int,
            actions_b,
            dt,
            q.rotation_speed as int,
            q.thrust as int,
            q.drag as int,
        ),
{
}

/// Pure deterministic car step used by runtime physics and replay tests.
///
/// Inputs outside their nominal ranges must be clamped by the caller (see
/// `CarAction::clamped`); the stepper does not re-clamp.
pub fn step_car_dynamics(
    state: &mut CarKinematicState,
    steering: i64,
    throttle: i64,
    dt: i64,
    params: CarDynamicsParams,
)
    requires
        old(state).wf(),
        -SCALE <= steering <= SCALE,
        0 <= throttle <= SCALE,
        0 < dt <= DT_MAX,
        params.wf(),
    ensures
        (
            final(state).position.x as int,
            final(state).position.y as int,
            final(state).velocity.x as int,
            final(state).velocity.y as int,
            final(state).heading as int,
        ) == step_model(
            old(state).position.x as int,
            old(state).position.y as int,
            old(state).velocity.x as int,
            old(state).velocity.y as int,
            old(state).heading as int,
            steering as int,
            throttle as int,
            dt as int,
            params.rotation_speed as int,
            params.thrust as int,
            params.drag as int,
        ),
        old(state).heading - HEADING_STEP_BOUND <= final(state).heading
            <= old(state).heading + HEADING_STEP_BOUND,
        -VEL_LIMIT - VEL_STEP_BOUND <= final(state).velocity.x <= VEL_LIMIT + VEL_STEP_BOUND,
        -VEL_LIMIT - VEL_STEP_BOUND <= final(state).velocity.y <= VEL_LIMIT + VEL_STEP_BOUND,
        old(state).position.x - POS_STEP_BOUND <= final(state).position.x
            <= old(state).position.x + POS_STEP_BOUND,
        old(state).position.y - POS_STEP_BOUND <= final(state).position.y
            <= old(state).position.y + POS_STEP_BOUND,
{
    let s2: i128 = (SCALE as i128) * (SCALE as i128);
    proof {
        assert((SCALE as int) * (SCALE as int) == 0x1_0000_0000) by (nonlinear_arith);
        lemma_mul_bounds(s2 as int, SCALE as int, 0x1_0000_0000, SCALE as int);
    }
    let s3: i128 = mul128(s2, SCALE as i128);

    // Heading: turn against the steering sign.
    let sr = mul64(steering, params.rotation_speed);
    proof {
        lemma_mul_bounds(steering as int, params.rotation_speed as int, SCALE as int,
            ROT_SPEED_MAX as int);
        lemma_mul_bounds(sr as int, dt as int, 0x100_0000_0000, DT_MAX as int);
    }
    let srd = mul128(sr, dt as i128);
    let dh = div_floor128(srd, s2);
    proof {
        lemma_div_bounds(srd as int, s2 as int, 0x400_0000_0000_0000);
    }
    let h2 = narrow64((state.heading as i128) - dh);
    state.heading = h2;

    // Thrust along the new forward direction.
    if throttle > 0 {
        let fx = cos_fp(h2);
        let fy = sin_fp(h2);
        let tt = mul64(params.thrust, throttle);
        proof {
            lemma_mul_bounds(params.thrust as int, throttle as int, THRUST_MAX as int,
                SCALE as int);
            lemma_mul_bounds(tt as int, dt as int, 0x1_0000_0000_0000, DT_MAX as int);
        }
        let acc = mul128(tt, dt as i128);
        proof {
            lemma_mul_bounds(fx as int, acc as int, SCALE as int,
                0x4_0000_0000_0000_0000);
            lemma_mul_bounds(fy as int, acc as int, SCALE as int,
                0x4_0000_0000_0000_0000);
        }
        let dvx = div_floor128(mul128(fx as i128, acc), s3);
        let dvy = div_floor128(mul128(fy as i128, acc), s3);
        proof {
            lemma_div_bounds((fx as int) * (acc as int), s3 as int,
                0x4_0000_0000_0000_0000_0000_0000);
            lemma_div_bounds((fy as int) * (acc as int), s3 as int,
                0x4_0000_0000_0000_0000_0000_0000);
        }
        let nvx = narrow64((state.velocity.x as i128) + dvx);
        let nvy = narrow64((state.velocity.y as i128) + dvy);
        state.velocity = Vec2 { x: nvx, y: nvy };
    }

    // Per-tick multiplicative damping.
    proof {
        lemma_mul_bounds(state.velocity.x as int, params.drag as int,
            0x1008_0000_0000, SCALE as int);
        lemma_mul_bounds(state.velocity.y as int, params.drag as int,
            0x1008_0000_0000, SCALE as int);
    }
    let wx = mul128(state.velocity.x as i128, params.drag as i128);
    let wy = mul128(state.velocity.y as i128, params.drag as i128);
    let vx2 = div_floor128(wx, SCALE as i128);
    let vy2 = div_floor128(wy, SCALE as i128);
    proof {
        lemma_div_bounds(wx as int, SCALE as int, 0x1_0080_0000_0000_0000);
        lemma_div_bounds(wy as int, SCALE as int, 0x1_0080_0000_0000_0000);
    }
    state.velocity = Vec2 { x: narrow64(vx2), y: narrow64(vy2) };

    // Integrate position by one tick of the damped velocity.
    proof {
        lemma_mul_bounds(state.velocity.x as int, dt as int,
            0x1010_0000_0000, DT_MAX as int);
        lemma_mul_bounds(state.velocity.y as int, dt as int,
            0x1010_0000_0000, DT_MAX as int);
    }
    let ux = mul128(state.velocity.x as i128, dt as i128);
    let uy = mul128(state.velocity.y as i128, dt as i128);
    let dpx = div_floor128(ux, SCALE as i128);
    let dpy = div_floor128(uy, SCALE as i128);
    proof {
        lemma_div_bounds(ux as int, SCALE as int, 0x4040_0000_0000_0000);
        lemma_div_bounds(uy as int, SCALE as int, 0x4040_0000_0000_0000);
    }
    let npx = narrow64((state.position.x as i128) + dpx);
    let npy = narrow64((state.position.y as i128) + dpy);
    state.position = Vec2 { x: npx, y: npy };
}

} // verus!
