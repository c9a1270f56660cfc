use vstd::prelude::*;
use crate::centerline::{POINT_LIMIT, vec2_of};
use crate::geom::{
    SCALE, Vec2, clamp_spec, clamp64, dist_sq, dist_sq_spec, div_floor128, is_isqrt, isqrt128,
    isqrt_s, lemma_div_bounds, lemma_div_shrinks, lemma_mul_bounds, mul64, narrow64,
};
use crate::grid::TrackGrid;
use crate::trig::{
    ANGLE_HALF_TURN, ANGLE_FULL_TURN, atan2_fp, atan2_fp_spec, cos_fp, cos_fp_spec, sin_fp,
    sin_fp_spec, wrap_angle, wrap_angle_spec,
};

verus! {

/// Number of ray sensors in the observation model.
pub const NUM_RAYS: usize = 11;

/// Largest permitted raycast range, in world units.
pub const RAY_RANGE_MAX: i64 = 0x1_0000_0000;

/// Heading magnitude accepted by the sensor model, in angle units.
pub const SENSOR_HEADING_LIMIT: i64 = 0x1_0000_0000_0000;

/// Velocity component magnitude accepted by the sensor model.
pub const SENSOR_VEL_LIMIT: i64 = 0x200_0000_0000;

/// Sensor and observation configuration: explicit values injected by the
/// caller, so the sensor model is usable outside any particular host loop.
pub struct ObservationConfig {
    /// Raycast max range in world units.
    pub ray_max_range: i64,
    /// Raycast march step in world units.
    pub ray_step: i64,
    /// Speed normalization scale in world units per second.
    pub speed_norm_max: i64,
    /// Angular-velocity normalization scale in angle units per second.
    pub angular_velocity_norm_max: i64,
    /// Relative ray angles around the car forward vector, in angle units.
    pub ray_angles: Vec<i64>,
}

impl ObservationConfig {
    pub open spec fn wf(self) -> bool {
        &&& self.ray_angles@.len() == NUM_RAYS
        &&& 0 < self.ray_max_range <= RAY_RANGE_MAX
        &&& 0 < self.ray_step <= RAY_RANGE_MAX
        &&& 0 < self.speed_norm_max
        &&& 0 < self.angular_velocity_norm_max
        &&& forall|i: int|
            0 <= i < self.ray_angles@.len() ==> -ANGLE_FULL_TURN <= #[trigger]
            self.ray_angles@[i] <= ANGLE_FULL_TURN
    }
}

/// Raycast sensor readings and derived kinematics for one car.
pub struct SensorReadings {
    /// Ray distances in world units, one per configured ray angle.
    pub ray_distances: Vec<i64>,
    /// World-space hit points for debug rendering.
    pub ray_hits: Vec<Vec2>,
    /// `SCALE`-scaled world-space ray directions for debug rendering.
    pub ray_directions: Vec<Vec2>,
    /// Current scalar speed in world units per second.
    pub speed: i64,
    /// Signed heading error to the centerline tangent, in angle units.
    pub heading_error: i64,
    /// Estimated yaw rate in angle units per second.
    pub angular_velocity: i64,
    /// Last heading sample used for yaw rate estimation.
    pub previous_heading: i64,
}

/// Fixed-size, normalized observation vector consumed by controllers.
pub struct ObservationVector {
    /// `SCALE`-scaled feature vector in stable order:
    /// ray distances first, then speed, heading error, angular velocity.
    pub values: Vec<i64>,
}

/// The point at scalar distance `dist` along the `SCALE`-scaled direction
/// `dir` from `origin`.
pub open spec fn ray_point_spec(origin: Vec2, dir: Vec2, dist: int) -> Vec2 {
    vec2_of(
        origin.x + (dir.x * dist) / (SCALE as int),
        origin.y + (dir.y * dist) / (SCALE as int),
    )
}

/// Bisection refinement of the road boundary between an in-road distance
/// `inside` and an out-of-road distance `outside`, for `k` halvings.
pub open spec fn refine_spec(
    grid: TrackGrid,
    origin: Vec2,
    dir: Vec2,
    inside: int,
    outside: int,
    k: nat,
) -> int
    decreases k,
{
    if k == 0 {
        inside
    } else {
        let mid = (inside + outside) / 2;
        if grid.is_road_at_spec(ray_point_spec(origin, dir, mid)) {
            refine_spec(grid, origin, dir, mid, outside, (k - 1) as nat)
        } else {
            refine_spec(grid, origin, dir, inside, mid, (k - 1) as nat)
        }
    }
}

/// Fixed-step outward march: the first out-of-road sample triggers
/// bisection between the last in-road and the first out-of-road distance;
/// a ray that stays on road up to `max_range` reports `max_range`.
pub open spec fn march_spec(
    grid: TrackGrid,
    origin: Vec2,
    dir: Vec2,
    max_range: int,
    step: int,
    prev: int,
    dist: int,
) -> int
    decreases max_range + step - dist,
{
    if step <= 0 || dist > max_range {
        max_range
    } else if !grid.is_road_at_spec(ray_point_spec(origin, dir, dist)) {
        refine_spec(grid, origin, dir, prev, dist, 8)
    } else {
        march_spec(grid, origin, dir, max_range, step, dist, dist + step)
    }
}

/// Distance reported by one sensor ray: a coarse march followed by
/// bisection refinement; a zero direction reports distance zero.
pub open spec fn raycast_spec(
    grid: TrackGrid,
    origin: Vec2,
    dir: Vec2,
    max_range: int,
    step: int,
) -> int {
    if dir.x == 0 && dir.y == 0 {
        0
    } else {
        let st = if step < 1 {
            1
        } else {
            step
        };
        march_spec(grid, origin, dir, max_range, st, 0, st)
    }
}

/// Signed angle from `from` to `to`, wrapped into a half turn either way;
/// zero when either vector is zero.
pub open spec fn signed_angle_spec(from: Vec2, to: Vec2) -> int {
    if (from.x == 0 && from.y == 0) || (to.x == 0 && to.y == 0) {
        0
    } else {
        wrap_angle_spec(
            atan2_fp_spec(to.y as int, to.x as int) - atan2_fp_spec(from.y as int, from.x as int),
        )
    }
}

/// Scalar speed: the magnitude of the velocity vector.
pub open spec fn speed_spec(velocity: Vec2) -> int {
    isqrt_s(velocity.x * velocity.x + velocity.y * velocity.y)
}

/// The bracket width remaining after `k` bisection halvings of an integer
/// interval of width `w` (each halving can leave one extra unit).
pub open spec fn bracket_bound(w: int, k: nat) -> int
    decreases k,
{
    if k == 0 {
        w
    } else {
        bracket_bound(w / 2 + 1, (k - 1) as nat)
    }
}

proof fn lemma_bracket_bound_monotone(w1: int, w2: int, k: nat)
    requires
        w1 <= w2,
    ensures
        bracket_bound(w1, k) <= bracket_bound(w2, k),
    decreases k,
{
    if k > 0 {
        lemma_bracket_bound_monotone(w1 / 2 + 1, w2 / 2 + 1, (k - 1) as nat);
    }
}

/// Halving never grows the bracket: the residual width stays within the
/// initial width.
pub proof fn lemma_bracket_bound_le(w: int, k: nat)
    requires
        w >= 1,
    ensures
        1 <= bracket_bound(w, k) <= w,
    decreases k,
{
    if k > 0 {
        lemma_bracket_bound_le(w / 2 + 1, (k - 1) as nat);
        lemma_bracket_bound_monotone(w / 2 + 1, if w >= 2 { w } else { 1 }, (k - 1) as nat);
    }
}

/// Bisection keeps an on-road/off-road bracket and tightens it: the refined
/// distance is on road, and some off-road sample lies at most the residual
/// bracket width beyond it.
proof fn lemma_refine_brackets(
    grid: TrackGrid,
    origin: Vec2,
    dir: Vec2,
    inside: int,
    outside: int,
    k: nat,
)
    requires
        0 <= inside <= outside,
        grid.is_road_at_spec(ray_point_spec(origin, dir, inside)),
        !grid.is_road_at_spec(ray_point_spec(origin, dir, outside)),
    ensures
        ({
            let r = refine_spec(grid, origin, dir, inside, outside, k);
            &&& inside <= r < outside
            &&& grid.is_road_at_spec(ray_point_spec(origin, dir, r))
            &&& exists|o: int|
                r < o <= outside && !grid.is_road_at_spec(ray_point_spec(origin, dir, o)) && o - r
                    <= bracket_bound(outside - inside, k)
        }),
    decreases k,
{
    let r = refine_spec(grid, origin, dir, inside, outside, k);
    if k == 0 {
        assert(r < outside && !grid.is_road_at_spec(ray_point_spec(origin, dir, outside))
            && outside - r <= bracket_bound(outside - inside, 0));
    } else {
        let mid = (inside + outside) / 2;
        assert(inside <= mid < outside);
        if grid.is_road_at_spec(ray_point_spec(origin, dir, mid)) {
            lemma_refine_brackets(grid, origin, dir, mid, outside, (k - 1) as nat);
            let o = choose|o: int|
                r < o <= outside && !grid.is_road_at_spec(ray_point_spec(origin, dir, o)) && o - r
                    <= bracket_bound(outside - mid, (k - 1) as nat);
            lemma_bracket_bound_monotone(
                outside - mid,
                (outside - inside) / 2 + 1,
                (k - 1) as nat,
            );
            assert(o - r <= bracket_bound(outside - inside, k));
        } else {
            lemma_refine_brackets(grid, origin, dir, inside, mid, (k - 1) as nat);
            let o = choose|o: int|
                r < o <= mid && !grid.is_road_at_spec(ray_point_spec(origin, dir, o)) && o - r
                    <= bracket_bound(mid - inside, (k - 1) as nat);
            lemma_bracket_bound_monotone(mid - inside, (outside - inside) / 2 + 1, (k - 1) as nat);
            assert(o - r <= bracket_bound(outside - inside, k));
        }
    }
}

/// The march keeps the last sample on road; when it triggers refinement,
/// the bracket it hands over is exactly one step wide.
proof fn lemma_march_brackets(
    grid: TrackGrid,
    origin: Vec2,
    dir: Vec2,
    max_range: int,
    step: int,
    prev: int,
    dist: int,
)
    requires
        step >= 1,
        0 <= prev,
        dist - prev == step,
        grid.is_road_at_spec(ray_point_spec(origin, dir, prev)),
    ensures
        ({
            let r = march_spec(grid, origin, dir, max_range, step, prev, dist);
            r == max_range || (grid.is_road_at_spec(ray_point_spec(origin, dir, r))
                && exists|o: int|
                r < o <= max_range && !grid.is_road_at_spec(ray_point_spec(origin, dir, o)) && o
                    - r <= bracket_bound(step, 8))
        }),
    decreases max_range + step - dist,
{
    if step <= 0 || dist > max_range {
    } else if !grid.is_road_at_spec(ray_point_spec(origin, dir, dist)) {
        lemma_refine_brackets(grid, origin, dir, prev, dist, 8);
    } else {
        lemma_march_brackets(grid, origin, dir, max_range, step, dist, dist + step);
    }
}

/// Sensor boundary refinement: a ray cast from an on-road origin either
/// reports the full range or an on-road distance with an off-road sample at
/// most one march step beyond it — so as the step size shrinks, the
/// reported distance converges onto the road boundary within the step.
pub proof fn lemma_raycast_boundary_tolerance(
    grid: TrackGrid,
    origin: Vec2,
    dir: Vec2,
    max_range: int,
    step: int,
)
    requires
        grid.is_road_at_spec(origin),
        !(dir.x == 0 && dir.y == 0),
        1 <= step,
    ensures
        ({
            let r = raycast_spec(grid, origin, dir, max_range, step);
            r == max_range || (grid.is_road_at_spec(ray_point_spec(origin, dir, r))
                && exists|o: int|
                r < o <= max_range && !grid.is_road_at_spec(ray_point_spec(origin, dir, o)) && o
                    - r <= step)
        }),
{
    assert(ray_point_spec(origin, dir, 0) == origin);
    lemma_march_brackets(grid, origin, dir, max_range, step, 0, step);
    lemma_bracket_bound_le(step, 8);
    let r = raycast_spec(grid, origin, dir, max_range, step);
    if r != max_range {
        let o = choose|o: int|
            r < o <= max_range && !grid.is_road_at_spec(ray_point_spec(origin, dir, o)) && o - r
                <= bracket_bound(step, 8);
        assert(r < o <= max_range && !grid.is_road_at_spec(ray_point_spec(origin, dir, o)) && o
            - r <= step);
    }
}

/// The point at distance `dist` along the `SCALE`-scaled direction `dir`.
fn ray_point(origin: Vec2, dir: Vec2, dist: i64) -> (p: Vec2)
    requires
        -POINT_LIMIT <= origin.x <= POINT_LIMIT,
        -POINT_LIMIT <= origin.y <= POINT_LIMIT,
        -SCALE <= dir.x <= SCALE,
        -SCALE <= dir.y <= SCALE,
        0 <= dist <= 0x2_0000_0000,
    ensures
        p == ray_point_spec(origin, dir, dist as int),
        -0x8_0000_0000 <= p.x <= 0x8_0000_0000,
        -0x8_0000_0000 <= p.y <= 0x8_0000_0000,
{
    let ox = mul64(dir.x, dist);
    let oy = mul64(dir.y, dist);
    proof {
        lemma_mul_bounds(dir.x as int, dist as int, SCALE as int, 0x2_0000_0000);
        lemma_mul_bounds(dir.y as int, dist as int, SCALE as int, 0x2_0000_0000);
        lemma_div_bounds(ox as int, SCALE as int, 0x2_0000_0000 * (SCALE as int));
        lemma_div_bounds(oy as int, SCALE as int, 0x2_0000_0000 * (SCALE as int));
    }
    let px = origin.x + narrow64(div_floor128(ox, SCALE as i128));
    let py = origin.y + narrow64(div_floor128(oy, SCALE as i128));
    Vec2 { x: px, y: py }
}

/// Bisection refinement between the last in-road and the first out-of-road
/// sample distance, tightening the boundary estimate over a fixed number of
/// halvings.
pub fn refine_boundary_distance(
    grid: &TrackGrid,
    origin: Vec2,
    direction: Vec2,
    inside: i64,
    outside: i64,
) -> (r: i64)
    requires
        grid.wf(),
        -POINT_LIMIT <= origin.x <= POINT_LIMIT,
        -POINT_LIMIT <= origin.y <= POINT_LIMIT,
        -SCALE <= direction.x <= SCALE,
        -SCALE <= direction.y <= SCALE,
        0 <= inside <= outside <= 0x2_0000_0000,
    ensures
        r == refine_spec(*grid, origin, direction, inside as int, outside as int, 8),
        inside <= r <= outside,
{
    let mut lo = inside;
    let mut hi = outside;
    let mut k: u64 = 8;
    while k > 0
        invariant
            grid.wf(),
            -POINT_LIMIT <= origin.x <= POINT_LIMIT,
            -POINT_LIMIT <= origin.y <= POINT_LIMIT,
            -SCALE <= direction.x <= SCALE,
            -SCALE <= direction.y <= SCALE,
            0 <= inside <= lo <= hi <= outside <= 0x2_0000_0000,
            k <= 8,
            refine_spec(*grid, origin, direction, inside as int, outside as int, 8)
                == refine_spec(*grid, origin, direction, lo as int, hi as int, k as nat),
        decreases k,
    {
        let mid = (lo + hi) / 2;
        let p = ray_point(origin, direction, mid);
        if grid.is_road_at(p) {
            lo = mid;
        } else {
            hi = mid;
        }
        k = k - 1;
    }
    lo
}

/// Marches outward from `origin` along `direction` in fixed-size steps up
/// to `max_range`, testing road membership at each sample; the first
/// out-of-road sample triggers bisection refinement. Returns the distance
/// and its endpoint; a zero-length direction reports distance zero at the
/// origin.
pub fn raycast_to_road_boundary(
    grid: &TrackGrid,
    origin: Vec2,
    direction: Vec2,
    max_range: i64,
    step: i64,
) -> (r: (i64, Vec2))
    requires
        grid.wf(),
        -POINT_LIMIT <= origin.x <= POINT_LIMIT,
        -POINT_LIMIT <= origin.y <= POINT_LIMIT,
        -SCALE <= direction.x <= SCALE,
        -SCALE <= direction.y <= SCALE,
        0 <= max_range <= RAY_RANGE_MAX,
        step <= RAY_RANGE_MAX,
    ensures
        r.0 == raycast_spec(*grid, origin, direction, max_range as int, step as int),
        r.1 == ray_point_spec(origin, direction, r.0 as int),
        0 <= r.0 <= max_range,
{
    if direction.x == 0 && direction.y == 0 {
        proof {
            assert(ray_point_spec(origin, direction, 0) == origin);
        }
        return (0, origin);
    }
    let st = if step < 1 {
        1
    } else {
        step
    };
    let mut prev: i64 = 0;
    let mut dist: i64 = st;
    while dist <= max_range
        invariant
            grid.wf(),
            -POINT_LIMIT <= origin.x <= POINT_LIMIT,
            -POINT_LIMIT <= origin.y <= POINT_LIMIT,
            -SCALE <= direction.x <= SCALE,
            -SCALE <= direction.y <= SCALE,
            0 <= max_range <= RAY_RANGE_MAX,
            1 <= st <= RAY_RANGE_MAX,
            0 <= prev < dist,
            dist <= max_range + st,
            dist == prev + st || (prev == 0 && dist == st),
            raycast_spec(*grid, origin, direction, max_range as int, step as int) == march_spec(
                *grid,
                origin,
                direction,
                max_range as int,
                st as int,
                0,
                st as int,
            ),
            march_spec(*grid, origin, direction, max_range as int, st as int, 0, st as int)
                == march_spec(
                *grid,
                origin,
                direction,
                max_range as int,
                st as int,
                prev as int,
                dist as int,
            ),
        decreases max_range + st - dist,
    {
        let p = ray_point(origin, direction, dist);
        if !grid.is_road_at(p) {
            proof {
                assert(march_spec(
                    *grid,
                    origin,
                    direction,
                    max_range as int,
                    st as int,
                    prev as int,
                    dist as int,
                ) == refine_spec(*grid, origin, direction, prev as int, dist as int, 8));
            }
            let refined = refine_boundary_distance(grid, origin, direction, prev, dist);
            let hit = ray_point(origin, direction, refined);
            return (refined, hit);
        }
        proof {
            assert(march_spec(
                *grid,
                origin,
                direction,
                max_range as int,
                st as int,
                prev as int,
                dist as int,
            ) == march_spec(
                *grid,
                origin,
                direction,
                max_range as int,
                st as int,
                dist as int,
                dist as int + st as int,
            ));
        }
        prev = dist;
        dist = dist + st;
    }
    let hit = ray_point(origin, direction, max_range);
    (max_range, hit)
}

/// Signed angle from `from` to `to`, wrapped into `(-pi, pi]` in angle
/// units; zero when either vector is zero.
pub fn signed_angle_between(from: Vec2, to: Vec2) -> (r: i64)
    ensures
        r == signed_angle_spec(from, to),
        -ANGLE_HALF_TURN < r <= ANGLE_HALF_TURN || r == 0,
{
    if (from.x == 0 && from.y == 0) || (to.x == 0 && to.y == 0) {
        return 0;
    }
    let af = atan2_fp(from.y, from.x);
    let at = atan2_fp(to.y, to.x);
    wrap_angle(at - af)
}


/// The `SCALE`-scaled world direction of a ray at `rel` relative to a
/// heading.
pub open spec fn ray_dir_spec(heading: int, rel: int) -> Vec2 {
    vec2_of(cos_fp_spec(heading + rel), sin_fp_spec(heading + rel))
}

/// Estimated yaw rate: the wrapped heading delta over the elapsed time,
/// with a minimum elapsed-time floor of one time unit.
pub open spec fn angular_velocity_spec(heading: int, previous_heading: int, dt: int) -> int {
    let dtc = if dt < 1 {
        1
    } else {
        dt
    };
    (wrap_angle_spec(heading - previous_heading) * SCALE) / dtc
}

impl Default for SensorReadings {
    /// Zeroed readings with unit east-facing ray directions.
    fn default() -> (r: SensorReadings)
        ensures
            r.ray_distances@.len() == NUM_RAYS,
            r.ray_hits@.len() == NUM_RAYS,
            r.ray_directions@.len() == NUM_RAYS,
            forall|i: int| 0 <= i < NUM_RAYS ==> #[trigger] r.ray_distances@[i] == 0,
            forall|i: int| 0 <= i < NUM_RAYS ==> #[trigger] r.ray_hits@[i] == (Vec2 {
                x: 0,
                y: 0,
            }),
            forall|i: int| 0 <= i < NUM_RAYS ==> #[trigger] r.ray_directions@[i] == (Vec2 {
                x: SCALE,
                y: 0,
            }),
            r.speed == 0,
            r.heading_error == 0,
            r.angular_velocity == 0,
            r.previous_heading == 0,
    {
        SensorReadings {
            ray_distances: vec![0; NUM_RAYS],
            ray_hits: vec![Vec2 { x: 0, y: 0 }; NUM_RAYS],
            ray_directions: vec![Vec2 { x: SCALE, y: 0 }; NUM_RAYS],
            speed: 0,
            heading_error: 0,
            angular_velocity: 0,
            previous_heading: 0,
        }
    }
}

impl Default for ObservationConfig {
    /// Defaults sized for a world where one screen pixel is 1024 units:
    /// 375 pixels of ray range, a 3 pixel march step, 900 pixels per second
    /// of speed scale, 8 radians per second of yaw scale, and an 11-ray fan
    /// from -150 to 150 degrees.
    fn default() -> (r: ObservationConfig)
        ensures
            r.wf(),
            r.ray_max_range == 384000,
            r.ray_step == 3072,
            r.speed_norm_max == 921600,
            r.angular_velocity_norm_max == 2670177,
            r.ray_angles@ == seq![
                -873813i64,
                -524288i64,
                -349525i64,
                -203890i64,
                -87381i64,
                0i64,
                87381i64,
                203890i64,
                349525i64,
                524288i64,
                873813i64,
            ],
    {
        let mut ray_angles: Vec<i64> = Vec::new();
        ray_angles.push(-873813);
        ray_angles.push(-524288);
        ray_angles.push(-349525);
        ray_angles.push(-203890);
        ray_angles.push(-87381);
        ray_angles.push(0);
        ray_angles.push(87381);
        ray_angles.push(203890);
        ray_angles.push(349525);
        ray_angles.push(524288);
        ray_angles.push(873813);
        proof {
            assert(ray_angles@ =~= seq![
                -873813i64,
                -524288i64,
                -349525i64,
                -203890i64,
                -87381i64,
                0i64,
                87381i64,
                203890i64,
                349525i64,
                524288i64,
                873813i64,
            ]);
        }
        ObservationConfig {
            ray_max_range: 384000,
            ray_step: 3072,
            speed_norm_max: 921600,
            angular_velocity_norm_max: 2670177,
            ray_angles,
        }
    }
}

/// Computes raycasts and derived kinematics for one pose on the fixed
/// simulation tick: one distance and hit point per configured ray, the
/// scalar speed, the signed heading error against the centerline tangent,
/// and the yaw rate from the previous heading sample.
pub fn compute_sensor_readings(
    grid: &TrackGrid,
    config: &ObservationConfig,
    position: Vec2,
    heading: i64,
    velocity: Vec2,
    tangent: Vec2,
    previous_heading: i64,
    dt: i64,
) -> (r: SensorReadings)
    requires
        grid.wf(),
        config.wf(),
        -POINT_LIMIT <= position.x <= POINT_LIMIT,
        -POINT_LIMIT <= position.y <= POINT_LIMIT,
        -SENSOR_HEADING_LIMIT <= heading <= SENSOR_HEADING_LIMIT,
        -SENSOR_HEADING_LIMIT <= previous_heading <= SENSOR_HEADING_LIMIT,
        -SENSOR_VEL_LIMIT <= velocity.x <= SENSOR_VEL_LIMIT,
        -SENSOR_VEL_LIMIT <= velocity.y <= SENSOR_VEL_LIMIT,
    ensures
        r.ray_distances@.len() == NUM_RAYS,
        r.ray_hits@.len() == NUM_RAYS,
        r.ray_directions@.len() == NUM_RAYS,
        forall|i: int|
            0 <= i < NUM_RAYS ==> #[trigger] r.ray_directions@[i] == ray_dir_spec(
                heading as int,
                config.ray_angles@[i] as int,
            ),
        forall|i: int|
            0 <= i < NUM_RAYS ==> #[trigger] r.ray_distances@[i] == raycast_spec(
                *grid,
                position,
                ray_dir_spec(heading as int, config.ray_angles@[i] as int),
                config.ray_max_range as int,
                config.ray_step as int,
            ),
        forall|i: int|
            0 <= i < NUM_RAYS ==> #[trigger] r.ray_hits@[i] == ray_point_spec(
                position,
                ray_dir_spec(heading as int, config.ray_angles@[i] as int),
                r.ray_distances@[i] as int,
            ),
        forall|i: int| 0 <= i < NUM_RAYS ==> 0 <= #[trigger] r.ray_distances@[i]
            <= config.ray_max_range,
        r.speed == speed_spec(velocity),
        0 <= r.speed <= 0x4000_0000_0000,
        r.heading_error == signed_angle_spec(
            vec2_of(cos_fp_spec(heading as int), sin_fp_spec(heading as int)),
            tangent,
        ),
        r.angular_velocity == angular_velocity_spec(
            heading as int,
            previous_heading as int,
            dt as int,
        ),
        r.previous_heading == heading,
{
    let mut ray_distances: Vec<i64> = Vec::new();
    let mut ray_hits: Vec<Vec2> = Vec::new();
    let mut ray_directions: Vec<Vec2> = Vec::new();
    let n = config.ray_angles.len();
    let mut i: usize = 0;
    while i < n
        invariant
            grid.wf(),
            config.wf(),
            n == NUM_RAYS,
            -POINT_LIMIT <= position.x <= POINT_LIMIT,
            -POINT_LIMIT <= position.y <= POINT_LIMIT,
            -SENSOR_HEADING_LIMIT <= heading <= SENSOR_HEADING_LIMIT,
            0 <= i <= n,
            ray_distances@.len() == i,
            ray_hits@.len() == i,
            ray_directions@.len() == i,
            forall|k: int|
                0 <= k < i ==> #[trigger] ray_directions@[k] == ray_dir_spec(
                    heading as int,
                    config.ray_angles@[k] as int,
                ),
            forall|k: int|
                0 <= k < i ==> #[trigger] ray_distances@[k] == raycast_spec(
                    *grid,
                    position,
                    ray_dir_spec(heading as int, config.ray_angles@[k] as int),
                    config.ray_max_range as int,
                    config.ray_step as int,
                ),
            forall|k: int|
                0 <= k < i ==> #[trigger] ray_hits@[k] == ray_point_spec(
                    position,
                    ray_dir_spec(heading as int, config.ray_angles@[k] as int),
                    ray_distances@[k] as int,
                ),
            forall|k: int| 0 <= k < i ==> 0 <= #[trigger] ray_distances@[k]
                <= config.ray_max_range,
        decreases n - i,
    {
        let rel = config.ray_angles[i];
        let world_angle = heading + rel;
        let dir = Vec2 { x: cos_fp(world_angle), y: sin_fp(world_angle) };
        let (d, hit) = raycast_to_road_boundary(
            grid,
            position,
            dir,
            config.ray_max_range,
            config.ray_step,
        );
        ray_distances.push(d);
        ray_hits.push(hit);
        ray_directions.push(dir);
        i += 1;
    }
    let vd2 = dist_sq(velocity, Vec2 { x: 0, y: 0 });
    proof {
        assert(0 <= vd2 <= 0x1000_0000_0000_0000_0000_0000) by (nonlinear_arith)
            requires
                vd2 == dist_sq_spec(velocity, Vec2 { x: 0, y: 0 }),
                -SENSOR_VEL_LIMIT <= velocity.x <= SENSOR_VEL_LIMIT,
                -SENSOR_VEL_LIMIT <= velocity.y <= SENSOR_VEL_LIMIT,
        ;
    }
    let speed = isqrt128(vd2);
    proof {
        crate::geom::lemma_isqrt_unique(
            dist_sq_spec(velocity, Vec2 { x: 0, y: 0 }),
            speed as int,
            isqrt_s(dist_sq_spec(velocity, Vec2 { x: 0, y: 0 })),
        );
        assert(speed <= 0x4000_0000_0000) by (nonlinear_arith)
            requires
                is_isqrt(vd2 as int, speed as int),
                vd2 <= 0x1000_0000_0000_0000_0000_0000,
        ;
    }
    let forward = Vec2 { x: cos_fp(heading), y: sin_fp(heading) };
    let heading_error = signed_angle_between(forward, tangent);
    let dtc = if dt < 1 {
        1
    } else {
        dt
    };
    let wd = wrap_angle(heading - previous_heading);
    let wds = mul64(wd, SCALE);
    proof {
        lemma_mul_bounds(wd as int, SCALE as int, ANGLE_HALF_TURN as int, SCALE as int);
        lemma_div_bounds(wds as int, dtc as int, 0x100_0000_0000);
        assert((wds as int) / (dtc as int) <= 0x100_0000_0000int / (dtc as int)
            && 0x100_0000_0000int / (dtc as int) <= 0x100_0000_0000) by (nonlinear_arith)
            requires
                dtc >= 1,
                wds <= 0x100_0000_0000,
        ;
    }
    let angular_velocity = narrow64(div_floor128(wds, dtc as i128));
    SensorReadings {
        ray_distances,
        ray_hits,
        ray_directions,
        speed,
        heading_error,
        angular_velocity,
        previous_heading: heading,
    }
}

/// Converts sensor readings into a stable, normalized observation vector:
/// ray distances scaled by the max range into `[0, SCALE]`, then speed
/// scaled into `[0, SCALE]`, then heading error and angular velocity scaled
/// into `[-SCALE, SCALE]`, in that fixed order.
pub fn build_observation_vector(config: &ObservationConfig, sensors: &SensorReadings) -> (r:
    ObservationVector)
    requires
        config.wf(),
        sensors.ray_distances@.len() == NUM_RAYS,
        forall|i: int| 0 <= i < NUM_RAYS ==> 0 <= #[trigger] sensors.ray_distances@[i]
            <= RAY_RANGE_MAX,
        0 <= sensors.speed <= 0x4000_0000_0000,
        -ANGLE_HALF_TURN <= sensors.heading_error <= ANGLE_HALF_TURN,
        -0x100_0000_0000 <= sensors.angular_velocity <= 0x100_0000_0000,
    ensures
        r.values@.len() == NUM_RAYS + 3,
        forall|i: int|
            0 <= i < NUM_RAYS ==> #[trigger] r.values@[i] == clamp_spec(
                (sensors.ray_distances@[i] * SCALE) / (config.ray_max_range as int),
                0,
                SCALE as int,
            ),
        r.values@[NUM_RAYS as int] == clamp_spec(
            (sensors.speed * SCALE) / (config.speed_norm_max as int),
            0,
            SCALE as int,
        ),
        r.values@[NUM_RAYS + 1] == clamp_spec(
            (sensors.heading_error * SCALE) / (ANGLE_HALF_TURN as int),
            -SCALE as int,
            SCALE as int,
        ),
        r.values@[NUM_RAYS + 2] == clamp_spec(
            (sensors.angular_velocity * SCALE) / (config.angular_velocity_norm_max as int),
            -SCALE as int,
            SCALE as int,
        ),
{
    let mut values: Vec<i64> = Vec::new();
    let mut i: usize = 0;
    while i < NUM_RAYS
        invariant
            config.wf(),
            sensors.ray_distances@.len() == NUM_RAYS,
            forall|k: int| 0 <= k < NUM_RAYS ==> 0 <= #[trigger] sensors.ray_distances@[k]
                <= RAY_RANGE_MAX,
            0 <= i <= NUM_RAYS,
            values@.len() == i,
            forall|k: int|
                0 <= k < i ==> #[trigger] values@[k] == clamp_spec(
                    (sensors.ray_distances@[k] * SCALE) / (config.ray_max_range as int),
                    0,
                    SCALE as int,
                ),
        decreases NUM_RAYS - i,
    {
        let d = sensors.ray_distances[i];
        let num = mul64(d, SCALE);
        proof {
            lemma_mul_bounds(d as int, SCALE as int, RAY_RANGE_MAX as int, SCALE as int);
            lemma_div_shrinks(num as int, config.ray_max_range as int);
        }
        let v = clamp64(narrow64(div_floor128(num, config.ray_max_range as i128)), 0, SCALE);
        values.push(v);
        i += 1;
    }
    let snum = mul64(sensors.speed, SCALE);
    proof {
        lemma_mul_bounds(sensors.speed as int, SCALE as int, 0x4000_0000_0000, SCALE as int);
        lemma_div_shrinks(snum as int, config.speed_norm_max as int);
    }
    values.push(clamp64(narrow64(div_floor128(snum, config.speed_norm_max as i128)), 0, SCALE));
    let hnum = mul64(sensors.heading_error, SCALE);
    proof {
        lemma_mul_bounds(sensors.heading_error as int, SCALE as int, ANGLE_HALF_TURN as int,
            SCALE as int);
        lemma_div_shrinks(hnum as int, ANGLE_HALF_TURN as int);
    }
    values.push(clamp64(narrow64(div_floor128(hnum, ANGLE_HALF_TURN as i128)), -SCALE, SCALE));
    let anum = mul64(sensors.angular_velocity, SCALE);
    proof {
        lemma_mul_bounds(sensors.angular_velocity as int, SCALE as int, 0x100_0000_0000,
            SCALE as int);
        lemma_div_shrinks(anum as int, config.angular_velocity_norm_max as int);
    }
    values.push(
        clamp64(
            narrow64(div_floor128(anum, config.angular_velocity_norm_max as i128)),
            -SCALE,
            SCALE,
        ),
    );
    ObservationVector { values }
}
} // verus!
