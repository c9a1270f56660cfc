use vstd::prelude::*;
use crate::centerline::{
    POINT_LIMIT, TrackCenterline, best_seg_spec, proj_cand_dist_sq, proj_cand_point,
    proj_fraction_spec, proj_s_spec, proj_tangent_spec,
};
use crate::geom::{SCALE, Vec2, isqrt_s};

verus! {

/// Continuous progress state along the track centerline: an environment
/// measurement used for telemetry, lap logic and reward shaping, not part
/// of the agent observation vector.
#[derive(Clone, Copy, Debug, PartialEq, Eq, Structural)]
pub struct TrackProgress {
    /// Arc-length distance along the centerline from the start point.
    pub s: i64,
    /// `s / track_length`, `SCALE`-scaled, in `[0, SCALE]`.
    pub fraction: i64,
    /// Closest world-space point on the centerline.
    pub closest_point: Vec2,
    /// `SCALE`-scaled unit tangent direction at `closest_point`.
    pub tangent: Vec2,
    /// Euclidean distance from the car position to the centerline.
    pub distance: i64,
}

impl Default for TrackProgress {
    /// Progress at the loop start: zero arc length and an east tangent.
    fn default() -> (r: TrackProgress)
        ensures
            r.s == 0,
            r.fraction == 0,
            r.closest_point == (Vec2 { x: 0, y: 0 }),
            r.tangent == (Vec2 { x: SCALE, y: 0 }),
            r.distance == 0,
    {
        TrackProgress {
            s: 0,
            fraction: 0,
            closest_point: Vec2 { x: 0, y: 0 },
            tangent: Vec2 { x: SCALE, y: 0 },
            distance: 0,
        }
    }
}

/// Updates the car's centerline projection and progress for the current
/// position, once per fixed tick.
pub fn update_track_progress(
    progress: &mut TrackProgress,
    centerline: &TrackCenterline,
    position: Vec2,
)
    requires
        centerline.wf(),
        -POINT_LIMIT <= position.x <= POINT_LIMIT,
        -POINT_LIMIT <= position.y <= POINT_LIMIT,
    ensures
        ({
            let b = best_seg_spec(*centerline, position);
            &&& final(progress).s == proj_s_spec(*centerline, position, b)
            &&& final(progress).fraction == proj_fraction_spec(*centerline, position, b)
            &&& final(progress).closest_point == proj_cand_point(centerline.points@, b, position)
            &&& final(progress).tangent == proj_tangent_spec(centerline.points@, b)
            &&& final(progress).distance == isqrt_s(
                proj_cand_dist_sq(centerline.points@, b, position),
            )
            &&& 0 <= final(progress).s <= centerline.total_spec()
            &&& 0 <= final(progress).fraction <= SCALE
        }),
{
    let projection = centerline.project(position);
    progress.s = projection.s;
    progress.fraction = projection.fraction;
    progress.closest_point = projection.closest_point;
    progress.tangent = projection.tangent;
    progress.distance = projection.distance;
}

} // verus!
