use tracksim::centerline::{GridDir, TrackCenterline};
use tracksim::geom::{SCALE, Vec2};
use tracksim::grid::TrackGrid;
use tracksim::progress::{TrackProgress, update_track_progress};
use tracksim::tile::TilePart;

fn rectangle_track() -> (TrackGrid, TrackCenterline) {
    // NW H NE
    // SW H SE
    let g = TrackGrid::new(
        vec![
            vec![TilePart::CornerNW, TilePart::StraightH, TilePart::CornerNE],
            vec![TilePart::CornerSW, TilePart::StraightH, TilePart::CornerSE],
        ],
        1000,
        Vec2 { x: 0, y: 2000 },
        10,
    );
    let c = TrackCenterline::build_closed_loop(&g, (0, 0), GridDir::East).unwrap();
    (g, c)
}

#[test]
fn projecting_a_polyline_vertex_returns_it_at_distance_zero() {
    let (_, c) = rectangle_track();
    for i in 0..c.points.len() {
        let p = c.points[i];
        let proj = c.project(p);
        assert_eq!(proj.distance, 0, "vertex {} should project to itself", i);
        assert_eq!(proj.closest_point, p);
    }
}

#[test]
fn projecting_a_point_on_a_straight_segment_returns_it_exactly() {
    let (_, c) = rectangle_track();
    // The top straight runs at y = 1500; any lattice point on it lies
    // exactly on a centerline segment.
    let w = Vec2 { x: 1500, y: 1500 };
    let proj = c.project(w);
    assert_eq!(proj.distance, 0);
    assert_eq!(proj.closest_point, w);
    // The tangent of the eastbound straight is the unit east vector.
    assert_eq!(proj.tangent, Vec2 { x: SCALE, y: 0 });
}

#[test]
fn projection_reports_perpendicular_distance() {
    let (_, c) = rectangle_track();
    // 200 units above the top straight.
    let proj = c.project(Vec2 { x: 1500, y: 1700 });
    assert_eq!(proj.distance, 200);
    assert_eq!(proj.closest_point, Vec2 { x: 1500, y: 1500 });
}

#[test]
fn forward_motion_along_the_straight_never_decreases_progress() {
    let (_, c) = rectangle_track();
    // Walk east along the top straight (the traversal direction) and watch
    // the arc-length fraction: it must be non-decreasing until the loop
    // wraps, which this walk does not reach.
    let mut last_s = -1i64;
    let mut last_fraction = -1i64;
    for k in 0..20 {
        let w = Vec2 { x: 1050 + k * 45, y: 1500 };
        let proj = c.project(w);
        assert!(proj.s >= last_s, "s decreased while moving forward");
        assert!(proj.fraction >= last_fraction, "fraction decreased while moving forward");
        last_s = proj.s;
        last_fraction = proj.fraction;
    }
}

#[test]
fn fraction_stays_in_unit_range_and_scales_with_s() {
    let (_, c) = rectangle_track();
    let total = c.total_length();
    for k in 0..8 {
        let w = Vec2 { x: 1000 + k * 120, y: 1480 + (k % 3) * 20 };
        let proj = c.project(w);
        assert!(proj.fraction >= 0 && proj.fraction <= SCALE);
        assert!(proj.s >= 0 && proj.s <= total);
        // fraction == floor(s * SCALE / total), by definition.
        let expect = ((proj.s as i128) * (SCALE as i128) / (total as i128)) as i64;
        assert_eq!(proj.fraction, expect);
    }
}

#[test]
fn progress_update_copies_the_projection() {
    let (_, c) = rectangle_track();
    let mut progress = TrackProgress::default();
    assert_eq!(progress.tangent, Vec2 { x: SCALE, y: 0 });
    let w = Vec2 { x: 1500, y: 1450 };
    update_track_progress(&mut progress, &c, w);
    let proj = c.project(w);
    assert_eq!(progress.s, proj.s);
    assert_eq!(progress.fraction, proj.fraction);
    assert_eq!(progress.closest_point, proj.closest_point);
    assert_eq!(progress.tangent, proj.tangent);
    assert_eq!(progress.distance, proj.distance);
}
