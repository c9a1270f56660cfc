use tracksim::geom::{SCALE, Vec2};
use tracksim::grid::TrackGrid;
use tracksim::sensor::{
    NUM_RAYS, ObservationConfig, SensorReadings, build_observation_vector,
    compute_sensor_readings, raycast_to_road_boundary, signed_angle_between,
};
use tracksim::tile::TilePart;
use tracksim::trig::{ANGLE_HALF_TURN, ANGLE_QUARTER_TURN};

fn corridor() -> TrackGrid {
    // One horizontal straight: a corridor with walls north and south. With
    // tile size 1000 and wall thickness 10, the driveable band is
    // 5 <= y <= 995, so the wall is 495 units north of the center.
    TrackGrid::new(vec![vec![TilePart::StraightH]], 1000, Vec2 { x: 0, y: 1000 }, 10)
}

#[test]
fn perpendicular_ray_converges_to_the_wall_distance() {
    let g = corridor();
    let center = Vec2 { x: 500, y: 500 };
    let north = Vec2 { x: 0, y: SCALE };
    // Coarse march (step 100) with bisection refinement: the reported
    // distance is within one step of the analytic wall distance 495 —
    // and the eight bisection halvings actually land on it exactly.
    let (d_coarse, hit_coarse) = raycast_to_road_boundary(&g, center, north, 2000, 100);
    assert!((d_coarse - 495).abs() <= 100);
    assert_eq!(d_coarse, 495);
    assert_eq!(hit_coarse, Vec2 { x: 500, y: 995 });
    // A smaller step must stay at least as accurate.
    let (d_fine, _) = raycast_to_road_boundary(&g, center, north, 2000, 10);
    assert!((d_fine - 495).abs() <= 10);
    assert_eq!(d_fine, 495);
}

#[test]
fn ray_without_obstruction_reports_max_range() {
    let g = corridor();
    // Eastward from near the west edge: the corridor is open east, and the
    // road simply ends at the grid boundary x = 1000; limit the range so
    // the march never leaves the road.
    let (d, hit) = raycast_to_road_boundary(
        &g,
        Vec2 { x: 100, y: 500 },
        Vec2 { x: SCALE, y: 0 },
        800,
        50,
    );
    assert_eq!(d, 800);
    assert_eq!(hit, Vec2 { x: 900, y: 500 });
}

#[test]
fn zero_direction_ray_reports_zero_at_origin() {
    let g = corridor();
    let origin = Vec2 { x: 500, y: 500 };
    let (d, hit) = raycast_to_road_boundary(&g, origin, Vec2 { x: 0, y: 0 }, 2000, 100);
    assert_eq!(d, 0);
    assert_eq!(hit, origin);
}

#[test]
fn signed_angle_wraps_and_handles_zero_vectors() {
    let east = Vec2 { x: 1000, y: 0 };
    let north = Vec2 { x: 0, y: 1000 };
    let west = Vec2 { x: -1000, y: 0 };
    assert_eq!(signed_angle_between(east, north), ANGLE_QUARTER_TURN);
    assert_eq!(signed_angle_between(north, east), -ANGLE_QUARTER_TURN);
    assert_eq!(signed_angle_between(east, west), ANGLE_HALF_TURN);
    assert_eq!(signed_angle_between(east, east), 0);
    assert_eq!(signed_angle_between(Vec2 { x: 0, y: 0 }, north), 0);
    assert_eq!(signed_angle_between(north, Vec2 { x: 0, y: 0 }), 0);
}

#[test]
fn sensor_readings_fill_all_rays_and_derived_kinematics() {
    let g = corridor();
    let mut config = ObservationConfig::default();
    config.ray_max_range = 2000;
    config.ray_step = 100;
    let position = Vec2 { x: 500, y: 500 };
    // Heading east with an eastward tangent: no heading error; previous
    // heading equal to the current one: no angular velocity.
    let r = compute_sensor_readings(
        &g,
        &config,
        position,
        0,
        Vec2 { x: 300, y: 400 },
        Vec2 { x: SCALE, y: 0 },
        0,
        SCALE / 60,
    );
    assert_eq!(r.ray_distances.len(), NUM_RAYS);
    assert_eq!(r.ray_hits.len(), NUM_RAYS);
    assert_eq!(r.ray_directions.len(), NUM_RAYS);
    // Speed is the exact integer magnitude of (300, 400).
    assert_eq!(r.speed, 500);
    assert_eq!(r.heading_error, 0);
    assert_eq!(r.angular_velocity, 0);
    assert_eq!(r.previous_heading, 0);
    // The middle ray of the fan points straight ahead (east).
    assert_eq!(r.ray_directions[5], Vec2 { x: SCALE, y: 0 });
    // The quarter-turn rays of the fan are the exact north and south units.
    assert_eq!(r.ray_directions[1], Vec2 { x: 0, y: -SCALE });
    assert_eq!(r.ray_directions[9], Vec2 { x: 0, y: SCALE });
    // The northward ray sees the wall at the refined distance.
    assert_eq!(r.ray_distances[9], 495);
    assert_eq!(r.ray_hits[9], Vec2 { x: 500, y: 995 });
    // Every distance respects the configured range.
    for i in 0..NUM_RAYS {
        assert!(r.ray_distances[i] >= 0 && r.ray_distances[i] <= config.ray_max_range);
    }
}

#[test]
fn angular_velocity_uses_wrapped_delta_over_elapsed_time() {
    let g = corridor();
    let mut config = ObservationConfig::default();
    config.ray_max_range = 2000;
    config.ray_step = 100;
    let position = Vec2 { x: 500, y: 500 };
    // Heading moved by 1000 angle units since the previous sample, over
    // half a second: 2000 angle units per second.
    let r = compute_sensor_readings(
        &g,
        &config,
        position,
        1000,
        Vec2 { x: 0, y: 0 },
        Vec2 { x: SCALE, y: 0 },
        0,
        SCALE / 2,
    );
    assert_eq!(r.angular_velocity, 2000);
    assert_eq!(r.speed, 0);
}

#[test]
fn observation_vector_normalizes_in_fixed_order() {
    let config = ObservationConfig {
        ray_max_range: 1000,
        ray_step: 100,
        speed_norm_max: 500,
        angular_velocity_norm_max: 1000,
        ray_angles: ObservationConfig::default().ray_angles,
    };
    let mut sensors = SensorReadings::default();
    for i in 0..NUM_RAYS {
        sensors.ray_distances[i] = (i as i64) * 100;
    }
    sensors.speed = 250;
    sensors.heading_error = -ANGLE_HALF_TURN / 2;
    sensors.angular_velocity = 4000;
    let obs = build_observation_vector(&config, &sensors);
    assert_eq!(obs.values.len(), NUM_RAYS + 3);
    // Rays first, scaled by the max range and clamped to [0, SCALE].
    assert_eq!(obs.values[0], 0);
    assert_eq!(obs.values[5], SCALE / 2);
    assert_eq!(obs.values[10], SCALE);
    // Then speed / speed_norm_max.
    assert_eq!(obs.values[NUM_RAYS], SCALE / 2);
    // Then heading error / half turn, in [-SCALE, SCALE].
    assert_eq!(obs.values[NUM_RAYS + 1], -SCALE / 2);
    // Then angular velocity / norm, clamped to SCALE.
    assert_eq!(obs.values[NUM_RAYS + 2], SCALE);
}

#[test]
fn default_observation_config_is_the_standard_fan() {
    let c = ObservationConfig::default();
    assert_eq!(c.ray_max_range, 384000);
    assert_eq!(c.ray_step, 3072);
    assert_eq!(c.speed_norm_max, 921600);
    assert_eq!(c.angular_velocity_norm_max, 2670177);
    assert_eq!(c.ray_angles.len(), NUM_RAYS);
    assert_eq!(c.ray_angles[0], -873813);
    assert_eq!(c.ray_angles[1], -ANGLE_QUARTER_TURN);
    assert_eq!(c.ray_angles[5], 0);
    assert_eq!(c.ray_angles[9], ANGLE_QUARTER_TURN);
    assert_eq!(c.ray_angles[10], 873813);
}
