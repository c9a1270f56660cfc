use tracksim::geom::SCALE;
use tracksim::trig::{
    ANGLE_FULL_TURN, ANGLE_HALF_TURN, ANGLE_QUARTER_TURN, atan2_fp, cos_fp, sin_fp, wrap_angle,
};

#[test]
fn wrap_angle_maps_into_half_open_turn() {
    assert_eq!(wrap_angle(0), 0);
    assert_eq!(wrap_angle(5), 5);
    assert_eq!(wrap_angle(ANGLE_FULL_TURN + 5), 5);
    assert_eq!(wrap_angle(-ANGLE_FULL_TURN + 5), 5);
    // The positive half turn is its own representative; one step past it
    // wraps to just above the negative half turn.
    assert_eq!(wrap_angle(ANGLE_HALF_TURN), ANGLE_HALF_TURN);
    assert_eq!(wrap_angle(ANGLE_HALF_TURN + 1), -ANGLE_HALF_TURN + 1);
    assert_eq!(wrap_angle(-ANGLE_HALF_TURN), ANGLE_HALF_TURN);
    assert_eq!(wrap_angle(7 * ANGLE_FULL_TURN - 3), -3);
}

#[test]
fn sine_and_cosine_are_exact_on_the_axes() {
    assert_eq!(sin_fp(0), 0);
    assert_eq!(sin_fp(ANGLE_QUARTER_TURN), SCALE);
    assert_eq!(sin_fp(ANGLE_HALF_TURN), 0);
    assert_eq!(sin_fp(-ANGLE_QUARTER_TURN), -SCALE);
    assert_eq!(cos_fp(0), SCALE);
    assert_eq!(cos_fp(ANGLE_QUARTER_TURN), 0);
    assert_eq!(cos_fp(ANGLE_HALF_TURN), -SCALE);
    assert_eq!(cos_fp(-ANGLE_HALF_TURN), -SCALE);
}

#[test]
fn sine_is_odd_and_bounded_between_the_axes() {
    for k in 1..16i64 {
        let a = k * (ANGLE_HALF_TURN / 16);
        let s = sin_fp(a);
        assert_eq!(sin_fp(-a), -s);
        assert!(s >= 0 && s <= SCALE);
    }
    // A mid-quadrant sample is close to the real sine: sin(pi/4) ~ 0.7071,
    // and the quarter-wave approximation stays within 0.002 of it.
    let s45 = sin_fp(ANGLE_QUARTER_TURN / 2);
    assert!((s45 - 46341).abs() < 140, "sin at an eighth turn was {}", s45);
}

#[test]
fn atan2_is_exact_on_axes_and_diagonals() {
    assert_eq!(atan2_fp(0, 1000), 0);
    assert_eq!(atan2_fp(1000, 0), ANGLE_QUARTER_TURN);
    assert_eq!(atan2_fp(-1000, 0), -ANGLE_QUARTER_TURN);
    assert_eq!(atan2_fp(0, -1000), ANGLE_HALF_TURN);
    assert_eq!(atan2_fp(0, 0), 0);
    // The exact diagonal: an eighth turn.
    assert_eq!(atan2_fp(1000, 1000), ANGLE_QUARTER_TURN / 2);
    assert_eq!(atan2_fp(-1000, 1000), -(ANGLE_QUARTER_TURN / 2));
}

#[test]
fn atan2_tracks_the_direction_of_its_sine_cosine_pair() {
    // Round trip: the angle of (cos a, sin a) comes back near a.
    for k in -7..8i64 {
        let a = k * (ANGLE_HALF_TURN / 8);
        let back = atan2_fp(sin_fp(a), cos_fp(a));
        let err = (back - wrap_angle(a)).abs();
        // Within about half a degree of angle units.
        assert!(
            err <= 3000 || (ANGLE_FULL_TURN - err) <= 3000,
            "angle {} came back as {}",
            a,
            back
        );
    }
}
