use particle_simulator::particle::{bounce, parts, Flight, Particle, Spacing, Span};

fn bits(value: f64) -> u64 {
    value.to_bits()
}

fn turned(velocity: f64, low: f64, high: f64) -> f64 {
    f64::from_bits(bounce(bits(velocity), bits(low), bits(high), bits(1000.0)))
}

fn span(end_of_first: f64, start_of_second: f64) -> Span {
    Span {
        end_of_first: bits(end_of_first),
        start_of_second: bits(start_of_second),
        gap: bits(start_of_second - end_of_first),
    }
}

fn spacing(distance: f64, reach: f64) -> Spacing {
    Spacing { distance: bits(distance), reach: bits(reach) }
}

#[test]
fn bounce_inside_the_box() {
    assert_eq!(turned(3.0, 10.0, 20.0), 3.0);
    assert_eq!(turned(-3.0, 10.0, 20.0), -3.0);
    assert_eq!(turned(0.0, 10.0, 20.0), 0.0);
    assert_eq!(turned(25.0, 1e-300, 999.9999), 25.0);
    assert_eq!(turned(-25.0, 1e-300, 999.9999), -25.0);
}

#[test]
fn bounce_at_the_far_wall() {
    assert_eq!(turned(3.0, 990.0, 1000.0), -3.0);
    assert_eq!(turned(3.0, 995.0, 1005.0), -3.0);
    assert_eq!(turned(3.0, 990.0, f64::INFINITY), -3.0);
    // On its way back already, or at rest: let go.
    assert_eq!(turned(-3.0, 995.0, 1005.0), -3.0);
    assert_eq!(turned(0.0, 995.0, 1005.0), 0.0);
    assert_eq!(bounce(bits(-0.0), bits(995.0), bits(1005.0), bits(1000.0)), bits(-0.0));
}

#[test]
fn bounce_at_the_near_wall() {
    assert_eq!(turned(-3.0, 0.0, 10.0), 3.0);
    assert_eq!(turned(-3.0, -0.0, 10.0), 3.0);
    assert_eq!(turned(-3.0, -5.0, 5.0), 3.0);
    assert_eq!(turned(-3.0, f64::NEG_INFINITY, 5.0), 3.0);
    assert_eq!(turned(3.0, -5.0, 5.0), 3.0);
    assert_eq!(turned(0.0, -5.0, 5.0), 0.0);
    assert_eq!(bounce(bits(-0.0), bits(-5.0), bits(5.0), bits(1000.0)), bits(-0.0));
}

#[test]
fn bounce_of_a_disc_wider_than_the_box() {
    // It has reached both walls: whichever it moves into turns it round.
    assert_eq!(turned(3.0, -5.0, 1005.0), -3.0);
    assert_eq!(turned(-3.0, -5.0, 1005.0), 3.0);
}

#[test]
fn bounce_with_what_is_no_number() {
    // No comparison with a NaN holds, so nothing is turned.
    assert_eq!(turned(3.0, f64::NAN, f64::NAN), 3.0);
    assert_eq!(turned(-3.0, f64::NAN, f64::NAN), -3.0);
    assert_eq!(turned(3.0, 10.0, f64::NAN), 3.0);
    assert_eq!(turned(-3.0, f64::NAN, 10.0), -3.0);
    let lost = bounce(bits(f64::NAN), bits(-5.0), bits(1005.0), bits(1000.0));
    assert_eq!(lost, bits(f64::NAN));
}

#[test]
fn bounce_at_another_wall() {
    assert_eq!(f64::from_bits(bounce(bits(3.0), bits(10.0), bits(20.0), bits(20.0))), -3.0);
    assert_eq!(f64::from_bits(bounce(bits(3.0), bits(10.0), bits(20.0), bits(20.5))), 3.0);
}

#[test]
fn land_moves_and_turns() {
    let mut particle = Particle {
        id: 4,
        radius: bits(5.0),
        mass: bits(78.5),
        position_x: bits(990.0),
        position_y: bits(10.0),
        velocity_x: bits(10.0),
        velocity_y: bits(-7.0),
    };
    particle.land(Flight {
        position_x: bits(1000.0),
        position_y: bits(3.0),
        left: bits(995.0),
        right: bits(1005.0),
        bottom: bits(-2.0),
        top: bits(8.0),
    });
    assert_eq!(particle.id, 4);
    assert_eq!(particle.radius, bits(5.0));
    assert_eq!(particle.mass, bits(78.5));
    assert_eq!(particle.position_x, bits(1000.0));
    assert_eq!(particle.position_y, bits(3.0));
    assert_eq!(particle.velocity_x, bits(-10.0));
    assert_eq!(particle.velocity_y, bits(7.0));

    particle.land(Flight {
        position_x: bits(500.0),
        position_y: bits(600.0),
        left: bits(495.0),
        right: bits(505.0),
        bottom: bits(595.0),
        top: bits(605.0),
    });
    assert_eq!(particle.position_x, bits(500.0));
    assert_eq!(particle.position_y, bits(600.0));
    assert_eq!(particle.velocity_x, bits(-10.0));
    assert_eq!(particle.velocity_y, bits(7.0));
}

#[test]
fn extents_meet_where_the_first_ends_behind_the_start_of_the_second() {
    assert!(span(2.5, 1.0).meets());
    assert!(span(1.0000001, 1.0).meets());
    assert!(!span(1.0, 1.0).meets());
    assert!(!span(1.0, 2.5).meets());
    assert!(span(0.0, -1.0).meets());
    assert!(!span(-0.0, 0.0).meets());
    assert!(!span(f64::NAN, 1.0).meets());
    assert!(!span(1.0, f64::NAN).meets());
}

#[test]
fn out_of_reach_beyond_the_greatest_radius() {
    assert!(!span(0.0, 50.0).out_of_reach());
    assert!(span(0.0, 50.00000000000001).out_of_reach());
    assert!(span(0.0, 51.0).out_of_reach());
    assert!(!span(0.0, 49.0).out_of_reach());
    assert!(!span(10.0, 0.0).out_of_reach());
    assert!(span(-1000.0, 1000.0).out_of_reach());
    assert!(span(0.0, f64::INFINITY).out_of_reach());
    assert!(!span(0.0, f64::NAN).out_of_reach());
}

#[test]
fn overlap_is_strict() {
    assert!(spacing(1.4142135623730951, 2.5).overlaps());
    assert!(!spacing(3.1622776601683795, 2.5).overlaps());
    assert!(!spacing(5.0, 5.0).overlaps());
    assert!(spacing(4.999999999999999, 5.0).overlaps());
    assert!(spacing(0.0, 1e-300).overlaps());
    assert!(!spacing(0.0, 0.0).overlaps());
    assert!(!spacing(f64::NAN, 5.0).overlaps());
    assert!(!spacing(1.0, f64::NAN).overlaps());
}

#[test]
fn parting_is_a_growing_distance() {
    assert!(parts(bits(1.0)));
    assert!(parts(bits(5e-324)));
    assert!(parts(bits(f64::INFINITY)));
    assert!(!parts(bits(0.0)));
    assert!(!parts(bits(-0.0)));
    assert!(!parts(bits(-1e-9)));
    assert!(!parts(bits(f64::NAN)));
}
