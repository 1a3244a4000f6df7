use ordered_float::OrderedFloat;
use particle_simulator::particle::Particle;
use particle_simulator::scalar::{
    at_most, less_than, negated, not_a_number, sort_key, INFINITY, SIGN_BIT, ZERO,
};
use particle_simulator::sorting::sort_by_position;

fn at(id: u64, x: f64) -> Particle {
    Particle {
        id,
        radius: 1.0f64.to_bits(),
        mass: std::f64::consts::PI.to_bits(),
        position_x: x.to_bits(),
        position_y: 0.0f64.to_bits(),
        velocity_x: 0.0f64.to_bits(),
        velocity_y: 0.0f64.to_bits(),
    }
}

fn samples() -> Vec<f64> {
    let mut values = vec![
        0.0,
        -0.0,
        1.0,
        -1.0,
        0.5,
        3.2,
        1000.0,
        -1000.0,
        50.0,
        1e-6,
        -1e-6,
        1e300,
        -1e300,
        f64::MIN_POSITIVE,
        -f64::MIN_POSITIVE,
        f64::MIN_POSITIVE / 4.0,
        -f64::MIN_POSITIVE / 4.0,
        f64::from_bits(1),
        f64::from_bits(SIGN_BIT + 1),
        f64::MAX,
        f64::MIN,
        f64::EPSILON,
        f64::INFINITY,
        f64::NEG_INFINITY,
        f64::NAN,
        -f64::NAN,
        f64::from_bits(INFINITY + 1),
        f64::from_bits(u64::MAX),
        f64::from_bits(0x7FFF_FFFF_FFFF_FFFF),
    ];
    let mut state: u64 = 0x9E37_79B9_7F4A_7C15;
    for _ in 0..200 {
        state = state.wrapping_mul(6364136223846793005).wrapping_add(1442695040888963407);
        values.push(f64::from_bits(state));
    }
    values
}

#[test]
fn key_constants_are_the_bit_patterns() {
    assert_eq!(SIGN_BIT, (-0.0f64).to_bits());
    assert_eq!(INFINITY, f64::INFINITY.to_bits());
    assert_eq!(ZERO, 0.0f64.to_bits());
}

#[test]
fn comparisons_of_known_values() {
    let (one, two) = (1.0f64.to_bits(), 2.0f64.to_bits());
    assert!(less_than(one, two));
    assert!(!less_than(two, one));
    assert!(!less_than(one, one));
    assert!(at_most(one, two));
    assert!(at_most(one, one));
    assert!(!at_most(two, one));
    assert!(!less_than((-0.0f64).to_bits(), ZERO));
    assert!(at_most((-0.0f64).to_bits(), ZERO));
    assert!(at_most(ZERO, (-0.0f64).to_bits()));
    assert!(less_than((-1.0f64).to_bits(), ZERO));
    assert!(less_than(f64::NEG_INFINITY.to_bits(), f64::MIN.to_bits()));
    assert!(less_than(f64::MAX.to_bits(), f64::INFINITY.to_bits()));
    assert!(!less_than(one, f64::NAN.to_bits()));
    assert!(!less_than(f64::NAN.to_bits(), one));
    assert!(!at_most(f64::NAN.to_bits(), f64::NAN.to_bits()));
    assert!(not_a_number(f64::NAN.to_bits()));
    assert!(!not_a_number(f64::INFINITY.to_bits()));
    assert_eq!(negated(one), (-1.0f64).to_bits());
    assert_eq!(negated((-2.5f64).to_bits()), 2.5f64.to_bits());
    assert_eq!(negated(ZERO), (-0.0f64).to_bits());
}

#[test]
fn comparisons_are_those_of_binary64() {
    let values = samples();
    for &a in &values {
        assert_eq!(not_a_number(a.to_bits()), a.is_nan(), "{:?}", a);
        if !a.is_nan() {
            assert_eq!(negated(a.to_bits()), (a * -1.0).to_bits(), "{:?}", a);
            assert_eq!(negated(a.to_bits()), (-a).to_bits(), "{:?}", a);
        }
        for &b in &values {
            assert_eq!(less_than(a.to_bits(), b.to_bits()), a < b, "{:?} < {:?}", a, b);
            assert_eq!(at_most(a.to_bits(), b.to_bits()), a <= b, "{:?} <= {:?}", a, b);
            assert_eq!(less_than(b.to_bits(), a.to_bits()), a > b, "{:?} > {:?}", a, b);
            assert_eq!(at_most(b.to_bits(), a.to_bits()), a >= b, "{:?} >= {:?}", a, b);
        }
    }
}

#[test]
fn sort_key_of_known_values() {
    assert_eq!(sort_key(0.0f64.to_bits()), 0x8000_0000_0000_0000);
    assert_eq!(sort_key((-0.0f64).to_bits()), 0x8000_0000_0000_0000);
    assert_eq!(sort_key(1.0f64.to_bits()), 0x8000_0000_0000_0000 + 0x3FF0_0000_0000_0000);
    assert_eq!(sort_key((-1.0f64).to_bits()), 0x8000_0000_0000_0000 - 0x3FF0_0000_0000_0000);
    assert_eq!(sort_key(f64::INFINITY.to_bits()), 0xFFF0_0000_0000_0000);
    assert_eq!(sort_key(f64::NEG_INFINITY.to_bits()), 0x0010_0000_0000_0000);
    assert_eq!(sort_key(f64::NAN.to_bits()), 0xFFF0_0000_0000_0001);
    assert_eq!(sort_key(u64::MAX), 0xFFF0_0000_0000_0001);
}

#[test]
fn sort_key_orders_as_ordered_float_does() {
    let values = samples();
    for &a in &values {
        for &b in &values {
            let (ka, kb) = (sort_key(a.to_bits()), sort_key(b.to_bits()));
            let (oa, ob) = (OrderedFloat(a), OrderedFloat(b));
            assert_eq!(ka < kb, oa < ob, "{:?} < {:?}", a, b);
            assert_eq!(ka == kb, oa == ob, "{:?} == {:?}", a, b);
            assert_eq!(ka > kb, oa > ob, "{:?} > {:?}", a, b);
        }
    }
}

#[test]
fn sort_key_orders_numbers_as_numbers() {
    let values = samples();
    for &a in &values {
        for &b in &values {
            if !a.is_nan() && !b.is_nan() {
                assert_eq!(sort_key(a.to_bits()) < sort_key(b.to_bits()), a < b);
                assert_eq!(sort_key(a.to_bits()) == sort_key(b.to_bits()), a == b);
            }
        }
    }
}

#[test]
fn test_sort() {
    let mut t1 = vec![at(1, 1.0), at(1, 0.5), at(1, 3.2)];
    sort_by_position(&mut t1);

    let expected_sort = vec![0.5, 1.0, 3.2];
    let actual_sort: Vec<f64> = t1.iter().map(|circle| f64::from_bits(circle.position_x)).collect();

    assert_eq!(expected_sort, actual_sort);
}

#[test]
fn sort_of_nothing_and_of_one() {
    let mut none: Vec<Particle> = vec![];
    sort_by_position(&mut none);
    assert!(none.is_empty());
    let mut one = vec![at(7, 2.0)];
    sort_by_position(&mut one);
    assert_eq!(one.len(), 1);
    assert_eq!(one[0].id, 7);
}

#[test]
fn sort_keeps_equal_positions_in_their_order() {
    let mut particles = vec![
        at(1, 2.0),
        at(2, 1.0),
        at(3, 2.0),
        at(4, 1.0),
        at(5, 0.0),
        at(6, -0.0),
        at(7, 2.0),
        at(8, 0.0),
    ];
    sort_by_position(&mut particles);
    let ids: Vec<u64> = particles.iter().map(|p| p.id).collect();
    assert_eq!(ids, vec![5, 6, 8, 2, 4, 1, 3, 7]);
}

#[test]
fn sort_puts_nan_last() {
    let mut particles = vec![
        at(1, f64::NAN),
        at(2, f64::INFINITY),
        at(3, -5.0),
        at(4, f64::NEG_INFINITY),
        at(5, -f64::NAN),
        at(6, 5.0),
    ];
    sort_by_position(&mut particles);
    let ids: Vec<u64> = particles.iter().map(|p| p.id).collect();
    assert_eq!(ids, vec![4, 3, 6, 2, 1, 5]);
}

#[test]
fn sort_agrees_with_a_stable_sort_by_ordered_float() {
    let values = samples();
    let mut particles: Vec<Particle> = Vec::new();
    let mut id: u64 = 0;
    for &x in &values {
        particles.push(at(id, x));
        particles.push(at(1000 + id, x));
        id += 1;
    }
    let mut expected = particles.clone();
    expected.sort_by_key(|particle| OrderedFloat(f64::from_bits(particle.position_x)));
    sort_by_position(&mut particles);
    let ids: Vec<u64> = particles.iter().map(|p| p.id).collect();
    let expected_ids: Vec<u64> = expected.iter().map(|p| p.id).collect();
    assert_eq!(ids, expected_ids);
    for (a, b) in particles.iter().zip(expected.iter()) {
        assert_eq!(a.position_x, b.position_x);
        assert_eq!(a.radius, b.radius);
        assert_eq!(a.mass, b.mass);
    }
}
