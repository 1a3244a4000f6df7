use particle_simulator::particle::{
    Arithmetic, Flight, MathVec, Particle, Spacing, Span, Start,
};
use std::cell::Cell;

fn square(radius: u64) -> u64 {
    (f64::from_bits(radius) * f64::from_bits(radius)).to_bits()
}

fn nowhere(particle: Particle, _: u64) -> Flight {
    Flight {
        position_x: particle.position_x,
        position_y: particle.position_y,
        left: particle.position_x,
        right: particle.position_x,
        bottom: particle.position_y,
        top: particle.position_y,
    }
}

fn apart(_: Particle, _: Particle) -> Span {
    Span { end_of_first: 0, start_of_second: 0, gap: 0 }
}

fn far(_: Particle, _: Particle) -> Spacing {
    Spacing { distance: 1.0f64.to_bits(), reach: 0 }
}

fn still(_: Particle, _: Particle) -> u64 {
    0
}

fn unchanged(a: Particle, b: Particle) -> (MathVec, MathVec) {
    (MathVec(a.velocity_x, a.velocity_y), MathVec(b.velocity_x, b.velocity_y))
}

fn plain() -> Arithmetic<
    fn(u64) -> u64,
    fn(Particle, u64) -> Flight,
    fn(Particle, Particle) -> Span,
    fn(Particle, Particle) -> Spacing,
    fn(Particle, Particle) -> u64,
    fn(Particle, Particle) -> (MathVec, MathVec),
> {
    Arithmetic { area: square, fly: nowhere, span: apart, measure: far, parting: still, rebound: unchanged }
}

fn fixed() -> Start {
    Start {
        radius: 3.0f64.to_bits(),
        position_x: 2.0f64.to_bits(),
        position_y: 3.0f64.to_bits(),
        velocity_x: 4.0f64.to_bits(),
        velocity_y: 5.0f64.to_bits(),
    }
}

#[test]
fn factory_makes_as_many_as_asked() {
    for count in [0usize, 1, 2, 20, 52] {
        let particles = Particle::particle_factory(count, &plain(), &fixed);
        assert_eq!(particles.len(), count);
        for particle in &particles {
            assert_eq!(f64::from_bits(particle.radius), 3.0);
            assert_eq!(f64::from_bits(particle.mass), 9.0);
            assert_eq!(f64::from_bits(particle.position_x), 2.0);
            assert_eq!(f64::from_bits(particle.position_y), 3.0);
            assert_eq!(f64::from_bits(particle.velocity_x), 4.0);
            assert_eq!(f64::from_bits(particle.velocity_y), 5.0);
        }
    }
}

#[test]
fn factory_draws_for_each_particle_anew() {
    let drawn: Cell<u64> = Cell::new(0);
    let counting = || {
        drawn.set(drawn.get() + 1);
        Start { radius: (drawn.get() as f64).to_bits(), ..fixed() }
    };
    let particles = Particle::particle_factory(30, &plain(), &counting);
    assert_eq!(drawn.get(), 30);
    for (k, particle) in particles.iter().enumerate() {
        let radius = (k + 1) as f64;
        assert_eq!(f64::from_bits(particle.radius), radius);
        assert_eq!(f64::from_bits(particle.mass), radius * radius);
    }
}

#[test]
fn random_ids_differ() {
    // Thirty draws from 64 bits: a repeat would mean that nothing is drawn at all.
    let particles = Particle::particle_factory(30, &plain(), &fixed);
    let mut ids: Vec<u64> = particles.iter().map(|p| p.id).collect();
    ids.sort();
    ids.dedup();
    assert_eq!(ids.len(), 30);
}

#[test]
fn new_random_starts_with_what_was_drawn() {
    let particle = Particle::new_random(&plain(), &fixed);
    assert_eq!(f64::from_bits(particle.radius), 3.0);
    assert_eq!(f64::from_bits(particle.mass), 9.0);
    assert_eq!(f64::from_bits(particle.position_y), 3.0);
    let other = Particle::new_random(&plain(), &fixed);
    assert_ne!(particle.id, other.id);
}
