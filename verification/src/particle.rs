//! Particles, the box that they live in, and what one particle or a pair
//! of them does in a tick: fly and bounce off a wall, overlap, and react to
//! a collision.
//!
//! The arithmetic on real numbers is not done here. It is handed in as an
//! [`Arithmetic`]: a handful of functions that compute, and decide nothing.
//! What is decided from their results (a particle turns round at a wall, two
//! discs overlap, a pair is left to part) is decided here, by comparisons.

use crate::scalar::{at_most, is_at_most, is_less, less_than, negated, opposite, ZERO};
use vstd::prelude::*;

verus! {

/// The width of the box: 1000.
pub const WIDTH: u64 = 0x408F_4000_0000_0000;

/// The height of the box: 1000.
pub const HEIGHT: u64 = 0x408F_4000_0000_0000;

/// No particle has a greater radius than this: 50.
pub const RADIUS_UPPER_BOUND: u64 = 0x4049_0000_0000_0000;

/// A vector in the plane, by its two components: a velocity, or a position.
#[derive(Clone, Copy, Debug)]
pub struct MathVec(pub u64, pub u64);

/// A disc in the box.
///
/// `id` tells the particles apart, whatever their place in a sequence. The
/// mass belongs to the radius (it is the area of the disc): the two are set
/// together when a particle is made and never afterwards.
#[derive(Clone, Copy, Debug)]
pub struct Particle {
    pub id: u64,
    pub radius: u64,
    pub mass: u64,
    pub position_x: u64,
    pub position_y: u64,
    pub velocity_x: u64,
    pub velocity_y: u64,
}

/// Where a particle is after a free flight: its centre, and how far its
/// disc reaches there to the left, to the right, down and up.
#[derive(Clone, Copy, Debug)]
pub struct Flight {
    pub position_x: u64,
    pub position_y: u64,
    pub left: u64,
    pub right: u64,
    pub bottom: u64,
    pub top: u64,
}

/// How two discs lie to each other along x: where the first ends on the
/// right, where the second starts on the left, and the gap from the one to
/// the other (the start less the end).
#[derive(Clone, Copy, Debug)]
pub struct Span {
    pub end_of_first: u64,
    pub start_of_second: u64,
    pub gap: u64,
}

/// How two discs lie to each other in the plane: the distance of their
/// centres, and the sum of their radii.
#[derive(Clone, Copy, Debug)]
pub struct Spacing {
    pub distance: u64,
    pub reach: u64,
}

/// What a new particle starts with, but for its id and its mass.
#[derive(Clone, Copy, Debug)]
pub struct Start {
    pub radius: u64,
    pub position_x: u64,
    pub position_y: u64,
    pub velocity_x: u64,
    pub velocity_y: u64,
}

/// The arithmetic on real numbers that the simulation rests on.
///
/// Each field is a function that computes numbers from the numbers of one
/// particle or of two. None of them decides anything.
pub struct Arithmetic<A, F, S, M, P, B> {
    /// The mass of a disc of the given radius: its area, pi times the square
    /// of the radius.
    pub area: A,
    /// Where the particle is after it has flown for the given time at its
    /// velocity: the centre is the position plus the time times the
    /// velocity, and the disc reaches from the centre less the radius to the
    /// centre plus the radius, along x and along y.
    pub fly: F,
    /// The extents along x of two discs: the position of the first plus its
    /// radius, the position of the second less its radius, and the second of
    /// these numbers less the first.
    pub span: S,
    /// The distance of the centres of two discs, and the sum of their radii.
    pub measure: M,
    /// By how much the distance of the centres of two particles grows in a
    /// millionth of a unit of time, at their velocities.
    pub parting: P,
    /// The velocities of two particles after their elastic collision, for
    /// the first and for the second.
    pub rebound: B,
}

/// The velocity `velocity` of a particle whose disc reaches from `low` to
/// `high` along one axis, after the walls at zero and at `wall` have had
/// their say: the particle turns round if it has reached or crossed a wall
/// and is moving into it. One that is on its way back is let go.
pub open spec fn bounced(velocity: u64, low: u64, high: u64, wall: u64) -> u64 {
    if (is_at_most(wall, high) && is_less(ZERO, velocity)) || (is_at_most(low, ZERO) && is_less(
        velocity,
        ZERO,
    )) {
        opposite(velocity)
    } else {
        velocity
    }
}

/// A particle whose disc lies strictly inside the box along an axis keeps
/// its velocity along that axis.
pub proof fn law_no_turn_inside_the_box(velocity: u64, low: u64, high: u64, wall: u64)
    requires
        is_less(ZERO, low),
        is_less(high, wall),
    ensures
        bounced(velocity, low, high, wall) == velocity,
{
}

/// A particle that turns round at a wall moves away from that wall
/// afterwards, as fast as it came.
pub proof fn law_turn_leads_back(velocity: u64, low: u64, high: u64, wall: u64)
    requires
        bounced(velocity, low, high, wall) != velocity,
    ensures
        bounced(velocity, low, high, wall) == opposite(velocity),
        is_less(ZERO, velocity) ==> is_at_most(wall, high) && is_less(
            bounced(velocity, low, high, wall),
            ZERO,
        ),
        is_less(velocity, ZERO) ==> is_at_most(low, ZERO) && is_less(
            ZERO,
            bounced(velocity, low, high, wall),
        ),
{
}

/// A particle whose disc lies strictly inside the box after its flight
/// goes on at the velocity that it had.
pub proof fn law_flight_inside_the_box_keeps_velocity(particle: Particle, flight: Flight)
    requires
        is_less(ZERO, flight.left),
        is_less(flight.right, WIDTH),
        is_less(ZERO, flight.bottom),
        is_less(flight.top, HEIGHT),
    ensures
        particle.landed(flight).velocity() == particle.velocity(),
{
}

impl Span {
    /// The extents of the two discs meet: the first ends to the right of
    /// where the second starts.
    pub open spec fn is_meeting(self) -> bool {
        is_less(self.start_of_second, self.end_of_first)
    }

    /// The second disc is out of reach of the first: the gap from the one
    /// to the other is greater than the greatest radius that a particle
    /// has.
    pub open spec fn is_far(self) -> bool {
        is_less(RADIUS_UPPER_BOUND, self.gap)
    }

    /// Whether the extents of the two discs meet.
    pub fn meets(&self) -> (meeting: bool)
        ensures
            meeting == self.is_meeting(),
    {
        less_than(self.start_of_second, self.end_of_first)
    }

    /// Whether the second disc is out of reach of the first.
    pub fn out_of_reach(&self) -> (far: bool)
        ensures
            far == self.is_far(),
    {
        less_than(RADIUS_UPPER_BOUND, self.gap)
    }
}

impl Spacing {
    /// The two discs overlap: their centres are closer than the sum of
    /// their radii. Discs that touch do not overlap.
    pub open spec fn is_overlap(self) -> bool {
        is_less(self.distance, self.reach)
    }

    /// Whether the two discs overlap.
    pub fn overlaps(&self) -> (hit: bool)
        ensures
            hit == self.is_overlap(),
    {
        less_than(self.distance, self.reach)
    }
}

/// Two particles whose distance grows at the rate `rate` are parting: the
/// rate is greater than zero.
pub open spec fn is_parting(rate: u64) -> bool {
    is_less(ZERO, rate)
}

/// Whether two particles whose distance grows at the rate `rate` are
/// parting.
pub fn parts(rate: u64) -> (parting: bool)
    ensures
        parting == is_parting(rate),
{
    less_than(ZERO, rate)
}

/// The velocity `velocity` of a particle whose disc reaches from `low` to
/// `high` along one axis, after the walls at zero and at `wall` have had
/// their say.
pub fn bounce(velocity: u64, low: u64, high: u64, wall: u64) -> (after: u64)
    ensures
        after == bounced(velocity, low, high, wall),
{
    if at_most(wall, high) && less_than(ZERO, velocity) || at_most(low, ZERO) && less_than(
        velocity,
        ZERO,
    ) {
        negated(velocity)
    } else {
        velocity
    }
}

impl Particle {
    /// The velocity of the particle.
    pub open spec fn velocity(self) -> MathVec {
        MathVec(self.velocity_x, self.velocity_y)
    }

    /// This particle, moving at `velocity`.
    pub open spec fn with_velocity(self, velocity: MathVec) -> Particle {
        Particle { velocity_x: velocity.0, velocity_y: velocity.1, ..self }
    }

    /// This particle after the flight `flight`: at the centre of the flight,
    /// and turned round at the walls that its disc has reached there.
    pub open spec fn landed(self, flight: Flight) -> Particle {
        Particle {
            position_x: flight.position_x,
            position_y: flight.position_y,
            velocity_x: bounced(self.velocity_x, flight.left, flight.right, WIDTH),
            velocity_y: bounced(self.velocity_y, flight.bottom, flight.top, HEIGHT),
            ..self
        }
    }

    /// The two particles are one body: same id, radius and mass.
    pub open spec fn same_body(self, other: Particle) -> bool {
        &&& self.id == other.id
        &&& self.radius == other.radius
        &&& self.mass == other.mass
    }

    /// The two particles are one body at one place.
    pub open spec fn same_body_and_place(self, other: Particle) -> bool {
        &&& self.same_body(other)
        &&& self.position_x == other.position_x
        &&& self.position_y == other.position_y
    }

    /// The particle starts with what `start` holds.
    pub open spec fn starts_with(self, start: Start) -> bool {
        &&& self.radius == start.radius
        &&& self.position_x == start.position_x
        &&& self.position_y == start.position_y
        &&& self.velocity_x == start.velocity_x
        &&& self.velocity_y == start.velocity_y
    }
}

impl<
    A: Fn(u64) -> u64,
    F: Fn(Particle, u64) -> Flight,
    S: Fn(Particle, Particle) -> Span,
    M: Fn(Particle, Particle) -> Spacing,
    P: Fn(Particle, Particle) -> u64,
    B: Fn(Particle, Particle) -> (MathVec, MathVec),
> Arithmetic<A, F, S, M, P, B> {
    /// Every function of the arithmetic takes every argument.
    pub open spec fn is_total(&self) -> bool {
        &&& forall|radius: u64| #[trigger] self.area.requires((radius,))
        &&& forall|p: Particle, dt: u64| #[trigger] self.fly.requires((p, dt))
        &&& forall|a: Particle, b: Particle| #[trigger] self.span.requires((a, b))
        &&& forall|a: Particle, b: Particle| #[trigger] self.measure.requires((a, b))
        &&& forall|a: Particle, b: Particle| #[trigger] self.parting.requires((a, b))
        &&& forall|a: Particle, b: Particle| #[trigger] self.rebound.requires((a, b))
    }

    /// The arguments decide what every function of the arithmetic returns.
    pub open spec fn is_decided(&self) -> bool {
        &&& forall|radius: u64, first: u64, second: u64|
            #[trigger] self.area.ensures((radius,), first) && #[trigger] self.area.ensures(
                (radius,),
                second,
            ) ==> first == second
        &&& forall|p: Particle, dt: u64, first: Flight, second: Flight|
            #[trigger] self.fly.ensures((p, dt), first) && #[trigger] self.fly.ensures(
                (p, dt),
                second,
            ) ==> first == second
        &&& forall|a: Particle, b: Particle, first: Span, second: Span|
            #[trigger] self.span.ensures((a, b), first) && #[trigger] self.span.ensures(
                (a, b),
                second,
            ) ==> first == second
        &&& forall|a: Particle, b: Particle, first: Spacing, second: Spacing|
            #[trigger] self.measure.ensures((a, b), first) && #[trigger] self.measure.ensures(
                (a, b),
                second,
            ) ==> first == second
        &&& forall|a: Particle, b: Particle, first: u64, second: u64|
            #[trigger] self.parting.ensures((a, b), first) && #[trigger] self.parting.ensures(
                (a, b),
                second,
            ) ==> first == second
        &&& forall|a: Particle, b: Particle, first: (MathVec, MathVec), second: (MathVec, MathVec)|
            #[trigger] self.rebound.ensures((a, b), first) && #[trigger] self.rebound.ensures(
                (a, b),
                second,
            ) ==> first == second
    }

    /// `mass` is the mass of a disc of radius `radius`.
    pub open spec fn weighs(&self, radius: u64, mass: u64) -> bool {
        self.area.ensures((radius,), mass)
    }

    /// `after` is the particle `before` after a tick of length `dt` by
    /// itself: it has flown for that time, and the walls have turned it
    /// round where it met them.
    pub open spec fn flies(&self, dt: u64, before: Particle, after: Particle) -> bool {
        exists|flight: Flight|
            #[trigger] self.fly.ensures((before, dt), flight) && after == before.landed(flight)
    }

    /// `hit` says whether the discs of `a` and of `b` overlap: whether their
    /// centres are closer than the sum of their radii. Discs that touch do
    /// not overlap.
    pub open spec fn overlap(&self, a: Particle, b: Particle, hit: bool) -> bool {
        exists|spacing: Spacing|
            #[trigger] self.measure.ensures((a, b), spacing) && hit == spacing.is_overlap()
    }

    /// `velocities` are those of `a` and of `b` after the two have met:
    /// their own where the two are parting already, and else those of the
    /// elastic collision.
    pub open spec fn reaction(
        &self,
        a: Particle,
        b: Particle,
        velocities: (MathVec, MathVec),
    ) -> bool {
        exists|rate: u64|
            #[trigger] self.parting.ensures((a, b), rate) && if is_parting(rate) {
                velocities == (a.velocity(), b.velocity())
            } else {
                self.rebound.ensures((a, b), velocities)
            }
    }

    /// A second reaction changes nothing: where two particles have reacted
    /// and have not moved since, they react by keeping their velocities.
    ///
    /// This is asked of the arithmetic: that every rebound leaves the two
    /// parting. In exact arithmetic it does, unless the two do not move
    /// against each other at all; in rounded arithmetic the look ahead of a
    /// millionth of a unit of time may also be too short to show it.
    pub proof fn law_second_reaction_changes_nothing(
        &self,
        a: Particle,
        b: Particle,
        first: (MathVec, MathVec),
        second: (MathVec, MathVec),
    )
        requires
            self.is_decided(),
            self.reaction(a, b, first),
            self.reaction(a.with_velocity(first.0), b.with_velocity(first.1), second),
            forall|x: Particle, y: Particle, after: (MathVec, MathVec), rate: u64|
                #[trigger] self.rebound.ensures((x, y), after) && #[trigger] self.parting.ensures(
                    (x.with_velocity(after.0), y.with_velocity(after.1)),
                    rate,
                ) ==> is_parting(rate),
        ensures
            second == first,
    {
        let rate = choose|rate: u64|
            #[trigger] self.parting.ensures((a, b), rate) && if is_parting(rate) {
                first == (a.velocity(), b.velocity())
            } else {
                self.rebound.ensures((a, b), first)
            };
        let a2 = a.with_velocity(first.0);
        let b2 = b.with_velocity(first.1);
        let again = choose|again: u64|
            #[trigger] self.parting.ensures((a2, b2), again) && if is_parting(again) {
                second == (a2.velocity(), b2.velocity())
            } else {
                self.rebound.ensures((a2, b2), second)
            };
        if is_parting(rate) {
            assert(a2 == a);
            assert(b2 == b);
        }
    }
}

impl Particle {
    /// Makes a particle. Its mass is that of a disc of its radius.
    pub fn new<
        A: Fn(u64) -> u64,
        F: Fn(Particle, u64) -> Flight,
        S: Fn(Particle, Particle) -> Span,
        M: Fn(Particle, Particle) -> Spacing,
        P: Fn(Particle, Particle) -> u64,
        B: Fn(Particle, Particle) -> (MathVec, MathVec),
    >(
        id: u64,
        radius: u64,
        position_x: u64,
        position_y: u64,
        velocity_x: u64,
        velocity_y: u64,
        arithmetic: &Arithmetic<A, F, S, M, P, B>,
    ) -> (particle: Particle)
        requires
            arithmetic.is_total(),
        ensures
            particle == (Particle {
                id,
                radius,
                mass: particle.mass,
                position_x,
                position_y,
                velocity_x,
                velocity_y,
            }),
            arithmetic.weighs(radius, particle.mass),
    {
        // mass is dependent on radius and therefore is not set independently
        let mass: u64 = (arithmetic.area)(radius);
        Particle { id, radius, mass, position_x, position_y, velocity_x, velocity_y }
    }

    /// Makes a particle with an id drawn at random, and with the size, the
    /// place and the velocity that `scatter` draws for it.
    pub fn new_random<
        A: Fn(u64) -> u64,
        F: Fn(Particle, u64) -> Flight,
        S: Fn(Particle, Particle) -> Span,
        M: Fn(Particle, Particle) -> Spacing,
        P: Fn(Particle, Particle) -> u64,
        B: Fn(Particle, Particle) -> (MathVec, MathVec),
        D: Fn() -> Start,
    >(arithmetic: &Arithmetic<A, F, S, M, P, B>, scatter: &D) -> (particle: Particle)
        requires
            arithmetic.is_total(),
            scatter.requires(()),
        ensures
            is_scattered(scatter, particle),
            arithmetic.weighs(particle.radius, particle.mass),
    {
        let start: Start = scatter();
        Particle::new(
            random_id(),
            start.radius,
            start.position_x,
            start.position_y,
            start.velocity_x,
            start.velocity_y,
            arithmetic,
        )
    }

    /// Makes `count` particles, each as [`Particle::new_random`] does.
    pub fn particle_factory<
        A: Fn(u64) -> u64,
        F: Fn(Particle, u64) -> Flight,
        S: Fn(Particle, Particle) -> Span,
        M: Fn(Particle, Particle) -> Spacing,
        P: Fn(Particle, Particle) -> u64,
        B: Fn(Particle, Particle) -> (MathVec, MathVec),
        D: Fn() -> Start,
    >(count: usize, arithmetic: &Arithmetic<A, F, S, M, P, B>, scatter: &D) -> (particles: Vec<
        Particle,
    >)
        requires
            arithmetic.is_total(),
            scatter.requires(()),
        ensures
            particles@.len() == count,
            forall|k: int|
                0 <= k < count ==> is_scattered(scatter, #[trigger] particles@[k])
                    && arithmetic.weighs(particles@[k].radius, particles@[k].mass),
    {
        let mut particles: Vec<Particle> = Vec::new();
        let mut made: usize = 0;
        while made < count
            invariant
                made <= count,
                particles@.len() == made,
                arithmetic.is_total(),
                scatter.requires(()),
                forall|k: int|
                    0 <= k < made ==> is_scattered(scatter, #[trigger] particles@[k])
                        && arithmetic.weighs(particles@[k].radius, particles@[k].mass),
            decreases count - made,
        {
            let particle: Particle = Particle::new_random(arithmetic, scatter);
            particles.push(particle);
            made += 1;
        }
        particles
    }

    /// Lets the particle fly for the time `dt` and turns it round at the
    /// walls of the box.
    ///
    /// The particle is turned in a direction only if its disc has reached
    /// or crossed a wall in that direction and it is moving into that wall.
    /// Its position is not brought back into the box.
    pub fn update<
        A: Fn(u64) -> u64,
        F: Fn(Particle, u64) -> Flight,
        S: Fn(Particle, Particle) -> Span,
        M: Fn(Particle, Particle) -> Spacing,
        P: Fn(Particle, Particle) -> u64,
        B: Fn(Particle, Particle) -> (MathVec, MathVec),
    >(&mut self, dt: u64, arithmetic: &Arithmetic<A, F, S, M, P, B>)
        requires
            arithmetic.is_total(),
        ensures
            arithmetic.flies(dt, *old(self), *final(self)),
    {
        let flight: Flight = (arithmetic.fly)(*self, dt);
        self.land(flight);
    }

    /// Puts the particle where the flight `flight` has taken it, and turns
    /// it round at the walls that its disc has reached there.
    pub fn land(&mut self, flight: Flight)
        ensures
            *final(self) == old(self).landed(flight),
    {
        // First, the position after the flight
        self.position_x = flight.position_x;
        self.position_y = flight.position_y;

        // Second, a particle that has reached a boundary reverses its velocity
        self.velocity_x = bounce(self.velocity_x, flight.left, flight.right, WIDTH);
        self.velocity_y = bounce(self.velocity_y, flight.bottom, flight.top, HEIGHT);
    }

    /// Whether the discs of the two particles overlap: whether the distance
    /// of their centres is less than the sum of their radii.
    pub fn check_pairwise_collision<
        A: Fn(u64) -> u64,
        F: Fn(Particle, u64) -> Flight,
        S: Fn(Particle, Particle) -> Span,
        M: Fn(Particle, Particle) -> Spacing,
        P: Fn(Particle, Particle) -> u64,
        B: Fn(Particle, Particle) -> (MathVec, MathVec),
    >(&self, other: &Particle, arithmetic: &Arithmetic<A, F, S, M, P, B>) -> (hit: bool)
        requires
            arithmetic.is_total(),
        ensures
            arithmetic.overlap(*self, *other, hit),
    {
        let spacing: Spacing = (arithmetic.measure)(*self, *other);
        spacing.overlaps()
    }

    /// The velocities of two particles that have collided, for this one and
    /// for the other.
    ///
    /// Particles that are parting already are left alone: they are in the
    /// act of recoiling, and to turn them again would make them stick. The
    /// others get the velocities of the elastic collision.
    pub fn collision_react<
        A: Fn(u64) -> u64,
        F: Fn(Particle, u64) -> Flight,
        S: Fn(Particle, Particle) -> Span,
        M: Fn(Particle, Particle) -> Spacing,
        P: Fn(Particle, Particle) -> u64,
        B: Fn(Particle, Particle) -> (MathVec, MathVec),
    >(&self, other: &Particle, arithmetic: &Arithmetic<A, F, S, M, P, B>) -> (velocities: (
        MathVec,
        MathVec,
    ))
        requires
            arithmetic.is_total(),
        ensures
            arithmetic.reaction(*self, *other, velocities),
    {
        let rate: u64 = (arithmetic.parting)(*self, *other);
        if parts(rate) {
            return (
                MathVec(self.velocity_x, self.velocity_y),
                MathVec(other.velocity_x, other.velocity_y),
            );
        }
        (arithmetic.rebound)(*self, *other)
    }
}

/// `particle` starts with what `scatter` has drawn for it.
pub open spec fn is_scattered<D: Fn() -> Start>(scatter: &D, particle: Particle) -> bool {
    exists|start: Start| #[trigger] scatter.ensures((), start) && particle.starts_with(start)
}

/// Draws an id with `rand::random`: any `u64` may come back, so nothing is
/// said of it. The generator is the calling thread's, seeded by the system;
/// the call fails only where the system has no randomness to seed it with.
#[verifier::external_body]
fn random_id() -> (id: u64) {
    rand::random::<u64>()
}

} // verus!
