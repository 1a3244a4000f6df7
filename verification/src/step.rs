//! One tick of the simulation: every particle flies, then the collisions
//! among them are detected and resolved.

use crate::particle::{Arithmetic, Flight, MathVec, Particle, Spacing, Span};
use crate::sorting::{in_position_order, is_permutation, same_bodies};
use crate::sweep_prune::detect_and_apply_collisions;
use vstd::prelude::*;

verus! {

impl<
    A: Fn(u64) -> u64,
    F: Fn(Particle, u64) -> Flight,
    S: Fn(Particle, Particle) -> Span,
    M: Fn(Particle, Particle) -> Spacing,
    P: Fn(Particle, Particle) -> u64,
    B: Fn(Particle, Particle) -> (MathVec, MathVec),
> Arithmetic<A, F, S, M, P, B> {
    /// `after` holds the particles of `before`, each in its place, after
    /// each has flown for the time `dt` and has been turned round at the
    /// walls that it met.
    pub open spec fn all_fly(&self, dt: u64, before: Seq<Particle>, after: Seq<Particle>) -> bool {
        &&& after.len() == before.len()
        &&& forall|k: int| 0 <= k < before.len() ==> self.flies(dt, before[k], #[trigger] after[k])
    }

    /// What [`step`] makes of `before` in a tick of length `dt`: every
    /// particle has flown, and then the collisions among them were detected
    /// and resolved.
    pub open spec fn is_step(&self, dt: u64, before: Seq<Particle>, after: Seq<Particle>) -> bool {
        exists|moved: Seq<Particle>|
            #[trigger] self.all_fly(dt, before, moved) && self.is_detection(moved, after)
    }

    /// A tick neither adds nor removes a particle, and it leaves id, radius
    /// and mass of every particle as they were; it leaves the particles
    /// sorted from left to right.
    pub proof fn law_step_keeps_bodies(&self, dt: u64, before: Seq<Particle>, after: Seq<Particle>)
        requires
            self.is_step(dt, before, after),
        ensures
            same_bodies(before, after),
            in_position_order(after),
    {
        let moved = choose|moved: Seq<Particle>|
            #[trigger] self.all_fly(dt, before, moved) && self.is_detection(moved, after);
        self.law_detection_keeps_particles(moved, after);
        let perm = choose|perm: Seq<int>|
            {
                &&& perm.len() == moved.len()
                &&& after.len() == moved.len()
                &&& is_permutation(perm)
                &&& forall|k: int|
                    0 <= k < after.len() ==> (#[trigger] after[k]).same_body_and_place(
                        moved[perm[k]],
                    )
            };
        assert forall|k: int| 0 <= k < after.len() implies (#[trigger] after[k]).same_body(
            before[perm[k]],
        ) by {
            assert(after[k].same_body_and_place(moved[perm[k]]));
            assert(self.flies(dt, before[perm[k]], moved[perm[k]]));
        }
    }

    /// A mass that is the area of its disc before a tick is so after it:
    /// the tick leaves radius and mass of every particle as they were.
    pub proof fn law_mass_stays_the_area(&self, before: Seq<Particle>, after: Seq<Particle>)
        requires
            same_bodies(before, after),
            forall|k: int|
                0 <= k < before.len() ==> self.weighs(
                    (#[trigger] before[k]).radius,
                    before[k].mass,
                ),
        ensures
            forall|k: int|
                0 <= k < after.len() ==> self.weighs((#[trigger] after[k]).radius, after[k].mass),
    {
        let perm = choose|perm: Seq<int>|
            {
                &&& perm.len() == before.len()
                &&& after.len() == before.len()
                &&& is_permutation(perm)
                &&& forall|k: int|
                    0 <= k < after.len() ==> (#[trigger] after[k]).same_body(before[perm[k]])
            };
        assert forall|k: int| 0 <= k < after.len() implies self.weighs(
            (#[trigger] after[k]).radius,
            after[k].mass,
        ) by {
            assert(after[k].same_body(before[perm[k]]));
            assert(self.weighs(before[perm[k]].radius, before[perm[k]].mass));
        }
    }

    /// A tick is a function of the particles and the time: with an
    /// arithmetic whose results the arguments decide, it has one outcome and
    /// no other.
    pub proof fn law_step_has_one_outcome(
        &self,
        dt: u64,
        before: Seq<Particle>,
        first: Seq<Particle>,
        second: Seq<Particle>,
    )
        requires
            self.is_decided(),
            self.is_step(dt, before, first),
            self.is_step(dt, before, second),
        ensures
            first == second,
    {
        let moved_1 = choose|moved: Seq<Particle>|
            #[trigger] self.all_fly(dt, before, moved) && self.is_detection(moved, first);
        let moved_2 = choose|moved: Seq<Particle>|
            #[trigger] self.all_fly(dt, before, moved) && self.is_detection(moved, second);
        assert forall|k: int| 0 <= k < before.len() implies moved_1[k] == moved_2[k] by {
            assert(self.flies(dt, before[k], moved_1[k]));
            assert(self.flies(dt, before[k], moved_2[k]));
        }
        assert(moved_1 =~= moved_2);
        self.law_detection_has_one_outcome(moved_1, first, second);
    }
}

/// Lets every particle fly for the time `dt` and turns it round at the
/// walls that it meets.
pub fn update_all<
    A: Fn(u64) -> u64,
    F: Fn(Particle, u64) -> Flight,
    S: Fn(Particle, Particle) -> Span,
    M: Fn(Particle, Particle) -> Spacing,
    P: Fn(Particle, Particle) -> u64,
    B: Fn(Particle, Particle) -> (MathVec, MathVec),
>(particles: &mut [Particle], dt: u64, arithmetic: &Arithmetic<A, F, S, M, P, B>)
    requires
        arithmetic.is_total(),
    ensures
        arithmetic.all_fly(dt, old(particles)@, final(particles)@),
{
    let ghost before = particles@;
    let n: usize = particles.len();
    let mut k: usize = 0;
    while k < n
        invariant
            k <= n,
            n == before.len(),
            n == particles@.len(),
            arithmetic.is_total(),
            forall|m: int| 0 <= m < k ==> arithmetic.flies(dt, before[m], #[trigger] particles@[m]),
            forall|m: int| k <= m < n ==> particles@[m] == before[m],
        decreases n - k,
    {
        let mut particle: Particle = particles[k];
        particle.update(dt, arithmetic);
        let ghost earlier = particles@;
        particles[k] = particle;
        proof {
            assert forall|m: int| 0 <= m < k + 1 implies arithmetic.flies(
                dt,
                before[m],
                #[trigger] particles@[m],
            ) by {
                if m < k {
                    assert(particles@[m] == earlier[m]);
                }
            }
        }
        k += 1;
    }
}

/// Advances the simulation by one tick of length `dt`: every particle
/// flies for that time and is turned round at the walls, then the particles
/// are sorted by x, the colliding pairs are found, and the particles of each
/// pair get their velocities after the collision.
///
/// A tick neither adds nor removes a particle, and it leaves id, radius
/// and mass of every particle as they were.
pub fn step<
    A: Fn(u64) -> u64,
    F: Fn(Particle, u64) -> Flight,
    S: Fn(Particle, Particle) -> Span,
    M: Fn(Particle, Particle) -> Spacing,
    P: Fn(Particle, Particle) -> u64,
    B: Fn(Particle, Particle) -> (MathVec, MathVec),
>(particles: &mut [Particle], dt: u64, arithmetic: &Arithmetic<A, F, S, M, P, B>)
    requires
        arithmetic.is_total(),
    ensures
        arithmetic.is_step(dt, old(particles)@, final(particles)@),
        same_bodies(old(particles)@, final(particles)@),
        in_position_order(final(particles)@),
{
    let ghost before = particles@;
    update_all(particles, dt, arithmetic);
    let ghost moved = particles@;
    detect_and_apply_collisions(particles, arithmetic);
    proof {
        assert(arithmetic.all_fly(dt, before, moved));
        arithmetic.law_step_keeps_bodies(dt, before, particles@);
    }
}

} // verus!
