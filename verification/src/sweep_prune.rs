//! Collision detection by sweep and prune, and the write-back of the
//! collision responses.
//!
//! What the arithmetic returns for given particles is known here only
//! through what its functions promise of their results. So the contracts
//! speak of the answers that were given: a pair collides where the extents
//! were found to meet and the discs to overlap, and it is passed by where
//! one of the two was found not to hold.

use crate::particle::{Arithmetic, Flight, MathVec, Particle, Spacing, Span};
use crate::scalar::rank;
use crate::sorting::{
    arranged, in_position_order, law_order_by_position_is_unique,
    law_sorted_particles_are_in_order, same_particles, sort_by_position, sorts_by_position,
};
use vstd::prelude::*;

verus! {

/// The pair `a` is listed before the pair `b`: by the first index, then by
/// the second.
pub open spec fn listed_before(a: (usize, usize), b: (usize, usize)) -> bool {
    a.0 < b.0 || (a.0 == b.0 && a.1 < b.1)
}

/// Every pair of `pairs` names two particles among the first `n`.
pub open spec fn pairs_within(pairs: Seq<(usize, usize)>, n: nat) -> bool {
    forall|k: int| 0 <= k < pairs.len() ==> (#[trigger] pairs[k]).0 < n && pairs[k].1 < n
}

/// The particles of `s` after the collision of one pair, given the
/// velocities after it: the first of the pair moves on with the first
/// velocity, then the second with the second.
pub open spec fn struck(
    s: Seq<Particle>,
    pair: (usize, usize),
    velocities: (MathVec, MathVec),
) -> Seq<Particle> {
    let i = pair.0 as int;
    let j = pair.1 as int;
    s.update(i, s[i].with_velocity(velocities.0)).update(j, s[j].with_velocity(velocities.1))
}

impl<
    A: Fn(u64) -> u64,
    F: Fn(Particle, u64) -> Flight,
    S: Fn(Particle, Particle) -> Span,
    M: Fn(Particle, Particle) -> Spacing,
    P: Fn(Particle, Particle) -> u64,
    B: Fn(Particle, Particle) -> (MathVec, MathVec),
> Arithmetic<A, F, S, M, P, B> {
    /// `answer` says whether the extents along x of the discs of `a` and of
    /// `b` meet: whether the first ends to the right of where the second
    /// starts.
    pub open spec fn extents_meet(&self, a: Particle, b: Particle, answer: bool) -> bool {
        exists|span: Span| #[trigger] self.span.ensures((a, b), span) && answer == span.is_meeting()
    }

    /// `answer` says whether `b` is out of reach of `a`: whether the gap
    /// from the one to the other along x is greater than the greatest
    /// radius that a particle has.
    pub open spec fn out_of_reach(&self, a: Particle, b: Particle, answer: bool) -> bool {
        exists|span: Span| #[trigger] self.span.ensures((a, b), span) && answer == span.is_far()
    }

    /// The walk for the particle at `i` gets as far as the one at `j`: `j`
    /// lies behind `i`, and every particle between them was found within
    /// reach of the one at `i`.
    pub open spec fn reached(&self, s: Seq<Particle>, i: int, j: int) -> bool {
        &&& 0 <= i < j < s.len()
        &&& forall|m: int| i < m < j ==> self.out_of_reach(s[i], #[trigger] s[m], false)
    }

    /// The walk for the particle at `i` ends at the one at `m`: it gets
    /// there, and finds it out of reach.
    pub open spec fn ends_at(&self, s: Seq<Particle>, i: int, m: int) -> bool {
        &&& self.reached(s, i, m)
        &&& self.out_of_reach(s[i], s[m], true)
    }

    /// The walk for the particle at `i` ends before it gets to the one at
    /// `j`.
    pub open spec fn stops_short(&self, s: Seq<Particle>, i: int, j: int) -> bool {
        exists|m: int| i < m < j && #[trigger] self.ends_at(s, i, m)
    }

    /// The sweep lists the pair `i`, `j`: the walk for `i` gets to `j`, the
    /// extents of the two along x meet, and the two overlap.
    pub open spec fn collides(&self, s: Seq<Particle>, i: int, j: int) -> bool {
        &&& self.reached(s, i, j)
        &&& self.extents_meet(s[i], s[j], true)
        &&& self.overlap(s[i], s[j], true)
    }

    /// The sweep looks at the pair `i`, `j` and passes it by: the walk for
    /// `i` gets to `j`, and either the extents of the two do not meet, or
    /// they do and the two do not overlap.
    pub open spec fn passes_by(&self, s: Seq<Particle>, i: int, j: int) -> bool {
        &&& self.reached(s, i, j)
        &&& self.extents_meet(s[i], s[j], false) || (self.extents_meet(s[i], s[j], true)
            && self.overlap(s[i], s[j], false))
    }

    /// `pairs` is what a sweep of `s` lists. Its pairs stand in the order of
    /// [`listed_before`], each of them collides, and every other pair of an
    /// earlier and a later particle was passed by or never looked at,
    /// because the walk of the earlier one had ended.
    pub open spec fn is_sweep(&self, pairs: Seq<(usize, usize)>, s: Seq<Particle>) -> bool {
        &&& forall|k: int, l: int|
            0 <= k < l < pairs.len() ==> listed_before(#[trigger] pairs[k], #[trigger] pairs[l])
        &&& forall|k: int|
            0 <= k < pairs.len() ==> self.collides(
                s,
                (#[trigger] pairs[k]).0 as int,
                pairs[k].1 as int,
            )
        &&& forall|i: usize, j: usize|
            i < j < s.len() ==> #[trigger] pairs.contains((i, j)) || self.passes_by(
                s,
                i as int,
                j as int,
            ) || self.stops_short(s, i as int, j as int)
    }

    /// `after` is `before` after the collision of `pair`: the two particles
    /// of the pair have reacted, and nothing else has changed.
    pub open spec fn strikes(
        &self,
        before: Seq<Particle>,
        pair: (usize, usize),
        after: Seq<Particle>,
    ) -> bool {
        exists|velocities: (MathVec, MathVec)|
            #[trigger] self.reaction(before[pair.0 as int], before[pair.1 as int], velocities)
                && after == struck(before, pair, velocities)
    }

    /// `after` is `before` after the collisions of `pairs`, one pair after
    /// the other in the order of the list: a particle that collides twice
    /// enters its second collision with the velocity that the first one
    /// left it.
    pub open spec fn resolves(
        &self,
        before: Seq<Particle>,
        pairs: Seq<(usize, usize)>,
        after: Seq<Particle>,
    ) -> bool
        decreases pairs.len(),
    {
        if pairs.len() == 0 {
            after == before
        } else {
            exists|between: Seq<Particle>|
                self.resolves(before, pairs.drop_last(), between) && #[trigger] self.strikes(
                    between,
                    pairs.last(),
                    after,
                )
        }
    }

    /// What [`detect_and_apply_collisions`] makes of `before`: the
    /// particles in their order by position, after the collisions that a
    /// sweep of them in that order lists.
    pub open spec fn is_detection(&self, before: Seq<Particle>, after: Seq<Particle>) -> bool {
        exists|perm: Seq<int>, pairs: Seq<(usize, usize)>|
            {
                &&& sorts_by_position(perm, before)
                &&& #[trigger] self.is_sweep(pairs, arranged(before, perm))
                &&& self.resolves(arranged(before, perm), pairs, after)
            }
    }

    /// Where the arithmetic is that of geometry, a sweep lists every pair
    /// that overlaps and no other.
    ///
    /// Two facts of geometry are asked for. Discs whose extents along x do
    /// not meet do not overlap. And behind a partner that is out of reach
    /// of a particle, no particle overlaps it: the particles are sorted, and
    /// no disc is larger than the reach allows for.
    pub proof fn law_sweep_lists_every_overlap(&self, pairs: Seq<(usize, usize)>, s: Seq<Particle>)
        requires
            self.is_sweep(pairs, s),
            forall|i: int, j: int|
                0 <= i < j < s.len() && #[trigger] self.extents_meet(s[i], s[j], false)
                    ==> self.overlap(s[i], s[j], false),
            forall|i: int, m: int, j: int|
                0 <= i < m < j < s.len() && #[trigger] self.out_of_reach(s[i], s[m], true)
                    ==> #[trigger] self.overlap(s[i], s[j], false),
        ensures
            forall|i: usize, j: usize|
                i < j < s.len() ==> if #[trigger] pairs.contains((i, j)) {
                    self.overlap(s[i as int], s[j as int], true)
                } else {
                    self.overlap(s[i as int], s[j as int], false)
                },
    {
        assert forall|i: usize, j: usize| i < j < s.len() implies if #[trigger] pairs.contains(
            (i, j),
        ) {
            self.overlap(s[i as int], s[j as int], true)
        } else {
            self.overlap(s[i as int], s[j as int], false)
        } by {
            if pairs.contains((i, j)) {
                let k = choose|k: int| 0 <= k < pairs.len() && pairs[k] == (i, j);
                assert(self.collides(s, pairs[k].0 as int, pairs[k].1 as int));
            } else if self.stops_short(s, i as int, j as int) {
                let m = choose|m: int| i < m < j && #[trigger] self.ends_at(s, i as int, m);
                assert(self.out_of_reach(s[i as int], s[m], true));
            }
        }
    }

    /// One function of the arithmetic gives both answers on the extents of
    /// a pair, so what decides the one decides the other; and the like for
    /// the overlap.
    proof fn lemma_answers_are_decided(&self, a: Particle, b: Particle)
        requires
            self.is_decided(),
        ensures
            !(self.extents_meet(a, b, true) && self.extents_meet(a, b, false)),
            !(self.out_of_reach(a, b, true) && self.out_of_reach(a, b, false)),
            !(self.overlap(a, b, true) && self.overlap(a, b, false)),
    {
    }

    /// With an arithmetic whose results the arguments decide, a sweep of
    /// given particles lists one sequence of pairs and no other.
    pub proof fn law_sweep_is_unique(
        &self,
        first: Seq<(usize, usize)>,
        second: Seq<(usize, usize)>,
        s: Seq<Particle>,
    )
        requires
            self.is_decided(),
            self.is_sweep(first, s),
            self.is_sweep(second, s),
        ensures
            first == second,
    {
        let shorter = if first.len() <= second.len() {
            first.len() as int
        } else {
            second.len() as int
        };
        self.lemma_sweeps_agree(first, second, s, shorter);
        if first.len() > shorter {
            self.lemma_sweep_holds_its_pairs(first, second, s, shorter);
            let m = choose|m: int| 0 <= m < second.len() && second[m] == first[shorter];
            assert(listed_before(first[m], first[shorter]));
        }
        if second.len() > shorter {
            self.lemma_sweep_holds_its_pairs(second, first, s, shorter);
            let m = choose|m: int| 0 <= m < first.len() && first[m] == second[shorter];
            assert(listed_before(second[m], second[shorter]));
        }
        assert(first =~= second);
    }

    /// What one sweep lists at place `k`, another sweep of the same
    /// particles lists somewhere.
    proof fn lemma_sweep_holds_its_pairs(
        &self,
        first: Seq<(usize, usize)>,
        second: Seq<(usize, usize)>,
        s: Seq<Particle>,
        k: int,
    )
        requires
            self.is_decided(),
            self.is_sweep(first, s),
            self.is_sweep(second, s),
            0 <= k < first.len(),
        ensures
            second.contains(first[k]),
    {
        let pair = first[k];
        let i = pair.0;
        let j = pair.1;
        assert(self.collides(s, i as int, j as int));
        assert(second.contains((i, j)) || self.passes_by(s, i as int, j as int)
            || self.stops_short(s, i as int, j as int));
        self.lemma_answers_are_decided(s[i as int], s[j as int]);
        if self.stops_short(s, i as int, j as int) {
            let m = choose|m: int| i < m < j && #[trigger] self.ends_at(s, i as int, m);
            self.lemma_answers_are_decided(s[i as int], s[m]);
            assert(self.out_of_reach(s[i as int], s[m], true));
            assert(self.out_of_reach(s[i as int], s[m], false));
        }
    }

    /// Two sweeps of the same particles agree on their first `k` places.
    proof fn lemma_sweeps_agree(
        &self,
        first: Seq<(usize, usize)>,
        second: Seq<(usize, usize)>,
        s: Seq<Particle>,
        k: int,
    )
        requires
            self.is_decided(),
            self.is_sweep(first, s),
            self.is_sweep(second, s),
            0 <= k <= first.len(),
            k <= second.len(),
        ensures
            forall|m: int| 0 <= m < k ==> first[m] == second[m],
        decreases k,
    {
        if k > 0 {
            self.lemma_sweeps_agree(first, second, s, k - 1);
            let here = k - 1;
            if first[here] != second[here] {
                self.lemma_sweep_holds_its_pairs(second, first, s, here);
                let m = choose|m: int| 0 <= m < first.len() && first[m] == second[here];
                self.lemma_sweep_holds_its_pairs(first, second, s, here);
                let l = choose|l: int| 0 <= l < second.len() && second[l] == first[here];
                if m < here {
                    assert(second[m] == first[m]);
                    assert(listed_before(second[m], second[here]));
                } else if l < here {
                    assert(first[l] == second[l]);
                    assert(listed_before(first[l], first[here]));
                } else {
                    assert(listed_before(first[here], first[m]));
                    assert(listed_before(second[here], second[l]));
                }
            }
        }
    }

    /// Collision responses change velocities and nothing else: after the
    /// collisions of `pairs` every particle stands where it stood, with its
    /// id, radius and mass, and a particle that no pair names is as it was.
    pub proof fn law_responses_change_velocities_only(
        &self,
        before: Seq<Particle>,
        pairs: Seq<(usize, usize)>,
        after: Seq<Particle>,
    )
        requires
            pairs_within(pairs, before.len()),
            self.resolves(before, pairs, after),
        ensures
            after.len() == before.len(),
            forall|k: int|
                0 <= k < before.len() ==> (#[trigger] after[k]).same_body_and_place(before[k]),
            forall|k: int|
                0 <= k < before.len() && (forall|turn: int|
                    0 <= turn < pairs.len() ==> (#[trigger] pairs[turn]).0 != k && pairs[turn].1
                        != k) ==> #[trigger] after[k] == before[k],
        decreases pairs.len(),
    {
        if pairs.len() > 0 {
            let earlier = pairs.drop_last();
            let between = choose|between: Seq<Particle>|
                self.resolves(before, earlier, between) && #[trigger] self.strikes(
                    between,
                    pairs.last(),
                    after,
                );
            assert(pairs_within(earlier, before.len())) by {
                assert forall|k: int| 0 <= k < earlier.len() implies (#[trigger] earlier[k]).0
                    < before.len() && earlier[k].1 < before.len() by {
                    assert(earlier[k] == pairs[k]);
                }
            }
            self.law_responses_change_velocities_only(before, earlier, between);
            let last = pairs.last();
            assert(last == pairs[pairs.len() - 1]);
            assert forall|k: int|
                0 <= k < before.len() && (forall|turn: int|
                    0 <= turn < pairs.len() ==> (#[trigger] pairs[turn]).0 != k && pairs[turn].1
                        != k) implies #[trigger] after[k] == before[k] by {
                assert forall|turn: int| 0 <= turn < earlier.len() implies (
                #[trigger] earlier[turn]).0 != k && earlier[turn].1 != k by {
                    assert(earlier[turn] == pairs[turn]);
                }
                assert(between[k] == before[k]);
            }
        }
    }

    /// With an arithmetic whose results the arguments decide, a pair of
    /// particles reacts in one way and no other.
    pub proof fn law_reaction_is_unique(
        &self,
        a: Particle,
        b: Particle,
        first: (MathVec, MathVec),
        second: (MathVec, MathVec),
    )
        requires
            self.is_decided(),
            self.reaction(a, b, first),
            self.reaction(a, b, second),
        ensures
            first == second,
    {
    }

    /// With an arithmetic whose results the arguments decide, the
    /// collisions of given pairs among given particles have one outcome and
    /// no other.
    pub proof fn law_responses_have_one_outcome(
        &self,
        before: Seq<Particle>,
        pairs: Seq<(usize, usize)>,
        first: Seq<Particle>,
        second: Seq<Particle>,
    )
        requires
            self.is_decided(),
            self.resolves(before, pairs, first),
            self.resolves(before, pairs, second),
        ensures
            first == second,
        decreases pairs.len(),
    {
        if pairs.len() > 0 {
            let earlier = pairs.drop_last();
            let pair = pairs.last();
            let one = choose|between: Seq<Particle>|
                self.resolves(before, earlier, between) && #[trigger] self.strikes(
                    between,
                    pair,
                    first,
                );
            let other = choose|between: Seq<Particle>|
                self.resolves(before, earlier, between) && #[trigger] self.strikes(
                    between,
                    pair,
                    second,
                );
            self.law_responses_have_one_outcome(before, earlier, one, other);
            let v1 = choose|velocities: (MathVec, MathVec)|
                #[trigger] self.reaction(one[pair.0 as int], one[pair.1 as int], velocities)
                    && first == struck(one, pair, velocities);
            let v2 = choose|velocities: (MathVec, MathVec)|
                #[trigger] self.reaction(one[pair.0 as int], one[pair.1 as int], velocities)
                    && second == struck(one, pair, velocities);
            self.law_reaction_is_unique(one[pair.0 as int], one[pair.1 as int], v1, v2);
        }
    }

    /// Detection neither adds nor removes a particle and moves none: what
    /// comes out are the particles that went in, from left to right, and at
    /// most their velocities have changed.
    pub proof fn law_detection_keeps_particles(&self, before: Seq<Particle>, after: Seq<Particle>)
        requires
            self.is_detection(before, after),
        ensures
            same_particles(before, after),
            in_position_order(after),
    {
        let (perm, pairs) = choose|perm: Seq<int>, pairs: Seq<(usize, usize)>|
            {
                &&& sorts_by_position(perm, before)
                &&& #[trigger] self.is_sweep(pairs, arranged(before, perm))
                &&& self.resolves(arranged(before, perm), pairs, after)
            };
        let sorted = arranged(before, perm);
        assert(pairs_within(pairs, sorted.len())) by {
            assert forall|k: int| 0 <= k < pairs.len() implies (#[trigger] pairs[k]).0
                < sorted.len() && pairs[k].1 < sorted.len() by {
                assert(self.collides(sorted, pairs[k].0 as int, pairs[k].1 as int));
            }
        }
        self.law_responses_change_velocities_only(sorted, pairs, after);
        law_sorted_particles_are_in_order(perm, before);
        assert forall|k: int| 0 <= k < after.len() implies (
        #[trigger] after[k]).same_body_and_place(before[perm[k]]) by {
            assert(after[k].same_body_and_place(sorted[k]));
        }
        assert forall|k: int, l: int| 0 <= k < l < after.len() implies rank(after[k].position_x)
            <= rank(after[l].position_x) by {
            assert(after[k].same_body_and_place(sorted[k]));
            assert(after[l].same_body_and_place(sorted[l]));
        }
    }

    /// With an arithmetic whose results the arguments decide, detection has
    /// one outcome and no other.
    pub proof fn law_detection_has_one_outcome(
        &self,
        before: Seq<Particle>,
        first: Seq<Particle>,
        second: Seq<Particle>,
    )
        requires
            self.is_decided(),
            self.is_detection(before, first),
            self.is_detection(before, second),
        ensures
            first == second,
    {
        let (perm_1, pairs_1) = choose|perm: Seq<int>, pairs: Seq<(usize, usize)>|
            {
                &&& sorts_by_position(perm, before)
                &&& #[trigger] self.is_sweep(pairs, arranged(before, perm))
                &&& self.resolves(arranged(before, perm), pairs, first)
            };
        let (perm_2, pairs_2) = choose|perm: Seq<int>, pairs: Seq<(usize, usize)>|
            {
                &&& sorts_by_position(perm, before)
                &&& #[trigger] self.is_sweep(pairs, arranged(before, perm))
                &&& self.resolves(arranged(before, perm), pairs, second)
            };
        law_order_by_position_is_unique(perm_1, perm_2, before);
        let sorted = arranged(before, perm_1);
        self.law_sweep_is_unique(pairs_1, pairs_2, sorted);
        self.law_responses_have_one_outcome(sorted, pairs_1, first, second);
    }
}

/// Lists the colliding pairs among particles that are sorted by x.
///
/// For each particle, from the first on, the sweep walks the particles
/// behind it. A pair is listed if the extents of the two along x meet and
/// their discs overlap (the overlap is looked at only where the extents
/// meet). The walk for one particle ends behind the first partner that is
/// out of its reach: among sorted particles no later one can touch it.
///
/// Each pair holds the index of the earlier particle, then that of the
/// later one.
pub fn sweep_and_prune<
    A: Fn(u64) -> u64,
    F: Fn(Particle, u64) -> Flight,
    S: Fn(Particle, Particle) -> Span,
    M: Fn(Particle, Particle) -> Spacing,
    P: Fn(Particle, Particle) -> u64,
    B: Fn(Particle, Particle) -> (MathVec, MathVec),
>(particles: &[Particle], arithmetic: &Arithmetic<A, F, S, M, P, B>) -> (pairs: Vec<
    (usize, usize),
>)
    requires
        arithmetic.is_total(),
    ensures
        arithmetic.is_sweep(pairs@, particles@),
        forall|k: int|
            0 <= k < pairs@.len() ==> (#[trigger] pairs@[k]).0 < pairs@[k].1 < particles@.len(),
{
    let n: usize = particles.len();
    let ghost s = particles@;
    let mut pairs: Vec<(usize, usize)> = Vec::new();
    let mut outer: usize = 0;
    while outer < n
        invariant
            outer <= n,
            n == s.len(),
            s == particles@,
            arithmetic.is_total(),
            forall|k: int, l: int|
                0 <= k < l < pairs@.len() ==> listed_before(
                    #[trigger] pairs@[k],
                    #[trigger] pairs@[l],
                ),
            forall|k: int|
                0 <= k < pairs@.len() ==> (#[trigger] pairs@[k]).0 < outer && arithmetic.collides(
                    s,
                    pairs@[k].0 as int,
                    pairs@[k].1 as int,
                ),
            forall|i: usize, j: usize|
                i < outer && i < j < n ==> #[trigger] pairs@.contains((i, j))
                    || arithmetic.passes_by(s, i as int, j as int) || arithmetic.stops_short(
                    s,
                    i as int,
                    j as int,
                ),
        decreases n - outer,
    {
        let mut inner: usize = outer + 1;
        while inner < n
            invariant_except_break
                forall|k: int, l: int|
                    0 <= k < l < pairs@.len() ==> listed_before(
                        #[trigger] pairs@[k],
                        #[trigger] pairs@[l],
                    ),
                forall|k: int|
                    0 <= k < pairs@.len() ==> listed_before(
                        #[trigger] pairs@[k],
                        (outer, inner),
                    ) && arithmetic.collides(s, pairs@[k].0 as int, pairs@[k].1 as int),
                forall|i: usize, j: usize|
                    i < outer && i < j < n ==> #[trigger] pairs@.contains((i, j))
                        || arithmetic.passes_by(s, i as int, j as int) || arithmetic.stops_short(
                        s,
                        i as int,
                        j as int,
                    ),
                forall|j: usize|
                    outer < j < inner ==> #[trigger] pairs@.contains((outer, j))
                        || arithmetic.passes_by(s, outer as int, j as int),
                forall|m: int|
                    outer < m < inner ==> arithmetic.out_of_reach(
                        s[outer as int],
                        #[trigger] s[m],
                        false,
                    ),
            invariant
                outer < inner <= n,
                n == s.len(),
                s == particles@,
                arithmetic.is_total(),
            ensures
                outer < n,
                forall|k: int, l: int|
                    0 <= k < l < pairs@.len() ==> listed_before(
                        #[trigger] pairs@[k],
                        #[trigger] pairs@[l],
                    ),
                forall|k: int|
                    0 <= k < pairs@.len() ==> (#[trigger] pairs@[k]).0 <= outer
                        && arithmetic.collides(s, pairs@[k].0 as int, pairs@[k].1 as int),
                forall|i: usize, j: usize|
                    i <= outer && i < j < n ==> #[trigger] pairs@.contains((i, j))
                        || arithmetic.passes_by(s, i as int, j as int) || arithmetic.stops_short(
                        s,
                        i as int,
                        j as int,
                    ),
            decreases n - inner,
        {
            let particle_1: Particle = particles[outer];
            let particle_2: Particle = particles[inner];
            let ghost listed = pairs@;
            assert(arithmetic.reached(s, outer as int, inner as int));
            let span: Span = (arithmetic.span)(particle_1, particle_2);
            // If the two particles overlap on the x axis, there may be a collision
            let meet: bool = span.meets();
            assert(arithmetic.extents_meet(particle_1, particle_2, meet));
            if meet && particle_1.check_pairwise_collision(&particle_2, arithmetic) {
                pairs.push((outer, inner));
                assert(pairs@[listed.len() as int] == (outer, inner));
            } else {
                assert(arithmetic.passes_by(s, outer as int, inner as int));
            }
            proof {
                assert forall|i: usize, j: usize| i < outer && i < j < n implies #[trigger] pairs@.contains(
                    (i, j),
                ) || arithmetic.passes_by(s, i as int, j as int) || arithmetic.stops_short(
                    s,
                    i as int,
                    j as int,
                ) by {
                    if listed.contains((i, j)) {
                        let k = choose|k: int| 0 <= k < listed.len() && listed[k] == (i, j);
                        assert(pairs@[k] == (i, j));
                    }
                }
                assert forall|j: usize| outer < j <= inner implies #[trigger] pairs@.contains(
                    (outer, j),
                ) || arithmetic.passes_by(s, outer as int, j as int) by {
                    if j < inner {
                        if listed.contains((outer, j)) {
                            let k = choose|k: int| 0 <= k < listed.len() && listed[k] == (outer, j);
                            assert(pairs@[k] == (outer, j));
                        }
                    } else if pairs@.len() > listed.len() {
                        assert(pairs@[listed.len() as int] == (outer, inner));
                    }
                }
            }
            // Where the gap to the partner is greater than the greatest radius,
            // no particle further on can collide with the current one.
            let far: bool = span.out_of_reach();
            assert(arithmetic.out_of_reach(particle_1, particle_2, far));
            if far {
                proof {
                    assert(arithmetic.ends_at(s, outer as int, inner as int));
                    assert forall|i: usize, j: usize| i <= outer && i < j < n implies #[trigger] pairs@.contains(
                        (i, j),
                    ) || arithmetic.passes_by(s, i as int, j as int) || arithmetic.stops_short(
                        s,
                        i as int,
                        j as int,
                    ) by {
                        if i == outer && j > inner {
                            assert(arithmetic.stops_short(s, outer as int, j as int));
                        }
                    }
                }
                break ;
            }
            inner += 1;
        }
        outer += 1;
    }
    proof {
        assert forall|k: int| 0 <= k < pairs@.len() implies (#[trigger] pairs@[k]).0 < pairs@[k].1
            < s.len() by {
            assert(arithmetic.collides(s, pairs@[k].0 as int, pairs@[k].1 as int));
        }
    }
    pairs
}

/// Gives the particles of each pair their velocities after the collision.
///
/// The pairs take their turn in the order of the list. For each, the two
/// particles react as they are by then, and the velocities are written to
/// the first and then to the second. Only velocities change.
pub fn apply_collision_updates<
    A: Fn(u64) -> u64,
    F: Fn(Particle, u64) -> Flight,
    S: Fn(Particle, Particle) -> Span,
    M: Fn(Particle, Particle) -> Spacing,
    P: Fn(Particle, Particle) -> u64,
    B: Fn(Particle, Particle) -> (MathVec, MathVec),
>(
    particles: &mut [Particle],
    actual_collisions: Vec<(usize, usize)>,
    arithmetic: &Arithmetic<A, F, S, M, P, B>,
)
    requires
        arithmetic.is_total(),
        pairs_within(actual_collisions@, old(particles)@.len()),
    ensures
        arithmetic.resolves(old(particles)@, actual_collisions@, final(particles)@),
{
    let ghost before = particles@;
    let count: usize = actual_collisions.len();
    let mut turn: usize = 0;
    assert(actual_collisions@.take(0) =~= Seq::<(usize, usize)>::empty());
    while turn < count
        invariant
            turn <= count,
            count == actual_collisions@.len(),
            arithmetic.is_total(),
            particles@.len() == before.len(),
            pairs_within(actual_collisions@, before.len()),
            arithmetic.resolves(before, actual_collisions@.take(turn as int), particles@),
        decreases count - turn,
    {
        let pair: (usize, usize) = actual_collisions[turn];
        let index_a: usize = pair.0;
        let index_b: usize = pair.1;
        let ghost now = particles@;
        // First, both particles are read
        let particle_a: Particle = particles[index_a];
        let particle_b: Particle = particles[index_b];
        // Obtain the required updates to the two particles
        let velocities: (MathVec, MathVec) = particle_a.collision_react(&particle_b, arithmetic);
        let update_a: MathVec = velocities.0;
        let update_b: MathVec = velocities.1;

        // Now each of them is written, one at a time
        let mut particle_a: Particle = particles[index_a];
        particle_a.velocity_x = update_a.0;
        particle_a.velocity_y = update_a.1;
        particles[index_a] = particle_a;

        let mut particle_b: Particle = particles[index_b];
        particle_b.velocity_x = update_b.0;
        particle_b.velocity_y = update_b.1;
        particles[index_b] = particle_b;

        proof {
            let done = actual_collisions@.take(turn + 1);
            assert(done.drop_last() =~= actual_collisions@.take(turn as int));
            assert(done.last() == pair);
            assert(particles@ =~= struck(now, pair, velocities));
            assert(arithmetic.strikes(now, pair, particles@));
            assert(arithmetic.resolves(before, done.drop_last(), now));
        }
        turn += 1;
    }
    assert(actual_collisions@.take(count as int) =~= actual_collisions@);
}

/// Sorts the particles by x, finds the pairs that collide and gives the
/// particles of each pair their velocities after the collision.
pub fn detect_and_apply_collisions<
    A: Fn(u64) -> u64,
    F: Fn(Particle, u64) -> Flight,
    S: Fn(Particle, Particle) -> Span,
    M: Fn(Particle, Particle) -> Spacing,
    P: Fn(Particle, Particle) -> u64,
    B: Fn(Particle, Particle) -> (MathVec, MathVec),
>(particles: &mut [Particle], arithmetic: &Arithmetic<A, F, S, M, P, B>)
    requires
        arithmetic.is_total(),
    ensures
        arithmetic.is_detection(old(particles)@, final(particles)@),
        same_particles(old(particles)@, final(particles)@),
        in_position_order(final(particles)@),
{
    let ghost before = particles@;
    // First, the particles are sorted along the x axis
    sort_by_position(particles);
    let ghost perm = choose|perm: Seq<int>|
        sorts_by_position(perm, before) && particles@ == arranged(before, perm);
    // Find the collisions: the most expensive part
    let confirmed_collisions = sweep_and_prune(particles, arithmetic);
    let ghost pairs = confirmed_collisions@;
    // Apply the physics of a collision to the particles that have collided
    apply_collision_updates(particles, confirmed_collisions, arithmetic);
    assert(arithmetic.is_sweep(pairs, arranged(before, perm)));
    proof {
        arithmetic.law_detection_keeps_particles(before, particles@);
    }
}

} // verus!
