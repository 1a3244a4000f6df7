//! The order of particles along the x axis, and the sort that puts them
//! in it.
//!
//! An order is given as a permutation of indices: `perm[k]` is the place,
//! before the sort, of the particle that stands at place `k` after it.

use crate::particle::Particle;
use crate::scalar::{rank, sort_key};
use vstd::prelude::*;

verus! {

/// `perm` names every index below its length exactly once.
pub open spec fn is_permutation(perm: Seq<int>) -> bool {
    &&& forall|k: int| 0 <= k < perm.len() ==> 0 <= #[trigger] perm[k] < perm.len()
    &&& forall|k: int, l: int| 0 <= k < l < perm.len() ==> perm[k] != perm[l]
    &&& forall|index: int| 0 <= index < perm.len() ==> #[trigger] perm.contains(index)
}

/// The particles of `s` in the order that `perm` gives: first the particle
/// at `perm[0]`, then the one at `perm[1]`, and so on.
pub open spec fn arranged(s: Seq<Particle>, perm: Seq<int>) -> Seq<Particle> {
    Seq::new(perm.len(), |k: int| s[perm[k]])
}

/// In the order by position, the particle at index `a` of `s` comes before
/// the one at index `b`: it lies farther left, or at the same x and earlier
/// in `s`.
pub open spec fn comes_before(s: Seq<Particle>, a: int, b: int) -> bool {
    rank(s[a].position_x) < rank(s[b].position_x) || (rank(s[a].position_x) == rank(
        s[b].position_x,
    ) && a < b)
}

/// `perm` is the order of `s` by position: a permutation of the indices of
/// `s` that lists them from left to right and keeps particles of equal x
/// in the order that they have in `s`.
pub open spec fn sorts_by_position(perm: Seq<int>, s: Seq<Particle>) -> bool {
    &&& perm.len() == s.len()
    &&& is_permutation(perm)
    &&& forall|k: int, l: int| 0 <= k < l < perm.len() ==> comes_before(s, perm[k], perm[l])
}

/// The x coordinates of `s` never decrease from one particle to the next.
pub open spec fn in_position_order(s: Seq<Particle>) -> bool {
    forall|k: int, l: int|
        0 <= k < l < s.len() ==> rank(s[k].position_x) <= rank(s[l].position_x)
}

/// `after` holds the particles of `before`, each once, in some order, and
/// every one of them as it was but for its velocity.
pub open spec fn same_particles(before: Seq<Particle>, after: Seq<Particle>) -> bool {
    exists|perm: Seq<int>|
        {
            &&& perm.len() == before.len()
            &&& after.len() == before.len()
            &&& is_permutation(perm)
            &&& forall|k: int|
                0 <= k < after.len() ==> (#[trigger] after[k]).same_body_and_place(
                    before[perm[k]],
                )
        }
}

/// `after` holds the bodies of `before`, each once, in some order: id,
/// radius and mass of every particle are what they were.
pub open spec fn same_bodies(before: Seq<Particle>, after: Seq<Particle>) -> bool {
    exists|perm: Seq<int>|
        {
            &&& perm.len() == before.len()
            &&& after.len() == before.len()
            &&& is_permutation(perm)
            &&& forall|k: int|
                0 <= k < after.len() ==> (#[trigger] after[k]).same_body(before[perm[k]])
        }
}

/// Particles arranged in their order by position lie from left to right,
/// and they are the particles that were there.
pub proof fn law_sorted_particles_are_in_order(perm: Seq<int>, s: Seq<Particle>)
    requires
        sorts_by_position(perm, s),
    ensures
        in_position_order(arranged(s, perm)),
        same_particles(s, arranged(s, perm)),
{
    let sorted = arranged(s, perm);
    assert forall|k: int, l: int| 0 <= k < l < sorted.len() implies rank(sorted[k].position_x)
        <= rank(sorted[l].position_x) by {
        assert(comes_before(s, perm[k], perm[l]));
    }
}

/// A sequence of particles has one order by position and no other.
pub proof fn law_order_by_position_is_unique(first: Seq<int>, second: Seq<int>, s: Seq<Particle>)
    requires
        sorts_by_position(first, s),
        sorts_by_position(second, s),
    ensures
        first == second,
{
    lemma_orders_agree(first, second, s, s.len() as int);
    assert(first =~= second);
}

/// Two orders by position of one sequence agree on their first `k` places.
proof fn lemma_orders_agree(first: Seq<int>, second: Seq<int>, s: Seq<Particle>, k: int)
    requires
        sorts_by_position(first, s),
        sorts_by_position(second, s),
        0 <= k <= s.len(),
    ensures
        forall|m: int| 0 <= m < k ==> first[m] == second[m],
    decreases k,
{
    if k > 0 {
        lemma_orders_agree(first, second, s, k - 1);
        let here = k - 1;
        if first[here] != second[here] {
            assert(first.contains(second[here]));
            let m = choose|m: int| 0 <= m < first.len() && first[m] == second[here];
            assert(second.contains(first[here]));
            let l = choose|l: int| 0 <= l < second.len() && second[l] == first[here];
            if m < here {
                assert(second[m] == first[m]);
            } else if l < here {
                assert(first[l] == second[l]);
            } else {
                assert(comes_before(s, first[here], first[m]));
                assert(comes_before(s, second[here], second[l]));
            }
        }
    }
}

/// From `lo` up to `hi`, the x coordinates of `s` never decrease.
spec fn run_in_order(s: Seq<Particle>, lo: int, hi: int) -> bool {
    forall|k: int, l: int|
        lo <= k < l < hi ==> rank(s[k].position_x) <= rank(s[l].position_x)
}

/// `perm` names the index `index` at a place from `lo` up to `hi`.
spec fn names_within(perm: Seq<int>, lo: int, hi: int, index: int) -> bool {
    exists|k: int| lo <= k < hi && perm[k] == index
}

/// `perm` rearranges the particles of `s` from `lo` up to `hi`, among
/// themselves, into their order by position, and leaves the others where
/// they are.
spec fn sorts_range(perm: Seq<int>, s: Seq<Particle>, lo: int, hi: int) -> bool {
    &&& perm.len() == s.len()
    &&& 0 <= lo <= hi <= s.len()
    &&& forall|k: int| 0 <= k < perm.len() && !(lo <= k < hi) ==> #[trigger] perm[k] == k
    &&& forall|k: int| lo <= k < hi ==> lo <= #[trigger] perm[k] < hi
    &&& forall|k: int, l: int| lo <= k < l < hi ==> comes_before(s, perm[k], perm[l])
    &&& forall|index: int| lo <= index < hi ==> #[trigger] names_within(perm, lo, hi, index)
}

/// The permutation that applies `first` and then `second`: arranging by it
/// is arranging by `first` and arranging the outcome by `second`.
spec fn composed(first: Seq<int>, second: Seq<int>) -> Seq<int> {
    Seq::new(second.len(), |k: int| first[second[k]])
}

/// A permutation that sorts the whole of a sequence is its order by position.
proof fn lemma_sorted_range_is_order(perm: Seq<int>, s: Seq<Particle>)
    requires
        sorts_range(perm, s, 0, s.len() as int),
    ensures
        sorts_by_position(perm, s),
{
    let n = s.len() as int;
    assert forall|k: int, l: int| 0 <= k < l < perm.len() implies perm[k] != perm[l] by {
        assert(comes_before(s, perm[k], perm[l]));
    }
    assert forall|index: int| 0 <= index < perm.len() implies #[trigger] perm.contains(index) by {
        assert(names_within(perm, 0, n, index));
        let k = choose|k: int| 0 <= k < n && perm[k] == index;
        assert(perm[k] == index);
    }
}

/// Two halves sorted one after the other, and then merged, are sorted as a
/// whole: `left` sorts the lower half of `s`, `right` the upper half of
/// what `left` made, and `merge` the two halves of what `right` made.
proof fn lemma_sorted_halves_merge(
    s: Seq<Particle>,
    left: Seq<int>,
    right: Seq<int>,
    merge: Seq<int>,
    lo: int,
    mid: int,
    hi: int,
)
    requires
        lo <= mid <= hi,
        sorts_range(left, s, lo, mid),
        sorts_range(right, arranged(s, left), mid, hi),
        sorts_range(merge, arranged(arranged(s, left), right), lo, hi),
    ensures
        sorts_range(composed(composed(left, right), merge), s, lo, hi),
        arranged(s, composed(composed(left, right), merge)) == arranged(
            arranged(arranged(s, left), right),
            merge,
        ),
{
    let halves = composed(left, right);
    let whole = composed(halves, merge);
    let s1 = arranged(s, left);
    let s2 = arranged(s1, right);
    assert(arranged(s, whole) =~= arranged(s2, merge));
    assert forall|k: int| lo <= k < hi implies lo <= #[trigger] whole[k] < hi by {
        let m = merge[k];
        assert(lo <= m < hi);
        if m < mid {
            assert(right[m] == m);
            assert(lo <= left[m] < mid);
        } else {
            assert(mid <= right[m] < hi);
            assert(left[right[m]] == right[m]);
        }
    }
    assert forall|k: int| 0 <= k < whole.len() && !(lo <= k < hi) implies #[trigger] whole[k]
        == k by {
        assert(merge[k] == k);
        assert(right[k] == k);
        assert(left[k] == k);
    }
    assert forall|k: int, l: int| lo <= k < l < hi implies comes_before(
        s,
        whole[k],
        whole[l],
    ) by {
        let a = merge[k];
        let b = merge[l];
        assert(comes_before(s2, a, b));
        assert(lo <= a < hi && lo <= b < hi);
        assert(s2[a] == s[halves[a]]);
        assert(s2[b] == s[halves[b]]);
        if rank(s2[a].position_x) == rank(s2[b].position_x) {
            assert(a < b);
            if b < mid {
                assert(right[a] == a && right[b] == b);
                assert(comes_before(s, left[a], left[b]));
            } else if a >= mid {
                assert(comes_before(s1, right[a], right[b]));
                assert(mid <= right[a] < hi && mid <= right[b] < hi);
                assert(left[right[a]] == right[a] && left[right[b]] == right[b]);
                assert(s1[right[a]] == s[right[a]]);
                assert(s1[right[b]] == s[right[b]]);
            } else {
                assert(right[a] == a);
                assert(lo <= left[a] < mid);
                assert(mid <= right[b] < hi);
                assert(left[right[b]] == right[b]);
            }
        }
    }
    assert forall|index: int| lo <= index < hi implies #[trigger] names_within(
        whole,
        lo,
        hi,
        index,
    ) by {
        if index < mid {
            assert(names_within(left, lo, mid, index));
            let k1 = choose|k: int| lo <= k < mid && left[k] == index;
            assert(right[k1] == k1);
            assert(names_within(merge, lo, hi, k1));
            let k3 = choose|k: int| lo <= k < hi && merge[k] == k1;
            assert(whole[k3] == index);
        } else {
            assert(left[index] == index);
            assert(names_within(right, mid, hi, index));
            let k2 = choose|k: int| mid <= k < hi && right[k] == index;
            assert(names_within(merge, lo, hi, k2));
            let k3 = choose|k: int| lo <= k < hi && merge[k] == k2;
            assert(whole[k3] == index);
        }
    }
}

/// Merges two neighbouring runs, each sorted by x, into one sorted run.
/// Where a particle of the lower run and one of the upper run lie at one x,
/// the one of the lower run comes first.
fn merge_runs(particles: &mut [Particle], lo: usize, mid: usize, hi: usize)
    requires
        lo <= mid <= hi <= old(particles)@.len(),
        run_in_order(old(particles)@, lo as int, mid as int),
        run_in_order(old(particles)@, mid as int, hi as int),
    ensures
        exists|perm: Seq<int>|
            sorts_range(perm, old(particles)@, lo as int, hi as int) && final(particles)@
                == arranged(old(particles)@, perm),
{
    let ghost t = particles@;
    let mut merged: Vec<Particle> = Vec::new();
    let ghost mut picks: Seq<int> = Seq::empty();
    let mut i: usize = lo;
    let mut j: usize = mid;
    while i < mid || j < hi
        invariant
            lo <= i <= mid <= j <= hi <= t.len(),
            particles@ == t,
            run_in_order(t, lo as int, mid as int),
            run_in_order(t, mid as int, hi as int),
            merged@.len() == (i - lo) + (j - mid),
            picks.len() == merged@.len(),
            forall|k: int| 0 <= k < picks.len() ==> merged@[k] == t[#[trigger] picks[k]],
            forall|k: int|
                0 <= k < picks.len() ==> lo <= #[trigger] picks[k] < i || mid <= picks[k] < j,
            forall|k: int, l: int| 0 <= k < l < picks.len() ==> comes_before(t, picks[k], picks[l]),
            forall|index: int|
                lo <= index < i || mid <= index < j ==> #[trigger] names_within(
                    picks,
                    0,
                    picks.len() as int,
                    index,
                ),
            forall|k: int, a: int|
                0 <= k < picks.len() && mid <= #[trigger] picks[k] && i <= a < mid ==> rank(
                    t[picks[k]].position_x,
                ) < rank(#[trigger] t[a].position_x),
            forall|k: int, b: int|
                0 <= k < picks.len() && #[trigger] picks[k] < mid && j <= b < hi ==> rank(
                    t[picks[k]].position_x,
                ) <= rank(#[trigger] t[b].position_x),
        decreases (mid - i) + (hi - j),
    {
        let take_lower: bool = if i < mid && j < hi {
            sort_key(particles[i].position_x) <= sort_key(particles[j].position_x)
        } else {
            i < mid
        };
        let ghost earlier = picks;
        let ghost source: int = if take_lower { i as int } else { j as int };
        if take_lower {
            merged.push(particles[i]);
            i += 1;
        } else {
            merged.push(particles[j]);
            j += 1;
        }
        proof {
            picks = earlier.push(source);
            assert forall|k: int, l: int| 0 <= k < l < picks.len() implies comes_before(
                t,
                picks[k],
                picks[l],
            ) by {
                if l == earlier.len() {
                    assert(picks[k] == earlier[k]);
                } else {
                    assert(picks[k] == earlier[k] && picks[l] == earlier[l]);
                }
            }
            assert forall|index: int| lo <= index < i || mid <= index < j implies #[trigger] names_within(
                picks,
                0,
                picks.len() as int,
                index,
            ) by {
                if index == source {
                    assert(picks[earlier.len() as int] == index);
                } else {
                    assert(names_within(earlier, 0, earlier.len() as int, index));
                    let k = choose|k: int| 0 <= k < earlier.len() && earlier[k] == index;
                    assert(picks[k] == index);
                }
            }
            assert forall|k: int, a: int|
                0 <= k < picks.len() && mid <= #[trigger] picks[k] && i <= a < mid implies rank(
                t[picks[k]].position_x,
            ) < rank(#[trigger] t[a].position_x) by {
                if k < earlier.len() {
                    assert(picks[k] == earlier[k]);
                } else {
                    assert(rank(t[source].position_x) < rank(t[i as int].position_x));
                }
            }
            assert forall|k: int, b: int|
                0 <= k < picks.len() && #[trigger] picks[k] < mid && j <= b < hi implies rank(
                t[picks[k]].position_x,
            ) <= rank(#[trigger] t[b].position_x) by {
                if k < earlier.len() {
                    assert(picks[k] == earlier[k]);
                } else {
                    assert(rank(t[source].position_x) <= rank(t[j as int].position_x));
                }
            }
        }
    }
    let ghost perm: Seq<int> = Seq::new(
        t.len(),
        |k: int| if lo <= k < hi { picks[k - lo] } else { k },
    );
    let span: usize = hi - lo;
    let mut k: usize = 0;
    while k < span
        invariant
            k <= span,
            span == hi - lo,
            hi <= t.len(),
            particles@.len() == t.len(),
            merged@.len() == span,
            forall|m: int| 0 <= m < lo + k ==> particles@[m] == arranged(t, perm)[m],
            forall|m: int| lo + k <= m < t.len() ==> particles@[m] == t[m],
            perm.len() == t.len(),
            forall|m: int| 0 <= m < t.len() && !(lo <= m < hi) ==> perm[m] == m,
            forall|m: int| lo <= m < hi ==> 0 <= #[trigger] perm[m] < t.len(),
            forall|m: int| 0 <= m < span ==> merged@[m] == t[#[trigger] perm[lo + m]],
        decreases span - k,
    {
        particles[lo + k] = merged[k];
        k += 1;
    }
    proof {
        assert(particles@ =~= arranged(t, perm));
        assert forall|index: int| lo <= index < hi implies #[trigger] names_within(
            perm,
            lo as int,
            hi as int,
            index,
        ) by {
            assert(names_within(picks, 0, picks.len() as int, index));
            let m = choose|m: int| 0 <= m < picks.len() && picks[m] == index;
            assert(perm[lo + m] == index);
        }
        assert forall|a: int, b: int| lo <= a < b < hi implies comes_before(
            t,
            perm[a],
            perm[b],
        ) by {
            assert(comes_before(t, picks[a - lo], picks[b - lo]));
        }
        assert(sorts_range(perm, t, lo as int, hi as int));
    }
}

/// Sorts the particles from `lo` up to `hi` by x and leaves the others
/// where they are.
fn sort_range(particles: &mut [Particle], lo: usize, hi: usize)
    requires
        lo <= hi <= old(particles)@.len(),
    ensures
        exists|perm: Seq<int>|
            sorts_range(perm, old(particles)@, lo as int, hi as int) && final(particles)@
                == arranged(old(particles)@, perm),
    decreases hi - lo,
{
    let ghost s = particles@;
    if hi - lo < 2 {
        proof {
            let same: Seq<int> = Seq::new(s.len(), |k: int| k);
            assert(s =~= arranged(s, same));
            assert forall|index: int| lo <= index < hi implies #[trigger] names_within(
                same,
                lo as int,
                hi as int,
                index,
            ) by {
                assert(same[index] == index);
            }
            assert(sorts_range(same, s, lo as int, hi as int));
        }
        return ;
    }
    let mid: usize = lo + (hi - lo) / 2;
    sort_range(particles, lo, mid);
    let ghost s1 = particles@;
    let ghost left = choose|perm: Seq<int>|
        sorts_range(perm, s, lo as int, mid as int) && s1 == arranged(s, perm);
    sort_range(particles, mid, hi);
    let ghost s2 = particles@;
    let ghost right = choose|perm: Seq<int>|
        sorts_range(perm, s1, mid as int, hi as int) && s2 == arranged(s1, perm);
    proof {
        assert forall|k: int, l: int| lo <= k < l < mid implies rank(s2[k].position_x) <= rank(
            s2[l].position_x,
        ) by {
            assert(right[k] == k && right[l] == l);
            assert(comes_before(s, left[k], left[l]));
        }
        assert forall|k: int, l: int| mid <= k < l < hi implies rank(s2[k].position_x) <= rank(
            s2[l].position_x,
        ) by {
            assert(comes_before(s1, right[k], right[l]));
        }
    }
    merge_runs(particles, lo, mid, hi);
    proof {
        let merge = choose|perm: Seq<int>|
            sorts_range(perm, s2, lo as int, hi as int) && particles@ == arranged(s2, perm);
        lemma_sorted_halves_merge(s, left, right, merge, lo as int, mid as int, hi as int);
    }
}

/// Sorts the particles by their x coordinate, in place.
///
/// The sort is stable: particles at one x keep their order. Coordinates
/// are ordered as [`rank`] says, so a NaN sorts behind every number.
pub fn sort_by_position(particles: &mut [Particle])
    ensures
        exists|perm: Seq<int>|
            sorts_by_position(perm, old(particles)@) && final(particles)@ == arranged(
                old(particles)@,
                perm,
            ),
        in_position_order(final(particles)@),
        same_particles(old(particles)@, final(particles)@),
{
    let ghost before = particles@;
    let n: usize = particles.len();
    sort_range(particles, 0, n);
    proof {
        let perm = choose|perm: Seq<int>|
            sorts_range(perm, before, 0, n as int) && particles@ == arranged(before, perm);
        lemma_sorted_range_is_order(perm, before);
        law_sorted_particles_are_in_order(perm, before);
    }
}

} // verus!
