//! The particle population and the two-phase simulation step.
//!
//! A step first detects every colliding pair against a stable snapshot and
//! resolves the pairs on a working copy, then integrates every position.
//! Detection and the sequential resolution pass are verified exactly; the
//! parallel passes run the same verified per-particle operations under
//! rayon, behind trusted wrappers whose contracts state what holds of every
//! outcome regardless of scheduling.

use crate::particle::{
    spec_collide, spec_colliding, spec_integrate, Particle, ParticleModel, DEFAULT_RADIUS,
    UNIT_MASS,
};
use crate::vec2d::Vec2D;
use rayon::iter::{IntoParallelRefIterator, IntoParallelRefMutIterator, ParallelIterator};
use std::sync::Mutex;
use vstd::prelude::*;

verus! {

/// The exact integer values of a sequence of particles.
pub open spec fn models(s: Seq<Particle>) -> Seq<ParticleModel> {
    s.map_values(|p: Particle| p@)
}

/// Lexicographic order on index pairs.
pub open spec fn pair_lt(p: (usize, usize), q: (usize, usize)) -> bool {
    p.0 < q.0 || (p.0 == q.0 && p.1 < q.1)
}

/// A freshly seeded particle: unit mass, default radius, position uniform in
/// `[0, 5000)` and velocity uniform in `[-1000, 1000)` whole units.
pub open spec fn init_particle(p: ParticleModel) -> bool {
    &&& p.mass == UNIT_MASS as int
    &&& p.radius == DEFAULT_RADIUS as int
    &&& 0 <= p.s.x < 5_000_000
    &&& 0 <= p.s.y < 5_000_000
    &&& -1_000_000 <= p.v.x < 1_000_000
    &&& -1_000_000 <= p.v.y < 1_000_000
}

/// The population after resolving the given pairs in order, each against the
/// state the earlier resolutions produced; out-of-range or degenerate pairs
/// leave the population unchanged.
pub open spec fn spec_resolve_pairs(s: Seq<ParticleModel>, pairs: Seq<(usize, usize)>) -> Seq<
    ParticleModel,
>
    decreases pairs.len(),
{
    if pairs.len() == 0 {
        s
    } else {
        let prev = spec_resolve_pairs(s, pairs.drop_last());
        let pr = pairs.last();
        let i = pr.0 as int;
        let j = pr.1 as int;
        if 0 <= i < prev.len() && 0 <= j < prev.len() && i != j {
            let res = spec_collide(prev[i], prev[j]);
            prev.update(i, res.0).update(j, res.1)
        } else {
            prev
        }
    }
}

/// The pair sequence phase-1 detection hands to resolution: sound (every
/// listed pair is in range, ordered, and collides in `s`), complete (every
/// colliding pair is listed), and strictly lexicographically sorted.
pub open spec fn detected_pairs(s: Seq<ParticleModel>, pairs: Seq<(usize, usize)>) -> bool {
    &&& forall|k: int|
        0 <= k < pairs.len() ==> (#[trigger] pairs[k]).0 < pairs[k].1 && pairs[k].1 < s.len()
            && spec_colliding(s[pairs[k].0 as int], s[pairs[k].1 as int])
    &&& forall|i: int, j: int|
        0 <= i < j < s.len() && spec_colliding(s[i], s[j]) ==> pairs.contains(
            ((i as usize, j as usize)),
        )
    &&& forall|k1: int, k2: int| 0 <= k1 < k2 < pairs.len() ==> pair_lt(pairs[k1], pairs[k2])
}

/// What holds of every outcome of resolving `pairs` concurrently on `s`: the
/// lock serializes the complete read-resolve-write-back of each pair, and
/// each pair is applied exactly once, so the result is the sequential fold
/// of the pairs in some arrival order.
pub open spec fn resolution_outcome(
    s: Seq<ParticleModel>,
    pairs: Seq<(usize, usize)>,
    r: Seq<ParticleModel>,
) -> bool {
    exists|ord: Seq<(usize, usize)>|
        ord.to_multiset() == pairs.to_multiset() && r == #[trigger] spec_resolve_pairs(s, ord)
}

/// A fold over pairs that never name index `k` preserves the length and
/// leaves the particle at `k` unchanged.
proof fn lemma_resolve_pairs_untouched(s: Seq<ParticleModel>, pairs: Seq<(usize, usize)>, k: int)
    requires
        forall|q: int|
            0 <= q < pairs.len() ==> (#[trigger] pairs[q]).0 as int != k && pairs[q].1 as int != k,
    ensures
        spec_resolve_pairs(s, pairs).len() == s.len(),
        0 <= k < s.len() ==> spec_resolve_pairs(s, pairs)[k] == s[k],
    decreases pairs.len(),
{
    if pairs.len() > 0 {
        assert forall|q: int|
            0 <= q < pairs.drop_last().len() implies (#[trigger] pairs.drop_last()[q]).0 as int != k
            && pairs.drop_last()[q].1 as int != k by {
            assert(pairs.drop_last()[q] == pairs[q]);
        }
        lemma_resolve_pairs_untouched(s, pairs.drop_last(), k);
    }
}

/// No lost or spurious updates: a particle that belongs to no resolved pair
/// keeps its value -- velocity included -- under every resolution outcome.
pub proof fn lemma_outcome_untouched(
    s: Seq<ParticleModel>,
    pairs: Seq<(usize, usize)>,
    r: Seq<ParticleModel>,
    k: int,
)
    requires
        resolution_outcome(s, pairs, r),
        forall|q: int|
            0 <= q < pairs.len() ==> (#[trigger] pairs[q]).0 as int != k && pairs[q].1 as int != k,
    ensures
        r.len() == s.len(),
        0 <= k < s.len() ==> r[k] == s[k],
{
    broadcast use vstd::seq_lib::group_to_multiset_ensures;

    let ord = choose|ord: Seq<(usize, usize)>|
        ord.to_multiset() == pairs.to_multiset() && r == #[trigger] spec_resolve_pairs(s, ord);
    assert forall|q: int|
        0 <= q < ord.len() implies (#[trigger] ord[q]).0 as int != k && ord[q].1 as int != k by {
        assert(ord.contains(ord[q]));
        assert(pairs.to_multiset().count(ord[q]) > 0);
        assert(pairs.contains(ord[q]));
        let w = choose|w: int| 0 <= w < pairs.len() && pairs[w] == ord[q];
        assert(pairs[w].0 as int != k && pairs[w].1 as int != k);
    }
    lemma_resolve_pairs_untouched(s, ord, k);
}

/// A collision-free pass is the identity: with no colliding pair in the
/// population, detection yields no pairs and every resolution outcome is the
/// population itself.
pub proof fn lemma_outcome_no_collisions(
    s: Seq<ParticleModel>,
    pairs: Seq<(usize, usize)>,
    r: Seq<ParticleModel>,
)
    requires
        detected_pairs(s, pairs),
        resolution_outcome(s, pairs, r),
        forall|i: int, j: int| 0 <= i < j < s.len() ==> !spec_colliding(s[i], s[j]),
    ensures
        r == s,
{
    broadcast use vstd::seq_lib::group_to_multiset_ensures;

    assert(pairs.len() == 0) by {
        if pairs.len() > 0 {
            assert(spec_colliding(s[pairs[0].0 as int], s[pairs[0].1 as int]));
        }
    }
    let ord = choose|ord: Seq<(usize, usize)>|
        ord.to_multiset() == pairs.to_multiset() && r == #[trigger] spec_resolve_pairs(s, ord);
    assert(ord.len() == ord.to_multiset().len());
    assert(pairs.to_multiset().len() == 0);
}

/// Relies on rand's `random_range` over an integer `Range`: a uniform sample
/// in `[lo, hi)` from the thread-local generator. Nothing more is assumed of
/// the value than its range.
#[verifier::external_body]
fn random_in(lo: i64, hi: i64) -> (r: i64)
    requires
        lo < hi,
    ensures
        lo <= r < hi,
{
    rand::random_range(lo..hi)
}

/// Relies on rayon's `par_iter_mut().for_each`: the closure runs exactly once
/// on each element, and each element is touched by no other task, so the
/// outcome is the same as applying the verified position update to every
/// particle independently.
#[verifier::external_body]
fn integrate_all(air: &mut Vec<Particle>)
    ensures
        final(air)@.len() == old(air)@.len(),
        forall|i: int|
            0 <= i < old(air)@.len() ==> final(air)@[i]@ == spec_integrate(old(air)@[i]@),
{
    air.par_iter_mut().for_each(|p| p.update_position());
}

/// Relies on rayon's `par_iter().for_each` and std's `Mutex`: the closure
/// runs exactly once per pair, and each pair's complete read-resolve-write-
/// back holds the lock, so writes are never torn and the pair applications
/// are serialized in some arrival order. The order is scheduling-dependent,
/// so what holds of every outcome is stated: the result is the sequential
/// fold of the given pairs in some order (`resolution_outcome`); hence the
/// population keeps its length, and every particle its mass, radius and
/// position (the verified resolution changes only velocities).
#[verifier::external_body]
fn resolve_pairs_locked(air: Vec<Particle>, pairs: &Vec<(usize, usize)>) -> (r: Vec<Particle>)
    requires
        forall|k: int|
            0 <= k < pairs@.len() ==> (#[trigger] pairs@[k]).0 < pairs@[k].1 && pairs@[k].1
                < air@.len(),
    ensures
        r@.len() == air@.len(),
        forall|i: int|
            0 <= i < air@.len() ==> r@[i].mass == air@[i].mass && r@[i].radius == air@[i].radius
                && r@[i].s == air@[i].s,
        resolution_outcome(models(air@), pairs@, models(r@)),
{
    let shared = Mutex::new(air);
    pairs.par_iter().for_each(|pr| {
        let mut guard = shared.lock().unwrap();
        let mut a = guard[pr.0];
        let mut b = guard[pr.1];
        a.collide_with(&mut b);
        guard[pr.0] = a;
        guard[pr.1] = b;
    });
    shared.into_inner().unwrap()
}

/// An element-by-element copy of the population.
fn copy_particles(air: &Vec<Particle>) -> (r: Vec<Particle>)
    ensures
        r@ == air@,
{
    let mut out: Vec<Particle> = Vec::new();
    let mut k: usize = 0;
    while k < air.len()
        invariant
            k <= air@.len(),
            out@ == air@.take(k as int),
        decreases air@.len() - k,
    {
        out.push(air[k]);
        proof {
            assert(air@.take(k as int + 1) =~= air@.take(k as int).push(air@[k as int]));
        }
        k = k + 1;
    }
    proof {
        assert(air@.take(air@.len() as int) =~= air@);
    }
    out
}

/// Every unordered colliding pair of the population, scanned against the
/// unchanging snapshot: exactly the pairs `(i, j)` with `i < j` whose
/// particles collide, in strictly increasing lexicographic order.
pub fn colliding_pairs(air: &Vec<Particle>) -> (pairs: Vec<(usize, usize)>)
    ensures
        detected_pairs(models(air@), pairs@),
{
    let mut pairs: Vec<(usize, usize)> = Vec::new();
    let mut i: usize = 0;
    while i < air.len()
        invariant
            i <= air@.len(),
            forall|k: int|
                0 <= k < pairs@.len() ==> (#[trigger] pairs@[k]).0 < pairs@[k].1 && pairs@[k].1
                    < air@.len() && pairs@[k].0 < i && spec_colliding(
                    models(air@)[pairs@[k].0 as int],
                    models(air@)[pairs@[k].1 as int],
                ),
            forall|a: int, b: int|
                0 <= a < b < air@.len() && a < i && spec_colliding(models(air@)[a], models(air@)[b])
                    ==> pairs@.contains(((a as usize, b as usize))),
            forall|k1: int, k2: int| 0 <= k1 < k2 < pairs@.len() ==> pair_lt(pairs@[k1], pairs@[k2]),
        decreases air@.len() - i,
    {
        let mut j: usize = i + 1;
        while j < air.len()
            invariant
                i < air@.len(),
                i + 1 <= j <= air@.len(),
                forall|k: int|
                    0 <= k < pairs@.len() ==> (#[trigger] pairs@[k]).0 < pairs@[k].1 && pairs@[k].1
                        < air@.len() && (pairs@[k].0 < i || (pairs@[k].0 == i && pairs@[k].1 < j))
                        && spec_colliding(
                        models(air@)[pairs@[k].0 as int],
                        models(air@)[pairs@[k].1 as int],
                    ),
                forall|a: int, b: int|
                    0 <= a < b < air@.len() && (a < i || (a == i && b < j)) && spec_colliding(
                        models(air@)[a],
                        models(air@)[b],
                    ) ==> pairs@.contains(((a as usize, b as usize))),
                forall|k1: int, k2: int|
                    0 <= k1 < k2 < pairs@.len() ==> pair_lt(pairs@[k1], pairs@[k2]),
            decreases air@.len() - j,
        {
            if air[i].is_colliding(&air[j]) {
                let ghost before = pairs@;
                pairs.push((i, j));
                proof {
                    assert(forall|y: (usize, usize)| before.contains(y) ==> pairs@.contains(y))
                        by {
                        assert forall|y: (usize, usize)| before.contains(y) implies pairs@.contains(
                            y,
                        ) by {
                            let w = choose|w: int| 0 <= w < before.len() && before[w] == y;
                            assert(pairs@[w] == y);
                        }
                    }
                    assert(pairs@.contains(((i, j)))) by {
                        assert(pairs@[pairs@.len() - 1] == (i, j));
                    }
                }
            }
            j = j + 1;
        }
        i = i + 1;
    }
    pairs
}

/// The single-threaded reference resolution pass: applies the pairs strictly
/// in the order given, pinning the result down exactly.
pub fn resolve_pairs(air: Vec<Particle>, pairs: &Vec<(usize, usize)>) -> (r: Vec<Particle>)
    requires
        forall|k: int|
            0 <= k < pairs@.len() ==> (#[trigger] pairs@[k]).0 < pairs@[k].1 && pairs@[k].1
                < air@.len(),
    ensures
        r@.len() == air@.len(),
        models(r@) == spec_resolve_pairs(models(air@), pairs@),
{
    let ghost s0 = models(air@);
    let mut cur = air;
    let mut k: usize = 0;
    while k < pairs.len()
        invariant
            k <= pairs@.len(),
            cur@.len() == s0.len(),
            forall|q: int|
                0 <= q < pairs@.len() ==> (#[trigger] pairs@[q]).0 < pairs@[q].1 && pairs@[q].1
                    < s0.len(),
            models(cur@) == spec_resolve_pairs(s0, pairs@.take(k as int)),
        decreases pairs@.len() - k,
    {
        let pr = pairs[k];
        let i = pr.0;
        let j = pr.1;
        let mut pa = cur[i];
        let mut pb = cur[j];
        pa.collide_with(&mut pb);
        let ghost mid = models(cur@);
        cur[i] = pa;
        cur[j] = pb;
        proof {
            let t1 = pairs@.take(k as int + 1);
            assert(t1.drop_last() =~= pairs@.take(k as int));
            assert(t1.last() == pairs@[k as int]);
            let res = spec_collide(mid[i as int], mid[j as int]);
            assert(models(cur@) =~= mid.update(i as int, res.0).update(j as int, res.1));
        }
        k = k + 1;
    }
    proof {
        assert(pairs@.take(pairs@.len() as int) =~= pairs@);
    }
    cur
}

/// Phase one of a simulation step on a given population: detect every
/// colliding pair against the unchanging input, then resolve the pairs in
/// parallel on a working copy. The order in which pairs sharing a particle
/// are applied is scheduling-dependent; whatever the order, the population
/// keeps its length and every particle its mass, radius and position.
pub fn resolve_collisions(air: Vec<Particle>) -> (r: Vec<Particle>)
    ensures
        r@.len() == air@.len(),
        forall|i: int|
            0 <= i < air@.len() ==> (#[trigger] r@[i]).mass == air@[i].mass && r@[i].radius
                == air@[i].radius && r@[i].s == air@[i].s,
        exists|pairs: Seq<(usize, usize)>|
            #[trigger] detected_pairs(models(air@), pairs) && resolution_outcome(
                models(air@),
                pairs,
                models(r@),
            ),
{
    let pairs = colliding_pairs(&air);
    resolve_pairs_locked(air, &pairs)
}

/// The particle population of a simulation: an ordered sequence of particles
/// whose size is fixed for the world's lifetime.
pub struct World {
    air: Vec<Particle>,
}

impl View for World {
    type V = Seq<ParticleModel>;

    closed spec fn view(&self) -> Seq<ParticleModel> {
        models(self.air@)
    }
}

impl World {
    /// Build a world of `size` particles with uniformly random positions and
    /// velocities, unit mass and the default radius.
    pub fn new(size: usize) -> (w: World)
        ensures
            w@.len() == size,
            forall|i: int| 0 <= i < size ==> init_particle(#[trigger] w@[i]),
    {
        let mut air: Vec<Particle> = Vec::new();
        let mut k: usize = 0;
        while k < size
            invariant
                k <= size,
                air@.len() == k,
                forall|i: int| 0 <= i < k ==> init_particle(#[trigger] models(air@)[i]),
            decreases size - k,
        {
            let x = random_in(0, 5_000_000);
            let y = random_in(0, 5_000_000);
            let vx = random_in(-1_000_000, 1_000_000);
            let vy = random_in(-1_000_000, 1_000_000);
            let s = Vec2D::new(x, y);
            let v = Vec2D::new(vx, vy);
            let p = Particle::new(&s, &v);
            let ghost before = air@;
            air.push(p);
            proof {
                assert forall|i: int| 0 <= i < k + 1 implies init_particle(
                    #[trigger] models(air@)[i],
                ) by {
                    if i < k {
                        assert(air@[i] == before[i]);
                        assert(models(before)[i] == before[i]@);
                    }
                    assert(models(air@)[i] == air@[i]@);
                }
            }
            k = k + 1;
        }
        World { air }
    }

    /// Number of particles; constant across steps.
    pub fn size(&self) -> (n: usize)
        ensures
            n as int == self@.len(),
    {
        self.air.len()
    }

    /// Read-only snapshot of the particle positions, in population order.
    pub fn positions(&self) -> (r: Vec<Vec2D>)
        ensures
            r@.len() == self@.len(),
            forall|i: int| 0 <= i < self@.len() ==> (#[trigger] r@[i])@ == self@[i].s,
    {
        let mut out: Vec<Vec2D> = Vec::new();
        let mut k: usize = 0;
        while k < self.air.len()
            invariant
                k <= self.air@.len(),
                out@.len() == k,
                forall|i: int| 0 <= i < k ==> (#[trigger] out@[i])@ == models(self.air@)[i].s,
            decreases self.air@.len() - k,
        {
            out.push(self.air[k].s);
            k = k + 1;
        }
        out
    }

    /// Phase one of a step: detect collisions against the stable current
    /// population and resolve every colliding pair on a working copy, in
    /// parallel under the lock.
    fn do_collisions(&self) -> (r: Vec<Particle>)
        ensures
            r@.len() == self@.len(),
            forall|i: int|
                0 <= i < self@.len() ==> (#[trigger] r@[i]).mass as int == self@[i].mass
                    && r@[i].radius as int == self@[i].radius && r@[i].s@ == self@[i].s,
            exists|pairs: Seq<(usize, usize)>|
                #[trigger] detected_pairs(self@, pairs) && resolution_outcome(
                    self@,
                    pairs,
                    models(r@),
                ),
    {
        let work = copy_particles(&self.air);
        resolve_collisions(work)
    }

    /// Advance the simulation one step: resolve all detected collisions,
    /// then integrate every position by its (possibly just-updated)
    /// velocity. The population size is invariant, every particle keeps its
    /// mass and radius, and the new state is exactly the integration of some
    /// serial-order resolution of the colliding pairs detected on the old
    /// population -- every phase-1 write is visible to phase 2.
    pub fn update_positions(&mut self)
        ensures
            final(self)@.len() == old(self)@.len(),
            forall|i: int|
                0 <= i < old(self)@.len() ==> (#[trigger] final(self)@[i]).mass
                    == old(self)@[i].mass && final(self)@[i].radius == old(self)@[i].radius,
            exists|pairs: Seq<(usize, usize)>, mid: Seq<ParticleModel>|
                #[trigger] detected_pairs(old(self)@, pairs) && #[trigger] resolution_outcome(
                    old(self)@,
                    pairs,
                    mid,
                ) && final(self)@ == mid.map_values(|p: ParticleModel| spec_integrate(p)),
    {
        let mut new_air = self.do_collisions();
        let ghost mid = models(new_air@);
        let ghost pairs = choose|pairs: Seq<(usize, usize)>|
            #[trigger] detected_pairs(old(self)@, pairs) && resolution_outcome(
                old(self)@,
                pairs,
                mid,
            );
        integrate_all(&mut new_air);
        proof {
            let f = |p: ParticleModel| spec_integrate(p);
            assert(models(new_air@) =~= mid.map_values(f)) by {
                assert forall|i: int| 0 <= i < mid.len() implies models(new_air@)[i]
                    == mid.map_values(f)[i] by {
                    assert(models(new_air@)[i] == new_air@[i]@);
                }
            }
            assert(detected_pairs(old(self)@, pairs) && resolution_outcome(
                old(self)@,
                pairs,
                mid,
            ));
        }
        self.air = new_air;
    }
}

} // verus!
