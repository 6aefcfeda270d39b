//! The swarm engine: its state, and the decisions of each iteration.
//!
//! An iteration has two halves. First every particle's fitness is recorded
//! (`evaluate`), which updates the personal bests, finds the neighbourhood
//! best of the swarm and updates the global best. Then every particle takes
//! its step (`advance`), which stores its new velocity and clamps its moved
//! position into the bounds. What is computed on the real values themselves
//! (the objective, the velocity rule and the sum of position and velocity) is
//! handed in by the caller as ordered keys.
use vstd::prelude::*;

use crate::ordered::{
    INFINITY, ZERO, bounds_ok, clamp_all, clamped_all, is_real, within,
};
use crate::particle::{Particle, ParticleModel, with_fitness};

verus! {

/// What an engine holds, as mathematical values.
pub struct EngineModel {
    pub bounds: Seq<(i64, i64)>,
    pub swarm: Seq<ParticleModel>,
    pub global_best: Seq<i64>,
    pub global_best_fitness: i64,
    pub max_iterations: i64,
    pub w: i64,
    pub c1: i64,
    pub c2: i64,
}

/// The best fitness and its position over the swarm, taken in swarm order
/// from positive infinity: a particle whose best fitness is no worse than the
/// best so far takes its place, so of equal ones the last wins.
pub open spec fn neighbourhood_best(s: Seq<ParticleModel>) -> (i64, Seq<i64>)
    decreases s.len(),
{
    if s.len() == 0 {
        (INFINITY, Seq::empty())
    } else {
        let prev = neighbourhood_best(s.drop_last());
        let p = s.last();
        if p.best_fitness <= prev.0 {
            (p.best_fitness, p.personal_best)
        } else {
            prev
        }
    }
}

/// The swarm after fitness `f[i]` is recorded for each particle `i`.
pub open spec fn evaluated_swarm(s: Seq<ParticleModel>, f: Seq<i64>) -> Seq<ParticleModel> {
    Seq::new(s.len(), |i: int| with_fitness(s[i], f[i]))
}

/// The engine after the first half of an iteration with fitnesses `f`: the
/// particles' bests are updated, and the neighbourhood best becomes the
/// global best where it is no worse than it.
pub open spec fn evaluated(m: EngineModel, f: Seq<i64>) -> EngineModel {
    let s = evaluated_swarm(m.swarm, f);
    let nb = neighbourhood_best(s);
    if nb.0 <= m.global_best_fitness {
        EngineModel { swarm: s, global_best: nb.1, global_best_fitness: nb.0, ..m }
    } else {
        EngineModel { swarm: s, ..m }
    }
}

/// Particle `p` after its step: velocity `v`, and position `x` clamped.
pub open spec fn moved(p: ParticleModel, v: Seq<i64>, x: Seq<i64>, bounds: Seq<(i64, i64)>) -> ParticleModel {
    ParticleModel { velocity: v, position: clamped_all(x, bounds), ..p }
}

/// The engine after particle `i` takes its step to `x` with velocity `v`.
pub open spec fn advanced(m: EngineModel, i: int, v: Seq<i64>, x: Seq<i64>) -> EngineModel {
    EngineModel { swarm: m.swarm.update(i, moved(m.swarm[i], v, x, m.bounds)), ..m }
}

/// A vector of `n` components, each `k`.
pub open spec fn filled(n: nat, k: i64) -> Seq<i64> {
    Seq::new(n, |j: int| k)
}

/// A fresh engine: one minimizing particle at rest at each given position,
/// and the global best at positive infinity in every dimension.
pub open spec fn initial(
    max_iterations: i64,
    bounds: Seq<(i64, i64)>,
    w: i64,
    c1: i64,
    c2: i64,
    positions: Seq<Seq<i64>>,
) -> EngineModel {
    EngineModel {
        bounds,
        swarm: Seq::new(
            positions.len(),
            |i: int|
                ParticleModel {
                    best_fitness: INFINITY,
                    fitness: INFINITY,
                    position: positions[i],
                    velocity: filled(bounds.len(), ZERO),
                    personal_best: Seq::empty(),
                },
        ),
        global_best: filled(bounds.len(), INFINITY),
        global_best_fitness: INFINITY,
        max_iterations,
        w,
        c1,
        c2,
    }
}

/// The particle that reports the outcome of a run.
pub open spec fn outcome(m: EngineModel) -> ParticleModel {
    ParticleModel {
        best_fitness: m.global_best_fitness,
        fitness: m.global_best_fitness,
        position: m.global_best,
        velocity: filled(m.global_best.len(), ZERO),
        personal_best: m.global_best,
    }
}

/// A particle of a swarm over `bounds`.
pub open spec fn particle_ok(p: ParticleModel, bounds: Seq<(i64, i64)>) -> bool {
    &&& within(p.position, bounds)
    &&& p.velocity.len() == bounds.len()
    &&& p.best_fitness <= INFINITY
    &&& (p.personal_best.len() == bounds.len() || (p.personal_best.len() == 0
        && p.best_fitness == INFINITY))
}

/// The engine's invariant: a non-empty swarm, well-formed bounds, particles
/// of the right dimension inside the bounds, and a global best fitness that
/// is the least best fitness of the swarm.
pub open spec fn engine_ok(m: EngineModel) -> bool {
    &&& m.swarm.len() >= 1
    &&& bounds_ok(m.bounds)
    &&& m.global_best.len() == m.bounds.len()
    &&& m.global_best_fitness == neighbourhood_best(m.swarm).0
    &&& forall|i: int| 0 <= i < m.swarm.len() ==> particle_ok(#[trigger] m.swarm[i], m.bounds)
}

/// Fitnesses for a swarm of `n` particles, each a real value.
pub open spec fn fitnesses_ok(f: Seq<i64>, n: int) -> bool {
    f.len() == n && forall|i: int| 0 <= i < n ==> is_real(#[trigger] f[i])
}

/// Owns the swarm, the bounds, the parameters and the global best.
pub struct PSOEngine {
    bounds: Vec<(i64, i64)>,
    swarm: Vec<Particle>,
    globalBest: Vec<i64>,
    globalBestFitness: i64,
    maxIterations: i64,
    w: i64,
    c1: i64,
    c2: i64,
}

impl View for PSOEngine {
    type V = EngineModel;

    closed spec fn view(&self) -> EngineModel {
        EngineModel {
            bounds: self.bounds@,
            swarm: self.swarm@.map_values(|p: Particle| p@),
            global_best: self.globalBest@,
            global_best_fitness: self.globalBestFitness,
            max_iterations: self.maxIterations,
            w: self.w,
            c1: self.c1,
            c2: self.c2,
        }
    }
}

/// Where every best fitness is at most positive infinity, the neighbourhood
/// best of a non-empty swarm is the best of its last particle with the least
/// best fitness: no particle is better, and every later one is worse.
pub proof fn lemma_neighbourhood_best(s: Seq<ParticleModel>)
    requires
        s.len() >= 1,
        forall|j: int| 0 <= j < s.len() ==> (#[trigger] s[j]).best_fitness <= INFINITY,
    ensures
        exists|i: int|
            0 <= i < s.len() && neighbourhood_best(s) == (s[i].best_fitness, s[i].personal_best)
                && forall|j: int| i < j < s.len() ==> neighbourhood_best(s).0 < (#[trigger] s[j]).best_fitness,
        forall|j: int| 0 <= j < s.len() ==> neighbourhood_best(s).0 <= (#[trigger] s[j]).best_fitness,
    decreases s.len(),
{
    let d = s.drop_last();
    let n = s.len() - 1;
    if d.len() == 0 {
        assert(neighbourhood_best(d).0 == INFINITY);
        assert(s[n].best_fitness <= INFINITY);
        assert(neighbourhood_best(s) == (s[0].best_fitness, s[0].personal_best));
    } else {
        assert forall|j: int| 0 <= j < d.len() implies (#[trigger] d[j]).best_fitness <= INFINITY by {
            assert(d[j] == s[j]);
        }
        lemma_neighbourhood_best(d);
        let i0 = choose|i: int|
            0 <= i < d.len() && neighbourhood_best(d) == (d[i].best_fitness, d[i].personal_best)
                && forall|j: int| i < j < d.len() ==> neighbourhood_best(d).0 < (#[trigger] d[j]).best_fitness;
        if s[n].best_fitness <= neighbourhood_best(d).0 {
            assert(neighbourhood_best(s) == (s[n].best_fitness, s[n].personal_best));
            assert forall|j: int| 0 <= j < s.len() implies neighbourhood_best(s).0 <= (#[trigger] s[j]).best_fitness by {
                if j < n {
                    assert(d[j] == s[j]);
                }
            }
        } else {
            assert(neighbourhood_best(s) == neighbourhood_best(d));
            assert(d[i0] == s[i0]);
            assert forall|j: int| i0 < j < s.len() implies neighbourhood_best(s).0 < (#[trigger] s[j]).best_fitness by {
                if j < n {
                    assert(d[j] == s[j]);
                }
            }
            assert forall|j: int| 0 <= j < s.len() implies neighbourhood_best(s).0 <= (#[trigger] s[j]).best_fitness by {
                if j < n {
                    assert(d[j] == s[j]);
                }
            }
        }
    }
}

/// Where no particle's best fitness is worse in `t` than in `s`, the
/// neighbourhood best fitness is no worse in `t` either.
proof fn lemma_neighbourhood_best_monotone(s: Seq<ParticleModel>, t: Seq<ParticleModel>)
    requires
        s.len() == t.len(),
        forall|j: int| 0 <= j < s.len() ==> (#[trigger] t[j]).best_fitness <= s[j].best_fitness,
    ensures
        neighbourhood_best(t).0 <= neighbourhood_best(s).0,
    decreases s.len(),
{
    if s.len() > 0 {
        let n = s.len() - 1;
        assert forall|j: int| 0 <= j < n implies (#[trigger] t.drop_last()[j]).best_fitness
            <= s.drop_last()[j].best_fitness by {
            assert(t[j].best_fitness <= s[j].best_fitness);
        }
        lemma_neighbourhood_best_monotone(s.drop_last(), t.drop_last());
        assert(t[n].best_fitness <= s[n].best_fitness);
    }
}

/// The neighbourhood best reads only the particles' best fitnesses and
/// personal bests.
proof fn lemma_neighbourhood_best_same(s: Seq<ParticleModel>, t: Seq<ParticleModel>)
    requires
        s.len() == t.len(),
        forall|j: int|
            0 <= j < s.len() ==> (#[trigger] t[j]).best_fitness == s[j].best_fitness
                && t[j].personal_best == s[j].personal_best,
    ensures
        neighbourhood_best(t) == neighbourhood_best(s),
    decreases s.len(),
{
    if s.len() > 0 {
        let n = s.len() - 1;
        assert forall|j: int| 0 <= j < n implies (#[trigger] t.drop_last()[j]).best_fitness
            == s.drop_last()[j].best_fitness && t.drop_last()[j].personal_best
            == s.drop_last()[j].personal_best by {
            assert(t[j].best_fitness == s[j].best_fitness);
        }
        lemma_neighbourhood_best_same(s.drop_last(), t.drop_last());
        assert(t[n].best_fitness == s[n].best_fitness);
    }
}

/// Recording real fitnesses keeps the engine's invariant. The neighbourhood
/// best then always becomes the global best, and afterwards every particle's
/// position, velocity and personal best have one component per dimension.
pub proof fn lemma_evaluation_keeps_invariant(m: EngineModel, f: Seq<i64>)
    requires
        engine_ok(m),
        fitnesses_ok(f, m.swarm.len() as int),
    ensures
        engine_ok(evaluated(m, f)),
        evaluated(m, f).global_best == neighbourhood_best(evaluated(m, f).swarm).1,
        evaluated(m, f).global_best_fitness == neighbourhood_best(evaluated(m, f).swarm).0,
        forall|i: int|
            0 <= i < m.swarm.len() ==> {
                let p = #[trigger] evaluated(m, f).swarm[i];
                &&& p.position.len() == m.bounds.len()
                &&& p.velocity.len() == m.bounds.len()
                &&& p.personal_best.len() == m.bounds.len()
            },
{
    let s = evaluated_swarm(m.swarm, f);
    assert forall|j: int| 0 <= j < s.len() implies (#[trigger] s[j]).best_fitness
        <= m.swarm[j].best_fitness && s[j].best_fitness <= INFINITY
        && s[j].personal_best.len() == m.bounds.len() && particle_ok(s[j], m.bounds) by {
        assert(particle_ok(m.swarm[j], m.bounds));
        assert(is_real(f[j]));
    }
    lemma_neighbourhood_best_monotone(m.swarm, s);
    lemma_neighbourhood_best(s);
    let r = evaluated(m, f);
    assert(r.swarm == s);
}

/// A particle's step keeps the engine's invariant: in particular every
/// position stays inside the bounds, whatever step was handed in.
pub proof fn lemma_step_keeps_invariant(m: EngineModel, i: int, v: Seq<i64>, x: Seq<i64>)
    requires
        engine_ok(m),
        0 <= i < m.swarm.len(),
        v.len() == m.bounds.len(),
        x.len() == m.bounds.len(),
    ensures
        engine_ok(advanced(m, i, v, x)),
        advanced(m, i, v, x).global_best == m.global_best,
        advanced(m, i, v, x).global_best_fitness == m.global_best_fitness,
        forall|k: int|
            0 <= k < m.swarm.len() ==> within(
                (#[trigger] advanced(m, i, v, x).swarm[k]).position,
                m.bounds,
            ),
{
    let r = advanced(m, i, v, x);
    let c = clamped_all(x, m.bounds);
    assert forall|j: int| 0 <= j < c.len() implies m.bounds[j].0 <= #[trigger] c[j] <= m.bounds[j].1 by {
        assert(m.bounds[j].0 <= m.bounds[j].1);
    }
    assert forall|k: int| 0 <= k < r.swarm.len() implies particle_ok(#[trigger] r.swarm[k], m.bounds) by {
        assert(particle_ok(m.swarm[k], m.bounds));
    }
    lemma_neighbourhood_best_same(m.swarm, r.swarm);
}

/// A fresh engine meets the invariant.
proof fn lemma_initial_ok(m: EngineModel)
    requires
        m.swarm.len() >= 1,
        bounds_ok(m.bounds),
        m.global_best == filled(m.bounds.len(), INFINITY),
        m.global_best_fitness == INFINITY,
        forall|i: int|
            0 <= i < m.swarm.len() ==> {
                let p = #[trigger] m.swarm[i];
                &&& within(p.position, m.bounds)
                &&& p.velocity.len() == m.bounds.len()
                &&& p.best_fitness == INFINITY
                &&& p.personal_best.len() == 0
            },
    ensures
        engine_ok(m),
{
    lemma_neighbourhood_best(m.swarm);
}

/// A vector of `n` components, each `k`.
fn filled_vec(n: usize, k: i64) -> (r: Vec<i64>)
    ensures
        r@ == filled(n as nat, k),
{
    let mut r: Vec<i64> = Vec::with_capacity(n);
    let mut j: usize = 0;
    while j < n
        invariant
            j <= n,
            r@ =~= filled(j as nat, k),
        decreases n - j,
    {
        r.push(k);
        j += 1;
    }
    r
}

impl PSOEngine {
    /// Builds an engine over `bounds` (one `(lower, upper)` pair per
    /// dimension) with one minimizing particle at rest at each of the given
    /// starting positions, which lie inside the bounds.
    pub fn new(
        swarmSize: usize,
        maxIterations: i64,
        dimensions: usize,
        bounds: Vec<(i64, i64)>,
        w: i64,
        c1: i64,
        c2: i64,
        positions: Vec<Vec<i64>>,
    ) -> (e: Self)
        requires
            swarmSize >= 1,
            positions.len() == swarmSize,
            bounds.len() == dimensions,
            bounds_ok(bounds@),
            forall|i: int| 0 <= i < positions.len() ==> within((#[trigger] positions[i])@, bounds@),
        ensures
            e@ == initial(maxIterations, bounds@, w, c1, c2, positions@.map_values(|x: Vec<i64>| x@)),
            engine_ok(e@),
    {
        let ghost m = initial(maxIterations, bounds@, w, c1, c2, positions@.map_values(|x: Vec<i64>| x@));
        let mut swarm: Vec<Particle> = Vec::with_capacity(swarmSize);
        let mut i: usize = 0;
        while i < swarmSize
            invariant
                i <= swarmSize,
                positions.len() == swarmSize,
                bounds.len() == dimensions,
                m == initial(maxIterations, bounds@, w, c1, c2, positions@.map_values(|x: Vec<i64>| x@)),
                swarm@.len() == i,
                forall|k: int| 0 <= k < i ==> (#[trigger] swarm@[k])@ == m.swarm[k],
            decreases swarmSize - i,
        {
            let velocity = filled_vec(dimensions, ZERO);
            let particle = Particle::newMinimizer(positions[i].clone(), velocity);
            swarm.push(particle);
            i += 1;
        }
        let globalBest = filled_vec(dimensions, INFINITY);
        let e = PSOEngine {
            bounds,
            swarm,
            globalBest,
            globalBestFitness: INFINITY,
            maxIterations,
            w,
            c1,
            c2,
        };
        proof {
            assert(e@.swarm =~= m.swarm);
            assert(e@ == m);
            lemma_initial_ok(m);
        }
        e
    }

    /// Whether `new` accepts these arguments: a non-empty swarm with one
    /// starting position per particle, one bound per dimension with its lower
    /// end no greater than its upper end, and every position inside them.
    pub fn accepts(
        swarmSize: usize,
        dimensions: usize,
        bounds: &Vec<(i64, i64)>,
        positions: &Vec<Vec<i64>>,
    ) -> (r: bool)
        ensures
            r == (swarmSize >= 1 && positions.len() == swarmSize && bounds.len() == dimensions
                && bounds_ok(bounds@) && forall|i: int|
                0 <= i < positions.len() ==> within((#[trigger] positions[i])@, bounds@)),
    {
        if swarmSize < 1 || positions.len() != swarmSize || bounds.len() != dimensions {
            return false;
        }
        let mut j: usize = 0;
        while j < bounds.len()
            invariant
                j <= bounds.len(),
                forall|k: int| 0 <= k < j ==> (#[trigger] bounds@[k]).0 <= bounds@[k].1,
            decreases bounds.len() - j,
        {
            if bounds[j].0 > bounds[j].1 {
                return false;
            }
            j += 1;
        }
        let mut i: usize = 0;
        while i < positions.len()
            invariant
                i <= positions.len(),
                forall|k: int| 0 <= k < bounds.len() ==> (#[trigger] bounds@[k]).0 <= bounds@[k].1,
                forall|k: int| 0 <= k < i ==> within((#[trigger] positions[k])@, bounds@),
            decreases positions.len() - i,
        {
            let x = &positions[i];
            if x.len() != bounds.len() {
                return false;
            }
            let mut j: usize = 0;
            while j < x.len()
                invariant
                    j <= x.len(),
                    x.len() == bounds.len(),
                    i < positions.len(),
                    x@ == positions@[i as int]@,
                    forall|k: int| 0 <= k < i ==> within((#[trigger] positions[k])@, bounds@),
                    forall|k: int| 0 <= k < bounds.len() ==> (#[trigger] bounds@[k]).0 <= bounds@[k].1,
                    forall|k: int| 0 <= k < j ==> bounds@[k].0 <= #[trigger] x@[k] <= bounds@[k].1,
                decreases x.len() - j,
            {
                if x[j] < bounds[j].0 || x[j] > bounds[j].1 {
                    assert(!within(positions@[i as int]@, bounds@));
                    return false;
                }
                j += 1;
            }
            i += 1;
        }
        true
    }

    /// The first half of an iteration: records `fitnesses[i]` as the fitness
    /// of particle `i`, updates the personal bests, and makes the
    /// neighbourhood best the global best where it is no worse.
    pub fn evaluate(&mut self, fitnesses: &Vec<i64>)
        requires
            engine_ok(old(self)@),
            fitnesses_ok(fitnesses@, old(self)@.swarm.len() as int),
        ensures
            final(self)@ == evaluated(old(self)@, fitnesses@),
            engine_ok(final(self)@),
    {
        let ghost m0 = self@;
        let ghost es = evaluated_swarm(m0.swarm, fitnesses@);
        let mut nbf: i64 = INFINITY;
        let mut nbp: Vec<i64> = Vec::new();
        let mut i: usize = 0;
        while i < self.swarm.len()
            invariant
                self.swarm.len() == m0.swarm.len(),
                fitnesses.len() == m0.swarm.len(),
                i <= self.swarm.len(),
                self.bounds@ == m0.bounds,
                self.globalBest@ == m0.global_best,
                self.globalBestFitness == m0.global_best_fitness,
                self.maxIterations == m0.max_iterations,
                self.w == m0.w,
                self.c1 == m0.c1,
                self.c2 == m0.c2,
                es == evaluated_swarm(m0.swarm, fitnesses@),
                forall|k: int| 0 <= k < i ==> (#[trigger] self.swarm@[k])@ == es[k],
                forall|k: int| i <= k < self.swarm.len() ==> (#[trigger] self.swarm@[k])@ == m0.swarm[k],
                (nbf, nbp@) == neighbourhood_best(es.take(i as int)),
            decreases self.swarm.len() - i,
        {
            let f = fitnesses[i];
            let p = &mut self.swarm[i];
            p.set_fitness(f);
            p.update_personal_best();
            if p.bestFitness <= nbf {
                nbf = p.bestFitness;
                nbp = p.personalBest.clone();
            }
            proof {
                assert(es.take(i + 1).drop_last() =~= es.take(i as int));
            }
            i += 1;
        }
        if nbf <= self.globalBestFitness {
            self.globalBestFitness = nbf;
            self.globalBest = nbp;
        }
        proof {
            assert(es.take(i as int) =~= es);
            assert(self@.swarm =~= es);
            lemma_evaluation_keeps_invariant(m0, fitnesses@);
        }
    }

    /// The second half of an iteration for particle `i`: `velocity` becomes
    /// its velocity, and `moved` (its position plus that velocity) clamped
    /// into the bounds becomes its position.
    pub fn advance(&mut self, i: usize, velocity: Vec<i64>, moved: Vec<i64>)
        requires
            engine_ok(old(self)@),
            i < old(self)@.swarm.len(),
            velocity.len() == old(self)@.bounds.len(),
            moved.len() == old(self)@.bounds.len(),
        ensures
            final(self)@ == advanced(old(self)@, i as int, velocity@, moved@),
            engine_ok(final(self)@),
    {
        let ghost m0 = self@;
        let position = clamp_all(&moved, &self.bounds);
        let p = &mut self.swarm[i];
        p.velocity = velocity;
        p.position = position;
        proof {
            assert(self@.swarm =~= advanced(m0, i as int, velocity@, moved@).swarm);
            lemma_step_keeps_invariant(m0, i as int, velocity@, moved@);
        }
    }

    /// The number of iterations a run takes.
    pub fn maxIterations(&self) -> (r: i64)
        ensures
            r == self@.max_iterations,
    {
        self.maxIterations
    }

    /// The bounds, one `(lower, upper)` pair per dimension.
    pub fn bounds(&self) -> (r: &Vec<(i64, i64)>)
        ensures
            r@ == self@.bounds,
    {
        &self.bounds
    }

    /// The particles, in swarm order.
    pub fn swarm(&self) -> (r: &Vec<Particle>)
        ensures
            r@.map_values(|p: Particle| p@) == self@.swarm,
    {
        &self.swarm
    }

    /// The best position found so far.
    pub fn globalBest(&self) -> (r: &Vec<i64>)
        ensures
            r@ == self@.global_best,
    {
        &self.globalBest
    }

    /// The best fitness found so far.
    pub fn globalBestFitness(&self) -> (r: i64)
        ensures
            r == self@.global_best_fitness,
    {
        self.globalBestFitness
    }

    /// The inertia weight.
    pub fn w(&self) -> (r: i64)
        ensures
            r == self@.w,
    {
        self.w
    }

    /// The cognitive coefficient.
    pub fn c1(&self) -> (r: i64)
        ensures
            r == self@.c1,
    {
        self.c1
    }

    /// The social coefficient.
    pub fn c2(&self) -> (r: i64)
        ensures
            r == self@.c2,
    {
        self.c2
    }

    /// The particle that reports the outcome: the global best position and
    /// fitness, at rest.
    pub fn final_particle(&self) -> (p: Particle)
        ensures
            p@ == outcome(self@),
    {
        Particle::newFinal(
            self.globalBest.clone(),
            filled_vec(self.globalBest.len(), ZERO),
            self.globalBestFitness,
        )
    }
}

/// The global best fitness never gets worse: recording fitnesses leaves it
/// no worse than before, and a particle's step leaves it as it is.
pub proof fn lemma_global_best_never_worsens(m: EngineModel, f: Seq<i64>, i: int, v: Seq<i64>, x: Seq<i64>)
    ensures
        evaluated(m, f).global_best_fitness <= m.global_best_fitness,
        advanced(m, i, v, x).global_best_fitness == m.global_best_fitness,
{
}

/// With no iteration run, the outcome has fitness positive infinity and a
/// position at positive infinity in every dimension.
pub proof fn lemma_zero_iterations(
    max_iterations: i64,
    bounds: Seq<(i64, i64)>,
    w: i64,
    c1: i64,
    c2: i64,
    positions: Seq<Seq<i64>>,
)
    ensures
        outcome(initial(max_iterations, bounds, w, c1, c2, positions)).fitness == INFINITY,
        outcome(initial(max_iterations, bounds, w, c1, c2, positions)).best_fitness == INFINITY,
        outcome(initial(max_iterations, bounds, w, c1, c2, positions)).position == filled(
            bounds.len(),
            INFINITY,
        ),
{
}

/// In a swarm of one particle, once fitness has been recorded, its personal
/// best, the neighbourhood best and the global best are one and the same,
/// and they stay so through its step.
pub proof fn lemma_single_particle(m: EngineModel, f: Seq<i64>, v: Seq<i64>, x: Seq<i64>)
    requires
        engine_ok(m),
        m.swarm.len() == 1,
        fitnesses_ok(f, 1),
        v.len() == m.bounds.len(),
        x.len() == m.bounds.len(),
    ensures
        ({
            let e = evaluated(m, f);
            let p = e.swarm[0];
            &&& neighbourhood_best(e.swarm) == (p.best_fitness, p.personal_best)
            &&& e.global_best_fitness == p.best_fitness
            &&& e.global_best == p.personal_best
        }),
        ({
            let a = advanced(evaluated(m, f), 0, v, x);
            let p = a.swarm[0];
            &&& neighbourhood_best(a.swarm) == (p.best_fitness, p.personal_best)
            &&& a.global_best_fitness == p.best_fitness
            &&& a.global_best == p.personal_best
        }),
{
    let e = evaluated(m, f);
    lemma_evaluation_keeps_invariant(m, f);
    lemma_neighbourhood_best(e.swarm);
    lemma_step_keeps_invariant(e, 0, v, x);
    let a = advanced(e, 0, v, x);
    lemma_neighbourhood_best_same(e.swarm, a.swarm);
}

} // verus!
