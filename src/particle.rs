//! One member of the swarm: a candidate point, its step and its best.
use vstd::prelude::*;

use crate::ordered::{INFINITY, NEG_INFINITY};

verus! {

/// A candidate solution. Every real value is an ordered key (see `ordered`).
pub struct Particle {
    /// Best fitness this particle has had.
    pub bestFitness: i64,
    /// Fitness at the current position.
    pub fitness: i64,
    /// Current position, one component per dimension.
    pub position: Vec<i64>,
    /// Step applied to the position, one component per dimension.
    pub velocity: Vec<i64>,
    /// Position at which `bestFitness` was had; empty until the first fitness.
    pub personalBest: Vec<i64>,
}

/// What a particle holds, as mathematical values.
pub struct ParticleModel {
    pub best_fitness: i64,
    pub fitness: i64,
    pub position: Seq<i64>,
    pub velocity: Seq<i64>,
    pub personal_best: Seq<i64>,
}

impl View for Particle {
    type V = ParticleModel;

    open spec fn view(&self) -> ParticleModel {
        ParticleModel {
            best_fitness: self.bestFitness,
            fitness: self.fitness,
            position: self.position@,
            velocity: self.velocity@,
            personal_best: self.personalBest@,
        }
    }
}

/// The particle after fitness `f` is recorded: the fitness is set, and where
/// it is no worse than the best so far (ties go to the newer position), it
/// becomes the best and the current position becomes the personal best.
pub open spec fn with_fitness(p: ParticleModel, f: i64) -> ParticleModel {
    if f <= p.best_fitness {
        ParticleModel { fitness: f, best_fitness: f, personal_best: p.position, ..p }
    } else {
        ParticleModel { fitness: f, ..p }
    }
}

impl Particle {
    /// A particle of a minimizing swarm: fitness and best fitness are positive
    /// infinity, and the personal best is empty.
    pub fn newMinimizer(position: Vec<i64>, velocity: Vec<i64>) -> (p: Self)
        ensures
            p@ == (ParticleModel {
                best_fitness: INFINITY,
                fitness: INFINITY,
                position: position@,
                velocity: velocity@,
                personal_best: Seq::empty(),
            }),
    {
        Particle {
            bestFitness: INFINITY,
            fitness: INFINITY,
            position,
            velocity,
            personalBest: Vec::new(),
        }
    }

    /// A particle of a maximizing swarm: fitness and best fitness are negative
    /// infinity, and the personal best is empty.
    pub fn newMaximizer(position: Vec<i64>, velocity: Vec<i64>) -> (p: Self)
        ensures
            p@ == (ParticleModel {
                best_fitness: NEG_INFINITY,
                fitness: NEG_INFINITY,
                position: position@,
                velocity: velocity@,
                personal_best: Seq::empty(),
            }),
    {
        Particle {
            bestFitness: NEG_INFINITY,
            fitness: NEG_INFINITY,
            position,
            velocity,
            personalBest: Vec::new(),
        }
    }

    /// A particle that reports an outcome: position and personal best are
    /// both `position`, fitness and best fitness both `fitness`.
    pub fn newFinal(position: Vec<i64>, velocity: Vec<i64>, fitness: i64) -> (p: Self)
        ensures
            p@ == (ParticleModel {
                best_fitness: fitness,
                fitness: fitness,
                position: position@,
                velocity: velocity@,
                personal_best: position@,
            }),
    {
        Particle {
            bestFitness: fitness,
            fitness,
            position: position.clone(),
            velocity,
            personalBest: position,
        }
    }

    /// Sets the fitness and nothing else.
    pub fn set_fitness(&mut self, fitness: i64)
        ensures
            final(self)@ == (ParticleModel { fitness: fitness, ..old(self)@ }),
    {
        self.fitness = fitness;
    }

    /// Makes the current fitness the best one, with the current position as
    /// personal best, where it is no worse than the best so far.
    pub fn update_personal_best(&mut self)
        ensures
            final(self)@ == with_fitness(old(self)@, old(self).fitness),
    {
        if self.fitness <= self.bestFitness {
            self.bestFitness = self.fitness;
            self.personalBest = self.position.clone();
        }
    }
}

} // verus!
