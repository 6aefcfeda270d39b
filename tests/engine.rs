use pso::engine::PSOEngine;
use pso::ordered::{INFINITY, ZERO};

fn two_particles() -> PSOEngine {
    PSOEngine::new(2, 3, 2, vec![(-10, 10), (0, 5)], 1, 2, 3, vec![vec![4, 1], vec![-4, 2]])
}

#[test]
fn new_engine_is_at_rest_with_infinite_best() {
    let e = two_particles();
    assert_eq!(e.maxIterations(), 3);
    assert_eq!(e.bounds(), &vec![(-10, 10), (0, 5)]);
    assert_eq!((e.w(), e.c1(), e.c2()), (1, 2, 3));
    assert_eq!(e.globalBestFitness(), INFINITY);
    assert_eq!(e.globalBest(), &vec![INFINITY, INFINITY]);
    assert_eq!(e.swarm().len(), 2);
    assert_eq!(e.swarm()[0].position, vec![4, 1]);
    assert_eq!(e.swarm()[1].position, vec![-4, 2]);
    for p in e.swarm() {
        assert_eq!(p.velocity, vec![ZERO, ZERO]);
        assert_eq!(p.fitness, INFINITY);
        assert_eq!(p.bestFitness, INFINITY);
        assert!(p.personalBest.is_empty());
    }
}

#[test]
fn zero_iterations_report_infinity() {
    let e = two_particles();
    let r = e.final_particle();
    assert_eq!(r.fitness, INFINITY);
    assert_eq!(r.bestFitness, INFINITY);
    assert_eq!(r.position, vec![INFINITY, INFINITY]);
    assert_eq!(r.personalBest, vec![INFINITY, INFINITY]);
    assert_eq!(r.velocity, vec![ZERO, ZERO]);
}

#[test]
fn later_particle_wins_a_tie() {
    let mut e = two_particles();
    e.evaluate(&vec![5, 5]);
    assert_eq!(e.globalBestFitness(), 5);
    assert_eq!(e.globalBest(), &vec![-4, 2]);
    let r = e.final_particle();
    assert_eq!((r.fitness, r.position.clone()), (5, vec![-4, 2]));
}

#[test]
fn better_particle_sets_the_global_best() {
    let mut e = two_particles();
    e.evaluate(&vec![3, 8]);
    assert_eq!(e.globalBestFitness(), 3);
    assert_eq!(e.globalBest(), &vec![4, 1]);
    assert_eq!(e.swarm()[0].personalBest, vec![4, 1]);
    assert_eq!(e.swarm()[1].personalBest, vec![-4, 2]);
    assert_eq!(e.swarm()[1].bestFitness, 8);
}

#[test]
fn global_best_fitness_never_increases() {
    let mut e = two_particles();
    let rounds: Vec<Vec<i64>> = vec![vec![9, 7], vec![12, 20], vec![6, 8], vec![30, 30], vec![6, 6]];
    let mut last = e.globalBestFitness();
    for f in &rounds {
        e.evaluate(f);
        assert!(e.globalBestFitness() <= last);
        last = e.globalBestFitness();
        e.advance(0, vec![1, 1], vec![e.swarm()[0].position[0] + 1, e.swarm()[0].position[1] + 1]);
        assert_eq!(e.globalBestFitness(), last);
    }
    assert_eq!(last, 6);
    // Equal fitness six again: the later tie moves the global best.
    assert_eq!(e.globalBest(), &e.swarm()[1].personalBest);
}

#[test]
fn step_clamps_into_the_bounds() {
    let mut e = two_particles();
    e.evaluate(&vec![1, 2]);
    e.advance(0, vec![100, -50], vec![104, -49]);
    assert_eq!(e.swarm()[0].position, vec![10, 0]);
    assert_eq!(e.swarm()[0].velocity, vec![100, -50]);
    e.advance(1, vec![-1, 1], vec![-5, 3]);
    assert_eq!(e.swarm()[1].position, vec![-5, 3]);
    for p in e.swarm() {
        for j in 0..2 {
            let (lo, hi) = e.bounds()[j];
            assert!(lo <= p.position[j] && p.position[j] <= hi);
        }
    }
    // The personal best and the global best are not touched by a step.
    assert_eq!(e.swarm()[0].personalBest, vec![4, 1]);
    assert_eq!(e.globalBest(), &vec![4, 1]);
}

#[test]
fn every_vector_has_one_component_per_dimension() {
    let mut e = two_particles();
    e.evaluate(&vec![4, 4]);
    e.advance(0, vec![0, 0], vec![0, 0]);
    e.advance(1, vec![0, 0], vec![0, 0]);
    e.evaluate(&vec![3, 9]);
    for p in e.swarm() {
        assert_eq!(p.position.len(), 2);
        assert_eq!(p.velocity.len(), 2);
        assert_eq!(p.personalBest.len(), 2);
    }
    assert_eq!(e.globalBest().len(), 2);
}

#[test]
fn single_particle_bests_coincide() {
    let mut e = PSOEngine::new(1, 5, 1, vec![(-10, 10)], 1, 1, 1, vec![vec![3]]);
    let fits = [7, 9, 2, 2, 5];
    let moves = [6, -20, 1, 15, 0];
    for k in 0..fits.len() {
        e.evaluate(&vec![fits[k]]);
        let p = &e.swarm()[0];
        assert_eq!(e.globalBestFitness(), p.bestFitness);
        assert_eq!(e.globalBest(), &p.personalBest);
        e.advance(0, vec![1], vec![moves[k]]);
        let p = &e.swarm()[0];
        assert_eq!(e.globalBestFitness(), p.bestFitness);
        assert_eq!(e.globalBest(), &p.personalBest);
    }
    assert_eq!(e.globalBestFitness(), 2);
    assert_eq!(e.globalBest(), &vec![1]);
}

#[test]
fn same_inputs_give_the_same_run() {
    let mut a = two_particles();
    let mut b = two_particles();
    for (f, x) in [(vec![5, 6], 3), (vec![2, 9], -7), (vec![4, 1], 12)] {
        a.evaluate(&f);
        b.evaluate(&f);
        a.advance(0, vec![x, x], vec![x, x]);
        b.advance(0, vec![x, x], vec![x, x]);
        a.advance(1, vec![-x, x], vec![-x, x]);
        b.advance(1, vec![-x, x], vec![-x, x]);
    }
    let (ra, rb) = (a.final_particle(), b.final_particle());
    assert_eq!(ra.fitness, rb.fitness);
    assert_eq!(ra.position, rb.position);
    for i in 0..2 {
        assert_eq!(a.swarm()[i].position, b.swarm()[i].position);
        assert_eq!(a.swarm()[i].personalBest, b.swarm()[i].personalBest);
    }
}

#[test]
fn accepts_checks_the_setup() {
    let bounds = vec![(-10, 10), (0, 5)];
    let good = vec![vec![4, 1], vec![-4, 2]];
    assert!(PSOEngine::accepts(2, 2, &bounds, &good));
    assert!(!PSOEngine::accepts(0, 2, &bounds, &vec![]));
    assert!(!PSOEngine::accepts(3, 2, &bounds, &good));
    assert!(!PSOEngine::accepts(2, 3, &bounds, &good));
    assert!(!PSOEngine::accepts(2, 2, &vec![(-10, 10), (5, 0)], &vec![vec![4, 1], vec![-4, 2]]));
    assert!(!PSOEngine::accepts(2, 2, &bounds, &vec![vec![4, 6], vec![-4, 2]]));
    assert!(!PSOEngine::accepts(2, 2, &bounds, &vec![vec![4], vec![-4, 2]]));
}
