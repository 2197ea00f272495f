use darts::board::{canonical_aim_points, BoardConfig, DartThrow};
use darts::rank::{rank_results, run_comparison_simulations};
use darts::sim::{run_simulation, SimulationInput, SimulationResult};
use rand::rngs::StdRng;
use rand::{Rng, SeedableRng};
use rand_distr::Normal;

fn sample_throws(rng: &mut StdRng, aim: DartThrow, dispersion: i64, n: usize) -> Vec<DartThrow> {
    let dist_x = Normal::new(aim.x as f64, dispersion as f64).unwrap();
    let dist_y = Normal::new(aim.y as f64, dispersion as f64).unwrap();
    let mut throws = Vec::with_capacity(n);
    for _ in 0..n {
        let x: f64 = rng.sample(dist_x);
        let y: f64 = rng.sample(dist_y);
        throws.push(DartThrow { x: x.round() as i64, y: y.round() as i64 });
    }
    throws
}

/// Mean of a is at least mean of b, compared exactly by cross-multiplication.
fn mean_at_least(a: &SimulationResult, b: &SimulationResult) -> bool {
    (a.total_score as u128) * (b.n_sims as u128) >= (b.total_score as u128) * (a.n_sims as u128)
}

fn run_comparison(dispersion: i64, n_sims: usize, seed: u64) -> Vec<(SimulationInput, SimulationResult)> {
    let b = BoardConfig::standard();
    let mut rng = StdRng::seed_from_u64(seed);
    let aims = canonical_aim_points();
    let mut inputs: Vec<SimulationInput> = Vec::new();
    let mut throws: Vec<Vec<DartThrow>> = Vec::new();
    for aim in aims.iter() {
        inputs.push(SimulationInput { aim: *aim, dispersion, n_sims: n_sims as i32 });
        throws.push(sample_throws(&mut rng, *aim, dispersion, n_sims));
    }
    run_comparison_simulations(&b, inputs, &throws)
}

#[test]
fn test_comparison_sorted_non_increasing_by_mean() {
    // A moderate 25 mm of scatter across all eight canonical aim points.
    let ranked = run_comparison(2500, 2000, 1234);
    assert_eq!(ranked.len(), 8);
    for w in ranked.windows(2) {
        assert!(mean_at_least(&w[0].1, &w[1].1));
    }
    for (_, result) in ranked.iter() {
        let total_count: u64 = result.score_counts.iter().sum();
        assert_eq!(total_count, 2000);
    }
}

#[test]
fn test_tight_grouping_favors_the_treble_twenty() {
    // With 1 mm of scatter every aim lands where it points: the treble
    // targets score their full triples, so T20 (60 points a throw) leads
    // and the bullseye (50) sits between T17 (51) and T16 (48).
    let ranked = run_comparison(100, 1000, 99);
    assert_eq!(ranked[0].0.aim, DartThrow { x: 0, y: 10300 });
    assert_eq!(ranked[0].1.total_score, 60 * 1000);
    let bull_rank = ranked
        .iter()
        .position(|(inp, _)| inp.aim == (DartThrow { x: 0, y: 0 }))
        .unwrap();
    assert_eq!(bull_rank, 4);
}

#[test]
fn test_wide_scatter_favors_the_bullseye_aim() {
    // With 45 mm of scatter the treble bands are hit rarely from anywhere,
    // and aiming at the center keeps more throws on the board than aiming
    // near its edge: the bullseye aim outranks the T20 aim.
    let ranked = run_comparison(4500, 4000, 2024);
    let bull_rank = ranked
        .iter()
        .position(|(inp, _)| inp.aim == (DartThrow { x: 0, y: 0 }))
        .unwrap();
    let t20_rank = ranked
        .iter()
        .position(|(inp, _)| inp.aim == (DartThrow { x: 0, y: 10300 }))
        .unwrap();
    assert!(bull_rank < t20_rank);
}

#[test]
fn test_rank_results_is_stable_on_ties() {
    // Two runs with equal means keep their original order; a higher mean
    // moves ahead of both.
    let b = BoardConfig::standard();
    let bull = DartThrow { x: 0, y: 0 };
    let first = SimulationInput { aim: DartThrow { x: 1, y: 0 }, dispersion: 1, n_sims: 2 };
    let second = SimulationInput { aim: DartThrow { x: 2, y: 0 }, dispersion: 1, n_sims: 2 };
    let third = SimulationInput { aim: DartThrow { x: 0, y: 10300 }, dispersion: 1, n_sims: 2 };
    // Equal means: two inner bullseyes each.
    let tied = vec![bull, bull];
    let r1 = run_simulation(&b, &first, &tied);
    let r2 = run_simulation(&b, &second, &tied);
    // Higher mean: two triple twenties.
    let t20 = DartThrow { x: 0, y: 10300 };
    let r3 = run_simulation(&b, &third, &vec![t20, t20]);
    let ranked = rank_results(vec![(first, r1), (second, r2), (third, r3)]);
    assert_eq!(ranked[0].0, third);
    assert_eq!(ranked[1].0, first);
    assert_eq!(ranked[2].0, second);
}

#[test]
fn test_canonical_aim_points_table() {
    let aims = canonical_aim_points();
    assert_eq!(aims.len(), 8);
    assert_eq!(aims[0], DartThrow { x: 0, y: 0 });
    assert_eq!(aims[1], DartThrow { x: 0, y: 10300 });
    assert_eq!(aims[2], DartThrow { x: -3183, y: -9796 });
    assert_eq!(aims[7], DartThrow { x: -9796, y: 3183 });
    // Every non-bullseye canonical point sits on the triple-ring midline
    // and scores its triple exactly.
    let b = BoardConfig::standard();
    let expected_triples: [u8; 7] = [60, 57, 54, 51, 48, 45, 42];
    for i in 1..8 {
        let s = darts::score::compute_score(&b, aims[i]);
        assert_eq!(s.value, expected_triples[i - 1]);
    }
}
