use darts::board::{BoardConfig, DartThrow};
use darts::sim::{
    run_simulation, simulate, validate_input, SimulationError, SimulationInput,
};
use rand::rngs::StdRng;
use rand::{Rng, SeedableRng};
use rand_distr::Normal;

/// Draws n independent landing coordinates around the aim point, with the
/// given Gaussian dispersion, all in hundredths of a millimeter.
fn sample_throws(rng: &mut StdRng, aim: DartThrow, dispersion: i64, n: usize) -> Vec<DartThrow> {
    let dist_x = Normal::new(aim.x as f64, dispersion as f64).unwrap();
    let dist_y = Normal::new(aim.y as f64, dispersion as f64).unwrap();
    let mut throws = Vec::with_capacity(n);
    for _ in 0..n {
        let x: f64 = rng.sample(dist_x);
        let y: f64 = rng.sample(dist_y);
        throws.push(DartThrow { x: x.round() as i64, y: y.round() as i64 });
    }
    throws
}

#[test]
fn test_validate_rejects_non_positive_dispersion() {
    let input = SimulationInput { aim: DartThrow { x: 0, y: 0 }, dispersion: 0, n_sims: 10 };
    assert_eq!(validate_input(&input), Err(SimulationError::NonPositiveDispersion));
    let negative = SimulationInput { aim: DartThrow { x: 0, y: 0 }, dispersion: -500, n_sims: 10 };
    assert_eq!(validate_input(&negative), Err(SimulationError::NonPositiveDispersion));
}

#[test]
fn test_validate_rejects_non_positive_trials() {
    let input = SimulationInput { aim: DartThrow { x: 0, y: 0 }, dispersion: 1000, n_sims: 0 };
    assert_eq!(validate_input(&input), Err(SimulationError::NonPositiveTrials));
    let negative = SimulationInput { aim: DartThrow { x: 0, y: 0 }, dispersion: 1000, n_sims: -3 };
    assert_eq!(validate_input(&negative), Err(SimulationError::NonPositiveTrials));
}

#[test]
fn test_simulate_rejects_bad_parameters_before_sampling() {
    let b = BoardConfig::standard();
    let aim = DartThrow { x: 0, y: 0 };
    let none: Vec<DartThrow> = Vec::new();
    assert!(matches!(
        simulate(5, 0, aim, &b, &none),
        Err(SimulationError::NonPositiveDispersion)
    ));
    assert!(matches!(
        simulate(0, 1000, aim, &b, &none),
        Err(SimulationError::NonPositiveTrials)
    ));
}

#[test]
fn test_run_simulation_exact_aggregation() {
    let b = BoardConfig::standard();
    let throws = vec![
        DartThrow { x: 0, y: 0 },      // Inner Bullseye, 50
        DartThrow { x: 0, y: 10300 },  // Triple 20, 60
        DartThrow { x: 0, y: 10300 },  // Triple 20, 60
        DartThrow { x: 0, y: 20000 },  // Miss, 0
    ];
    let input = SimulationInput { aim: DartThrow { x: 0, y: 10300 }, dispersion: 1, n_sims: 4 };
    let r = run_simulation(&b, &input, &throws);
    assert_eq!(r.n_sims, 4);
    assert_eq!(r.total_score, 170);
    assert_eq!(r.score_counts.len(), 63);
    assert_eq!(r.score_counts[0], 1); // Miss
    assert_eq!(r.score_counts[2], 1); // Inner Bullseye
    assert_eq!(r.score_counts[62], 2); // Triple 20
    let occupied: u64 = r.score_counts.iter().sum();
    assert_eq!(occupied, 4);
    // Grouped-histogram variance numerator:
    // 1*(50*4-170)^2 + 2*(60*4-170)^2 + 1*(0*4-170)^2 = 900 + 9800 + 28900.
    assert_eq!(r.variance_numerator(), 39600);
}

#[test]
fn test_histogram_counts_always_sum_to_n_sims() {
    let b = BoardConfig::standard();
    let mut rng = StdRng::seed_from_u64(42);
    let aim = DartThrow { x: 0, y: 10300 };
    let n: usize = 5000;
    // 10 mm of dispersion: plenty of misses, singles and ring hits mixed.
    let throws = sample_throws(&mut rng, aim, 1000, n);
    let input = SimulationInput { aim, dispersion: 1000, n_sims: n as i32 };
    let r = run_simulation(&b, &input, &throws);
    let total_count: u64 = r.score_counts.iter().sum();
    assert_eq!(total_count, n as u64);
}

#[test]
fn test_tiny_dispersion_converges_to_exact_score() {
    // 0.01 mm of scatter aimed at the triple-20 midline: every throw stays
    // deep inside the triple band, so the mean is exactly 60 and the
    // standard deviation is exactly zero.
    let b = BoardConfig::standard();
    let mut rng = StdRng::seed_from_u64(7);
    let aim = DartThrow { x: 0, y: 10300 };
    let n: usize = 2000;
    let throws = sample_throws(&mut rng, aim, 1, n);
    let input = SimulationInput { aim, dispersion: 1, n_sims: n as i32 };
    let r = run_simulation(&b, &input, &throws);
    assert_eq!(r.total_score, 60 * n as u64);
    assert_eq!(r.score_counts[62], n as u64);
    assert_eq!(r.variance_numerator(), 0);
    let std_dev = (r.variance_numerator() as f64).sqrt() / (n as f64).powf(1.5);
    assert_eq!(std_dev, 0.0);
}

#[test]
fn test_simulate_accepts_valid_input() {
    let b = BoardConfig::standard();
    let aim = DartThrow { x: 0, y: 0 };
    let mut rng = StdRng::seed_from_u64(11);
    let throws = sample_throws(&mut rng, aim, 2000, 100);
    let r = simulate(100, 2000, aim, &b, &throws).unwrap();
    assert_eq!(r.n_sims, 100);
    let total_count: u64 = r.score_counts.iter().sum();
    assert_eq!(total_count, 100);
    // Mean of any run is at most the highest score on the board.
    assert!(r.total_score <= 60 * 100);
}
