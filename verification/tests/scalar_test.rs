use booted::bootstrap::{Bootstrap, BootstrapResult, BootstrapStatistic, Estimator};
use booted::samplers::SamplingStrategy;
use booted::summary::{transpose, Summarizable};
use rand_distr::{Distribution, Normal};

/// A scalar statistic: one floating-point component.
#[derive(Clone, Copy, Debug, PartialEq)]
struct Scalar(f64);

impl BootstrapStatistic for Scalar {
    // The spec_ items are the verifier-facing names of the same algebra;
    // compiled code never calls them.
    fn spec_add(&self, other: &Self) -> Self {
        self.add(other)
    }
    fn spec_sub(&self, other: &Self) -> Self {
        self.sub(other)
    }
    fn spec_scale(&self, num: usize, den: usize) -> Self {
        self.scale(num, den)
    }
    fn spec_zero(len: usize) -> Self {
        Scalar::zero(len)
    }
    fn spec_len(&self) -> usize {
        self.len()
    }
    fn add(&self, other: &Self) -> Self {
        Scalar(self.0 + other.0)
    }
    fn sub(&self, other: &Self) -> Self {
        Scalar(self.0 - other.0)
    }
    fn scale(&self, num: usize, den: usize) -> Self {
        Scalar(self.0 * num as f64 / den as f64)
    }
    fn zero(_len: usize) -> Self {
        Scalar(0.0)
    }
    fn len(&self) -> usize {
        1
    }
}

/// A vector statistic: a fixed number of floating-point components.
#[derive(Clone, Debug, PartialEq)]
struct VecStat(Vec<f64>);

impl BootstrapStatistic for VecStat {
    // The spec_ items are the verifier-facing names of the same algebra;
    // compiled code never calls them.
    fn spec_add(&self, other: &Self) -> Self {
        self.add(other)
    }
    fn spec_sub(&self, other: &Self) -> Self {
        self.sub(other)
    }
    fn spec_scale(&self, num: usize, den: usize) -> Self {
        self.scale(num, den)
    }
    fn spec_zero(len: usize) -> Self {
        VecStat::zero(len)
    }
    fn spec_len(&self) -> usize {
        self.len()
    }
    fn add(&self, other: &Self) -> Self {
        VecStat(self.0.iter().zip(&other.0).map(|(a, b)| a + b).collect())
    }
    fn sub(&self, other: &Self) -> Self {
        VecStat(self.0.iter().zip(&other.0).map(|(a, b)| a - b).collect())
    }
    fn scale(&self, num: usize, den: usize) -> Self {
        VecStat(self.0.iter().map(|a| a * num as f64 / den as f64).collect())
    }
    fn zero(len: usize) -> Self {
        VecStat(vec![0.0; len])
    }
    fn len(&self) -> usize {
        self.0.len()
    }
}

const ONE_SIGMA: f64 = 0.682689492137086;
const TWO_SIGMA: f64 = 0.954499736103642;
const THREE_SIGMA: f64 = 0.997300203936740;

#[derive(Debug, Clone, Copy)]
struct ConfidenceInterval {
    low: f64,
    high: f64,
}

#[derive(Debug, Clone)]
struct Statistics {
    mean: f64,
    median: f64,
    stddev: f64,
    ci_68: ConfidenceInterval,
    ci_95: ConfidenceInterval,
    ci_99: ConfidenceInterval,
}

/// Per-component reduction: mean, unbiased stddev, median, and the three
/// symmetric quantile confidence intervals on the sorted data.
fn calculate_stats(data: &mut [f64]) -> Option<Statistics> {
    if data.is_empty() {
        return None;
    }
    data.sort_by(|a, b| a.partial_cmp(b).unwrap_or(std::cmp::Ordering::Equal));
    let n = data.len() as f64;
    let mean = data.iter().sum::<f64>() / n;
    let variance = data.iter().map(|x| (x - mean).powi(2)).sum::<f64>() / (n - 1.0).max(1.0);
    let stddev = variance.sqrt();
    let mid = data.len() / 2;
    let median = if data.len() % 2 == 0 {
        (data[mid - 1] + data[mid]) / 2.0
    } else {
        data[mid]
    };
    let quantile = |q: f64| -> f64 {
        let idx = (q * (data.len() - 1) as f64).round() as usize;
        data[idx]
    };
    Some(Statistics {
        mean,
        median,
        stddev,
        ci_68: ConfidenceInterval {
            low: quantile((1.0 - ONE_SIGMA) / 2.0),
            high: quantile((1.0 + ONE_SIGMA) / 2.0),
        },
        ci_95: ConfidenceInterval {
            low: quantile((1.0 - TWO_SIGMA) / 2.0),
            high: quantile((1.0 + TWO_SIGMA) / 2.0),
        },
        ci_99: ConfidenceInterval {
            low: quantile((1.0 - THREE_SIGMA) / 2.0),
            high: quantile((1.0 + THREE_SIGMA) / 2.0),
        },
    })
}

#[derive(Debug)]
struct ScalarSummary {
    n_boot: usize,
    replicas: Vec<Scalar>,
    central_val: Scalar,
    failed_samples: usize,
    statistics: Statistics,
}

impl Summarizable<ScalarSummary> for BootstrapResult<Scalar> {
    fn summarize(self) -> ScalarSummary {
        let n_boot = self.n_boot;
        let failed_samples = self.failed_samples;
        let (central_val, replicas) = self.central_or_default();
        let mut data: Vec<f64> = replicas.iter().map(|s| s.0).collect();
        let statistics = calculate_stats(&mut data).expect("No samples to calculate stats");
        ScalarSummary {
            n_boot,
            replicas,
            central_val,
            failed_samples,
            statistics,
        }
    }
}

#[derive(Debug)]
struct VecSummary {
    n_boot: usize,
    replicas: Vec<VecStat>,
    central_val: VecStat,
    failed_samples: usize,
    statistics: Vec<Statistics>,
}

impl Summarizable<VecSummary> for BootstrapResult<VecStat> {
    fn summarize(self) -> VecSummary {
        let n_boot = self.n_boot;
        let failed_samples = self.failed_samples;
        let (central_val, replicas) = self.central_or_default();
        if replicas.is_empty() {
            panic!("No valid bootstrap samples generated.");
        }
        let width = replicas[0].len();
        for r in &replicas {
            assert_eq!(r.len(), width, "replicas must share one shape");
        }
        let rows: Vec<Vec<f64>> = replicas.iter().map(|s| s.0.clone()).collect();
        let mut statistics = Vec::with_capacity(width);
        for mut col in transpose(&rows, width).into_iter() {
            statistics.push(calculate_stats(&mut col).unwrap());
        }
        VecSummary {
            n_boot,
            replicas,
            central_val,
            failed_samples,
            statistics,
        }
    }
}

/// Helper to generate noisy data from a Normal distribution
fn generate_data(n: usize, mean: f64, std_dev: f64) -> Vec<f64> {
    let normal = Normal::new(mean, std_dev).unwrap();
    let mut rng = rand::rng();
    (0..n).map(|_| normal.sample(&mut rng)).collect()
}

#[test]
fn test_scalar_bootstrap_mean() {
    let true_mean = 10.0;
    let true_std_dev = 2.0;
    let n_samples = 1000;
    let data = generate_data(n_samples, true_mean, true_std_dev);

    let estimator = Estimator::new()
        .indices((0..n_samples).collect())
        .from(move |indices: &[usize]| {
            let sum: f64 = indices.iter().map(|&i| data[i]).sum();
            Some(Scalar(sum / indices.len() as f64))
        })
        .build();
    let bootstrap = Bootstrap::new()
        .estimator(estimator)
        .n_boot(2000)
        .sampler(SamplingStrategy::Simple)
        .build();

    let result = bootstrap.run();
    let summary: ScalarSummary = result.summarize();

    println!("Scalar Summary: {:?}", summary);

    assert_eq!(summary.n_boot, 2000);
    assert_eq!(summary.failed_samples, 0);
    let statistics = summary.statistics;
    assert!(
        (statistics.mean - true_mean).abs() < 0.2,
        "Mean deviated too far"
    );
    assert!(
        statistics.stddev > 0.05 && statistics.stddev < 0.08,
        "Standard Error out of expected range"
    );
    assert!(statistics.ci_95.low < true_mean);
    assert!(statistics.ci_95.high > true_mean);
}

#[test]
fn test_vector_bootstrap_multivariate() {
    let col0 = vec![4.0, 5.0, 6.0, 5.0, 5.0];
    let col1 = vec![18.0, 20.0, 22.0, 20.0, 20.0];
    let n = col0.len();

    let estimator = Estimator::new()
        .indices((0..n).collect())
        .from(move |indices: &[usize]| {
            if indices.is_empty() {
                return None;
            }
            let sum0: f64 = indices.iter().map(|&i| col0[i]).sum();
            let sum1: f64 = indices.iter().map(|&i| col1[i]).sum();
            Some(VecStat(vec![
                sum0 / indices.len() as f64,
                sum1 / indices.len() as f64,
            ]))
        })
        .build();

    let bootstrap = Bootstrap::new().estimator(estimator).n_boot(500).build();

    let result = bootstrap.run();
    let summary: VecSummary = result.summarize();

    println!("Vector Summary: {:?}", summary);
    assert_eq!(summary.n_boot, 500);
    let statistics = summary.statistics;
    assert_eq!(statistics.len(), 2);
    assert!((statistics[0].mean - 5.0).abs() < 0.5);
    assert!((statistics[1].mean - 20.0).abs() < 1.0);
}

#[test]
fn test_bias_corrected_bootstrap() {
    let data = vec![1.0, 2.0, 3.0, 4.0, 100.0]; // Outlier heavily skews mean
    let n = data.len();

    let estimator = Estimator::new()
        .indices((0..n).collect())
        .from(move |indices: &[usize]| {
            let sum: f64 = indices.iter().map(|&i| data[i]).sum();
            Some(Scalar(sum / indices.len() as f64))
        })
        .build()
        .bias_correct(100);

    let bootstrap = Bootstrap::new().estimator(estimator).n_boot(200).build();

    let result = bootstrap.run();
    let summary: ScalarSummary = result.summarize();

    assert_eq!(summary.n_boot, 200);
    assert!(summary.failed_samples == 0);
    let statistics = summary.statistics;
    assert!(statistics.stddev > 0.0);
}

#[test]
fn test_handling_failures() {
    let n = 10;

    let estimator = Estimator::new()
        .indices((0..n).collect())
        .from(move |indices: &[usize]| {
            // Fail if the first index is even
            if indices[0] % 2 == 0 {
                None
            } else {
                Some(Scalar(1.0))
            }
        })
        .build();

    let bootstrap = Bootstrap::new().estimator(estimator).n_boot(100).build();

    let result = bootstrap.run();
    let summary: ScalarSummary = result.summarize();

    assert!(summary.failed_samples > 0);
    assert!(summary.failed_samples < 100);
    let statistics = summary.statistics;
    assert_eq!(statistics.mean, 1.0);
}

#[test]
fn test_double_bootstrap() {
    let true_mean = 10.0;
    let true_std_dev = 2.0;
    let n_samples = 2000;
    let n_boot = 100;
    let data = generate_data(n_samples, true_mean, true_std_dev);

    let outer_estimator = Estimator::new()
        .indices((0..n_samples).collect())
        .from(move |indices: &[usize]| {
            let data = data.clone();
            // Inner estimator logic
            let inner_estimator = Estimator::new()
                .indices(indices.to_owned())
                .from(move |indices: &[usize]| {
                    let sum: f64 = indices.iter().map(|&i| data[i]).sum();
                    Some(Scalar(sum / indices.len() as f64))
                })
                .build();

            // Run inner bootstrap to get stddev
            let inner_summary: ScalarSummary = Bootstrap::new()
                .estimator(inner_estimator)
                .n_boot(n_boot)
                .sampler(SamplingStrategy::Simple)
                .build()
                .run()
                .summarize();
            Some(Scalar(inner_summary.statistics.stddev))
        })
        .build();

    let bootstrap = Bootstrap::new()
        .estimator(outer_estimator)
        .n_boot(n_boot)
        .sampler(SamplingStrategy::Simple)
        .build();

    let result = bootstrap.run();
    let summary: ScalarSummary = result.summarize();

    println!("Scalar Summary: {:?}", summary);
}

#[test]
fn test_bias_corrected_ratio_of_means() {
    let n = 20;
    let mut rng = rand::rng();

    // Generate correlated X and Y
    let normal_x = Normal::new(10.0, 2.0).unwrap();
    let normal_err = Normal::new(0.0, 1.0).unwrap();

    let mut x_data = Vec::with_capacity(n);
    let mut y_data = Vec::with_capacity(n);

    for _ in 0..n {
        let x = normal_x.sample(&mut rng);
        // Y is highly correlated with X
        let y = 2.0 * x + 5.0 + normal_err.sample(&mut rng);
        x_data.push(x);
        y_data.push(y);
    }

    // 1. Uncorrected Estimator
    let x_data_uncorrected = x_data.clone();
    let y_data_uncorrected = y_data.clone();
    let estimator_uncorrected = Estimator::new()
        .indices((0..n).collect())
        .from(move |indices: &[usize]| {
            let mean_x =
                indices.iter().map(|&i| x_data_uncorrected[i]).sum::<f64>() / indices.len() as f64;
            let mean_y =
                indices.iter().map(|&i| y_data_uncorrected[i]).sum::<f64>() / indices.len() as f64;
            Some(Scalar(mean_y / mean_x))
        })
        .build();

    // 2. Corrected Estimator
    let x_data_corrected = x_data.clone();
    let y_data_corrected = y_data.clone();
    let estimator_corrected = Estimator::new()
        .indices((0..n).collect())
        .from(move |indices: &[usize]| {
            let mean_x =
                indices.iter().map(|&i| x_data_corrected[i]).sum::<f64>() / indices.len() as f64;
            let mean_y =
                indices.iter().map(|&i| y_data_corrected[i]).sum::<f64>() / indices.len() as f64;
            Some(Scalar(mean_y / mean_x))
        })
        .build()
        .bias_correct(200); // 200 inner bootstrap iterations

    let summary_uncorrected: ScalarSummary = Bootstrap::new()
        .estimator(estimator_uncorrected)
        .n_boot(1000)
        .build()
        .run()
        .summarize();

    let summary_corrected: ScalarSummary = Bootstrap::new()
        .estimator(estimator_corrected)
        .n_boot(1000)
        .build()
        .run()
        .summarize();

    let uncorrected_mean = summary_uncorrected.statistics.mean;
    let corrected_mean = summary_corrected.statistics.mean;

    println!("Uncorrected Ratio Mean: {:.4}", uncorrected_mean);
    println!("Corrected Ratio Mean:   {:.4}", corrected_mean);

    // The ratio estimator typically has a non-zero bias. We assert that the bias correction
    // actively shifts the estimate.
    assert!(
        (uncorrected_mean - corrected_mean).abs() > 1e-4,
        "Bias correction should alter the mean of the biased ratio estimator"
    );
}

#[test]
fn test_bias_corrected_variance() {
    let n = 10;
    // Hardcoded small dataset to ensure deterministic bias direction
    let data: Vec<f64> = vec![0.5, -0.2, 1.1, 0.8, -0.9, 0.1, 0.3, -1.5, 0.6, -0.1];

    // 1. Uncorrected Estimator (Biased sample variance: divide by N)
    let data_uncorrected = data.clone();
    let estimator_uncorrected = Estimator::new()
        .indices((0..n).collect())
        .from(move |indices: &[usize]| {
            let len = indices.len() as f64;
            let mean = indices.iter().map(|&i| data_uncorrected[i]).sum::<f64>() / len;
            let var = indices
                .iter()
                .map(|&i| (data_uncorrected[i] - mean).powi(2))
                .sum::<f64>()
                / len;
            Some(Scalar(var))
        })
        .build();

    // 2. Corrected Estimator
    let data_corrected = data.clone();
    let estimator_corrected = Estimator::new()
        .indices((0..n).collect())
        .from(move |indices: &[usize]| {
            let len = indices.len() as f64;
            let mean = indices.iter().map(|&i| data_corrected[i]).sum::<f64>() / len;
            let var = indices
                .iter()
                .map(|&i| (data_corrected[i] - mean).powi(2))
                .sum::<f64>()
                / len;
            Some(Scalar(var))
        })
        .build()
        .bias_correct(250);

    let summary_uncorrected: ScalarSummary = Bootstrap::new()
        .estimator(estimator_uncorrected)
        .n_boot(1000)
        .build()
        .run()
        .summarize();

    let summary_corrected: ScalarSummary = Bootstrap::new()
        .estimator(estimator_corrected)
        .n_boot(1000)
        .build()
        .run()
        .summarize();

    let uncorrected_var_mean = summary_uncorrected.statistics.mean;
    let corrected_var_mean = summary_corrected.statistics.mean;

    println!("Uncorrected Variance Mean: {:.4}", uncorrected_var_mean);
    println!("Corrected Variance Mean:   {:.4}", corrected_var_mean);

    // The uncorrected sample variance is downward biased.
    // Therefore, an effective bias correction must shift the expected value upwards.
    assert!(
        corrected_var_mean >= uncorrected_var_mean,
        "Bias correction should increase the strictly downward-biased sample variance"
    );
}

#[test]
fn test_statistic_algebra() {
    // add with zero and scale(2) - self both hand the value back.
    let s = Scalar(3.5);
    assert_eq!(s.add(&Scalar::zero(s.len())), s);
    assert_eq!(s.scale(2, 1).sub(&s), s);
    assert_eq!(s.scale(1, 1), s);
    assert_eq!(s.scale(0, 1), Scalar::zero(s.len()));
    assert_eq!(s.add(&Scalar(1.5)).sub(&Scalar(1.5)), s);
    assert_eq!(Scalar::zero(1).len(), 1);

    let v = VecStat(vec![1.0, -2.0, 4.0]);
    assert_eq!(v.add(&VecStat::zero(v.len())), v);
    assert_eq!(v.scale(2, 1).sub(&v), v);
    assert_eq!(v.scale(1, 1), v);
    assert_eq!(v.scale(0, 1), VecStat::zero(v.len()));
    assert_eq!(v.add(&v.clone()).sub(&v), v);
    assert_eq!(VecStat::zero(3).len(), 3);
}

#[test]
fn test_constant_replicas_summary() {
    // A constant replica population: mean, median and every interval
    // endpoint must equal the constant, and the spread must vanish.
    let c = 7.25;
    let n = 10;
    let estimator = Estimator::new()
        .indices((0..n).collect())
        .from(move |_indices: &[usize]| Some(Scalar(c)))
        .build();
    let bootstrap = Bootstrap::new().estimator(estimator).n_boot(64).build();
    let summary: ScalarSummary = bootstrap.run().summarize();
    assert_eq!(summary.failed_samples, 0);
    assert_eq!(summary.replicas.len(), 64);
    let st = summary.statistics;
    assert_eq!(st.mean, c);
    assert_eq!(st.median, c);
    assert_eq!(st.stddev, 0.0);
    for ci in [st.ci_68, st.ci_95, st.ci_99] {
        assert_eq!(ci.low, c);
        assert_eq!(ci.high, c);
    }
}

#[test]
fn test_monotone_confidence_intervals() {
    // Wider coverage can only widen a quantile interval.
    let data = generate_data(400, 0.0, 1.0);
    let n = data.len();
    let estimator = Estimator::new()
        .indices((0..n).collect())
        .from(move |indices: &[usize]| {
            let sum: f64 = indices.iter().map(|&i| data[i]).sum();
            Some(Scalar(sum / indices.len() as f64))
        })
        .build();
    let bootstrap = Bootstrap::new().estimator(estimator).n_boot(500).build();
    let summary: ScalarSummary = bootstrap.run().summarize();
    let st = summary.statistics;
    assert!(st.ci_68.low >= st.ci_95.low);
    assert!(st.ci_95.low >= st.ci_99.low);
    assert!(st.ci_68.high <= st.ci_95.high);
    assert!(st.ci_95.high <= st.ci_99.high);
    assert!(st.ci_68.low <= st.ci_68.high);
}

#[test]
fn test_conservation_and_central_value() {
    // Successes and failures always add up to the requested replica count,
    // and the central value is the estimate on the full population.
    let n = 6;
    let estimator = Estimator::new()
        .indices((0..n).collect())
        .from(move |indices: &[usize]| {
            if indices.len() % 2 == 1 {
                None
            } else {
                Some(Scalar(indices.len() as f64))
            }
        })
        .build();
    let bootstrap = Bootstrap::new()
        .estimator(estimator)
        .n_boot(40)
        .sampler(SamplingStrategy::Thinned { block_size: 4 })
        .build();
    let result = bootstrap.run();
    assert_eq!(result.n_boot, 40);
    assert_eq!(result.samples.len() + result.failed_samples, 40);
    // Thinned draws 6 / 4 = 1 index per resample, so every resample fails.
    assert_eq!(result.failed_samples, 40);
    // The central value is evaluated on all 6 indices.
    assert_eq!(result.central_val, Some(Scalar(6.0)));
}

#[test]
fn test_builder_defaults() {
    // Without explicit settings the driver draws 1000 simple resamples.
    let n = 3;
    let estimator = Estimator::new()
        .indices((0..n).collect())
        .from(move |indices: &[usize]| Some(Scalar(indices.len() as f64)))
        .build();
    let result = Bootstrap::new().estimator(estimator).build().run();
    assert_eq!(result.n_boot, 1000);
    assert_eq!(result.sampler, SamplingStrategy::Simple);
    assert_eq!(result.failed_samples, 0);
    assert_eq!(result.samples.len(), 1000);
    // Simple resamples have the population's length.
    assert!(result.samples.iter().all(|s| s.0 == 3.0));
}

#[test]
fn test_bias_correction_stacks() {
    // Wrapping twice is permitted; the doubly corrected estimator still
    // behaves as an estimator and the run completes.
    let data = vec![1.0, 2.0, 3.0, 4.0, 5.0];
    let n = data.len();
    let estimator = Estimator::new()
        .indices((0..n).collect())
        .from(move |indices: &[usize]| {
            let sum: f64 = indices.iter().map(|&i| data[i]).sum();
            Some(Scalar(sum / indices.len() as f64))
        })
        .build()
        .bias_correct(20)
        .bias_correct(20);
    let bootstrap = Bootstrap::new().estimator(estimator).n_boot(50).build();
    let summary: ScalarSummary = bootstrap.run().summarize();
    assert_eq!(summary.n_boot, 50);
    assert_eq!(summary.failed_samples, 0);
    assert!(summary.statistics.mean.is_finite());
}

#[test]
fn test_bias_correction_propagates_failure() {
    // A function that never succeeds stays a failure through the wrapping:
    // the point estimate fails before any inner resampling, so every replica
    // and the central value come back as cooperative failures.
    let n = 8;
    let estimator = Estimator::new()
        .indices((0..n).collect())
        .from(move |_indices: &[usize]| None::<Scalar>)
        .build()
        .bias_correct(25);
    let bootstrap = Bootstrap::new().estimator(estimator).n_boot(30).build();
    let result = bootstrap.run();
    assert_eq!(result.failed_samples, 30);
    assert_eq!(result.samples.len(), 0);
    assert!(result.central_val.is_none());
}

#[test]
fn test_bias_correction_exact_on_constant() {
    // A constant estimator: theta and every inner replica equal c, so the
    // corrected estimate 2c - mean(c, ..., c) is exactly c again.
    let c = 7.25;
    let estimator = Estimator::new()
        .indices((0..5).collect())
        .from(move |_indices: &[usize]| Some(Scalar(c)))
        .build()
        .bias_correct(25);
    let result = Bootstrap::new().estimator(estimator).n_boot(40).build().run();
    assert_eq!(result.failed_samples, 0);
    assert_eq!(result.samples.len(), 40);
    assert!(result.samples.iter().all(|s| s.0 == c));
    assert_eq!(result.central_val, Some(Scalar(c)));
}

#[test]
fn test_central_value_defaults_to_zero() {
    // A missing central value defaults to the zero statistic in the shape
    // of the replicas, or to one component when there is no replica.
    let result = BootstrapResult {
        n_boot: 3,
        failed_samples: 1,
        samples: vec![VecStat(vec![1.0, 2.0]), VecStat(vec![3.0, 4.0])],
        central_val: None,
        sampler: SamplingStrategy::Simple,
    };
    let (central, samples) = result.central_or_default();
    assert_eq!(central, VecStat(vec![0.0, 0.0]));
    assert_eq!(samples.len(), 2);

    let empty = BootstrapResult {
        n_boot: 0,
        failed_samples: 0,
        samples: Vec::<Scalar>::new(),
        central_val: None,
        sampler: SamplingStrategy::Simple,
    };
    let (central, _) = empty.central_or_default();
    assert_eq!(central, Scalar(0.0));
}

#[test]
fn test_transpose_exact() {
    let rows = vec![vec![1.0, 2.0], vec![3.0, 4.0], vec![5.0, 6.0]];
    let cols = transpose(&rows, 2);
    assert_eq!(cols, vec![vec![1.0, 3.0, 5.0], vec![2.0, 4.0, 6.0]]);
    let empty: Vec<Vec<f64>> = Vec::new();
    assert_eq!(transpose(&empty, 3), vec![vec![], vec![], vec![]] as Vec<Vec<f64>>);
}
