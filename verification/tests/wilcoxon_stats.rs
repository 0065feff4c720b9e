//! Statistics tests; expected p-values correspond to R's
//! `wilcox.test(x, y, exact=FALSE, correct=FALSE)`.

use basic_stats::AltHyp;
use basic_stats::Hyp;
use basic_stats::RankSum;
use basic_stats::ZScore;
use basic_stats::accepted_hypothesis;
use statrs::distribution::ContinuousCDF;
use statrs::distribution::Normal;

const ALPHA: f64 = 0.05;
const EPSILON: f64 = 0.0005;

fn approx_eq(a: f64, b: f64, epsilon: f64) -> bool {
    (a - b).abs() < epsilon
}

fn z_value(zs: &ZScore) -> f64 {
    (zs.num2 as f64 / 2.0) / ((zs.var_num as f64) / (zs.var_den as f64)).sqrt()
}

fn z_to_p(z: f64, alt_hyp: AltHyp) -> f64 {
    let normal = Normal::standard();
    match alt_hyp {
        AltHyp::Lt => normal.cdf(z),
        AltHyp::Gt => normal.cdf(-z),
        AltHyp::Ne => normal.cdf(-z.abs()) * 2.,
    }
}

/// Book data (values in hundredths, so that ordering and ties are exact).
fn book_data() -> (Vec<i64>, Vec<i64>) {
    let sample_x = vec![73, 80, 83, 104, 138, 145, 146, 164, 189, 191];
    let sample_y = vec![74, 88, 90, 115, 121];
    (sample_x, sample_y)
}

fn contrived_data() -> (Vec<i64>, Vec<i64>) {
    let mut sample_x: Vec<i64> = vec![
        85, 90, 78, 92, 88, 76, 95, 89, 91, 82, 115, 120, 108, 122, 118, 106, 125, 119, 121, 112,
        145, 150, 138, 152, 148, 136, 155, 149, 151, 142, 175, 180, 168, 182, 178, 166, 185, 179,
        181, 172, 205, 210, 198, 212, 208, 196, 215, 209, 211, 202,
    ];
    sample_x.sort();

    let mut sample_y: Vec<i64> = vec![
        70, 85, 80, 90, 75, 88, 92, 79, 86, 81, 92, 100, 115, 110, 120, 105, 118, 122, 109, 116,
        111, 122, 130, 145, 140, 150, 135, 148, 152, 139, 146, 141, 152, 160, 175, 170, 180, 165,
        178, 182, 169, 176, 171, 182, 190, 205, 200, 210, 195, 208, 212, 199, 206, 201, 212,
    ];
    sample_y.sort();

    (sample_x, sample_y)
}

fn shifted_contrived_data() -> (Vec<i64>, Vec<i64>) {
    shifted_contrived_data_by(35)
}

fn shifted_contrived_data_by(offset: i64) -> (Vec<i64>, Vec<i64>) {
    let (sample_x, sample_y) = contrived_data();
    let mut sample_y: Vec<i64> = sample_y.into_iter().map(|v| v + offset).collect();
    sample_y.sort();
    (sample_x, sample_y)
}

fn check_wilcoxon(
    rank_sum: &RankSum,
    alt_hyp: AltHyp,
    exp_r_w_halves: u64,
    exp_p: f64,
    exp_accept_hyp: Hyp,
) {
    let r_w = rank_sum.r_w();
    let z = z_value(&rank_sum.z().unwrap());
    let p = z_to_p(z, alt_hyp);
    let accepted = accepted_hypothesis(alt_hyp, p < ALPHA);

    assert_eq!(
        exp_r_w_halves, r_w.halves,
        "alt_hyp={alt_hyp:?} -- exp_r_w_halves={exp_r_w_halves}, r_w={}",
        r_w.halves
    );
    assert!(
        approx_eq(exp_p, p, EPSILON),
        "alt_hyp={alt_hyp:?} -- exp_p={exp_p}, p={p}"
    );
    assert_eq!(
        exp_accept_hyp, accepted,
        "alt_hyp={alt_hyp:?} -- accepted hypothesis"
    );
}

#[test]
/// Nonparametric Statistical Methods, 3rd Edition, by Myles Hollander,
/// Douglas A. Wolfe, Eric Chicken, Example 4.1.
fn test_w() {
    let (dat_x, dat_y) = book_data();
    let rank_sum = RankSum::from_slices(&dat_x, &dat_y).unwrap();

    // w = 30
    assert_eq!(60, rank_sum.w().halves, "w comparison");

    // R's wilcox.test W = 35
    assert_eq!(70, rank_sum.r_w().halves, "R w comparison");

    // R: wilcox.test(a, b, exact=FALSE, correct=FALSE)
    let expected_p = 0.2207;
    let z = z_value(&rank_sum.z().unwrap());
    let actual_p = z_to_p(z, AltHyp::Ne);
    assert!(approx_eq(expected_p, actual_p, EPSILON), "p comparison");
}

#[test]
/// Nonparametric Statistical Methods, 3rd Edition, by Myles Hollander,
/// Douglas A. Wolfe, Eric Chicken, Example 4.1.
fn test_book_data() {
    let (dat_x, dat_y) = book_data();
    let rank_sum = RankSum::from_slices(&dat_x, &dat_y).unwrap();

    let exp_r_w_halves = 70;

    check_wilcoxon(&rank_sum, AltHyp::Lt, exp_r_w_halves, 0.8897, Hyp::Null);
    check_wilcoxon(&rank_sum, AltHyp::Ne, exp_r_w_halves, 0.2207, Hyp::Null);
    check_wilcoxon(&rank_sum, AltHyp::Gt, exp_r_w_halves, 0.1103, Hyp::Null);
}

#[test]
fn test_contrived_data() {
    let (dat_x, dat_y) = contrived_data();
    let rank_sum = RankSum::from_iters(dat_x, dat_y).unwrap();

    // r_w = 1442.5
    let exp_r_w_halves = 2885;

    check_wilcoxon(&rank_sum, AltHyp::Lt, exp_r_w_halves, 0.6675, Hyp::Null);
    check_wilcoxon(&rank_sum, AltHyp::Ne, exp_r_w_halves, 0.6649, Hyp::Null);
    check_wilcoxon(&rank_sum, AltHyp::Gt, exp_r_w_halves, 0.3325, Hyp::Null);
}

#[test]
fn test_contrived_data_u() {
    let (dat_x, dat_y) = contrived_data();
    let rank_sum = RankSum::from_iters(dat_x, dat_y).unwrap();

    // From https://www.statskingdom.com/170median_mann_whitney.html:
    // U for sample X = 1442.5, U for sample Y = 1307.5, U = 1307.5.
    let u_x = rank_sum.mann_whitney_u_x();
    let u_y = rank_sum.mann_whitney_u_y();
    let u = rank_sum.mann_whitney_u();

    assert_eq!(2885, u_x.halves);
    assert_eq!(2615, u_y.halves);
    assert_eq!(2615, u.halves);
}

#[test]
fn test_shifted_contrived_data() {
    let (dat_x, dat_y) = shifted_contrived_data();
    let rank_sum = RankSum::from_iters(dat_x, dat_y).unwrap();

    // r_w = 840
    let exp_r_w_halves = 1680;

    check_wilcoxon(
        &rank_sum,
        AltHyp::Lt,
        exp_r_w_halves,
        0.0002987,
        Hyp::Alt(AltHyp::Lt),
    );
    check_wilcoxon(
        &rank_sum,
        AltHyp::Ne,
        exp_r_w_halves,
        0.0005974,
        Hyp::Alt(AltHyp::Ne),
    );
    check_wilcoxon(&rank_sum, AltHyp::Gt, exp_r_w_halves, 0.9997, Hyp::Null);
}

/// Reference midrank computation over the combined sorted union, used to
/// check the rank-sum output independently.
fn reference_rank_sums(x: &[i64], y: &[i64]) -> (f64, f64) {
    let all: Vec<i64> = x.iter().chain(y.iter()).cloned().collect();
    let midrank = |v: i64| -> f64 {
        let less = all.iter().filter(|&&u| u < v).count() as f64;
        let equal = all.iter().filter(|&&u| u == v).count() as f64;
        less + (equal + 1.) / 2.
    };
    let rank_sum_x: f64 = x.iter().map(|&v| midrank(v)).sum();
    let rank_sum_y: f64 = y.iter().map(|&v| midrank(v)).sum();
    (rank_sum_x, rank_sum_y)
}

#[test]
fn test_rank_sum_complementarity() {
    let cases: Vec<(Vec<i64>, Vec<i64>)> = vec![
        book_data(),
        contrived_data(),
        shifted_contrived_data(),
        (vec![], vec![]),
        (vec![1], vec![]),
        (vec![2, 2, 2, 2], vec![2, 2, 2, 3, 3]),
    ];
    for (x, y) in cases {
        let rank_sum = RankSum::from_slices(&x, &y).unwrap();
        let (ref_x, ref_y) = reference_rank_sums(&x, &y);
        let n = (x.len() + y.len()) as f64;
        assert_eq!(rank_sum.w().halves as f64, 2. * ref_y);
        assert_eq!(ref_x + ref_y, (1. + n) * n / 2.);
        assert_eq!(
            ref_x,
            (1. + n) * n / 2. - rank_sum.w().halves as f64 / 2.,
            "rank_sum_x check"
        );
    }
}

#[test]
fn test_u_complementarity_and_bounds() {
    let cases: Vec<(Vec<i64>, Vec<i64>)> = vec![
        book_data(),
        contrived_data(),
        shifted_contrived_data(),
        (vec![], vec![]),
        (vec![1], vec![]),
        (vec![], vec![1]),
        (vec![2, 2, 2, 2], vec![2, 2, 2, 3, 3]),
        (vec![2, 2, 2, 2, 2], vec![2, 2, 2, 3, 3]),
    ];
    for (x, y) in cases {
        let rank_sum = RankSum::from_slices(&x, &y).unwrap();
        let u_x = rank_sum.mann_whitney_u_x().halves;
        let u_y = rank_sum.mann_whitney_u_y().halves;
        let cap = 2 * rank_sum.n_x() * rank_sum.n_y();
        assert_eq!(u_x + u_y, cap, "U complementarity for x={x:?}, y={y:?}");
        assert!(u_x <= cap, "U bound for x={x:?}, y={y:?}");
        assert!(u_y <= cap, "U bound for x={x:?}, y={y:?}");
    }
}

#[test]
fn test_shift_scenario() {
    // Shifting sample Y upward drives the Lt alternative toward acceptance:
    // the z-score falls (its magnitude grows, with negative sign) and the
    // one-sided Lt p-value falls as the shift grows.
    let mut last_w: u64 = 0;
    let mut last_z = f64::INFINITY;
    let mut last_p_lt = f64::INFINITY;
    for offset in [0, 12, 24, 35] {
        let (dat_x, dat_y) = shifted_contrived_data_by(offset);
        let rank_sum = RankSum::from_slices(&dat_x, &dat_y).unwrap();
        let w = rank_sum.w().halves;
        let z = z_value(&rank_sum.z().unwrap());
        let p_lt = z_to_p(z, AltHyp::Lt);
        assert!(w >= last_w, "w never falls as the shift grows (offset={offset})");
        assert!(z < last_z, "z must fall as the shift grows (offset={offset})");
        assert!(
            p_lt < last_p_lt,
            "one-sided p must fall as the shift grows (offset={offset})"
        );
        last_w = w;
        last_z = z;
        last_p_lt = p_lt;
    }
    // Once the shift has pushed the z-score clearly below zero, the
    // two-sided p-value falls monotonically as well.
    let mut last_p_ne = f64::INFINITY;
    for offset in [24, 30, 35] {
        let (dat_x, dat_y) = shifted_contrived_data_by(offset);
        let rank_sum = RankSum::from_slices(&dat_x, &dat_y).unwrap();
        let z = z_value(&rank_sum.z().unwrap());
        let p_ne = z_to_p(z, AltHyp::Ne);
        assert!(
            p_ne < last_p_ne,
            "two-sided p must fall as the shift grows (offset={offset})"
        );
        last_p_ne = p_ne;
    }
    // At the largest shift the one-sided test accepts the Lt alternative.
    let (dat_x, dat_y) = shifted_contrived_data();
    let rank_sum = RankSum::from_slices(&dat_x, &dat_y).unwrap();
    let z = z_value(&rank_sum.z().unwrap());
    let p_lt = z_to_p(z, AltHyp::Lt);
    assert_eq!(
        accepted_hypothesis(AltHyp::Lt, p_lt < ALPHA),
        Hyp::Alt(AltHyp::Lt)
    );
}

#[test]
fn test_z_to_p() {
    // The standard-normal tail lookup always yields a probability; it has
    // no failure case to exercise.
}

#[test]
fn test_z_exact_parts() {
    // Book data: n_x = 10, n_y = 5, w = 30 (w2 = 60), no ties.
    // num2 = n_y*(n+1) - w2 = 5*16 - 60 = 20
    // var_num = n_x*n_y*((n+1)*n*(n-1) - 0) = 50*3360 = 168000
    // var_den = 12*n*(n-1) = 12*15*14 = 2520
    let (dat_x, dat_y) = book_data();
    let rank_sum = RankSum::from_slices(&dat_x, &dat_y).unwrap();
    assert_eq!(rank_sum.ties_sum_prod, 0);
    let zs = rank_sum.z().unwrap();
    assert_eq!(zs.num2, 20);
    assert_eq!(zs.var_num, 168000);
    assert_eq!(zs.var_den, 2520);
}

#[test]
fn test_ties_accumulator() {
    // x = [2,2,2,2], y = [2,2,2,3,3]: the value 2 forms one tied cohort of
    // size 7 shared by both samples, contributing 6*7*8 = 336 once per
    // side; the value 3 is a cohort of size 2 within Y alone, contributing
    // 1*2*3 = 6 once. Total: 2*336 + 6 = 678.
    let x: Vec<i64> = vec![2, 2, 2, 2];
    let y: Vec<i64> = vec![2, 2, 2, 3, 3];
    let rank_sum = RankSum::from_slices(&x, &y).unwrap();
    assert_eq!(rank_sum.ties_sum_prod, 678);
    assert!(rank_sum.z().is_ok());
}

#[test]
fn test_largest_size() {
    // Two samples that together reach the crate's size limit: each value
    // appears once per sample, so every cohort is a tied pair across the
    // samples. For cohort k the two tied observations share midrank
    // 2k + 3/2, so w2 is the sum of 4k + 3 over all cohorts.
    let k: i64 = 524288;
    let x: Vec<i64> = (0..k).collect();
    let y: Vec<i64> = (0..k).collect();
    let rank_sum = RankSum::from_slices(&x, &y).unwrap();
    assert_eq!(rank_sum.n_x(), k as u64);
    assert_eq!(rank_sum.n_y(), k as u64);
    let kk = k as u64;
    assert_eq!(rank_sum.w().halves, 2 * kk * kk + kk);
    // Each tied pair contributes 1*2*3 = 6 once per side.
    assert_eq!(rank_sum.ties_sum_prod, 12 * kk);
    assert!(rank_sum.z().is_ok());
}
