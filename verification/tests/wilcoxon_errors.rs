use basic_stats::RankSum;
use basic_stats::StatsError;

fn z_value(zs: &basic_stats::ZScore) -> f64 {
    (zs.num2 as f64 / 2.0) / ((zs.var_num as f64) / (zs.var_den as f64)).sqrt()
}

#[test]
fn test_from_slices() {
    // Returns an error if a slice is not sorted in non-decreasing order.

    let good: Vec<i64> = vec![];
    let bad: Vec<i64> = vec![1, 2, 1];

    assert!(RankSum::from_slices(&bad, &bad).is_err());
    assert!(RankSum::from_slices(&bad, &good).is_err());
    assert!(RankSum::from_slices(&good, &bad).is_err());
    assert!(RankSum::from_slices(&good, &good).is_ok());

    assert!(matches!(
        RankSum::from_slices(&bad, &good),
        Err(StatsError::OrderingViolation)
    ));

    let both_empty = RankSum::from_slices(&good, &good).unwrap();
    assert_eq!(both_empty.n_x(), 0);
    assert_eq!(both_empty.n_y(), 0);
}

#[test]
fn test_z() {
    // Returns an error in any of the following conditions:
    // - `self.n_x == 0` or `self.n_y == 0`.
    // - There are too many rank ties between the two samples.
    //   This is hard to quantify a priori. For example,
    //   `x = [2, 2, 2, 2]` and `y = [2, 2, 2, 3, 3]` is OK
    //   but `x = [2, 2, 2, 2, 2]` and `y = [2, 2, 2, 3, 3]` results in an error.

    let s0: Vec<i64> = vec![];
    let s11: Vec<i64> = vec![1];
    let s12: Vec<i64> = vec![2];
    let s22: Vec<i64> = vec![2, 2];
    let s42: Vec<i64> = vec![2, 2, 2, 2];
    let s52: Vec<i64> = vec![2, 2, 2, 2, 2];
    let smx: Vec<i64> = vec![2, 2, 2, 3, 3];

    let rs0_0 = RankSum::from_slices(&s0, &s0).unwrap();
    let rs0_11 = RankSum::from_slices(&s0, &s11).unwrap();
    let rs11_0 = RankSum::from_slices(&s11, &s0).unwrap();

    assert!(rs0_0.z().is_err());
    assert!(rs0_11.z().is_err());
    assert!(rs11_0.z().is_err());

    assert!(matches!(rs0_0.z(), Err(StatsError::EmptySample)));
    assert!(matches!(rs0_11.z(), Err(StatsError::EmptySample)));
    assert!(matches!(rs11_0.z(), Err(StatsError::EmptySample)));

    let get_z = |x: &Vec<i64>, y: &Vec<i64>| -> Result<basic_stats::ZScore, StatsError> {
        let rs = RankSum::from_slices(x, y).unwrap();
        rs.z()
    };

    assert!(matches!(get_z(&s11, &s11), Err(StatsError::ExcessiveTies)));
    assert!(matches!(get_z(&s12, &s22), Err(StatsError::ExcessiveTies)));
    assert!(matches!(get_z(&s22, &s42), Err(StatsError::ExcessiveTies)));
    assert!(matches!(get_z(&s22, &s52), Err(StatsError::ExcessiveTies)));
    assert!(matches!(get_z(&s42, &s52), Err(StatsError::ExcessiveTies)));
    assert!(matches!(get_z(&s52, &smx), Err(StatsError::ExcessiveTies)));

    assert!(z_value(&get_z(&s11, &s12).unwrap()).is_finite());
    assert!(z_value(&get_z(&s22, &smx).unwrap()).is_finite());
    assert!(z_value(&get_z(&s42, &smx).unwrap()).is_finite());
}
