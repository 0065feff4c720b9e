use basic_stats::IterWithCounts;
use basic_stats::iter_with_counts;

#[test]
fn iter_test() {
    let dat: Vec<i64> = vec![1, 3, 10, 10, 10, 9, 9, 10, 20];
    let dat_c = iter_with_counts(&dat);
    let exp_dat_c: Vec<(i64, u64)> = vec![(1, 1), (3, 1), (10, 3), (9, 2), (10, 1), (20, 1)];
    assert_eq!(exp_dat_c, dat_c);
}

#[test]
fn iter_iter_test() {
    let dat: Vec<i64> = vec![1, 3, 9, 9, 10, 10, 10, 10, 20];
    let mut it = IterWithCounts::new(dat);
    let mut dat_c: Vec<(i64, u64)> = Vec::new();
    while let Some(pair) = it.next() {
        dat_c.push(pair);
    }
    let exp_dat_c: Vec<(i64, u64)> = vec![(1, 1), (3, 1), (9, 2), (10, 4), (20, 1)];
    assert_eq!(exp_dat_c, dat_c);
}

#[test]
fn iter_with_counts_empty() {
    let dat: Vec<i64> = vec![];
    assert_eq!(iter_with_counts(&dat), vec![]);
    let mut it = IterWithCounts::new(dat);
    assert_eq!(it.next(), None);
    assert_eq!(it.next(), None);
}

#[test]
fn iter_with_counts_single_run() {
    let dat: Vec<i64> = vec![7, 7, 7];
    assert_eq!(iter_with_counts(&dat), vec![(7, 3)]);
    let mut it = IterWithCounts::new(dat);
    assert_eq!(it.next(), Some((7, 3)));
    assert_eq!(it.next(), None);
}
