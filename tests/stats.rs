use metrics::by_metric::{Metric, StatsByMetric};
use metrics::check::{DescriptiveStatType, LessThanStatCheck, StatCheck};
use metrics::stats::{DescriptiveStats, Fraction};

fn as_f64(f: Fraction) -> f64 {
    f.num as f64 / f.den as f64
}

fn stats_of(values: &[i32]) -> DescriptiveStats {
    let mut s = DescriptiveStats::empty();
    for v in values {
        s.add(*v);
    }
    s
}

fn metrics_of(name: &str, values: &[i32]) -> Vec<Metric> {
    values.iter().map(|v| Metric::new(name, *v)).collect()
}

#[test]
fn can_aggregate_stats_from_iterator() {
    let mut all_data = metrics_of("latency", &[50, 100, 150]);
    all_data.extend(metrics_of("size", &[1, 10, 100]));
    let stats = StatsByMetric::from_iter(all_data);

    let latency_stats = stats.get("latency").expect("latency stats to be present");

    assert_eq!(as_f64(latency_stats.mean()), 100.0);
    let size_stats = stats.get("size").expect("size stats to be present");

    assert_eq!(as_f64(size_stats.mean()), 37.0);

    assert_eq!(latency_stats.min(), 50);
    assert_eq!(latency_stats.max(), 150);

    assert_eq!(size_stats.min(), 1);
    assert_eq!(size_stats.max(), 100);
}

#[test]
fn empty_statistic_has_sentinels() {
    let s = DescriptiveStats::empty();
    assert_eq!(s.count(), 0);
    assert_eq!(s.max(), i32::MIN);
    assert_eq!(s.min(), i32::MAX);
    assert_eq!(s.mean(), Fraction { num: 0, den: 1 });
    assert_eq!(s.variance(), Fraction { num: 0, den: 1 });
}

#[test]
fn accumulates_mean_extremes_and_count() {
    let s = stats_of(&[4, -2, 7, 3]);
    assert_eq!(s.count(), 4);
    assert_eq!(s.max(), 7);
    assert_eq!(s.min(), -2);
    assert_eq!(s.mean(), Fraction { num: 12, den: 4 });
}

#[test]
fn variance_is_population_variance() {
    // values 2, 4, 4, 4, 5, 5, 7, 9: mean 5, variance 4
    let s = stats_of(&[2, 4, 4, 4, 5, 5, 7, 9]);
    let v = s.variance();
    assert_eq!(v.den, 64);
    assert_eq!(v.num, 256);
    assert_eq!(as_f64(v), 4.0);
}

#[test]
fn extreme_values_keep_exact_sums() {
    let s = stats_of(&[i32::MAX, i32::MIN, i32::MAX]);
    assert_eq!(s.count(), 3);
    assert_eq!(s.max(), i32::MAX);
    assert_eq!(s.min(), i32::MIN);
    assert_eq!(s.mean().num, 2 * (i32::MAX as i128) + i32::MIN as i128);
}

#[test]
fn merge_is_associative_and_commutative() {
    let a = stats_of(&[1, 5, 9]);
    let b = stats_of(&[-3, 12]);
    let c = stats_of(&[7]);
    let mut ab_c = a;
    ab_c.merge(b);
    ab_c.merge(c);
    let mut bc = b;
    bc.merge(c);
    let mut a_bc = a;
    a_bc.merge(bc);
    let mut ac_b = a;
    ac_b.merge(c);
    ac_b.merge(b);
    assert_eq!(ab_c, a_bc);
    assert_eq!(ab_c, ac_b);
}

#[test]
fn merge_of_parts_equals_whole() {
    let whole = stats_of(&[3, 8, -1, 20, 6, 6]);
    let mut left = stats_of(&[3, 8, -1]);
    left.merge(stats_of(&[20, 6, 6]));
    assert_eq!(left, whole);
}

#[test]
fn merge_with_empty_is_identity() {
    let a = stats_of(&[10, 20]);
    let mut m = a;
    m.merge(DescriptiveStats::empty());
    assert_eq!(m, a);
    let mut e = DescriptiveStats::empty();
    e.merge(a);
    assert_eq!(e, a);
}

#[test]
fn check_identical_passes() {
    let e = stats_of(&[10, 20, 30]);
    let r = LessThanStatCheck.check(&e, &e);
    assert_eq!(r, Ok(e));
}

#[test]
fn check_greater_mean_only() {
    // same count, max, min and variance; the mean is shifted up
    let e = stats_of(&[0, 0, 10]);
    let a = stats_of(&[0, 10, 10]);
    assert_eq!(e.variance(), a.variance());
    let failures = LessThanStatCheck.check(&e, &a).unwrap_err();
    assert_eq!(failures.len(), 1);
    assert_eq!(failures[0].stat_type, DescriptiveStatType::Mean);
    assert_eq!(failures[0].expected, Fraction { num: 10, den: 3 });
    assert_eq!(failures[0].actual, Fraction { num: 20, den: 3 });
}

#[test]
fn check_reports_every_dimension_in_order() {
    let e = stats_of(&[1, 2]);
    let a = stats_of(&[5, 10, 20]);
    let failures = LessThanStatCheck.check(&e, &a).unwrap_err();
    let kinds: Vec<DescriptiveStatType> = failures.iter().map(|f| f.stat_type).collect();
    assert_eq!(
        kinds,
        vec![
            DescriptiveStatType::Mean,
            DescriptiveStatType::StdDev,
            DescriptiveStatType::Max,
            DescriptiveStatType::Min,
            DescriptiveStatType::Count,
        ]
    );
    assert_eq!(failures[4].expected, Fraction { num: 2, den: 1 });
    assert_eq!(failures[4].actual, Fraction { num: 3, den: 1 });
    assert_eq!(failures[2].actual, Fraction { num: 20, den: 1 });
}

#[test]
fn check_stddev_only() {
    // same mean, max, min and count; the spread is larger
    let e = stats_of(&[0, 5, 5, 10]);
    let a = stats_of(&[0, 0, 10, 10]);
    let failures = LessThanStatCheck.check(&e, &a).unwrap_err();
    assert_eq!(failures.len(), 1);
    assert_eq!(failures[0].stat_type, DescriptiveStatType::StdDev);
    assert_eq!(as_f64(failures[0].expected), 12.5);
    assert_eq!(as_f64(failures[0].actual), 25.0);
}

#[test]
fn check_compares_large_variances_exactly() {
    let e = stats_of(&[i32::MIN, i32::MAX]);
    let a = stats_of(&[i32::MIN, i32::MAX, 0]);
    // variance of e is slightly above that of a; a has one more value
    let failures = LessThanStatCheck.check(&e, &a).unwrap_err();
    let kinds: Vec<DescriptiveStatType> = failures.iter().map(|f| f.stat_type).collect();
    assert_eq!(kinds, vec![DescriptiveStatType::Mean, DescriptiveStatType::Count]);
}

#[test]
fn check_lower_actual_passes() {
    let e = stats_of(&[10, 50, 90]);
    let a = stats_of(&[10, 30]);
    assert_eq!(LessThanStatCheck.check(&e, &a), Ok(a));
}

#[test]
fn check_all_covers_expected_names() {
    let mut exp = metrics_of("latency", &[50, 100, 150]);
    exp.extend(metrics_of("size", &[1, 10, 100]));
    exp.extend(metrics_of("errors", &[0, 1]));
    let mut act = metrics_of("latency", &[50, 100, 200]);
    act.extend(metrics_of("size", &[1, 10, 100]));
    act.extend(metrics_of("extra", &[5]));
    let expected = StatsByMetric::from_iter(exp);
    let actual = StatsByMetric::from_iter(act);
    let results = LessThanStatCheck.check_all(&expected, &actual);
    assert_eq!(results.len(), 3);
    assert_eq!(results[0].0, "latency");
    let latency = results[0].1.clone().unwrap_err();
    assert_eq!(latency[0].stat_type, DescriptiveStatType::Mean);
    assert_eq!(results[1].0, "size");
    assert_eq!(results[1].1, Ok(actual.get("size").unwrap()));
    assert_eq!(results[2].0, "errors");
    assert_eq!(results[2].1, Err(vec![]));
}

#[test]
fn set_merge_is_name_wise() {
    let mut left = StatsByMetric::from_iter(metrics_of("a", &[1, 2]));
    let mut right_metrics = metrics_of("a", &[3]);
    right_metrics.extend(metrics_of("b", &[9]));
    left.merge(StatsByMetric::from_iter(right_metrics));
    assert_eq!(left.len(), 2);
    assert_eq!(left.get("a").unwrap(), stats_of(&[1, 2, 3]));
    assert_eq!(left.get("b").unwrap(), stats_of(&[9]));
    assert!(left.get("c").is_none());
}

#[test]
fn set_fold_is_order_independent() {
    let mut one = metrics_of("x", &[4, 8]);
    one.extend(metrics_of("y", &[1]));
    one.extend(metrics_of("x", &[6]));
    let mut two = metrics_of("x", &[6]);
    two.extend(metrics_of("y", &[1]));
    two.extend(metrics_of("x", &[8, 4]));
    let a = StatsByMetric::from_iter(one);
    let b = StatsByMetric::from_iter(two);
    assert_eq!(a.get("x"), b.get("x"));
    assert_eq!(a.get("y"), b.get("y"));
}

#[test]
fn records_carry_names_and_values() {
    let mut data = metrics_of("latency", &[50, 100, 150]);
    data.extend(metrics_of("size", &[1, 10, 100]));
    let stats = StatsByMetric::from_iter(data);
    let records = stats.to_records();
    assert_eq!(records.len(), 2);
    assert_eq!(records[0].name.as_deref(), Some("latency"));
    assert_eq!(records[0].max, 150);
    assert_eq!(records[0].min, 50);
    assert_eq!(records[0].cnt, 3);
    assert_eq!(as_f64(records[0].mean), 100.0);
    assert_eq!(records[1].name.as_deref(), Some("size"));
    assert_eq!(as_f64(records[1].mean), 37.0);
}

#[test]
fn dimension_labels() {
    assert_eq!(DescriptiveStatType::Mean.label(), "Mean");
    assert_eq!(DescriptiveStatType::StdDev.label(), "StdDev");
    assert_eq!(DescriptiveStatType::Count.label(), "Count");
}

#[test]
fn sharded_sets_merge_to_whole() {
    let mut first = metrics_of("x", &[5, -5]);
    first.extend(metrics_of("y", &[2]));
    let mut second = metrics_of("y", &[8, 1]);
    second.extend(metrics_of("z", &[0]));
    let mut whole_metrics = first.clone();
    whole_metrics.extend(second.clone());
    let whole = StatsByMetric::from_iter(whole_metrics);
    let mut merged = StatsByMetric::from_iter(first);
    merged.merge(StatsByMetric::from_iter(second));
    assert_eq!(merged.len(), whole.len());
    for name in ["x", "y", "z"] {
        assert_eq!(merged.get(name), whole.get(name));
    }
    assert_eq!(merged.get("y").unwrap().mean(), Fraction { num: 11, den: 3 });
}
