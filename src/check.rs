//! Threshold checks of an observed statistic against a baseline.
use vstd::prelude::*;

use crate::stats::{frac_gt, lemma_valid_bounds, DescriptiveStats, Fraction, StatsView};
use crate::by_metric::StatsByMetric;
use crate::wide::product_gt;

verus! {

/// A dimension along which two statistics are compared.
#[derive(Clone, Copy, Debug, PartialEq, Eq, Structural)]
pub enum DescriptiveStatType {
    Mean,
    Max,
    Min,
    StdDev,
    Count,
}

impl DescriptiveStatType {
    pub open spec fn label_spec(&self) -> &'static str {
        match self {
            DescriptiveStatType::Mean => "Mean",
            DescriptiveStatType::Max => "Max",
            DescriptiveStatType::Min => "Min",
            DescriptiveStatType::StdDev => "StdDev",
            DescriptiveStatType::Count => "Count",
        }
    }

    /// The name of the dimension.
    pub fn label(&self) -> (r: &'static str)
        ensures
            r == self.label_spec(),
    {
        match self {
            DescriptiveStatType::Mean => "Mean",
            DescriptiveStatType::Max => "Max",
            DescriptiveStatType::Min => "Min",
            DescriptiveStatType::StdDev => "StdDev",
            DescriptiveStatType::Count => "Count",
        }
    }
}

/// The value of a statistic along one dimension, as an exact fraction.
/// The standard deviation is compared, and reported, through its square,
/// the variance: the square root keeps the order of non-negative values.
pub open spec fn dimension(s: StatsView, t: DescriptiveStatType) -> Fraction {
    match t {
        DescriptiveStatType::Mean => s.mean(),
        DescriptiveStatType::StdDev => s.variance(),
        DescriptiveStatType::Max => Fraction { num: s.max as i128, den: 1 },
        DescriptiveStatType::Min => Fraction { num: s.min as i128, den: 1 },
        DescriptiveStatType::Count => Fraction { num: s.count as i128, den: 1 },
    }
}

/// One dimension where the observed value exceeds the expected bound.
#[derive(Clone, Copy, Debug, PartialEq, Eq, Structural)]
pub struct StatFailure {
    pub expected: Fraction,
    pub actual: Fraction,
    pub stat_type: DescriptiveStatType,
}

/// The failure along dimension `t`, if the actual value exceeds the
/// expected one there.
pub open spec fn failure_for(e: StatsView, a: StatsView, t: DescriptiveStatType) -> Seq<
    StatFailure,
> {
    if frac_gt(dimension(a, t), dimension(e, t)) {
        seq![StatFailure { expected: dimension(e, t), actual: dimension(a, t), stat_type: t }]
    } else {
        seq![]
    }
}

/// Every dimension where `a` exceeds `e`, in the order mean, standard
/// deviation, max, min, count.
pub open spec fn exceeding_failures(e: StatsView, a: StatsView) -> Seq<StatFailure> {
    failure_for(e, a, DescriptiveStatType::Mean) + failure_for(e, a, DescriptiveStatType::StdDev)
        + failure_for(e, a, DescriptiveStatType::Max) + failure_for(e, a, DescriptiveStatType::Min)
        + failure_for(e, a, DescriptiveStatType::Count)
}

/// What a check returns, given the failures its policy finds: the actual
/// statistic when there are none, else the failures.
pub open spec fn check_result(
    failures: Seq<StatFailure>,
    actual: StatsView,
    r: Result<DescriptiveStats, Vec<StatFailure>>,
) -> bool {
    match r {
        Ok(s) => failures.len() == 0 && s@ == actual,
        Err(v) => failures.len() > 0 && v@ == failures,
    }
}

/// A policy comparing an expected statistic with an actual one.
pub trait StatCheck {
    /// The failures the policy finds when `actual` is held against
    /// `expected`.
    spec fn failures(&self, expected: StatsView, actual: StatsView) -> Seq<StatFailure>;

    /// Returns `actual` when the policy finds no failure, else every
    /// failure it finds.
    fn check(&self, expected: &DescriptiveStats, actual: &DescriptiveStats) -> (r: Result<
        DescriptiveStats,
        Vec<StatFailure>,
    >)
        requires
            expected.wf(),
            actual.wf(),
        ensures
            check_result(self.failures(expected@, actual@), actual@, r),
    ;

    /// Checks every metric of `expected` against the statistic of the same
    /// name in `actual`; a name missing from `actual` gets an empty list of
    /// failures. Names present only in `actual` are not reported.
    fn check_all(&self, expected: &StatsByMetric, actual: &StatsByMetric) -> (r: Vec<
        (String, Result<DescriptiveStats, Vec<StatFailure>>),
    >)
        requires
            expected.wf(),
            actual.wf(),
        ensures
            r@.len() == expected.names().len(),
            forall|i: int|
                0 <= i < r@.len() ==> {
                    let name = expected.names()[i];
                    &&& (#[trigger] r@[i]).0@ == name
                    &&& actual@.contains_key(name) ==> check_result(
                        self.failures(expected@[name], actual@[name]),
                        actual@[name],
                        r@[i].1,
                    )
                    &&& !actual@.contains_key(name) ==> r@[i].1 is Err && r@[i].1->Err_0@.len()
                        == 0
                },
    {
        let mut out: Vec<(String, Result<DescriptiveStats, Vec<StatFailure>>)> = Vec::new();
        let mut i: usize = 0;
        while i < expected.len()
            invariant
                expected.wf(),
                actual.wf(),
                i <= expected.names().len(),
                out@.len() == i,
                forall|j: int|
                    0 <= j < i ==> {
                        let name = expected.names()[j];
                        &&& (#[trigger] out@[j]).0@ == name
                        &&& actual@.contains_key(name) ==> check_result(
                            self.failures(expected@[name], actual@[name]),
                            actual@[name],
                            out@[j].1,
                        )
                        &&& !actual@.contains_key(name) ==> out@[j].1 is Err
                            && out@[j].1->Err_0@.len() == 0
                    },
            decreases expected.names().len() - i,
        {
            let (name, expected_stat) = expected.entry(i);
            let result = match actual.get(name.as_str()) {
                Some(actual_stat) => self.check(&expected_stat, &actual_stat),
                None => Err(Vec::new()),
            };
            out.push((name, result));
            i = i + 1;
        }
        out
    }
}

/// The policy "the actual value must not exceed the expected one", on
/// every dimension.
#[derive(Clone, Copy, Debug)]
pub struct LessThanStatCheck;

/// A fraction whose parts fit the exact comparison below.
pub open spec fn comparable(f: Fraction) -> bool {
    &&& -0x4000_0000_0000_0000_0000_0000_0000_0000 <= f.num <= 0x4000_0000_0000_0000_0000_0000_0000_0000
    &&& 0 < f.den < 0x1_0000_0000_0000_0000
}

proof fn lemma_dimensions_comparable(s: StatsView)
    requires
        s.valid(),
    ensures
        comparable(dimension(s, DescriptiveStatType::Mean)),
        comparable(dimension(s, DescriptiveStatType::StdDev)),
        comparable(dimension(s, DescriptiveStatType::Max)),
        comparable(dimension(s, DescriptiveStatType::Min)),
        comparable(dimension(s, DescriptiveStatType::Count)),
{
    lemma_valid_bounds(s);
    let d = s.mean_den();
    assert(d * d > 0) by (nonlinear_arith)
        requires
            d >= 1,
    ;
}

/// Whether `a > b` as rational numbers, exactly.
fn fraction_gt(a: Fraction, b: Fraction) -> (r: bool)
    requires
        comparable(a),
        comparable(b),
    ensures
        r == frac_gt(a, b),
{
    let an = a.num;
    let ad = a.den;
    let bn = b.num;
    let bd = b.den;
    if an >= 0 && bn >= 0 {
        product_gt(an as u128, bd as u64, bn as u128, ad as u64)
    } else if an >= 0 {
        assert(an * bd >= 0 && bn * ad < 0) by (nonlinear_arith)
            requires
                an >= 0,
                bn < 0,
                ad > 0,
                bd > 0,
        ;
        true
    } else if bn >= 0 {
        assert(an * bd < 0 && bn * ad >= 0) by (nonlinear_arith)
            requires
                an < 0,
                bn >= 0,
                ad > 0,
                bd > 0,
        ;
        false
    } else {
        let r = product_gt((-bn) as u128, ad as u64, (-an) as u128, bd as u64);
        assert((an * bd > bn * ad) == ((-bn) * ad > (-an) * bd)) by (nonlinear_arith);
        r
    }
}

/// Appends the failure along `t` when `actual` exceeds `expected` there.
fn push_if_exceeds(
    failures: &mut Vec<StatFailure>,
    expected: Fraction,
    actual: Fraction,
    t: DescriptiveStatType,
)
    requires
        comparable(expected),
        comparable(actual),
    ensures
        final(failures)@ == old(failures)@ + (if frac_gt(actual, expected) {
            seq![StatFailure { expected, actual, stat_type: t }]
        } else {
            seq![]
        }),
{
    if fraction_gt(actual, expected) {
        failures.push(StatFailure { expected, actual, stat_type: t });
    } else {
        assert(old(failures)@ + Seq::<StatFailure>::empty() == old(failures)@);
    }
}

impl StatCheck for LessThanStatCheck {
    open spec fn failures(&self, expected: StatsView, actual: StatsView) -> Seq<StatFailure> {
        exceeding_failures(expected, actual)
    }

    /// Compares mean, standard deviation, max, min and count; every
    /// dimension where `actual` is strictly greater fails.
    fn check(&self, expected: &DescriptiveStats, actual: &DescriptiveStats) -> (r: Result<
        DescriptiveStats,
        Vec<StatFailure>,
    >) {
        proof {
            lemma_dimensions_comparable(expected@);
            lemma_dimensions_comparable(actual@);
        }
        let mut failures: Vec<StatFailure> = Vec::new();
        push_if_exceeds(&mut failures, expected.mean(), actual.mean(), DescriptiveStatType::Mean);
        push_if_exceeds(
            &mut failures,
            expected.variance(),
            actual.variance(),
            DescriptiveStatType::StdDev,
        );
        push_if_exceeds(
            &mut failures,
            Fraction { num: expected.max() as i128, den: 1 },
            Fraction { num: actual.max() as i128, den: 1 },
            DescriptiveStatType::Max,
        );
        push_if_exceeds(
            &mut failures,
            Fraction { num: expected.min() as i128, den: 1 },
            Fraction { num: actual.min() as i128, den: 1 },
            DescriptiveStatType::Min,
        );
        push_if_exceeds(
            &mut failures,
            Fraction { num: expected.count() as i128, den: 1 },
            Fraction { num: actual.count() as i128, den: 1 },
            DescriptiveStatType::Count,
        );
        assert(failures@ =~= exceeding_failures(expected@, actual@));
        if failures.len() == 0 {
            Ok(*actual)
        } else {
            Err(failures)
        }
    }
}

/// Checking a statistic against itself finds no failure, so the check
/// returns it unchanged.
pub proof fn lemma_check_identical(e: DescriptiveStats)
    requires
        e.wf(),
    ensures
        exceeding_failures(e@, e@) == Seq::<StatFailure>::empty(),
        forall|r: Result<DescriptiveStats, Vec<StatFailure>>|
            check_result(exceeding_failures(e@, e@), e@, r) ==> r is Ok && r->Ok_0@ == e@,
{
    assert(exceeding_failures(e@, e@) =~= Seq::<StatFailure>::empty());
}

/// When only the mean of the actual statistic is greater, and every other
/// dimension is equal, the check reports exactly one failure, on the mean,
/// with both means.
pub proof fn lemma_check_mean_only(e: DescriptiveStats, a: DescriptiveStats)
    requires
        e.wf(),
        a.wf(),
        frac_gt(a@.mean(), e@.mean()),
        a@.variance() == e@.variance(),
        a@.max == e@.max,
        a@.min == e@.min,
        a@.count == e@.count,
    ensures
        exceeding_failures(e@, a@) == seq![
            StatFailure {
                expected: e@.mean(),
                actual: a@.mean(),
                stat_type: DescriptiveStatType::Mean,
            },
        ],
{
    assert(exceeding_failures(e@, a@) =~= seq![
        StatFailure {
            expected: e@.mean(),
            actual: a@.mean(),
            stat_type: DescriptiveStatType::Mean,
        },
    ]);
}

} // verus!
