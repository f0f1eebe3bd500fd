//! The running statistic of one metric, kept in exact integer arithmetic.
use vstd::prelude::*;

verus! {

/// The largest number of observations a single statistic may hold.
/// With 32-bit observations it keeps every exact sum within 128 bits.
pub const MAX_COUNT: u64 = 0xffff_ffff;

/// An exact fraction `num / den`; `den` is positive.
#[derive(Clone, Copy, Debug, PartialEq, Eq, Structural)]
pub struct Fraction {
    pub num: i128,
    pub den: u128,
}

/// `a > b` as rational numbers (both denominators positive).
pub open spec fn frac_gt(a: Fraction, b: Fraction) -> bool {
    (a.num as int) * (b.den as int) > (b.num as int) * (a.den as int)
}

/// The mathematical content of a running statistic: how many values were
/// seen, their sum, the sum of their squares, and the extremes.
pub struct StatsView {
    pub count: nat,
    pub sum: int,
    pub sum_sq: int,
    pub max: int,
    pub min: int,
}

impl StatsView {
    /// No observations: the extremes are the "unset" sentinels.
    pub open spec fn empty() -> StatsView {
        StatsView { count: 0, sum: 0, sum_sq: 0, max: i32::MIN as int, min: i32::MAX as int }
    }

    pub open spec fn add(self, v: int) -> StatsView {
        StatsView {
            count: self.count + 1,
            sum: self.sum + v,
            sum_sq: self.sum_sq + v * v,
            max: if v > self.max { v } else { self.max },
            min: if v < self.min { v } else { self.min },
        }
    }

    /// The statistic of the two observation streams taken together.
    pub open spec fn merge(self, o: StatsView) -> StatsView {
        StatsView {
            count: self.count + o.count,
            sum: self.sum + o.sum,
            sum_sq: self.sum_sq + o.sum_sq,
            max: if o.max > self.max { o.max } else { self.max },
            min: if o.min < self.min { o.min } else { self.min },
        }
    }

    /// `count * count * variance`, that is `count * sum_sq - sum * sum`.
    pub open spec fn spread(self) -> int {
        self.count * self.sum_sq - self.sum * self.sum
    }

    /// The denominator of the mean: the count, or 1 with no observations.
    pub open spec fn mean_den(self) -> int {
        if self.count == 0 { 1 } else { self.count as int }
    }

    /// The mean as an exact fraction (0 with no observations).
    pub open spec fn mean(self) -> Fraction {
        Fraction { num: self.sum as i128, den: self.mean_den() as u128 }
    }

    /// The population variance as an exact fraction (0 with no observations).
    pub open spec fn variance(self) -> Fraction {
        Fraction { num: self.spread() as i128, den: (self.mean_den() * self.mean_den()) as u128 }
    }

    /// What every reachable statistic satisfies.
    pub open spec fn valid(self) -> bool {
        &&& self.count <= MAX_COUNT
        &&& -(self.count * 0x8000_0000) <= self.sum <= self.count * 0x8000_0000
        &&& 0 <= self.sum_sq <= self.count * 0x4000_0000_0000_0000
        &&& self.spread() >= 0
        &&& i32::MIN <= self.min <= i32::MAX
        &&& i32::MIN <= self.max <= i32::MAX
        &&& self.count == 0 ==> self == StatsView::empty()
    }
}

/// The statistic obtained by adding the values of `s` one by one to an
/// empty one.
pub open spec fn fold(s: Seq<i32>) -> StatsView
    decreases s.len(),
{
    if s.len() == 0 {
        StatsView::empty()
    } else {
        fold(s.drop_last()).add(s.last() as int)
    }
}

/// The sum of the values of `s`.
pub open spec fn sum_of(s: Seq<i32>) -> int
    decreases s.len(),
{
    if s.len() == 0 { 0 } else { sum_of(s.drop_last()) + s.last() }
}

/// The sum of the squares of the values of `s`.
pub open spec fn sum_sq_of(s: Seq<i32>) -> int
    decreases s.len(),
{
    if s.len() == 0 { 0 } else { sum_sq_of(s.drop_last()) + s.last() * s.last() }
}

/// A running statistic over 32-bit observations: count, exact sum and sum
/// of squares, maximum and minimum.
#[derive(Clone, Copy, Debug, PartialEq, Eq, Structural)]
pub struct DescriptiveStats {
    cnt: u64,
    sum: i128,
    sum_sq: u128,
    max: i32,
    min: i32,
}

impl View for DescriptiveStats {
    type V = StatsView;

    closed spec fn view(&self) -> StatsView {
        StatsView {
            count: self.cnt as nat,
            sum: self.sum as int,
            sum_sq: self.sum_sq as int,
            max: self.max as int,
            min: self.min as int,
        }
    }
}

proof fn lemma_square_bound(v: int)
    requires
        i32::MIN <= v <= i32::MAX,
    ensures
        0 <= v * v <= 0x4000_0000_0000_0000,
{
    assert(0 <= v * v <= 0x4000_0000_0000_0000) by (nonlinear_arith)
        requires
            -0x8000_0000 <= v <= 0x7fff_ffff,
    ;
}

/// Adding one value keeps a statistic valid.
pub proof fn lemma_add_valid(s: StatsView, v: int)
    requires
        s.valid(),
        s.count < MAX_COUNT,
        i32::MIN <= v <= i32::MAX,
    ensures
        s.add(v).valid(),
{
    lemma_square_bound(v);
    let c = s.count as int;
    let q = s.sum_sq;
    let t = s.sum;
    let r = s.add(v);
    assert(r.spread() == s.spread() + (q - 2 * t * v + c * v * v)) by (nonlinear_arith)
        requires
            r.spread() == (c + 1) * (q + v * v) - (t + v) * (t + v),
            s.spread() == c * q - t * t,
    ;
    assert(c * (q - 2 * t * v + c * v * v) == s.spread() + (t - c * v) * (t - c * v))
        by (nonlinear_arith)
        requires
            s.spread() == c * q - t * t,
    ;
    if c > 0 {
        assert(q - 2 * t * v + c * v * v >= 0) by (nonlinear_arith)
            requires
                c > 0,
                c * (q - 2 * t * v + c * v * v) == s.spread() + (t - c * v) * (t - c * v),
                s.spread() >= 0,
        ;
    } else {
        assert(q - 2 * t * v + c * v * v == 0) by (nonlinear_arith)
            requires
                c == 0,
                q == 0,
                t == 0,
        ;
    }
}

/// The spread of two merged parts is non-negative when the parts' spreads
/// are: multiplied by the product of the counts, it is a sum of
/// non-negative terms and a square.
proof fn lemma_merge_spread(na: int, nb: int, sa: int, sb: int, qa: int, qb: int)
    requires
        na > 0,
        nb > 0,
        na * qa - sa * sa >= 0,
        nb * qb - sb * sb >= 0,
    ensures
        (na + nb) * (qa + qb) - (sa + sb) * (sa + sb) >= 0,
{
    let p = na * nb;
    let a = na * qa;
    let b = nb * qb;
    let c = na * qb;
    let d = nb * qa;
    let m = (na + nb) * (qa + qb) - (sa + sb) * (sa + sb);
    assert(m == a + b + c + d - sa * sa - 2 * (sa * sb) - sb * sb) by (nonlinear_arith)
        requires
            a == na * qa,
            b == nb * qb,
            c == na * qb,
            d == nb * qa,
            m == (na + nb) * (qa + qb) - (sa + sb) * (sa + sb),
    ;
    let n1 = na * na;
    let n2 = nb * nb;
    let sa2 = sa * sa;
    let sb2 = sb * sb;
    let sab = sa * sb;
    let u = sb * na;
    let w = sa * nb;
    let x = u - w;
    assert(x * x == u * u - 2 * (u * w) + w * w) by (nonlinear_arith)
        requires
            x == u - w,
    ;
    assert(u * u == n1 * sb2) by (nonlinear_arith)
        requires
            u == sb * na,
            n1 == na * na,
            sb2 == sb * sb,
    ;
    assert(w * w == n2 * sa2) by (nonlinear_arith)
        requires
            w == sa * nb,
            n2 == nb * nb,
            sa2 == sa * sa,
    ;
    assert(u * w == p * sab) by (nonlinear_arith)
        requires
            u == sb * na,
            w == sa * nb,
            p == na * nb,
            sab == sa * sb,
    ;
    assert(m * p == p * a + p * b + p * c + p * d - p * sa2 - 2 * (p * sab) - p * sb2)
        by (nonlinear_arith)
        requires
            m == a + b + c + d - sa2 - 2 * sab - sb2,
    ;
    assert(p * c == n1 * b) by (nonlinear_arith)
        requires
            p == na * nb,
            c == na * qb,
            b == nb * qb,
            n1 == na * na,
    ;
    assert(p * d == n2 * a) by (nonlinear_arith)
        requires
            p == na * nb,
            d == nb * qa,
            a == na * qa,
            n2 == nb * nb,
    ;
    let da = a - sa2;
    let db = b - sb2;
    assert(p * da == p * a - p * sa2 && p * db == p * b - p * sb2 && n2 * da == n2 * a - n2 * sa2
        && n1 * db == n1 * b - n1 * sb2) by (nonlinear_arith)
        requires
            da == a - sa2,
            db == b - sb2,
    ;
    assert(m * p == p * da + p * db + n2 * da + n1 * db + x * x);
    assert(m >= 0) by (nonlinear_arith)
        requires
            m * p == p * da + p * db + n2 * da + n1 * db + x * x,
            p == na * nb,
            n1 == na * na,
            n2 == nb * nb,
            na > 0,
            nb > 0,
            da >= 0,
            db >= 0,
    ;
}

/// Merging two valid statistics whose counts fit keeps the result valid.
pub proof fn lemma_merge_valid(a: StatsView, b: StatsView)
    requires
        a.valid(),
        b.valid(),
        a.count + b.count <= MAX_COUNT,
    ensures
        a.merge(b).valid(),
{
    let m = a.merge(b);
    if a.count == 0 {
        assert(m == b);
    } else if b.count == 0 {
        assert(m == a);
    } else {
        lemma_merge_spread(a.count as int, b.count as int, a.sum, b.sum, a.sum_sq, b.sum_sq);
    }
}

/// The exact sums of a valid statistic fit the machine integers used for
/// its mean and variance.
pub proof fn lemma_valid_bounds(s: StatsView)
    requires
        s.valid(),
    ensures
        s.count * s.sum_sq <= 0x4000_0000_0000_0000_0000_0000_0000_0000,
        s.sum * s.sum <= 0x4000_0000_0000_0000_0000_0000_0000_0000,
        s.mean_den() * s.mean_den() <= 0xffff_ffff_ffff_ffff,
        0 <= s.spread() <= 0x4000_0000_0000_0000_0000_0000_0000_0000,
{
    let c = s.count as int;
    assert(c * s.sum_sq <= 0x4000_0000_0000_0000_0000_0000_0000_0000) by (nonlinear_arith)
        requires
            0 <= c <= 0xffff_ffff,
            0 <= s.sum_sq <= c * 0x4000_0000_0000_0000,
    ;
    assert(s.sum * s.sum <= 0x4000_0000_0000_0000_0000_0000_0000_0000) by (nonlinear_arith)
        requires
            0 <= c <= 0xffff_ffff,
            -(c * 0x8000_0000) <= s.sum <= c * 0x8000_0000,
    ;
    let d = s.mean_den();
    assert(d * d <= 0xffff_ffff_ffff_ffff) by (nonlinear_arith)
        requires
            1 <= d <= 0xffff_ffff,
    ;
    assert(s.sum * s.sum >= 0) by (nonlinear_arith);
    assert(c * s.sum_sq >= 0) by (nonlinear_arith)
        requires
            c >= 0,
            s.sum_sq >= 0,
    ;
}

/// Adding the values of a sequence to an empty statistic yields a valid
/// statistic whenever the sequence is not too long.
pub proof fn lemma_fold_valid(s: Seq<i32>)
    requires
        s.len() <= MAX_COUNT,
    ensures
        fold(s).valid(),
        fold(s).count == s.len(),
    decreases s.len(),
{
    if s.len() > 0 {
        lemma_fold_valid(s.drop_last());
        lemma_add_valid(fold(s.drop_last()), s.last() as int);
    }
}

/// Over a non-empty sequence of values, the accumulated statistic holds
/// the length as its count, the exact sum (so the mean is the arithmetic
/// mean), the sum of squares, and the true maximum and minimum.
pub proof fn lemma_fold_describes(s: Seq<i32>)
    requires
        0 < s.len() <= MAX_COUNT,
    ensures
        fold(s).count == s.len(),
        fold(s).sum == sum_of(s),
        fold(s).sum_sq == sum_sq_of(s),
        fold(s).mean() == (Fraction { num: sum_of(s) as i128, den: s.len() as u128 }),
        forall|i: int| 0 <= i < s.len() ==> s[i] <= fold(s).max,
        exists|i: int| 0 <= i < s.len() && s[i] == fold(s).max,
        forall|i: int| 0 <= i < s.len() ==> fold(s).min <= s[i],
        exists|i: int| 0 <= i < s.len() && s[i] == fold(s).min,
    decreases s.len(),
{
    let p = s.drop_last();
    let f = fold(s);
    lemma_fold_valid(s);
    assert(f == fold(p).add(s.last() as int));
    assert(sum_of(s) == sum_of(p) + s.last());
    assert(sum_sq_of(s) == sum_sq_of(p) + s.last() * s.last());
    if p.len() == 0 {
        assert(sum_of(p) == 0 && sum_sq_of(p) == 0);
        assert(s[0] == s.last());
    } else {
        lemma_fold_describes(p);
        assert forall|i: int| 0 <= i < s.len() implies s[i] <= f.max && f.min <= s[i] by {
            if i < p.len() {
                assert(s[i] == p[i]);
            }
        }
        if s.last() > fold(p).max {
            assert(s[s.len() - 1] == f.max);
        } else {
            let j = choose|j: int| 0 <= j < p.len() && p[j] == fold(p).max;
            assert(s[j] == f.max);
        }
        if s.last() < fold(p).min {
            assert(s[s.len() - 1] == f.min);
        } else {
            let j = choose|j: int| 0 <= j < p.len() && p[j] == fold(p).min;
            assert(s[j] == f.min);
        }
    }
}

/// Merging is associative and commutative: any grouping and any order of
/// three statistics gives the same result.
pub proof fn lemma_merge_assoc_comm(a: StatsView, b: StatsView, c: StatsView)
    ensures
        a.merge(b).merge(c) == a.merge(b.merge(c)),
        a.merge(b).merge(c) == a.merge(c).merge(b),
        a.merge(b) == b.merge(a),
{
}

/// Merging with an empty statistic changes nothing.
pub proof fn lemma_merge_empty(a: StatsView)
    requires
        a.valid(),
    ensures
        a.merge(StatsView::empty()) == a,
{
}

/// Adding a value after a merge is the same as adding it to the right-hand
/// side before.
proof fn lemma_merge_add(a: StatsView, b: StatsView, v: int)
    ensures
        a.merge(b).add(v) == a.merge(b.add(v)),
{
}

/// Accumulating two parts of a stream separately and merging the results
/// equals accumulating the whole stream.
pub proof fn lemma_fold_split(s1: Seq<i32>, s2: Seq<i32>)
    requires
        s1.len() <= MAX_COUNT,
    ensures
        fold(s1 + s2) == fold(s1).merge(fold(s2)),
    decreases s2.len(),
{
    if s2.len() == 0 {
        assert(s1 + s2 == s1);
        lemma_fold_valid(s1);
    } else {
        let t = s2.drop_last();
        lemma_fold_split(s1, t);
        assert((s1 + s2).drop_last() == s1 + t);
        lemma_merge_add(fold(s1), fold(t), s2.last() as int);
    }
}

impl DescriptiveStats {
    /// The statistic is in a state reachable by `empty`, `add` and `merge`.
    pub open spec fn wf(&self) -> bool {
        self@.valid()
    }

    /// An initial statistic with no observations: count 0, `max` at the
    /// smallest and `min` at the largest representable value.
    pub fn empty() -> (r: Self)
        ensures
            r.wf(),
            r@ == StatsView::empty(),
    {
        DescriptiveStats { cnt: 0, sum: 0, sum_sq: 0, max: i32::MIN, min: i32::MAX }
    }

    /// Adds one observation to the running statistic.
    pub fn add(&mut self, value: i32)
        requires
            old(self).wf(),
            old(self)@.count < MAX_COUNT,
        ensures
            final(self).wf(),
            final(self)@ == old(self)@.add(value as int),
    {
        proof {
            lemma_add_valid(self@, value as int);
            lemma_square_bound(value as int);
        }
        let wide: i128 = value as i128;
        self.sum = self.sum + wide;
        self.sum_sq = self.sum_sq + (wide * wide) as u128;
        if value > self.max {
            self.max = value;
        }
        if value < self.min {
            self.min = value;
        }
        self.cnt = self.cnt + 1;
    }

    /// Combines `rhs` into this statistic, as if the two observation
    /// streams had been concatenated.
    pub fn merge(&mut self, rhs: Self)
        requires
            old(self).wf(),
            rhs.wf(),
            old(self)@.count + rhs@.count <= MAX_COUNT,
        ensures
            final(self).wf(),
            final(self)@ == old(self)@.merge(rhs@),
    {
        proof {
            lemma_merge_valid(self@, rhs@);
        }
        self.sum = self.sum + rhs.sum;
        self.sum_sq = self.sum_sq + rhs.sum_sq;
        if rhs.max > self.max {
            self.max = rhs.max;
        }
        if rhs.min < self.min {
            self.min = rhs.min;
        }
        self.cnt = self.cnt + rhs.cnt;
    }

    /// The mean: the exact sum over the count (0 with no observations).
    pub fn mean(&self) -> (r: Fraction)
        requires
            self.wf(),
        ensures
            r == self@.mean(),
    {
        if self.cnt == 0 {
            Fraction { num: 0, den: 1 }
        } else {
            Fraction { num: self.sum, den: self.cnt as u128 }
        }
    }

    /// The population variance (0 with no observations). The standard
    /// deviation is its square root.
    pub fn variance(&self) -> (r: Fraction)
        requires
            self.wf(),
        ensures
            r == self@.variance(),
            r.num >= 0,
    {
        proof {
            lemma_valid_bounds(self@);
        }
        let den: u128 = if self.cnt == 0 { 1 } else { self.cnt as u128 };
        let scaled: u128 = (self.cnt as u128) * self.sum_sq;
        let squared: i128 = self.sum * self.sum;
        assert(scaled as int - squared as int == self@.spread());
        let spread: i128 = scaled as i128 - squared;
        Fraction { num: spread, den: den * den }
    }

    /// The largest observation (the smallest `i32` with none).
    pub fn max(&self) -> (r: i32)
        ensures
            r == self@.max,
    {
        self.max
    }

    /// The smallest observation (the largest `i32` with none).
    pub fn min(&self) -> (r: i32)
        ensures
            r == self@.min,
    {
        self.min
    }

    /// The number of observations.
    pub fn count(&self) -> (r: u64)
        ensures
            r == self@.count,
    {
        self.cnt
    }
}

} // verus!
