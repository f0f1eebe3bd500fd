//! Running statistics grouped by metric name.
use vstd::prelude::*;

use crate::stats::{
    fold, lemma_fold_split, lemma_merge_assoc_comm, DescriptiveStats, Fraction, StatsView, MAX_COUNT,
};

verus! {

/// One named measurement.
#[derive(Clone, Debug)]
pub struct Metric {
    pub name: String,
    pub value: i32,
}

impl Metric {
    pub fn new(name: &str, value: i32) -> (r: Metric)
        ensures
            r.name@ == name@,
            r.value == value,
    {
        Metric { name: name.to_owned(), value }
    }
}

/// The values of the measurements named `k`, in stream order.
pub open spec fn values_for(ms: Seq<Metric>, k: Seq<char>) -> Seq<i32>
    decreases ms.len(),
{
    if ms.len() == 0 {
        Seq::empty()
    } else if ms.last().name@ == k {
        values_for(ms.drop_last(), k).push(ms.last().value)
    } else {
        values_for(ms.drop_last(), k)
    }
}

proof fn lemma_values_for_len(ms: Seq<Metric>, k: Seq<char>)
    ensures
        values_for(ms, k).len() <= ms.len(),
        values_for(ms, k).len() > 0 <==> exists|i: int| 0 <= i < ms.len() && ms[i].name@ == k,
    decreases ms.len(),
{
    if ms.len() > 0 {
        let p = ms.drop_last();
        lemma_values_for_len(p, k);
        if exists|i: int| 0 <= i < p.len() && p[i].name@ == k {
            let i = choose|i: int| 0 <= i < p.len() && p[i].name@ == k;
            assert(ms[i] == p[i]);
        }
        if exists|i: int| 0 <= i < ms.len() && ms[i].name@ == k {
            let i = choose|i: int| 0 <= i < ms.len() && ms[i].name@ == k;
            if i < p.len() {
                assert(p[i] == ms[i]);
            }
        }
    }
}

/// The statistic under `k`, or an empty one.
pub open spec fn stat_or_empty(m: Map<Seq<char>, StatsView>, k: Seq<char>) -> StatsView {
    if m.contains_key(k) { m[k] } else { StatsView::empty() }
}

/// The name-wise merge of two sets of statistics.
pub open spec fn merged(a: Map<Seq<char>, StatsView>, b: Map<Seq<char>, StatsView>) -> Map<
    Seq<char>,
    StatsView,
> {
    Map::new(
        |k: Seq<char>| a.contains_key(k) || b.contains_key(k),
        |k: Seq<char>| stat_or_empty(a, k).merge(stat_or_empty(b, k)),
    )
}

/// The statistics of a stream of measurements, by name.
pub open spec fn grouped(ms: Seq<Metric>) -> Map<Seq<char>, StatsView> {
    Map::new(
        |k: Seq<char>| exists|i: int| 0 <= i < ms.len() && ms[i].name@ == k,
        |k: Seq<char>| fold(values_for(ms, k)),
    )
}

/// No name occurs twice.
pub open spec fn unique_names(s: Seq<(Seq<char>, StatsView)>) -> bool {
    forall|i: int, j: int| 0 <= i < s.len() && 0 <= j < s.len() && s[i].0 == s[j].0 ==> i == j
}

/// The map from name to statistic that the pairs of `s` describe.
pub open spec fn pairs_map(s: Seq<(Seq<char>, StatsView)>) -> Map<Seq<char>, StatsView> {
    Map::new(
        |k: Seq<char>| exists|i: int| 0 <= i < s.len() && s[i].0 == k,
        |k: Seq<char>| s[choose|i: int| 0 <= i < s.len() && s[i].0 == k].1,
    )
}

proof fn lemma_pairs_map_at(s: Seq<(Seq<char>, StatsView)>, i: int)
    requires
        unique_names(s),
        0 <= i < s.len(),
    ensures
        pairs_map(s).contains_key(s[i].0),
        pairs_map(s)[s[i].0] == s[i].1,
{
    let k = s[i].0;
    assert(exists|j: int| 0 <= j < s.len() && s[j].0 == k);
    let j = choose|j: int| 0 <= j < s.len() && s[j].0 == k;
    assert(j == i);
}

proof fn lemma_pairs_map_update(s: Seq<(Seq<char>, StatsView)>, i: int, v: StatsView)
    requires
        unique_names(s),
        0 <= i < s.len(),
    ensures
        unique_names(s.update(i, (s[i].0, v))),
        pairs_map(s.update(i, (s[i].0, v))) == pairs_map(s).insert(s[i].0, v),
{
    let t = s.update(i, (s[i].0, v));
    assert(unique_names(t)) by {
        assert forall|a: int, b: int|
            0 <= a < t.len() && 0 <= b < t.len() && t[a].0 == t[b].0 implies a == b by {
            assert(t[a].0 == s[a].0 && t[b].0 == s[b].0);
        }
    }
    assert forall|k: Seq<char>| #[trigger]
        pairs_map(t).contains_key(k) == pairs_map(s).insert(s[i].0, v).contains_key(k) by {
        if exists|j: int| 0 <= j < s.len() && s[j].0 == k {
            let j = choose|j: int| 0 <= j < s.len() && s[j].0 == k;
            assert(t[j].0 == k);
        }
        if exists|j: int| 0 <= j < t.len() && t[j].0 == k {
            let j = choose|j: int| 0 <= j < t.len() && t[j].0 == k;
            assert(s[j].0 == k);
        }
    }
    assert forall|k: Seq<char>| #[trigger] pairs_map(t).contains_key(k) implies pairs_map(t)[k]
        == pairs_map(s).insert(s[i].0, v)[k] by {
        let j = choose|j: int| 0 <= j < t.len() && t[j].0 == k;
        lemma_pairs_map_at(t, j);
        if j != i {
            lemma_pairs_map_at(s, j);
        }
    }
    assert(pairs_map(t) =~= pairs_map(s).insert(s[i].0, v));
}

proof fn lemma_pairs_map_push(s: Seq<(Seq<char>, StatsView)>, k: Seq<char>, v: StatsView)
    requires
        unique_names(s),
        !pairs_map(s).contains_key(k),
    ensures
        unique_names(s.push((k, v))),
        pairs_map(s.push((k, v))) == pairs_map(s).insert(k, v),
{
    let t = s.push((k, v));
    assert(unique_names(t)) by {
        assert forall|a: int, b: int|
            0 <= a < t.len() && 0 <= b < t.len() && t[a].0 == t[b].0 implies a == b by {
            if a < s.len() && b < s.len() {
                assert(t[a] == s[a] && t[b] == s[b]);
            } else if a < s.len() {
                assert(t[a] == s[a]);
                assert(pairs_map(s).contains_key(s[a].0));
            } else if b < s.len() {
                assert(t[b] == s[b]);
                assert(pairs_map(s).contains_key(s[b].0));
            }
        }
    }
    assert forall|q: Seq<char>| #[trigger]
        pairs_map(t).contains_key(q) == pairs_map(s).insert(k, v).contains_key(q) by {
        if exists|j: int| 0 <= j < s.len() && s[j].0 == q {
            let j = choose|j: int| 0 <= j < s.len() && s[j].0 == q;
            assert(t[j].0 == q);
        }
        if exists|j: int| 0 <= j < t.len() && t[j].0 == q {
            let j = choose|j: int| 0 <= j < t.len() && t[j].0 == q;
            if j < s.len() {
                assert(s[j].0 == q);
            }
        }
        assert(t[s.len() as int].0 == k);
    }
    assert forall|q: Seq<char>| #[trigger] pairs_map(t).contains_key(q) implies pairs_map(t)[q]
        == pairs_map(s).insert(k, v)[q] by {
        let j = choose|j: int| 0 <= j < t.len() && t[j].0 == q;
        lemma_pairs_map_at(t, j);
        if j < s.len() {
            assert(t[j] == s[j]);
            lemma_pairs_map_at(s, j);
        }
    }
    assert(pairs_map(t) =~= pairs_map(s).insert(k, v));
}

proof fn lemma_grouped_push(ms: Seq<Metric>, m: Metric)
    ensures
        grouped(ms.push(m)) == grouped(ms).insert(
            m.name@,
            stat_or_empty(grouped(ms), m.name@).add(m.value as int),
        ),
{
    let t = ms.push(m);
    assert(t.drop_last() == ms);
    assert forall|k: Seq<char>| #[trigger]
        grouped(t).contains_key(k) == grouped(ms).insert(
            m.name@,
            stat_or_empty(grouped(ms), m.name@).add(m.value as int),
        ).contains_key(k) by {
        if exists|i: int| 0 <= i < ms.len() && ms[i].name@ == k {
            let i = choose|i: int| 0 <= i < ms.len() && ms[i].name@ == k;
            assert(t[i] == ms[i]);
        }
        if exists|i: int| 0 <= i < t.len() && t[i].name@ == k {
            let i = choose|i: int| 0 <= i < t.len() && t[i].name@ == k;
            if i < ms.len() {
                assert(t[i] == ms[i]);
            }
        }
        assert(t[ms.len() as int] == m);
    }
    assert forall|k: Seq<char>| #[trigger] grouped(t).contains_key(k) implies grouped(t)[k]
        == grouped(ms).insert(
        m.name@,
        stat_or_empty(grouped(ms), m.name@).add(m.value as int),
    )[k] by {
        lemma_values_for_len(ms, k);
        let x = values_for(ms, k);
        if k == m.name@ {
            assert(values_for(t, k) == x.push(m.value));
            assert(x.push(m.value).drop_last() == x);
            assert(fold(x.push(m.value)) == fold(x).add(m.value as int));
            if !grouped(ms).contains_key(k) {
                assert(x.len() == 0);
                assert(fold(x) == StatsView::empty());
            }
        } else {
            assert(values_for(t, k) == x);
            assert(grouped(ms).contains_key(k));
        }
    }
    assert(grouped(t) =~= grouped(ms).insert(
        m.name@,
        stat_or_empty(grouped(ms), m.name@).add(m.value as int),
    ));
}

/// Name-wise merging of statistic sets is associative and commutative.
pub proof fn lemma_merged_assoc_comm(
    a: Map<Seq<char>, StatsView>,
    b: Map<Seq<char>, StatsView>,
    c: Map<Seq<char>, StatsView>,
)
    ensures
        merged(merged(a, b), c) == merged(a, merged(b, c)),
        merged(a, b) == merged(b, a),
{
    assert forall|k: Seq<char>| #[trigger] merged(merged(a, b), c).contains_key(k) implies merged(
        merged(a, b),
        c,
    )[k] == merged(a, merged(b, c))[k] by {
        lemma_merge_assoc_comm(stat_or_empty(a, k), stat_or_empty(b, k), stat_or_empty(c, k));
    }
    assert(merged(merged(a, b), c) =~= merged(a, merged(b, c)));
    assert forall|k: Seq<char>| #[trigger] merged(a, b).contains_key(k) implies merged(a, b)[k]
        == merged(b, a)[k] by {
        lemma_merge_assoc_comm(stat_or_empty(a, k), stat_or_empty(b, k), stat_or_empty(c, k));
    }
    assert(merged(a, b) =~= merged(b, a));
}

proof fn lemma_values_for_concat(m1: Seq<Metric>, m2: Seq<Metric>, k: Seq<char>)
    ensures
        values_for(m1 + m2, k) == values_for(m1, k) + values_for(m2, k),
    decreases m2.len(),
{
    if m2.len() == 0 {
        assert(m1 + m2 == m1);
        assert(values_for(m1, k) + values_for(m2, k) == values_for(m1, k));
    } else {
        let t = m2.drop_last();
        lemma_values_for_concat(m1, t, k);
        assert((m1 + m2).drop_last() == m1 + t);
        assert((m1 + m2).last() == m2.last());
        if m2.last().name@ == k {
            assert(values_for(m1, k) + values_for(t, k).push(m2.last().value) == (values_for(m1, k)
                + values_for(t, k)).push(m2.last().value));
        }
    }
}

/// Grouping two parts of a measurement stream separately and merging the
/// two sets equals grouping the whole stream.
pub proof fn lemma_grouped_split(m1: Seq<Metric>, m2: Seq<Metric>)
    requires
        m1.len() <= MAX_COUNT,
    ensures
        grouped(m1 + m2) == merged(grouped(m1), grouped(m2)),
{
    let g = grouped(m1 + m2);
    let h = merged(grouped(m1), grouped(m2));
    assert forall|k: Seq<char>| #[trigger] g.contains_key(k) == h.contains_key(k) by {
        lemma_values_for_concat(m1, m2, k);
        lemma_values_for_len(m1 + m2, k);
        lemma_values_for_len(m1, k);
        lemma_values_for_len(m2, k);
    }
    assert forall|k: Seq<char>| #[trigger] g.contains_key(k) implies g[k] == h[k] by {
        lemma_values_for_concat(m1, m2, k);
        lemma_values_for_len(m1, k);
        lemma_values_for_len(m2, k);
        lemma_fold_split(values_for(m1, k), values_for(m2, k));
        assert(fold(Seq::<i32>::empty()) == StatsView::empty());
    }
    assert(g =~= h);
}

/// Running statistics keyed by metric name; names are unique.
#[derive(Clone, Debug)]
pub struct StatsByMetric {
    entries: Vec<(String, DescriptiveStats)>,
}

impl StatsByMetric {
    /// The entries as (name, statistic) pairs, in insertion order.
    pub closed spec fn pairs(&self) -> Seq<(Seq<char>, StatsView)> {
        self.entries@.map_values(|e: (String, DescriptiveStats)| (e.0@, e.1@))
    }

    /// The metric names, in insertion order.
    pub open spec fn names(&self) -> Seq<Seq<char>> {
        self.pairs().map_values(|e: (Seq<char>, StatsView)| e.0)
    }

    pub open spec fn wf(&self) -> bool {
        &&& unique_names(self.pairs())
        &&& forall|i: int| 0 <= i < self.pairs().len() ==> (#[trigger] self.pairs()[i]).1.valid()
    }

    /// An empty set of statistics.
    pub fn new() -> (r: StatsByMetric)
        ensures
            r.wf(),
            r@ == Map::<Seq<char>, StatsView>::empty(),
    {
        let r = StatsByMetric { entries: Vec::new() };
        assert(r@ =~= Map::<Seq<char>, StatsView>::empty());
        r
    }

    /// The number of metric names.
    pub fn len(&self) -> (r: usize)
        ensures
            r == self.names().len(),
    {
        self.entries.len()
    }

    /// The name and statistic at position `i`.
    pub fn entry(&self, i: usize) -> (r: (String, DescriptiveStats))
        requires
            self.wf(),
            i < self.names().len(),
        ensures
            r.0@ == self.names()[i as int],
            self@.contains_key(r.0@),
            r.1@ == self@[r.0@],
            r.1.wf(),
    {
        proof {
            lemma_pairs_map_at(self.pairs(), i as int);
        }
        let e = &self.entries[i];
        (e.0.clone(), e.1)
    }

    /// The position of `name`, if present.
    fn find(&self, name: &String) -> (r: Option<usize>)
        requires
            self.wf(),
        ensures
            r is Some ==> r->Some_0 < self.names().len() && self.pairs()[r->Some_0 as int].0
                == name@,
            r is None ==> !self@.contains_key(name@),
    {
        let mut i: usize = 0;
        while i < self.entries.len()
            invariant
                i <= self.entries.len(),
                self.pairs().len() == self.entries.len(),
                forall|j: int| 0 <= j < i ==> self.pairs()[j].0 != name@,
            decreases self.entries.len() - i,
        {
            if self.entries[i].0 == *name {
                return Some(i);
            }
            i = i + 1;
        }
        None
    }

    /// The statistic of `name`, if present.
    pub fn get(&self, name: &str) -> (r: Option<DescriptiveStats>)
        requires
            self.wf(),
        ensures
            r is Some <==> self@.contains_key(name@),
            r is Some ==> r->Some_0@ == self@[name@] && r->Some_0.wf(),
    {
        let key = name.to_owned();
        match self.find(&key) {
            Some(i) => {
                proof {
                    lemma_pairs_map_at(self.pairs(), i as int);
                }
                Some(self.entries[i].1)
            },
            None => None,
        }
    }

    /// Merges `stat` into the statistic of `name`, creating it if absent.
    fn merge_into(&mut self, name: &String, stat: DescriptiveStats)
        requires
            old(self).wf(),
            stat.wf(),
            stat_or_empty(old(self)@, name@).count + stat@.count <= MAX_COUNT,
        ensures
            final(self).wf(),
            final(self)@ == old(self)@.insert(name@, stat_or_empty(old(self)@, name@).merge(stat@)),
    {
        match self.find(name) {
            Some(i) => {
                proof {
                    lemma_pairs_map_at(self.pairs(), i as int);
                }
                let mut current = self.entries[i].1;
                current.merge(stat);
                proof {
                    lemma_pairs_map_update(self.pairs(), i as int, current@);
                }
                self.entries.set(i, (name.clone(), current));
                assert(self.pairs() =~= old(self).pairs().update(i as int, (name@, current@)));
            },
            None => {
                let mut fresh = DescriptiveStats::empty();
                fresh.merge(stat);
                proof {
                    lemma_pairs_map_push(self.pairs(), name@, fresh@);
                }
                self.entries.push((name.clone(), fresh));
                assert(self.pairs() =~= old(self).pairs().push((name@, fresh@)));
            },
        }
    }

    /// Adds `value` to the statistic of `name`, creating it if absent.
    fn add_value(&mut self, name: &String, value: i32)
        requires
            old(self).wf(),
            stat_or_empty(old(self)@, name@).count < MAX_COUNT,
        ensures
            final(self).wf(),
            final(self)@ == old(self)@.insert(
                name@,
                stat_or_empty(old(self)@, name@).add(value as int),
            ),
    {
        match self.find(name) {
            Some(i) => {
                proof {
                    lemma_pairs_map_at(self.pairs(), i as int);
                }
                let mut current = self.entries[i].1;
                current.add(value);
                proof {
                    lemma_pairs_map_update(self.pairs(), i as int, current@);
                }
                self.entries.set(i, (name.clone(), current));
                assert(self.pairs() =~= old(self).pairs().update(i as int, (name@, current@)));
            },
            None => {
                let mut fresh = DescriptiveStats::empty();
                fresh.add(value);
                proof {
                    lemma_pairs_map_push(self.pairs(), name@, fresh@);
                }
                self.entries.push((name.clone(), fresh));
                assert(self.pairs() =~= old(self).pairs().push((name@, fresh@)));
            },
        }
    }

    /// Every statistic held by a well-formed set is valid.
    pub proof fn lemma_values_valid(&self)
        requires
            self.wf(),
        ensures
            forall|k: Seq<char>| #[trigger] self@.contains_key(k) ==> self@[k].valid(),
    {
        assert forall|k: Seq<char>| #[trigger] self@.contains_key(k) implies self@[k].valid() by {
            let i = choose|i: int| 0 <= i < self.pairs().len() && self.pairs()[i].0 == k;
            lemma_pairs_map_at(self.pairs(), i);
        }
    }

    /// Groups a stream of measurements by name and accumulates the values
    /// of each name, in stream order.
    pub fn from_iter(source: Vec<Metric>) -> (r: StatsByMetric)
        requires
            source@.len() <= MAX_COUNT,
        ensures
            r.wf(),
            r@ == grouped(source@),
    {
        let mut r = StatsByMetric::new();
        let mut i: usize = 0;
        assert(source@.take(0) =~= Seq::<Metric>::empty());
        assert(r@ =~= grouped(source@.take(0)));
        while i < source.len()
            invariant
                i <= source@.len(),
                source@.len() <= MAX_COUNT,
                r.wf(),
                r@ == grouped(source@.take(i as int)),
            decreases source@.len() - i,
        {
            let m = &source[i];
            let ghost before = source@.take(i as int);
            proof {
                lemma_values_for_len(before, m.name@);
                crate::stats::lemma_fold_valid(values_for(before, m.name@));
                lemma_grouped_push(before, *m);
                assert(source@.take(i + 1) == before.push(*m));
            }
            r.add_value(&m.name, m.value);
            i = i + 1;
        }
        assert(source@.take(i as int) == source@);
        r
    }

    /// Merges every statistic of `rhs` into the statistic of the same name
    /// here, creating absent names.
    pub fn merge(&mut self, rhs: StatsByMetric)
        requires
            old(self).wf(),
            rhs.wf(),
            forall|k: Seq<char>|
                #![trigger old(self)@.contains_key(k)]
                #![trigger rhs@.contains_key(k)]
                stat_or_empty(old(self)@, k).count + stat_or_empty(rhs@, k).count <= MAX_COUNT,
        ensures
            final(self).wf(),
            final(self)@ == merged(old(self)@, rhs@),
    {
        proof {
            old(self).lemma_values_valid();
        }
        let ghost start = self@;
        let ghost rp = rhs.pairs();
        let mut i: usize = 0;
        assert(rp.take(0) =~= Seq::<(Seq<char>, StatsView)>::empty());
        assert(self@ =~= merged(start, pairs_map(rp.take(0))));
        while i < rhs.entries.len()
            invariant
                i <= rhs.entries.len(),
                rp == rhs.pairs(),
                rp.len() == rhs.entries.len(),
                rhs.wf(),
                self.wf(),
                start == old(self)@,
                forall|k: Seq<char>| #[trigger] start.contains_key(k) ==> start[k].valid(),
                forall|k: Seq<char>|
                    #![trigger start.contains_key(k)]
                    #![trigger rhs@.contains_key(k)]
                    stat_or_empty(start, k).count + stat_or_empty(rhs@, k).count <= MAX_COUNT,
                self@ == merged(start, pairs_map(rp.take(i as int))),
            decreases rhs.entries.len() - i,
        {
            let name = &rhs.entries[i].0;
            let stat = rhs.entries[i].1;
            let ghost prefix = rp.take(i as int);
            let ghost k = name@;
            proof {
                assert(rp[i as int] == (k, stat@));
                assert(unique_names(prefix));
                assert(!pairs_map(prefix).contains_key(k)) by {
                    if pairs_map(prefix).contains_key(k) {
                        let j = choose|j: int| 0 <= j < prefix.len() && prefix[j].0 == k;
                        assert(rp[j].0 == rp[i as int].0);
                    }
                }
                lemma_pairs_map_push(prefix, k, stat@);
                assert(rp.take(i + 1) == prefix.push((k, stat@)));
                lemma_pairs_map_at(rp, i as int);
                assert(stat@.valid());
            }
            self.merge_into(name, stat);
            proof {
                let next = pairs_map(rp.take(i + 1));
                assert(self@ =~= merged(start, next));
            }
            i = i + 1;
        }
        assert(rp.take(i as int) == rp);
    }

    /// One record per metric name, in insertion order.
    pub fn to_records(&self) -> (r: Vec<StatsRecord>)
        requires
            self.wf(),
        ensures
            r@.len() == self.names().len(),
            forall|i: int|
                0 <= i < r@.len() ==> (#[trigger] r@[i]).name is Some && r@[i].name->Some_0@
                    == self.names()[i] && describes(r@[i], self@[self.names()[i]]),
    {
        let mut out: Vec<StatsRecord> = Vec::new();
        let mut i: usize = 0;
        while i < self.entries.len()
            invariant
                self.wf(),
                i <= self.entries.len(),
                self.pairs().len() == self.entries.len(),
                out@.len() == i,
                forall|j: int|
                    0 <= j < i ==> (#[trigger] out@[j]).name is Some && out@[j].name->Some_0@
                        == self.names()[j] && describes(out@[j], self@[self.names()[j]]),
            decreases self.entries.len() - i,
        {
            let (name, stat) = self.entry(i);
            out.push(StatsRecord::new(name, stat));
            i = i + 1;
        }
        out
    }
}

/// A flat copy of one statistic, optionally tagged with its metric name.
#[derive(Clone, Debug)]
pub struct StatsRecord {
    pub name: Option<String>,
    pub max: i32,
    pub min: i32,
    pub cnt: u64,
    pub mean: Fraction,
    pub variance: Fraction,
}

/// The record holds the values of `s`.
pub open spec fn describes(r: StatsRecord, s: StatsView) -> bool {
    &&& r.max == s.max
    &&& r.min == s.min
    &&& r.cnt == s.count
    &&& r.mean == s.mean()
    &&& r.variance == s.variance()
}

impl StatsRecord {
    /// The record of `desc`, tagged with `metric_name`.
    pub fn new(metric_name: String, desc: DescriptiveStats) -> (r: StatsRecord)
        requires
            desc.wf(),
        ensures
            r.name == Some(metric_name),
            describes(r, desc@),
    {
        let mut record = StatsRecord::from_stats(desc);
        record.name = Some(metric_name);
        record
    }

    /// The record of `desc`, without a name.
    pub fn from_stats(desc: DescriptiveStats) -> (r: StatsRecord)
        requires
            desc.wf(),
        ensures
            r.name is None,
            describes(r, desc@),
    {
        StatsRecord {
            name: None,
            max: desc.max(),
            min: desc.min(),
            cnt: desc.count(),
            mean: desc.mean(),
            variance: desc.variance(),
        }
    }
}

impl View for StatsByMetric {
    type V = Map<Seq<char>, StatsView>;

    open spec fn view(&self) -> Map<Seq<char>, StatsView> {
        pairs_map(self.pairs())
    }
}

} // verus!
