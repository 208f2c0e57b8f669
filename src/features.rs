use vstd::prelude::*;

verus! {

/// Why a feature could not be built.
#[derive(Clone, Copy, Debug, PartialEq, Eq, Structural)]
pub enum FeatureError {
    /// A total of weights does not fit in 64 bits.
    Overflow,
    /// Averaging an empty list of features.
    Empty,
}

/// The contents of each row.
pub open spec fn views(w: Seq<Vec<u64>>) -> Seq<Seq<u64>> {
    Seq::new(w.len(), |k: int| w[k]@)
}

/// Sum of a sequence of weights.
pub open spec fn sum(s: Seq<u64>) -> int
    decreases s.len(),
{
    if s.len() == 0 {
        0
    } else {
        sum(s.drop_last()) + s.last()
    }
}

/// The weights of a slice after normalization: all-zero weights become uniform when `uniform`
/// is set (a marginal), and stay zero otherwise (an impossible condition).
pub open spec fn normalized(w: Seq<u64>, uniform: bool) -> Seq<u64> {
    if sum(w) == 0 && uniform {
        Seq::new(w.len(), |i: int| 1u64)
    } else {
        w
    }
}

/// `w / total` is a probability distribution (sums to one), or `w` is identically zero.
pub open spec fn is_distribution(w: Seq<u64>, total: int) -> bool {
    &&& total == sum(w)
    &&& total == 0 ==> forall|i: int| 0 <= i < w.len() ==> #[trigger] w[i] == 0
}

/// `a / ta` and `b / tb` give every entry the same probability.
pub open spec fn same_distribution(a: Seq<u64>, ta: int, b: Seq<u64>, tb: int) -> bool {
    &&& a.len() == b.len()
    &&& (ta == 0 <==> tb == 0)
    &&& forall|i: int| 0 <= i < a.len() ==> #[trigger] a[i] * tb == b[i] * ta
}

proof fn lemma_sum_prefix(s: Seq<u64>, i: int)
    requires
        0 <= i <= s.len(),
    ensures
        0 <= sum(s.subrange(0, i)) <= sum(s),
    decreases s.len() - i,
{
    if i < s.len() {
        lemma_sum_prefix(s, i + 1);
        assert(s.subrange(0, i + 1).drop_last() =~= s.subrange(0, i));
    } else {
        assert(s.subrange(0, i) =~= s);
    }
    lemma_sum_nonneg(s.subrange(0, i));
}

proof fn lemma_sum_nonneg(s: Seq<u64>)
    ensures
        sum(s) >= 0,
    decreases s.len(),
{
    if s.len() > 0 {
        lemma_sum_nonneg(s.drop_last());
    }
}

proof fn lemma_sum_zero(s: Seq<u64>)
    requires
        sum(s) == 0,
    ensures
        forall|i: int| 0 <= i < s.len() ==> #[trigger] s[i] == 0,
    decreases s.len(),
{
    if s.len() > 0 {
        lemma_sum_nonneg(s.drop_last());
        lemma_sum_zero(s.drop_last());
        assert forall|i: int| 0 <= i < s.len() implies #[trigger] s[i] == 0 by {
            if i < s.len() - 1 {
                assert(s.drop_last()[i] == s[i]);
            }
        }
    }
}

proof fn lemma_sum_constant(n: nat, c: u64)
    ensures
        sum(Seq::new(n, |i: int| c)) == n * c,
    decreases n,
{
    let s = Seq::new(n, |i: int| c);
    if n == 0 {
        assert(sum(s) == 0);
        assert(n * c == 0) by (nonlinear_arith)
            requires
                n == 0,
        ;
    } else {
        let m = (n - 1) as nat;
        lemma_sum_constant(m, c);
        assert(s.drop_last() =~= Seq::new(m, |i: int| c));
        assert(s.last() == c);
        assert(sum(s) == m * c + c);
        assert(m * c + c == n * c) by (nonlinear_arith)
            requires
                n == m + 1,
        ;
        assert(sum(s) == n * c);
    }
}

proof fn lemma_sum_scaled(s: Seq<u64>, t: Seq<u64>, c: int)
    requires
        s.len() == t.len(),
        forall|i: int| 0 <= i < s.len() ==> #[trigger] t[i] == c * s[i],
    ensures
        sum(t) == c * sum(s),
    decreases s.len(),
{
    if s.len() > 0 {
        lemma_sum_scaled(s.drop_last(), t.drop_last(), c);
        let a = sum(s.drop_last());
        let b = s.last() as int;
        assert(t.last() == c * b);
        assert(c * (a + b) == c * a + c * b) by (nonlinear_arith);
    }
}

/// Sum of `w`, or `None` when it does not fit in 64 bits.
fn checked_sum(w: &Vec<u64>) -> (r: Option<u64>)
    ensures
        r is Some <==> sum(w@) <= u64::MAX,
        r is Some ==> r->0 == sum(w@),
{
    let mut acc: u64 = 0;
    let mut i: usize = 0;
    while i < w.len()
        invariant
            i <= w@.len(),
            acc == sum(w@.subrange(0, i as int)),
        decreases w@.len() - i,
    {
        proof {
            assert(w@.subrange(0, i + 1).drop_last() =~= w@.subrange(0, i as int));
        }
        match acc.checked_add(w[i]) {
            Some(a) => acc = a,
            None => {
                proof {
                    lemma_sum_prefix(w@, i + 1);
                }
                return None;
            },
        }
        i = i + 1;
    }
    assert(w@.subrange(0, w@.len() as int) =~= w@);
    Some(acc)
}

/// A copy of `w`, entry by entry.
fn copy_weights(w: &Vec<u64>) -> (r: Vec<u64>)
    ensures
        r@ == w@,
{
    let mut r: Vec<u64> = Vec::with_capacity(w.len());
    let mut i: usize = 0;
    while i < w.len()
        invariant
            i <= w@.len(),
            r@ == w@.subrange(0, i as int),
        decreases w@.len() - i,
    {
        r.push(w[i]);
        i = i + 1;
    }
    assert(w@.subrange(0, w@.len() as int) =~= w@);
    r
}

/// `n` copies of `c`.
fn constant_weights(n: usize, c: u64) -> (r: Vec<u64>)
    ensures
        r@ == Seq::new(n as nat, |i: int| c),
{
    let mut r: Vec<u64> = Vec::with_capacity(n);
    let mut i: usize = 0;
    while i < n
        invariant
            i <= n,
            r@ == Seq::new(i as nat, |j: int| c),
        decreases n - i,
    {
        r.push(c);
        i = i + 1;
        assert(r@ =~= Seq::new(i as nat, |j: int| c));
    }
    r
}

/// The normalized weights of one slice and their total.
fn normalize_slice(w: &Vec<u64>, uniform: bool) -> (r: Option<(Vec<u64>, u64)>)
    requires
        w@.len() <= u64::MAX,
    ensures
        r is Some <==> sum(w@) <= u64::MAX,
        r is Some ==> (r->0).0@ == normalized(w@, uniform) && is_distribution((r->0).0@, (r->0).1 as int),
        r is Some && uniform && w@.len() > 0 ==> (r->0).1 > 0,
{
    match checked_sum(w) {
        None => None,
        Some(total) => {
            if total == 0 && uniform {
                let ones = constant_weights(w.len(), 1);
                proof {
                    lemma_sum_constant(w@.len(), 1);
                }
                Some((ones, w.len() as u64))
            } else {
                proof {
                    if total == 0 {
                        lemma_sum_zero(w@);
                    }
                }
                Some((copy_weights(w), total))
            }
        },
    }
}

/// A family of categorical distributions, one per slice (one slice for a marginal or a
/// joint, one per value of the condition for a conditional). Slice `k` gives entry `i`
/// the probability `slices[k][i] / totals[k]`. `dirty` accumulates the expected counts of
/// the entries, to be normalized by `cleanup`.
#[derive(Debug)]
pub struct CategoricalTable {
    pub slices: Vec<Vec<u64>>,
    pub totals: Vec<u64>,
    pub dirty: Vec<Vec<u64>>,
    /// All-zero counts normalize to uniform (marginal) rather than to zero (conditional).
    pub uniform: bool,
}

impl CategoricalTable {
    pub open spec fn nb_slices(&self) -> int {
        self.slices@.len() as int
    }

    /// Well formed: every slice is a distribution (or zero), the dirty counts have the
    /// same shape.
    pub open spec fn wf(&self) -> bool {
        &&& self.totals@.len() == self.slices@.len()
        &&& self.dirty@.len() == self.slices@.len()
        &&& forall|k: int|
            0 <= k < self.nb_slices() ==> {
                &&& is_distribution(#[trigger] self.slices@[k]@, self.totals@[k] as int)
                &&& self.dirty@[k]@.len() == self.slices@[k]@.len()
                &&& self.slices@[k]@.len() <= u64::MAX
                &&& self.uniform && self.slices@[k]@.len() > 0 ==> self.totals@[k] > 0
            }
    }

    /// No expected count has been added since construction.
    pub open spec fn is_fresh(&self) -> bool {
        forall|k: int, i: int|
            0 <= k < self.nb_slices() && 0 <= i < self.dirty@[k]@.len() ==> #[trigger] self.dirty@[k]@[i]
                == 0
    }

    /// Normalizing each slice of `w` fits in 64 bits.
    pub open spec fn fits(w: Seq<Seq<u64>>) -> bool {
        forall|k: int| 0 <= k < w.len() ==> sum(#[trigger] w[k]) <= u64::MAX
    }

    /// The table that normalizing `w` builds: slice `k` is `normalized(w[k])`.
    pub open spec fn built_from(&self, w: Seq<Seq<u64>>, uniform: bool) -> bool {
        &&& self.wf()
        &&& self.is_fresh()
        &&& self.uniform == uniform
        &&& self.nb_slices() == w.len()
        &&& forall|k: int| 0 <= k < w.len() ==> #[trigger] self.slices@[k]@ == normalized(w[k], uniform)
    }

    /// Normalizes every slice of `w` into a distribution: divided by its sum, or, when the
    /// sum is zero, uniform if `uniform` is set and zero otherwise.
    pub fn new(w: &Vec<Vec<u64>>, uniform: bool) -> (r: Result<CategoricalTable, FeatureError>)
        requires
            forall|k: int| 0 <= k < w@.len() ==> (#[trigger] w@[k])@.len() <= u64::MAX,
        ensures
            r is Ok <==> Self::fits(views(w@)),
            r is Ok ==> r->Ok_0.built_from(views(w@), uniform),
            r is Err ==> r->Err_0 == FeatureError::Overflow,
    {
        let mut slices: Vec<Vec<u64>> = Vec::new();
        let mut totals: Vec<u64> = Vec::new();
        let mut dirty: Vec<Vec<u64>> = Vec::new();
        let mut k: usize = 0;
        while k < w.len()
            invariant
                k <= w@.len(),
                forall|j: int| 0 <= j < w@.len() ==> (#[trigger] w@[j])@.len() <= u64::MAX,
                slices@.len() == k && totals@.len() == k && dirty@.len() == k,
                forall|j: int| 0 <= j < k ==> sum(#[trigger] w@[j]@) <= u64::MAX,
                forall|j: int|
                    0 <= j < k ==> {
                        &&& (#[trigger] slices@[j])@ == normalized(w@[j]@, uniform)
                        &&& is_distribution(slices@[j]@, totals@[j] as int)
                        &&& dirty@[j]@ == Seq::new(w@[j]@.len(), |i: int| 0u64)
                        &&& uniform && slices@[j]@.len() > 0 ==> totals@[j] > 0
                    },
            decreases w@.len() - k,
        {
            match normalize_slice(&w[k], uniform) {
                None => {
                    assert(views(w@)[k as int] == w@[k as int]@);
                    return Err(FeatureError::Overflow);
                },
                Some((sl, t)) => {
                    let z = constant_weights(w[k].len(), 0);
                    let ghost before = slices@;
                    slices.push(sl);
                    totals.push(t);
                    dirty.push(z);
                    assert(slices@[k as int] == sl);
                },
            }
            k = k + 1;
        }
        let r = CategoricalTable { slices, totals, dirty, uniform };
        assert forall|k: int| 0 <= k < w@.len() implies sum(#[trigger] views(w@)[k]) <= u64::MAX by {
            assert(views(w@)[k] == w@[k]@);
        }
        assert forall|k: int| 0 <= k < w@.len() implies #[trigger] r.slices@[k]@ == normalized(views(w@)[k], uniform) by {
            assert(views(w@)[k] == w@[k]@);
        }
        assert forall|k: int, i: int|
            0 <= k < r.nb_slices() && 0 <= i < r.dirty@[k]@.len() implies #[trigger] r.dirty@[k]@[i]
            == 0 by {
            assert(r.slices@[k]@ == normalized(w@[k]@, uniform));
            assert(r.dirty@[k]@ == Seq::new(w@[k]@.len(), |i: int| 0u64));
        }
        assert forall|k: int| 0 <= k < r.nb_slices() implies {
            &&& is_distribution(#[trigger] r.slices@[k]@, r.totals@[k] as int)
            &&& r.dirty@[k]@.len() == r.slices@[k]@.len()
            &&& r.slices@[k]@.len() <= u64::MAX
            &&& r.uniform && r.slices@[k]@.len() > 0 ==> r.totals@[k] > 0
        } by {
            assert(r.slices@[k]@ == normalized(w@[k]@, uniform));
        }
        Ok(r)
    }

    /// Probability of entry `i` of slice `k`, as `(numerator, denominator)`.
    pub fn probability(&self, k: usize, i: usize) -> (r: (u64, u64))
        requires
            self.wf(),
            k < self.nb_slices(),
            i < self.slices@[k as int]@.len(),
        ensures
            r == (self.slices@[k as int]@[i as int], self.totals@[k as int]),
    {
        (self.slices[k][i], self.totals[k])
    }

    /// Adds `mass` to the expected count of entry `i` of slice `k`.
    pub fn dirty_update(&mut self, k: usize, i: usize, mass: u64)
        requires
            old(self).wf(),
            k < old(self).nb_slices(),
            i < old(self).dirty@[k as int]@.len(),
            old(self).dirty@[k as int]@[i as int] + mass <= u64::MAX,
        ensures
            final(self).wf(),
            final(self).slices == old(self).slices,
            final(self).totals == old(self).totals,
            final(self).uniform == old(self).uniform,
            final(self).dirty@.len() == old(self).dirty@.len(),
            final(self).dirty@[k as int]@ == old(self).dirty@[k as int]@.update(
                i as int,
                (old(self).dirty@[k as int]@[i as int] + mass) as u64,
            ),
            forall|j: int| 0 <= j < old(self).nb_slices() && j != k ==> #[trigger] final(self).dirty@[j] == old(self).dirty@[j],
    {
        let mut row = copy_weights(&self.dirty[k]);
        let v = row[i] + mass;
        row.set(i, v);
        self.dirty.set(k, row);
        assert forall|j: int| 0 <= j < self.nb_slices() implies {
            &&& is_distribution(#[trigger] self.slices@[j]@, self.totals@[j] as int)
            &&& self.dirty@[j]@.len() == self.slices@[j]@.len()
            &&& self.slices@[j]@.len() <= u64::MAX
            &&& self.uniform && self.slices@[j]@.len() > 0 ==> self.totals@[j] > 0
        } by {
            assert(old(self).slices@[j]@ == self.slices@[j]@);
        }
    }

    /// The next table: the expected counts, normalized slice by slice.
    pub fn cleanup(&self) -> (r: Result<CategoricalTable, FeatureError>)
        requires
            self.wf(),
        ensures
            r is Ok <==> Self::fits(views(self.dirty@)),
            r is Ok ==> r->Ok_0.built_from(views(self.dirty@), self.uniform),
            r is Err ==> r->Err_0 == FeatureError::Overflow,
    {
        assert forall|k: int| 0 <= k < self.dirty@.len() implies (#[trigger] self.dirty@[k])@.len()
            <= u64::MAX by {
            assert(is_distribution(self.slices@[k]@, self.totals@[k] as int));
        }
        Self::new(&self.dirty, self.uniform)
    }
}

/// A common multiple of the nonzero totals `ts`, built left to right: a total that does not
/// divide the running value multiplies it.
pub open spec fn common_multiple(ts: Seq<u64>) -> int
    decreases ts.len(),
{
    if ts.len() == 0 {
        1
    } else {
        let m = common_multiple(ts.drop_last());
        let t = ts.last() as int;
        if t > 0 && m % t != 0 {
            m * t
        } else {
            m
        }
    }
}

/// The totals of slice `k` across `tables`.
pub open spec fn totals_at(tables: Seq<CategoricalTable>, k: int) -> Seq<u64> {
    Seq::new(tables.len(), |j: int| tables[j].totals@[k])
}

/// `sum over j of tables[j].slices[k][i] * (m / totals)`, skipping zero slices: entry `i` of the
/// mean of the distributions of slice `k`, scaled by `m` times the number of tables.
pub open spec fn scaled_sum(tables: Seq<CategoricalTable>, k: int, i: int, m: int) -> int
    decreases tables.len(),
{
    if tables.len() == 0 {
        0
    } else {
        let t = tables.last().totals@[k] as int;
        scaled_sum(tables.drop_last(), k, i, m) + if t > 0 {
            tables.last().slices@[k]@[i] * (m / t)
        } else {
            0
        }
    }
}

/// The tables have the shape of `tables[0]`.
pub open spec fn same_shape(tables: Seq<CategoricalTable>) -> bool {
    &&& tables.len() > 0
    &&& forall|j: int| 0 <= j < tables.len() ==> (#[trigger] tables[j]).wf()
    &&& forall|j: int|
        0 <= j < tables.len() ==> {
            &&& (#[trigger] tables[j]).nb_slices() == tables[0].nb_slices()
            &&& tables[j].uniform == tables[0].uniform
            &&& forall|k: int|
                0 <= k < tables[0].nb_slices() ==> (#[trigger] tables[j].slices@[k])@.len()
                    == tables[0].slices@[k]@.len()
        }
}

/// Weights proportional to the mean of the distributions of slice `k`.
pub open spec fn average_weights(tables: Seq<CategoricalTable>, k: int) -> Seq<u64> {
    Seq::new(
        tables[0].slices@[k]@.len(),
        |i: int| scaled_sum(tables, k, i, common_multiple(totals_at(tables, k))) as u64,
    )
}

/// Every intermediate value of the average fits in 64 bits.
pub open spec fn average_fits(tables: Seq<CategoricalTable>) -> bool {
    forall|k: int|
        0 <= k < tables[0].nb_slices() ==> {
            &&& common_multiple(#[trigger] totals_at(tables, k)) <= u64::MAX
            &&& forall|i: int|
                0 <= i < tables[0].slices@[k]@.len() ==> scaled_sum(tables, k, i, common_multiple(totals_at(tables, k)))
                    <= u64::MAX
            &&& sum(average_weights(tables, k)) <= u64::MAX
        }
}

proof fn lemma_common_multiple_grows(ts: Seq<u64>, j: int)
    requires
        0 <= j <= ts.len(),
    ensures
        1 <= common_multiple(ts.subrange(0, j)) <= common_multiple(ts),
    decreases ts.len() - j,
{
    if j < ts.len() {
        lemma_common_multiple_grows(ts, j + 1);
        lemma_common_multiple_pos(ts.subrange(0, j));
        let p = ts.subrange(0, j + 1);
        assert(p.drop_last() =~= ts.subrange(0, j));
        let m = common_multiple(ts.subrange(0, j));
        let t = p.last() as int;
        if t > 0 && m % t != 0 {
            assert(m <= m * t) by (nonlinear_arith)
                requires
                    m >= 1,
                    t >= 1,
            ;
        }
    } else {
        assert(ts.subrange(0, j) =~= ts);
        lemma_common_multiple_pos(ts);
    }
}

proof fn lemma_common_multiple_pos(ts: Seq<u64>)
    ensures
        common_multiple(ts) >= 1,
    decreases ts.len(),
{
    if ts.len() > 0 {
        lemma_common_multiple_pos(ts.drop_last());
        let m = common_multiple(ts.drop_last());
        let t = ts.last() as int;
        if t > 0 && m % t != 0 {
            assert(m * t >= 1) by (nonlinear_arith)
                requires
                    m >= 1,
                    t >= 1,
            ;
        }
    }
}

proof fn lemma_scaled_sum_grows(tables: Seq<CategoricalTable>, k: int, i: int, m: int, j: int)
    requires
        0 <= j <= tables.len(),
        m >= 0,
    ensures
        0 <= scaled_sum(tables.subrange(0, j), k, i, m) <= scaled_sum(tables, k, i, m),
    decreases tables.len() - j,
{
    if j < tables.len() {
        lemma_scaled_sum_grows(tables, k, i, m, j + 1);
        lemma_scaled_sum_nonneg(tables.subrange(0, j), k, i, m);
        let p = tables.subrange(0, j + 1);
        assert(p.drop_last() =~= tables.subrange(0, j));
        let t = p.last().totals@[k] as int;
        if t > 0 {
            let w = p.last().slices@[k]@[i] as int;
            assert(w * (m / t) >= 0) by (nonlinear_arith)
                requires
                    w >= 0,
                    m >= 0,
                    t > 0,
            ;
        }
    } else {
        assert(tables.subrange(0, j) =~= tables);
        lemma_scaled_sum_nonneg(tables, k, i, m);
    }
}

proof fn lemma_scaled_sum_nonneg(tables: Seq<CategoricalTable>, k: int, i: int, m: int)
    requires
        m >= 0,
    ensures
        scaled_sum(tables, k, i, m) >= 0,
    decreases tables.len(),
{
    if tables.len() > 0 {
        lemma_scaled_sum_nonneg(tables.drop_last(), k, i, m);
        let t = tables.last().totals@[k] as int;
        if t > 0 {
            let w = tables.last().slices@[k]@[i] as int;
            assert(w * (m / t) >= 0) by (nonlinear_arith)
                requires
                    w >= 0,
                    m >= 0,
                    t > 0,
            ;
        }
    }
}

/// The common multiple of the totals of slice `k`, or `None` past 64 bits.
fn slice_common_multiple(tables: &Vec<CategoricalTable>, k: usize) -> (r: Option<u64>)
    requires
        same_shape(tables@),
        k < tables@[0].nb_slices(),
    ensures
        r is Some <==> common_multiple(totals_at(tables@, k as int)) <= u64::MAX,
        r is Some ==> r->0 == common_multiple(totals_at(tables@, k as int)),
{
    let ghost ts = totals_at(tables@, k as int);
    let mut m: u64 = 1;
    let mut j: usize = 0;
    while j < tables.len()
        invariant
            same_shape(tables@),
            k < tables@[0].nb_slices(),
            ts == totals_at(tables@, k as int),
            j <= tables@.len(),
            m == common_multiple(ts.subrange(0, j as int)),
        decreases tables@.len() - j,
    {
        proof {
            assert(ts.subrange(0, j + 1).drop_last() =~= ts.subrange(0, j as int));
            assert(tables@[j as int].nb_slices() == tables@[0].nb_slices());
        }
        let t = tables[j].totals[k];
        assert(t == ts.subrange(0, j + 1).last());
        if t > 0 && m % t != 0 {
            match m.checked_mul(t) {
                Some(p) => m = p,
                None => {
                    proof {
                        lemma_common_multiple_grows(ts, j + 1);
                    }
                    return None;
                },
            }
        }
        j = j + 1;
    }
    assert(ts.subrange(0, tables@.len() as int) =~= ts);
    Some(m)
}

/// `scaled_sum` for entry `i` of slice `k`, or `None` past 64 bits.
fn slice_scaled_sum(tables: &Vec<CategoricalTable>, k: usize, i: usize, m: u64) -> (r: Option<u64>)
    requires
        same_shape(tables@),
        k < tables@[0].nb_slices(),
        i < tables@[0].slices@[k as int]@.len(),
    ensures
        r is Some <==> scaled_sum(tables@, k as int, i as int, m as int) <= u64::MAX,
        r is Some ==> r->0 == scaled_sum(tables@, k as int, i as int, m as int),
{
    let mut acc: u64 = 0;
    let mut j: usize = 0;
    while j < tables.len()
        invariant
            same_shape(tables@),
            k < tables@[0].nb_slices(),
            i < tables@[0].slices@[k as int]@.len(),
            j <= tables@.len(),
            acc == scaled_sum(tables@.subrange(0, j as int), k as int, i as int, m as int),
        decreases tables@.len() - j,
    {
        proof {
            assert(tables@.subrange(0, j + 1).drop_last() =~= tables@.subrange(0, j as int));
            assert(tables@[j as int].nb_slices() == tables@[0].nb_slices());
            assert(tables@[j as int].slices@[k as int]@.len() == tables@[0].slices@[k as int]@.len());
            assert(tables@[j as int].wf());
        }
        let t = tables[j].totals[k];
        if t > 0 {
            let w = tables[j].slices[k][i];
            let q = m / t;
            match w.checked_mul(q) {
                Some(x) => match acc.checked_add(x) {
                    Some(a) => acc = a,
                    None => {
                        proof {
                            lemma_scaled_sum_grows(tables@, k as int, i as int, m as int, j + 1);
                        }
                        return None;
                    },
                },
                None => {
                    proof {
                        lemma_scaled_sum_nonneg(tables@.subrange(0, j as int), k as int, i as int, m as int);
                        lemma_scaled_sum_grows(tables@, k as int, i as int, m as int, j + 1);
                    }
                    return None;
                },
            }
        }
        j = j + 1;
    }
    assert(tables@.subrange(0, tables@.len() as int) =~= tables@);
    Some(acc)
}

impl CategoricalTable {
    /// The table that averaging `tables` builds: slice `k` is the normalized mean of the
    /// distributions of slice `k`.
    pub open spec fn averaged_from(&self, tables: Seq<CategoricalTable>) -> bool {
        &&& tables.len() > 0
        &&& average_fits(tables)
        &&& self.wf()
        &&& self.is_fresh()
        &&& self.uniform == tables[0].uniform
        &&& self.nb_slices() == tables[0].nb_slices()
        &&& forall|k: int|
            0 <= k < self.nb_slices() ==> #[trigger] self.slices@[k]@ == normalized(
                average_weights(tables, k),
                tables[0].uniform,
            )
    }

    /// The elementwise mean of the distributions of `tables`, normalized.
    pub fn average(tables: &Vec<CategoricalTable>) -> (r: Result<CategoricalTable, FeatureError>)
        requires
            tables@.len() > 0 ==> same_shape(tables@),
        ensures
            r matches Err(FeatureError::Empty) <==> tables@.len() == 0,
            r is Ok <==> tables@.len() > 0 && average_fits(tables@),
            r is Ok ==> r->Ok_0.averaged_from(tables@),
    {
        if tables.len() == 0 {
            return Err(FeatureError::Empty);
        }
        let nb = tables[0].slices.len();
        let uniform = tables[0].uniform;
        let mut slices: Vec<Vec<u64>> = Vec::new();
        let mut totals: Vec<u64> = Vec::new();
        let mut dirty: Vec<Vec<u64>> = Vec::new();
        let mut k: usize = 0;
        while k < nb
            invariant
                same_shape(tables@),
                nb == tables@[0].nb_slices(),
                uniform == tables@[0].uniform,
                k <= nb,
                slices@.len() == k && totals@.len() == k && dirty@.len() == k,
                forall|j: int|
                    0 <= j < k ==> {
                        &&& common_multiple(#[trigger] totals_at(tables@, j)) <= u64::MAX
                        &&& forall|i: int|
                            0 <= i < tables@[0].slices@[j]@.len() ==> scaled_sum(tables@, j, i, common_multiple(totals_at(tables@, j)))
                                <= u64::MAX
                        &&& sum(average_weights(tables@, j)) <= u64::MAX
                    },
                forall|j: int|
                    0 <= j < k ==> {
                        &&& (#[trigger] slices@[j])@ == normalized(average_weights(tables@, j), uniform)
                        &&& is_distribution(slices@[j]@, totals@[j] as int)
                        &&& dirty@[j]@ == Seq::new(slices@[j]@.len(), |i: int| 0u64)
                        &&& slices@[j]@.len() <= u64::MAX
                        &&& uniform && slices@[j]@.len() > 0 ==> totals@[j] > 0
                    },
            decreases nb - k,
        {
            let m = match slice_common_multiple(tables, k) {
                Some(m) => m,
                None => return Err(FeatureError::Overflow),
            };
            let len = tables[0].slices[k].len();
            proof {
                assert(is_distribution(tables@[0].slices@[k as int]@, tables@[0].totals@[k as int] as int));
            }
            let mut w: Vec<u64> = Vec::with_capacity(len);
            let mut i: usize = 0;
            while i < len
                invariant
                    same_shape(tables@),
                    k < tables@[0].nb_slices(),
                    len == tables@[0].slices@[k as int]@.len(),
                    m == common_multiple(totals_at(tables@, k as int)),
                    i <= len,
                    w@.len() == i,
                    forall|l: int| 0 <= l < i ==> #[trigger] w@[l] == average_weights(tables@, k as int)[l],
                    forall|l: int| 0 <= l < i ==> scaled_sum(tables@, k as int, l, m as int) <= u64::MAX,
                decreases len - i,
            {
                match slice_scaled_sum(tables, k, i, m) {
                    Some(x) => w.push(x),
                    None => return Err(FeatureError::Overflow),
                }
                i = i + 1;
            }
            assert(w@ =~= average_weights(tables@, k as int));
            match normalize_slice(&w, uniform) {
                None => return Err(FeatureError::Overflow),
                Some((sl, t)) => {
                    let z = constant_weights(len, 0);
                    slices.push(sl);
                    totals.push(t);
                    dirty.push(z);
                },
            }
            k = k + 1;
        }
        let r = CategoricalTable { slices, totals, dirty, uniform };
        assert forall|k: int, i: int|
            0 <= k < r.nb_slices() && 0 <= i < r.dirty@[k]@.len() implies #[trigger] r.dirty@[k]@[i]
            == 0 by {
            assert(r.slices@[k]@ == normalized(average_weights(tables@, k), uniform));
            assert(r.dirty@[k]@ == Seq::new(r.slices@[k]@.len(), |i: int| 0u64));
        }
        assert forall|k: int| 0 <= k < r.nb_slices() implies {
            &&& is_distribution(#[trigger] r.slices@[k]@, r.totals@[k] as int)
            &&& r.dirty@[k]@.len() == r.slices@[k]@.len()
            &&& r.slices@[k]@.len() <= u64::MAX
            &&& r.uniform && r.slices@[k]@.len() > 0 ==> r.totals@[k] > 0
        } by {
            assert(r.slices@[k]@ == normalized(average_weights(tables@, k), uniform));
        }
        Ok(r)
    }
}

proof fn lemma_common_multiple_copies(ts: Seq<u64>, t: u64)
    requires
        forall|j: int| 0 <= j < ts.len() ==> #[trigger] ts[j] == t,
    ensures
        common_multiple(ts) == if ts.len() > 0 && t > 0 {
            t as int
        } else {
            1
        },
    decreases ts.len(),
{
    if ts.len() > 0 {
        let rest = ts.drop_last();
        assert forall|j: int| 0 <= j < rest.len() implies #[trigger] rest[j] == t by {
            assert(rest[j] == ts[j]);
        }
        lemma_common_multiple_copies(rest, t);
        assert(ts.last() == ts[ts.len() - 1]);
        if t > 0 {
            let ti = t as int;
            assert(ti % ti == 0) by (nonlinear_arith)
                requires
                    ti > 0,
            ;
            if rest.len() == 0 {
                if ti > 1 {
                    assert(1int % ti == 1) by (nonlinear_arith)
                        requires
                            ti > 1,
                    ;
                    assert(1 * ti == ti);
                }
            }
        }
    }
}

proof fn lemma_scaled_sum_copies(tables: Seq<CategoricalTable>, f: CategoricalTable, k: int, i: int, m: int)
    requires
        forall|j: int| 0 <= j < tables.len() ==> #[trigger] tables[j] == f,
    ensures
        scaled_sum(tables, k, i, m) == tables.len() * if f.totals@[k] > 0 {
            f.slices@[k]@[i] * (m / f.totals@[k] as int)
        } else {
            0
        },
    decreases tables.len(),
{
    let x = if f.totals@[k] > 0 {
        f.slices@[k]@[i] * (m / f.totals@[k] as int)
    } else {
        0
    };
    if tables.len() > 0 {
        let rest = tables.drop_last();
        assert forall|j: int| 0 <= j < rest.len() implies #[trigger] rest[j] == f by {
            assert(rest[j] == tables[j]);
        }
        lemma_scaled_sum_copies(rest, f, k, i, m);
        assert(tables.last() == tables[tables.len() - 1]);
        let n = tables.len() as int;
        assert((n - 1) * x + x == n * x) by (nonlinear_arith);
    } else {
        assert(0 * x == 0) by (nonlinear_arith);
    }
}

/// Averaging copies of one table gives that table back: each slice of the average `r` of
/// `tables`, all equal to `f`, gives every entry the probability it has in `f`.
pub proof fn lemma_average_of_copies(tables: Seq<CategoricalTable>, f: CategoricalTable, r: CategoricalTable)
    requires
        f.wf(),
        tables.len() > 0,
        forall|j: int| 0 <= j < tables.len() ==> #[trigger] tables[j] == f,
        r.averaged_from(tables),
    ensures
        r.nb_slices() == f.nb_slices(),
        forall|k: int|
            0 <= k < f.nb_slices() ==> same_distribution(
                #[trigger] r.slices@[k]@,
                r.totals@[k] as int,
                f.slices@[k]@,
                f.totals@[k] as int,
            ),
{
    assert(tables[0] == f);
    assert forall|k: int| 0 <= k < f.nb_slices() implies same_distribution(
        #[trigger] r.slices@[k]@,
        r.totals@[k] as int,
        f.slices@[k]@,
        f.totals@[k] as int,
    ) by {
        let n = tables.len() as int;
        let w = f.slices@[k]@;
        let t = f.totals@[k];
        let ts = totals_at(tables, k);
        assert forall|j: int| 0 <= j < ts.len() implies #[trigger] ts[j] == t by {
            assert(tables[j] == f);
        }
        lemma_common_multiple_copies(ts, t);
        let m = common_multiple(ts);
        let aw = average_weights(tables, k);
        assert(is_distribution(w, t as int));
        assert(is_distribution(r.slices@[k]@, r.totals@[k] as int));
        assert(r.slices@[k]@ == normalized(aw, f.uniform));
        if t > 0 {
            assert(m == t);
            let ti = t as int;
            assert(ti / ti == 1) by (nonlinear_arith)
                requires
                    ti > 0,
            ;
            assert forall|i: int| 0 <= i < w.len() implies #[trigger] aw[i] == n * w[i] by {
                lemma_scaled_sum_copies(tables, f, k, i, m);
                assert(w[i] * 1 == w[i]);
                assert(scaled_sum(tables, k, i, m) <= u64::MAX);
            }
            lemma_sum_scaled(w, aw, n);
            assert(n * (t as int) > 0) by (nonlinear_arith)
                requires
                    n > 0,
                    t > 0,
            ;
            assert(r.slices@[k]@ == aw);
            assert forall|i: int| 0 <= i < w.len() implies #[trigger] r.slices@[k]@[i] * (t as int) == w[i] * r.totals@[k] by {
                let wi = w[i] as int;
                assert(wi * n * ti == wi * (n * ti)) by (nonlinear_arith);
                assert(n * wi * ti == wi * (n * ti)) by (nonlinear_arith);
            }
        } else {
            lemma_sum_zero(w);
            assert forall|i: int| 0 <= i < w.len() implies #[trigger] aw[i] == 0 by {
                lemma_scaled_sum_copies(tables, f, k, i, m);
                assert(n * 0 == 0);
            }
            assert(aw =~= Seq::new(w.len(), |i: int| 0u64));
            lemma_sum_constant(w.len(), 0);
            assert(w.len() == 0 || !f.uniform);
            if w.len() == 0 {
                assert(aw.len() == 0);
                assert(sum(aw) == 0);
            }
            assert(r.slices@[k]@ == aw);
            assert(r.totals@[k] == 0);
        }
    }
}

/// Normalizing is idempotent: normalizing the slices of a table `t` built from `w` again
/// (into `r`) gives the same slices, each a distribution summing to its total or zero.
pub proof fn lemma_normalize_idempotent(
    w: Seq<Seq<u64>>,
    t: CategoricalTable,
    r: CategoricalTable,
)
    requires
        t.built_from(w, t.uniform),
        r.built_from(views(t.slices@), t.uniform),
    ensures
        r.nb_slices() == t.nb_slices(),
        forall|k: int| 0 <= k < t.nb_slices() ==> (#[trigger] r.slices@[k])@ == t.slices@[k]@,
{
    assert forall|k: int| 0 <= k < t.nb_slices() implies (#[trigger] r.slices@[k])@ == t.slices@[k]@ by {
        let s = t.slices@[k]@;
        assert(views(t.slices@)[k] == s);
        assert(s == normalized(w[k], t.uniform));
        if sum(w[k]) == 0 && t.uniform {
            lemma_sum_constant(w[k].len(), 1);
            assert(s =~= Seq::new(w[k].len(), |i: int| 1u64));
            if s.len() == 0 {
                assert(Seq::new(s.len(), |i: int| 1u64) =~= s);
            }
        }
        assert(normalized(s, t.uniform) == s);
    }
}

/// Cleanup with no expected count added gives the same table again: a fresh table `t` and
/// the result `c` of its cleanup clean up to the same slices.
pub proof fn lemma_cleanup_idempotent(
    t: CategoricalTable,
    c: CategoricalTable,
    cc: CategoricalTable,
)
    requires
        t.wf(),
        t.is_fresh(),
        c.built_from(views(t.dirty@), t.uniform),
        cc.built_from(views(c.dirty@), c.uniform),
    ensures
        cc.nb_slices() == c.nb_slices(),
        forall|k: int|
            0 <= k < c.nb_slices() ==> #[trigger] cc.slices@[k]@ == c.slices@[k]@ && cc.totals@[k]
                == c.totals@[k],
{
    assert forall|k: int| 0 <= k < c.nb_slices() implies #[trigger] cc.slices@[k]@ == c.slices@[k]@
        && cc.totals@[k] == c.totals@[k] by {
        assert(is_distribution(t.slices@[k]@, t.totals@[k] as int));
        assert(views(t.dirty@)[k] == t.dirty@[k]@);
        assert(views(c.dirty@)[k] == c.dirty@[k]@);
        assert(c.slices@[k]@ == normalized(t.dirty@[k]@, t.uniform));
        assert(is_distribution(c.slices@[k]@, c.totals@[k] as int));
        assert(c.dirty@[k]@.len() == t.dirty@[k]@.len());
        assert forall|i: int| 0 <= i < t.dirty@[k]@.len() implies t.dirty@[k]@[i] == c.dirty@[k]@[i] by {
            assert(t.dirty@[k]@[i] == 0);
            assert(c.dirty@[k]@[i] == 0);
        }
        assert(t.dirty@[k]@ =~= c.dirty@[k]@);
        assert(cc.slices@[k]@ == normalized(c.dirty@[k]@, c.uniform));
        assert(is_distribution(cc.slices@[k]@, cc.totals@[k] as int));
    }
}

} // verus!
