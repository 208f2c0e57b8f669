use vstd::prelude::*;

use crate::range_array::RangeArray1;

verus! {

/// Smallest `start` and largest `end` over a nonempty list of `(start, end)` spans.
pub open spec fn is_span_hull(spans: Seq<(i64, i64)>, lo: i64, hi: i64) -> bool {
    &&& forall|k: int| 0 <= k < spans.len() ==> lo <= #[trigger] spans[k].0 && spans[k].1 <= hi
    &&& exists|k: int| 0 <= k < spans.len() && #[trigger] spans[k].0 == lo
    &&& exists|k: int| 0 <= k < spans.len() && #[trigger] spans[k].1 == hi
}

/// The range of D starts that a D-J aggregation covers: the smallest 5' start and the
/// largest 5' end over the candidate D spans.
pub fn d_start_bounds(spans: &Vec<(i64, i64)>) -> (r: (i64, i64))
    requires
        spans@.len() > 0,
    ensures
        is_span_hull(spans@, r.0, r.1),
{
    let mut lo: i64 = spans[0].0;
    let mut hi: i64 = spans[0].1;
    let ghost mut klo: int = 0;
    let ghost mut khi: int = 0;
    let mut k: usize = 1;
    while k < spans.len()
        invariant
            1 <= k <= spans@.len(),
            0 <= klo < k && spans@[klo].0 == lo,
            0 <= khi < k && spans@[khi].1 == hi,
            forall|j: int| 0 <= j < k ==> lo <= #[trigger] spans@[j].0 && spans@[j].1 <= hi,
        decreases spans@.len() - k,
    {
        if spans[k].0 < lo {
            lo = spans[k].0;
            proof { klo = k as int; }
        }
        if spans[k].1 > hi {
            hi = spans[k].1;
            proof { khi = k as int; }
        }
        k = k + 1;
    }
    assert(spans@[klo].0 == lo);
    assert(spans@[khi].1 == hi);
    (lo, hi)
}

/// The J side of a read: the likelihood of each J 5' start (after deletion) in
/// `[start_j5, end_j5)` for one J alignment, and the expected mass pushed back onto it.
#[derive(Debug)]
pub struct AggregatedFeatureStartJ<L> {
    /// Index of the J gene.
    pub index: usize,
    /// Start of the J alignment in the read.
    pub start_seq: i64,
    likelihood: RangeArray1<L>,
    dirty_likelihood: RangeArray1<L>,
}

impl<L: Copy> AggregatedFeatureStartJ<L> {
    pub closed spec fn wf(&self) -> bool {
        &&& self.likelihood.wf()
        &&& self.dirty_likelihood.wf()
        &&& self.dirty_likelihood.lo() == self.likelihood.lo()
        &&& self.dirty_likelihood.hi() == self.likelihood.hi()
    }

    /// Index of the J gene.
    pub closed spec fn gene_index(&self) -> usize {
        self.index
    }

    /// Start of the J alignment in the read.
    pub closed spec fn alignment_start(&self) -> i64 {
        self.start_seq
    }

    /// First J start covered.
    pub closed spec fn lo(&self) -> int {
        self.likelihood.lo()
    }

    /// Bound (exclusive) of the J starts covered.
    pub closed spec fn hi(&self) -> int {
        self.likelihood.hi()
    }

    /// Likelihood of J start `j`.
    pub closed spec fn likelihood_at(&self, j: int) -> L {
        self.likelihood.at(j)
    }

    /// Mass pushed back onto J start `j`.
    pub closed spec fn dirty_at(&self, j: int) -> L {
        self.dirty_likelihood.at(j)
    }

    /// A J aggregation over the J starts of `likelihood`, with every dirty mass `zero`.
    pub fn new(index: usize, start_seq: i64, likelihood: RangeArray1<L>, zero: L) -> (r: Self)
        requires
            likelihood.wf(),
        ensures
            r.wf(),
            r.gene_index() == index,
            r.alignment_start() == start_seq,
            r.lo() == likelihood.lo(),
            r.hi() == likelihood.hi(),
            forall|j: int| r.lo() <= j < r.hi() ==> #[trigger] r.likelihood_at(j) == likelihood.at(j),
            forall|j: int| r.lo() <= j < r.hi() ==> #[trigger] r.dirty_at(j) == zero,
    {
        let dirty_likelihood = likelihood.filled_like(zero);
        AggregatedFeatureStartJ { index, start_seq, likelihood, dirty_likelihood }
    }

    /// Index of the J gene.
    pub fn index(&self) -> (r: usize)
        ensures
            r == self.gene_index(),
    {
        self.index
    }

    /// Start of the J alignment in the read.
    pub fn start_seq(&self) -> (r: i64)
        ensures
            r == self.alignment_start(),
    {
        self.start_seq
    }

    /// First J start covered.
    pub fn start_j5(&self) -> (r: i64)
        ensures
            r == self.lo(),
    {
        self.likelihood.min()
    }

    /// Bound (exclusive) of the J starts covered.
    pub fn end_j5(&self) -> (r: i64)
        ensures
            r == self.hi(),
    {
        self.likelihood.max()
    }

    /// Likelihood of J start `j_start`.
    pub fn likelihood(&self, j_start: i64) -> (r: L)
        requires
            self.wf(),
            self.lo() <= j_start < self.hi(),
        ensures
            r == self.likelihood_at(j_start as int),
    {
        self.likelihood.get(j_start)
    }

    /// Mass pushed back onto J start `j_start` so far.
    pub fn dirty(&self, j_start: i64) -> (r: L)
        requires
            self.wf(),
            self.lo() <= j_start < self.hi(),
        ensures
            r == self.dirty_at(j_start as int),
    {
        self.dirty_likelihood.get(j_start)
    }

    /// Replaces the mass pushed back onto J start `j_start`.
    pub fn set_dirty(&mut self, j_start: i64, mass: L)
        requires
            old(self).wf(),
            old(self).lo() <= j_start < old(self).hi(),
        ensures
            final(self).wf(),
            final(self).gene_index() == old(self).gene_index(),
            final(self).alignment_start() == old(self).alignment_start(),
            final(self).lo() == old(self).lo(),
            final(self).hi() == old(self).hi(),
            forall|j: int| #[trigger] final(self).likelihood_at(j) == old(self).likelihood_at(j),
            final(self).dirty_at(j_start as int) == mass,
            forall|j: int|
                old(self).lo() <= j < old(self).hi() && j != j_start ==> #[trigger] final(self).dirty_at(j) == old(self).dirty_at(j),
    {
        self.dirty_likelihood.set(j_start, mass);
    }
}

/// The likelihood of each D 5' start in `[start_d5, end_d5)`, with the J gene and the
/// DJ insertion summed out, for one J alignment; and the expected mass pushed back onto
/// each D start.
#[derive(Debug)]
pub struct AggregatedFeatureStartDAndJ<L> {
    pub start_d5: i64,
    pub end_d5: i64,
    likelihood: RangeArray1<L>,
    dirty_likelihood: RangeArray1<L>,
    feature_j: AggregatedFeatureStartJ<L>,
}

impl<L: Copy> AggregatedFeatureStartDAndJ<L> {
    pub closed spec fn wf(&self) -> bool {
        &&& self.likelihood.wf()
        &&& self.dirty_likelihood.wf()
        &&& self.feature_j.wf()
        &&& self.likelihood.lo() == self.start_d5
        &&& self.likelihood.hi() == self.end_d5
        &&& self.dirty_likelihood.lo() == self.start_d5
        &&& self.dirty_likelihood.hi() == self.end_d5
    }

    /// First D start covered.
    pub closed spec fn lo(&self) -> int {
        self.start_d5 as int
    }

    /// Bound (exclusive) of the D starts covered.
    pub closed spec fn hi(&self) -> int {
        self.end_d5 as int
    }

    /// Likelihood of D start `d`.
    pub closed spec fn likelihood_at(&self, d: int) -> L {
        self.likelihood.at(d)
    }

    /// Mass pushed back onto D start `d`.
    pub closed spec fn dirty_at(&self, d: int) -> L {
        self.dirty_likelihood.at(d)
    }

    /// The J aggregation this one was built on.
    pub closed spec fn j_feature(&self) -> AggregatedFeatureStartJ<L> {
        self.feature_j
    }

    /// A D-J aggregation over the D starts of `likelihood`, every dirty mass `zero`.
    pub fn new(likelihood: RangeArray1<L>, feature_j: AggregatedFeatureStartJ<L>, zero: L) -> (r: Self)
        requires
            likelihood.wf(),
            feature_j.wf(),
        ensures
            r.wf(),
            r.lo() == likelihood.lo(),
            r.hi() == likelihood.hi(),
            r.j_feature() == feature_j,
            forall|d: int| r.lo() <= d < r.hi() ==> #[trigger] r.likelihood_at(d) == likelihood.at(d),
            forall|d: int| r.lo() <= d < r.hi() ==> #[trigger] r.dirty_at(d) == zero,
    {
        let (start_d5, end_d5) = likelihood.dim();
        let dirty_likelihood = likelihood.filled_like(zero);
        AggregatedFeatureStartDAndJ { start_d5, end_d5, likelihood, dirty_likelihood, feature_j }
    }

    /// First D start covered.
    pub fn start_d5(&self) -> (r: i64)
        ensures
            r == self.lo(),
    {
        self.start_d5
    }

    /// Bound (exclusive) of the D starts covered.
    pub fn end_d5(&self) -> (r: i64)
        ensures
            r == self.hi(),
    {
        self.end_d5
    }

    /// Start of the J alignment in the read.
    pub fn j_start_seq(&self) -> (r: i64)
        ensures
            r == self.j_feature().alignment_start(),
    {
        self.feature_j.start_seq
    }

    /// Index of the J gene.
    pub fn j_index(&self) -> (r: usize)
        ensures
            r == self.j_feature().gene_index(),
    {
        self.feature_j.index
    }

    /// Likelihood of D start `sd`.
    pub fn likelihood(&self, sd: i64) -> (r: L)
        requires
            self.wf(),
            self.lo() <= sd < self.hi(),
        ensures
            r == self.likelihood_at(sd as int),
    {
        self.likelihood.get(sd)
    }

    /// Mass pushed back onto D start `sd` so far.
    pub fn dirty(&self, sd: i64) -> (r: L)
        requires
            self.wf(),
            self.lo() <= sd < self.hi(),
        ensures
            r == self.dirty_at(sd as int),
    {
        self.dirty_likelihood.get(sd)
    }

    /// Replaces the mass pushed back onto D start `sd`.
    pub fn set_dirty(&mut self, sd: i64, mass: L)
        requires
            old(self).wf(),
            old(self).lo() <= sd < old(self).hi(),
        ensures
            final(self).wf(),
            final(self).lo() == old(self).lo(),
            final(self).hi() == old(self).hi(),
            final(self).j_feature() == old(self).j_feature(),
            forall|d: int| #[trigger] final(self).likelihood_at(d) == old(self).likelihood_at(d),
            final(self).dirty_at(sd as int) == mass,
            forall|d: int|
                old(self).lo() <= d < old(self).hi() && d != sd ==> #[trigger] final(self).dirty_at(d) == old(self).dirty_at(d),
    {
        self.dirty_likelihood.set(sd, mass);
    }

    /// The J aggregation, to read from.
    pub fn feature_j(&self) -> (r: &AggregatedFeatureStartJ<L>)
        ensures
            *r == self.j_feature(),
    {
        &self.feature_j
    }
}

} // verus!
