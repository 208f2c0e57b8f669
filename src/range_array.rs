use vstd::prelude::*;

verus! {

/// The value that an entry list gives key `k`: the last entry of `entries` with that key,
/// or `fill` when none has it.
pub open spec fn last_value<K, T>(entries: Seq<(K, T)>, k: K, fill: T) -> T
    decreases entries.len(),
{
    if entries.len() == 0 {
        fill
    } else if entries.last().0 == k {
        entries.last().1
    } else {
        last_value(entries.drop_last(), k, fill)
    }
}

/// A dense array indexed by the integers of `[min, max)`.
#[derive(Clone, Debug)]
pub struct RangeArray1<T> {
    min: i64,
    max: i64,
    array: Vec<T>,
}

impl<T: Copy> RangeArray1<T> {
    /// First index (inclusive).
    pub closed spec fn lo(&self) -> int {
        self.min as int
    }

    /// Last index (exclusive).
    pub closed spec fn hi(&self) -> int {
        self.max as int
    }

    /// The flat storage; index `i` is stored at `i - lo()`.
    pub closed spec fn buffer(&self) -> Seq<T> {
        self.array@
    }

    pub closed spec fn wf(&self) -> bool {
        &&& self.min <= self.max
        &&& self.array@.len() == self.max - self.min
        &&& self.max - self.min <= usize::MAX
    }

    /// The value at index `i`.
    pub open spec fn at(&self, i: int) -> T {
        self.buffer()[i - self.lo()]
    }

    pub open spec fn contains(&self, i: int) -> bool {
        self.lo() <= i < self.hi()
    }

    /// An array over `[min, max)` holding `fill` everywhere.
    pub fn constant(min: i64, max: i64, fill: T) -> (r: Self)
        requires
            min <= max,
            max - min <= usize::MAX,
        ensures
            r.wf(),
            r.lo() == min,
            r.hi() == max,
            forall|i: int| r.contains(i) ==> #[trigger] r.at(i) == fill,
    {
        let n = (max as i128 - min as i128) as usize;
        let mut array: Vec<T> = Vec::with_capacity(n);
        let mut k: usize = 0;
        while k < n
            invariant
                k <= n,
                array@.len() == k,
                forall|j: int| 0 <= j < k ==> #[trigger] array@[j] == fill,
            decreases n - k,
        {
            array.push(fill);
            k = k + 1;
        }
        RangeArray1 { min, max, array }
    }

    /// An array over the smallest range holding every key of `entries`, each index holding
    /// the value of the last entry with that key, and `fill` where no entry has it.
    pub fn new(entries: &Vec<(i64, T)>, fill: T) -> (r: Self)
        requires
            forall|j: int| 0 <= j < entries@.len() ==> #[trigger] entries@[j].0 < i64::MAX,
            forall|j: int, k: int|
                0 <= j < entries@.len() && 0 <= k < entries@.len() ==> #[trigger] entries@[j].0
                    - #[trigger] entries@[k].0 < usize::MAX,
        ensures
            r.wf(),
            entries@.len() == 0 ==> r.lo() == 0 && r.hi() == 0,
            forall|j: int| 0 <= j < entries@.len() ==> r.contains(#[trigger] entries@[j].0 as int),
            entries@.len() > 0 ==> exists|j: int| 0 <= j < entries@.len() && #[trigger] entries@[j].0 == r.lo(),
            entries@.len() > 0 ==> exists|j: int| 0 <= j < entries@.len() && #[trigger] entries@[j].0 == r.hi() - 1,
            forall|i: int| r.contains(i) ==> #[trigger] r.at(i) == last_value(entries@, i as i64, fill),
    {
        if entries.len() == 0 {
            return RangeArray1 { min: 0, max: 0, array: Vec::new() };
        }
        let mut lo: i64 = entries[0].0;
        let mut hi: i64 = entries[0].0;
        let ghost mut jlo: int = 0;
        let ghost mut jhi: int = 0;
        let mut k: usize = 1;
        while k < entries.len()
            invariant
                1 <= k <= entries@.len(),
                lo <= hi < i64::MAX,
                forall|j: int| 0 <= j < entries@.len() ==> #[trigger] entries@[j].0 < i64::MAX,
                0 <= jlo < k && entries@[jlo].0 == lo,
                0 <= jhi < k && entries@[jhi].0 == hi,
                forall|j: int| 0 <= j < k ==> lo <= #[trigger] entries@[j].0 <= hi,
            decreases entries@.len() - k,
        {
            if entries[k].0 < lo {
                lo = entries[k].0;
                proof { jlo = k as int; }
            }
            if entries[k].0 > hi {
                hi = entries[k].0;
                proof { jhi = k as int; }
            }
            k = k + 1;
        }
        assert(entries@[jhi].0 - entries@[jlo].0 < usize::MAX);
        let mut r = Self::constant(lo, hi + 1, fill);
        let mut k: usize = 0;
        while k < entries.len()
            invariant
                k <= entries@.len(),
                r.wf(),
                r.lo() == lo,
                r.hi() == hi + 1,
                forall|j: int| 0 <= j < entries@.len() ==> lo <= #[trigger] entries@[j].0 <= hi,
                forall|i: int| r.contains(i) ==> #[trigger] r.at(i) == last_value(
                    entries@.subrange(0, k as int),
                    i as i64,
                    fill,
                ),
            decreases entries@.len() - k,
        {
            let (key, value) = entries[k];
            let ghost before = r;
            r.set(key, value);
            k = k + 1;
            assert forall|i: int| r.contains(i) implies #[trigger] r.at(i) == last_value(
                entries@.subrange(0, k as int),
                i as i64,
                fill,
            ) by {
                assert(entries@.subrange(0, k as int).drop_last() =~= entries@.subrange(0, k - 1));
                if i != key {
                    assert(before.at(i) == r.at(i));
                }
            }
        }
        assert(entries@.subrange(0, entries@.len() as int) =~= entries@);
        assert(entries@[jlo].0 == r.lo());
        assert(entries@[jhi].0 == r.hi() - 1);
        r
    }

    /// An array over the same range as `self`, holding `fill` everywhere.
    pub fn filled_like(&self, fill: T) -> (r: Self)
        requires
            self.wf(),
        ensures
            r.wf(),
            r.lo() == self.lo(),
            r.hi() == self.hi(),
            forall|i: int| r.contains(i) ==> #[trigger] r.at(i) == fill,
    {
        Self::constant(self.min, self.max, fill)
    }

    /// `(min, max)`: the indices are `min..max`.
    pub fn dim(&self) -> (r: (i64, i64))
        ensures
            r.0 == self.lo(),
            r.1 == self.hi(),
    {
        (self.min, self.max)
    }

    pub fn min(&self) -> (r: i64)
        ensures
            r == self.lo(),
    {
        self.min
    }

    pub fn max(&self) -> (r: i64)
        ensures
            r == self.hi(),
    {
        self.max
    }

    /// The value at index `i`, stored at position `i - min` of the buffer.
    pub fn get(&self, i: i64) -> (r: T)
        requires
            self.wf(),
            self.contains(i as int),
        ensures
            r == self.buffer()[i - self.lo()],
    {
        self.array[(i as i128 - self.min as i128) as usize]
    }

    /// Replaces the value at index `i`.
    pub fn set(&mut self, i: i64, value: T)
        requires
            old(self).wf(),
            old(self).contains(i as int),
        ensures
            final(self).wf(),
            final(self).lo() == old(self).lo(),
            final(self).hi() == old(self).hi(),
            final(self).at(i as int) == value,
            forall|k: int|
                final(self).contains(k) && k != i ==> #[trigger] final(self).at(k) == old(self).at(k),
    {
        let pos = (i as i128 - self.min as i128) as usize;
        self.array.set(pos, value);
    }
}

/// Row-major positions of a `h` by `w` rectangle are in bounds.
proof fn lemma_row_major_in_bounds(a: int, b: int, h: int, w: int)
    requires
        0 <= a < h,
        0 <= b < w,
    ensures
        0 <= a * w + b < h * w,
{
    assert(0 <= a * w + b < h * w) by (nonlinear_arith)
        requires
            0 <= a < h,
            0 <= b < w,
    ;
}

/// Row-major positions are distinct for distinct cells.
proof fn lemma_row_major_injective(a: int, b: int, c: int, d: int, w: int)
    requires
        0 <= a,
        0 <= c,
        0 <= b < w,
        0 <= d < w,
        a * w + b == c * w + d,
    ensures
        a == c,
        b == d,
{
    if a < c {
        assert(a * w + b < c * w + d) by (nonlinear_arith)
            requires
                a < c,
                0 <= b < w,
                0 <= d,
        ;
    } else if c < a {
        assert(c * w + d < a * w + b) by (nonlinear_arith)
            requires
                c < a,
                0 <= d < w,
                0 <= b,
        ;
    }
}

/// The smallest rectangle that holds every key of `entries` has at most `usize::MAX` cells.
#[verifier::opaque]
pub open spec fn box_fits<T>(entries: Seq<((i64, i64), T)>) -> bool {
    forall|j: int, k: int, l: int, m: int|
        0 <= j < entries.len() && 0 <= k < entries.len() && 0 <= l < entries.len() && 0 <= m
            < entries.len() ==> (#[trigger] entries[j].0.0 - #[trigger] entries[k].0.0 + 1) * (
        #[trigger] entries[l].0.1 - #[trigger] entries[m].0.1 + 1) <= usize::MAX
}

/// A dense array indexed by the integer pairs of `[min.0, max.0) x [min.1, max.1)`.
#[derive(Clone, Debug)]
pub struct RangeArray2<T> {
    min0: i64,
    min1: i64,
    max0: i64,
    max1: i64,
    array: Vec<T>,
}

impl<T: Copy> RangeArray2<T> {
    pub closed spec fn lo(&self) -> (int, int) {
        (self.min0 as int, self.min1 as int)
    }

    pub closed spec fn hi(&self) -> (int, int) {
        (self.max0 as int, self.max1 as int)
    }

    /// The flat row-major storage.
    pub closed spec fn buffer(&self) -> Seq<T> {
        self.array@
    }

    pub closed spec fn wf(&self) -> bool {
        &&& self.min0 <= self.max0
        &&& self.min1 <= self.max1
        &&& self.array@.len() == (self.max0 - self.min0) * (self.max1 - self.min1)
        &&& self.array@.len() <= usize::MAX
    }

    pub open spec fn width(&self) -> int {
        self.hi().1 - self.lo().1
    }

    pub open spec fn contains(&self, i: (int, int)) -> bool {
        self.lo().0 <= i.0 < self.hi().0 && self.lo().1 <= i.1 < self.hi().1
    }

    /// The value at `i`.
    pub open spec fn at(&self, i: (int, int)) -> T {
        self.buffer()[(i.0 - self.lo().0) * self.width() + (i.1 - self.lo().1)]
    }

    /// An array over the rectangle `[min, max)` holding `fill` everywhere.
    pub fn constant(min: (i64, i64), max: (i64, i64), fill: T) -> (r: Self)
        requires
            min.0 <= max.0,
            min.1 <= max.1,
            (max.0 - min.0) * (max.1 - min.1) <= usize::MAX,
        ensures
            r.wf(),
            r.lo() == (min.0 as int, min.1 as int),
            r.hi() == (max.0 as int, max.1 as int),
            forall|i: (int, int)| r.contains(i) ==> #[trigger] r.at(i) == fill,
    {
        let h = (max.0 as i128 - min.0 as i128) as u128;
        let w = (max.1 as i128 - min.1 as i128) as u128;
        assert(h * w <= usize::MAX);
        let n = (h * w) as usize;
        let mut array: Vec<T> = Vec::with_capacity(n);
        let mut k: usize = 0;
        while k < n
            invariant
                k <= n,
                array@.len() == k,
                forall|j: int| 0 <= j < k ==> #[trigger] array@[j] == fill,
            decreases n - k,
        {
            array.push(fill);
            k = k + 1;
        }
        let r = RangeArray2 { min0: min.0, min1: min.1, max0: max.0, max1: max.1, array };
        assert forall|i: (int, int)| r.contains(i) implies #[trigger] r.at(i) == fill by {
            lemma_row_major_in_bounds(i.0 - min.0, i.1 - min.1, h as int, w as int);
        }
        r
    }

    /// An array over the smallest rectangle holding every key of `entries`, each cell holding
    /// the value of the last entry with that key, and `fill` where no entry has it.
    pub fn new(entries: &Vec<((i64, i64), T)>, fill: T) -> (r: Self)
        requires
            forall|j: int|
                0 <= j < entries@.len() ==> #[trigger] entries@[j].0.0 < i64::MAX
                    && entries@[j].0.1 < i64::MAX,
            box_fits(entries@),
        ensures
            r.wf(),
            entries@.len() == 0 ==> r.lo() == (0int, 0int) && r.hi() == (0int, 0int),
            forall|j: int|
                0 <= j < entries@.len() ==> r.contains(
                    (#[trigger] entries@[j].0.0 as int, entries@[j].0.1 as int),
                ),
            forall|i: (int, int)| r.contains(i) ==> #[trigger] r.at(i) == last_value(
                entries@,
                (i.0 as i64, i.1 as i64),
                fill,
            ),
    {
        if entries.len() == 0 {
            return RangeArray2 { min0: 0, min1: 0, max0: 0, max1: 0, array: Vec::new() };
        }
        let mut lo0: i64 = entries[0].0.0;
        let mut hi0: i64 = entries[0].0.0;
        let mut lo1: i64 = entries[0].0.1;
        let mut hi1: i64 = entries[0].0.1;
        let ghost mut jlo0: int = 0;
        let ghost mut jhi0: int = 0;
        let ghost mut jlo1: int = 0;
        let ghost mut jhi1: int = 0;
        let mut k: usize = 1;
        while k < entries.len()
            invariant
                1 <= k <= entries@.len(),
                lo0 <= hi0 < i64::MAX,
                lo1 <= hi1 < i64::MAX,
                forall|j: int|
                    0 <= j < entries@.len() ==> #[trigger] entries@[j].0.0 < i64::MAX
                        && entries@[j].0.1 < i64::MAX,
                0 <= jlo0 < k && entries@[jlo0].0.0 == lo0,
                0 <= jhi0 < k && entries@[jhi0].0.0 == hi0,
                0 <= jlo1 < k && entries@[jlo1].0.1 == lo1,
                0 <= jhi1 < k && entries@[jhi1].0.1 == hi1,
                forall|j: int|
                    0 <= j < k ==> lo0 <= #[trigger] entries@[j].0.0 <= hi0 && lo1
                        <= entries@[j].0.1 <= hi1,
            decreases entries@.len() - k,
        {
            let key = entries[k].0;
            if key.0 < lo0 {
                lo0 = key.0;
                proof { jlo0 = k as int; }
            }
            if key.0 > hi0 {
                hi0 = key.0;
                proof { jhi0 = k as int; }
            }
            if key.1 < lo1 {
                lo1 = key.1;
                proof { jlo1 = k as int; }
            }
            if key.1 > hi1 {
                hi1 = key.1;
                proof { jhi1 = k as int; }
            }
            k = k + 1;
        }
        assert((entries@[jhi0].0.0 - entries@[jlo0].0.0 + 1) * (entries@[jhi1].0.1
            - entries@[jlo1].0.1 + 1) <= usize::MAX) by {
            reveal(box_fits);
        }
        let mut r = Self::constant((lo0, lo1), (hi0 + 1, hi1 + 1), fill);
        let mut k: usize = 0;
        while k < entries.len()
            invariant
                k <= entries@.len(),
                r.wf(),
                r.lo() == (lo0 as int, lo1 as int),
                r.hi() == (hi0 + 1, hi1 + 1),
                forall|j: int|
                    0 <= j < entries@.len() ==> lo0 <= #[trigger] entries@[j].0.0 <= hi0 && lo1
                        <= entries@[j].0.1 <= hi1,
                forall|i: (int, int)| r.contains(i) ==> #[trigger] r.at(i) == last_value(
                    entries@.subrange(0, k as int),
                    (i.0 as i64, i.1 as i64),
                    fill,
                ),
            decreases entries@.len() - k,
        {
            let (key, value) = entries[k];
            let ghost before = r;
            r.set(key, value);
            k = k + 1;
            assert forall|i: (int, int)| r.contains(i) implies #[trigger] r.at(i) == last_value(
                entries@.subrange(0, k as int),
                (i.0 as i64, i.1 as i64),
                fill,
            ) by {
                assert(entries@.subrange(0, k as int).drop_last() =~= entries@.subrange(0, k - 1));
                if i != (key.0 as int, key.1 as int) {
                    assert(before.at(i) == r.at(i));
                }
            }
        }
        assert(entries@.subrange(0, entries@.len() as int) =~= entries@);
        r
    }

    /// `(min, max)`: the rectangle `[min.0, max.0) x [min.1, max.1)`.
    pub fn dim(&self) -> (r: ((i64, i64), (i64, i64)))
        ensures
            r.0.0 == self.lo().0,
            r.0.1 == self.lo().1,
            r.1.0 == self.hi().0,
            r.1.1 == self.hi().1,
    {
        ((self.min0, self.min1), (self.max0, self.max1))
    }

    fn position(&self, i: (i64, i64)) -> (r: usize)
        requires
            self.wf(),
            self.contains((i.0 as int, i.1 as int)),
        ensures
            r == (i.0 - self.lo().0) * self.width() + (i.1 - self.lo().1),
            r < self.buffer().len(),
    {
        let a = (i.0 as i128 - self.min0 as i128) as u128;
        let b = (i.1 as i128 - self.min1 as i128) as u128;
        let h = (self.max0 as i128 - self.min0 as i128) as u128;
        let w = (self.max1 as i128 - self.min1 as i128) as u128;
        proof {
            lemma_row_major_in_bounds(a as int, b as int, h as int, w as int);
        }
        (a * w + b) as usize
    }

    /// The value at `i`.
    pub fn get(&self, i: (i64, i64)) -> (r: T)
        requires
            self.wf(),
            self.contains((i.0 as int, i.1 as int)),
        ensures
            r == self.at((i.0 as int, i.1 as int)),
    {
        let p = self.position(i);
        self.array[p]
    }

    /// Replaces the value at `i`.
    pub fn set(&mut self, i: (i64, i64), value: T)
        requires
            old(self).wf(),
            old(self).contains((i.0 as int, i.1 as int)),
        ensures
            final(self).wf(),
            final(self).lo() == old(self).lo(),
            final(self).hi() == old(self).hi(),
            final(self).at((i.0 as int, i.1 as int)) == value,
            forall|k: (int, int)|
                final(self).contains(k) && k != (i.0 as int, i.1 as int)
                    ==> #[trigger] final(self).at(k) == old(self).at(k),
    {
        let p = self.position(i);
        let ghost before = *self;
        self.array.set(p, value);
        assert forall|k: (int, int)|
            self.contains(k) && k != (i.0 as int, i.1 as int) implies #[trigger] self.at(k)
            == before.at(k) by {
            let w = self.width();
            lemma_row_major_in_bounds(k.0 - self.lo().0, k.1 - self.lo().1, self.hi().0 - self.lo().0, w);
            if (k.0 - self.lo().0) * w + (k.1 - self.lo().1) == p as int {
                lemma_row_major_injective(k.0 - self.lo().0, k.1 - self.lo().1, i.0 - self.lo().0, i.1 - self.lo().1, w);
            }
        }
    }
}

} // verus!
