use vstd::prelude::*;

verus! {

/// ASCII code of `A`.
pub const NUC_A: u8 = 65;
/// ASCII code of `C`.
pub const NUC_C: u8 = 67;
/// ASCII code of `G`.
pub const NUC_G: u8 = 71;
/// ASCII code of `T`.
pub const NUC_T: u8 = 84;
/// ASCII code of `N`, an undetermined nucleotide.
pub const NUC_N: u8 = 78;

/// The nucleotide of index `i` in `A, C, G, T` order.
pub open spec fn nucleotide_of(i: int) -> u8 {
    if i == 0 {
        NUC_A
    } else if i == 1 {
        NUC_C
    } else if i == 2 {
        NUC_G
    } else {
        NUC_T
    }
}

/// Watson-Crick complement; anything outside `A, C, G, T` reads as `N`.
pub open spec fn complement_of(n: u8) -> u8 {
    if n == NUC_A {
        NUC_T
    } else if n == NUC_T {
        NUC_A
    } else if n == NUC_C {
        NUC_G
    } else if n == NUC_G {
        NUC_C
    } else {
        NUC_N
    }
}

/// The reverse complement of a nucleotide string.
pub open spec fn reverse_complement_of(s: Seq<u8>) -> Seq<u8> {
    Seq::new(s.len(), |i: int| complement_of(s[s.len() - 1 - i]))
}

/// Index of a nucleotide in `A, C, G, T` order.
pub open spec fn index_of_nucleotide(n: u8) -> int {
    if n == NUC_A {
        0
    } else if n == NUC_C {
        1
    } else if n == NUC_G {
        2
    } else {
        3
    }
}

/// A nucleotide (`A, C, G, T`) from its index.
pub fn nucleotide(i: usize) -> (r: u8)
    requires
        i < 4,
    ensures
        r == nucleotide_of(i as int),
{
    if i == 0 {
        NUC_A
    } else if i == 1 {
        NUC_C
    } else if i == 2 {
        NUC_G
    } else {
        NUC_T
    }
}

/// The index (`A, C, G, T` order) of a nucleotide.
pub fn nucleotides_inv(n: u8) -> (r: usize)
    requires
        n == NUC_A || n == NUC_C || n == NUC_G || n == NUC_T,
    ensures
        r as int == index_of_nucleotide(n),
        r < 4,
        nucleotide_of(r as int) == n,
{
    if n == NUC_A {
        0
    } else if n == NUC_C {
        1
    } else if n == NUC_G {
        2
    } else {
        3
    }
}

/// Watson-Crick complement of one nucleotide.
pub fn complement(n: u8) -> (r: u8)
    ensures
        r == complement_of(n),
{
    if n == NUC_A {
        NUC_T
    } else if n == NUC_T {
        NUC_A
    } else if n == NUC_C {
        NUC_G
    } else if n == NUC_G {
        NUC_C
    } else {
        NUC_N
    }
}

/// A nucleotide string.
#[derive(Clone, Debug, Default)]
pub struct Dna {
    pub seq: Vec<u8>,
}

impl View for Dna {
    type V = Seq<u8>;

    open spec fn view(&self) -> Seq<u8> {
        self.seq@
    }
}

impl Dna {
    pub fn from_bytes(seq: Vec<u8>) -> (r: Dna)
        ensures
            r@ == seq@,
    {
        Dna { seq }
    }

    pub fn len(&self) -> (r: usize)
        ensures
            r == self@.len(),
    {
        self.seq.len()
    }

    /// The nucleotides in `[start, end)`.
    pub fn extract_subsequence(&self, start: usize, end: usize) -> (r: Dna)
        requires
            start <= end <= self@.len(),
        ensures
            r@ == self@.subrange(start as int, end as int),
    {
        let mut out: Vec<u8> = Vec::with_capacity(end - start);
        let mut i: usize = start;
        while i < end
            invariant
                start <= i <= end <= self.seq@.len(),
                out@ == self.seq@.subrange(start as int, i as int),
            decreases end - i,
        {
            out.push(self.seq[i]);
            i = i + 1;
        }
        Dna { seq: out }
    }

    /// The reverse complement of the string.
    pub fn reverse_complement(&self) -> (r: Dna)
        ensures
            r@ == reverse_complement_of(self@),
    {
        let n = self.seq.len();
        let mut out: Vec<u8> = Vec::with_capacity(n);
        let mut i: usize = 0;
        while i < n
            invariant
                i <= n == self.seq@.len(),
                out@.len() == i,
                forall|k: int| 0 <= k < i ==> #[trigger] out@[k] == complement_of(self.seq@[n - 1 - k]),
            decreases n - i,
        {
            out.push(complement(self.seq[n - 1 - i]));
            i = i + 1;
        }
        let r = Dna { seq: out };
        assert(r@ =~= reverse_complement_of(self@));
        r
    }

    /// The string read backwards.
    pub fn reverse(&mut self)
        ensures
            final(self)@ == old(self)@.reverse(),
    {
        let n = self.seq.len();
        let mut out: Vec<u8> = Vec::with_capacity(n);
        let mut i: usize = 0;
        while i < n
            invariant
                i <= n == self.seq@.len(),
                out@.len() == i,
                forall|k: int| 0 <= k < i ==> #[trigger] out@[k] == self.seq@[n - 1 - k],
            decreases n - i,
        {
            out.push(self.seq[n - 1 - i]);
            i = i + 1;
        }
        assert(out@ =~= self.seq@.reverse());
        self.seq = out;
    }

    /// Appends the nucleotides of `other`.
    pub fn extend(&mut self, other: &Dna)
        ensures
            final(self)@ == old(self)@ + other@,
    {
        let mut i: usize = 0;
        let ghost start = self.seq@;
        while i < other.seq.len()
            invariant
                i <= other.seq@.len(),
                self.seq@ == start + other.seq@.subrange(0, i as int),
            decreases other.seq@.len() - i,
        {
            self.seq.push(other.seq[i]);
            i = i + 1;
            assert(self.seq@ =~= start + other.seq@.subrange(0, i as int));
        }
        assert(other.seq@.subrange(0, other.seq@.len() as int) =~= other.seq@);
    }
}

/// `s` flanked by the reverse complements of its first `left` and last `right` nucleotides.
pub open spec fn with_palindromic_ends(s: Seq<u8>, left: int, right: int) -> Seq<u8> {
    reverse_complement_of(s.subrange(0, left)) + s + reverse_complement_of(
        s.subrange(s.len() - right, s.len() as int),
    )
}

/// A V, D or J gene template.
#[derive(Clone, Debug, Default)]
pub struct Gene {
    pub name: String,
    pub seq: Dna,
    /// The sequence extended by its palindromic ends (depends on the model).
    pub seq_with_pal: Option<Dna>,
    pub functional: String,
    /// Start (V gene) or end (J gene) of the CDR3.
    pub cdr3_pos: Option<usize>,
}

impl Gene {
    /// Stores in `seq_with_pal` the sequence flanked by the reverse complement of its
    /// first `lenleft` and of its last `lenright` nucleotides.
    pub fn create_palindromic_ends(&mut self, lenleft: usize, lenright: usize)
        requires
            lenleft <= old(self).seq@.len(),
            lenright <= old(self).seq@.len(),
        ensures
            final(self).seq_with_pal is Some,
            final(self).seq_with_pal->Some_0@ == with_palindromic_ends(
                old(self).seq@,
                lenleft as int,
                lenright as int,
            ),
            final(self).seq_with_pal->Some_0@.len() == old(self).seq@.len() + lenleft + lenright,
            final(self).name == old(self).name,
            final(self).seq == old(self).seq,
            final(self).functional == old(self).functional,
            final(self).cdr3_pos == old(self).cdr3_pos,
    {
        let n = self.seq.len();
        let mut seqpal = self.seq.extract_subsequence(0, lenleft).reverse_complement();
        seqpal.extend(&self.seq);
        let right = self.seq.extract_subsequence(n - lenright, n).reverse_complement();
        seqpal.extend(&right);
        self.seq_with_pal = Some(seqpal);
    }
}

} // verus!
