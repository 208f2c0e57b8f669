use vstd::prelude::*;

use crate::sequence::{Dna, NUC_A, NUC_C, NUC_G, NUC_T};

verus! {

/// One-letter amino-acid codes (ASCII) used by the translation.
pub const AA_A: u8 = 65;
pub const AA_C: u8 = 67;
pub const AA_D: u8 = 68;
pub const AA_E: u8 = 69;
pub const AA_F: u8 = 70;
pub const AA_G: u8 = 71;
pub const AA_H: u8 = 72;
pub const AA_I: u8 = 73;
pub const AA_K: u8 = 75;
pub const AA_L: u8 = 76;
pub const AA_M: u8 = 77;
pub const AA_N: u8 = 78;
pub const AA_P: u8 = 80;
pub const AA_Q: u8 = 81;
pub const AA_R: u8 = 82;
pub const AA_S: u8 = 83;
pub const AA_T: u8 = 84;
pub const AA_V: u8 = 86;
pub const AA_W: u8 = 87;
/// Unknown amino acid (a codon holding a base other than `A, C, G, T`).
pub const AA_X: u8 = 88;
pub const AA_Y: u8 = 89;
/// Stop codon.
pub const AA_STOP: u8 = 42;

pub open spec fn is_base(n: u8) -> bool {
    n == NUC_A || n == NUC_C || n == NUC_G || n == NUC_T
}

/// A pyrimidine (`C` or `T`) in third position.
pub open spec fn is_pyrimidine(n: u8) -> bool {
    n == NUC_C || n == NUC_T
}

/// The standard genetic code.
pub open spec fn amino_acid_of(a: u8, b: u8, c: u8) -> u8 {
    if !(is_base(a) && is_base(b) && is_base(c)) {
        AA_X
    } else if a == NUC_T {
        if b == NUC_T {
            if is_pyrimidine(c) { AA_F } else { AA_L }
        } else if b == NUC_C {
            AA_S
        } else if b == NUC_A {
            if is_pyrimidine(c) { AA_Y } else { AA_STOP }
        } else {
            if is_pyrimidine(c) { AA_C } else if c == NUC_A { AA_STOP } else { AA_W }
        }
    } else if a == NUC_C {
        if b == NUC_T {
            AA_L
        } else if b == NUC_C {
            AA_P
        } else if b == NUC_A {
            if is_pyrimidine(c) { AA_H } else { AA_Q }
        } else {
            AA_R
        }
    } else if a == NUC_A {
        if b == NUC_T {
            if c == NUC_G { AA_M } else { AA_I }
        } else if b == NUC_C {
            AA_T
        } else if b == NUC_A {
            if is_pyrimidine(c) { AA_N } else { AA_K }
        } else {
            if is_pyrimidine(c) { AA_S } else { AA_R }
        }
    } else {
        if b == NUC_T {
            AA_V
        } else if b == NUC_C {
            AA_A
        } else if b == NUC_A {
            if is_pyrimidine(c) { AA_D } else { AA_E }
        } else {
            AA_G
        }
    }
}

/// The amino-acid string of the codons of `s` (a trailing partial codon is dropped).
pub open spec fn translation_of(s: Seq<u8>) -> Seq<u8> {
    Seq::new(s.len() / 3, |k: int| amino_acid_of(s[3 * k], s[3 * k + 1], s[3 * k + 2]))
}

/// The amino acid that codon `(a, b, c)` encodes.
pub fn codon_to_amino_acid(a: u8, b: u8, c: u8) -> (r: u8)
    ensures
        r == amino_acid_of(a, b, c),
{
    let pyr = c == NUC_C || c == NUC_T;
    if !((a == NUC_A || a == NUC_C || a == NUC_G || a == NUC_T) && (b == NUC_A || b == NUC_C
        || b == NUC_G || b == NUC_T) && (c == NUC_A || c == NUC_C || c == NUC_G || c == NUC_T)) {
        AA_X
    } else if a == NUC_T {
        if b == NUC_T {
            if pyr { AA_F } else { AA_L }
        } else if b == NUC_C {
            AA_S
        } else if b == NUC_A {
            if pyr { AA_Y } else { AA_STOP }
        } else {
            if pyr { AA_C } else if c == NUC_A { AA_STOP } else { AA_W }
        }
    } else if a == NUC_C {
        if b == NUC_T {
            AA_L
        } else if b == NUC_C {
            AA_P
        } else if b == NUC_A {
            if pyr { AA_H } else { AA_Q }
        } else {
            AA_R
        }
    } else if a == NUC_A {
        if b == NUC_T {
            if c == NUC_G { AA_M } else { AA_I }
        } else if b == NUC_C {
            AA_T
        } else if b == NUC_A {
            if pyr { AA_N } else { AA_K }
        } else {
            if pyr { AA_S } else { AA_R }
        }
    } else {
        if b == NUC_T {
            AA_V
        } else if b == NUC_C {
            AA_A
        } else if b == NUC_A {
            if pyr { AA_D } else { AA_E }
        } else {
            AA_G
        }
    }
}

/// Translates the codons of `dna` into amino acids.
pub fn translate(dna: &Dna) -> (r: Vec<u8>)
    ensures
        r@ == translation_of(dna@),
{
    let len = dna.seq.len();
    let n = len / 3;
    let mut out: Vec<u8> = Vec::with_capacity(n);
    let mut k: usize = 0;
    while k < n
        invariant
            k <= n == dna@.len() / 3,
            len == dna@.len(),
            out@.len() == k,
            forall|i: int| 0 <= i < k ==> #[trigger] out@[i] == amino_acid_of(dna@[3 * i], dna@[3 * i + 1], dna@[3 * i + 2]),
        decreases n - k,
    {
        assert(3 * k + 2 < dna@.len()) by (nonlinear_arith)
            requires
                k < n,
                n == dna@.len() / 3,
        ;
        let i = 3 * k;
        let aa = codon_to_amino_acid(dna.seq[i], dna.seq[i + 1], dna.seq[i + 2]);
        out.push(aa);
        k = k + 1;
    }
    assert(out@ =~= translation_of(dna@));
    out
}

/// In frame and free of stop codons.
pub open spec fn is_productive(s: Seq<u8>) -> bool {
    &&& s.len() % 3 == 0
    &&& forall|k: int| 0 <= k < s.len() / 3 ==> #[trigger] translation_of(s)[k] != AA_STOP
}

/// Whether `dna` is in frame and translates without a stop codon.
pub fn is_productive_cdr3(dna: &Dna) -> (r: bool)
    ensures
        r == is_productive(dna@),
{
    if dna.seq.len() % 3 != 0 {
        return false;
    }
    let aa = translate(dna);
    let mut k: usize = 0;
    while k < aa.len()
        invariant
            k <= aa@.len(),
            aa@ == translation_of(dna@),
            forall|i: int| 0 <= i < k ==> #[trigger] aa@[i] != AA_STOP,
        decreases aa@.len() - k,
    {
        if aa[k] == AA_STOP {
            return false;
        }
        k = k + 1;
    }
    true
}

/// `s` with each `(position, nucleotide)` of `errors` written in turn (positions past the
/// end are ignored).
pub open spec fn with_errors(s: Seq<u8>, errors: Seq<(usize, u8)>) -> Seq<u8>
    decreases errors.len(),
{
    if errors.len() == 0 {
        s
    } else {
        let t = with_errors(s, errors.drop_last());
        if (errors.last().0 as int) < t.len() {
            t.update(errors.last().0 as int, errors.last().1)
        } else {
            t
        }
    }
}

/// Writes the sequencing errors `errors` (position, nucleotide read) into `dna`, in order.
pub fn add_errors(dna: &mut Dna, errors: &Vec<(usize, u8)>)
    ensures
        final(dna)@ == with_errors(old(dna)@, errors@),
{
    let ghost start = dna@;
    let mut k: usize = 0;
    while k < errors.len()
        invariant
            k <= errors@.len(),
            dna@ == with_errors(start, errors@.subrange(0, k as int)),
        decreases errors@.len() - k,
    {
        let (pos, nuc) = errors[k];
        assert(errors@.subrange(0, k + 1).drop_last() =~= errors@.subrange(0, k as int));
        if pos < dna.seq.len() {
            dna.seq.set(pos, nuc);
        }
        k = k + 1;
    }
    assert(errors@.subrange(0, errors@.len() as int) =~= errors@);
}

pub open spec fn is_ascii(s: Seq<u8>) -> bool {
    forall|i: int| 0 <= i < s.len() ==> #[trigger] s[i] < 128
}

proof fn lemma_errors_keep_ascii(s: Seq<u8>, errors: Seq<(usize, u8)>)
    requires
        is_ascii(s),
        forall|k: int| 0 <= k < errors.len() ==> #[trigger] errors[k].1 < 128,
    ensures
        is_ascii(with_errors(s, errors)),
        with_errors(s, errors).len() == s.len(),
    decreases errors.len(),
{
    if errors.len() > 0 {
        let rest = errors.drop_last();
        assert forall|k: int| 0 <= k < rest.len() implies #[trigger] rest[k].1 < 128 by {
            assert(rest[k] == errors[k]);
        }
        lemma_errors_keep_ascii(s, rest);
        assert(errors.last() == errors[errors.len() - 1]);
    }
}

/// The characters of an ASCII byte string.
pub open spec fn chars_of(s: Seq<u8>) -> Seq<char> {
    Seq::new(s.len(), |i: int| s[i] as char)
}

/// Relies on `String::from_utf8`: ASCII bytes are valid UTF-8 and decode to one char each.
#[verifier::external_body]
fn ascii_to_string(bytes: Vec<u8>) -> (r: String)
    requires
        is_ascii(bytes@),
    ensures
        r@ == chars_of(bytes@),
{
    match String::from_utf8(bytes) {
        Ok(s) => s,
        Err(_) => String::new(),
    }
}

/// The discrete choices of one recombination: genes, deletions, insertions and the
/// sequencing errors applied to the CDR3.
#[derive(Clone, Debug)]
pub struct StaticEvent {
    pub v_index: usize,
    pub delv: usize,
    pub d_index: usize,
    pub deld5: usize,
    pub deld3: usize,
    pub j_index: usize,
    pub delj: usize,
    pub insvd: Dna,
    pub insdj: Dna,
    /// Sequencing errors: position in the CDR3 and the nucleotide read there.
    pub errors: Vec<(usize, u8)>,
}

impl StaticEvent {
    /// The deletions fit the templates: `v` is the V gene from the CDR3 start on, `d` the
    /// D gene, `j` the J gene up to the CDR3 end.
    pub open spec fn fits(&self, v: Seq<u8>, d: Seq<u8>, j: Seq<u8>) -> bool {
        &&& self.delv <= v.len()
        &&& self.deld5 + self.deld3 <= d.len()
        &&& self.delj <= j.len()
    }

    /// V (3' deleted), VD insertion, D (both ends deleted), DJ insertion, J (5' deleted).
    pub open spec fn spliced(&self, v: Seq<u8>, d: Seq<u8>, j: Seq<u8>) -> Seq<u8> {
        v.subrange(0, v.len() - self.delv) + self.insvd@ + d.subrange(
            self.deld5 as int,
            d.len() - self.deld3,
        ) + self.insdj@ + j.subrange(self.delj as int, j.len() as int)
    }

    /// The CDR3 that the event produces.
    pub open spec fn cdr3(&self, v: Seq<u8>, d: Seq<u8>, j: Seq<u8>) -> Seq<u8> {
        with_errors(self.spliced(v, d, j), self.errors@)
    }

    /// Rebuilds the CDR3 of the event from its templates.
    pub fn to_cdr3(&self, v: &Dna, d: &Dna, j: &Dna) -> (r: Dna)
        requires
            self.fits(v@, d@, j@),
        ensures
            r@ == self.cdr3(v@, d@, j@),
    {
        let mut out = v.extract_subsequence(0, v.len() - self.delv);
        out.extend(&self.insvd);
        out.extend(&d.extract_subsequence(self.deld5, d.len() - self.deld3));
        out.extend(&self.insdj);
        out.extend(&j.extract_subsequence(self.delj, j.len()));
        add_errors(&mut out, &self.errors);
        out
    }
}

/// Splits a row-major index over rows of `width` entries into `(row, column)`.
pub fn decode_pair(index: usize, width: usize) -> (r: (usize, usize))
    requires
        width > 0,
    ensures
        r.0 * width + r.1 == index,
        r.1 < width,
{
    let r = (index / width, index % width);
    assert(r.0 * width + r.1 == index) by (nonlinear_arith)
        requires
            width > 0,
            r.0 == index / width,
            r.1 == index % width,
    ;
    r
}

/// Whether a drawn event is kept: its deletions fit the templates and, when `functional`
/// is asked, its CDR3 is in frame without a stop codon.
pub fn accept_event(event: &StaticEvent, v: &Dna, d: &Dna, j: &Dna, functional: bool) -> (r: bool)
    ensures
        r == (event.fits(v@, d@, j@) && (!functional || is_productive(event.cdr3(v@, d@, j@)))),
{
    if event.delv > v.len() || d.len() < event.deld5 || d.len() - event.deld5 < event.deld3
        || event.delj > j.len() {
        return false;
    }
    if !functional {
        return true;
    }
    let cdr3 = event.to_cdr3(v, d, j);
    is_productive_cdr3(&cdr3)
}

/// A generated sequence and the event it came from.
#[derive(Clone, Debug)]
pub struct GenerationResult {
    pub cdr3_nt: String,
    pub cdr3_aa: Option<String>,
    pub full_seq: String,
    pub v_gene: String,
    pub j_gene: String,
    pub recombination_event: StaticEvent,
}

/// The bytes of a string of chars (each char below 256).
pub open spec fn bytes_of(s: Seq<char>) -> Seq<u8> {
    Seq::new(s.len(), |i: int| s[i] as u8)
}

impl GenerationResult {
    /// The nucleotide and amino-acid CDR3 are those of the recombination event, on the
    /// templates `v`, `d`, `j`.
    pub open spec fn generated_from(&self, v: Seq<u8>, d: Seq<u8>, j: Seq<u8>) -> bool {
        let cdr3 = self.recombination_event.cdr3(v, d, j);
        &&& self.cdr3_nt@ == chars_of(cdr3)
        &&& (self.cdr3_aa is Some <==> cdr3.len() % 3 == 0)
        &&& (self.cdr3_aa is Some ==> self.cdr3_aa->Some_0@ == chars_of(translation_of(cdr3)))
    }

    /// The result of event `event`: `v` is the V gene from the CDR3 start on, `d` the D gene,
    /// `j` the J gene up to the CDR3 end; `upstream` and `downstream` complete the full
    /// sequence on either side of the CDR3. The amino-acid CDR3 is given when in frame.
    pub fn from_event(
        event: StaticEvent,
        v: &Dna,
        d: &Dna,
        j: &Dna,
        upstream: &Dna,
        downstream: &Dna,
        v_gene: String,
        j_gene: String,
    ) -> (r: GenerationResult)
        requires
            event.fits(v@, d@, j@),
            is_ascii(v@),
            is_ascii(d@),
            is_ascii(j@),
            is_ascii(event.insvd@),
            is_ascii(event.insdj@),
            is_ascii(upstream@),
            is_ascii(downstream@),
            forall|k: int| 0 <= k < event.errors@.len() ==> #[trigger] event.errors@[k].1 < 128,
        ensures
            r.generated_from(v@, d@, j@),
            r.recombination_event == event,
            r.cdr3_nt@ == chars_of(event.cdr3(v@, d@, j@)),
            r.cdr3_aa is Some <==> event.cdr3(v@, d@, j@).len() % 3 == 0,
            r.cdr3_aa is Some ==> r.cdr3_aa->Some_0@ == chars_of(
                translation_of(event.cdr3(v@, d@, j@)),
            ),
            r.full_seq@ == chars_of(upstream@ + event.cdr3(v@, d@, j@) + downstream@),
            r.v_gene == v_gene,
            r.j_gene == j_gene,
    {
        let cdr3 = event.to_cdr3(v, d, j);
        proof {
            let sp = event.spliced(v@, d@, j@);
            assert(is_ascii(sp));
            lemma_errors_keep_ascii(sp, event.errors@);
        }
        let cdr3_aa = if cdr3.len() % 3 == 0 {
            let aa = translate(&cdr3);
            Some(ascii_to_string(aa))
        } else {
            None
        };
        let mut full = Dna { seq: upstream.seq.clone() };
        full.extend(&cdr3);
        full.extend(downstream);
        let full_seq = ascii_to_string(full.seq);
        let cdr3_nt = ascii_to_string(cdr3.seq);
        GenerationResult { cdr3_nt, cdr3_aa, full_seq, v_gene, j_gene, recombination_event: event }
    }
}

/// Generation round trip: for a result generated from its event, rebuilding the CDR3 from
/// the event gives back the nucleotide CDR3, and the amino-acid CDR3, when present, is the
/// translation of the nucleotide CDR3.
pub proof fn lemma_generation_round_trip(g: GenerationResult, v: Seq<u8>, d: Seq<u8>, j: Seq<u8>)
    requires
        g.generated_from(v, d, j),
    ensures
        bytes_of(g.cdr3_nt@) == g.recombination_event.cdr3(v, d, j),
        g.cdr3_aa is Some ==> g.cdr3_nt@.len() % 3 == 0 && g.cdr3_aa->Some_0@ == chars_of(
            translation_of(bytes_of(g.cdr3_nt@)),
        ),
{
    let cdr3 = g.recombination_event.cdr3(v, d, j);
    assert forall|i: int| 0 <= i < cdr3.len() implies #[trigger] bytes_of(g.cdr3_nt@)[i] == cdr3[i] by {
        let b = cdr3[i];
        assert((b as char) as u8 == b);
    }
    assert(bytes_of(g.cdr3_nt@) =~= cdr3);
}

} // verus!
