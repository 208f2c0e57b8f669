use vstd::prelude::*;

use crate::features::{
    lemma_average_of_copies, lemma_cleanup_idempotent, same_distribution, same_shape, views,
    CategoricalTable, FeatureError,
};
use crate::sequence::Gene;

verus! {

/// Number of probability tables of a model.
pub const NB_TABLES: usize = 12;

/// Whether all-zero weights of table `i` (in the order of `Model::rows`) mean uniform
/// (a marginal, or a conditional on a gene) or impossible (a slice of a joint conditional,
/// a row of a transition matrix).
pub open spec fn uniform_modes() -> Seq<bool> {
    seq![true, true, true, true, false, true, true, false, true, true, false, true]
}

/// A VDJ recombination model. Each table holds nonnegative integer weights: a table's
/// probabilities are its weights divided by their total (per row for a conditional).
#[derive(Debug)]
pub struct Model {
    pub seg_vs: Vec<Gene>,
    pub seg_ds: Vec<Gene>,
    pub seg_js: Vec<Gene>,
    /// Weights of the V genes.
    pub p_v: Vec<u64>,
    /// Joint weights of (D, J), D-major: entry `d * seg_js.len() + j`.
    pub p_dj: Vec<u64>,
    /// One row per V gene: weights of its 3' deletions.
    pub p_del_v_given_v: Vec<Vec<u64>>,
    /// One row per J gene: weights of its 5' deletions.
    pub p_del_j_given_j: Vec<Vec<u64>>,
    /// One row per D gene: joint weights of (3' deletion, 5' deletion), entry
    /// `deld3 * nb_deld5 + deld5`.
    pub p_del_d3_del_d5: Vec<Vec<u64>>,
    pub nb_deld5: usize,
    /// Weights of the VD insertion lengths.
    pub p_ins_vd: Vec<u64>,
    /// Weights of the DJ insertion lengths.
    pub p_ins_dj: Vec<u64>,
    /// Weights of the first inserted nucleotide (A, C, G, T).
    pub first_nt_bias_ins_vd: Vec<u64>,
    pub first_nt_bias_ins_dj: Vec<u64>,
    /// Transition weights between inserted nucleotides, one row per previous nucleotide.
    pub markov_coefficients_vd: Vec<Vec<u64>>,
    pub markov_coefficients_dj: Vec<Vec<u64>>,
    /// Weights of (mismatch, match) for one sequenced base.
    pub p_error: Vec<u64>,
}

impl Model {
    /// The rows of every table, in the order of `Features::tables`.
    pub open spec fn rows(&self) -> Seq<Seq<Seq<u64>>> {
        seq![
            seq![self.p_v@],
            views(self.p_del_v_given_v@),
            seq![self.p_dj@],
            views(self.p_del_j_given_j@),
            views(self.p_del_d3_del_d5@),
            seq![self.p_ins_vd@],
            seq![self.first_nt_bias_ins_vd@],
            views(self.markov_coefficients_vd@),
            seq![self.p_ins_dj@],
            seq![self.first_nt_bias_ins_dj@],
            views(self.markov_coefficients_dj@),
            seq![self.p_error@],
        ]
    }

    /// Every row is short enough to count in 64 bits.
    pub open spec fn wf(&self) -> bool {
        forall|i: int, k: int|
            0 <= i < NB_TABLES && 0 <= k < self.rows()[i].len() ==> (#[trigger] self.rows()[i][k]).len()
                <= u64::MAX
    }
}

/// A one-row table.
fn single_row(w: &Vec<u64>) -> (r: Vec<Vec<u64>>)
    ensures
        views(r@) == seq![w@],
{
    let mut c: Vec<u64> = Vec::with_capacity(w.len());
    let mut i: usize = 0;
    while i < w.len()
        invariant
            i <= w@.len(),
            c@ == w@.subrange(0, i as int),
        decreases w@.len() - i,
    {
        c.push(w[i]);
        i = i + 1;
    }
    assert(w@.subrange(0, w@.len() as int) =~= w@);
    let mut r: Vec<Vec<u64>> = Vec::new();
    r.push(c);
    assert(views(r@) =~= seq![w@]);
    r
}

/// An insertion: its length, its first nucleotide, and the transitions between
/// consecutive nucleotides.
#[derive(Debug)]
pub struct InsertionFeature {
    pub length_distribution: CategoricalTable,
    pub first_nucleotide: CategoricalTable,
    pub transition_matrix: CategoricalTable,
}

/// The trainable parameters of a model.
#[derive(Debug)]
pub struct Features {
    pub v: CategoricalTable,
    pub delv: CategoricalTable,
    pub dj: CategoricalTable,
    pub delj: CategoricalTable,
    pub deld: CategoricalTable,
    pub insvd: InsertionFeature,
    pub insdj: InsertionFeature,
    pub error: CategoricalTable,
}

/// Table `i` of each of `fs`.
pub open spec fn column(fs: Seq<Features>, i: int) -> Seq<CategoricalTable> {
    Seq::new(fs.len(), |j: int| fs[j].tables()[i])
}

impl Features {
    /// Every table, in a fixed order.
    pub open spec fn tables(&self) -> Seq<CategoricalTable> {
        seq![
            self.v,
            self.delv,
            self.dj,
            self.delj,
            self.deld,
            self.insvd.length_distribution,
            self.insvd.first_nucleotide,
            self.insvd.transition_matrix,
            self.insdj.length_distribution,
            self.insdj.first_nucleotide,
            self.insdj.transition_matrix,
            self.error,
        ]
    }

    pub open spec fn wf(&self) -> bool {
        forall|i: int| 0 <= i < NB_TABLES ==> (#[trigger] self.tables()[i]).wf()
    }

    /// No expected count has been added since construction.
    pub open spec fn is_fresh(&self) -> bool {
        forall|i: int| 0 <= i < NB_TABLES ==> (#[trigger] self.tables()[i]).is_fresh()
    }

    /// The features of `model`: every table normalized (see `CategoricalTable::new`), with
    /// no expected count.
    pub fn new(model: &Model) -> (r: Result<Features, FeatureError>)
        requires
            model.wf(),
        ensures
            r is Ok <==> forall|i: int| 0 <= i < NB_TABLES ==> CategoricalTable::fits(#[trigger] model.rows()[i]),
            r is Ok ==> forall|i: int|
                0 <= i < NB_TABLES ==> (#[trigger] r->Ok_0.tables()[i]).built_from(model.rows()[i], uniform_modes()[i]),
            r is Err ==> r->Err_0 == FeatureError::Overflow,
    {
        let w_v = single_row(&model.p_v);
        proof {
            assert(views(w_v@) == model.rows()[0]);
            assert forall|k: int| 0 <= k < w_v@.len() implies (#[trigger] w_v@[k])@.len() <= u64::MAX by {
                assert(model.rows()[0][k] == views(w_v@)[k]);
            }
        }
        let t_v = match CategoricalTable::new(&w_v, true) {
            Ok(t) => t,
            Err(e) => return Err(e),
        };
        proof {
            assert(views(model.p_del_v_given_v@) == model.rows()[1]);
            assert forall|k: int| 0 <= k < model.p_del_v_given_v@.len() implies (#[trigger] model.p_del_v_given_v@[k])@.len() <= u64::MAX by {
                assert(model.rows()[1][k] == views(model.p_del_v_given_v@)[k]);
            }
        }
        let t_delv = match CategoricalTable::new(&model.p_del_v_given_v, true) {
            Ok(t) => t,
            Err(e) => return Err(e),
        };
        let w_dj = single_row(&model.p_dj);
        proof {
            assert(views(w_dj@) == model.rows()[2]);
            assert forall|k: int| 0 <= k < w_dj@.len() implies (#[trigger] w_dj@[k])@.len() <= u64::MAX by {
                assert(model.rows()[2][k] == views(w_dj@)[k]);
            }
        }
        let t_dj = match CategoricalTable::new(&w_dj, true) {
            Ok(t) => t,
            Err(e) => return Err(e),
        };
        proof {
            assert(views(model.p_del_j_given_j@) == model.rows()[3]);
            assert forall|k: int| 0 <= k < model.p_del_j_given_j@.len() implies (#[trigger] model.p_del_j_given_j@[k])@.len() <= u64::MAX by {
                assert(model.rows()[3][k] == views(model.p_del_j_given_j@)[k]);
            }
        }
        let t_delj = match CategoricalTable::new(&model.p_del_j_given_j, true) {
            Ok(t) => t,
            Err(e) => return Err(e),
        };
        proof {
            assert(views(model.p_del_d3_del_d5@) == model.rows()[4]);
            assert forall|k: int| 0 <= k < model.p_del_d3_del_d5@.len() implies (#[trigger] model.p_del_d3_del_d5@[k])@.len() <= u64::MAX by {
                assert(model.rows()[4][k] == views(model.p_del_d3_del_d5@)[k]);
            }
        }
        let t_deld = match CategoricalTable::new(&model.p_del_d3_del_d5, false) {
            Ok(t) => t,
            Err(e) => return Err(e),
        };
        let w_insvd_len = single_row(&model.p_ins_vd);
        proof {
            assert(views(w_insvd_len@) == model.rows()[5]);
            assert forall|k: int| 0 <= k < w_insvd_len@.len() implies (#[trigger] w_insvd_len@[k])@.len() <= u64::MAX by {
                assert(model.rows()[5][k] == views(w_insvd_len@)[k]);
            }
        }
        let t_insvd_len = match CategoricalTable::new(&w_insvd_len, true) {
            Ok(t) => t,
            Err(e) => return Err(e),
        };
        let w_insvd_first = single_row(&model.first_nt_bias_ins_vd);
        proof {
            assert(views(w_insvd_first@) == model.rows()[6]);
            assert forall|k: int| 0 <= k < w_insvd_first@.len() implies (#[trigger] w_insvd_first@[k])@.len() <= u64::MAX by {
                assert(model.rows()[6][k] == views(w_insvd_first@)[k]);
            }
        }
        let t_insvd_first = match CategoricalTable::new(&w_insvd_first, true) {
            Ok(t) => t,
            Err(e) => return Err(e),
        };
        proof {
            assert(views(model.markov_coefficients_vd@) == model.rows()[7]);
            assert forall|k: int| 0 <= k < model.markov_coefficients_vd@.len() implies (#[trigger] model.markov_coefficients_vd@[k])@.len() <= u64::MAX by {
                assert(model.rows()[7][k] == views(model.markov_coefficients_vd@)[k]);
            }
        }
        let t_insvd_trans = match CategoricalTable::new(&model.markov_coefficients_vd, false) {
            Ok(t) => t,
            Err(e) => return Err(e),
        };
        let w_insdj_len = single_row(&model.p_ins_dj);
        proof {
            assert(views(w_insdj_len@) == model.rows()[8]);
            assert forall|k: int| 0 <= k < w_insdj_len@.len() implies (#[trigger] w_insdj_len@[k])@.len() <= u64::MAX by {
                assert(model.rows()[8][k] == views(w_insdj_len@)[k]);
            }
        }
        let t_insdj_len = match CategoricalTable::new(&w_insdj_len, true) {
            Ok(t) => t,
            Err(e) => return Err(e),
        };
        let w_insdj_first = single_row(&model.first_nt_bias_ins_dj);
        proof {
            assert(views(w_insdj_first@) == model.rows()[9]);
            assert forall|k: int| 0 <= k < w_insdj_first@.len() implies (#[trigger] w_insdj_first@[k])@.len() <= u64::MAX by {
                assert(model.rows()[9][k] == views(w_insdj_first@)[k]);
            }
        }
        let t_insdj_first = match CategoricalTable::new(&w_insdj_first, true) {
            Ok(t) => t,
            Err(e) => return Err(e),
        };
        proof {
            assert(views(model.markov_coefficients_dj@) == model.rows()[10]);
            assert forall|k: int| 0 <= k < model.markov_coefficients_dj@.len() implies (#[trigger] model.markov_coefficients_dj@[k])@.len() <= u64::MAX by {
                assert(model.rows()[10][k] == views(model.markov_coefficients_dj@)[k]);
            }
        }
        let t_insdj_trans = match CategoricalTable::new(&model.markov_coefficients_dj, false) {
            Ok(t) => t,
            Err(e) => return Err(e),
        };
        let w_error = single_row(&model.p_error);
        proof {
            assert(views(w_error@) == model.rows()[11]);
            assert forall|k: int| 0 <= k < w_error@.len() implies (#[trigger] w_error@[k])@.len() <= u64::MAX by {
                assert(model.rows()[11][k] == views(w_error@)[k]);
            }
        }
        let t_error = match CategoricalTable::new(&w_error, true) {
            Ok(t) => t,
            Err(e) => return Err(e),
        };
        let r = Features {
            v: t_v,
            delv: t_delv,
            dj: t_dj,
            delj: t_delj,
            deld: t_deld,
            insvd: InsertionFeature {
                length_distribution: t_insvd_len,
                first_nucleotide: t_insvd_first,
                transition_matrix: t_insvd_trans,
            },
            insdj: InsertionFeature {
                length_distribution: t_insdj_len,
                first_nucleotide: t_insdj_first,
                transition_matrix: t_insdj_trans,
            },
            error: t_error,
        };
        Ok(r)
    }

    /// The next features: the expected counts of every table, normalized.
    pub fn cleanup(&self) -> (r: Result<Features, FeatureError>)
        requires
            self.wf(),
        ensures
            r is Ok <==> forall|i: int|
                0 <= i < NB_TABLES ==> CategoricalTable::fits(views((#[trigger] self.tables()[i]).dirty@)),
            r is Ok ==> forall|i: int|
                0 <= i < NB_TABLES ==> (#[trigger] r->Ok_0.tables()[i]).built_from(
                    views(self.tables()[i].dirty@),
                    self.tables()[i].uniform,
                ),
            r is Err ==> r->Err_0 == FeatureError::Overflow,
    {
        proof {
            assert(self.tables()[0].wf());
        }
        let t_v = match self.v.cleanup() {
            Ok(t) => t,
            Err(e) => {
                proof {
                    assert(!CategoricalTable::fits(views(self.tables()[0].dirty@)));
                }
                return Err(e);
            },
        };
        proof {
            assert(self.tables()[1].wf());
        }
        let t_delv = match self.delv.cleanup() {
            Ok(t) => t,
            Err(e) => {
                proof {
                    assert(!CategoricalTable::fits(views(self.tables()[1].dirty@)));
                }
                return Err(e);
            },
        };
        proof {
            assert(self.tables()[2].wf());
        }
        let t_dj = match self.dj.cleanup() {
            Ok(t) => t,
            Err(e) => {
                proof {
                    assert(!CategoricalTable::fits(views(self.tables()[2].dirty@)));
                }
                return Err(e);
            },
        };
        proof {
            assert(self.tables()[3].wf());
        }
        let t_delj = match self.delj.cleanup() {
            Ok(t) => t,
            Err(e) => {
                proof {
                    assert(!CategoricalTable::fits(views(self.tables()[3].dirty@)));
                }
                return Err(e);
            },
        };
        proof {
            assert(self.tables()[4].wf());
        }
        let t_deld = match self.deld.cleanup() {
            Ok(t) => t,
            Err(e) => {
                proof {
                    assert(!CategoricalTable::fits(views(self.tables()[4].dirty@)));
                }
                return Err(e);
            },
        };
        proof {
            assert(self.tables()[5].wf());
        }
        let t_insvd_len = match self.insvd.length_distribution.cleanup() {
            Ok(t) => t,
            Err(e) => {
                proof {
                    assert(!CategoricalTable::fits(views(self.tables()[5].dirty@)));
                }
                return Err(e);
            },
        };
        proof {
            assert(self.tables()[6].wf());
        }
        let t_insvd_first = match self.insvd.first_nucleotide.cleanup() {
            Ok(t) => t,
            Err(e) => {
                proof {
                    assert(!CategoricalTable::fits(views(self.tables()[6].dirty@)));
                }
                return Err(e);
            },
        };
        proof {
            assert(self.tables()[7].wf());
        }
        let t_insvd_trans = match self.insvd.transition_matrix.cleanup() {
            Ok(t) => t,
            Err(e) => {
                proof {
                    assert(!CategoricalTable::fits(views(self.tables()[7].dirty@)));
                }
                return Err(e);
            },
        };
        proof {
            assert(self.tables()[8].wf());
        }
        let t_insdj_len = match self.insdj.length_distribution.cleanup() {
            Ok(t) => t,
            Err(e) => {
                proof {
                    assert(!CategoricalTable::fits(views(self.tables()[8].dirty@)));
                }
                return Err(e);
            },
        };
        proof {
            assert(self.tables()[9].wf());
        }
        let t_insdj_first = match self.insdj.first_nucleotide.cleanup() {
            Ok(t) => t,
            Err(e) => {
                proof {
                    assert(!CategoricalTable::fits(views(self.tables()[9].dirty@)));
                }
                return Err(e);
            },
        };
        proof {
            assert(self.tables()[10].wf());
        }
        let t_insdj_trans = match self.insdj.transition_matrix.cleanup() {
            Ok(t) => t,
            Err(e) => {
                proof {
                    assert(!CategoricalTable::fits(views(self.tables()[10].dirty@)));
                }
                return Err(e);
            },
        };
        proof {
            assert(self.tables()[11].wf());
        }
        let t_error = match self.error.cleanup() {
            Ok(t) => t,
            Err(e) => {
                proof {
                    assert(!CategoricalTable::fits(views(self.tables()[11].dirty@)));
                }
                return Err(e);
            },
        };
        let r = Features {
            v: t_v,
            delv: t_delv,
            dj: t_dj,
            delj: t_delj,
            deld: t_deld,
            insvd: InsertionFeature {
                length_distribution: t_insvd_len,
                first_nucleotide: t_insvd_first,
                transition_matrix: t_insvd_trans,
            },
            insdj: InsertionFeature {
                length_distribution: t_insdj_len,
                first_nucleotide: t_insdj_first,
                transition_matrix: t_insdj_trans,
            },
            error: t_error,
        };
        Ok(r)
    }

    /// The elementwise mean of `features`, table by table, normalized.
    pub fn average(features: Vec<Features>) -> (r: Result<Features, FeatureError>)
        requires
            features@.len() > 0 ==> forall|i: int| 0 <= i < NB_TABLES ==> same_shape(#[trigger] column(features@, i)),
        ensures
            r matches Err(FeatureError::Empty) <==> features@.len() == 0,
            r is Ok <==> features@.len() > 0 && forall|i: int|
                0 <= i < NB_TABLES ==> crate::features::average_fits(#[trigger] column(features@, i)),
            r is Ok ==> forall|i: int|
                0 <= i < NB_TABLES ==> (#[trigger] r->Ok_0.tables()[i]).averaged_from(column(features@, i)),
    {
        if features.len() == 0 {
            return Err(FeatureError::Empty);
        }
        let ghost fs = features@;
        let n = features.len();
        let mut c_v: Vec<CategoricalTable> = Vec::new();
        let mut c_delv: Vec<CategoricalTable> = Vec::new();
        let mut c_dj: Vec<CategoricalTable> = Vec::new();
        let mut c_delj: Vec<CategoricalTable> = Vec::new();
        let mut c_deld: Vec<CategoricalTable> = Vec::new();
        let mut c_insvd_len: Vec<CategoricalTable> = Vec::new();
        let mut c_insvd_first: Vec<CategoricalTable> = Vec::new();
        let mut c_insvd_trans: Vec<CategoricalTable> = Vec::new();
        let mut c_insdj_len: Vec<CategoricalTable> = Vec::new();
        let mut c_insdj_first: Vec<CategoricalTable> = Vec::new();
        let mut c_insdj_trans: Vec<CategoricalTable> = Vec::new();
        let mut c_error: Vec<CategoricalTable> = Vec::new();
        let mut rest = features;
        let mut j: usize = 0;
        while j < n
            invariant
                n == fs.len(),
                j <= n,
                rest@ == fs.subrange(j as int, n as int),
                c_v@ == column(fs, 0).subrange(0, j as int),
                c_delv@ == column(fs, 1).subrange(0, j as int),
                c_dj@ == column(fs, 2).subrange(0, j as int),
                c_delj@ == column(fs, 3).subrange(0, j as int),
                c_deld@ == column(fs, 4).subrange(0, j as int),
                c_insvd_len@ == column(fs, 5).subrange(0, j as int),
                c_insvd_first@ == column(fs, 6).subrange(0, j as int),
                c_insvd_trans@ == column(fs, 7).subrange(0, j as int),
                c_insdj_len@ == column(fs, 8).subrange(0, j as int),
                c_insdj_first@ == column(fs, 9).subrange(0, j as int),
                c_insdj_trans@ == column(fs, 10).subrange(0, j as int),
                c_error@ == column(fs, 11).subrange(0, j as int),
            decreases n - j,
        {
            let f = rest.remove(0);
            assert(f == fs[j as int]);
            let Features { v, delv, dj, delj, deld, insvd, insdj, error } = f;
            let InsertionFeature {
                length_distribution: insvd_len,
                first_nucleotide: insvd_first,
                transition_matrix: insvd_trans,
            } = insvd;
            let InsertionFeature {
                length_distribution: insdj_len,
                first_nucleotide: insdj_first,
                transition_matrix: insdj_trans,
            } = insdj;
            c_v.push(v);
            c_delv.push(delv);
            c_dj.push(dj);
            c_delj.push(delj);
            c_deld.push(deld);
            c_insvd_len.push(insvd_len);
            c_insvd_first.push(insvd_first);
            c_insvd_trans.push(insvd_trans);
            c_insdj_len.push(insdj_len);
            c_insdj_first.push(insdj_first);
            c_insdj_trans.push(insdj_trans);
            c_error.push(error);
            assert(c_v@ =~= column(fs, 0).subrange(0, j + 1));
            assert(c_delv@ =~= column(fs, 1).subrange(0, j + 1));
            assert(c_dj@ =~= column(fs, 2).subrange(0, j + 1));
            assert(c_delj@ =~= column(fs, 3).subrange(0, j + 1));
            assert(c_deld@ =~= column(fs, 4).subrange(0, j + 1));
            assert(c_insvd_len@ =~= column(fs, 5).subrange(0, j + 1));
            assert(c_insvd_first@ =~= column(fs, 6).subrange(0, j + 1));
            assert(c_insvd_trans@ =~= column(fs, 7).subrange(0, j + 1));
            assert(c_insdj_len@ =~= column(fs, 8).subrange(0, j + 1));
            assert(c_insdj_first@ =~= column(fs, 9).subrange(0, j + 1));
            assert(c_insdj_trans@ =~= column(fs, 10).subrange(0, j + 1));
            assert(c_error@ =~= column(fs, 11).subrange(0, j + 1));
            assert(rest@ =~= fs.subrange(j + 1, n as int));
            j = j + 1;
        }
        assert(c_v@ =~= column(fs, 0));
        let t_v = match CategoricalTable::average(&c_v) {
            Ok(t) => t,
            Err(e) => return Err(e),
        };
        assert(c_delv@ =~= column(fs, 1));
        let t_delv = match CategoricalTable::average(&c_delv) {
            Ok(t) => t,
            Err(e) => return Err(e),
        };
        assert(c_dj@ =~= column(fs, 2));
        let t_dj = match CategoricalTable::average(&c_dj) {
            Ok(t) => t,
            Err(e) => return Err(e),
        };
        assert(c_delj@ =~= column(fs, 3));
        let t_delj = match CategoricalTable::average(&c_delj) {
            Ok(t) => t,
            Err(e) => return Err(e),
        };
        assert(c_deld@ =~= column(fs, 4));
        let t_deld = match CategoricalTable::average(&c_deld) {
            Ok(t) => t,
            Err(e) => return Err(e),
        };
        assert(c_insvd_len@ =~= column(fs, 5));
        let t_insvd_len = match CategoricalTable::average(&c_insvd_len) {
            Ok(t) => t,
            Err(e) => return Err(e),
        };
        assert(c_insvd_first@ =~= column(fs, 6));
        let t_insvd_first = match CategoricalTable::average(&c_insvd_first) {
            Ok(t) => t,
            Err(e) => return Err(e),
        };
        assert(c_insvd_trans@ =~= column(fs, 7));
        let t_insvd_trans = match CategoricalTable::average(&c_insvd_trans) {
            Ok(t) => t,
            Err(e) => return Err(e),
        };
        assert(c_insdj_len@ =~= column(fs, 8));
        let t_insdj_len = match CategoricalTable::average(&c_insdj_len) {
            Ok(t) => t,
            Err(e) => return Err(e),
        };
        assert(c_insdj_first@ =~= column(fs, 9));
        let t_insdj_first = match CategoricalTable::average(&c_insdj_first) {
            Ok(t) => t,
            Err(e) => return Err(e),
        };
        assert(c_insdj_trans@ =~= column(fs, 10));
        let t_insdj_trans = match CategoricalTable::average(&c_insdj_trans) {
            Ok(t) => t,
            Err(e) => return Err(e),
        };
        assert(c_error@ =~= column(fs, 11));
        let t_error = match CategoricalTable::average(&c_error) {
            Ok(t) => t,
            Err(e) => return Err(e),
        };
        let r = Features {
            v: t_v,
            delv: t_delv,
            dj: t_dj,
            delj: t_delj,
            deld: t_deld,
            insvd: InsertionFeature {
                length_distribution: t_insvd_len,
                first_nucleotide: t_insvd_first,
                transition_matrix: t_insvd_trans,
            },
            insdj: InsertionFeature {
                length_distribution: t_insdj_len,
                first_nucleotide: t_insdj_first,
                transition_matrix: t_insdj_trans,
            },
            error: t_error,
        };
        Ok(r)
    }
}

/// Features built from a model, or cleaned up, are valid: every slice of every table is a
/// probability distribution (it sums to its total) or identically zero.
pub proof fn lemma_built_features_are_distributions(f: Features, rows: Seq<Seq<Seq<u64>>>)
    requires
        forall|i: int| 0 <= i < NB_TABLES ==> (#[trigger] f.tables()[i]).built_from(rows[i], uniform_modes()[i]),
    ensures
        f.wf(),
        forall|i: int, k: int|
            0 <= i < NB_TABLES && 0 <= k < f.tables()[i].nb_slices() ==> crate::features::is_distribution(
                (#[trigger] f.tables()[i].slices@[k])@,
                f.tables()[i].totals@[k] as int,
            ),
{
}

/// `a` and `b` hold the same slices with the same totals.
pub open spec fn same_slices(a: CategoricalTable, b: CategoricalTable) -> bool {
    &&& a.nb_slices() == b.nb_slices()
    &&& forall|k: int|
        0 <= k < a.nb_slices() ==> (#[trigger] a.slices@[k])@ == b.slices@[k]@ && a.totals@[k]
            == b.totals@[k]
}

/// Cleanup is idempotent when no expected count is added: for fresh features `f`, the
/// cleanup `c` of `f` and the cleanup `cc` of `c` hold the same tables.
pub proof fn lemma_features_cleanup_idempotent(f: Features, c: Features, cc: Features)
    requires
        f.wf(),
        f.is_fresh(),
        forall|i: int|
            0 <= i < NB_TABLES ==> (#[trigger] c.tables()[i]).built_from(
                views(f.tables()[i].dirty@),
                f.tables()[i].uniform,
            ),
        forall|i: int|
            0 <= i < NB_TABLES ==> (#[trigger] cc.tables()[i]).built_from(
                views(c.tables()[i].dirty@),
                c.tables()[i].uniform,
            ),
    ensures
        forall|i: int| 0 <= i < NB_TABLES ==> same_slices(#[trigger] cc.tables()[i], c.tables()[i]),
{
    assert forall|i: int| 0 <= i < NB_TABLES implies same_slices(#[trigger] cc.tables()[i], c.tables()[i]) by {
        let ft = f.tables()[i];
        let ct = c.tables()[i];
        let cct = cc.tables()[i];
        assert(ft.wf() && ft.is_fresh());
        assert(ct.built_from(views(ft.dirty@), ft.uniform));
        assert(cct.built_from(views(ct.dirty@), ct.uniform));
        lemma_cleanup_idempotent(ft, ct, cct);
        assert(ct.dirty@.len() == ct.nb_slices());
        assert(cct.nb_slices() == ct.nb_slices());
    }
}

/// Averaging copies of the same features gives them back: each table of the average `r` of
/// `fs`, all equal to `f`, gives every entry the probability it has in `f`.
pub proof fn lemma_features_average_of_copies(fs: Seq<Features>, f: Features, r: Features)
    requires
        f.wf(),
        fs.len() > 0,
        forall|j: int| 0 <= j < fs.len() ==> #[trigger] fs[j] == f,
        forall|i: int| 0 <= i < NB_TABLES ==> (#[trigger] r.tables()[i]).averaged_from(column(fs, i)),
    ensures
        forall|i: int, k: int|
            0 <= i < NB_TABLES && 0 <= k < f.tables()[i].nb_slices() ==> same_distribution(
                (#[trigger] r.tables()[i].slices@[k])@,
                r.tables()[i].totals@[k] as int,
                f.tables()[i].slices@[k]@,
                f.tables()[i].totals@[k] as int,
            ),
{
    assert forall|i: int, k: int|
        0 <= i < NB_TABLES && 0 <= k < f.tables()[i].nb_slices() implies same_distribution(
            (#[trigger] r.tables()[i].slices@[k])@,
            r.tables()[i].totals@[k] as int,
            f.tables()[i].slices@[k]@,
            f.tables()[i].totals@[k] as int,
        ) by {
        let col = column(fs, i);
        assert forall|j: int| 0 <= j < col.len() implies #[trigger] col[j] == f.tables()[i] by {
            assert(fs[j] == f);
        }
        assert(f.tables()[i].wf());
        assert(r.tables()[i].averaged_from(col));
        lemma_average_of_copies(col, f.tables()[i], r.tables()[i]);
    }
}

} // verus!
