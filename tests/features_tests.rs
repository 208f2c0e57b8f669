use ihor::features::{CategoricalTable, FeatureError};
use ihor::vdj::{Features, Model};

fn prob(t: &CategoricalTable, k: usize, i: usize) -> f64 {
    let (n, d) = t.probability(k, i);
    n as f64 / d as f64
}

fn small_model() -> Model {
    Model {
        seg_vs: vec![],
        seg_ds: vec![],
        seg_js: vec![],
        p_v: vec![1, 3],
        p_dj: vec![2, 2, 0, 4],
        p_del_v_given_v: vec![vec![1, 1], vec![0, 0]],
        p_del_j_given_j: vec![vec![5], vec![2]],
        p_del_d3_del_d5: vec![vec![1, 0, 0, 1], vec![0, 0, 0, 0]],
        nb_deld5: 2,
        p_ins_vd: vec![1, 1, 2],
        p_ins_dj: vec![0, 0],
        first_nt_bias_ins_vd: vec![1, 1, 1, 1],
        first_nt_bias_ins_dj: vec![1, 0, 0, 0],
        markov_coefficients_vd: vec![vec![1, 1, 1, 1]; 4],
        markov_coefficients_dj: vec![vec![0, 0, 0, 0], vec![1, 0, 0, 3], vec![0, 1, 0, 0], vec![2, 2, 0, 0]],
        p_error: vec![1, 99],
    }
}

#[test]
fn normalization_along_first_axis() {
    // [[0, 2, 3], [2, 3, 3]] normalized column by column
    let t = CategoricalTable::new(&vec![vec![0, 2], vec![2, 3], vec![3, 3]], true).unwrap();
    let expected = [[0.0, 1.0], [0.4, 0.6], [0.5, 0.5]];
    for (k, col) in expected.iter().enumerate() {
        for (i, p) in col.iter().enumerate() {
            assert!((prob(&t, k, i) - p).abs() < 1e-12);
        }
    }
}

#[test]
fn normalization_of_slices_keeps_zero_slices() {
    // [[[0, 0], [2, 0], [0, 0], [0, 0]]] normalized along the last axis
    let t = CategoricalTable::new(&vec![vec![0, 2, 0, 0], vec![0, 0, 0, 0]], false).unwrap();
    assert_eq!(t.slices, vec![vec![0, 2, 0, 0], vec![0, 0, 0, 0]]);
    assert_eq!(t.totals, vec![2, 0]);
    assert_eq!(prob(&t, 0, 1), 1.0);
    assert_eq!(prob(&t, 0, 0), 0.0);
}

#[test]
fn zero_marginal_becomes_uniform() {
    let t = CategoricalTable::new(&vec![vec![0, 0, 0]], true).unwrap();
    assert_eq!(t.slices, vec![vec![1, 1, 1]]);
    assert_eq!(t.totals, vec![3]);
    assert_eq!(t.dirty, vec![vec![0, 0, 0]]);
}

#[test]
fn overflowing_total_is_an_error() {
    let r = CategoricalTable::new(&vec![vec![u64::MAX, 1]], true);
    assert_eq!(r.unwrap_err(), FeatureError::Overflow);
}

#[test]
fn cleanup_normalizes_expected_counts() {
    let mut t = CategoricalTable::new(&vec![vec![1, 1], vec![4, 0]], false).unwrap();
    t.dirty_update(0, 1, 3);
    t.dirty_update(0, 1, 1);
    let c = t.cleanup().unwrap();
    assert_eq!(c.slices, vec![vec![0, 4], vec![0, 0]]);
    assert_eq!(c.totals, vec![4, 0]);
    assert_eq!(c.dirty, vec![vec![0, 0], vec![0, 0]]);
}

#[test]
fn cleanup_twice_without_counts_is_stable() {
    let t = CategoricalTable::new(&vec![vec![1, 2, 3]], true).unwrap();
    let c = t.cleanup().unwrap();
    let cc = c.cleanup().unwrap();
    assert_eq!(c.slices, cc.slices);
    assert_eq!(c.totals, cc.totals);
}

#[test]
fn average_of_copies_is_the_same_distribution() {
    let a = CategoricalTable::new(&vec![vec![1, 3], vec![0, 0]], false).unwrap();
    let b = CategoricalTable::new(&vec![vec![1, 3], vec![0, 0]], false).unwrap();
    let c = CategoricalTable::new(&vec![vec![1, 3], vec![0, 0]], false).unwrap();
    let r = CategoricalTable::average(&vec![a, b, c]).unwrap();
    assert_eq!(prob(&r, 0, 0), 0.25);
    assert_eq!(prob(&r, 0, 1), 0.75);
    assert_eq!(r.totals[1], 0);
}

#[test]
fn average_is_the_elementwise_mean() {
    let a = CategoricalTable::new(&vec![vec![1, 1]], true).unwrap();
    let b = CategoricalTable::new(&vec![vec![1, 0]], true).unwrap();
    let r = CategoricalTable::average(&vec![a, b]).unwrap();
    assert_eq!(prob(&r, 0, 0), 0.75);
    assert_eq!(prob(&r, 0, 1), 0.25);
}

#[test]
fn average_of_nothing_is_an_error() {
    assert_eq!(CategoricalTable::average(&vec![]).unwrap_err(), FeatureError::Empty);
}

#[test]
fn features_from_model() {
    let f = Features::new(&small_model()).unwrap();
    assert_eq!(f.v.totals, vec![4]);
    assert_eq!(prob(&f.v, 0, 1), 0.75);
    // a gene whose deletions all weigh zero gets uniform deletions
    assert_eq!(f.delv.slices, vec![vec![1, 1], vec![1, 1]]);
    // a D gene whose deletions all weigh zero stays impossible
    assert_eq!(f.deld.totals, vec![2, 0]);
    assert_eq!(f.insdj.length_distribution.slices, vec![vec![1, 1]]);
    assert_eq!(f.insdj.transition_matrix.totals, vec![0, 4, 1, 4]);
    assert_eq!(prob(&f.error, 0, 0), 0.01);
}

#[test]
fn features_cleanup_and_average() {
    let f = Features::new(&small_model()).unwrap();
    let c = f.cleanup().unwrap();
    assert_eq!(c.v.slices, vec![vec![1, 1]]);
    assert_eq!(c.deld.totals, vec![0, 0]);
    let cc = c.cleanup().unwrap();
    assert_eq!(cc.v.slices, c.v.slices);
    assert_eq!(cc.insvd.transition_matrix.slices, c.insvd.transition_matrix.slices);

    let g = Features::new(&small_model()).unwrap();
    let h = Features::new(&small_model()).unwrap();
    let avg = Features::average(vec![g, h]).unwrap();
    assert_eq!(prob(&avg.v, 0, 1), 0.75);
    assert_eq!(prob(&avg.dj, 0, 3), 0.5);
    assert_eq!(prob(&avg.error, 0, 0), 0.01);
    assert_eq!(Features::average(vec![]).unwrap_err(), FeatureError::Empty);
}

#[test]
fn normalizing_twice_changes_nothing() {
    let t = CategoricalTable::new(&vec![vec![1, 0, 3], vec![0, 0, 0], vec![2, 2, 2]], false).unwrap();
    let r = CategoricalTable::new(&t.slices, false).unwrap();
    assert_eq!(r.slices, t.slices);
    assert_eq!(r.totals, vec![4, 0, 6]);
    let u = CategoricalTable::new(&vec![vec![0, 0]], true).unwrap();
    let ru = CategoricalTable::new(&u.slices, true).unwrap();
    assert_eq!(ru.slices, u.slices);
}
