use ihor::inference::{dj_insertion_spans, event_coordinates, vd_insertion_spans, EventBounds};
use ihor::range_array::RangeArray1;
use ihor::v_dj::{d_start_bounds, AggregatedFeatureStartDAndJ, AggregatedFeatureStartJ};

#[test]
fn vd_spans_respect_order_and_length() {
    assert_eq!(
        vd_insertion_spans(0, 3, 1, 3, 1),
        vec![(0, 1), (1, 1), (1, 2), (2, 2)]
    );
}

#[test]
fn vd_spans_without_insertions() {
    assert_eq!(vd_insertion_spans(0, 3, 0, 3, 0), vec![(0, 0), (1, 1), (2, 2)]);
    assert_eq!(vd_insertion_spans(3, 3, 0, 5, 4), vec![]);
}

#[test]
fn dj_spans_respect_order_and_length() {
    assert_eq!(
        dj_insertion_spans(0, 3, 1, 3, 1),
        vec![(0, 1), (1, 1), (1, 2), (2, 2)]
    );
    assert_eq!(dj_insertion_spans(0, 2, 0, 2, 5), vec![(0, 0), (0, 1), (1, 1)]);
}

#[test]
fn d_start_bounds_is_hull() {
    assert_eq!(d_start_bounds(&vec![(4, 9), (2, 6), (5, 11)]), (2, 11));
    assert_eq!(d_start_bounds(&vec![(3, 3)]), (3, 3));
}

#[test]
fn aggregated_start_d_and_j_accessors() {
    let mut lj = RangeArray1::constant(10, 13, 0.0);
    lj.set(11, 0.25);
    let fj = AggregatedFeatureStartJ::new(2, 9, lj, 0.0);
    assert_eq!(fj.start_j5(), 10);
    assert_eq!(fj.end_j5(), 13);
    assert_eq!(fj.likelihood(11), 0.25);
    let ld = RangeArray1::new(&vec![(4, 0.5), (6, 0.125)], 0.0);
    let mut agg = AggregatedFeatureStartDAndJ::new(ld, fj, 0.0);
    assert_eq!(agg.start_d5, 4);
    assert_eq!(agg.end_d5, 7);
    assert_eq!(agg.start_d5(), 4);
    assert_eq!(agg.end_d5(), 7);
    assert_eq!(agg.feature_j().index(), 2);
    assert_eq!(agg.feature_j().start_seq(), 9);
    assert_eq!(agg.j_start_seq(), 9);
    assert_eq!(agg.j_index(), 2);
    assert_eq!(agg.likelihood(4), 0.5);
    assert_eq!(agg.likelihood(5), 0.0);
    assert_eq!(agg.likelihood(6), 0.125);
    assert_eq!(agg.dirty(6), 0.0);
    agg.set_dirty(6, 0.75);
    assert_eq!(agg.dirty(6), 0.75);
    assert_eq!(agg.dirty(5), 0.0);
    assert_eq!(agg.feature_j().likelihood(11), 0.25);
}

#[test]
fn aggregated_start_j_dirty_mass() {
    let lj = RangeArray1::constant(0, 2, 1.0);
    let mut fj = AggregatedFeatureStartJ::new(0, 0, lj, 0.0);
    fj.set_dirty(1, 0.5);
    assert_eq!(fj.dirty(1), 0.5);
    assert_eq!(fj.dirty(0), 0.0);
    assert_eq!(fj.likelihood(1), 1.0);
}

fn bounds(max_ins_vd: usize, max_ins_dj: usize) -> EventBounds {
    EventBounds {
        start_v3: 0,
        end_v3: 2,
        start_d5: 1,
        end_d5: 3,
        start_d3: 1,
        end_d3: 3,
        start_j5: 2,
        end_j5: 4,
        max_ins_vd,
        max_ins_dj,
    }
}

#[test]
fn event_coordinates_are_ordered_and_complete() {
    let mut expected = Vec::new();
    for ev in 0..2i64 {
        for sd in 1..3i64 {
            for ed in 1..3i64 {
                for sj in 2..4i64 {
                    if ev <= sd && sd <= ed && ed <= sj && sd - ev <= 1 && sj - ed <= 1 {
                        expected.push((ev, sd, ed, sj));
                    }
                }
            }
        }
    }
    let got = event_coordinates(bounds(1, 1));
    assert_eq!(got, expected);
    assert_eq!(got[0], (0, 1, 1, 2));
}

#[test]
fn event_coordinates_without_insertions() {
    // ev = sd and ed = sj; sj >= 2 forces ed = 2, and ev < 2 forces ev = sd = 1
    assert_eq!(event_coordinates(bounds(0, 0)), vec![(1, 1, 2, 2)]);
}

#[test]
fn event_coordinates_empty_range() {
    let mut b = bounds(5, 5);
    b.end_v3 = b.start_v3;
    assert_eq!(event_coordinates(b), vec![]);
}
