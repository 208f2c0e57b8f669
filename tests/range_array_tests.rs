use ihor::range_array::{RangeArray1, RangeArray2};

#[test]
fn range_array1_from_entries() {
    let r = RangeArray1::new(&vec![(3, 1.0), (5, 2.0), (3, 4.0)], 0.0);
    assert_eq!(r.dim(), (3, 6));
    assert_eq!(r.get(3), 4.0);
    assert_eq!(r.get(4), 0.0);
    assert_eq!(r.get(5), 2.0);
}

#[test]
fn range_array1_empty_entries() {
    let r: RangeArray1<f64> = RangeArray1::new(&vec![], 0.0);
    assert_eq!(r.dim(), (0, 0));
}

#[test]
fn range_array1_get_is_offset_by_min() {
    let mut r = RangeArray1::constant(-2, 3, 0i64);
    for i in -2..3 {
        r.set(i, 10 * i);
    }
    assert_eq!(r.min(), -2);
    assert_eq!(r.max(), 3);
    for i in -2..3 {
        assert_eq!(r.get(i), 10 * i);
    }
    let z = r.filled_like(7);
    assert_eq!(z.dim(), (-2, 3));
    assert_eq!(z.get(0), 7);
}

#[test]
fn range_array2_from_entries() {
    let r = RangeArray2::new(&vec![((1, 4), 0.5), ((2, 6), 1.5), ((1, 4), 2.5)], -1.0);
    assert_eq!(r.dim(), ((1, 4), (3, 7)));
    assert_eq!(r.get((1, 4)), 2.5);
    assert_eq!(r.get((2, 6)), 1.5);
    assert_eq!(r.get((2, 4)), -1.0);
    assert_eq!(r.get((1, 6)), -1.0);
}

#[test]
fn range_array2_set_touches_one_cell() {
    let mut r = RangeArray2::constant((0, -1), (2, 2), 0u32);
    r.set((1, 0), 9);
    for i in 0..2 {
        for j in -1..2 {
            let expected = if (i, j) == (1, 0) { 9 } else { 0 };
            assert_eq!(r.get((i, j)), expected);
        }
    }
}
