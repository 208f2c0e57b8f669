use vstd::prelude::*;

verus! {

/// The values form the run `s[0], s[0] + 1, s[0] + 2, ...` (vacuous when empty).
pub open spec fn is_consecutive_run(s: Seq<i64>) -> bool {
    forall|i: int| 0 <= i < s.len() ==> #[trigger] s[i] == s[0] + i
}

/// Whether `arr` is sorted and holds every integer from its first element to its last.
pub fn sorted_and_complete(arr: Vec<i64>) -> (r: bool)
    ensures
        r == is_consecutive_run(arr@),
{
    if arr.len() == 0 {
        return true;
    }
    let mut b: i64 = arr[0];
    let mut i: usize = 1;
    while i < arr.len()
        invariant
            1 <= i <= arr.len(),
            b == arr@[i - 1],
            forall|k: int| 0 <= k < i ==> #[trigger] arr@[k] == arr@[0] + k,
        decreases arr.len() - i,
    {
        if b == i64::MAX || arr[i] != b + 1 {
            assert(!(arr@[i as int] == arr@[0] + i));
            return false;
        }
        b = arr[i];
        i = i + 1;
    }
    true
}

/// Whether `arr` is exactly `0, 1, 2, ..., arr.len() - 1`.
pub fn sorted_and_complete_0start(arr: Vec<i64>) -> (r: bool)
    ensures
        r == (forall|i: int| 0 <= i < arr@.len() ==> #[trigger] arr@[i] == i),
{
    let mut i: usize = 0;
    while i < arr.len()
        invariant
            i <= arr.len(),
            forall|k: int| 0 <= k < i ==> #[trigger] arr@[k] == k,
        decreases arr.len() - i,
    {
        if arr[i] as i128 != i as i128 {
            return false;
        }
        i = i + 1;
    }
    true
}

} // verus!
