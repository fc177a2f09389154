//! Sorted search over integer keys, and the crate-wide fixed-point scale.

use vstd::prelude::*;

verus! {

/// Number of days in one year, used uniformly for annualized-return arithmetic.
pub const DAYS_PER_YEAR: i64 = 360;

/// Scale of the fixed-point quantities used throughout the crate: a raw value
/// `v` stands for the quantity `v / FIXED_SCALE`.
pub const FIXED_SCALE: i64 = 1_000_000;

/// Which end of a run of equal keys `search_sorted` resolves to.
pub enum SIDE {
    LEFT,
    RIGHT,
}

/// The keys are ordered (non-decreasing).
pub open spec fn sorted(a: Seq<i64>) -> bool {
    forall|i: int, j: int| 0 <= i <= j < a.len() ==> a[i] <= a[j]
}

/// Whether an optional side argument selects the right side (the default is left).
pub open spec fn is_right(side: Option<SIDE>) -> bool {
    match side {
        Option::Some(SIDE::RIGHT) => true,
        _ => false,
    }
}

/// Find the index at which `v` stands (or would be inserted) in the key-sorted
/// slice `a`.
///
/// For the left side the result `r` splits `a` into keys `< v` and keys `>= v`;
/// for the right side into keys `<= v` and keys `> v`.  An empty slice gives 0.
pub fn search_sorted(a: &[i64], v: i64, side: Option<SIDE>) -> (r: usize)
    requires
        sorted(a@),
    ensures
        r <= a@.len(),
        !is_right(side) ==> (forall|i: int| 0 <= i < r ==> a@[i] < v),
        !is_right(side) ==> (forall|i: int| r <= i < a@.len() ==> v <= a@[i]),
        is_right(side) ==> (forall|i: int| 0 <= i < r ==> a@[i] <= v),
        is_right(side) ==> (forall|i: int| r <= i < a@.len() ==> v < a@[i]),
{
    let right = match side {
        Option::Some(SIDE::RIGHT) => true,
        _ => false,
    };
    let mut lo: usize = 0;
    let mut hi: usize = a.len();
    while lo < hi
        invariant
            lo <= hi <= a@.len(),
            sorted(a@),
            right == is_right(side),
            !right ==> (forall|i: int| 0 <= i < lo ==> a@[i] < v),
            !right ==> (forall|i: int| hi <= i < a@.len() ==> v <= a@[i]),
            right ==> (forall|i: int| 0 <= i < lo ==> a@[i] <= v),
            right ==> (forall|i: int| hi <= i < a@.len() ==> v < a@[i]),
        decreases hi - lo,
    {
        let mid = lo + (hi - lo) / 2;
        let go_right = if right {
            a[mid] <= v
        } else {
            a[mid] < v
        };
        if go_right {
            lo = mid + 1;
        } else {
            hi = mid;
        }
    }
    lo
}

/// Bracketing law of the sorted search: assuming `a` is sorted, the returned
/// index `r` satisfies `a[r-1] < v <= a[r]` for the left side and
/// `a[r-1] <= v < a[r]` for the right side (each inequality read only where the
/// index exists), and a value below or above the whole range yields `0` or
/// `a.len()`.  The premises are exactly what `search_sorted` ensures of its
/// result.
pub proof fn lemma_search_sorted_bracket(a: Seq<i64>, v: i64, r: int, side: Option<SIDE>)
    requires
        sorted(a),
        0 <= r <= a.len(),
        !is_right(side) ==> (forall|i: int| 0 <= i < r ==> a[i] < v),
        !is_right(side) ==> (forall|i: int| r <= i < a.len() ==> v <= a[i]),
        is_right(side) ==> (forall|i: int| 0 <= i < r ==> a[i] <= v),
        is_right(side) ==> (forall|i: int| r <= i < a.len() ==> v < a[i]),
    ensures
        0 < r && !is_right(side) ==> a[r - 1] < v,
        0 < r && is_right(side) ==> a[r - 1] <= v,
        r < a.len() && !is_right(side) ==> v <= a[r],
        r < a.len() && is_right(side) ==> v < a[r],
        (forall|i: int| 0 <= i < a.len() ==> v < a[i]) ==> r == 0,
        (forall|i: int| 0 <= i < a.len() ==> a[i] < v) ==> r == a.len(),
{
    if forall|i: int| 0 <= i < a.len() ==> v < a[i] {
        if r > 0 {
            assert(v < a[r - 1]);
        }
    }
    if forall|i: int| 0 <= i < a.len() ==> a[i] < v {
        if r < a.len() {
            assert(a[r] < v);
        }
    }
}

/// First index at or after `i` whose key is `v` or larger.
pub open spec fn lower(a: Seq<i64>, v: int, i: int) -> int
    decreases a.len() - i,
{
    if 0 <= i < a.len() && a[i] < v {
        lower(a, v, i + 1)
    } else {
        i
    }
}

/// `lower` splits the keys at `v`: everything before it is smaller,
/// everything from it on is not.
pub proof fn lemma_lower_props(a: Seq<i64>, v: int, i: int)
    requires
        0 <= i <= a.len(),
    ensures
        i <= lower(a, v, i) <= a.len(),
        forall|k: int| i <= k < lower(a, v, i) ==> a[k] < v,
        lower(a, v, i) < a.len() ==> a[lower(a, v, i)] >= v,
    decreases a.len() - i,
{
    if i < a.len() && a[i] < v {
        lemma_lower_props(a, v, i + 1);
    }
}

/// `lower` is monotone in the key looked for.
pub proof fn lemma_lower_mono(a: Seq<i64>, v1: int, v2: int, i: int)
    requires
        0 <= i <= a.len(),
        v1 <= v2,
    ensures
        lower(a, v1, i) <= lower(a, v2, i),
    decreases a.len() - i,
{
    if i < a.len() {
        if a[i] < v1 {
            lemma_lower_mono(a, v1, v2, i + 1);
        } else if a[i] < v2 {
            lemma_lower_props(a, v1, i);
            lemma_lower_props(a, v2, i + 1);
        }
    }
}

/// On a sorted slice, the left-sided sorted search lands on `lower`.
pub proof fn lemma_search_is_lower(a: Seq<i64>, v: i64, r: int)
    requires
        sorted(a),
        0 <= r <= a.len(),
        forall|i: int| 0 <= i < r ==> a[i] < v,
        forall|i: int| r <= i < a.len() ==> v <= a[i],
    ensures
        r == lower(a, v as int, 0),
{
    lemma_lower_props(a, v as int, 0);
    let li = lower(a, v as int, 0);
    if r < li {
        assert(a[r] < v);
        assert(v <= a[r]);
    } else if li < r {
        assert(a[li] < v);
        assert(v <= a[li]);
    }
}

} // verus!
