//! Binary search over keys that are read one at a time, any of which may turn
//! out to be unreadable.
use vstd::prelude::*;

use crate::error::ErrorView;

verus! {

/// What looking for `target` by bisection among the keys from `lo` up to `hi`
/// gives: the index of the probed key that is `target`, nothing if the probes
/// close in without meeting it, or the error of the first unreadable probe.
pub open spec fn bisect(
    keys: spec_fn(int) -> Result<Seq<u8>, ErrorView>,
    target: Seq<u8>,
    lo: int,
    hi: int,
) -> Result<Option<int>, ErrorView>
    decreases hi - lo,
{
    if lo >= hi {
        Ok(None)
    } else {
        let mid = lo + (hi - lo) / 2;
        match keys(mid) {
            Err(error) => Err(error),
            Ok(key) => if key == target {
                Ok(Some(mid))
            } else if crate::order::precedes(key, target) {
                bisect(keys, target, mid + 1, hi)
            } else {
                bisect(keys, target, lo, mid)
            },
        }
    }
}

/// What looking for the first key that does not come before `target` gives, by
/// bisection among the keys from `lo` up to `hi`.
pub open spec fn lower_bound(
    keys: spec_fn(int) -> Result<Seq<u8>, ErrorView>,
    target: Seq<u8>,
    lo: int,
    hi: int,
) -> Result<int, ErrorView>
    decreases hi - lo,
{
    if lo >= hi {
        Ok(lo)
    } else {
        let mid = lo + (hi - lo) / 2;
        match keys(mid) {
            Err(error) => Err(error),
            Ok(key) => if crate::order::precedes(key, target) {
                lower_bound(keys, target, mid + 1, hi)
            } else {
                lower_bound(keys, target, lo, mid)
            },
        }
    }
}

/// Whether the first `n` keys are all readable and none comes before an
/// earlier one.
pub open spec fn is_sorted(keys: spec_fn(int) -> Result<Seq<u8>, ErrorView>, n: int) -> bool {
    &&& forall|i: int| 0 <= i < n ==> (#[trigger] keys(i)) is Ok
    &&& forall|i: int, j: int|
        0 <= i < j < n ==> !crate::order::precedes(
            (#[trigger] keys(j))->Ok_0,
            (#[trigger] keys(i))->Ok_0,
        )
}

/// Whatever the keys are, what bisection finds is the key that was looked for,
/// and the error that it reports is that of some key.
pub proof fn bisect_is_sound(
    keys: spec_fn(int) -> Result<Seq<u8>, ErrorView>,
    target: Seq<u8>,
    lo: int,
    hi: int,
)
    ensures
        match bisect(keys, target, lo, hi) {
            Ok(Some(i)) => lo <= i < hi && keys(i) == Ok::<Seq<u8>, ErrorView>(target),
            Ok(None) => true,
            Err(error) => exists|i: int|
                lo <= i < hi && #[trigger] keys(i) == Err::<Seq<u8>, ErrorView>(error),
        },
    decreases hi - lo,
{
    if lo < hi {
        let mid = lo + (hi - lo) / 2;
        match keys(mid) {
            Err(error) => {},
            Ok(key) => {
                if key == target {
                } else if crate::order::precedes(key, target) {
                    bisect_is_sound(keys, target, mid + 1, hi);
                } else {
                    bisect_is_sound(keys, target, lo, mid);
                }
            },
        }
    }
}

/// Among sorted keys, bisection finds what it looks for exactly if it is
/// there.
pub proof fn bisect_is_complete(
    keys: spec_fn(int) -> Result<Seq<u8>, ErrorView>,
    target: Seq<u8>,
    n: int,
)
    requires
        is_sorted(keys, n),
    ensures
        match bisect(keys, target, 0, n) {
            Ok(Some(i)) => 0 <= i < n && keys(i) == Ok::<Seq<u8>, ErrorView>(target),
            Ok(None) => forall|i: int|
                0 <= i < n ==> #[trigger] keys(i) != Ok::<Seq<u8>, ErrorView>(target),
            Err(_) => false,
        },
{
    lemma_bisect_range(keys, target, n, 0, n);
}

proof fn lemma_bisect_range(
    keys: spec_fn(int) -> Result<Seq<u8>, ErrorView>,
    target: Seq<u8>,
    n: int,
    lo: int,
    hi: int,
)
    requires
        is_sorted(keys, n),
        0 <= lo,
        hi <= n,
        forall|i: int|
            0 <= i < n && !(lo <= i < hi) ==> #[trigger] keys(i) != Ok::<Seq<u8>, ErrorView>(
                target,
            ),
    ensures
        match bisect(keys, target, lo, hi) {
            Ok(Some(i)) => lo <= i < hi && keys(i) == Ok::<Seq<u8>, ErrorView>(target),
            Ok(None) => forall|i: int|
                0 <= i < n ==> #[trigger] keys(i) != Ok::<Seq<u8>, ErrorView>(target),
            Err(_) => false,
        },
    decreases hi - lo,
{
    if lo < hi {
        let mid = lo + (hi - lo) / 2;
        assert(keys(mid) is Ok);
        let key = keys(mid)->Ok_0;
        crate::order::order_is_total(key, target);
        if key == target {
        } else if crate::order::precedes(key, target) {
            assert forall|i: int| 0 <= i < n && !(mid + 1 <= i < hi) implies #[trigger] keys(i)
                != Ok::<Seq<u8>, ErrorView>(target) by {
                if lo <= i < mid && keys(i) == Ok::<Seq<u8>, ErrorView>(target) {
                    assert(!crate::order::precedes(keys(mid)->Ok_0, keys(i)->Ok_0));
                }
            }
            lemma_bisect_range(keys, target, n, mid + 1, hi);
        } else {
            assert forall|i: int| 0 <= i < n && !(lo <= i < mid) implies #[trigger] keys(i)
                != Ok::<Seq<u8>, ErrorView>(target) by {
                if mid < i < hi && keys(i) == Ok::<Seq<u8>, ErrorView>(target) {
                    assert(!crate::order::precedes(keys(i)->Ok_0, keys(mid)->Ok_0));
                }
            }
            lemma_bisect_range(keys, target, n, lo, mid);
        }
    }
}

/// Among sorted keys, [`lower_bound`] parts those that come before `target`
/// from those that do not.
pub proof fn lower_bound_parts_keys(
    keys: spec_fn(int) -> Result<Seq<u8>, ErrorView>,
    target: Seq<u8>,
    n: int,
)
    requires
        is_sorted(keys, n),
        0 <= n,
    ensures
        match lower_bound(keys, target, 0, n) {
            Ok(bound) => {
                &&& 0 <= bound <= n
                &&& forall|i: int|
                    0 <= i < bound ==> crate::order::precedes((#[trigger] keys(i))->Ok_0, target)
                &&& forall|i: int|
                    bound <= i < n ==> !crate::order::precedes((#[trigger] keys(i))->Ok_0, target)
            },
            Err(_) => false,
        },
{
    lemma_lower_bound_range(keys, target, n, 0, n);
}

proof fn lemma_lower_bound_range(
    keys: spec_fn(int) -> Result<Seq<u8>, ErrorView>,
    target: Seq<u8>,
    n: int,
    lo: int,
    hi: int,
)
    requires
        is_sorted(keys, n),
        0 <= lo <= hi <= n,
        forall|i: int|
            0 <= i < lo ==> crate::order::precedes((#[trigger] keys(i))->Ok_0, target),
        forall|i: int|
            hi <= i < n ==> !crate::order::precedes((#[trigger] keys(i))->Ok_0, target),
    ensures
        match lower_bound(keys, target, lo, hi) {
            Ok(bound) => {
                &&& lo <= bound <= hi
                &&& forall|i: int|
                    0 <= i < bound ==> crate::order::precedes((#[trigger] keys(i))->Ok_0, target)
                &&& forall|i: int|
                    bound <= i < n ==> !crate::order::precedes((#[trigger] keys(i))->Ok_0, target)
            },
            Err(_) => false,
        },
    decreases hi - lo,
{
    if lo < hi {
        let mid = lo + (hi - lo) / 2;
        assert(keys(mid) is Ok);
        let key = keys(mid)->Ok_0;
        if crate::order::precedes(key, target) {
            assert forall|i: int| 0 <= i < mid + 1 implies crate::order::precedes(
                (#[trigger] keys(i))->Ok_0,
                target,
            ) by {
                if i < mid {
                    let other = keys(i)->Ok_0;
                    assert(!crate::order::precedes(key, other));
                    crate::order::order_is_total(other, key);
                    if other != key {
                        crate::order::order_is_transitive(other, key, target);
                    }
                }
            }
            lemma_lower_bound_range(keys, target, n, mid + 1, hi);
        } else {
            assert forall|i: int| mid <= i < n implies !crate::order::precedes(
                (#[trigger] keys(i))->Ok_0,
                target,
            ) by {
                if mid < i {
                    let other = keys(i)->Ok_0;
                    assert(!crate::order::precedes(other, key));
                    crate::order::order_is_total(key, other);
                    if other != key && crate::order::precedes(other, target) {
                        crate::order::order_is_transitive(key, other, target);
                    }
                }
            }
            lemma_lower_bound_range(keys, target, n, lo, mid);
        }
    }
}

/// A key in the middle that cannot be read is reported, and one that is looked
/// for is found, whatever the other keys are.
pub proof fn middle_key_is_looked_at(
    keys: spec_fn(int) -> Result<Seq<u8>, ErrorView>,
    target: Seq<u8>,
    lo: int,
    hi: int,
)
    requires
        lo < hi,
    ensures
        keys((lo + hi) / 2) matches Err(error) ==> bisect(keys, target, lo, hi) == Err::<
            Option<int>,
            ErrorView,
        >(error) && lower_bound(keys, target, lo, hi) == Err::<int, ErrorView>(error),
        keys((lo + hi) / 2) == Ok::<Seq<u8>, ErrorView>(target) ==> bisect(keys, target, lo, hi)
            == Ok::<Option<int>, ErrorView>(Some((lo + hi) / 2)),
{
    assert(lo + (hi - lo) / 2 == (lo + hi) / 2);
}

} // verus!
