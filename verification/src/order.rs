//! The order of byte strings: lexicographic, as the pointer lists are sorted.
use vstd::prelude::*;

verus! {

/// How one byte string stands to another.
#[derive(Debug, Clone, Copy, PartialEq, Eq, Structural)]
pub enum Order {
    Before,
    Same,
    After,
}

/// The first position at or after `i` where `a` and `b` differ or one of them
/// ends.
pub open spec fn first_difference(a: Seq<u8>, b: Seq<u8>, i: int) -> int
    decreases a.len() - i,
{
    if i < a.len() && i < b.len() && a[i] == b[i] {
        first_difference(a, b, i + 1)
    } else {
        i
    }
}

/// Whether `a` comes strictly before `b`: at the first difference, `a` has the
/// smaller byte or ends while `b` goes on.
pub open spec fn precedes(a: Seq<u8>, b: Seq<u8>) -> bool {
    let d = first_difference(a, b, 0);
    d < b.len() && (d >= a.len() || a[d] < b[d])
}

/// What [`first_difference`] finds.
pub proof fn lemma_first_difference(a: Seq<u8>, b: Seq<u8>, i: int)
    requires
        0 <= i <= a.len(),
        i <= b.len(),
    ensures
        i <= first_difference(a, b, i) <= a.len(),
        first_difference(a, b, i) <= b.len(),
        forall|j: int| i <= j < first_difference(a, b, i) ==> a[j] == b[j],
        ({
            let d = first_difference(a, b, i);
            d < a.len() && d < b.len() ==> a[d] != b[d]
        }),
    decreases a.len() - i,
{
    if i < a.len() && i < b.len() && a[i] == b[i] {
        lemma_first_difference(a, b, i + 1);
    }
}

/// Of two byte strings, exactly one of three holds: the first comes before the
/// second, they are the same, or the second comes before the first.
pub proof fn order_is_total(a: Seq<u8>, b: Seq<u8>)
    ensures
        precedes(a, b) || a == b || precedes(b, a),
        !(precedes(a, b) && precedes(b, a)),
        precedes(a, b) ==> a != b,
{
    lemma_first_difference(a, b, 0);
    lemma_first_difference(b, a, 0);
    if !precedes(a, b) && !precedes(b, a) {
        assert(a =~= b);
    }
}

/// What comes before something that comes before a third comes before the
/// third.
pub proof fn order_is_transitive(a: Seq<u8>, b: Seq<u8>, c: Seq<u8>)
    requires
        precedes(a, b),
        precedes(b, c),
    ensures
        precedes(a, c),
{
    lemma_first_difference(a, b, 0);
    lemma_first_difference(b, c, 0);
    lemma_first_difference(a, c, 0);
}

/// A byte string comes before, or is the same as, every one that starts with
/// it.
pub proof fn prefix_is_not_after(p: Seq<u8>, a: Seq<u8>)
    requires
        p.is_prefix_of(a),
    ensures
        !precedes(a, p),
{
    lemma_first_difference(a, p, 0);
    assert(forall|j: int| 0 <= j < p.len() ==> a[j] == p[j]);
}

/// The byte strings that start with `p` stand together: what comes after one
/// that does not start with `p` and is not before `p` does not start with `p`
/// either.
pub proof fn prefix_run_is_contiguous(p: Seq<u8>, a: Seq<u8>, b: Seq<u8>)
    requires
        !precedes(a, p),
        !p.is_prefix_of(a),
        !precedes(b, a),
    ensures
        !p.is_prefix_of(b),
{
    lemma_first_difference(a, p, 0);
    lemma_first_difference(b, a, 0);
    if p.is_prefix_of(b) {
        assert(forall|j: int| 0 <= j < p.len() ==> b[j] == p[j]);
        let d = first_difference(a, p, 0);
        if d == p.len() {
            assert(p =~= a.subrange(0, p.len() as int));
        }
    }
}

/// Tells how `a` stands to `b`.
pub fn compare(a: &[u8], b: &[u8]) -> (order: Order)
    ensures
        match order {
            Order::Before => precedes(a@, b@),
            Order::Same => a@ == b@,
            Order::After => precedes(b@, a@),
        },
{
    let mut i: usize = 0;
    while i < a.len() && i < b.len() && a[i] == b[i]
        invariant
            i <= a@.len(),
            i <= b@.len(),
            first_difference(a@, b@, 0) == first_difference(a@, b@, i as int),
            first_difference(b@, a@, 0) == first_difference(b@, a@, i as int),
        decreases a@.len() - i,
    {
        i = i + 1;
    }
    proof {
        lemma_first_difference(a@, b@, 0);
    }
    if i == a.len() && i == b.len() {
        assert(a@ =~= b@);
        Order::Same
    } else if i == a.len() || (i < b.len() && a[i] < b[i]) {
        Order::Before
    } else {
        Order::After
    }
}

/// Tells whether `a` starts with `p`.
pub fn starts_with(a: &[u8], p: &[u8]) -> (yes: bool)
    ensures
        yes == p@.is_prefix_of(a@),
{
    if p.len() > a.len() {
        return false;
    }
    let mut i: usize = 0;
    while i < p.len()
        invariant
            i <= p@.len() <= a@.len(),
            forall|j: int| 0 <= j < i ==> a@[j] == p@[j],
        decreases p@.len() - i,
    {
        if a[i] != p[i] {
            assert(a@.subrange(0, p@.len() as int)[i as int] != p@[i as int]);
            return false;
        }
        i = i + 1;
    }
    assert(p@ =~= a@.subrange(0, p@.len() as int));
    true
}

/// The order is that of the bytes as numbers: one byte string comes before
/// another exactly if they are the same up to some position, where the first
/// ends and the other goes on, or has the smaller byte.
pub proof fn order_is_lexicographic(a: Seq<u8>, b: Seq<u8>)
    ensures
        precedes(a, b) <==> exists|d: int|
            {
                &&& 0 <= d <= a.len()
                &&& d < b.len()
                &&& #[trigger] a.take(d) == b.take(d)
                &&& d < a.len() ==> a[d] < b[d]
            },
{
    lemma_first_difference(a, b, 0);
    let first = first_difference(a, b, 0);
    if precedes(a, b) {
        assert(a.take(first) =~= b.take(first));
    }
    if exists|d: int|
        0 <= d <= a.len() && d < b.len() && #[trigger] a.take(d) == b.take(d) && (d < a.len()
            ==> a[d] < b[d]) {
        let d = choose|d: int|
            0 <= d <= a.len() && d < b.len() && #[trigger] a.take(d) == b.take(d) && (d < a.len()
                ==> a[d] < b[d]);
        assert forall|j: int| 0 <= j < d implies a[j] == b[j] by {
            assert(a.take(d)[j] == b.take(d)[j]);
        }
        assert(first == d);
    }
}

} // verus!
