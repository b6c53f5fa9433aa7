//! Byte strings as sequences: where two of them first differ, whether they
//! are equal, and which comes first.

use vstd::prelude::*;

verus! {

/// Whether `a` and `b` hold the same byte at every place before `k`.
pub open spec fn agree_before(a: Seq<u8>, b: Seq<u8>, k: int) -> bool {
    forall|j: int| 0 <= j < k ==> a[j] == b[j]
}

/// Whether `k` is the first place at which `a` and `b` differ: a place
/// where their bytes differ or where one of them has ended.
pub open spec fn first_difference(a: Seq<u8>, b: Seq<u8>, k: int) -> bool {
    &&& 0 <= k <= a.len()
    &&& k <= b.len()
    &&& agree_before(a, b, k)
    &&& k < a.len() && k < b.len() ==> a[k] != b[k]
}

/// Whether `a` comes before `b` in lexicographic order: at some place up to
/// which they agree, `a` has the smaller byte, or has ended while `b` goes
/// on.
pub open spec fn precedes(a: Seq<u8>, b: Seq<u8>) -> bool {
    exists|k: int|
        #![trigger agree_before(a, b, k)]
        0 <= k <= a.len() && k < b.len() && agree_before(a, b, k) && (k < a.len() ==> a[k]
            < b[k])
}

/// Two byte strings differ first at one place only, and that place decides
/// both whether they are equal and which of them comes first.
pub proof fn lemma_first_difference(a: Seq<u8>, b: Seq<u8>, k: int)
    requires
        first_difference(a, b, k),
    ensures
        forall|m: int| first_difference(a, b, m) ==> m == k,
        (a == b) == (k == a.len() && k == b.len()),
        precedes(a, b) == (k < b.len() && (k < a.len() ==> a[k] < b[k])),
        precedes(b, a) == (k < a.len() && (k < b.len() ==> b[k] < a[k])),
{
    assert forall|m: int| first_difference(a, b, m) implies m == k by {
        if m < k {
            assert(a[m] == b[m]);
        } else if k < m {
            assert(a[k] == b[k]);
        }
    }
    if k == a.len() && k == b.len() {
        assert(a =~= b);
    }
    if precedes(a, b) {
        let m = choose|m: int|
            #![trigger agree_before(a, b, m)]
            0 <= m <= a.len() && m < b.len() && agree_before(a, b, m) && (m < a.len() ==> a[m]
                < b[m]);
        if m < k {
            assert(a[m] == b[m]);
        } else if k < m {
            assert(a[k] == b[k]);
        }
    }
    assert(agree_before(b, a, k)) by {
        assert forall|j: int| 0 <= j < k implies b[j] == a[j] by {
            assert(a[j] == b[j]);
        }
    }
    if precedes(b, a) {
        let m = choose|m: int|
            #![trigger agree_before(b, a, m)]
            0 <= m <= b.len() && m < a.len() && agree_before(b, a, m) && (m < b.len() ==> b[m]
                < a[m]);
        if m < k {
            assert(a[m] == b[m]);
        } else if k < m {
            assert(b[k] == a[k]);
        }
    }
}

/// Of two byte strings exactly one holds: they are equal, the first comes
/// before the second, or the second before the first.
pub proof fn lemma_trichotomy(a: Seq<u8>, b: Seq<u8>)
    ensures
        a == b || precedes(a, b) || precedes(b, a),
        !(a == b && precedes(a, b)),
        !(a == b && precedes(b, a)),
        !(precedes(a, b) && precedes(b, a)),
{
    let k = lemma_differ_from(a, b, 0);
    lemma_first_difference(a, b, k);
}

/// What comes before a byte string comes before all that it comes before.
pub proof fn lemma_precedes_transitive(a: Seq<u8>, b: Seq<u8>, c: Seq<u8>)
    requires
        precedes(a, b),
        precedes(b, c),
    ensures
        precedes(a, c),
{
    let i = choose|k: int|
        #![trigger agree_before(a, b, k)]
        0 <= k <= a.len() && k < b.len() && agree_before(a, b, k) && (k < a.len() ==> a[k]
            < b[k]);
    let j = choose|k: int|
        #![trigger agree_before(b, c, k)]
        0 <= k <= b.len() && k < c.len() && agree_before(b, c, k) && (k < b.len() ==> b[k]
            < c[k]);
    let k = if i <= j {
        i
    } else {
        j
    };
    assert(agree_before(a, c, k)) by {
        assert forall|m: int| 0 <= m < k implies a[m] == c[m] by {
            assert(a[m] == b[m] && b[m] == c[m]);
        }
    }
    if i < j {
        assert(b[i] == c[i]);
    } else if j < i {
        assert(a[j] == b[j]);
    }
}

/// Two byte strings that agree before `from` differ first at some place
/// from there on.
proof fn lemma_differ_from(a: Seq<u8>, b: Seq<u8>, from: int) -> (k: int)
    requires
        0 <= from <= a.len(),
        from <= b.len(),
        agree_before(a, b, from),
    ensures
        first_difference(a, b, k),
    decreases a.len() - from,
{
    if from < a.len() && from < b.len() && a[from] == b[from] {
        lemma_differ_from(a, b, from + 1)
    } else {
        from
    }
}

/// The first place at which `a` and `b` differ.
pub fn mismatch(a: &[u8], b: &[u8]) -> (k: usize)
    ensures
        first_difference(a@, b@, k as int),
        (a@ == b@) == (k == a@.len() && k == b@.len()),
        precedes(a@, b@) == (k < b@.len() && (k < a@.len() ==> a@[k as int] < b@[k as int])),
        precedes(b@, a@) == (k < a@.len() && (k < b@.len() ==> b@[k as int] < a@[k as int])),
{
    let mut k: usize = 0;
    while k < a.len() && k < b.len() && a[k] == b[k]
        invariant
            k <= a@.len(),
            k <= b@.len(),
            agree_before(a@, b@, k as int),
        decreases a@.len() - k,
    {
        k += 1;
    }
    proof {
        lemma_first_difference(a@, b@, k as int);
    }
    k
}

/// Whether two byte slices hold the same bytes.
pub fn bytes_eq(a: &[u8], b: &[u8]) -> (equal: bool)
    ensures
        equal == (a@ == b@),
{
    if a.len() != b.len() {
        return false;
    }
    mismatch(a, b) == a.len()
}

/// Whether `a` comes before `b` in lexicographic order.
pub fn bytes_lt(a: &[u8], b: &[u8]) -> (before: bool)
    ensures
        before == precedes(a@, b@),
{
    let k = mismatch(a, b);
    k < b.len() && (k == a.len() || a[k] < b[k])
}

} // verus!
