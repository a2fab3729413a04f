//! The byte-wise lexicographic order on keys.
//!
//! Keys are plain byte strings. One key comes before another when it is a
//! proper prefix of it, or when, at the first position where the two differ,
//! it holds the smaller byte. Every scan and every range bound in this crate is
//! stated over this order.

use vstd::prelude::*;

verus! {

/// `a` comes strictly before `b` in byte-wise lexicographic order.
pub open spec fn key_lt(a: Seq<u8>, b: Seq<u8>) -> bool
    decreases a.len(),
{
    if b.len() == 0 {
        false
    } else if a.len() == 0 {
        true
    } else if a[0] != b[0] {
        a[0] < b[0]
    } else {
        key_lt(a.drop_first(), b.drop_first())
    }
}

/// `a` comes before `b`, or is the same key.
pub open spec fn key_le(a: Seq<u8>, b: Seq<u8>) -> bool {
    a == b || key_lt(a, b)
}

/// How one key stands to another.
#[derive(Clone, Copy, Debug, PartialEq, Eq, Structural)]
pub enum Side {
    /// The first key comes strictly before the second.
    Before,
    /// Both are the same key.
    Same,
    /// The first key comes strictly after the second.
    After,
}

/// No key comes before itself.
pub proof fn lemma_key_lt_irreflexive(a: Seq<u8>)
    ensures
        !key_lt(a, a),
    decreases a.len(),
{
    if a.len() > 0 {
        lemma_key_lt_irreflexive(a.drop_first());
    }
}

/// Two keys cannot each come before the other.
pub proof fn lemma_key_lt_asymmetric(a: Seq<u8>, b: Seq<u8>)
    requires
        key_lt(a, b),
    ensures
        !key_lt(b, a),
    decreases a.len(),
{
    if a.len() > 0 && b.len() > 0 && a[0] == b[0] {
        lemma_key_lt_asymmetric(a.drop_first(), b.drop_first());
    }
}

/// The order is transitive.
pub proof fn lemma_key_lt_transitive(a: Seq<u8>, b: Seq<u8>, c: Seq<u8>)
    requires
        key_lt(a, b),
        key_lt(b, c),
    ensures
        key_lt(a, c),
    decreases a.len(),
{
    if a.len() > 0 && b.len() > 0 && c.len() > 0 && a[0] == b[0] && b[0] == c[0] {
        lemma_key_lt_transitive(a.drop_first(), b.drop_first(), c.drop_first());
    }
}

/// Any two different keys are ordered one way or the other.
pub proof fn lemma_key_lt_connected(a: Seq<u8>, b: Seq<u8>)
    requires
        a != b,
    ensures
        key_lt(a, b) || key_lt(b, a),
    decreases a.len(),
{
    if a.len() > 0 && b.len() > 0 && a[0] == b[0] {
        if a.drop_first() == b.drop_first() {
            assert(a =~= seq![a[0]] + a.drop_first());
            assert(b =~= seq![b[0]] + b.drop_first());
        }
        lemma_key_lt_connected(a.drop_first(), b.drop_first());
    } else if a.len() == 0 && b.len() == 0 {
        assert(a =~= b);
    }
}

/// Exactly one of "before", "same" and "after" holds of any two keys.
pub proof fn lemma_key_trichotomy(a: Seq<u8>, b: Seq<u8>)
    ensures
        key_lt(a, b) || a == b || key_lt(b, a),
        !(key_lt(a, b) && a == b),
        !(key_lt(b, a) && a == b),
        !(key_lt(a, b) && key_lt(b, a)),
{
    lemma_key_lt_irreflexive(a);
    if a != b {
        lemma_key_lt_connected(a, b);
    }
    if key_lt(a, b) {
        lemma_key_lt_asymmetric(a, b);
    }
}

/// `key_le` is transitive, and strict as soon as one of its two steps is.
pub proof fn lemma_key_le_transitive(a: Seq<u8>, b: Seq<u8>, c: Seq<u8>)
    requires
        key_le(a, b),
        key_le(b, c),
    ensures
        key_le(a, c),
        key_lt(a, b) || key_lt(b, c) ==> key_lt(a, c),
{
    if key_lt(a, b) && key_lt(b, c) {
        lemma_key_lt_transitive(a, b, c);
    }
}

/// Two keys that agree on their first `n` bytes compare as their remainders do.
pub proof fn lemma_key_lt_skips_common_prefix(a: Seq<u8>, b: Seq<u8>, n: int)
    requires
        0 <= n <= a.len(),
        n <= b.len(),
        forall|j: int| 0 <= j < n ==> a[j] == b[j],
    ensures
        key_lt(a, b) == key_lt(a.skip(n), b.skip(n)),
    decreases n,
{
    if n == 0 {
        assert(a.skip(0) =~= a);
        assert(b.skip(0) =~= b);
    } else {
        let ra = a.drop_first();
        let rb = b.drop_first();
        assert forall|j: int| 0 <= j < n - 1 implies ra[j] == rb[j] by {
            assert(ra[j] == a[j + 1]);
            assert(rb[j] == b[j + 1]);
        }
        lemma_key_lt_skips_common_prefix(ra, rb, n - 1);
        assert(ra.skip(n - 1) =~= a.skip(n));
        assert(rb.skip(n - 1) =~= b.skip(n));
    }
}

/// Compares two keys byte by byte.
pub fn compare(a: &[u8], b: &[u8]) -> (side: Side)
    ensures
        side == Side::Before <==> key_lt(a@, b@),
        side == Side::Same <==> a@ == b@,
        side == Side::After <==> key_lt(b@, a@),
{
    proof {
        lemma_key_trichotomy(a@, b@);
    }
    let mut i: usize = 0;
    while i < a.len() && i < b.len()
        invariant
            i <= a.len(),
            i <= b.len(),
            forall|j: int| 0 <= j < i ==> a@[j] == b@[j],
        decreases a.len() - i,
    {
        if a[i] != b[i] {
            proof {
                lemma_key_lt_skips_common_prefix(a@, b@, i as int);
                lemma_key_lt_skips_common_prefix(b@, a@, i as int);
            }
            if a[i] < b[i] {
                return Side::Before;
            } else {
                return Side::After;
            }
        }
        i += 1;
    }
    proof {
        lemma_key_lt_skips_common_prefix(a@, b@, i as int);
        lemma_key_lt_skips_common_prefix(b@, a@, i as int);
    }
    if a.len() < b.len() {
        Side::Before
    } else if a.len() > b.len() {
        Side::After
    } else {
        proof {
            assert(a@ =~= b@);
        }
        Side::Same
    }
}

} // verus!
