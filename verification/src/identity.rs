//! The order of user identities.
//!
//! Identities are strings, ordered as their UTF-8 bytes are: byte by byte,
//! a proper prefix before its extensions.

use vstd::prelude::*;
use vstd::utf8::{encode_utf8, encode_utf8_decode_utf8};

verus! {

/// The two sequences hold the same bytes at every index below `k`.
pub open spec fn agree_below(a: Seq<u8>, b: Seq<u8>, k: int) -> bool {
    forall|j: int| 0 <= j < k ==> a[j] == b[j]
}

/// `k` shows that `a` comes no later than `b`: the two agree below `k`, and
/// there `a` ends or holds the smaller byte.
pub open spec fn orders_at(a: Seq<u8>, b: Seq<u8>, k: int) -> bool {
    &&& 0 <= k <= a.len()
    &&& k <= b.len()
    &&& agree_below(a, b, k)
    &&& (k == a.len() || (k < b.len() && a[k] < b[k]))
}

/// Lexicographic order of byte strings.
pub open spec fn bytes_le(a: Seq<u8>, b: Seq<u8>) -> bool {
    exists|k: int| orders_at(a, b, k)
}

/// Order of identities: that of their UTF-8 bytes.
pub open spec fn user_le(a: Seq<char>, b: Seq<char>) -> bool {
    bytes_le(encode_utf8(a), encode_utf8(b))
}

/// Every byte string comes no later than itself.
pub proof fn lemma_bytes_le_reflexive(a: Seq<u8>)
    ensures
        bytes_le(a, a),
{
    assert(orders_at(a, a, a.len() as int));
}

/// Two byte strings, each no later than the other, are the same string.
pub proof fn lemma_bytes_le_antisymmetric(a: Seq<u8>, b: Seq<u8>)
    requires
        bytes_le(a, b),
        bytes_le(b, a),
    ensures
        a == b,
{
    let k1 = choose|k: int| orders_at(a, b, k);
    let k2 = choose|k: int| orders_at(b, a, k);
    if k1 < k2 {
        assert(b[k1] == a[k1]);
    } else if k2 < k1 {
        assert(a[k2] == b[k2]);
    }
}

/// The order of byte strings is transitive.
pub proof fn lemma_bytes_le_transitive(a: Seq<u8>, b: Seq<u8>, c: Seq<u8>)
    requires
        bytes_le(a, b),
        bytes_le(b, c),
    ensures
        bytes_le(a, c),
{
    let k1 = choose|k: int| orders_at(a, b, k);
    let k2 = choose|k: int| orders_at(b, c, k);
    if k1 <= k2 {
        if k1 < k2 {
            assert(b[k1] == c[k1]);
        }
        assert(orders_at(a, c, k1));
    } else {
        assert(orders_at(a, c, k2));
    }
}

/// Of two byte strings that agree below `k`, one comes no later than the
/// other.
proof fn lemma_bytes_le_total_from(a: Seq<u8>, b: Seq<u8>, k: int)
    requires
        0 <= k <= a.len(),
        k <= b.len(),
        agree_below(a, b, k),
    ensures
        bytes_le(a, b) || bytes_le(b, a),
    decreases a.len() - k,
{
    if k == a.len() {
        assert(orders_at(a, b, k));
    } else if k == b.len() {
        assert(orders_at(b, a, k));
    } else if a[k] < b[k] {
        assert(orders_at(a, b, k));
    } else if b[k] < a[k] {
        assert(orders_at(b, a, k));
    } else {
        lemma_bytes_le_total_from(a, b, k + 1);
    }
}

/// Any two byte strings are ordered one way or the other.
pub proof fn lemma_bytes_le_total(a: Seq<u8>, b: Seq<u8>)
    ensures
        bytes_le(a, b) || bytes_le(b, a),
{
    lemma_bytes_le_total_from(a, b, 0);
}

/// Two identities, each no later than the other, are the same identity.
pub proof fn lemma_user_le_antisymmetric(a: Seq<char>, b: Seq<char>)
    requires
        user_le(a, b),
        user_le(b, a),
    ensures
        a == b,
{
    lemma_bytes_le_antisymmetric(encode_utf8(a), encode_utf8(b));
    encode_utf8_decode_utf8(a);
    encode_utf8_decode_utf8(b);
}

/// Tells whether `a` comes no later than `b` in the order of identities.
pub fn user_le_exec(a: &String, b: &String) -> (r: bool)
    ensures
        r == user_le(a@, b@),
{
    let x = a.as_str().as_bytes();
    let y = b.as_str().as_bytes();
    let mut i: usize = 0;
    while i < x.len() && i < y.len()
        invariant
            i <= x.len(),
            i <= y.len(),
            x@ == encode_utf8(a@),
            y@ == encode_utf8(b@),
            agree_below(x@, y@, i as int),
        decreases x.len() - i,
    {
        if x[i] < y[i] {
            assert(orders_at(x@, y@, i as int));
            return true;
        }
        if x[i] > y[i] {
            assert forall|k: int| !orders_at(x@, y@, k) by {
                if orders_at(x@, y@, k) && k > i {
                    assert(x@[i as int] == y@[i as int]);
                }
            }
            return false;
        }
        i += 1;
    }
    if i == x.len() {
        assert(orders_at(x@, y@, i as int));
        true
    } else {
        assert forall|k: int| !orders_at(x@, y@, k) by {
            if orders_at(x@, y@, k) && k < i {
                assert(x@[k] == y@[k]);
            }
        }
        false
    }
}

} // verus!
