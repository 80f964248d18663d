//! The order of endpoint keys.
//!
//! Endpoints are told apart and sorted by their canonical text. Two texts
//! compare as their UTF-8 encodings do, byte by byte, which is the order of
//! `str` and `String`.

use vstd::prelude::*;
use vstd::utf8::*;

verus! {

/// The first `k` bytes of `a` and `b` are the same.
pub open spec fn agree_before(a: Seq<u8>, b: Seq<u8>, k: int) -> bool {
    &&& 0 <= k <= a.len()
    &&& k <= b.len()
    &&& forall|j: int| 0 <= j < k ==> a[j] == b[j]
}

/// `a` and `b` agree before position `k`, and there `a` ends or holds the smaller byte.
pub open spec fn less_at(a: Seq<u8>, b: Seq<u8>, k: int) -> bool {
    &&& agree_before(a, b, k)
    &&& k < b.len()
    &&& (k == a.len() || a[k] < b[k])
}

/// Strict lexicographic order on byte strings.
pub open spec fn bytes_less(a: Seq<u8>, b: Seq<u8>) -> bool {
    exists|k: int| #[trigger] less_at(a, b, k)
}

/// Strict order on keys: the order of their UTF-8 encodings.
pub open spec fn key_less(a: Seq<char>, b: Seq<char>) -> bool {
    bytes_less(encode_utf8(a), encode_utf8(b))
}

/// Every key is less than all keys after it.
pub open spec fn ascending(keys: Seq<Seq<char>>) -> bool {
    forall|i: int, j: int| 0 <= i < j < keys.len() ==> key_less(#[trigger] keys[i], #[trigger] keys[j])
}

/// How many of `keys` are less than `key`.
pub open spec fn count_less(keys: Seq<Seq<char>>, key: Seq<char>) -> nat
    decreases keys.len(),
{
    if keys.len() == 0 {
        0
    } else {
        count_less(keys.drop_last(), key) + if key_less(keys.last(), key) {
            1nat
        } else {
            0nat
        }
    }
}

pub proof fn lemma_bytes_less_irreflexive(a: Seq<u8>)
    ensures
        !bytes_less(a, a),
{
    if bytes_less(a, a) {
        let k = choose|k: int| #[trigger] less_at(a, a, k);
        assert(less_at(a, a, k));
    }
}

pub proof fn lemma_bytes_less_transitive(a: Seq<u8>, b: Seq<u8>, c: Seq<u8>)
    requires
        bytes_less(a, b),
        bytes_less(b, c),
    ensures
        bytes_less(a, c),
{
    let k1 = choose|k: int| #[trigger] less_at(a, b, k);
    let k2 = choose|k: int| #[trigger] less_at(b, c, k);
    if k1 <= k2 {
        assert(less_at(a, c, k1));
    } else {
        assert(less_at(a, c, k2));
    }
}

/// Two byte strings that agree before `k` and are not equal are ordered one way or the other.
proof fn lemma_bytes_differ_from(a: Seq<u8>, b: Seq<u8>, k: int)
    requires
        agree_before(a, b, k),
        a != b,
    ensures
        bytes_less(a, b) || bytes_less(b, a),
    decreases a.len() - k,
{
    if k == a.len() && k == b.len() {
        assert(a =~= b);
    } else if k == a.len() {
        assert(less_at(a, b, k));
    } else if k == b.len() {
        assert(less_at(b, a, k));
    } else if a[k] < b[k] {
        assert(less_at(a, b, k));
    } else if b[k] < a[k] {
        assert(less_at(b, a, k));
    } else {
        lemma_bytes_differ_from(a, b, k + 1);
    }
}

pub proof fn lemma_bytes_less_connected(a: Seq<u8>, b: Seq<u8>)
    requires
        a != b,
    ensures
        bytes_less(a, b) || bytes_less(b, a),
{
    lemma_bytes_differ_from(a, b, 0);
}

/// No key is less than itself.
pub proof fn lemma_key_less_irreflexive(a: Seq<char>)
    ensures
        !key_less(a, a),
{
    lemma_bytes_less_irreflexive(encode_utf8(a));
}

/// The order of keys is transitive.
pub proof fn lemma_key_less_transitive(a: Seq<char>, b: Seq<char>, c: Seq<char>)
    requires
        key_less(a, b),
        key_less(b, c),
    ensures
        key_less(a, c),
{
    lemma_bytes_less_transitive(encode_utf8(a), encode_utf8(b), encode_utf8(c));
}

/// Two different keys are ordered one way or the other.
pub proof fn lemma_key_less_connected(a: Seq<char>, b: Seq<char>)
    requires
        a != b,
    ensures
        key_less(a, b) || key_less(b, a),
{
    encode_utf8_decode_utf8(a);
    encode_utf8_decode_utf8(b);
    lemma_bytes_less_connected(encode_utf8(a), encode_utf8(b));
}

/// How two keys stand to each other.
#[derive(Clone, Copy, Debug, PartialEq, Eq, Structural)]
pub enum KeyOrder {
    /// The first key is the smaller one.
    Before,
    /// The keys are the same text.
    Same,
    /// The first key is the larger one.
    After,
}

/// Compares two keys by their bytes.
pub fn key_order(a: &str, b: &str) -> (order: KeyOrder)
    ensures
        order is Before <==> key_less(a@, b@),
        order is Same <==> a@ == b@,
        order is After <==> key_less(b@, a@),
{
    let x = a.as_bytes();
    let y = b.as_bytes();
    let mut i: usize = 0;
    while i < x.len() && i < y.len() && x[i] == y[i]
        invariant
            agree_before(x@, y@, i as int),
        decreases x.len() - i,
    {
        i = i + 1;
    }
    proof {
        encode_utf8_decode_utf8(a@);
        encode_utf8_decode_utf8(b@);
        lemma_bytes_less_irreflexive(x@);
    }
    if i == x.len() && i == y.len() {
        assert(x@ =~= y@);
        KeyOrder::Same
    } else if i == x.len() || (i < y.len() && x[i] < y[i]) {
        assert(less_at(x@, y@, i as int));
        proof {
            if bytes_less(y@, x@) {
                lemma_bytes_less_transitive(x@, y@, x@);
            }
        }
        KeyOrder::Before
    } else {
        assert(less_at(y@, x@, i as int));
        proof {
            if bytes_less(x@, y@) {
                lemma_bytes_less_transitive(x@, y@, x@);
            }
        }
        KeyOrder::After
    }
}

} // verus!
