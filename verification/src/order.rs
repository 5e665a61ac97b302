//! Ordinal comparison of strings: by the bytes of their UTF-8 encoding, the
//! order in which lexicographically sortable timestamps and tags are ranked.

use vstd::prelude::*;
use vstd::string::*;
use vstd::utf8::*;

verus! {

/// `a` and `b` hold the same bytes at every offset below `k`.
pub open spec fn agree_before(a: Seq<u8>, b: Seq<u8>, k: int) -> bool {
    &&& 0 <= k <= a.len()
    &&& k <= b.len()
    &&& forall|i: int| 0 <= i < k ==> a[i] == b[i]
}

/// Offset `k` decides that `a` comes before `b`: the two agree before it, and
/// at `k` either `a` has ended while `b` goes on, or `a` holds the smaller
/// byte.
pub open spec fn less_at(a: Seq<u8>, b: Seq<u8>, k: int) -> bool {
    &&& agree_before(a, b, k)
    &&& k < b.len()
    &&& (k == a.len() || a[k] < b[k])
}

/// Lexicographic order on byte sequences.
pub open spec fn bytes_lt(a: Seq<u8>, b: Seq<u8>) -> bool {
    exists|k: int| less_at(a, b, k)
}

/// Ordinal order on strings: lexicographic on UTF-8 bytes.
pub open spec fn str_lt(a: Seq<char>, b: Seq<char>) -> bool {
    bytes_lt(encode_utf8(a), encode_utf8(b))
}

/// No byte sequence comes both before and after another.
pub proof fn lemma_bytes_lt_asymmetric(a: Seq<u8>, b: Seq<u8>)
    requires
        bytes_lt(a, b),
    ensures
        !bytes_lt(b, a),
{
    let k = choose|k: int| less_at(a, b, k);
    if bytes_lt(b, a) {
        let j = choose|j: int| less_at(b, a, j);
        if k < j {
            assert(a[k] == b[k]);
        } else if j < k {
            assert(a[j] == b[j]);
        }
    }
}

/// The order is transitive.
pub proof fn lemma_bytes_lt_transitive(a: Seq<u8>, b: Seq<u8>, c: Seq<u8>)
    requires
        bytes_lt(a, b),
        bytes_lt(b, c),
    ensures
        bytes_lt(a, c),
{
    let k = choose|k: int| less_at(a, b, k);
    let j = choose|j: int| less_at(b, c, j);
    let m = if k <= j { k } else { j };
    assert(agree_before(a, c, m)) by {
        assert forall|i: int| 0 <= i < m implies a[i] == c[i] by {
            assert(a[i] == b[i]);
            assert(b[i] == c[i]);
        }
    }
    if k < j {
        assert(b[k] == c[k]);
    }
    assert(less_at(a, c, m));
}

/// Either the two sequences agree on their first `k` bytes, or an offset
/// below `k` already decides which comes first.
proof fn lemma_decided_or_agree(a: Seq<u8>, b: Seq<u8>, k: int)
    requires
        0 <= k <= a.len(),
        k <= b.len(),
    ensures
        agree_before(a, b, k) || bytes_lt(a, b) || bytes_lt(b, a),
    decreases k,
{
    if k > 0 {
        lemma_decided_or_agree(a, b, k - 1);
        if agree_before(a, b, k - 1) {
            if a[k - 1] < b[k - 1] {
                assert(less_at(a, b, k - 1));
            } else if b[k - 1] < a[k - 1] {
                assert(agree_before(b, a, k - 1));
                assert(less_at(b, a, k - 1));
            }
        }
    }
}

/// Any two byte sequences are equal or ranked one way or the other.
pub proof fn lemma_bytes_lt_total(a: Seq<u8>, b: Seq<u8>)
    ensures
        bytes_lt(a, b) || a == b || bytes_lt(b, a),
{
    let m = if a.len() <= b.len() { a.len() as int } else { b.len() as int };
    lemma_decided_or_agree(a, b, m);
    if agree_before(a, b, m) {
        if a.len() < b.len() {
            assert(less_at(a, b, m));
        } else if b.len() < a.len() {
            assert(agree_before(b, a, m));
            assert(less_at(b, a, m));
        } else {
            assert(a =~= b);
        }
    }
}

/// Strings with the same UTF-8 bytes are the same string.
pub proof fn lemma_encoding_injective(a: Seq<char>, b: Seq<char>)
    requires
        encode_utf8(a) == encode_utf8(b),
    ensures
        a == b,
{
    encode_utf8_decode_utf8(a);
    encode_utf8_decode_utf8(b);
}

/// The ordinal order is a strict total order on strings: nothing comes before
/// itself, the order is transitive, and two different strings are always
/// ranked.
pub proof fn lemma_str_lt_strict_total(a: Seq<char>, b: Seq<char>, c: Seq<char>)
    ensures
        !str_lt(a, a),
        str_lt(a, b) ==> !str_lt(b, a),
        str_lt(a, b) && str_lt(b, c) ==> str_lt(a, c),
        str_lt(a, b) || a == b || str_lt(b, a),
{
    let (x, y, z) = (encode_utf8(a), encode_utf8(b), encode_utf8(c));
    if bytes_lt(x, x) {
        lemma_bytes_lt_asymmetric(x, x);
    }
    if bytes_lt(x, y) {
        lemma_bytes_lt_asymmetric(x, y);
        if bytes_lt(y, z) {
            lemma_bytes_lt_transitive(x, y, z);
        }
    }
    lemma_bytes_lt_total(x, y);
    if x == y {
        lemma_encoding_injective(a, b);
    }
}

/// Whether `a` comes before `b` in lexicographic byte order.
pub fn bytes_less(a: &[u8], b: &[u8]) -> (result: bool)
    ensures
        result == bytes_lt(a@, b@),
{
    let mut i: usize = 0;
    while i < a.len() && i < b.len()
        invariant
            agree_before(a@, b@, i as int),
        decreases a.len() - i,
    {
        if a[i] != b[i] {
            proof {
                if a[i as int] < b[i as int] {
                    assert(less_at(a@, b@, i as int));
                } else {
                    assert(agree_before(b@, a@, i as int));
                    assert(less_at(b@, a@, i as int));
                    lemma_bytes_lt_asymmetric(b@, a@);
                }
            }
            return a[i] < b[i];
        }
        i += 1;
    }
    proof {
        if i < b.len() {
            assert(less_at(a@, b@, i as int));
        } else {
            assert forall|k: int| !less_at(a@, b@, k) by {
                if less_at(a@, b@, k) {
                    assert(a@[k] == b@[k]);
                }
            }
        }
    }
    i < b.len()
}

/// Whether `a` comes before `b` in ordinal string order.
pub fn str_less(a: &str, b: &str) -> (result: bool)
    ensures
        result == str_lt(a@, b@),
{
    bytes_less(a.as_bytes(), b.as_bytes())
}

} // verus!
