//! Counter names and their order.
//!
//! A counter name is a string. Names are ordered by the bytes of their
//! UTF-8 encoding, compared lexicographically.

use vstd::prelude::*;
use vstd::utf8::*;

verus! {

/// The outcome of comparing two names.
#[derive(Clone, Copy, Debug, PartialEq, Eq, Structural)]
pub enum Rank {
    Before,
    Same,
    After,
}

/// `a` and `b` hold the same bytes at every index below `n`.
pub open spec fn agree_below(a: Seq<u8>, b: Seq<u8>, n: int) -> bool {
    forall|j: int| 0 <= j < n ==> a[j] == b[j]
}

/// `a` sorts before `b`, and index `i` shows it: the two agree below `i`, and
/// there `a` has ended or holds the smaller byte.
pub open spec fn precedes_at(a: Seq<u8>, b: Seq<u8>, i: int) -> bool {
    &&& 0 <= i <= a.len()
    &&& i < b.len()
    &&& agree_below(a, b, i)
    &&& (i == a.len() || a[i] < b[i])
}

/// Strict lexicographic order on byte strings.
pub open spec fn bytes_lt(a: Seq<u8>, b: Seq<u8>) -> bool {
    exists|i: int| precedes_at(a, b, i)
}

/// Strict order on names: lexicographic order of their UTF-8 bytes.
pub open spec fn name_lt(a: Seq<char>, b: Seq<char>) -> bool {
    bytes_lt(encode_utf8(a), encode_utf8(b))
}

/// No byte string sorts before itself.
pub proof fn lemma_bytes_lt_irreflexive(a: Seq<u8>)
    ensures
        !bytes_lt(a, a),
{
}

/// The byte order is transitive.
pub proof fn lemma_bytes_lt_transitive(a: Seq<u8>, b: Seq<u8>, c: Seq<u8>)
    requires
        bytes_lt(a, b),
        bytes_lt(b, c),
    ensures
        bytes_lt(a, c),
{
    let i = choose|i: int| precedes_at(a, b, i);
    let j = choose|j: int| precedes_at(b, c, j);
    let k = if i <= j { i } else { j };
    assert(precedes_at(a, c, k));
}

/// Of two byte strings at most one sorts before the other.
pub proof fn lemma_bytes_lt_asymmetric(a: Seq<u8>, b: Seq<u8>)
    requires
        bytes_lt(a, b),
    ensures
        !bytes_lt(b, a),
{
    if bytes_lt(b, a) {
        lemma_bytes_lt_transitive(a, b, a);
        lemma_bytes_lt_irreflexive(a);
    }
}

proof fn lemma_bytes_total_from(a: Seq<u8>, b: Seq<u8>, k: int)
    requires
        0 <= k <= a.len(),
        k <= b.len(),
        agree_below(a, b, k),
    ensures
        a == b || bytes_lt(a, b) || bytes_lt(b, a),
    decreases a.len() - k,
{
    if k == a.len() {
        if k == b.len() {
            assert(a =~= b);
        } else {
            assert(precedes_at(a, b, k));
        }
    } else if k == b.len() {
        assert(agree_below(b, a, k));
        assert(precedes_at(b, a, k));
    } else if a[k] < b[k] {
        assert(precedes_at(a, b, k));
    } else if b[k] < a[k] {
        assert(agree_below(b, a, k));
        assert(precedes_at(b, a, k));
    } else {
        lemma_bytes_total_from(a, b, k + 1);
    }
}

/// Two different byte strings are ordered one way or the other.
pub proof fn lemma_bytes_lt_total(a: Seq<u8>, b: Seq<u8>)
    ensures
        a == b || bytes_lt(a, b) || bytes_lt(b, a),
{
    lemma_bytes_total_from(a, b, 0);
}

/// Two names with the same UTF-8 bytes are the same name.
pub proof fn lemma_encoding_injective(a: Seq<char>, b: Seq<char>)
    requires
        encode_utf8(a) == encode_utf8(b),
    ensures
        a == b,
{
    encode_utf8_decode_utf8(a);
    encode_utf8_decode_utf8(b);
}

/// The name order is a strict total order: exactly one of `a` before `b`,
/// `a` equal to `b`, `b` before `a` holds.
pub proof fn lemma_name_trichotomy(a: Seq<char>, b: Seq<char>)
    ensures
        name_lt(a, b) || a == b || name_lt(b, a),
        !(name_lt(a, b) && a == b),
        !(name_lt(b, a) && a == b),
        !(name_lt(a, b) && name_lt(b, a)),
{
    let x = encode_utf8(a);
    let y = encode_utf8(b);
    lemma_bytes_lt_total(x, y);
    lemma_bytes_lt_irreflexive(x);
    if x == y {
        lemma_encoding_injective(a, b);
    }
    if bytes_lt(x, y) {
        lemma_bytes_lt_asymmetric(x, y);
    }
}

/// The name order is transitive.
pub proof fn lemma_name_lt_transitive(a: Seq<char>, b: Seq<char>, c: Seq<char>)
    requires
        name_lt(a, b),
        name_lt(b, c),
    ensures
        name_lt(a, c),
{
    lemma_bytes_lt_transitive(encode_utf8(a), encode_utf8(b), encode_utf8(c));
}

/// Compares two byte strings lexicographically.
pub fn compare_bytes(a: &[u8], b: &[u8]) -> (r: Rank)
    ensures
        r == Rank::Before <==> bytes_lt(a@, b@),
        r == Rank::Same <==> a@ == b@,
        r == Rank::After <==> bytes_lt(b@, a@),
{
    let mut i: usize = 0;
    while i < a.len() && i < b.len() && a[i] == b[i]
        invariant
            i <= a.len(),
            i <= b.len(),
            agree_below(a@, b@, i as int),
        decreases a.len() - i,
    {
        i += 1;
    }
    proof {
        assert(agree_below(b@, a@, i as int));
        lemma_bytes_lt_irreflexive(a@);
    }
    if i == a.len() {
        if i == b.len() {
            assert(a@ =~= b@);
            Rank::Same
        } else {
            proof {
                assert(precedes_at(a@, b@, i as int));
                lemma_bytes_lt_asymmetric(a@, b@);
            }
            Rank::Before
        }
    } else if i == b.len() {
        proof {
            assert(precedes_at(b@, a@, i as int));
            lemma_bytes_lt_asymmetric(b@, a@);
        }
        Rank::After
    } else if a[i] < b[i] {
        proof {
            assert(precedes_at(a@, b@, i as int));
            lemma_bytes_lt_asymmetric(a@, b@);
        }
        Rank::Before
    } else {
        proof {
            assert(precedes_at(b@, a@, i as int));
            lemma_bytes_lt_asymmetric(b@, a@);
        }
        Rank::After
    }
}

/// Compares two names in the name order.
pub fn compare_names(a: &str, b: &str) -> (r: Rank)
    ensures
        r == Rank::Before <==> name_lt(a@, b@),
        r == Rank::Same <==> a@ == b@,
        r == Rank::After <==> name_lt(b@, a@),
{
    proof {
        lemma_name_trichotomy(a@, b@);
        if encode_utf8(a@) == encode_utf8(b@) {
            lemma_encoding_injective(a@, b@);
        }
    }
    compare_bytes(a.as_bytes(), b.as_bytes())
}

} // verus!
