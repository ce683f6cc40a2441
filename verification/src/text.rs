//! Comparing strings by their UTF-8 bytes.

use vstd::prelude::*;
use vstd::utf8::*;
use vstd::string::*;

verus! {

/// The view of an optional string.
pub open spec fn opt_text(text: Option<String>) -> Option<Seq<char>> {
    match text {
        Some(s) => Some(s@),
        None => None,
    }
}

/// `a` and `b` hold the same bytes below index `k`.
pub open spec fn agree_below(a: Seq<u8>, b: Seq<u8>, k: int) -> bool {
    &&& 0 <= k <= a.len()
    &&& k <= b.len()
    &&& forall|j: int| 0 <= j < k ==> a[j] == b[j]
}

/// Lexicographic order on byte strings: `a` is a prefix of `b`, or at the
/// first index where they differ `a` holds the smaller byte.
pub open spec fn lex_le(a: Seq<u8>, b: Seq<u8>) -> bool {
    ||| agree_below(a, b, a.len() as int)
    ||| exists|k: int| #[trigger] agree_below(a, b, k) && k < a.len() && k < b.len() && a[k] < b[k]
}

/// The order in which two names are listed: lexicographic on their UTF-8
/// encodings.
pub open spec fn name_le(a: Seq<char>, b: Seq<char>) -> bool {
    lex_le(encode_utf8(a), encode_utf8(b))
}

/// Two strings with the same encoding are the same string.
pub proof fn lemma_encoding_injective(a: Seq<char>, b: Seq<char>)
    requires
        encode_utf8(a) == encode_utf8(b),
    ensures
        a == b,
{
    encode_utf8_decode_utf8(a);
    encode_utf8_decode_utf8(b);
}

proof fn lemma_lex_total_from(a: Seq<u8>, b: Seq<u8>, k: int)
    requires
        agree_below(a, b, k),
    ensures
        lex_le(a, b) || lex_le(b, a),
    decreases a.len() - k,
{
    if k == a.len() {
    } else if k == b.len() {
        assert(agree_below(b, a, b.len() as int));
    } else if a[k] < b[k] {
    } else if b[k] < a[k] {
        assert(agree_below(b, a, k));
    } else {
        lemma_lex_total_from(a, b, k + 1);
    }
}

/// Any two byte strings are comparable.
pub proof fn lemma_lex_total(a: Seq<u8>, b: Seq<u8>)
    ensures
        lex_le(a, b) || lex_le(b, a),
{
    lemma_lex_total_from(a, b, 0);
}

/// The lexicographic order is transitive.
pub proof fn lemma_lex_transitive(a: Seq<u8>, b: Seq<u8>, c: Seq<u8>)
    requires
        lex_le(a, b),
        lex_le(b, c),
    ensures
        lex_le(a, c),
{
    if agree_below(a, b, a.len() as int) {
        if agree_below(b, c, b.len() as int) {
            assert(agree_below(a, c, a.len() as int));
        } else {
            let k = choose|k: int| #[trigger]
                agree_below(b, c, k) && k < b.len() && k < c.len() && b[k] < c[k];
            if k < a.len() {
                assert(agree_below(a, c, k));
            } else {
                assert(agree_below(a, c, a.len() as int));
            }
        }
    } else {
        let i = choose|i: int| #[trigger]
            agree_below(a, b, i) && i < a.len() && i < b.len() && a[i] < b[i];
        if agree_below(b, c, b.len() as int) {
            assert(agree_below(a, c, i));
        } else {
            let k = choose|k: int| #[trigger]
                agree_below(b, c, k) && k < b.len() && k < c.len() && b[k] < c[k];
            if i <= k {
                assert(agree_below(a, c, i));
            } else {
                assert(agree_below(a, c, k));
            }
        }
    }
}

/// Two byte strings that are each below the other are equal.
pub proof fn lemma_lex_antisymmetric(a: Seq<u8>, b: Seq<u8>)
    requires
        lex_le(a, b),
        lex_le(b, a),
    ensures
        a == b,
{
    if agree_below(a, b, a.len() as int) {
        if agree_below(b, a, b.len() as int) {
            assert(a =~= b);
        } else {
            let k = choose|k: int| #[trigger]
                agree_below(b, a, k) && k < b.len() && k < a.len() && b[k] < a[k];
            assert(false);
        }
    } else {
        let i = choose|i: int| #[trigger]
            agree_below(a, b, i) && i < a.len() && i < b.len() && a[i] < b[i];
        if agree_below(b, a, b.len() as int) {
            assert(false);
        } else {
            let k = choose|k: int| #[trigger]
                agree_below(b, a, k) && k < b.len() && k < a.len() && b[k] < a[k];
            assert(false);
        }
    }
}

/// Whether two strings are equal.
pub fn text_eq(a: &str, b: &str) -> (same: bool)
    ensures
        same == (a@ == b@),
{
    let x = a.as_bytes();
    let y = b.as_bytes();
    if x.len() != y.len() {
        return false;
    }
    let mut i: usize = 0;
    while i < x.len()
        invariant
            i <= x.len(),
            x.len() == y.len(),
            x@ == encode_utf8(a@),
            y@ == encode_utf8(b@),
            forall|j: int| 0 <= j < i ==> x@[j] == y@[j],
        decreases x.len() - i,
    {
        if x[i] != y[i] {
            return false;
        }
        i += 1;
    }
    proof {
        assert(x@ =~= y@);
        lemma_encoding_injective(a@, b@);
    }
    true
}

/// Whether `a` is listed no later than `b`.
pub fn text_le(a: &str, b: &str) -> (le: bool)
    ensures
        le == name_le(a@, b@),
{
    let x = a.as_bytes();
    let y = b.as_bytes();
    let mut i: usize = 0;
    while i < x.len() && i < y.len()
        invariant
            agree_below(x@, y@, i as int),
            x@ == encode_utf8(a@),
            y@ == encode_utf8(b@),
        decreases x.len() - i,
    {
        if x[i] != y[i] {
            let below = x[i] < y[i];
            proof {
                if !below {
                    assert(agree_below(y@, x@, i as int));
                    if lex_le(x@, y@) {
                        lemma_lex_antisymmetric(x@, y@);
                    }
                }
            }
            return below;
        }
        i += 1;
    }
    let shorter = x.len() <= y.len();
    proof {
        if !shorter {
            assert(agree_below(y@, x@, y@.len() as int));
            if lex_le(x@, y@) {
                lemma_lex_antisymmetric(x@, y@);
            }
        }
    }
    shorter
}

} // verus!
