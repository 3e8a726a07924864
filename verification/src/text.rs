//! Comparing pieces of text: equality of their characters, and the order of
//! their bytes.

use vstd::prelude::*;
use vstd::string::StringSliceAdditionalSpecFns;
use vstd::utf8::encode_utf8;
use vstd::utf8::encode_utf8_decode_utf8;

verus! {

/// `a` comes strictly before `b` in the lexicographic order of bytes.
pub open spec fn bytes_less(a: Seq<u8>, b: Seq<u8>) -> bool
    decreases a.len(),
{
    if b.len() == 0 {
        false
    } else if a.len() == 0 {
        true
    } else if a[0] != b[0] {
        a[0] < b[0]
    } else {
        bytes_less(a.drop_first(), b.drop_first())
    }
}

/// `a` comes strictly before `b` in the order of their UTF-8 bytes.
pub open spec fn text_less(a: Seq<char>, b: Seq<char>) -> bool {
    bytes_less(encode_utf8(a), encode_utf8(b))
}

/// Two texts with the same bytes hold the same characters.
pub proof fn lemma_bytes_decide_text(a: Seq<char>, b: Seq<char>)
    ensures
        (encode_utf8(a) == encode_utf8(b)) <==> a == b,
{
    encode_utf8_decode_utf8(a);
    encode_utf8_decode_utf8(b);
}

/// No sequence of bytes comes before itself.
pub proof fn lemma_bytes_less_irreflexive(a: Seq<u8>)
    ensures
        !bytes_less(a, a),
    decreases a.len(),
{
    if a.len() > 0 {
        lemma_bytes_less_irreflexive(a.drop_first());
    }
}

/// Of two different sequences of bytes exactly one comes before the other.
pub proof fn lemma_bytes_less_total(a: Seq<u8>, b: Seq<u8>)
    ensures
        a != b ==> (bytes_less(a, b) <==> !bytes_less(b, a)),
        a == b ==> !bytes_less(a, b),
    decreases a.len(),
{
    if a == b {
        lemma_bytes_less_irreflexive(a);
    } else if a.len() == 0 || b.len() == 0 {
        if a.len() == 0 && b.len() == 0 {
            assert(a =~= b);
        }
    } else if a[0] == b[0] {
        if a.drop_first() == b.drop_first() {
            assert(a =~= seq![a[0]] + a.drop_first());
            assert(b =~= seq![b[0]] + b.drop_first());
        }
        lemma_bytes_less_total(a.drop_first(), b.drop_first());
    }
}

/// The order of bytes is transitive.
pub proof fn lemma_bytes_less_transitive(a: Seq<u8>, b: Seq<u8>, c: Seq<u8>)
    requires
        bytes_less(a, b),
        bytes_less(b, c),
    ensures
        bytes_less(a, c),
    decreases a.len(),
{
    if a.len() > 0 && a[0] == b[0] && b[0] == c[0] {
        lemma_bytes_less_transitive(a.drop_first(), b.drop_first(), c.drop_first());
    }
}

/// Skipping one more byte is dropping the first of what is left.
proof fn lemma_skip_step(a: Seq<u8>, i: int)
    requires
        0 <= i < a.len(),
    ensures
        a.skip(i).drop_first() == a.skip(i + 1),
        a.skip(i)[0] == a[i],
        a.skip(i).len() == a.len() - i,
{
}

/// Whether two slices of bytes are equal.
pub fn bytes_eq(a: &[u8], b: &[u8]) -> (r: bool)
    ensures
        r == (a@ == b@),
{
    if a.len() != b.len() {
        return false;
    }
    let mut i: usize = 0;
    while i < a.len()
        invariant
            a@.len() == b@.len(),
            i <= a@.len(),
            forall|k: int| 0 <= k < i ==> a@[k] == b@[k],
        decreases a@.len() - i,
    {
        if a[i] != b[i] {
            return false;
        }
        i += 1;
    }
    assert(a@ =~= b@);
    true
}

/// Whether `a` comes strictly before `b` in the lexicographic order of bytes.
pub fn bytes_lt(a: &[u8], b: &[u8]) -> (r: bool)
    ensures
        r == bytes_less(a@, b@),
{
    let mut i: usize = 0;
    assert(a@.skip(0) =~= a@);
    assert(b@.skip(0) =~= b@);
    while i < a.len() && i < b.len()
        invariant
            i <= a@.len(),
            i <= b@.len(),
            bytes_less(a@, b@) == bytes_less(a@.skip(i as int), b@.skip(i as int)),
        decreases a@.len() - i,
    {
        proof {
            lemma_skip_step(a@, i as int);
            lemma_skip_step(b@, i as int);
        }
        if a[i] != b[i] {
            return a[i] < b[i];
        }
        i += 1;
    }
    i < b.len()
}

/// Whether two texts hold the same characters.
pub fn text_eq(a: &str, b: &str) -> (r: bool)
    ensures
        r == (a@ == b@),
{
    proof {
        lemma_bytes_decide_text(a@, b@);
    }
    bytes_eq(a.as_bytes(), b.as_bytes())
}

/// Whether `a` comes strictly before `b` in the order of their UTF-8 bytes.
pub fn text_lt(a: &str, b: &str) -> (r: bool)
    ensures
        r == text_less(a@, b@),
{
    bytes_lt(a.as_bytes(), b.as_bytes())
}

} // verus!
