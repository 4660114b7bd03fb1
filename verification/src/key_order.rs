//! The order in which keys are kept, and the prefix test on keys.
//!
//! Keys are strings. They are ordered by their UTF-8 bytes, lexicographically,
//! which is the order the standard library gives to `str`.

use vstd::prelude::*;
use vstd::string::*;
use vstd::utf8::*;

verus! {

/// Lexicographic "strictly less" on byte sequences: at the first position where
/// the two differ the smaller byte decides, and a proper prefix comes first.
pub open spec fn lex_less(a: Seq<u8>, b: Seq<u8>) -> bool
    decreases a.len(),
{
    if b.len() == 0 {
        false
    } else if a.len() == 0 {
        true
    } else if a[0] != b[0] {
        a[0] < b[0]
    } else {
        lex_less(a.drop_first(), b.drop_first())
    }
}

/// The order of keys: by their UTF-8 bytes.
pub open spec fn key_less(a: Seq<char>, b: Seq<char>) -> bool {
    lex_less(encode_utf8(a), encode_utf8(b))
}

/// No byte sequence is less than itself.
pub proof fn lemma_lex_irreflexive(a: Seq<u8>)
    ensures
        !lex_less(a, a),
    decreases a.len(),
{
    if a.len() > 0 {
        lemma_lex_irreflexive(a.drop_first());
    }
}

/// `lex_less` is transitive.
pub proof fn lemma_lex_transitive(a: Seq<u8>, b: Seq<u8>, c: Seq<u8>)
    requires
        lex_less(a, b),
        lex_less(b, c),
    ensures
        lex_less(a, c),
    decreases a.len(),
{
    if a.len() > 0 && a[0] == b[0] && b[0] == c[0] {
        lemma_lex_transitive(a.drop_first(), b.drop_first(), c.drop_first());
    }
}

/// Any two byte sequences are equal or ordered one way or the other.
pub proof fn lemma_lex_total(a: Seq<u8>, b: Seq<u8>)
    ensures
        lex_less(a, b) || a == b || lex_less(b, a),
    decreases a.len(),
{
    if a.len() == 0 || b.len() == 0 {
        if a.len() == 0 && b.len() == 0 {
            assert(a =~= b);
        }
    } else if a[0] == b[0] {
        lemma_lex_total(a.drop_first(), b.drop_first());
        if a.drop_first() == b.drop_first() {
            assert forall|i: int| 0 <= i < a.len() implies a[i] == b[i] by {
                if i > 0 {
                    assert(a[i] == a.drop_first()[i - 1]);
                    assert(b[i] == b.drop_first()[i - 1]);
                }
            }
            assert(a.len() == a.drop_first().len() + 1);
            assert(b.len() == b.drop_first().len() + 1);
            assert(a =~= b);
        }
    }
}

/// No key is less than itself.
pub proof fn lemma_key_less_irreflexive(a: Seq<char>)
    ensures
        !key_less(a, a),
{
    lemma_lex_irreflexive(encode_utf8(a));
}

/// The order of keys is transitive.
pub proof fn lemma_key_less_transitive(a: Seq<char>, b: Seq<char>, c: Seq<char>)
    requires
        key_less(a, b),
        key_less(b, c),
    ensures
        key_less(a, c),
{
    lemma_lex_transitive(encode_utf8(a), encode_utf8(b), encode_utf8(c));
}

/// The order of keys is total: two keys are the same key, or one comes first.
pub proof fn lemma_key_less_total(a: Seq<char>, b: Seq<char>)
    ensures
        key_less(a, b) || a == b || key_less(b, a),
{
    lemma_lex_total(encode_utf8(a), encode_utf8(b));
    if encode_utf8(a) == encode_utf8(b) {
        encode_utf8_decode_utf8(a);
        encode_utf8_decode_utf8(b);
    }
}

/// A key never stands on both sides of another.
pub proof fn lemma_key_less_asymmetric(a: Seq<char>, b: Seq<char>)
    requires
        key_less(a, b),
    ensures
        !key_less(b, a),
        a != b,
{
    lemma_key_less_irreflexive(a);
    if key_less(b, a) {
        lemma_key_less_transitive(a, b, a);
    }
}

proof fn lemma_lex_less_skip(a: Seq<u8>, b: Seq<u8>, i: int)
    requires
        0 <= i <= a.len(),
        i <= b.len(),
        forall|j: int| 0 <= j < i ==> a[j] == b[j],
    ensures
        lex_less(a, b) == lex_less(a.skip(i), b.skip(i)),
    decreases i,
{
    if i > 0 {
        lemma_lex_less_skip(a, b, i - 1);
        let x = a.skip(i - 1);
        let y = b.skip(i - 1);
        assert(x[0] == a[i - 1]);
        assert(y[0] == b[i - 1]);
        assert(x.drop_first() =~= a.skip(i));
        assert(y.drop_first() =~= b.skip(i));
    } else {
        assert(a.skip(0) =~= a);
        assert(b.skip(0) =~= b);
    }
}

/// Whether `a` comes strictly before `b` in the order of keys.
pub fn str_less(a: &str, b: &str) -> (r: bool)
    ensures
        r == key_less(a@, b@),
{
    let x = a.as_bytes();
    let y = b.as_bytes();
    let mut i: usize = 0;
    while i < x.len() && i < y.len()
        invariant
            i <= x@.len(),
            i <= y@.len(),
            x@ == encode_utf8(a@),
            y@ == encode_utf8(b@),
            forall|j: int| 0 <= j < i ==> x@[j] == y@[j],
        decreases x@.len() - i,
    {
        if x[i] != y[i] {
            proof {
                lemma_lex_less_skip(x@, y@, i as int);
                assert(x@.skip(i as int)[0] == x@[i as int]);
                assert(y@.skip(i as int)[0] == y@[i as int]);
            }
            return x[i] < y[i];
        }
        i += 1;
    }
    proof {
        lemma_lex_less_skip(x@, y@, i as int);
        if i < y@.len() {
            assert(y@.skip(i as int).len() > 0);
            assert(x@.skip(i as int).len() == 0);
        } else {
            assert(y@.skip(i as int).len() == 0);
        }
    }
    x.len() < y.len()
}

/// Encoding distributes over concatenation.
pub proof fn lemma_encode_concat(a: Seq<char>, b: Seq<char>)
    ensures
        encode_utf8(a + b) == encode_utf8(a) + encode_utf8(b),
    decreases a.len(),
{
    if a.len() == 0 {
        assert(a + b =~= b);
        assert(encode_utf8(a) + encode_utf8(b) =~= encode_utf8(b));
    } else {
        lemma_encode_concat(a.drop_first(), b);
        assert((a + b).drop_first() =~= a.drop_first() + b);
        assert((a + b)[0] == a[0]);
        assert(encode_scalar(a[0] as u32) + (encode_utf8(a.drop_first()) + encode_utf8(b))
            =~= (encode_scalar(a[0] as u32) + encode_utf8(a.drop_first())) + encode_utf8(b));
    }
}

proof fn lemma_bytes_prefix_gives_prefix(p: Seq<char>, k: Seq<char>)
    requires
        encode_utf8(p).is_prefix_of(encode_utf8(k)),
    ensures
        p.is_prefix_of(k),
    decreases p.len(),
{
    if p.len() > 0 {
        let bp = encode_utf8(p);
        let bk = encode_utf8(k);
        encode_utf8_first_scalar(p);
        let n = length_of_first_scalar(bp);
        assert(bp.len() == encode_scalar(p[0] as u32).len() + encode_utf8(p.drop_first()).len());
        assert(1 <= n <= bp.len());
        assert(bk.len() >= bp.len());
        assert(k.len() > 0);
        encode_utf8_first_scalar(k);
        assert forall|j: int| 0 <= j < bp.len() implies bp[j] == bk[j] by {
            assert(bp[j] == bk.subrange(0, bp.len() as int)[j]);
        }
        assert(length_of_first_scalar(bk) == n);
        assert(decode_first_scalar(bk) == decode_first_scalar(bp));
        char_u32_cast(p[0], p[0] as u32);
        char_u32_cast(k[0], k[0] as u32);
        assert(p[0] == k[0]);
        let rp = encode_utf8(p.drop_first());
        let rk = encode_utf8(k.drop_first());
        assert(rp =~= bp.skip(n));
        assert(rk =~= bk.skip(n));
        assert(rp =~= rk.subrange(0, rp.len() as int));
        lemma_bytes_prefix_gives_prefix(p.drop_first(), k.drop_first());
        assert forall|j: int| 0 <= j < p.len() implies p[j] == k[j] by {
            if j > 0 {
                assert(p[j] == p.drop_first()[j - 1]);
                assert(k[j] == k.drop_first()[j - 1]);
                assert(p.drop_first()[j - 1] == k.drop_first().subrange(
                    0,
                    p.drop_first().len() as int,
                )[j - 1]);
            }
        }
        assert(p =~= k.subrange(0, p.len() as int));
    } else {
        assert(p =~= k.subrange(0, 0));
    }
}

/// One key is a prefix of another exactly when its UTF-8 bytes are a prefix of
/// the other's.
pub proof fn lemma_prefix_by_bytes(p: Seq<char>, k: Seq<char>)
    ensures
        p.is_prefix_of(k) <==> encode_utf8(p).is_prefix_of(encode_utf8(k)),
{
    if p.is_prefix_of(k) {
        let rest = k.skip(p.len() as int);
        assert(k =~= p + rest);
        lemma_encode_concat(p, rest);
        assert(encode_utf8(p) =~= encode_utf8(k).subrange(0, encode_utf8(p).len() as int));
    }
    if encode_utf8(p).is_prefix_of(encode_utf8(k)) {
        lemma_bytes_prefix_gives_prefix(p, k);
    }
}

proof fn lemma_prefix_step(p: Seq<u8>, k: Seq<u8>)
    requires
        p.len() > 0,
    ensures
        p.is_prefix_of(k) <==> k.len() > 0 && k[0] == p[0] && p.drop_first().is_prefix_of(
            k.drop_first(),
        ),
{
    let pt = p.drop_first();
    let kt = k.drop_first();
    if p.is_prefix_of(k) {
        assert(p[0] == k.subrange(0, p.len() as int)[0]);
        assert forall|i: int| 0 <= i < pt.len() implies pt[i] == kt.subrange(
            0,
            pt.len() as int,
        )[i] by {
            assert(p[i + 1] == k.subrange(0, p.len() as int)[i + 1]);
        }
        assert(pt =~= kt.subrange(0, pt.len() as int));
    }
    if k.len() > 0 && k[0] == p[0] && pt.is_prefix_of(kt) {
        assert forall|i: int| 0 <= i < p.len() implies p[i] == k.subrange(0, p.len() as int)[i] by {
            if i > 0 {
                assert(pt[i - 1] == kt.subrange(0, pt.len() as int)[i - 1]);
            }
        }
        assert(p =~= k.subrange(0, p.len() as int));
    }
}

proof fn lemma_lex_prefix_not_after(p: Seq<u8>, k: Seq<u8>)
    requires
        p.is_prefix_of(k),
    ensures
        !lex_less(k, p),
    decreases p.len(),
{
    if p.len() > 0 {
        lemma_prefix_step(p, k);
        lemma_lex_prefix_not_after(p.drop_first(), k.drop_first());
    }
}

proof fn lemma_lex_prefix_block(p: Seq<u8>, a: Seq<u8>, b: Seq<u8>)
    requires
        !lex_less(a, p),
        !p.is_prefix_of(a),
        lex_less(a, b),
    ensures
        !p.is_prefix_of(b),
    decreases p.len(),
{
    if p.len() == 0 {
        assert(p =~= a.subrange(0, 0));
    } else if p.is_prefix_of(b) {
        lemma_prefix_step(p, b);
        lemma_prefix_step(p, a);
        if a[0] == p[0] {
            lemma_lex_prefix_block(p.drop_first(), a.drop_first(), b.drop_first());
        }
    }
}

/// A key that starts with a prefix does not come before the prefix.
pub proof fn lemma_prefix_not_after(p: Seq<char>, k: Seq<char>)
    requires
        p.is_prefix_of(k),
    ensures
        !key_less(k, p),
{
    lemma_prefix_by_bytes(p, k);
    lemma_lex_prefix_not_after(encode_utf8(p), encode_utf8(k));
}

/// The keys that start with a prefix stand together in the order: behind a
/// key that is not before the prefix and does not start with it, no key
/// starts with it.
pub proof fn lemma_prefix_block(p: Seq<char>, a: Seq<char>, b: Seq<char>)
    requires
        !key_less(a, p),
        !p.is_prefix_of(a),
        key_less(a, b),
    ensures
        !p.is_prefix_of(b),
{
    lemma_prefix_by_bytes(p, a);
    lemma_prefix_by_bytes(p, b);
    lemma_lex_prefix_block(encode_utf8(p), encode_utf8(a), encode_utf8(b));
}

/// Whether `s` starts with `prefix`.
pub fn str_starts_with(s: &str, prefix: &str) -> (r: bool)
    ensures
        r == prefix@.is_prefix_of(s@),
{
    let x = s.as_bytes();
    let y = prefix.as_bytes();
    proof {
        lemma_prefix_by_bytes(prefix@, s@);
    }
    if y.len() > x.len() {
        return false;
    }
    let mut i: usize = 0;
    while i < y.len()
        invariant
            i <= y@.len(),
            y@.len() <= x@.len(),
            x@ == encode_utf8(s@),
            y@ == encode_utf8(prefix@),
            prefix@.is_prefix_of(s@) <==> y@.is_prefix_of(x@),
            forall|j: int| 0 <= j < i ==> x@[j] == y@[j],
        decreases y@.len() - i,
    {
        if x[i] != y[i] {
            proof {
                if y@.is_prefix_of(x@) {
                    assert(y@[i as int] == x@.subrange(0, y@.len() as int)[i as int]);
                }
            }
            return false;
        }
        i += 1;
    }
    assert(y@ =~= x@.subrange(0, y@.len() as int));
    true
}

} // verus!
