//! Conversion between text and fixed buffers, shared by every string type.
use crate::ascii::{head, lemma_text_len, lemma_text_len_unique, lemma_text_of_padded, padded, rest, text_len, text_of, zero_free};
use vstd::prelude::*;
use vstd::utf8::*;

verus! {

/// A runtime constructor was handed more bytes than the target type holds.
///
/// Construction never truncates: the bytes that did not fit are kept here for
/// diagnostics, with the capacity they were measured against.
#[derive(Clone, Debug, PartialEq, Eq)]
pub struct TooLong {
    pub input: Vec<u8>,
    pub capacity: usize,
}

/// What `String::from_utf8_lossy` makes of a byte sequence.
pub uninterp spec fn utf8_lossy(b: Seq<u8>) -> Seq<char>;

/// Relies on `String::from_utf8_lossy`: valid UTF-8 decodes to the characters it
/// encodes; anything else comes out with replacement characters.
#[verifier::external_body]
pub(crate) fn decode_lossy(b: &[u8]) -> (r: String)
    ensures
        r@ == utf8_lossy(b@),
        valid_utf8(b@) ==> r@ == decode_utf8(b@),
{
    String::from_utf8_lossy(b).into_owned()
}

/// Relies on `std::str::from_utf8`: it succeeds exactly on valid UTF-8 and then
/// borrows those bytes as text.
#[verifier::external_body]
pub(crate) fn utf8_str(b: &[u8]) -> (r: Option<&str>)
    ensures
        r is Some <==> valid_utf8(b@),
        r matches Some(s) ==> s@ == decode_utf8(b@),
{
    std::str::from_utf8(b).ok()
}

/// `a` followed by `b`.
pub(crate) fn join(a: String, b: String) -> (r: String)
    ensures
        r@ == a@ + b@,
{
    let mut r = a;
    r.append(b.as_str());
    r
}

/// `b` followed by zero bytes, as an array of `N` bytes.
pub(crate) fn zero_padded<const N: usize>(b: &[u8]) -> (r: [u8; N])
    requires
        b@.len() <= N,
    ensures
        r@ == padded(b@, N as nat),
{
    let mut r = [0u8; N];
    let mut i: usize = 0;
    while i < b.len()
        invariant
            b@.len() <= N,
            i <= b@.len(),
            r@.len() == N,
            forall|k: int| 0 <= k < i ==> r@[k] == b@[k],
            forall|k: int| i <= k < N ==> r@[k] == 0,
        decreases b@.len() - i,
    {
        r[i] = b[i];
        i += 1;
    }
    assert(r@ =~= padded(b@, N as nat));
    r
}

/// The logical length of a buffer, the position of its first zero byte.
pub(crate) fn text_length(b: &[u8]) -> (r: usize)
    ensures
        r == text_len(b@),
        r <= b@.len(),
{
    let mut i: usize = 0;
    while i < b.len() && b[i] != 0
        invariant
            i <= b@.len(),
            forall|k: int| 0 <= k < i ==> b@[k] != 0,
        decreases b@.len() - i,
    {
        i += 1;
    }
    proof {
        lemma_text_len_unique(b@, i as int);
    }
    i
}

/// The logical bytes of a buffer, those before its first zero byte.
pub(crate) fn text_bytes(b: &[u8]) -> (r: Vec<u8>)
    ensures
        r@ == text_of(b@),
{
    proof {
        lemma_text_len(b@);
    }
    let mut r: Vec<u8> = Vec::new();
    let mut i: usize = 0;
    while i < b.len() && b[i] != 0
        invariant
            i <= b@.len(),
            forall|k: int| 0 <= k < i ==> b@[k] != 0,
            r@ == b@.take(i as int),
        decreases b@.len() - i,
    {
        r.push(b[i]);
        i += 1;
        assert(r@ =~= b@.take(i as int));
    }
    proof {
        lemma_text_len_unique(b@, i as int);
    }
    r
}

/// The UTF-8 encoding of a text that holds no NUL character holds no zero byte.
pub proof fn lemma_encode_zero_free(t: Seq<char>)
    requires
        !t.contains('\0'),
    ensures
        zero_free(encode_utf8(t)),
    decreases t.len(),
{
    if t.len() > 0 {
        let c = t[0] as u32;
        assert(t[0] != '\0') by {
            assert(t.contains(t[0]));
        }
        assert(c != 0) by {
            char_u32_cast(t[0], c);
        }
        assert(zero_free(encode_scalar(c))) by {
            assert(c != 0 && c <= 0x7f ==> leading_byte_width_1(c) != 0) by (bit_vector);
            assert(leading_byte_width_2(c) != 0) by (bit_vector);
            assert(leading_byte_width_3(c) != 0) by (bit_vector);
            assert(leading_byte_width_4(c) != 0) by (bit_vector);
            assert(last_continuation_byte(c) != 0) by (bit_vector);
            assert(second_last_continuation_byte(c) != 0) by (bit_vector);
            assert(third_last_continuation_byte(c) != 0) by (bit_vector);
        }
        let tail = t.drop_first();
        assert(!tail.contains('\0')) by {
            if tail.contains('\0') {
                let k = choose|k: int| 0 <= k < tail.len() && tail[k] == '\0';
                assert(t[k + 1] == '\0');
            }
        }
        lemma_encode_zero_free(tail);
        assert(encode_utf8(t) == encode_scalar(c) + encode_utf8(tail));
    }
}

/// Round trip through a buffer of `n` bytes: a text of at most `n` bytes without a
/// NUL character, zero-padded to `n` bytes, has that text as its logical bytes, and
/// they decode back to the text.
pub proof fn round_trip(t: Seq<char>, n: nat)
    requires
        encode_utf8(t).len() <= n,
        !t.contains('\0'),
    ensures
        text_of(padded(encode_utf8(t), n)) == encode_utf8(t),
        valid_utf8(text_of(padded(encode_utf8(t), n))),
        decode_utf8(text_of(padded(encode_utf8(t), n))) == t,
{
    lemma_encode_zero_free(t);
    lemma_text_of_padded(encode_utf8(t), n);
    encode_utf8_valid_utf8(t);
    encode_utf8_decode_utf8(t);
}

/// Round trip through a buffer made of two parts of `k` and `m` bytes, the first
/// filled before the second: for a text of at most `k + m` bytes without a NUL
/// character, split at byte `k` on a character boundary when it is longer than `k`,
/// decoding the text of each part and joining them gives the text back.
pub proof fn round_trip_split(t: Seq<char>, k: nat, m: nat)
    requires
        encode_utf8(t).len() <= k + m,
        !t.contains('\0'),
        encode_utf8(t).len() > k ==> is_char_boundary(encode_utf8(t), k as int),
    ensures
        valid_utf8(text_of(padded(head(encode_utf8(t), k), k))),
        valid_utf8(text_of(padded(rest(encode_utf8(t), k), m))),
        decode_utf8(text_of(padded(head(encode_utf8(t), k), k))) + decode_utf8(
            text_of(padded(rest(encode_utf8(t), k), m)),
        ) == t,
{
    let b = encode_utf8(t);
    let h = head(b, k);
    let r = rest(b, k);
    lemma_encode_zero_free(t);
    encode_utf8_valid_utf8(t);
    encode_utf8_decode_utf8(t);
    assert(zero_free(h));
    assert(zero_free(r));
    lemma_text_of_padded(h, k);
    lemma_text_of_padded(r, m);
    if b.len() > k {
        valid_utf8_split(b, k as int);
        decode_utf8_split(b, k as int);
        assert(h == b.subrange(0, k as int));
        assert(r == b.subrange(k as int, b.len() as int));
    } else {
        assert(r =~= Seq::<u8>::empty());
        assert(valid_utf8(r));
        assert(decode_utf8(r) =~= Seq::<char>::empty());
        assert(t + Seq::<char>::empty() =~= t);
    }
}

} // verus!
