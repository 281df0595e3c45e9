//! The byte-level model that every string type of this crate is described by.
//!
//! A value of capacity `n` is seen as a sequence of `n` bytes. Its text is the
//! run of bytes before the first zero byte, or all `n` bytes when none is zero.
use vstd::prelude::*;

verus! {

/// ASCII lowercasing of one byte: `A`..=`Z` become `a`..=`z`, every other byte is kept.
pub open spec fn lower_byte(b: u8) -> u8 {
    if 0x41 <= b && b <= 0x5a {
        (b + 0x20) as u8
    } else {
        b
    }
}

/// ASCII uppercasing of one byte: `a`..=`z` become `A`..=`Z`, every other byte is kept.
pub open spec fn upper_byte(b: u8) -> u8 {
    if 0x61 <= b && b <= 0x7a {
        (b - 0x20) as u8
    } else {
        b
    }
}

/// Byte-wise ASCII lowercasing of a whole buffer.
pub open spec fn lowered(s: Seq<u8>) -> Seq<u8> {
    s.map_values(|b: u8| lower_byte(b))
}

/// Byte-wise ASCII uppercasing of a whole buffer.
pub open spec fn uppered(s: Seq<u8>) -> Seq<u8> {
    s.map_values(|b: u8| upper_byte(b))
}

/// Index of the first zero byte at or after `from`, or the length when there is none.
pub open spec fn zero_from(s: Seq<u8>, from: int) -> int
    decreases s.len() - from,
{
    if from >= s.len() {
        s.len() as int
    } else if s[from] == 0 {
        from
    } else {
        zero_from(s, from + 1)
    }
}

/// The logical length of a buffer: the number of bytes before its first zero byte.
pub open spec fn text_len(s: Seq<u8>) -> int {
    zero_from(s, 0)
}

/// The logical bytes of a buffer: those before its first zero byte.
pub open spec fn text_of(s: Seq<u8>) -> Seq<u8> {
    s.take(text_len(s))
}

/// `t` followed by zero bytes up to length `n`.
pub open spec fn padded(t: Seq<u8>, n: nat) -> Seq<u8> {
    t + Seq::new((n - t.len()) as nat, |i: int| 0u8)
}

/// The first `k` bytes of `t`, or all of `t` when it is shorter.
pub open spec fn head(t: Seq<u8>, k: nat) -> Seq<u8> {
    if t.len() <= k {
        t
    } else {
        t.take(k as int)
    }
}

/// The bytes of `t` after the first `k`, or nothing when `t` is not longer than `k`.
pub open spec fn rest(t: Seq<u8>, k: nat) -> Seq<u8> {
    if t.len() <= k {
        Seq::empty()
    } else {
        t.skip(k as int)
    }
}

/// The terminator invariant: once a zero byte occurs, every later byte is zero.
pub open spec fn terminated(s: Seq<u8>) -> bool {
    forall|i: int, j: int| 0 <= i <= j < s.len() && s[i] == 0 ==> s[j] == 0
}

/// `s` starts with the text of `p`: they agree at every position before `p`'s first zero byte.
pub open spec fn prefix_match(s: Seq<u8>, p: Seq<u8>) -> bool {
    forall|i: int| 0 <= i < text_len(p) ==> s[i] == p[i]
}

/// The byte `c` occurs among the logical bytes of `s`.
pub open spec fn holds_byte(s: Seq<u8>, c: u8) -> bool {
    exists|i: int| 0 <= i < text_len(s) && s[i] == c
}

/// No byte of `t` is zero.
pub open spec fn zero_free(t: Seq<u8>) -> bool {
    forall|i: int| 0 <= i < t.len() ==> t[i] != 0
}

/// What `zero_from` finds: the first zero byte at or after `from`.
pub proof fn lemma_zero_from(s: Seq<u8>, from: int)
    requires
        0 <= from <= s.len(),
    ensures
        from <= zero_from(s, from) <= s.len(),
        forall|k: int| from <= k < zero_from(s, from) ==> s[k] != 0,
        zero_from(s, from) < s.len() ==> s[zero_from(s, from)] == 0,
    decreases s.len() - from,
{
    if from < s.len() && s[from] != 0 {
        lemma_zero_from(s, from + 1);
    }
}

/// The logical length is the one position that has no zero byte before it and a
/// zero byte (or the end) at it.
pub proof fn lemma_text_len(s: Seq<u8>)
    ensures
        0 <= text_len(s) <= s.len(),
        forall|k: int| 0 <= k < text_len(s) ==> s[k] != 0,
        text_len(s) < s.len() ==> s[text_len(s)] == 0,
        text_len(s) == s.len() <==> zero_free(s),
        text_of(s).len() == text_len(s),
{
    lemma_zero_from(s, 0);
}

/// Any position with the defining property of the logical length is the logical length.
pub proof fn lemma_text_len_unique(s: Seq<u8>, n: int)
    requires
        0 <= n <= s.len(),
        forall|k: int| 0 <= k < n ==> s[k] != 0,
        n < s.len() ==> s[n] == 0,
    ensures
        text_len(s) == n,
{
    lemma_text_len(s);
}

/// The text of a zero-padded zero-free run is that run.
pub proof fn lemma_text_of_padded(t: Seq<u8>, n: nat)
    requires
        t.len() <= n,
        zero_free(t),
    ensures
        padded(t, n).len() == n,
        text_len(padded(t, n)) == t.len(),
        text_of(padded(t, n)) == t,
        terminated(padded(t, n)),
{
    let p = padded(t, n);
    lemma_text_len_unique(p, t.len() as int);
    assert(text_of(p) =~= t);
}

/// Padding the first `k` bytes to `k` and the rest to `m` pads the whole run to `k + m`.
pub proof fn lemma_padded_split(t: Seq<u8>, k: nat, m: nat)
    requires
        t.len() <= k + m,
    ensures
        padded(head(t, k), k) + padded(rest(t, k), m) == padded(t, k + m),
{
    assert(padded(head(t, k), k) + padded(rest(t, k), m) =~= padded(t, k + m));
}

/// The logical length of a concatenation: the first part's, unless the first part is
/// full, in which case the second part's text follows on.
pub proof fn lemma_text_len_concat(a: Seq<u8>, b: Seq<u8>)
    ensures
        text_len(a) < a.len() ==> text_len(a + b) == text_len(a),
        text_len(a) == a.len() ==> text_len(a + b) == a.len() + text_len(b),
{
    lemma_text_len(a);
    lemma_text_len(b);
    if text_len(a) < a.len() {
        lemma_text_len_unique(a + b, text_len(a));
    } else {
        lemma_text_len_unique(a + b, a.len() + text_len(b));
    }
}

/// For a terminated pattern, matching a concatenation part by part is matching it whole.
pub proof fn lemma_prefix_match_concat(a0: Seq<u8>, a1: Seq<u8>, p0: Seq<u8>, p1: Seq<u8>)
    requires
        a0.len() == p0.len(),
        a1.len() == p1.len(),
        terminated(p0 + p1),
    ensures
        prefix_match(a0 + a1, p0 + p1) == (prefix_match(a0, p0) && prefix_match(a1, p1)),
{
    let a = a0 + a1;
    let p = p0 + p1;
    lemma_text_len_concat(p0, p1);
    lemma_text_len(p0);
    lemma_text_len(p1);
    if text_len(p0) < p0.len() {
        assert(p[text_len(p0)] == 0);
        assert forall|k: int| 0 <= k < p1.len() implies p1[k] == 0 by {
            assert(p[p0.len() + k] == p1[k]);
        }
        lemma_text_len_unique(p1, 0);
        if prefix_match(a, p) {
            assert forall|i: int| 0 <= i < text_len(p0) implies a0[i] == p0[i] by {
                assert(a[i] == p[i]);
            }
        }
        if prefix_match(a0, p0) {
            assert forall|i: int| 0 <= i < text_len(p) implies a[i] == p[i] by {
                assert(a0[i] == p0[i]);
            }
        }
    } else {
        if prefix_match(a, p) {
            assert forall|i: int| 0 <= i < text_len(p0) implies a0[i] == p0[i] by {
                assert(a[i] == p[i]);
            }
            assert forall|i: int| 0 <= i < text_len(p1) implies a1[i] == p1[i] by {
                assert(a[p0.len() + i] == p[p0.len() + i]);
            }
        }
        if prefix_match(a0, p0) && prefix_match(a1, p1) {
            assert forall|i: int| 0 <= i < text_len(p) implies a[i] == p[i] by {
                if i < p0.len() {
                    assert(a0[i] == p0[i]);
                } else {
                    assert(a1[i - p0.len()] == p1[i - p0.len()]);
                }
            }
        }
    }
}

/// Case conversion is idempotent: lowercasing a lowercased buffer, or uppercasing an
/// uppercased one, changes nothing.
pub proof fn case_conversion_idempotent(s: Seq<u8>)
    ensures
        lowered(lowered(s)) == lowered(s),
        uppered(uppered(s)) == uppered(s),
{
    assert(lowered(lowered(s)) =~= lowered(s));
    assert(uppered(uppered(s)) =~= uppered(s));
}

/// Case conversion keeps the text where it is: zero bytes stay zero and no other byte
/// becomes zero, so the logical length and the terminator invariant are kept.
pub proof fn case_conversion_keeps_text(s: Seq<u8>)
    ensures
        text_len(lowered(s)) == text_len(s),
        text_len(uppered(s)) == text_len(s),
        terminated(s) ==> terminated(lowered(s)),
        terminated(s) ==> terminated(uppered(s)),
{
    lemma_text_len(s);
    lemma_text_len_unique(lowered(s), text_len(s));
    lemma_text_len_unique(uppered(s), text_len(s));
}

/// Byte-wise case conversion of a concatenation converts each part.
pub proof fn lemma_case_concat(a: Seq<u8>, b: Seq<u8>)
    ensures
        lowered(a + b) == lowered(a) + lowered(b),
        uppered(a + b) == uppered(a) + uppered(b),
{
    assert(lowered(a + b) =~= lowered(a) + lowered(b));
    assert(uppered(a + b) =~= uppered(a) + uppered(b));
}

} // verus!
