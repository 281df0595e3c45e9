//! `Str16`: up to sixteen bytes packed into one `u128`.
use crate::ascii::{
    lemma_text_len, lowered, padded, prefix_match, text_len, text_of, uppered,
};
use crate::lanes::{
    lane128, lemma_in_range_fits128, lemma_lanes_eq128, lemma_lanes_of_zero128, lemma_shift_in128,
    lemma_swar_lower128, lemma_swar_upper128, swar_lower128, swar_upper128,
};
use crate::text::{decode_lossy, text_bytes, utf8_lossy, zero_padded, TooLong};
use vstd::prelude::*;
use vstd::slice::slice_to_vec;
use vstd::string::StringSliceAdditionalSpecFns;
use vstd::utf8::{decode_utf8, valid_utf8};

verus! {

/// A string of at most sixteen bytes held in one `u128`, byte `i` in bits `8 * i .. 8 * i + 8`.
///
/// Built from text, the bytes after it are zero; a text of sixteen bytes has no
/// terminator. Equality, hashing and ordering are those of the underlying integer, so
/// ordering compares the last byte first.
#[derive(Clone, Copy, PartialEq, Eq, Structural, Hash, PartialOrd, Ord, Debug, Default)]
pub struct Str16(pub u128);

impl View for Str16 {
    type V = Seq<u8>;

    /// The sixteen bytes, in order.
    open spec fn view(&self) -> Seq<u8> {
        Seq::new(16, |i: int| lane128(self.0, i as u128))
    }
}

/// Two values with the same bytes are the same value.
pub proof fn lemma_str16_view_injective(a: Str16, b: Str16)
    requires
        a@ == b@,
    ensures
        a == b,
{
    assert forall|i: u128| i < 16 implies lane128(a.0, i) == lane128(b.0, i) by {
        assert(a@[i as int] == b@[i as int]);
        assert(a@[i as int] == lane128(a.0, (i as int) as u128));
        assert((i as int) as u128 == i);
    }
    lemma_lanes_eq128(a.0, b.0);
}

impl Str16 {
    /// The empty string: every byte zero.
    pub fn empty() -> (r: Self)
        ensures
            r.0 == 0,
            r@ == padded(Seq::empty(), 16),
    {
        proof {
            assert forall|i: int| 0 <= i < 16 implies #[trigger] Str16(0)@[i] == 0u8 by {
                lemma_lanes_of_zero128(i as u128);
            }
            assert(Str16(0)@ =~= padded(Seq::empty(), 16));
        }
        Str16(0)
    }

    /// Whether the underlying integer is zero, that is, whether every byte is zero.
    pub fn is_empty(&self) -> (r: bool)
        ensures
            r == (self.0 == 0),
            r == (self@ == padded(Seq::empty(), 16)),
    {
        let r = self.0 == 0;
        proof {
            assert forall|i: int| 0 <= i < 16 implies #[trigger] Str16(0)@[i] == 0u8 by {
                lemma_lanes_of_zero128(i as u128);
            }
            assert(Str16(0)@ =~= padded(Seq::empty(), 16));
            if self@ == padded(Seq::<u8>::empty(), 16) {
                lemma_str16_view_injective(*self, Str16(0));
            }
        }
        r
    }

    /// The capacity in bytes.
    pub fn max_size() -> (r: usize)
        ensures
            r == 16,
    {
        16
    }

    /// Byte `i`.
    pub(crate) fn byte(&self, i: usize) -> (r: u8)
        requires
            i < 16,
        ensures
            r == self@[i as int],
    {
        ((self.0 >> (8 * i as u128)) & 0xff) as u8
    }

    /// The sixteen bytes, in order.
    pub(crate) fn bytes(&self) -> (r: [u8; 16])
        ensures
            r@ == self@,
    {
        let mut r = [0u8; 16];
        let mut i: usize = 0;
        while i < 16
            invariant
                i <= 16,
                r@.len() == 16,
                forall|k: int| 0 <= k < i ==> r@[k] == self@[k],
            decreases 16 - i,
        {
            r[i] = self.byte(i);
            i += 1;
        }
        assert(r@ =~= self@);
        r
    }

    /// Byte `i` as a character; bytes after the text read as `'\0'`.
    pub fn index(&self, i: usize) -> (r: char)
        requires
            i < 16,
        ensures
            r == self@[i as int] as char,
    {
        self.byte(i) as char
    }

    /// The value whose bytes are `s`, taken as they are.
    pub fn from_bytes(s: [u8; 16]) -> (r: Self)
        ensures
            r@ == s@,
    {
        let mut x: u128 = 0;
        let mut k: usize = 16;
        proof {
            assert forall|j: int| 0 <= j < 16 implies #[trigger] Str16(0)@[j] == 0u8 by {
                lemma_lanes_of_zero128(j as u128);
            }
        }
        while k > 0
            invariant
                k <= 16,
                forall|j: int|
                    0 <= j < 16 ==> #[trigger] Str16(x)@[j] == if j < 16 - k {
                        s@[k + j]
                    } else {
                        0u8
                    },
            decreases k,
        {
            k -= 1;
            let v = s[k];
            proof {
                assert(Str16(x)@[15] == 0u8);
                assert forall|j: int| 0 <= j < 16 implies #[trigger] Str16((x << 8) | v as u128)@[j] == if j
                    < 16 - k {
                    s@[k + j]
                } else {
                    0u8
                } by {
                    lemma_shift_in128(x, v, j as u128);
                    if j > 0 {
                        assert(Str16(x)@[j - 1] == lane128(x, (j - 1) as u128));
                    }
                }
            }
            x = (x << 8) | v as u128;
        }
        let r = Str16(x);
        assert(r@ =~= s@);
        r
    }

    /// The value holding the text of a literal; a literal longer than sixteen bytes is
    /// not allowed.
    pub fn from_literal(s: &'static str) -> (r: Self)
        requires
            s.spec_bytes().len() <= 16,
        ensures
            r@ == padded(s.spec_bytes(), 16),
    {
        Self::from_bytes(zero_padded(s.as_bytes()))
    }

    /// The value holding the bytes of `s`, zero-padded; `TooLong` when `s` has more
    /// than sixteen bytes.
    pub fn from_text(s: &str) -> (r: Result<Self, TooLong>)
        ensures
            r is Ok <==> s.spec_bytes().len() <= 16,
            r matches Ok(v) ==> v@ == padded(s.spec_bytes(), 16),
            r matches Err(e) ==> e.input@ == s.spec_bytes() && e.capacity == 16,
    {
        Self::from_slice(s.as_bytes())
    }

    /// The value holding `b`, zero-padded; `TooLong` when `b` has more than 16 bytes.
    pub(crate) fn from_slice(b: &[u8]) -> (r: Result<Self, TooLong>)
        ensures
            r is Ok <==> b@.len() <= 16,
            r matches Ok(v) ==> v@ == padded(b@, 16),
            r matches Err(e) ==> e.input@ == b@ && e.capacity == 16,
    {
        if b.len() > 16 {
            Err(TooLong { input: slice_to_vec(b), capacity: 16 })
        } else {
            Ok(Self::from_bytes(zero_padded(b)))
        }
    }

    /// ASCII lowercasing of every byte, computed on all sixteen lanes at once.
    pub fn to_ascii_lowercase(self) -> (r: Self)
        ensures
            r@ == lowered(self@),
    {
        let x = self.0;
        proof {
            lemma_in_range_fits128(x);
        }
        let low7 = x & 0x7f7f7f7f7f7f7f7f7f7f7f7f7f7f7f7f;
        let at_least = low7 + 0x3f3f3f3f3f3f3f3f3f3f3f3f3f3f3f3f;
        let above = low7 + 0x25252525252525252525252525252525;
        let upper = at_least & !above & !x & 0x80808080808080808080808080808080;
        let r = Str16(x | (upper >> 2));
        proof {
            assert(r.0 == swar_lower128(x));
            assert forall|i: int| 0 <= i < 16 implies r@[i] == lowered(self@)[i] by {
                lemma_swar_lower128(x, i as u128);
            }
            assert(r@ =~= lowered(self@));
        }
        r
    }

    /// ASCII uppercasing of every byte, computed on all sixteen lanes at once.
    pub fn to_ascii_uppercase(self) -> (r: Self)
        ensures
            r@ == uppered(self@),
    {
        let x = self.0;
        proof {
            lemma_in_range_fits128(x);
        }
        let low7 = x & 0x7f7f7f7f7f7f7f7f7f7f7f7f7f7f7f7f;
        let at_least = low7 + 0x1f1f1f1f1f1f1f1f1f1f1f1f1f1f1f1f;
        let above = low7 + 0x05050505050505050505050505050505;
        let lower = at_least & !above & !x & 0x80808080808080808080808080808080;
        let r = Str16(x & !(lower >> 2));
        proof {
            assert(r.0 == swar_upper128(x));
            assert forall|i: int| 0 <= i < 16 implies r@[i] == uppered(self@)[i] by {
                lemma_swar_upper128(x, i as u128);
            }
            assert(r@ =~= uppered(self@));
        }
        r
    }

    /// Whether `self` starts with the text of `s`: the bytes agree at every position
    /// before the first zero byte of `s`. An empty `s` matches everything.
    pub fn starts_with(&self, s: Str16) -> (r: bool)
        ensures
            r == prefix_match(self@, s@),
    {
        proof {
            lemma_text_len(s@);
        }
        let mut i: usize = 0;
        while i < 16
            invariant
                i <= 16,
                i <= text_len(s@),
                forall|k: int| 0 <= k < i ==> self@[k] == s@[k],
            decreases 16 - i,
        {
            proof {
                lemma_text_len(s@);
            }
            let b = s.byte(i);
            if b == 0 {
                return true;
            }
            if self.byte(i) != b {
                return false;
            }
            i += 1;
        }
        true
    }

    /// The text: the bytes before the first zero byte, decoded as UTF-8 with
    /// replacement characters for invalid sequences.
    pub fn to_text(&self) -> (r: String)
        ensures
            r@ == utf8_lossy(text_of(self@)),
            valid_utf8(text_of(self@)) ==> r@ == decode_utf8(text_of(self@)),
    {
        let b = self.bytes();
        let t = text_bytes(&b);
        decode_lossy(t.as_slice())
    }
}

impl std::str::FromStr for Str16 {
    type Err = TooLong;

    fn from_str(s: &str) -> Result<Self, TooLong> {
        Self::from_text(s)
    }
}

} // verus!
