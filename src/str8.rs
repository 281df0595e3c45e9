//! `Str8`: up to eight bytes packed into one `u64`.
use crate::ascii::{
    lemma_text_len, lowered, padded, prefix_match, text_len, text_of, uppered,
};
use crate::lanes::{
    lane64, lemma_in_range_fits64, lemma_lanes_eq64, lemma_lanes_of_zero64, lemma_shift_in64,
    lemma_swar_lower64, lemma_swar_upper64, swar_lower64, swar_upper64,
};
use crate::text::{decode_lossy, text_bytes, utf8_lossy, zero_padded, TooLong};
use vstd::prelude::*;
use vstd::slice::slice_to_vec;
use vstd::string::StringSliceAdditionalSpecFns;
use vstd::utf8::{decode_utf8, valid_utf8};

verus! {

/// A string of at most eight bytes held in one `u64`, byte `i` in bits `8 * i .. 8 * i + 8`.
///
/// Built from text, the bytes after it are zero; a text of eight bytes has no
/// terminator. Equality, hashing and ordering are those of the underlying integer, so
/// ordering compares the last byte first.
#[derive(Clone, Copy, PartialEq, Eq, Structural, Hash, PartialOrd, Ord, Debug, Default)]
pub struct Str8(pub u64);

impl View for Str8 {
    type V = Seq<u8>;

    /// The eight bytes, in order.
    open spec fn view(&self) -> Seq<u8> {
        Seq::new(8, |i: int| lane64(self.0, i as u64))
    }
}

/// Two values with the same bytes are the same value.
pub proof fn lemma_str8_view_injective(a: Str8, b: Str8)
    requires
        a@ == b@,
    ensures
        a == b,
{
    assert forall|i: u64| i < 8 implies lane64(a.0, i) == lane64(b.0, i) by {
        assert(a@[i as int] == b@[i as int]);
        assert(a@[i as int] == lane64(a.0, (i as int) as u64));
        assert((i as int) as u64 == i);
    }
    lemma_lanes_eq64(a.0, b.0);
}

impl Str8 {
    /// The empty string: every byte zero.
    pub fn empty() -> (r: Self)
        ensures
            r.0 == 0,
            r@ == padded(Seq::empty(), 8),
    {
        proof {
            assert forall|i: int| 0 <= i < 8 implies #[trigger] Str8(0)@[i] == 0u8 by {
                lemma_lanes_of_zero64(i as u64);
            }
            assert(Str8(0)@ =~= padded(Seq::empty(), 8));
        }
        Str8(0)
    }

    /// Whether the underlying integer is zero, that is, whether every byte is zero.
    pub fn is_empty(&self) -> (r: bool)
        ensures
            r == (self.0 == 0),
            r == (self@ == padded(Seq::empty(), 8)),
    {
        let r = self.0 == 0;
        proof {
            assert forall|i: int| 0 <= i < 8 implies #[trigger] Str8(0)@[i] == 0u8 by {
                lemma_lanes_of_zero64(i as u64);
            }
            assert(Str8(0)@ =~= padded(Seq::empty(), 8));
            if self@ == padded(Seq::<u8>::empty(), 8) {
                lemma_str8_view_injective(*self, Str8(0));
            }
        }
        r
    }

    /// The capacity in bytes.
    pub fn max_size() -> (r: usize)
        ensures
            r == 8,
    {
        8
    }

    /// Byte `i`.
    pub(crate) fn byte(&self, i: usize) -> (r: u8)
        requires
            i < 8,
        ensures
            r == self@[i as int],
    {
        ((self.0 >> (8 * i as u64)) & 0xff) as u8
    }

    /// The eight bytes, in order.
    pub(crate) fn bytes(&self) -> (r: [u8; 8])
        ensures
            r@ == self@,
    {
        let mut r = [0u8; 8];
        let mut i: usize = 0;
        while i < 8
            invariant
                i <= 8,
                r@.len() == 8,
                forall|k: int| 0 <= k < i ==> r@[k] == self@[k],
            decreases 8 - i,
        {
            r[i] = self.byte(i);
            i += 1;
        }
        assert(r@ =~= self@);
        r
    }

    /// Byte `i` as a character; bytes after the text read as `'\0'`.
    pub fn index(&self, i: usize) -> (r: char)
        requires
            i < 8,
        ensures
            r == self@[i as int] as char,
    {
        self.byte(i) as char
    }

    /// The value whose bytes are `s`, taken as they are.
    pub fn from_bytes(s: [u8; 8]) -> (r: Self)
        ensures
            r@ == s@,
    {
        let mut x: u64 = 0;
        let mut k: usize = 8;
        proof {
            assert forall|j: int| 0 <= j < 8 implies #[trigger] Str8(0)@[j] == 0u8 by {
                lemma_lanes_of_zero64(j as u64);
            }
        }
        while k > 0
            invariant
                k <= 8,
                forall|j: int|
                    0 <= j < 8 ==> #[trigger] Str8(x)@[j] == if j < 8 - k {
                        s@[k + j]
                    } else {
                        0u8
                    },
            decreases k,
        {
            k -= 1;
            let v = s[k];
            proof {
                assert(Str8(x)@[7] == 0u8);
                assert forall|j: int| 0 <= j < 8 implies #[trigger] Str8((x << 8) | v as u64)@[j] == if j
                    < 8 - k {
                    s@[k + j]
                } else {
                    0u8
                } by {
                    lemma_shift_in64(x, v, j as u64);
                    if j > 0 {
                        assert(Str8(x)@[j - 1] == lane64(x, (j - 1) as u64));
                    }
                }
            }
            x = (x << 8) | v as u64;
        }
        let r = Str8(x);
        assert(r@ =~= s@);
        r
    }

    /// The value holding the text of a literal; a literal longer than eight bytes is
    /// not allowed.
    pub fn from_literal(s: &'static str) -> (r: Self)
        requires
            s.spec_bytes().len() <= 8,
        ensures
            r@ == padded(s.spec_bytes(), 8),
    {
        Self::from_bytes(zero_padded(s.as_bytes()))
    }

    /// The value holding the bytes of `s`, zero-padded; `TooLong` when `s` has more
    /// than eight bytes.
    pub fn from_text(s: &str) -> (r: Result<Self, TooLong>)
        ensures
            r is Ok <==> s.spec_bytes().len() <= 8,
            r matches Ok(v) ==> v@ == padded(s.spec_bytes(), 8),
            r matches Err(e) ==> e.input@ == s.spec_bytes() && e.capacity == 8,
    {
        Self::from_slice(s.as_bytes())
    }

    /// The value holding `b`, zero-padded; `TooLong` when `b` has more than 8 bytes.
    pub(crate) fn from_slice(b: &[u8]) -> (r: Result<Self, TooLong>)
        ensures
            r is Ok <==> b@.len() <= 8,
            r matches Ok(v) ==> v@ == padded(b@, 8),
            r matches Err(e) ==> e.input@ == b@ && e.capacity == 8,
    {
        if b.len() > 8 {
            Err(TooLong { input: slice_to_vec(b), capacity: 8 })
        } else {
            Ok(Self::from_bytes(zero_padded(b)))
        }
    }

    /// ASCII lowercasing of every byte, computed on all eight lanes at once.
    pub fn to_ascii_lowercase(self) -> (r: Self)
        ensures
            r@ == lowered(self@),
    {
        let x = self.0;
        proof {
            lemma_in_range_fits64(x);
        }
        let low7 = x & 0x7f7f7f7f7f7f7f7f;
        let at_least = low7 + 0x3f3f3f3f3f3f3f3f;
        let above = low7 + 0x2525252525252525;
        let upper = at_least & !above & !x & 0x8080808080808080;
        let r = Str8(x | (upper >> 2));
        proof {
            assert(r.0 == swar_lower64(x));
            assert forall|i: int| 0 <= i < 8 implies r@[i] == lowered(self@)[i] by {
                lemma_swar_lower64(x, i as u64);
            }
            assert(r@ =~= lowered(self@));
        }
        r
    }

    /// ASCII uppercasing of every byte, computed on all eight lanes at once.
    pub fn to_ascii_uppercase(self) -> (r: Self)
        ensures
            r@ == uppered(self@),
    {
        let x = self.0;
        proof {
            lemma_in_range_fits64(x);
        }
        let low7 = x & 0x7f7f7f7f7f7f7f7f;
        let at_least = low7 + 0x1f1f1f1f1f1f1f1f;
        let above = low7 + 0x0505050505050505;
        let lower = at_least & !above & !x & 0x8080808080808080;
        let r = Str8(x & !(lower >> 2));
        proof {
            assert(r.0 == swar_upper64(x));
            assert forall|i: int| 0 <= i < 8 implies r@[i] == uppered(self@)[i] by {
                lemma_swar_upper64(x, i as u64);
            }
            assert(r@ =~= uppered(self@));
        }
        r
    }

    /// Whether `self` starts with the text of `s`: the bytes agree at every position
    /// before the first zero byte of `s`. An empty `s` matches everything.
    pub fn starts_with(&self, s: Str8) -> (r: bool)
        ensures
            r == prefix_match(self@, s@),
    {
        proof {
            lemma_text_len(s@);
        }
        let mut i: usize = 0;
        while i < 8
            invariant
                i <= 8,
                i <= text_len(s@),
                forall|k: int| 0 <= k < i ==> self@[k] == s@[k],
            decreases 8 - i,
        {
            proof {
                lemma_text_len(s@);
            }
            let b = s.byte(i);
            if b == 0 {
                return true;
            }
            if self.byte(i) != b {
                return false;
            }
            i += 1;
        }
        true
    }

    /// The text: the bytes before the first zero byte, decoded as UTF-8 with
    /// replacement characters for invalid sequences.
    pub fn to_text(&self) -> (r: String)
        ensures
            r@ == utf8_lossy(text_of(self@)),
            valid_utf8(text_of(self@)) ==> r@ == decode_utf8(text_of(self@)),
    {
        let b = self.bytes();
        let t = text_bytes(&b);
        decode_lossy(t.as_slice())
    }
}

impl std::str::FromStr for Str8 {
    type Err = TooLong;

    fn from_str(s: &str) -> Result<Self, TooLong> {
        Self::from_text(s)
    }
}

} // verus!
