//! `Str32`: up to thirty-two bytes held as two `Str16` parts.
use crate::ascii::{
    head, lemma_case_concat, lemma_padded_split, lemma_prefix_match_concat, lowered, padded,
    prefix_match, rest, terminated, text_of, uppered,
};
use crate::str16::Str16;
use crate::text::{join, utf8_lossy, TooLong};
use vstd::prelude::*;
use vstd::slice::slice_subrange;
use vstd::string::StringSliceAdditionalSpecFns;
use vstd::utf8::{decode_utf8, valid_utf8};

verus! {

/// A string of at most thirty-two bytes: bytes `0..16` in the first part, bytes
/// `16..32` in the second.
///
/// When the first part is not full, the second part is all zero. Every operation works
/// on the two parts over their own byte ranges. Equality, hashing and ordering are
/// those of the pair of parts.
#[derive(Clone, Copy, PartialEq, Eq, Structural, Hash, PartialOrd, Ord, Debug, Default)]
pub struct Str32(pub Str16, pub Str16);

impl View for Str32 {
    type V = Seq<u8>;

    /// The thirty-two bytes, in order.
    open spec fn view(&self) -> Seq<u8> {
        self.0@ + self.1@
    }
}

impl Str32 {
    /// The empty string: every byte zero.
    pub fn empty() -> (r: Self)
        ensures
            r@ == padded(Seq::empty(), 32),
    {
        let r = Str32(Str16::empty(), Str16::empty());
        assert(r@ =~= padded(Seq::empty(), 32));
        r
    }

    /// Whether both parts are empty, that is, whether every byte is zero.
    pub fn is_empty(&self) -> (r: bool)
        ensures
            r == (self@ == padded(Seq::empty(), 32)),
    {
        let r = self.0.is_empty() && self.1.is_empty();
        proof {
            let e = Seq::<u8>::empty();
            assert(padded(e, 16) + padded(e, 16) =~= padded(e, 32));
            if self@ == padded(e, 32) {
                assert(self.0@ =~= padded(e, 16)) by {
                    assert(self.0@ =~= self@.take(16));
                }
                assert(self.1@ =~= padded(e, 16)) by {
                    assert(self.1@ =~= self@.skip(16));
                }
            }
        }
        r
    }

    /// The capacity in bytes: that of the first part and that of the second.
    pub fn max_size() -> (r: usize)
        ensures
            r == 32,
    {
        Str16::max_size() + Str16::max_size()
    }

    /// Byte `i` as a character; bytes after the text read as `'\0'`.
    pub fn index(&self, i: usize) -> (r: char)
        requires
            i < 32,
        ensures
            r == self@[i as int] as char,
    {
        if i < Str16::max_size() {
            self.0.index(i)
        } else {
            self.1.index(i - Str16::max_size())
        }
    }

    /// The value holding `b`: its first sixteen bytes in the first part, the rest in
    /// the second, each zero-padded.
    fn split(b: &[u8]) -> (r: Result<Self, TooLong>)
        ensures
            r is Ok <==> b@.len() <= 32,
            r matches Ok(v) ==> v.0@ == padded(head(b@, 16), 16) && v.1@ == padded(
                rest(b@, 16),
                16,
            ) && v@ == padded(b@, 32),
            r matches Err(e) ==> e.input@ == rest(b@, 16) && e.capacity == 16,
    {
        let n = b.len();
        let (first, second) = if n <= 16 {
            (b, slice_subrange(b, n, n))
        } else {
            (slice_subrange(b, 0, 16), slice_subrange(b, 16, n))
        };
        assert(first@ =~= head(b@, 16));
        assert(second@ =~= rest(b@, 16));
        let high = match Str16::from_slice(first) {
            Ok(v) => v,
            Err(e) => return Err(e),
        };
        let low = match Str16::from_slice(second) {
            Ok(v) => v,
            Err(e) => return Err(e),
        };
        proof {
            if n <= 32 {
                lemma_padded_split(b@, 16, 16);
            }
        }
        Ok(Str32(high, low))
    }

    /// The value holding the text of a literal; a literal longer than thirty-two
    /// bytes is not allowed.
    pub fn from_literal(s: &'static str) -> (r: Self)
        requires
            s.spec_bytes().len() <= 32,
        ensures
            r@ == padded(s.spec_bytes(), 32),
            r.0@ == padded(head(s.spec_bytes(), 16), 16),
            r.1@ == padded(rest(s.spec_bytes(), 16), 16),
    {
        match Self::split(s.as_bytes()) {
            Ok(v) => v,
            Err(_) => Self::empty(),
        }
    }

    /// The value holding the bytes of `s`: the first sixteen in the first part, the
    /// rest in the second. The second part's `TooLong`, carrying the rest, when `s` has
    /// more than thirty-two bytes.
    pub fn from_text(s: &str) -> (r: Result<Self, TooLong>)
        ensures
            r is Ok <==> s.spec_bytes().len() <= 32,
            r matches Ok(v) ==> v@ == padded(s.spec_bytes(), 32),
            r matches Ok(v) ==> v.0@ == padded(head(s.spec_bytes(), 16), 16),
            r matches Ok(v) ==> v.1@ == padded(rest(s.spec_bytes(), 16), 16),
            r matches Err(e) ==> e.input@ == rest(s.spec_bytes(), 16) && e.capacity == 16,
    {
        Self::split(s.as_bytes())
    }

    /// ASCII lowercasing of every byte, part by part.
    pub fn to_ascii_lowercase(self) -> (r: Self)
        ensures
            r@ == lowered(self@),
    {
        proof {
            lemma_case_concat(self.0@, self.1@);
        }
        Str32(self.0.to_ascii_lowercase(), self.1.to_ascii_lowercase())
    }

    /// ASCII uppercasing of every byte, part by part.
    pub fn to_ascii_uppercase(self) -> (r: Self)
        ensures
            r@ == uppered(self@),
    {
        proof {
            lemma_case_concat(self.0@, self.1@);
        }
        Str32(self.0.to_ascii_uppercase(), self.1.to_ascii_uppercase())
    }

    /// Whether each part of `self` starts with the text of the same part of `s`. For an
    /// `s` that keeps the terminator invariant, this is whether `self` starts with the
    /// text of `s`.
    pub fn starts_with(&self, s: Str32) -> (r: bool)
        ensures
            r == (prefix_match(self.0@, s.0@) && prefix_match(self.1@, s.1@)),
            terminated(s@) ==> r == prefix_match(self@, s@),
    {
        proof {
            if terminated(s@) {
                lemma_prefix_match_concat(self.0@, self.1@, s.0@, s.1@);
            }
        }
        self.0.starts_with(s.0) && self.1.starts_with(s.1)
    }

    /// The text of the first part followed by the text of the second.
    pub fn to_text(&self) -> (r: String)
        ensures
            r@ == utf8_lossy(text_of(self.0@)) + utf8_lossy(text_of(self.1@)),
            valid_utf8(text_of(self.0@)) && valid_utf8(text_of(self.1@)) ==> r@ == decode_utf8(
                text_of(self.0@),
            ) + decode_utf8(text_of(self.1@)),
    {
        join(self.0.to_text(), self.1.to_text())
    }
}

impl std::str::FromStr for Str32 {
    type Err = TooLong;

    fn from_str(s: &str) -> Result<Self, TooLong> {
        Self::from_text(s)
    }
}

} // verus!
