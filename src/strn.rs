//! `StrN<N>`: up to `N` bytes held in a byte array, for any capacity `N`.
use crate::ascii::{
    holds_byte, lemma_text_len, lower_byte, lowered, padded, prefix_match, text_len, text_of,
    upper_byte, uppered,
};
use crate::text::{decode_lossy, text_bytes, text_length, utf8_lossy, utf8_str, zero_padded, TooLong};
use vstd::prelude::*;
use vstd::slice::{slice_subrange, slice_to_vec};
use vstd::string::StringSliceAdditionalSpecFns;
use vstd::utf8::{decode_utf8, valid_utf8};

verus! {

/// A string of at most `N` bytes held in an array of `N` bytes.
///
/// Built from text, the bytes after it are zero; a text of `N` bytes has no terminator.
/// Case conversion goes byte by byte. Equality, hashing and ordering are those of the
/// array, so ordering compares byte positions in order.
#[derive(Clone, Copy, PartialEq, Eq, Hash, PartialOrd, Ord, Debug)]
pub struct StrN<const N: usize> {
    data: [u8; N],
}

impl<const N: usize> View for StrN<N> {
    type V = Seq<u8>;

    /// The `N` bytes, in order.
    closed spec fn view(&self) -> Seq<u8> {
        self.data@
    }
}

impl<const N: usize> Default for StrN<N> {
    fn default() -> (r: Self)
        ensures
            r@ == padded(Seq::empty(), N as nat),
    {
        Self::empty()
    }
}

impl<const N: usize> StrN<N> {
    /// The empty string: every byte zero.
    pub fn empty() -> (r: Self)
        ensures
            r@ == padded(Seq::empty(), N as nat),
    {
        let r = StrN { data: [0u8; N] };
        assert(r@ =~= padded(Seq::empty(), N as nat));
        r
    }

    /// Whether the text is empty: the capacity is zero or the first byte is zero.
    pub fn is_empty(&self) -> (r: bool)
        ensures
            r == (text_len(self@) == 0),
    {
        proof {
            lemma_text_len(self@);
        }
        N == 0 || self.data[0] == 0
    }

    /// The capacity in bytes.
    pub fn max_size() -> (r: usize)
        ensures
            r == N,
    {
        N
    }

    /// Byte `i`, raw; bytes after the text read as zero.
    pub fn index(&self, i: usize) -> (r: u8)
        requires
            i < N,
        ensures
            r == self@[i as int],
    {
        self.data[i]
    }

    /// The value whose bytes are `s`, taken as they are.
    pub fn from_array(s: [u8; N]) -> (r: Self)
        ensures
            r@ == s@,
    {
        StrN { data: s }
    }

    /// The value holding `s`, zero-padded; `TooLong` when `s` has more than `N` bytes.
    pub fn from_bytes(s: &[u8]) -> (r: Result<Self, TooLong>)
        ensures
            r is Ok <==> s@.len() <= N,
            r matches Ok(v) ==> v@ == padded(s@, N as nat),
            r matches Err(e) ==> e.input@ == s@ && e.capacity == N,
    {
        if s.len() > N {
            Err(TooLong { input: slice_to_vec(s), capacity: N })
        } else {
            Ok(StrN { data: zero_padded(s) })
        }
    }

    /// The value holding the text of a literal; a literal longer than `N` bytes is not
    /// allowed.
    pub fn from_literal(s: &'static str) -> (r: Self)
        requires
            s.spec_bytes().len() <= N,
        ensures
            r@ == padded(s.spec_bytes(), N as nat),
    {
        StrN { data: zero_padded(s.as_bytes()) }
    }

    /// The value holding the bytes of `s`, zero-padded; `TooLong` when `s` has more
    /// than `N` bytes.
    pub fn from_text(s: &str) -> (r: Result<Self, TooLong>)
        ensures
            r is Ok <==> s.spec_bytes().len() <= N,
            r matches Ok(v) ==> v@ == padded(s.spec_bytes(), N as nat),
            r matches Err(e) ==> e.input@ == s.spec_bytes() && e.capacity == N,
    {
        Self::from_bytes(s.as_bytes())
    }

    /// ASCII lowercasing of every byte.
    pub fn to_ascii_lowercase(self) -> (r: Self)
        ensures
            r@ == lowered(self@),
    {
        self.to_ascii_lowercase_const()
    }

    /// ASCII lowercasing of every byte, one byte at a time.
    pub fn to_ascii_lowercase_const(self) -> (r: Self)
        ensures
            r@ == lowered(self@),
    {
        let mut data = self.data;
        let mut i: usize = 0;
        while i < N
            invariant
                i <= N,
                data@.len() == N,
                forall|k: int| 0 <= k < i ==> data@[k] == lower_byte(self@[k]),
                forall|k: int| i <= k < N ==> data@[k] == self@[k],
            decreases N - i,
        {
            let b = data[i];
            data[i] = if 0x41 <= b && b <= 0x5a {
                b + 0x20
            } else {
                b
            };
            i += 1;
        }
        let r = StrN { data };
        assert(r@ =~= lowered(self@));
        r
    }

    /// ASCII uppercasing of every byte.
    pub fn to_ascii_uppercase(self) -> (r: Self)
        ensures
            r@ == uppered(self@),
    {
        self.to_ascii_uppercase_const()
    }

    /// ASCII uppercasing of every byte, one byte at a time.
    pub fn to_ascii_uppercase_const(self) -> (r: Self)
        ensures
            r@ == uppered(self@),
    {
        let mut data = self.data;
        let mut i: usize = 0;
        while i < N
            invariant
                i <= N,
                data@.len() == N,
                forall|k: int| 0 <= k < i ==> data@[k] == upper_byte(self@[k]),
                forall|k: int| i <= k < N ==> data@[k] == self@[k],
            decreases N - i,
        {
            let b = data[i];
            data[i] = if 0x61 <= b && b <= 0x7a {
                b - 0x20
            } else {
                b
            };
            i += 1;
        }
        let r = StrN { data };
        assert(r@ =~= uppered(self@));
        r
    }

    /// Whether `self` starts with the text of `s`: the bytes agree at every position
    /// before the first zero byte of `s`. An empty `s` matches everything.
    pub fn starts_with(&self, s: StrN<N>) -> (r: bool)
        ensures
            r == prefix_match(self@, s@),
    {
        self.starts_with_const(s)
    }

    /// Whether `self` starts with the text of `s`, scanning positions in order.
    pub fn starts_with_const(&self, s: StrN<N>) -> (r: bool)
        ensures
            r == prefix_match(self@, s@),
    {
        proof {
            lemma_text_len(s@);
        }
        let mut i: usize = 0;
        while i < N
            invariant
                i <= N,
                s@.len() == N,
                i <= text_len(s@),
                forall|k: int| 0 <= k < i ==> self@[k] == s@[k],
            decreases N - i,
        {
            proof {
                lemma_text_len(s@);
            }
            if s.index(i) == 0 {
                return true;
            }
            if self.index(i) != s.index(i) {
                return false;
            }
            i += 1;
        }
        true
    }

    /// Whether `c` occurs among the bytes before the first zero byte.
    pub fn contains_ascii(&self, c: u8) -> (r: bool)
        ensures
            r == holds_byte(self@, c),
    {
        proof {
            lemma_text_len(self@);
        }
        let mut i: usize = 0;
        while i < N
            invariant
                i <= N,
                self@.len() == N,
                i <= text_len(self@),
                forall|k: int| 0 <= k < i ==> self@[k] != c,
            decreases N - i,
        {
            proof {
                lemma_text_len(self@);
            }
            if self.index(i) == 0 {
                return false;
            }
            if self.index(i) == c {
                return true;
            }
            i += 1;
        }
        false
    }

    /// The text borrowed as a string slice; the bytes before the first zero byte must be
    /// valid UTF-8.
    pub fn as_str(&self) -> (r: &str)
        requires
            valid_utf8(text_of(self@)),
        ensures
            r@ == decode_utf8(text_of(self@)),
    {
        let all = self.data.as_slice();
        let n = text_length(all);
        let t = slice_subrange(all, 0, n);
        assert(t@ =~= text_of(self@));
        match utf8_str(t) {
            Some(s) => s,
            None => "",
        }
    }

    /// The bytes before the first zero byte.
    pub fn to_vec(&self) -> (r: Vec<u8>)
        ensures
            r@ == text_of(self@),
    {
        text_bytes(self.data.as_slice())
    }

    /// The text: the bytes before the first zero byte, decoded as UTF-8 with
    /// replacement characters for invalid sequences.
    pub fn to_text(&self) -> (r: String)
        ensures
            r@ == utf8_lossy(text_of(self@)),
            valid_utf8(text_of(self@)) ==> r@ == decode_utf8(text_of(self@)),
    {
        let t = self.to_vec();
        decode_lossy(t.as_slice())
    }
}

impl<const N: usize> AsRef<[u8]> for StrN<N> {
    /// All `N` bytes, those after the text included.
    fn as_ref(&self) -> &[u8] {
        self.data.as_slice()
    }
}

impl<const N: usize> std::str::FromStr for StrN<N> {
    type Err = TooLong;

    fn from_str(s: &str) -> Result<Self, TooLong> {
        Self::from_text(s)
    }
}

} // verus!
