//! Bytes and borrowed ASCII text.

use vstd::prelude::*;
use vstd::slice::slice_subrange;

use crate::result::Error;

verus! {

/// The field separator.
pub const COMMA: u8 = 0x2c;

/// The record separator.
pub const LINE_FEED: u8 = 0x0a;

/// May precede a line feed, or end the last line, and is then dropped.
pub const CARRIAGE_RETURN: u8 = 0x0d;

/// Whether `b` lies in the ASCII range.
pub open spec fn is_ascii(b: u8) -> bool {
    b < 0x80
}

/// Whether `b` is an ASCII digit.
pub open spec fn is_digit(b: u8) -> bool {
    0x30 <= b <= 0x39
}

/// Whether `b` is an ASCII letter or digit.
pub open spec fn is_alphanumeric(b: u8) -> bool {
    is_digit(b) || (0x41 <= b <= 0x5a) || (0x61 <= b <= 0x7a)
}

/// Whether `b` is one of the punctuation marks a field may carry:
/// space, `-`, `.`, `/`, `:` and `_`. Quotes, the backslash and the two
/// separators are deliberately absent, so a field never needs escaping.
pub open spec fn is_allowed_special(b: u8) -> bool {
    b == 0x20 || b == 0x2d || b == 0x2e || b == 0x2f || b == 0x3a || b == 0x5f
}

/// Whether `b` may occur inside a field.
pub open spec fn is_field_byte(b: u8) -> bool {
    is_alphanumeric(b) || is_allowed_special(b)
}

/// Whether `b` may occur inside a field.
pub fn is_allowed_in_field(b: u8) -> (allowed: bool)
    ensures
        allowed == is_field_byte(b),
{
    (0x30 <= b && b <= 0x39) || (0x41 <= b && b <= 0x5a) || (0x61 <= b && b <= 0x7a) || b == 0x20
        || b == 0x2d || b == 0x2e || b == 0x2f || b == 0x3a || b == 0x5f
}

/// Whether every byte of `s` is ASCII.
pub open spec fn all_ascii(s: Seq<u8>) -> bool {
    forall|i: int| 0 <= i < s.len() ==> is_ascii(#[trigger] s[i])
}

/// Whether every byte of `s` may occur inside a field.
pub open spec fn all_field_bytes(s: Seq<u8>) -> bool {
    forall|i: int| 0 <= i < s.len() ==> is_field_byte(#[trigger] s[i])
}

/// Text that is known to be ASCII, borrowed from the buffer it was read
/// from. Nothing is copied: the text lives as long as that buffer.
#[derive(Clone, Copy, Debug, PartialEq, Eq)]
pub struct AsciiText<'a> {
    bytes: &'a [u8],
}

impl<'a> View for AsciiText<'a> {
    type V = Seq<u8>;

    closed spec fn view(&self) -> Seq<u8> {
        self.bytes@
    }
}

impl<'a> AsciiText<'a> {
    #[verifier::type_invariant]
    spec fn holds_ascii(self) -> bool {
        all_ascii(self.bytes@)
    }

    /// The empty text.
    pub fn empty() -> (text: Self)
        ensures
            text@ == Seq::<u8>::empty(),
    {
        let bytes: &'a [u8] = &[];
        assert(bytes@.len() == 0);
        Self { bytes }
    }

    /// Takes `bytes` as text if all of them are ASCII, and refuses them
    /// with [`Error::InvalidAscii`] otherwise.
    pub fn from_ascii(bytes: &'a [u8]) -> (r: Result<Self, Error>)
        ensures
            all_ascii(bytes@) ==> r is Ok && r->Ok_0@ == bytes@,
            !all_ascii(bytes@) ==> r == Err::<Self, Error>(Error::InvalidAscii),
    {
        let mut i: usize = 0;
        while i < bytes.len()
            invariant
                i <= bytes@.len(),
                all_ascii(bytes@.take(i as int)),
            decreases bytes@.len() - i,
        {
            if bytes[i] >= 0x80 {
                return Err(Error::InvalidAscii);
            }
            assert(bytes@.take(i + 1) =~= bytes@.take(i as int).push(bytes@[i as int]));
            i += 1;
        }
        assert(bytes@.take(i as int) =~= bytes@);
        Ok(Self { bytes })
    }

    /// Takes `bytes`, which the caller has already found to be ASCII.
    pub(crate) fn from_checked(bytes: &'a [u8]) -> (text: Self)
        requires
            all_ascii(bytes@),
        ensures
            text@ == bytes@,
    {
        Self { bytes }
    }

    /// The part of the text from `start` up to, but without, `end`.
    pub fn slice(&self, start: usize, end: usize) -> (part: Self)
        requires
            start <= end <= self@.len(),
        ensures
            part@ == self@.subrange(start as int, end as int),
    {
        proof {
            use_type_invariant(self);
        }
        Self { bytes: slice_subrange(self.bytes, start, end) }
    }

    /// The bytes of the text.
    pub fn as_bytes(&self) -> (bytes: &'a [u8])
        ensures
            bytes@ == self@,
            all_ascii(bytes@),
    {
        proof {
            use_type_invariant(self);
        }
        self.bytes
    }

    /// The number of bytes.
    pub fn len(&self) -> (n: usize)
        ensures
            n == self@.len(),
    {
        self.bytes.len()
    }

    /// Whether the text has no bytes at all.
    pub fn is_empty(&self) -> (b: bool)
        ensures
            b == (self@.len() == 0),
    {
        self.bytes.len() == 0
    }

    /// Byte-for-byte comparison.
    pub fn same_as(&self, other: &AsciiText<'_>) -> (b: bool)
        ensures
            b == (self@ == other@),
    {
        same_bytes(self.bytes, other.bytes)
    }
}

/// The bytes of a text that may be missing.
pub open spec fn text_model(text: Option<AsciiText<'_>>) -> Option<Seq<u8>> {
    match text {
        Some(text) => Some(text@),
        None => None,
    }
}

/// Whether two slices hold the same bytes.
pub fn same_bytes(a: &[u8], b: &[u8]) -> (same: bool)
    ensures
        same == (a@ == b@),
{
    if a.len() != b.len() {
        return false;
    }
    let mut i: usize = 0;
    while i < a.len()
        invariant
            a@.len() == b@.len(),
            i <= a@.len(),
            a@.take(i as int) == b@.take(i as int),
        decreases a@.len() - i,
    {
        if a[i] != b[i] {
            return false;
        }
        assert(a@.take(i + 1) =~= a@.take(i as int).push(a@[i as int]));
        assert(b@.take(i + 1) =~= b@.take(i as int).push(b@[i as int]));
        i += 1;
    }
    assert(a@.take(i as int) =~= a@);
    assert(b@.take(i as int) =~= b@);
    true
}

} // verus!
