//! Generations: the version counter of one component.

use vstd::prelude::*;

use crate::result::Error;
use crate::text::{is_digit, AsciiText};

verus! {

/// How often a component has been replaced for security reasons. A higher
/// generation is newer. Generations of different components have nothing
/// to say about each other: compare them only after the names matched.
#[derive(Clone, Copy, Debug, PartialEq, Eq, PartialOrd, Ord, Hash)]
pub struct Generation(u32);

impl View for Generation {
    type V = nat;

    closed spec fn view(&self) -> nat {
        self.0 as nat
    }
}

/// The number a digit stands for; zero for any other byte.
pub open spec fn digit_value(b: u8) -> nat {
    if is_digit(b) {
        (b - 0x30) as nat
    } else {
        0
    }
}

/// The number that the digits of `s` spell in base ten.
pub open spec fn digits_value(s: Seq<u8>) -> nat
    decreases s.len(),
{
    if s.len() == 0 {
        0
    } else {
        digits_value(s.drop_last()) * 10 + digit_value(s.last())
    }
}

/// Whether `s` is a decimal literal in its one canonical spelling: at
/// least one digit, digits only (no sign, no blank), and no zero in front
/// of another digit.
pub open spec fn is_decimal(s: Seq<u8>) -> bool {
    &&& s.len() > 0
    &&& forall|i: int| 0 <= i < s.len() ==> is_digit(#[trigger] s[i])
    &&& s.len() > 1 ==> s[0] != 0x30
}

/// The generation that the field `s` spells, if it spells one: `s` must be
/// a canonical decimal literal whose value fits 32 bits.
pub open spec fn parse_generation(s: Seq<u8>) -> Option<nat> {
    if is_decimal(s) && digits_value(s) <= u32::MAX {
        Some(digits_value(s))
    } else {
        None
    }
}

/// A number never shrinks when more digits follow.
pub proof fn lemma_digits_value_grows(s: Seq<u8>, n: int)
    requires
        0 <= n <= s.len(),
    ensures
        digits_value(s.take(n)) <= digits_value(s),
    decreases s.len(),
{
    if n < s.len() {
        lemma_digits_value_grows(s.drop_last(), n);
        assert(s.drop_last().take(n) =~= s.take(n));
    } else {
        assert(s.take(n) =~= s);
    }
}

impl Generation {
    /// The generation with the given number. Every 32-bit number is one,
    /// zero included.
    pub fn new(value: u32) -> (generation: Self)
        ensures
            generation@ == value,
    {
        Self(value)
    }

    /// The number of the generation.
    pub fn to_u32(self) -> (value: u32)
        ensures
            value == self@,
    {
        self.0
    }

    /// Whether `self` is strictly older than `other`.
    pub fn is_older_than(self, other: Generation) -> (older: bool)
        ensures
            older == (self@ < other@),
    {
        self.0 < other.0
    }

    /// Reads a generation from a field. The field must be a canonical
    /// decimal literal that fits 32 bits; anything else (an empty field, a
    /// sign, a blank, a letter, a needless leading zero, a number too
    /// large) is [`Error::InvalidGeneration`].
    pub fn parse(text: AsciiText<'_>) -> (r: Result<Self, Error>)
        ensures
            match parse_generation(text@) {
                Some(value) => r is Ok && r->Ok_0@ == value,
                None => r == Err::<Self, Error>(Error::InvalidGeneration),
            },
    {
        let bytes = text.as_bytes();
        let n: usize = bytes.len();
        if n == 0 {
            return Err(Error::InvalidGeneration);
        }
        if n > 1 && bytes[0] == 0x30 {
            return Err(Error::InvalidGeneration);
        }
        let mut value: u64 = 0;
        let mut i: usize = 0;
        while i < n
            invariant
                bytes@ == text@,
                n == bytes@.len(),
                n > 1 ==> bytes@[0] != 0x30,
                0 < n,
                i <= n,
                forall|j: int| 0 <= j < i ==> is_digit(#[trigger] bytes@[j]),
                value == digits_value(bytes@.take(i as int)),
                value <= u32::MAX,
            decreases n - i,
        {
            let b: u8 = bytes[i];
            if b < 0x30 || b > 0x39 {
                return Err(Error::InvalidGeneration);
            }
            proof {
                let next = bytes@.take(i + 1);
                assert(next.drop_last() =~= bytes@.take(i as int));
                assert(next.last() == b);
            }
            value = value * 10 + (b - 0x30) as u64;
            if value > u32::MAX as u64 {
                proof {
                    lemma_digits_value_grows(bytes@, i + 1);
                }
                return Err(Error::InvalidGeneration);
            }
            i += 1;
        }
        assert(bytes@.take(i as int) =~= bytes@);
        Ok(Self(value as u32))
    }
}

impl Default for Generation {
    /// Generation zero.
    fn default() -> (generation: Self)
        ensures
            generation@ == 0,
    {
        Self(0)
    }
}

} // verus!
