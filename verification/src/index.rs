//! The integer types that can number accounts.

use crate::bytes::{
    le_bytes, lemma_radix_values, put_u32, put_u64, radix, take_u32, take_u64,
};
use vstd::prelude::*;

verus! {

/// An unsigned integer type of at least 32 bits that numbers accounts.
///
/// On the wire a value of it is `width()` bytes, low byte first.
pub trait IndexInt: Copy + Sized {
    /// The number of bytes of the type.
    spec fn width() -> nat;

    /// The number that a value of the type stands for.
    spec fn value(self) -> nat;

    /// The value of the type that stands for `v`.
    spec fn from_value(v: nat) -> Self;

    /// Every 32-bit number has a value of the type, every value fits the
    /// width, and no two values stand for the same number.
    proof fn lemma_index_int(self, v: nat)
        ensures
            Self::width() >= 4,
            self.value() < radix(Self::width()),
            Self::from_value(self.value()) == self,
            v < radix(Self::width()) ==> Self::from_value(v).value() == v,
    ;

    /// The value as a 32-bit integer, when it is one.
    fn narrow(self) -> (r: Option<u32>)
        ensures
            match r {
                Some(x) => x == self.value(),
                None => self.value() > 0xFFFF_FFFF,
            },
    ;

    /// The value of the type that stands for `x`.
    fn widen(x: u32) -> (r: Self)
        ensures
            r == Self::from_value(x as nat),
    ;

    /// Appends the bytes of the value, low byte first.
    fn encode_to(self, out: &mut Vec<u8>)
        ensures
            final(out)@ == old(out)@ + le_bytes(self.value(), Self::width()),
    ;

    /// Reads a value from the first `width()` bytes and hands back what
    /// follows them; `None` when fewer bytes are there.
    fn decode(input: &[u8]) -> (r: Option<(Self, &[u8])>)
        ensures
            match r {
                Some((i, rest)) => input@ == le_bytes(i.value(), Self::width()) + rest@,
                None => input@.len() < Self::width(),
            },
    ;
}

impl IndexInt for u32 {
    open spec fn width() -> nat {
        4
    }

    open spec fn value(self) -> nat {
        self as nat
    }

    open spec fn from_value(v: nat) -> u32 {
        v as u32
    }

    proof fn lemma_index_int(self, v: nat) {
        lemma_radix_values();
    }

    fn narrow(self) -> (r: Option<u32>) {
        Some(self)
    }

    fn widen(x: u32) -> (r: u32) {
        x
    }

    fn encode_to(self, out: &mut Vec<u8>) {
        put_u32(out, self)
    }

    fn decode(input: &[u8]) -> (r: Option<(u32, &[u8])>) {
        match take_u32(input) {
            Ok(found) => Some(found),
            Err(_) => None,
        }
    }
}

impl IndexInt for u64 {
    open spec fn width() -> nat {
        8
    }

    open spec fn value(self) -> nat {
        self as nat
    }

    open spec fn from_value(v: nat) -> u64 {
        v as u64
    }

    proof fn lemma_index_int(self, v: nat) {
        lemma_radix_values();
    }

    fn narrow(self) -> (r: Option<u32>) {
        if self <= 0xFFFF_FFFF {
            Some(self as u32)
        } else {
            None
        }
    }

    fn widen(x: u32) -> (r: u64) {
        x as u64
    }

    fn encode_to(self, out: &mut Vec<u8>) {
        put_u64(out, self)
    }

    fn decode(input: &[u8]) -> (r: Option<(u64, &[u8])>) {
        match take_u64(input) {
            Ok(found) => Some(found),
            Err(_) => None,
        }
    }
}

} // verus!
