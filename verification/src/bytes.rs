//! Little-endian byte strings: the mathematical model and the fixed-width
//! integer primitives of the codec crate.

use parity_scale_codec::{Decode, Encode};
use vstd::prelude::*;

verus! {

/// `256^n`: the number of values that `n` bytes can hold.
pub open spec fn radix(n: nat) -> nat
    decreases n,
{
    if n == 0 {
        1
    } else {
        256 * radix((n - 1) as nat)
    }
}

/// The `n` low base-256 digits of `v`, lowest first.
pub open spec fn le_bytes(v: nat, n: nat) -> Seq<u8>
    decreases n,
{
    if n == 0 {
        Seq::empty()
    } else {
        seq![(v % 256) as u8] + le_bytes(v / 256, (n - 1) as nat)
    }
}

/// The number whose base-256 digits, lowest first, are `s`.
pub open spec fn le_value(s: Seq<u8>) -> nat
    decreases s.len(),
{
    if s.len() == 0 {
        0
    } else {
        s[0] as nat + 256 * le_value(s.drop_first())
    }
}

/// The values of `radix` at the widths of the integer types.
pub proof fn lemma_radix_values()
    ensures
        radix(0) == 1,
        radix(1) == 0x100,
        radix(2) == 0x1_0000,
        radix(4) == 0x1_0000_0000,
        radix(8) == 0x1_0000_0000_0000_0000,
        radix(16) == 0x1_0000_0000_0000_0000_0000_0000_0000_0000,
{
    reveal_with_fuel(radix, 17);
}

/// More bytes hold more values.
pub proof fn lemma_radix_grows(m: nat, n: nat)
    requires
        m <= n,
    ensures
        radix(m) <= radix(n),
        radix(m) > 0,
    decreases n,
{
    if m < n {
        lemma_radix_grows(m, (n - 1) as nat);
    } else if n > 0 {
        lemma_radix_grows((m - 1) as nat, (n - 1) as nat);
    }
}

/// A number written in `n` bytes takes `n` bytes.
pub proof fn lemma_le_bytes_len(v: nat, n: nat)
    ensures
        le_bytes(v, n).len() == n,
    decreases n,
{
    if n > 0 {
        lemma_le_bytes_len(v / 256, (n - 1) as nat);
    }
}

/// What `n` bytes read as is below `256^n`.
pub proof fn lemma_le_value_bound(s: Seq<u8>)
    ensures
        le_value(s) < radix(s.len()),
    decreases s.len(),
{
    if s.len() > 0 {
        lemma_le_value_bound(s.drop_first());
    }
}

/// Reading back the digits of a number that fits gives the number.
pub proof fn lemma_le_value_of_bytes(v: nat, n: nat)
    requires
        v < radix(n),
    ensures
        le_value(le_bytes(v, n)) == v,
    decreases n,
{
    if n > 0 {
        let s = le_bytes(v, n);
        lemma_le_value_of_bytes(v / 256, (n - 1) as nat);
        assert(s.drop_first() =~= le_bytes(v / 256, (n - 1) as nat));
    }
}

/// Writing the digits of what a byte string reads as gives the string.
pub proof fn lemma_le_bytes_of_value(s: Seq<u8>)
    ensures
        le_bytes(le_value(s), s.len()) =~= s,
    decreases s.len(),
{
    if s.len() > 0 {
        lemma_le_bytes_of_value(s.drop_first());
        let v = le_value(s);
        let t = le_value(s.drop_first());
        assert(v % 256 == s[0] as nat && v / 256 == t);
    }
}

/// What reading an `n`-byte number off the front of `s` gives: the number
/// and what follows it, or `None` when fewer than `n` bytes are there.
pub open spec fn read_fixed(s: Seq<u8>, n: nat) -> Option<(nat, Seq<u8>)> {
    if s.len() < n {
        None
    } else {
        Some((le_value(s.subrange(0, n as int)), s.subrange(n as int, s.len() as int)))
    }
}

/// Reading a number back off its own bytes gives the number and what
/// followed the bytes.
pub proof fn lemma_read_fixed_of_bytes(v: nat, n: nat, rest: Seq<u8>)
    requires
        v < radix(n),
    ensures
        read_fixed(le_bytes(v, n) + rest, n) == Some((v, rest)),
{
    let s = le_bytes(v, n) + rest;
    lemma_le_bytes_len(v, n);
    lemma_le_value_of_bytes(v, n);
    assert(s.subrange(0, n as int) =~= le_bytes(v, n));
    assert(s.subrange(n as int, s.len() as int) =~= rest);
}

/// What was read fits `n` bytes, and its bytes followed by the rest are
/// what was there.
pub proof fn lemma_read_fixed_is_bytes(s: Seq<u8>, n: nat)
    requires
        s.len() >= n,
    ensures
        read_fixed(s, n) matches Some((v, rest)) && v < radix(n) && s == le_bytes(v, n) + rest,
{
    let head = s.subrange(0, n as int);
    lemma_le_value_bound(head);
    lemma_le_bytes_of_value(head);
    assert(s =~= head + s.subrange(n as int, s.len() as int));
}

/// The error of the codec crate. Nothing is known of what it holds.
#[verifier::external_type_specification]
#[verifier::external_body]
pub struct ExCodecError(parity_scale_codec::Error);

/// `<u16 as Encode>::encode_to` on a vector: appends the two bytes of `x`,
/// low byte first.
#[verifier::external_body]
pub(crate) fn put_u16(out: &mut Vec<u8>, x: u16)
    ensures
        final(out)@ == old(out)@ + le_bytes(x as nat, 2),
{
    x.encode_to(out)
}

/// `<u32 as Encode>::encode_to` on a vector: appends the four bytes of `x`,
/// low byte first.
#[verifier::external_body]
pub(crate) fn put_u32(out: &mut Vec<u8>, x: u32)
    ensures
        final(out)@ == old(out)@ + le_bytes(x as nat, 4),
{
    x.encode_to(out)
}

/// `<u64 as Encode>::encode_to` on a vector: appends the eight bytes of `x`,
/// low byte first.
#[verifier::external_body]
pub(crate) fn put_u64(out: &mut Vec<u8>, x: u64)
    ensures
        final(out)@ == old(out)@ + le_bytes(x as nat, 8),
{
    x.encode_to(out)
}

/// `<u16 as Decode>::decode` on a slice: fails when fewer than two bytes are
/// there, else reads the first two, low byte first, and leaves the rest.
#[verifier::external_body]
pub(crate) fn take_u16<'a>(input: &'a [u8]) -> (r: Result<(u16, &'a [u8]), parity_scale_codec::Error>)
    ensures
        match r {
            Ok((x, rest)) => input@ == le_bytes(x as nat, 2) + rest@,
            Err(_) => input@.len() < 2,
        },
{
    let mut rest = input;
    let x = u16::decode(&mut rest)?;
    Ok((x, rest))
}

/// `<u32 as Decode>::decode` on a slice: fails when fewer than four bytes
/// are there, else reads the first four, low byte first, and leaves the rest.
#[verifier::external_body]
pub(crate) fn take_u32<'a>(input: &'a [u8]) -> (r: Result<(u32, &'a [u8]), parity_scale_codec::Error>)
    ensures
        match r {
            Ok((x, rest)) => input@ == le_bytes(x as nat, 4) + rest@,
            Err(_) => input@.len() < 4,
        },
{
    let mut rest = input;
    let x = u32::decode(&mut rest)?;
    Ok((x, rest))
}

/// `<u64 as Decode>::decode` on a slice: fails when fewer than eight bytes
/// are there, else reads the first eight, low byte first, and leaves the
/// rest.
#[verifier::external_body]
pub(crate) fn take_u64<'a>(input: &'a [u8]) -> (r: Result<(u64, &'a [u8]), parity_scale_codec::Error>)
    ensures
        match r {
            Ok((x, rest)) => input@ == le_bytes(x as nat, 8) + rest@,
            Err(_) => input@.len() < 8,
        },
{
    let mut rest = input;
    let x = u64::decode(&mut rest)?;
    Ok((x, rest))
}

} // verus!
