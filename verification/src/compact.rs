//! Compact integers: the variable-length form in which amounts travel, as
//! the codec crate writes and reads it.

use crate::bytes::{
    le_bytes, lemma_le_bytes_len, lemma_le_value_of_bytes, lemma_radix_grows, lemma_radix_values,
    radix,
};
use parity_scale_codec::{Compact, Decode, Encode};
use vstd::prelude::*;

verus! {

/// The number of base-256 digits of `v`: the least `n` with `v < 256^n`.
pub open spec fn byte_len(v: nat) -> nat
    decreases v,
{
    if v == 0 {
        0
    } else {
        1 + byte_len(v / 256)
    }
}

/// The compact bytes of `v`.
///
/// The two low bits of the first byte tell the form. Numbers below `2^6`,
/// `2^14` and `2^30` are shifted left by two bits, marked 0, 1 and 2, and
/// written in one, two and four bytes, low byte first. Any other number is
/// written in as many bytes as it has, low byte first, after a byte that
/// holds the mark 3 and, shifted left by two bits, that count less four.
pub open spec fn compact_bytes(v: nat) -> Seq<u8> {
    if v < 0x40 {
        le_bytes(4 * v, 1)
    } else if v < 0x4000 {
        le_bytes(4 * v + 1, 2)
    } else if v < 0x4000_0000 {
        le_bytes(4 * v + 2, 4)
    } else {
        seq![(4 * (byte_len(v) - 4) + 3) as u8] + le_bytes(v, byte_len(v))
    }
}

/// What the bytes `s` give: the amount whose compact bytes are at their
/// front and what follows them, or `None` when no amount's are.
#[verifier::opaque]
pub open spec fn compact_parse(s: Seq<u8>) -> Option<(u128, Seq<u8>)> {
    if exists|v: u128| compact_bytes(v as nat).is_prefix_of(s) {
        let v = choose|v: u128| compact_bytes(v as nat).is_prefix_of(s);
        Some((v, s.subrange(compact_bytes(v as nat).len() as int, s.len() as int)))
    } else {
        None
    }
}

/// A number has as many bytes as the least width that holds it.
pub proof fn lemma_byte_len(v: nat, n: nat)
    ensures
        v < radix(byte_len(v)),
        v < radix(n) ==> byte_len(v) <= n,
        v >= radix(n) ==> byte_len(v) > n,
    decreases v,
{
    lemma_radix_grows(0, n);
    if v > 0 {
        lemma_byte_len(v / 256, (n - 1) as nat);
    }
}

/// The length of the compact bytes of an amount and the form that their
/// first byte tells.
pub proof fn lemma_compact_form(v: u128)
    ensures
        ({
            let s = compact_bytes(v as nat);
            let n = byte_len(v as nat);
            &&& s.len() > 0
            &&& v < 0x40 ==> s.len() == 1 && s[0] == 4 * v
            &&& 0x40 <= v < 0x4000 ==> s.len() == 2 && s[0] % 4 == 1
            &&& 0x4000 <= v < 0x4000_0000 ==> s.len() == 4 && s[0] % 4 == 2
            &&& 0x4000_0000 <= v ==> 4 <= n <= 16 && s.len() == 1 + n && s[0] == 4 * (n - 4) + 3
        }),
{
    let x = v as nat;
    lemma_radix_values();
    lemma_byte_len(x, 16);
    lemma_byte_len(x, 3);
    reveal_with_fuel(radix, 4);
    if x < 0x40 {
        lemma_le_bytes_len(4 * x, 1);
    } else if x < 0x4000 {
        lemma_le_bytes_len(4 * x + 1, 2);
    } else if x < 0x4000_0000 {
        lemma_le_bytes_len(4 * x + 2, 4);
    } else {
        lemma_le_bytes_len(x, byte_len(x));
    }
}

/// No two amounts have compact bytes of which one string begins with both.
pub proof fn lemma_compact_prefix_free(a: u128, b: u128, s: Seq<u8>)
    requires
        compact_bytes(a as nat).is_prefix_of(s),
        compact_bytes(b as nat).is_prefix_of(s),
    ensures
        a == b,
{
    let x = a as nat;
    let y = b as nat;
    let p = compact_bytes(x);
    let q = compact_bytes(y);
    lemma_compact_form(a);
    lemma_compact_form(b);
    lemma_radix_values();
    assert(p[0] == s[0] && q[0] == s[0]);
    assert(p.len() == q.len());
    assert(p =~= q);
    if x < 0x40 {
    } else if x < 0x4000 {
        lemma_le_value_of_bytes(4 * x + 1, 2);
        lemma_le_value_of_bytes(4 * y + 1, 2);
    } else if x < 0x4000_0000 {
        lemma_le_value_of_bytes(4 * x + 2, 4);
        lemma_le_value_of_bytes(4 * y + 2, 4);
    } else {
        let n = byte_len(x);
        assert(byte_len(y) == n);
        lemma_byte_len(x, 0);
        lemma_byte_len(y, 0);
        lemma_le_value_of_bytes(x, n);
        lemma_le_value_of_bytes(y, n);
        assert(le_bytes(x, n) =~= p.drop_first());
        assert(le_bytes(y, n) =~= q.drop_first());
    }
}

/// Reading the compact bytes of an amount gives the amount and what
/// followed the bytes.
pub proof fn lemma_compact_round_trip(v: u128, rest: Seq<u8>)
    ensures
        compact_parse(compact_bytes(v as nat) + rest) == Some((v, rest)),
{
    reveal(compact_parse);
    let s = compact_bytes(v as nat) + rest;
    assert(compact_bytes(v as nat).is_prefix_of(s));
    let w = choose|w: u128| compact_bytes(w as nat).is_prefix_of(s);
    lemma_compact_prefix_free(v, w, s);
    assert(s.subrange(compact_bytes(v as nat).len() as int, s.len() as int) =~= rest);
}

/// Bytes that hold an amount begin with the compact bytes of that amount.
pub proof fn lemma_compact_canonical(s: Seq<u8>)
    ensures
        compact_parse(s) matches Some((v, rest)) ==> s == compact_bytes(v as nat) + rest,
{
    reveal(compact_parse);
    if let Some((v, rest)) = compact_parse(s) {
        assert(s =~= compact_bytes(v as nat) + rest);
    }
}

/// `<Compact<u128> as Encode>::encode_to` on a vector: appends the compact
/// bytes of `v`.
#[verifier::external_body]
pub(crate) fn put_compact(out: &mut Vec<u8>, v: u128)
    ensures
        final(out)@ == old(out)@ + compact_bytes(v as nat),
{
    Compact(v).encode_to(out)
}

/// `<Compact<u128> as Decode>::decode` on a slice: reads the amount whose
/// compact bytes are at the front and leaves the rest; fails when the slice
/// begins with the compact bytes of no amount, which is so when it ends too
/// early and when an amount is written in a longer form than it needs.
#[verifier::external_body]
pub(crate) fn take_compact<'a>(input: &'a [u8]) -> (r: Result<
    (u128, &'a [u8]),
    parity_scale_codec::Error,
>)
    ensures
        match r {
            Ok((v, rest)) => input@ == compact_bytes(v as nat) + rest@,
            Err(_) => forall|v: u128| !compact_bytes(v as nat).is_prefix_of(input@),
        },
{
    let mut rest = input;
    let found = Compact::<u128>::decode(&mut rest)?;
    Ok((found.0, rest))
}

/// Reads the amount at the front of `input` and hands it back with the
/// bytes that follow it; `None` when the bytes hold no amount.
pub fn decode_compact(input: &[u8]) -> (r: Option<(u128, &[u8])>)
    ensures
        match r {
            Some((v, rest)) => compact_parse(input@) == Some((v, rest@)),
            None => compact_parse(input@) is None,
        },
{
    match take_compact(input) {
        Ok((v, rest)) => {
            proof {
                lemma_compact_round_trip(v, rest@);
            }
            Some((v, rest))
        },
        Err(_) => {
            proof {
                reveal(compact_parse);
            }
            None
        },
    }
}

} // verus!
