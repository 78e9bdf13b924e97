//! Account references: an account named by its identifier or by a short
//! index, and the tiered, canonical byte form of the two.

use crate::bytes::{
    le_bytes, lemma_radix_grows, lemma_radix_values, lemma_read_fixed_is_bytes,
    lemma_read_fixed_of_bytes, put_u16, put_u32, radix, read_fixed, take_u16, take_u32,
};
use crate::identifier::Identifier;
use crate::index::IndexInt;
use vstd::prelude::*;
use vstd::slice::slice_subrange;

verus! {

/// The largest index that is written as one byte, the byte being the index.
pub const INLINE_MAX: u8 = 0xEF;

/// The tag before an index of two bytes.
pub const TAG_U16: u8 = 0xFC;

/// The tag before an index of four bytes.
pub const TAG_U32: u8 = 0xFD;

/// The tag before an index in the full width of its type.
pub const TAG_FULL: u8 = 0xFE;

/// The tag before an identifier.
pub const TAG_ID: u8 = 0xFF;

/// Why bytes are no account reference.
#[derive(Debug, Clone, Copy, PartialEq, Eq)]
pub enum AddressError {
    /// The bytes end before the reference does.
    Truncated,
    /// The first byte is no tag.
    InvalidTag,
    /// The index is written longer than the shortest form that holds it.
    NonCanonical,
}

/// A reference to an account: its identifier, or an index that the ledger
/// resolves.
#[derive(Debug, Clone, Copy, PartialEq, Eq)]
pub enum Address<Id, Ix> {
    /// The account's identifier.
    Id(Id),
    /// The account's index.
    Index(Ix),
}

/// The bytes of the index `v` of a type `width` bytes wide: the shortest of
/// the four forms that holds `v`.
pub open spec fn index_wire(v: nat, width: nat) -> Seq<u8> {
    if v <= INLINE_MAX {
        seq![v as u8]
    } else if v <= 0xFFFF {
        seq![TAG_U16] + le_bytes(v, 2)
    } else if v <= 0xFFFF_FFFF {
        seq![TAG_U32] + le_bytes(v, 4)
    } else {
        seq![TAG_FULL] + le_bytes(v, width)
    }
}

/// What the `n` bytes after a tag give: the number they hold, which must be
/// above `floor`, and what follows them.
pub open spec fn tier_parse(body: Seq<u8>, n: nat, floor: nat) -> Result<
    (nat, Seq<u8>),
    AddressError,
> {
    match read_fixed(body, n) {
        None => Err(AddressError::Truncated),
        Some((v, rest)) => if v > floor {
            Ok((v, rest))
        } else {
            Err(AddressError::NonCanonical)
        },
    }
}

/// What bytes that begin with anything but the identifier tag give: the
/// index they hold and what follows it.
pub open spec fn index_parse(s: Seq<u8>, width: nat) -> Result<(nat, Seq<u8>), AddressError> {
    if s.len() == 0 {
        Err(AddressError::Truncated)
    } else if s[0] <= INLINE_MAX {
        Ok((s[0] as nat, s.drop_first()))
    } else if s[0] == TAG_U16 {
        tier_parse(s.drop_first(), 2, INLINE_MAX as nat)
    } else if s[0] == TAG_U32 {
        tier_parse(s.drop_first(), 4, 0xFFFF)
    } else if s[0] == TAG_FULL {
        tier_parse(s.drop_first(), width, 0xFFFF_FFFF)
    } else {
        Err(AddressError::InvalidTag)
    }
}

/// The bytes of an index never begin with the identifier tag, and reading
/// them back gives the index and what followed them.
pub proof fn lemma_index_round_trip(v: nat, width: nat, rest: Seq<u8>)
    requires
        width >= 4,
        v < radix(width),
    ensures
        index_wire(v, width).len() > 0,
        index_wire(v, width)[0] != TAG_ID,
        index_parse(index_wire(v, width) + rest, width) == Ok::<_, AddressError>((v, rest)),
{
    let s = index_wire(v, width) + rest;
    lemma_radix_values();
    if v <= INLINE_MAX {
        assert(s.drop_first() =~= rest);
    } else {
        let n: nat = if v <= 0xFFFF {
            2
        } else if v <= 0xFFFF_FFFF {
            4
        } else {
            width
        };
        lemma_read_fixed_of_bytes(v, n, rest);
        assert(s.drop_first() =~= le_bytes(v, n) + rest);
    }
}

/// Bytes that hold an index are the bytes of that index, followed by what
/// is left: no index is read from any other form of it.
pub proof fn lemma_index_canonical(s: Seq<u8>, width: nat)
    requires
        width >= 4,
    ensures
        index_parse(s, width) matches Ok((v, rest)) ==> v < radix(width) && s == index_wire(
            v,
            width,
        ) + rest,
{
    lemma_radix_values();
    if let Ok((v, rest)) = index_parse(s, width) {
        assert(radix(4) <= radix(width)) by {
            lemma_radix_grows(4, width);
        }
        if s[0] <= INLINE_MAX {
            assert(s =~= index_wire(v, width) + rest);
        } else {
            let n: nat = if s[0] == TAG_U16 {
                2
            } else if s[0] == TAG_U32 {
                4
            } else {
                width
            };
            lemma_read_fixed_is_bytes(s.drop_first(), n);
            assert(s =~= seq![s[0]] + s.drop_first());
            assert(s =~= index_wire(v, width) + rest);
        }
    }
}

impl<Id: Identifier, Ix: IndexInt> Address<Id, Ix> {
    /// The bytes of the reference.
    pub open spec fn wire(self) -> Seq<u8> {
        match self {
            Address::Id(id) => seq![TAG_ID] + id.wire(),
            Address::Index(i) => index_wire(i.value(), Ix::width()),
        }
    }

    /// What the bytes `s` give: the reference at their front and what
    /// follows it, or why there is none.
    pub open spec fn parse(s: Seq<u8>) -> Result<(Self, Seq<u8>), AddressError> {
        if s.len() > 0 && s[0] == TAG_ID {
            let body = s.drop_first();
            if body.len() < Id::width() {
                Err(AddressError::Truncated)
            } else {
                Ok(
                    (
                        Address::Id(Id::from_wire(body.subrange(0, Id::width() as int))),
                        body.subrange(Id::width() as int, body.len() as int),
                    ),
                )
            }
        } else {
            match index_parse(s, Ix::width()) {
                Ok((v, rest)) => Ok((Address::Index(Ix::from_value(v)), rest)),
                Err(e) => Err(e),
            }
        }
    }

    /// Appends the bytes of the reference to `out`.
    pub fn encode_to(&self, out: &mut Vec<u8>)
        ensures
            final(out)@ == old(out)@ + self.wire(),
    {
        match self {
            Address::Id(id) => {
                out.push(TAG_ID);
                id.encode_to(out);
                assert(out@ =~= old(out)@ + self.wire());
            },
            Address::Index(i) => {
                match i.narrow() {
                    Some(x) => {
                        if x > 0xFFFF {
                            out.push(TAG_U32);
                            put_u32(out, x);
                        } else if x > INLINE_MAX as u32 {
                            out.push(TAG_U16);
                            put_u16(out, x as u16);
                        } else {
                            out.push(x as u8);
                        }
                    },
                    None => {
                        out.push(TAG_FULL);
                        i.encode_to(out);
                    },
                }
                assert(out@ =~= old(out)@ + self.wire());
            },
        }
    }

    /// The bytes of the reference.
    pub fn encode(&self) -> (out: Vec<u8>)
        ensures
            out@ == self.wire(),
    {
        let mut out: Vec<u8> = Vec::new();
        self.encode_to(&mut out);
        assert(out@ =~= self.wire());
        out
    }

    /// Reads the reference at the front of `input` and hands it back with
    /// the bytes that follow it.
    pub fn decode(input: &[u8]) -> (r: Result<(Self, &[u8]), AddressError>)
        ensures
            match r {
                Ok((a, rest)) => Self::parse(input@) == Ok::<_, AddressError>((a, rest@)),
                Err(e) => Self::parse(input@) == Err::<(Self, Seq<u8>), _>(e),
            },
    {
        if input.len() == 0 {
            return Err(AddressError::Truncated);
        }
        let tag = input[0];
        let body = slice_subrange(input, 1, input.len());
        assert(body@ =~= input@.drop_first());
        proof {
            lemma_radix_values();
        }
        if tag <= INLINE_MAX {
            Ok((Address::Index(Ix::widen(tag as u32)), body))
        } else if tag == TAG_U16 {
            match take_u16(body) {
                Ok((x, rest)) => {
                    proof {
                        lemma_read_fixed_of_bytes(x as nat, 2, rest@);
                    }
                    if x > INLINE_MAX as u16 {
                        Ok((Address::Index(Ix::widen(x as u32)), rest))
                    } else {
                        Err(AddressError::NonCanonical)
                    }
                },
                Err(_) => Err(AddressError::Truncated),
            }
        } else if tag == TAG_U32 {
            match take_u32(body) {
                Ok((x, rest)) => {
                    proof {
                        lemma_read_fixed_of_bytes(x as nat, 4, rest@);
                    }
                    if x > 0xFFFF {
                        Ok((Address::Index(Ix::widen(x)), rest))
                    } else {
                        Err(AddressError::NonCanonical)
                    }
                },
                Err(_) => Err(AddressError::Truncated),
            }
        } else if tag == TAG_FULL {
            match Ix::decode(body) {
                Some((i, rest)) => {
                    proof {
                        i.lemma_index_int(0);
                        lemma_read_fixed_of_bytes(i.value(), Ix::width(), rest@);
                    }
                    if i.narrow().is_none() {
                        Ok((Address::Index(i), rest))
                    } else {
                        Err(AddressError::NonCanonical)
                    }
                },
                None => Err(AddressError::Truncated),
            }
        } else if tag == TAG_ID {
            match Id::decode(body) {
                Some((id, rest)) => {
                    proof {
                        id.lemma_identifier(Seq::empty());
                        assert(body@.subrange(0, Id::width() as int) =~= id.wire());
                        assert(body@.subrange(Id::width() as int, body@.len() as int) =~= rest@);
                    }
                    Ok((Address::Id(id), rest))
                },
                None => Err(AddressError::Truncated),
            }
        } else {
            Err(AddressError::InvalidTag)
        }
    }
}

impl<Id: Identifier, Ix: IndexInt> Address<Id, Ix> {
    /// Decoding what was encoded gives the reference back, and leaves
    /// whatever followed its bytes.
    pub proof fn lemma_round_trip(self, rest: Seq<u8>)
        ensures
            Self::parse(self.wire() + rest) == Ok::<_, AddressError>((self, rest)),
    {
        let s = self.wire() + rest;
        match self {
            Address::Id(id) => {
                id.lemma_identifier(Seq::empty());
                let body = s.drop_first();
                assert(body =~= id.wire() + rest);
                assert(body.subrange(0, Id::width() as int) =~= id.wire());
                assert(body.subrange(Id::width() as int, body.len() as int) =~= rest);
            },
            Address::Index(i) => {
                i.lemma_index_int(0);
                lemma_index_round_trip(i.value(), Ix::width(), rest);
            },
        }
    }

    /// Bytes that decode to a reference begin with the bytes of that
    /// reference: decoding accepts no second form of any value.
    pub proof fn lemma_canonical(s: Seq<u8>)
        ensures
            Self::parse(s) matches Ok((a, rest)) ==> s == a.wire() + rest,
    {
        if let Ok((a, rest)) = Self::parse(s) {
            if s[0] == TAG_ID {
                let body = s.drop_first();
                let head = body.subrange(0, Id::width() as int);
                Id::from_wire(head).lemma_identifier(head);
                assert(s =~= seq![TAG_ID] + head + rest);
            } else {
                if let Ok((v, _)) = index_parse(s, Ix::width()) {
                    a->Index_0.lemma_index_int(v);
                    lemma_index_canonical(s, Ix::width());
                }
            }
        }
    }

    /// An index written in a longer form than the shortest that holds it is
    /// refused, whatever follows it.
    pub proof fn lemma_longer_forms_refused(i: Ix, rest: Seq<u8>)
        ensures
            i.value() <= INLINE_MAX ==> Self::parse(seq![TAG_U16] + le_bytes(i.value(), 2) + rest)
                == Err::<(Self, Seq<u8>), _>(AddressError::NonCanonical),
            i.value() <= 0xFFFF ==> Self::parse(seq![TAG_U32] + le_bytes(i.value(), 4) + rest)
                == Err::<(Self, Seq<u8>), _>(AddressError::NonCanonical),
            i.value() <= 0xFFFF_FFFF ==> Self::parse(
                seq![TAG_FULL] + le_bytes(i.value(), Ix::width()) + rest,
            ) == Err::<(Self, Seq<u8>), _>(AddressError::NonCanonical),
    {
        let v = i.value();
        i.lemma_index_int(0);
        lemma_radix_values();
        if v <= INLINE_MAX {
            let s = seq![TAG_U16] + le_bytes(v, 2) + rest;
            lemma_read_fixed_of_bytes(v, 2, rest);
            assert(s.drop_first() =~= le_bytes(v, 2) + rest);
        }
        if v <= 0xFFFF {
            let s = seq![TAG_U32] + le_bytes(v, 4) + rest;
            lemma_read_fixed_of_bytes(v, 4, rest);
            assert(s.drop_first() =~= le_bytes(v, 4) + rest);
        }
        if v <= 0xFFFF_FFFF {
            let s = seq![TAG_FULL] + le_bytes(v, Ix::width()) + rest;
            lemma_read_fixed_of_bytes(v, Ix::width(), rest);
            assert(s.drop_first() =~= le_bytes(v, Ix::width()) + rest);
        }
    }

    /// The bytes of a reference are the one byte string that decodes to it
    /// with nothing left over.
    pub proof fn lemma_unique_encoding(self, s: Seq<u8>)
        ensures
            Self::parse(s) == Ok::<_, AddressError>((self, Seq::<u8>::empty())) <==> s
                == self.wire(),
    {
        self.lemma_round_trip(Seq::empty());
        Self::lemma_canonical(s);
        assert(self.wire() + Seq::<u8>::empty() =~= self.wire());
    }
}

} // verus!
