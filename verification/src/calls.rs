//! Calls into the balances module of a ledger, and their byte form under a
//! table of discriminants.

use crate::address::{Address, AddressError};
use crate::compact::{
    compact_bytes, compact_parse, decode_compact, lemma_compact_canonical,
    lemma_compact_round_trip, put_compact,
};
use crate::identifier::Identifier;
use crate::index::IndexInt;
use crate::Balance;
use vstd::prelude::*;
use vstd::slice::slice_subrange;

verus! {

/// The bytes by which a ledger tells its modules, and the operations of a
/// module, apart. They follow the order in which the ledger registers them.
#[derive(Debug, Clone, Copy, PartialEq, Eq)]
pub struct DispatchTable {
    /// The byte of the balances module.
    pub balances: u8,
    /// The byte of the transfer operation in that module.
    pub transfer: u8,
    /// The byte of the operation that sets a balance in that module.
    pub set_balance: u8,
}

impl DispatchTable {
    /// No byte stands for two operations.
    pub open spec fn wf(self) -> bool {
        self.transfer != self.set_balance
    }

    /// The table of the three bytes, unless two operations would share one.
    pub fn new(balances: u8, transfer: u8, set_balance: u8) -> (r: Option<DispatchTable>)
        ensures
            r == if transfer != set_balance {
                Some(DispatchTable { balances, transfer, set_balance })
            } else {
                None
            },
    {
        if transfer != set_balance {
            Some(DispatchTable { balances, transfer, set_balance })
        } else {
            None
        }
    }
}

/// Why the bytes of an operand are no operand.
#[derive(Debug, Clone, Copy, PartialEq, Eq)]
pub enum OperandError {
    /// The bytes are no account reference.
    Address(AddressError),
    /// The bytes are no compact amount.
    Amount,
}

/// Why bytes are no call.
#[derive(Debug, Clone, Copy, PartialEq, Eq)]
pub enum CallError {
    /// The bytes end before a discriminant.
    Truncated,
    /// The table has no module for the first byte.
    UnknownModule,
    /// The table has no operation of the module for the byte.
    UnknownOperation,
    /// The operand at `position`, counted from zero, cannot be read.
    Operand { position: u8, error: OperandError },
}

/// A call into the balances module.
#[allow(non_camel_case_types)]
#[derive(Debug, Clone, Copy, PartialEq, Eq)]
pub enum Balances<Id, Ix> {
    /// Moves `value` from the caller to the account.
    transfer(Address<Id, Ix>, Balance),
    /// Sets the free and the reserved balance of the account.
    set_balance(Address<Id, Ix>, Balance, Balance),
}

/// What the bytes `s` give as the account operand at `position`.
pub open spec fn address_operand<Id: Identifier, Ix: IndexInt>(s: Seq<u8>, position: u8) -> Result<
    (Address<Id, Ix>, Seq<u8>),
    CallError,
> {
    match Address::<Id, Ix>::parse(s) {
        Ok(found) => Ok(found),
        Err(e) => Err(CallError::Operand { position, error: OperandError::Address(e) }),
    }
}

/// What the bytes `s` give as the amount operand at `position`.
pub open spec fn amount_operand(s: Seq<u8>, position: u8) -> Result<(u128, Seq<u8>), CallError> {
    match compact_parse(s) {
        Some(found) => Ok(found),
        None => Err(CallError::Operand { position, error: OperandError::Amount }),
    }
}

fn read_address<Id: Identifier, Ix: IndexInt>(input: &[u8], position: u8) -> (r: Result<
    (Address<Id, Ix>, &[u8]),
    CallError,
>)
    ensures
        match r {
            Ok((a, rest)) => address_operand::<Id, Ix>(input@, position) == Ok::<_, CallError>(
                (a, rest@),
            ),
            Err(e) => address_operand::<Id, Ix>(input@, position) == Err::<
                (Address<Id, Ix>, Seq<u8>),
                _,
            >(e),
        },
{
    match Address::<Id, Ix>::decode(input) {
        Ok(found) => Ok(found),
        Err(e) => Err(CallError::Operand { position, error: OperandError::Address(e) }),
    }
}

fn read_amount(input: &[u8], position: u8) -> (r: Result<(u128, &[u8]), CallError>)
    ensures
        match r {
            Ok((v, rest)) => amount_operand(input@, position) == Ok::<_, CallError>((v, rest@)),
            Err(e) => amount_operand(input@, position) == Err::<(u128, Seq<u8>), _>(e),
        },
{
    match decode_compact(input) {
        Some(found) => Ok(found),
        None => Err(CallError::Operand { position, error: OperandError::Amount }),
    }
}

impl<Id: Identifier, Ix: IndexInt> Balances<Id, Ix> {
    /// The bytes of the call: the operation's byte, then the operands in
    /// order, an account as a reference and an amount in compact form.
    pub open spec fn wire(self, table: DispatchTable) -> Seq<u8> {
        match self {
            Balances::transfer(dest, value) => seq![table.transfer] + dest.wire() + compact_bytes(
                value as nat,
            ),
            Balances::set_balance(who, free, reserved) => seq![table.set_balance] + who.wire()
                + compact_bytes(free as nat) + compact_bytes(reserved as nat),
        }
    }

    /// What the bytes `s` give: the call at their front and what follows
    /// it, or why there is none.
    pub open spec fn parse(s: Seq<u8>, table: DispatchTable) -> Result<(Self, Seq<u8>), CallError> {
        if s.len() == 0 {
            Err(CallError::Truncated)
        } else if s[0] == table.transfer {
            match address_operand::<Id, Ix>(s.drop_first(), 0) {
                Err(e) => Err(e),
                Ok((dest, s1)) => match amount_operand(s1, 1) {
                    Err(e) => Err(e),
                    Ok((value, s2)) => Ok((Balances::transfer(dest, value), s2)),
                },
            }
        } else if s[0] == table.set_balance {
            match address_operand::<Id, Ix>(s.drop_first(), 0) {
                Err(e) => Err(e),
                Ok((who, s1)) => match amount_operand(s1, 1) {
                    Err(e) => Err(e),
                    Ok((free, s2)) => match amount_operand(s2, 2) {
                        Err(e) => Err(e),
                        Ok((reserved, s3)) => Ok((Balances::set_balance(who, free, reserved), s3)),
                    },
                },
            }
        } else {
            Err(CallError::UnknownOperation)
        }
    }

    /// Appends the bytes of the call to `out`.
    pub fn encode_to(&self, table: &DispatchTable, out: &mut Vec<u8>)
        ensures
            final(out)@ == old(out)@ + self.wire(*table),
    {
        match self {
            Balances::transfer(dest, value) => {
                out.push(table.transfer);
                dest.encode_to(out);
                put_compact(out, *value);
            },
            Balances::set_balance(who, free, reserved) => {
                out.push(table.set_balance);
                who.encode_to(out);
                put_compact(out, *free);
                put_compact(out, *reserved);
            },
        }
        assert(out@ =~= old(out)@ + self.wire(*table));
    }

    /// The bytes of the call.
    pub fn encode(&self, table: &DispatchTable) -> (out: Vec<u8>)
        ensures
            out@ == self.wire(*table),
    {
        let mut out: Vec<u8> = Vec::new();
        self.encode_to(table, &mut out);
        assert(out@ =~= self.wire(*table));
        out
    }

    /// Reads the call at the front of `input` and hands it back with the
    /// bytes that follow it.
    pub fn decode<'a>(input: &'a [u8], table: &DispatchTable) -> (r: Result<
        (Self, &'a [u8]),
        CallError,
    >)
        ensures
            match r {
                Ok((c, rest)) => Self::parse(input@, *table) == Ok::<_, CallError>((c, rest@)),
                Err(e) => Self::parse(input@, *table) == Err::<(Self, Seq<u8>), _>(e),
            },
    {
        if input.len() == 0 {
            return Err(CallError::Truncated);
        }
        let operation = input[0];
        let body = slice_subrange(input, 1, input.len());
        assert(body@ =~= input@.drop_first());
        if operation == table.transfer {
            let (dest, s1) = read_address::<Id, Ix>(body, 0)?;
            let (value, s2) = read_amount(s1, 1)?;
            Ok((Balances::transfer(dest, value), s2))
        } else if operation == table.set_balance {
            let (who, s1) = read_address::<Id, Ix>(body, 0)?;
            let (free, s2) = read_amount(s1, 1)?;
            let (reserved, s3) = read_amount(s2, 2)?;
            Ok((Balances::set_balance(who, free, reserved), s3))
        } else {
            Err(CallError::UnknownOperation)
        }
    }

    /// Under a table that gives each operation a byte of its own, decoding
    /// what was encoded gives the call back, and leaves whatever followed
    /// its bytes.
    pub proof fn lemma_round_trip(self, table: DispatchTable, rest: Seq<u8>)
        requires
            table.wf(),
        ensures
            Self::parse(self.wire(table) + rest, table) == Ok::<_, CallError>((self, rest)),
    {
        let s = self.wire(table) + rest;
        match self {
            Balances::transfer(dest, value) => {
                let s1 = compact_bytes(value as nat) + rest;
                assert(s.drop_first() =~= dest.wire() + s1);
                dest.lemma_round_trip(s1);
                lemma_compact_round_trip(value, rest);
            },
            Balances::set_balance(who, free, reserved) => {
                let s2 = compact_bytes(reserved as nat) + rest;
                let s1 = compact_bytes(free as nat) + s2;
                assert(s.drop_first() =~= who.wire() + s1);
                who.lemma_round_trip(s1);
                lemma_compact_round_trip(free, s2);
                lemma_compact_round_trip(reserved, rest);
            },
        }
    }

    /// Bytes that decode to a call begin with the bytes of that call.
    pub proof fn lemma_canonical(s: Seq<u8>, table: DispatchTable)
        ensures
            Self::parse(s, table) matches Ok((c, rest)) ==> s == c.wire(table) + rest,
    {
        if let Ok((c, rest)) = Self::parse(s, table) {
            let body = s.drop_first();
            assert(s =~= seq![s[0]] + body);
            Address::<Id, Ix>::lemma_canonical(body);
            if let Ok((_, s1)) = Address::<Id, Ix>::parse(body) {
                lemma_compact_canonical(s1);
                if let Some((_, s2)) = compact_parse(s1) {
                    lemma_compact_canonical(s2);
                }
            }
            assert(s =~= c.wire(table) + rest);
        }
    }
}

} // verus!
