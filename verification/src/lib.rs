//! Wire types of a contract that targets a chain with the default node
//! runtime, and the byte-exact codec for the calls it dispatches.
//!
//! A call travels as the byte of its module, the byte of its operation and
//! its operands in order. An account operand is an [`address::Address`]:
//! the account's identifier behind a tag, or its index in the shortest of
//! four forms, the only one that decoding accepts. An amount travels as a
//! compact integer, which the codec crate writes and reads.
//!
//! Every encoder is specified by a `wire` function and every decoder by a
//! `parse` function, both on byte sequences. The `lemma_round_trip` and
//! `lemma_canonical` proofs relate the two: decoding undoes encoding, and
//! nothing decodes but what encoding gives.

use crate::calls::{Balances, CallError, DispatchTable};
use crate::identifier::{array_of, lemma_array_of, Identifier};
use core::array::TryFromSliceError;
use vstd::prelude::*;
use vstd::slice::slice_subrange;
use vstd::std_specs::convert::FromSpecImpl;
use vstd::std_specs::convert::TryFromSpecImpl;

pub mod address;
pub mod bytes;
pub mod calls;
pub mod compact;
pub mod identifier;
pub mod index;

verus! {

/// The balance type of the default runtime.
pub type Balance = u128;

/// The moment type of the default runtime.
pub type Moment = u64;

/// The block number type of the default runtime.
pub type BlockNumber = u64;

/// The account index type of the default runtime.
pub type AccountIndex = u32;

/// The error of a failed conversion from a slice to an array. It holds
/// nothing.
#[verifier::external_type_specification]
#[verifier::external_body]
pub struct ExTryFromSliceError(core::array::TryFromSliceError);

/// `<[u8; 32]>::try_from` on a slice: copies the slice into an array when it
/// holds exactly 32 bytes, and fails on any other length.
#[verifier::external_body]
fn array_from_slice(bytes: &[u8]) -> (r: Result<[u8; 32], TryFromSliceError>)
    ensures
        r is Ok <==> bytes@.len() == 32,
        r matches Ok(a) ==> a@ == bytes@,
{
    <[u8; 32]>::try_from(bytes)
}

/// The address type of the default runtime: 32 raw bytes.
#[derive(Debug, Copy, Clone, PartialEq, Eq, Hash)]
pub struct AccountId([u8; 32]);

impl View for AccountId {
    type V = Seq<u8>;

    closed spec fn view(&self) -> Seq<u8> {
        self.0@
    }
}

impl AccountId {
    /// The 32 bytes of the address.
    pub fn to_bytes(&self) -> (a: [u8; 32])
        ensures
            a@ == self@,
    {
        self.0
    }
}

impl FromSpecImpl<[u8; 32]> for AccountId {
    open spec fn obeys_from_spec() -> bool {
        true
    }

    closed spec fn from_spec(address: [u8; 32]) -> AccountId {
        AccountId(address)
    }
}

impl From<[u8; 32]> for AccountId {
    fn from(address: [u8; 32]) -> (r: AccountId)
        ensures
            r@ == address@,
    {
        AccountId(address)
    }
}

impl<'a> TryFromSpecImpl<&'a [u8]> for AccountId {
    open spec fn obeys_try_from_spec() -> bool {
        false
    }

    open spec fn try_from_spec(bytes: &'a [u8]) -> Result<AccountId, TryFromSliceError> {
        arbitrary()
    }
}

impl<'a> TryFrom<&'a [u8]> for AccountId {
    type Error = TryFromSliceError;

    /// The address that a slice of exactly 32 bytes holds.
    fn try_from(bytes: &'a [u8]) -> (r: Result<AccountId, TryFromSliceError>)
        ensures
            r is Ok <==> bytes@.len() == 32,
            r matches Ok(id) ==> id@ == bytes@,
    {
        match array_from_slice(bytes) {
            Ok(address) => Ok(AccountId(address)),
            Err(e) => Err(e),
        }
    }
}

impl Identifier for AccountId {
    open spec fn width() -> nat {
        32
    }

    open spec fn wire(&self) -> Seq<u8> {
        self@
    }

    closed spec fn from_wire(s: Seq<u8>) -> AccountId {
        AccountId(array_of::<32>(s))
    }

    proof fn lemma_identifier(&self, s: Seq<u8>) {
        lemma_array_of::<32>(self.0, s);
    }

    fn encode_to(&self, out: &mut Vec<u8>) {
        self.0.encode_to(out)
    }

    fn decode(input: &[u8]) -> (r: Option<(AccountId, &[u8])>) {
        match <[u8; 32] as Identifier>::decode(input) {
            Some((address, rest)) => Some((AccountId(address), rest)),
            None => None,
        }
    }
}

/// The hash type of the default runtime: 32 raw bytes.
#[derive(Debug, Copy, Clone, PartialEq, Eq, Hash)]
pub struct Hash([u8; 32]);

impl View for Hash {
    type V = Seq<u8>;

    closed spec fn view(&self) -> Seq<u8> {
        self.0@
    }
}

impl Hash {
    /// The 32 bytes of the hash.
    pub fn to_bytes(&self) -> (a: [u8; 32])
        ensures
            a@ == self@,
    {
        self.0
    }
}

impl FromSpecImpl<[u8; 32]> for Hash {
    open spec fn obeys_from_spec() -> bool {
        true
    }

    closed spec fn from_spec(hash: [u8; 32]) -> Hash {
        Hash(hash)
    }
}

impl From<[u8; 32]> for Hash {
    fn from(hash: [u8; 32]) -> (r: Hash)
        ensures
            r@ == hash@,
    {
        Hash(hash)
    }
}

impl<'a> TryFromSpecImpl<&'a [u8]> for Hash {
    open spec fn obeys_try_from_spec() -> bool {
        false
    }

    open spec fn try_from_spec(bytes: &'a [u8]) -> Result<Hash, TryFromSliceError> {
        arbitrary()
    }
}

impl<'a> TryFrom<&'a [u8]> for Hash {
    type Error = TryFromSliceError;

    /// The hash that a slice of exactly 32 bytes holds.
    fn try_from(bytes: &'a [u8]) -> (r: Result<Hash, TryFromSliceError>)
        ensures
            r is Ok <==> bytes@.len() == 32,
            r matches Ok(hash) ==> hash@ == bytes@,
    {
        match array_from_slice(bytes) {
            Ok(hash) => Ok(Hash(hash)),
            Err(e) => Err(e),
        }
    }
}

/// The environment of a contract on a chain with the default node runtime.
///
/// It names the types and the discriminants of that runtime; its one value
/// carries nothing.
#[derive(Debug, Clone, Copy, PartialEq, Eq)]
pub enum NodeRuntimeTypes {
    /// The default node runtime.
    Default,
}

impl NodeRuntimeTypes {
    /// The discriminants of the default node runtime: the balances module
    /// is its sixth, and transfer comes before setting a balance.
    pub fn dispatch_table() -> (table: DispatchTable)
        ensures
            table == (DispatchTable { balances: 5, transfer: 0, set_balance: 1 }),
            table.wf(),
    {
        DispatchTable { balances: 5, transfer: 0, set_balance: 1 }
    }
}

/// A call that a contract dispatches to the runtime.
#[derive(Debug, Clone, Copy, PartialEq, Eq)]
pub enum Call {
    /// A call into the balances module.
    Balances(Balances<AccountId, AccountIndex>),
}

impl FromSpecImpl<Balances<AccountId, AccountIndex>> for Call {
    open spec fn obeys_from_spec() -> bool {
        true
    }

    open spec fn from_spec(balances_call: Balances<AccountId, AccountIndex>) -> Call {
        Call::Balances(balances_call)
    }
}

impl From<Balances<AccountId, AccountIndex>> for Call {
    fn from(balances_call: Balances<AccountId, AccountIndex>) -> (r: Call) {
        Call::Balances(balances_call)
    }
}

impl Call {
    /// The bytes of the call: the byte of its module, then the bytes of the
    /// call into that module.
    pub open spec fn wire(self, table: DispatchTable) -> Seq<u8> {
        match self {
            Call::Balances(call) => seq![table.balances] + call.wire(table),
        }
    }

    /// What the bytes `s` give: the call at their front and what follows
    /// it, or why there is none.
    pub open spec fn parse(s: Seq<u8>, table: DispatchTable) -> Result<(Call, Seq<u8>), CallError> {
        if s.len() == 0 {
            Err(CallError::Truncated)
        } else if s[0] == table.balances {
            match Balances::<AccountId, AccountIndex>::parse(s.drop_first(), table) {
                Ok((call, rest)) => Ok((Call::Balances(call), rest)),
                Err(e) => Err(e),
            }
        } else {
            Err(CallError::UnknownModule)
        }
    }

    /// Appends the bytes of the call to `out`.
    pub fn encode_to(&self, table: &DispatchTable, out: &mut Vec<u8>)
        ensures
            final(out)@ == old(out)@ + self.wire(*table),
    {
        match self {
            Call::Balances(call) => {
                out.push(table.balances);
                call.encode_to(table, out);
            },
        }
        assert(out@ =~= old(out)@ + self.wire(*table));
    }

    /// The bytes of the call.
    pub fn encode(&self, table: &DispatchTable) -> (out: Vec<u8>)
        ensures
            out@ == self.wire(*table),
    {
        let mut out: Vec<u8> = Vec::new();
        self.encode_to(table, &mut out);
        assert(out@ =~= self.wire(*table));
        out
    }

    /// Reads the call at the front of `input` and hands it back with the
    /// bytes that follow it.
    pub fn decode<'a>(input: &'a [u8], table: &DispatchTable) -> (r: Result<
        (Call, &'a [u8]),
        CallError,
    >)
        ensures
            match r {
                Ok((c, rest)) => Call::parse(input@, *table) == Ok::<_, CallError>((c, rest@)),
                Err(e) => Call::parse(input@, *table) == Err::<(Call, Seq<u8>), _>(e),
            },
    {
        if input.len() == 0 {
            return Err(CallError::Truncated);
        }
        let module = input[0];
        let body = slice_subrange(input, 1, input.len());
        assert(body@ =~= input@.drop_first());
        if module == table.balances {
            let (call, rest) = Balances::<AccountId, AccountIndex>::decode(body, table)?;
            Ok((Call::Balances(call), rest))
        } else {
            Err(CallError::UnknownModule)
        }
    }

    /// Under a table that gives each operation a byte of its own, decoding
    /// what was encoded gives the call back, and leaves whatever followed
    /// its bytes.
    pub proof fn lemma_round_trip(self, table: DispatchTable, rest: Seq<u8>)
        requires
            table.wf(),
        ensures
            Call::parse(self.wire(table) + rest, table) == Ok::<_, CallError>((self, rest)),
    {
        let s = self.wire(table) + rest;
        match self {
            Call::Balances(call) => {
                assert(s.drop_first() =~= call.wire(table) + rest);
                call.lemma_round_trip(table, rest);
            },
        }
    }

    /// Bytes that decode to a call begin with the bytes of that call.
    pub proof fn lemma_canonical(s: Seq<u8>, table: DispatchTable)
        ensures
            Call::parse(s, table) matches Ok((c, rest)) ==> s == c.wire(table) + rest,
    {
        if let Ok((c, rest)) = Call::parse(s, table) {
            Balances::<AccountId, AccountIndex>::lemma_canonical(s.drop_first(), table);
            assert(s =~= seq![s[0]] + s.drop_first());
            assert(s =~= c.wire(table) + rest);
        }
    }
}

} // verus!
