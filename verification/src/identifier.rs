//! Account identifiers: values that travel as a fixed number of raw bytes.

use vstd::array::{spec_array_fill_for_copy_type, spec_array_update};
use vstd::prelude::*;
use vstd::slice::slice_subrange;

verus! {

/// A type whose values name an account directly, each by the same number
/// of raw bytes.
pub trait Identifier: Sized {
    /// The number of bytes of an identifier.
    spec fn width() -> nat;

    /// The bytes that name the account.
    spec fn wire(&self) -> Seq<u8>;

    /// The identifier that the bytes make.
    spec fn from_wire(s: Seq<u8>) -> Self;

    /// Identifiers and byte strings of the width correspond one to one.
    proof fn lemma_identifier(&self, s: Seq<u8>)
        ensures
            self.wire().len() == Self::width(),
            Self::from_wire(self.wire()) == *self,
            s.len() == Self::width() ==> Self::from_wire(s).wire() == s,
    ;

    /// Appends the bytes of the identifier as they are.
    fn encode_to(&self, out: &mut Vec<u8>)
        ensures
            final(out)@ == old(out)@ + self.wire(),
    ;

    /// Makes an identifier of the first `width()` bytes and hands back what
    /// follows them; `None` when fewer bytes are there.
    fn decode(input: &[u8]) -> (r: Option<(Self, &[u8])>)
        ensures
            match r {
                Some((id, rest)) => input@ == id.wire() + rest@,
                None => input@.len() < Self::width(),
            },
    ;
}

/// The array whose first `k` bytes are those of `s` and whose other bytes
/// are zero.
pub open spec fn array_prefix<const N: usize>(s: Seq<u8>, k: nat) -> [u8; N]
    decreases k,
{
    if k == 0 {
        spec_array_fill_for_copy_type::<u8, N>(0u8)
    } else {
        spec_array_update(array_prefix::<N>(s, (k - 1) as nat), k - 1, s[k - 1])
    }
}

/// The array that holds the bytes of `s`, for `s` of length `N`.
pub open spec fn array_of<const N: usize>(s: Seq<u8>) -> [u8; N] {
    array_prefix::<N>(s, N as nat)
}

proof fn lemma_array_prefix<const N: usize>(s: Seq<u8>, k: nat)
    requires
        k <= N,
        s.len() == N,
    ensures
        forall|i: int| 0 <= i < k ==> array_prefix::<N>(s, k)@[i] == s[i],
    decreases k,
{
    broadcast use vstd::array::group_array_axioms;

    if k > 0 {
        lemma_array_prefix::<N>(s, (k - 1) as nat);
    }
}

/// An array made of a byte string holds that string, and making an array
/// of the bytes of an array gives the array back.
pub proof fn lemma_array_of<const N: usize>(a: [u8; N], s: Seq<u8>)
    ensures
        a@.len() == N,
        array_of::<N>(a@) == a,
        s.len() == N ==> array_of::<N>(s)@ == s,
{
    broadcast use vstd::array::group_array_axioms;

    lemma_array_prefix::<N>(a@, N as nat);
    assert(array_of::<N>(a@) =~= a);
    if s.len() == N {
        lemma_array_prefix::<N>(s, N as nat);
        assert(array_of::<N>(s)@ =~= s);
    }
}

/// A byte array names an account by its bytes, whatever its length.
impl<const N: usize> Identifier for [u8; N] {
    open spec fn width() -> nat {
        N as nat
    }

    open spec fn wire(&self) -> Seq<u8> {
        self@
    }

    open spec fn from_wire(s: Seq<u8>) -> [u8; N] {
        array_of::<N>(s)
    }

    proof fn lemma_identifier(&self, s: Seq<u8>) {
        lemma_array_of::<N>(*self, s);
    }

    fn encode_to(&self, out: &mut Vec<u8>) {
        out.extend_from_slice(self.as_slice());
        assert(out@ =~= old(out)@ + self.wire());
    }

    fn decode(input: &[u8]) -> (r: Option<([u8; N], &[u8])>) {
        if input.len() < N {
            None
        } else {
            let mut id: [u8; N] = [0u8; N];
            let mut i: usize = 0;
            while i < N
                invariant
                    i <= N <= input@.len(),
                    forall|j: int| 0 <= j < i ==> id@[j] == input@[j],
                decreases N - i,
            {
                id[i] = input[i];
                i += 1;
            }
            let rest = slice_subrange(input, N, input.len());
            assert(input@ =~= id@ + rest@);
            Some((id, rest))
        }
    }
}

} // verus!
