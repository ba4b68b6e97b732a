//! Fixed-width identities and the deterministic derivation of record addresses.

use vstd::prelude::*;

verus! {

/// A 32-byte ledger identity: the key of a signer, of a program, or of a record.
#[derive(Clone, Copy, Debug, Eq, Hash)]
pub struct Address {
    pub bytes: [u8; 32],
}

impl View for Address {
    type V = Seq<u8>;

    open spec fn view(&self) -> Seq<u8> {
        self.bytes@
    }
}

impl PartialEq for Address {
    fn eq(&self, other: &Address) -> (r: bool) {
        self.same(other)
    }
}

impl vstd::std_specs::cmp::PartialEqSpecImpl for Address {
    open spec fn obeys_eq_spec() -> bool {
        true
    }

    open spec fn eq_spec(&self, other: &Address) -> bool {
        *self == *other
    }
}

impl Address {
    /// The identity made of the given bytes.
    pub fn new(bytes: [u8; 32]) -> (a: Address)
        ensures
            a.bytes == bytes,
    {
        Address { bytes }
    }

    /// Whether two identities are the same, byte for byte.
    pub fn same(&self, other: &Address) -> (r: bool)
        ensures
            r == (*self == *other),
            r == (self@ == other@),
    {
        let mut i: usize = 0;
        while i < 32
            invariant
                i <= 32,
                forall|j: int| 0 <= j < i ==> self.bytes[j] == other.bytes[j],
            decreases 32 - i,
        {
            if self.bytes[i] != other.bytes[i] {
                return false;
            }
            i += 1;
        }
        proof {
            assert(self.bytes@ =~= other.bytes@);
            assert(self.bytes == other.bytes);
        }
        true
    }

    /// Two identities with the same bytes are the same identity.
    pub proof fn lemma_view_injective(a: Address, b: Address)
        requires
            a@ == b@,
        ensures
            a == b,
    {
        assert(a.bytes@ =~= b.bytes@);
        assert(a.bytes == b.bytes);
    }
}

/// The outcome of the ledger's search for a program-derived address under the
/// seeds `tag` and `owner`, in the namespace of `program`: the address and the
/// nonce that completes the seeds, or `None` where the search finds none.
pub uninterp spec fn derived_address(tag: Seq<u8>, owner: Seq<u8>, program: Seq<u8>) -> Option<(Seq<u8>, u8)>;

/// Whether `found` is what the ledger's search yields for these seeds: the
/// derived address and its nonce, or nothing.
pub open spec fn is_derivation(found: Option<(Address, u8)>, tag: Seq<u8>, owner: Address, program: Address) -> bool {
    derived_address(tag, owner@, program@) == match found {
        Some((address, nonce)) => Some((address@, nonce)),
        None => None,
    }
}

/// Calls `solana_program::pubkey::Pubkey::try_find_program_address` with the
/// two seeds `tag` and `owner`. Trusted: that the outcome depends on the three
/// byte strings alone. Nothing is claimed of which address comes out.
#[verifier::external_body]
fn try_find_program_address(tag: &[u8], owner: &Address, program: &Address) -> (found: Option<(Address, u8)>)
    ensures
        derived_address(tag@, owner@, program@) == match found {
            Some((address, nonce)) => Some((address@, nonce)),
            None => None,
        },
{
    let program = solana_program::pubkey::Pubkey::new_from_array(program.bytes);
    let found = solana_program::pubkey::Pubkey::try_find_program_address(&[tag, &owner.bytes], &program);
    found.map(|(key, nonce)| (Address { bytes: key.to_bytes() }, nonce))
}

/// The canonical sub-account address that belongs to `owner` under the
/// namespace `tag` within `program`, with the nonce that disambiguates it.
/// `None` where no such address exists (a tag longer than a seed may be, or
/// a search that exhausts every nonce).
pub fn derive(tag: &[u8], owner: &Address, program: &Address) -> (found: Option<(Address, u8)>)
    ensures
        is_derivation(found, tag@, *owner, *program),
{
    try_find_program_address(tag, owner, program)
}

/// Derivation is deterministic: whatever two derivations from equal tags,
/// owners and programs yield is equal, address and nonce.
pub proof fn lemma_derive_deterministic(
    first: Option<(Address, u8)>,
    second: Option<(Address, u8)>,
    tag: Seq<u8>,
    owner: Address,
    program: Address,
)
    requires
        is_derivation(first, tag, owner, program),
        is_derivation(second, tag, owner, program),
    ensures
        first == second,
{
    if let Some((a, _)) = first {
        if let Some((b, _)) = second {
            Address::lemma_view_injective(a, b);
        }
    }
}

} // verus!
