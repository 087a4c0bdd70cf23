//! Identifiers of the chain.
use vstd::prelude::*;

verus! {

/// Marker for the chain: 32-byte hashes, 20-byte accounts, Ethereum signatures.
#[derive(Clone, Copy)]
pub struct MythConfig;

/// Account of the chain, an Ethereum address.
#[derive(Clone, Copy, Debug, PartialEq, Eq)]
pub struct AccountId20(pub [u8; 20]);

impl AccountId20 {
    /// The account with the given bytes.
    pub open spec fn of(bytes: Seq<u8>) -> AccountId20 {
        choose|account: AccountId20| account.0@ == bytes
    }
}

/// An account is known by its bytes.
pub broadcast proof fn lemma_account_of_bytes(account: AccountId20)
    ensures
        #[trigger] AccountId20::of(account.0@) == account,
{
    let other = AccountId20::of(account.0@);
    assert(other.0@ == account.0@);
    assert(other.0 =~= account.0);
}

/// Hash of an extrinsic, read as a big-endian number of which `hi` is the upper
/// half.
#[derive(Clone, Copy, Debug, PartialEq, Eq)]
pub struct H256 {
    pub hi: u128,
    pub lo: u128,
}

/// A 256-bit number as four words, the least significant first.
#[derive(Clone, Copy, Debug, PartialEq, Eq)]
pub struct U256(pub [u64; 4]);

/// Identifier of an NFT collection.
#[derive(Clone, Copy, Debug, PartialEq, Eq)]
pub struct IncrementableU256(pub U256);

} // verus!
