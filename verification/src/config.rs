//! Settings of a load test.
use vstd::prelude::*;

verus! {

/// Settings of a load test, as the configuration file gives them.
///
/// `users_count` should be at least twice `senders_count`: then no sender ever
/// finds too few users (see [`crate::setup::lemma_configured_load_goes_on`]).
pub struct Config {
    /// Address of the node.
    pub node_url: String,
    /// Secret key, in hexadecimal, of the account that pays for everything.
    pub pot_pk: String,
    /// Secret key of the account that acts for the users.
    pub master_pk: String,
    /// Secret key of the administrator of the collection.
    pub collection_admin_pk: String,
    /// Secret key of the marketplace's fee signer.
    pub fee_signer_pk: String,
    /// Largest number of calls in one batch.
    pub batch_size: usize,
    /// Number of senders, which work concurrently.
    pub senders_count: usize,
    /// Coins that each sender gets.
    pub sender_funds: u64,
    /// Number of users.
    pub users_count: usize,
    /// Coins that each user gets, and the price of a trade.
    pub user_funds: u64,
}

} // verus!
