//! Calls of the chain's runtime and the transactions that carry them.
use vstd::prelude::*;

use crate::keys::Keypair;
use crate::substrate::AccountId20;
use crate::substrate::IncrementableU256;

verus! {

/// A call of the runtime.
pub enum Call {
    Balances(BalancesCall),
    MythProxy(MythProxyCall),
    Nfts(NftsCall),
    Marketplace(MarketplaceCall),
    Utility(UtilityCall),
}

/// Calls that move money.
pub enum BalancesCall {
    /// Transfers `value` and keeps the payer alive.
    TransferKeepAlive { dest: AccountId20, value: u128 },
    /// Transfers everything, but for the deposit where `keep_alive` says so.
    TransferAll { dest: AccountId20, keep_alive: bool },
}

/// Calls about acting for others.
pub enum MythProxyCall {
    /// Lets `delegate` act for the signer.
    AddProxy { delegate: AccountId20, proxy_type: ProxyType, sponsor: Option<AccountId20> },
    /// Makes a call for `address`.
    Proxy { address: AccountId20, call: Box<Call> },
}

/// What a delegate may do.
pub enum ProxyType {
    Any,
}

/// Calls about NFTs.
pub enum NftsCall {
    /// Creates a collection.
    Create { admin: AccountId20, config: CollectionConfig },
    /// Issues an item.
    Mint {
        collection: IncrementableU256,
        maybe_item: Option<u128>,
        mint_to: AccountId20,
        witness_data: Option<MintWitness>,
    },
    /// Moves an item.
    Transfer { collection: IncrementableU256, item: u128, dest: AccountId20 },
    /// Destroys an item.
    Burn { collection: IncrementableU256, item: u128 },
}

/// What a minter has to show in collections that ask for it.
pub struct MintWitness {
    pub owned_item: Option<u128>,
    pub mint_price: Option<u128>,
}

/// Settings of a collection.
pub struct CollectionConfig {
    /// Bits of the settings that are switched off.
    pub settings: u64,
    pub max_supply: Option<u128>,
    pub mint_settings: MintSettings,
}

/// How items of a collection are issued.
pub struct MintSettings {
    pub mint_type: MintType,
    pub price: Option<u128>,
    pub start_block: Option<u32>,
    pub end_block: Option<u32>,
    /// Bits of the settings of an item that are switched off.
    pub default_item_settings: u64,
    pub serial_mint: bool,
}

/// Who may issue items.
pub enum MintType {
    Issuer,
}

/// Calls of the marketplace.
pub enum MarketplaceCall {
    CreateOrder { order: Order, execution: Execution },
}

/// Side of an order.
#[derive(Clone, Copy, Debug, PartialEq, Eq)]
pub enum OrderType {
    Ask,
    Bid,
}

/// What happens to an order that finds no match.
#[derive(Clone, Copy, Debug, PartialEq, Eq)]
pub enum Execution {
    /// It may stay.
    AllowCreation,
    /// It has to match at once.
    Force,
}

/// An order of the marketplace.
pub struct Order {
    pub order_type: OrderType,
    pub collection: IncrementableU256,
    pub item: u128,
    pub price: u128,
    pub expires_at: u64,
    pub fee: u128,
    pub escrow_agent: Option<AccountId20>,
    pub signature_data: SignatureData,
}

/// The fee signer's signature of an order.
pub struct SignatureData {
    pub signature: EthereumSignature,
    pub nonce: Vec<u8>,
}

/// A recoverable signature.
pub struct EthereumSignature(pub [u8; 65]);

/// Calls that hold calls.
pub enum UtilityCall {
    /// Makes all the calls, or none where one fails.
    BatchAll { calls: Vec<Call> },
}

/// A call and who signs it.
pub struct Transaction {
    pub signer: Keypair,
    pub call: Call,
}

/// Transfer of `value` to `dest`.
pub open spec fn transfer_keep_alive(dest: AccountId20, value: u128) -> Call {
    Call::Balances(BalancesCall::TransferKeepAlive { dest, value })
}

/// `delegate` may act for the signer in every way.
pub open spec fn add_proxy(delegate: AccountId20) -> Call {
    Call::MythProxy(
        MythProxyCall::AddProxy { delegate, proxy_type: ProxyType::Any, sponsor: None },
    )
}

/// `call` is made for `address`.
pub open spec fn proxied(address: AccountId20, call: Call) -> Call {
    Call::MythProxy(MythProxyCall::Proxy { address, call: Box::new(call) })
}

/// The call that a proxied call makes.
pub open spec fn unproxied(call: Call) -> Call {
    match call {
        Call::MythProxy(MythProxyCall::Proxy { address: _, call }) => *call,
        _ => call,
    }
}

/// Settings of the collection that the load test mints into: unlimited, items
/// numbered in sequence and issued by the issuer alone, nothing switched off.
pub open spec fn load_collection() -> CollectionConfig {
    CollectionConfig {
        settings: 0,
        max_supply: Some(u128::MAX),
        mint_settings: MintSettings {
            mint_type: MintType::Issuer,
            price: None,
            start_block: None,
            end_block: None,
            default_item_settings: 0,
            serial_mint: true,
        },
    }
}

/// Creation of the collection.
pub open spec fn create_collection_call(admin: AccountId20) -> Call {
    Call::Nfts(NftsCall::Create { admin, config: load_collection() })
}

/// Issue of an item to `recipient`, made for the administrator.
pub open spec fn mint_call(
    collection: IncrementableU256,
    admin: AccountId20,
    recipient: AccountId20,
) -> Call {
    proxied(
        admin,
        Call::Nfts(
            NftsCall::Mint { collection, maybe_item: None, mint_to: recipient, witness_data: None },
        ),
    )
}

/// Move of an item from `from` to `to`, made for `from` through the master.
pub open spec fn transfer_call(
    master: AccountId20,
    collection: IncrementableU256,
    item: u128,
    from: AccountId20,
    to: AccountId20,
) -> Call {
    proxied(master, proxied(from, Call::Nfts(NftsCall::Transfer { collection, item, dest: to })))
}

/// Destruction of an item of `owner`, made for `owner` through the master.
pub open spec fn burn_call(
    master: AccountId20,
    collection: IncrementableU256,
    owner: AccountId20,
    item: u128,
) -> Call {
    proxied(master, proxied(owner, Call::Nfts(NftsCall::Burn { collection, item })))
}

/// Transfer of everything to `dest`, but for the deposit.
pub open spec fn sweep_call(dest: AccountId20) -> Call {
    Call::Balances(BalancesCall::TransferAll { dest, keep_alive: true })
}

/// `signer` transfers `value` to `dest`.
pub fn fund(signer: &Keypair, dest: AccountId20, value: u128) -> (tx: Transaction)
    ensures
        tx.signer == *signer,
        tx.call == transfer_keep_alive(dest, value),
{
    Transaction {
        signer: *signer,
        call: Call::Balances(BalancesCall::TransferKeepAlive { dest, value }),
    }
}

/// `signer` lets `delegate` act for it.
pub fn delegate_to(signer: &Keypair, delegate: AccountId20) -> (tx: Transaction)
    ensures
        tx.signer == *signer,
        tx.call == add_proxy(delegate),
{
    Transaction {
        signer: *signer,
        call: Call::MythProxy(
            MythProxyCall::AddProxy { delegate, proxy_type: ProxyType::Any, sponsor: None },
        ),
    }
}

/// The administrator creates the collection.
pub fn create_collection(collection_admin: &Keypair) -> (tx: Transaction)
    ensures
        tx.signer == *collection_admin,
        tx.call == create_collection_call(collection_admin.account()),
{
    Transaction {
        signer: *collection_admin,
        call: Call::Nfts(
            NftsCall::Create {
                admin: collection_admin.account_id(),
                config: CollectionConfig {
                    settings: 0,
                    max_supply: Some(u128::MAX),
                    mint_settings: MintSettings {
                        mint_type: MintType::Issuer,
                        price: None,
                        start_block: None,
                        end_block: None,
                        default_item_settings: 0,
                        serial_mint: true,
                    },
                },
            },
        ),
    }
}

/// `sender` mints an item to `recipient`.
pub fn mint(
    sender: &Keypair,
    collection: IncrementableU256,
    admin: AccountId20,
    recipient: AccountId20,
) -> (tx: Transaction)
    ensures
        tx.signer == *sender,
        tx.call == mint_call(collection, admin, recipient),
{
    let mint_call = Call::Nfts(
        NftsCall::Mint { collection, maybe_item: None, mint_to: recipient, witness_data: None },
    );
    Transaction {
        signer: *sender,
        call: Call::MythProxy(
            MythProxyCall::Proxy { address: admin, call: Box::new(mint_call) },
        ),
    }
}

/// `sender` makes `call` for `address`, on which the master acts.
pub(crate) fn through_master(
    sender: &Keypair,
    master: AccountId20,
    address: AccountId20,
    call: Call,
) -> (tx: Transaction)
    ensures
        tx.signer == *sender,
        tx.call == proxied(master, proxied(address, call)),
{
    let inner = Call::MythProxy(MythProxyCall::Proxy { address, call: Box::new(call) });
    Transaction {
        signer: *sender,
        call: Call::MythProxy(MythProxyCall::Proxy { address: master, call: Box::new(inner) }),
    }
}

/// `sender` moves an item from `from` to `to`.
pub fn transfer(
    sender: &Keypair,
    master: AccountId20,
    collection: IncrementableU256,
    item: u128,
    from: AccountId20,
    to: AccountId20,
) -> (tx: Transaction)
    ensures
        tx.signer == *sender,
        tx.call == transfer_call(master, collection, item, from, to),
{
    through_master(
        sender,
        master,
        from,
        Call::Nfts(NftsCall::Transfer { collection, item, dest: to }),
    )
}

/// `sender` destroys an item of `owner`.
pub fn burn(
    sender: &Keypair,
    master: AccountId20,
    collection: IncrementableU256,
    owner: AccountId20,
    item: u128,
) -> (tx: Transaction)
    ensures
        tx.signer == *sender,
        tx.call == burn_call(master, collection, owner, item),
{
    through_master(sender, master, owner, Call::Nfts(NftsCall::Burn { collection, item }))
}

/// A call that is made for another account carries that account and the call, whole.
pub proof fn lemma_proxied(address: AccountId20, call: Call)
    ensures
        proxied(address, call) matches Call::MythProxy(
            MythProxyCall::Proxy { address: on, call: inner },
        ) && on == address && *inner == call,
        unproxied(proxied(address, call)) == call,
{
}

/// A transfer pays exactly the value to exactly the account, and a sweep everything
/// but the deposit.
pub proof fn lemma_payments(dest: AccountId20, value: u128)
    ensures
        transfer_keep_alive(dest, value) matches Call::Balances(
            BalancesCall::TransferKeepAlive { dest: to, value: amount },
        ) && to == dest && amount == value,
        sweep_call(dest) matches Call::Balances(
            BalancesCall::TransferAll { dest: to, keep_alive },
        ) && to == dest && keep_alive,
{
}

/// A delegation lets exactly the account act, in every way and without a sponsor.
pub proof fn lemma_delegation(delegate: AccountId20)
    ensures
        add_proxy(delegate) matches Call::MythProxy(
            MythProxyCall::AddProxy { delegate: to, proxy_type, sponsor },
        ) && to == delegate && proxy_type is Any && sponsor is None,
{
}

/// The collection belongs to the administrator, has no limit and nothing switched
/// off, and numbers the items that its issuer mints in sequence, for free and at any
/// time.
pub proof fn lemma_collection(admin: AccountId20)
    ensures
        create_collection_call(admin) matches Call::Nfts(
            NftsCall::Create { admin: owner, config },
        ) && {
            &&& owner == admin
            &&& config.settings == 0
            &&& config.max_supply == Some(0xffff_ffff_ffff_ffff_ffff_ffff_ffff_ffffu128)
            &&& config.mint_settings.mint_type is Issuer
            &&& config.mint_settings.price is None
            &&& config.mint_settings.start_block is None
            &&& config.mint_settings.end_block is None
            &&& config.mint_settings.default_item_settings == 0
            &&& config.mint_settings.serial_mint
        },
{
}

/// A mint is made for the administrator alone: into the collection, to the
/// recipient, under the next free number.
pub proof fn lemma_mint(
    collection: IncrementableU256,
    admin: AccountId20,
    recipient: AccountId20,
)
    ensures
        mint_call(collection, admin, recipient) matches Call::MythProxy(
            MythProxyCall::Proxy { address, call },
        ) && address == admin && (*call matches Call::Nfts(
            NftsCall::Mint { collection: into, maybe_item, mint_to, witness_data },
        ) && into == collection && maybe_item is None && mint_to == recipient
            && witness_data is None),
{
}

/// A transfer is made for the master, on whose behalf it is made for the owner: of
/// exactly the item, to exactly the receiver.
pub proof fn lemma_transfer(
    master: AccountId20,
    collection: IncrementableU256,
    item: u128,
    from: AccountId20,
    to: AccountId20,
)
    ensures
        transfer_call(master, collection, item, from, to) matches Call::MythProxy(
            MythProxyCall::Proxy { address: first, call: outer },
        ) && first == master && (*outer matches Call::MythProxy(
            MythProxyCall::Proxy { address: second, call: inner },
        ) && second == from && (*inner matches Call::Nfts(
            NftsCall::Transfer { collection: of, item: moved, dest },
        ) && of == collection && moved == item && dest == to)),
{
}

/// A burn is made for the master, on whose behalf it is made for the owner, and
/// destroys exactly the item.
pub proof fn lemma_burn(
    master: AccountId20,
    collection: IncrementableU256,
    owner: AccountId20,
    item: u128,
)
    ensures
        burn_call(master, collection, owner, item) matches Call::MythProxy(
            MythProxyCall::Proxy { address: first, call: outer },
        ) && first == master && (*outer matches Call::MythProxy(
            MythProxyCall::Proxy { address: second, call: inner },
        ) && second == owner && (*inner matches Call::Nfts(
            NftsCall::Burn { collection: of, item: burnt },
        ) && of == collection && burnt == item)),
{
}

/// Payments, delegations and the collection, as they are made.
pub proof fn lemma_simple_calls_as_made(
    signer: Keypair,
    account: AccountId20,
    value: u128,
    funding: Transaction,
    delegation: Transaction,
    creation: Transaction,
)
    requires
        call_ensures(fund, (&signer, account, value), funding),
        call_ensures(delegate_to, (&signer, account), delegation),
        call_ensures(create_collection, (&signer,), creation),
    ensures
        funding.signer == signer && delegation.signer == signer && creation.signer == signer,
        funding.call matches Call::Balances(
            BalancesCall::TransferKeepAlive { dest, value: amount },
        ) && dest == account && amount == value,
        delegation.call matches Call::MythProxy(
            MythProxyCall::AddProxy { delegate, proxy_type, sponsor },
        ) && delegate == account && proxy_type is Any && sponsor is None,
        creation.call matches Call::Nfts(NftsCall::Create { admin, config }) && admin
            == signer.account() && config.max_supply == Some(u128::MAX)
            && config.mint_settings.serial_mint,
{
}

/// Mints, transfers and burns, as they are made: the sender signs, and the numbers
/// and accounts are those given.
pub proof fn lemma_item_calls_as_made(
    sender: Keypair,
    over: AccountId20,
    collection: IncrementableU256,
    item: u128,
    from: AccountId20,
    to: AccountId20,
    minting: Transaction,
    moving: Transaction,
    burning: Transaction,
)
    requires
        call_ensures(mint, (&sender, collection, over, to), minting),
        call_ensures(transfer, (&sender, over, collection, item, from, to), moving),
        call_ensures(burn, (&sender, over, collection, from, item), burning),
    ensures
        minting.signer == sender && moving.signer == sender && burning.signer == sender,
        minting.call matches Call::MythProxy(MythProxyCall::Proxy { address, call }) && address
            == over && (*call matches Call::Nfts(
            NftsCall::Mint { collection: into, maybe_item, mint_to, witness_data },
        ) && into == collection && maybe_item is None && mint_to == to && witness_data is None),
        moving.call matches Call::MythProxy(MythProxyCall::Proxy { address, call }) && address
            == over && (*call matches Call::MythProxy(
            MythProxyCall::Proxy { address: owner, call: inner },
        ) && owner == from && (*inner matches Call::Nfts(
            NftsCall::Transfer { collection: of, item: moved, dest },
        ) && of == collection && moved == item && dest == to)),
        burning.call matches Call::MythProxy(MythProxyCall::Proxy { address, call }) && address
            == over && (*call matches Call::MythProxy(
            MythProxyCall::Proxy { address: owner, call: inner },
        ) && owner == from && (*inner matches Call::Nfts(
            NftsCall::Burn { collection: of, item: burnt },
        ) && of == collection && burnt == item)),
{
}

} // verus!
