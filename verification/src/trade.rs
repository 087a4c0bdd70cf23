//! Orders of the marketplace and the trade of an item between two users.
use vstd::prelude::*;

use crate::amounts::COIN;
use crate::calls::BalancesCall;
use crate::calls::Call;
use crate::calls::EthereumSignature;
use crate::calls::Execution;
use crate::calls::MarketplaceCall;
use crate::calls::Order;
use crate::calls::OrderType;
use crate::calls::SignatureData;
use crate::calls::Transaction;
use crate::calls::fund;
use crate::calls::through_master;
use crate::keys::Keypair;
use crate::scale::OrderMessage;
use crate::scale::OrderTerms;
use crate::substrate::AccountId20;
use crate::substrate::IncrementableU256;

verus! {

/// How long an order stays valid, in milliseconds.
pub const ORDER_LIFETIME: u64 = 9_000_001;

/// Fee of an order.
pub const ORDER_FEE: u128 = COIN;

/// Number of characters in the nonce of an order.
pub const NONCE_LENGTH: usize = 9;

/// A letter or digit of ASCII.
pub open spec fn is_alphanumeric(c: char) -> bool {
    ('0' <= c && c <= '9') || ('A' <= c && c <= 'Z') || ('a' <= c && c <= 'z')
}

/// `nonce` can be the nonce of an order.
pub open spec fn is_nonce(nonce: Seq<char>) -> bool {
    &&& nonce.len() == NONCE_LENGTH
    &&& forall|i: int| 0 <= i < nonce.len() ==> is_alphanumeric(#[trigger] nonce[i])
}

/// Calls `rand::distr::SampleString::sample_string` on the distribution
/// `Alphanumeric` and the generator of the thread. Trusted: the text has the
/// length asked for and consists of letters and digits of ASCII, whatever comes.
#[verifier::external_body]
fn random_text(length: usize) -> (text: String)
    ensures
        text@.len() == length,
        forall|i: int| 0 <= i < length ==> is_alphanumeric(#[trigger] text@[i]),
{
    rand::distr::SampleString::sample_string(
        &rand::distr::Alphanumeric,
        &mut rand::rng(),
        length,
    )
}

/// `call` creates the order with these terms, signed by `mp_signer`.
pub open spec fn creates_order(
    call: Call,
    mp_signer: Keypair,
    order_type: OrderType,
    terms: OrderTerms,
    collection: IncrementableU256,
    execution: Execution,
) -> bool {
    &&& call matches Call::Marketplace(MarketplaceCall::CreateOrder { order, execution: how })
    &&& how == execution
    &&& order.order_type == order_type
    &&& order.collection == collection
    &&& order.item == terms.item
    &&& order.price == terms.price
    &&& order.expires_at == terms.expires_at
    &&& order.fee == terms.fee
    &&& order.escrow_agent == terms.escrow_agent
    &&& order.signature_data.nonce@ == vstd::utf8::encode_utf8(terms.nonce)
    &&& order.signature_data.signature.0@ == crate::keys::signature_bytes(
        mp_signer.secret(),
        terms.encoded(),
    )
}

/// Terms of an order without escrow.
pub open spec fn terms(
    collection: IncrementableU256,
    item: u128,
    price: u128,
    expires_at: u64,
    fee: u128,
    nonce: Seq<char>,
) -> OrderTerms {
    OrderTerms { collection: collection.0, item, price, expires_at, fee, escrow_agent: None, nonce }
}

/// `call` creates the order that is described, under some nonce.
pub open spec fn creates_some_order(
    call: Call,
    mp_signer: Keypair,
    order_type: OrderType,
    collection: IncrementableU256,
    item: u128,
    price: u128,
    expires_at: u64,
    fee: u128,
    execution: Execution,
) -> bool {
    exists|nonce: Seq<char>| #[trigger]
        is_nonce(nonce) && creates_order(
            call,
            mp_signer,
            order_type,
            terms(collection, item, price, expires_at, fee, nonce),
            collection,
            execution,
        )
}

/// Call that creates an order under the given nonce.
pub fn make_create_order_with_nonce(
    mp_signer: &Keypair,
    order_type: OrderType,
    collection: IncrementableU256,
    item: u128,
    price: u128,
    expires_at: u64,
    fee: u128,
    execution: Execution,
    nonce: String,
) -> (call: Call)
    requires
        vstd::utf8::encode_utf8(nonce@).len() <= u32::MAX,
    ensures
        creates_order(
            call,
            *mp_signer,
            order_type,
            terms(collection, item, price, expires_at, fee, nonce@),
            collection,
            execution,
        ),
{
    let nonce_bytes: Vec<u8> = vstd::slice::slice_to_vec(nonce.as_str().as_bytes());
    let order_msg = OrderMessage {
        collection: collection.0,
        item,
        price,
        expires_at,
        fee,
        escrow_agent: None,
        nonce,
    };
    let order_bytes = order_msg.encode();
    let signature = mp_signer.sign(order_bytes.as_slice());
    Call::Marketplace(
        MarketplaceCall::CreateOrder {
            order: Order {
                order_type,
                collection,
                item,
                price,
                expires_at,
                fee,
                escrow_agent: None,
                signature_data: SignatureData {
                    signature: EthereumSignature(signature),
                    nonce: nonce_bytes,
                },
            },
            execution,
        },
    )
}

/// Call that creates an order under a random nonce.
pub fn make_create_order(
    mp_signer: &Keypair,
    order_type: OrderType,
    collection: IncrementableU256,
    item: u128,
    price: u128,
    expires_at: u64,
    fee: u128,
    execution: Execution,
) -> (call: Call)
    ensures
        creates_some_order(
            call,
            *mp_signer,
            order_type,
            collection,
            item,
            price,
            expires_at,
            fee,
            execution,
        ),
{
    let nonce = random_text(NONCE_LENGTH);
    proof {
        assert(vstd::utf8::is_ascii_chars(nonce@));
        vstd::utf8::is_ascii_chars_encode_utf8(nonce@);
        assert(is_nonce(nonce@));
    }
    make_create_order_with_nonce(
        mp_signer,
        order_type,
        collection,
        item,
        price,
        expires_at,
        fee,
        execution,
        nonce,
    )
}

/// Milliseconds since the epoch as the chain counts them: the lowest 64 bits.
pub fn myth_timestamp(millis: u128) -> (timestamp: u64)
    ensures
        timestamp == millis as int % 0x1_0000_0000_0000_0000,
{
    let timestamp: u128 = millis % 0x1_0000_0000_0000_0000;
    timestamp as u64
}

/// Transactions of a trade, in the order in which they are made.
#[derive(Clone, Copy, Debug, PartialEq, Eq, Structural)]
pub enum TradeLeg {
    /// The sender gives the buyer the price and the fee.
    FundBuyer,
    /// The seller asks the price for the item.
    Ask,
    /// The buyer bids the price, to be matched at once.
    Bid,
    /// The seller gives the sender what it has.
    Sweep,
}

/// Leg that comes after another.
pub open spec fn leg_after(leg: TradeLeg) -> Option<TradeLeg> {
    match leg {
        TradeLeg::FundBuyer => Some(TradeLeg::Ask),
        TradeLeg::Ask => Some(TradeLeg::Bid),
        TradeLeg::Bid => Some(TradeLeg::Sweep),
        TradeLeg::Sweep => None,
    }
}

impl TradeLeg {
    /// Leg that comes next; none after the last.
    pub fn next(self) -> (leg: Option<TradeLeg>)
        ensures
            leg == leg_after(self),
    {
        match self {
            TradeLeg::FundBuyer => Some(TradeLeg::Ask),
            TradeLeg::Ask => Some(TradeLeg::Bid),
            TradeLeg::Bid => Some(TradeLeg::Sweep),
            TradeLeg::Sweep => None,
        }
    }
}

/// `tx` is a leg of the trade in which `buyer` buys `item` from `seller`.
pub open spec fn is_trade_leg(
    tx: Transaction,
    leg: TradeLeg,
    sender: Keypair,
    master: AccountId20,
    collection: IncrementableU256,
    seller: Keypair,
    buyer: Keypair,
    fee_signer: Keypair,
    item: u128,
    price: u128,
    now: u64,
) -> bool {
    match leg {
        TradeLeg::FundBuyer => {
            &&& tx.signer == sender
            &&& tx.call == crate::calls::transfer_keep_alive(
                buyer.account(),
                (price + COIN) as u128,
            )
        },
        TradeLeg::Ask => {
            let order = crate::calls::unproxied(crate::calls::unproxied(tx.call));
            &&& tx.signer == sender
            &&& tx.call == crate::calls::proxied(
                master,
                crate::calls::proxied(seller.account(), order),
            )
            &&& creates_some_order(
                order,
                fee_signer,
                OrderType::Ask,
                collection,
                item,
                price,
                (now + ORDER_LIFETIME) as u64,
                ORDER_FEE,
                Execution::AllowCreation,
            )
        },
        TradeLeg::Bid => {
            let order = crate::calls::unproxied(crate::calls::unproxied(tx.call));
            &&& tx.signer == sender
            &&& tx.call == crate::calls::proxied(
                master,
                crate::calls::proxied(buyer.account(), order),
            )
            &&& creates_some_order(
                order,
                fee_signer,
                OrderType::Bid,
                collection,
                item,
                price,
                (now + ORDER_LIFETIME) as u64,
                ORDER_FEE,
                Execution::Force,
            )
        },
        TradeLeg::Sweep => {
            &&& tx.signer == seller
            &&& tx.call == crate::calls::sweep_call(sender.account())
        },
    }
}

/// One leg of the trade in which `buyer` buys `item` from `seller` at `price`;
/// `now` is the time of the order.
pub fn trade(
    leg: TradeLeg,
    sender: &Keypair,
    master: AccountId20,
    collection: IncrementableU256,
    seller: &Keypair,
    buyer: &Keypair,
    fee_signer: &Keypair,
    item: u128,
    price: u128,
    now: u64,
) -> (tx: Transaction)
    requires
        leg is FundBuyer ==> price + COIN <= u128::MAX,
        leg is Ask || leg is Bid ==> now + ORDER_LIFETIME <= u64::MAX,
    ensures
        is_trade_leg(
            tx,
            leg,
            *sender,
            master,
            collection,
            *seller,
            *buyer,
            *fee_signer,
            item,
            price,
            now,
        ),
{
    match leg {
        TradeLeg::FundBuyer => fund(sender, buyer.account_id(), price + COIN),
        TradeLeg::Ask => {
            let order = make_create_order(
                fee_signer,
                OrderType::Ask,
                collection,
                item,
                price,
                now + ORDER_LIFETIME,
                ORDER_FEE,
                Execution::AllowCreation,
            );
            through_master(sender, master, seller.account_id(), order)
        },
        TradeLeg::Bid => {
            let order = make_create_order(
                fee_signer,
                OrderType::Bid,
                collection,
                item,
                price,
                now + ORDER_LIFETIME,
                ORDER_FEE,
                Execution::Force,
            );
            through_master(sender, master, buyer.account_id(), order)
        },
        TradeLeg::Sweep => Transaction {
            signer: *seller,
            call: Call::Balances(
                BalancesCall::TransferAll { dest: sender.account_id(), keep_alive: true },
            ),
        },
    }
}

/// The order that a call creates.
pub open spec fn order_of(call: Call) -> Order {
    match call {
        Call::Marketplace(MarketplaceCall::CreateOrder { order, execution: _ }) => order,
        _ => arbitrary(),
    }
}

/// The two orders of a trade fit together: opposite sides, and the same item at
/// the same price and fee, whenever each was made.
pub proof fn lemma_ask_and_bid_fit(
    ask: Transaction,
    bid: Transaction,
    sender: Keypair,
    master: AccountId20,
    collection: IncrementableU256,
    seller: Keypair,
    buyer: Keypair,
    fee_signer: Keypair,
    item: u128,
    price: u128,
    asked_at: u64,
    bid_at: u64,
)
    requires
        is_trade_leg(
            ask,
            TradeLeg::Ask,
            sender,
            master,
            collection,
            seller,
            buyer,
            fee_signer,
            item,
            price,
            asked_at,
        ),
        is_trade_leg(
            bid,
            TradeLeg::Bid,
            sender,
            master,
            collection,
            seller,
            buyer,
            fee_signer,
            item,
            price,
            bid_at,
        ),
    ensures
        ({
            let a = order_of(crate::calls::unproxied(crate::calls::unproxied(ask.call)));
            let b = order_of(crate::calls::unproxied(crate::calls::unproxied(bid.call)));
            &&& a.order_type is Ask && b.order_type is Bid
            &&& a.collection == b.collection
            &&& a.item == b.item
            &&& a.price == b.price
            &&& a.fee == b.fee
            &&& a.escrow_agent == b.escrow_agent
        }),
{
}

/// What the buyer gets pays for the price and the fee of its bid.
pub proof fn lemma_buyer_can_pay(
    funding: Transaction,
    sender: Keypair,
    master: AccountId20,
    collection: IncrementableU256,
    seller: Keypair,
    buyer: Keypair,
    fee_signer: Keypair,
    item: u128,
    price: u128,
    now: u64,
)
    requires
        price + COIN <= u128::MAX,
        is_trade_leg(
            funding,
            TradeLeg::FundBuyer,
            sender,
            master,
            collection,
            seller,
            buyer,
            fee_signer,
            item,
            price,
            now,
        ),
    ensures
        funding.call == crate::calls::transfer_keep_alive(
            buyer.account(),
            (price + ORDER_FEE) as u128,
        ),
{
}

/// The message that an order's signature is of: what the order itself says.
pub open spec fn says_the_same(message: OrderTerms, order: Order) -> bool {
    &&& message.collection == order.collection.0
    &&& message.item == order.item
    &&& message.price == order.price
    &&& message.expires_at == order.expires_at
    &&& message.fee == order.fee
    &&& message.escrow_agent == order.escrow_agent
    &&& vstd::utf8::encode_utf8(message.nonce) == order.signature_data.nonce@
}

/// An order is signed by the given signer, over a message whose bytes hold the
/// order's own item, price, expiry and fee.
pub open spec fn signature_belongs(order: Order, signer: Keypair) -> bool {
    exists|message: OrderTerms| #[trigger]
        says_the_same(message, order) && order.signature_data.signature.0@
            == crate::keys::signature_bytes(signer.secret(), message.encoded())
}

/// The order that is made says what it was asked to say, and the signature on it is
/// of what the order itself says.
pub proof fn lemma_order_is_signed_as_it_stands(
    mp_signer: Keypair,
    order_type: OrderType,
    collection: IncrementableU256,
    item: u128,
    price: u128,
    expires_at: u64,
    fee: u128,
    execution: Execution,
    nonce: String,
    call: Call,
)
    requires
        vstd::utf8::encode_utf8(nonce@).len() <= u32::MAX,
        call_ensures(
            make_create_order_with_nonce,
            (
                &mp_signer,
                order_type,
                collection,
                item,
                price,
                expires_at,
                fee,
                execution,
                nonce,
            ),
            call,
        ),
    ensures
        call matches Call::Marketplace(MarketplaceCall::CreateOrder { order, execution: how }) && {
            &&& how == execution
            &&& order.order_type == order_type
            &&& order.collection == collection
            &&& order.item == item
            &&& order.price == price
            &&& order.expires_at == expires_at
            &&& order.fee == fee
            &&& order.escrow_agent is None
            &&& order.signature_data.nonce@ == vstd::utf8::encode_utf8(nonce@)
            &&& order.signature_data.signature.0@ == crate::keys::signature_bytes(
                mp_signer.secret(),
                (OrderTerms {
                    collection: order.collection.0,
                    item: order.item,
                    price: order.price,
                    expires_at: order.expires_at,
                    fee: order.fee,
                    escrow_agent: order.escrow_agent,
                    nonce: nonce@,
                }).encoded(),
            )
            &&& signature_belongs(order, mp_signer)
        },
{
    let order = order_of(call);
    let message = OrderTerms {
        collection: order.collection.0,
        item: order.item,
        price: order.price,
        expires_at: order.expires_at,
        fee: order.fee,
        escrow_agent: order.escrow_agent,
        nonce: nonce@,
    };
    assert(says_the_same(message, order));
}

/// An order under a random nonce says what it was asked to say, has a nonce of nine
/// letters and digits, and is signed as it stands.
pub proof fn lemma_some_order_is_signed_as_it_stands(
    call: Call,
    mp_signer: Keypair,
    order_type: OrderType,
    collection: IncrementableU256,
    item: u128,
    price: u128,
    expires_at: u64,
    fee: u128,
    execution: Execution,
)
    requires
        creates_some_order(
            call,
            mp_signer,
            order_type,
            collection,
            item,
            price,
            expires_at,
            fee,
            execution,
        ),
    ensures
        call matches Call::Marketplace(MarketplaceCall::CreateOrder { order, execution: how }) && {
            &&& how == execution
            &&& order.order_type == order_type
            &&& order.collection == collection
            &&& order.item == item
            &&& order.price == price
            &&& order.expires_at == expires_at
            &&& order.fee == fee
            &&& order.escrow_agent is None
            &&& order.signature_data.nonce@.len() == 9
            &&& forall|i: int|
                0 <= i < 9 ==> ({
                    let c = #[trigger] order.signature_data.nonce@[i];
                    48 <= c <= 57 || 65 <= c <= 90 || 97 <= c <= 122
                })
            &&& signature_belongs(order, mp_signer)
        },
{
    let nonce = choose|nonce: Seq<char>| #[trigger]
        is_nonce(nonce) && creates_order(
            call,
            mp_signer,
            order_type,
            terms(collection, item, price, expires_at, fee, nonce),
            collection,
            execution,
        );
    let order = order_of(call);
    assert(vstd::utf8::is_ascii_chars(nonce));
    vstd::utf8::is_ascii_chars_encode_utf8(nonce);
    assert forall|i: int| 0 <= i < 9 implies ({
        let c = #[trigger] order.signature_data.nonce@[i];
        48 <= c <= 57 || 65 <= c <= 90 || 97 <= c <= 122
    }) by {
        assert(is_alphanumeric(nonce[i]));
        assert(order.signature_data.nonce@[i] == nonce[i] as u8);
    }
    assert(says_the_same(
        terms(collection, item, price, expires_at, fee, nonce),
        order,
    ));
}

/// An order under a random nonce, as it is made.
pub proof fn lemma_some_order_as_made(
    mp_signer: Keypair,
    order_type: OrderType,
    collection: IncrementableU256,
    item: u128,
    price: u128,
    expires_at: u64,
    fee: u128,
    execution: Execution,
    call: Call,
)
    requires
        call_ensures(
            make_create_order,
            (&mp_signer, order_type, collection, item, price, expires_at, fee, execution),
            call,
        ),
    ensures
        call matches Call::Marketplace(MarketplaceCall::CreateOrder { order, execution: how }) && {
            &&& how == execution
            &&& order.order_type == order_type
            &&& order.collection == collection
            &&& order.item == item
            &&& order.price == price
            &&& order.expires_at == expires_at
            &&& order.fee == fee
            &&& order.escrow_agent is None
            &&& order.signature_data.nonce@.len() == 9
            &&& signature_belongs(order, mp_signer)
        },
{
    lemma_some_order_is_signed_as_it_stands(
        call,
        mp_signer,
        order_type,
        collection,
        item,
        price,
        expires_at,
        fee,
        execution,
    );
}

/// The legs come as funding, ask, bid and sweep, and end there.
pub proof fn lemma_leg_order(next: Option<TradeLeg>, leg: TradeLeg)
    requires
        call_ensures(TradeLeg::next, (leg,), next),
    ensures
        next == leg_after(leg),
        leg is FundBuyer ==> next == Some(TradeLeg::Ask),
        leg is Ask ==> next == Some(TradeLeg::Bid),
        leg is Bid ==> next == Some(TradeLeg::Sweep),
        leg is Sweep ==> next is None,
{
}

/// The money of a trade: the sender pays the buyer the price and one coin, and the
/// seller gives the sender everything but the deposit.
pub proof fn lemma_money_of_a_trade(
    tx: Transaction,
    leg: TradeLeg,
    sender: Keypair,
    master: AccountId20,
    collection: IncrementableU256,
    seller: Keypair,
    buyer: Keypair,
    fee_signer: Keypair,
    item: u128,
    price: u128,
    now: u64,
)
    requires
        price + COIN <= u128::MAX,
        is_trade_leg(
            tx,
            leg,
            sender,
            master,
            collection,
            seller,
            buyer,
            fee_signer,
            item,
            price,
            now,
        ),
    ensures
        leg is FundBuyer ==> tx.signer == sender && (tx.call matches Call::Balances(
            BalancesCall::TransferKeepAlive { dest, value },
        ) && dest == buyer.account() && value == price + 1_000_000_000_000_000_000),
        leg is Sweep ==> tx.signer == seller && (tx.call matches Call::Balances(
            BalancesCall::TransferAll { dest, keep_alive },
        ) && dest == sender.account() && keep_alive),
{
}

/// The orders of a trade: the sender submits, for the seller an ask that may wait and
/// for the buyer a bid that may not, both of the item at the price, for a fee of one
/// coin, valid for nine million and one milliseconds, and signed by the fee signer.
pub proof fn lemma_orders_of_a_trade(
    tx: Transaction,
    leg: TradeLeg,
    sender: Keypair,
    master: AccountId20,
    collection: IncrementableU256,
    seller: Keypair,
    buyer: Keypair,
    fee_signer: Keypair,
    item: u128,
    price: u128,
    now: u64,
)
    requires
        leg is Ask || leg is Bid,
        now + 9_000_001 <= u64::MAX,
        is_trade_leg(
            tx,
            leg,
            sender,
            master,
            collection,
            seller,
            buyer,
            fee_signer,
            item,
            price,
            now,
        ),
    ensures
        tx.signer == sender,
        tx.call matches Call::MythProxy(
            crate::calls::MythProxyCall::Proxy { address: first, call: outer },
        ) && first == master && (*outer matches Call::MythProxy(
            crate::calls::MythProxyCall::Proxy { address: second, call: inner },
        ) && second == (if leg is Ask {
            seller.account()
        } else {
            buyer.account()
        }) && (*inner matches Call::Marketplace(
            MarketplaceCall::CreateOrder { order, execution },
        ) && {
            &&& order.order_type is Ask == leg is Ask
            &&& execution is AllowCreation == leg is Ask
            &&& order.collection == collection
            &&& order.item == item
            &&& order.price == price
            &&& order.expires_at == now + 9_000_001
            &&& order.fee == 1_000_000_000_000_000_000
            &&& order.escrow_agent is None
            &&& signature_belongs(order, fee_signer)
        })),
{
    let order = crate::calls::unproxied(crate::calls::unproxied(tx.call));
    lemma_some_order_is_signed_as_it_stands(
        order,
        fee_signer,
        if leg is Ask {
            OrderType::Ask
        } else {
            OrderType::Bid
        },
        collection,
        item,
        price,
        (now + ORDER_LIFETIME) as u64,
        ORDER_FEE,
        if leg is Ask {
            Execution::AllowCreation
        } else {
            Execution::Force
        },
    );
}

/// A leg of a trade is what the two laws above speak of.
pub proof fn lemma_leg_as_made(
    leg: TradeLeg,
    sender: Keypair,
    master: AccountId20,
    collection: IncrementableU256,
    seller: Keypair,
    buyer: Keypair,
    fee_signer: Keypair,
    item: u128,
    price: u128,
    now: u64,
    tx: Transaction,
)
    requires
        price + COIN <= u128::MAX,
        now + ORDER_LIFETIME <= u64::MAX,
        call_ensures(
            trade,
            (
                leg,
                &sender,
                master,
                collection,
                &seller,
                &buyer,
                &fee_signer,
                item,
                price,
                now,
            ),
            tx,
        ),
    ensures
        is_trade_leg(
            tx,
            leg,
            sender,
            master,
            collection,
            seller,
            buyer,
            fee_signer,
            item,
            price,
            now,
        ),
{
}

/// Times that 64 bits can hold are kept, and the others are cut to 64 bits.
pub proof fn lemma_timestamp(millis: u128, later: u128, timestamp: u64, cut: u64)
    requires
        call_ensures(myth_timestamp, (millis,), timestamp),
        call_ensures(myth_timestamp, (later,), cut),
        millis <= u64::MAX,
    ensures
        timestamp == millis,
        (later - millis) % 0x1_0000_0000_0000_0000 == 0 ==> cut == timestamp,
{
}

} // verus!
