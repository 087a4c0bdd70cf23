use myth_loader::amounts::COIN;
use myth_loader::calls::{
    burn, create_collection, delegate_to, fund, mint, transfer, BalancesCall, Call, Execution,
    MarketplaceCall, MintType, MythProxyCall, NftsCall, Order, OrderType, ProxyType, Transaction,
};
use myth_loader::keys::Keypair;
use myth_loader::scale::OrderMessage;
use myth_loader::substrate::{AccountId20, IncrementableU256, U256};
use myth_loader::trade::{
    make_create_order, make_create_order_with_nonce, myth_timestamp, trade, TradeLeg,
};

const COLLECTION: IncrementableU256 = IncrementableU256(U256([1, 2, 3, 0x0405]));

fn keypair(n: u8) -> Keypair {
    Keypair::from_secret_key([n; 32]).unwrap()
}

fn account(n: u8) -> AccountId20 {
    keypair(n).account_id()
}

fn message(escrow_agent: Option<AccountId20>, nonce: &str) -> OrderMessage {
    OrderMessage {
        collection: COLLECTION.0,
        item: 0x0102,
        price: 6,
        expires_at: 7,
        fee: 8,
        escrow_agent,
        nonce: nonce.to_string(),
    }
}

fn unproxied(call: Call) -> (AccountId20, Call) {
    match call {
        Call::MythProxy(MythProxyCall::Proxy { address, call }) => (address, *call),
        _ => panic!("not made for another"),
    }
}

fn order(call: Call) -> (Order, Execution) {
    match call {
        Call::Marketplace(MarketplaceCall::CreateOrder { order, execution }) => (order, execution),
        _ => panic!("not an order"),
    }
}

fn signed_bytes(order: &Order) -> Vec<u8> {
    OrderMessage {
        collection: order.collection.0,
        item: order.item,
        price: order.price,
        expires_at: order.expires_at,
        fee: order.fee,
        escrow_agent: order.escrow_agent,
        nonce: String::from_utf8(order.signature_data.nonce.clone()).unwrap(),
    }
    .encode()
}

#[test]
fn encoding_of_a_message() {
    let mut expected = vec![1, 0, 0, 0, 0, 0, 0, 0, 2, 0, 0, 0, 0, 0, 0, 0];
    expected.extend([3, 0, 0, 0, 0, 0, 0, 0, 5, 4, 0, 0, 0, 0, 0, 0]);
    expected.extend([2, 1, 0, 0, 0, 0, 0, 0, 0, 0, 0, 0, 0, 0, 0, 0]);
    expected.extend([6, 0, 0, 0, 0, 0, 0, 0, 0, 0, 0, 0, 0, 0, 0, 0]);
    expected.extend([7, 0, 0, 0, 0, 0, 0, 0]);
    expected.extend([8, 0, 0, 0, 0, 0, 0, 0, 0, 0, 0, 0, 0, 0, 0, 0]);
    expected.push(0);
    expected.extend([12, b'A', b'b', b'3']);
    assert_eq!(message(None, "Ab3").encode(), expected);
}

#[test]
fn encoding_of_an_agent() {
    let without = message(None, "Ab3").encode();
    let with = message(Some(AccountId20([9; 20])), "Ab3").encode();
    let mut expected = without[..88].to_vec();
    expected.push(1);
    expected.extend([9; 20]);
    expected.extend(&without[89..]);
    assert_eq!(with, expected);
}

#[test]
fn encoding_of_long_texts() {
    let nonce = "n".repeat(64);
    let bytes = message(None, &nonce).encode();
    assert_eq!(&bytes[89..91], &[1, 1]);
    assert_eq!(&bytes[91..], nonce.as_bytes());
    let nonce = "\u{e9}".repeat(8192);
    let bytes = message(None, &nonce).encode();
    assert_eq!(&bytes[89..93], &[2, 0, 1, 0]);
    assert_eq!(&bytes[93..], nonce.as_bytes());
}

#[test]
fn encodings_tell_messages_apart() {
    let bytes = message(None, "Ab3").encode();
    assert_ne!(message(None, "Ab4").encode(), bytes);
    assert_ne!(message(Some(AccountId20([0; 20])), "Ab3").encode(), bytes);
    let mut other = message(None, "Ab3");
    other.price = 7;
    assert_ne!(other.encode(), bytes);
    assert_eq!(message(None, "Ab3").encode(), bytes);
}

#[test]
fn order_under_a_given_nonce() {
    let call = make_create_order_with_nonce(
        &keypair(1),
        OrderType::Bid,
        COLLECTION,
        0x0102,
        6,
        7,
        8,
        Execution::Force,
        "Ab3".to_string(),
    );
    let (order, execution) = order(call);
    assert_eq!(execution, Execution::Force);
    assert_eq!(order.order_type, OrderType::Bid);
    assert_eq!(order.collection, COLLECTION);
    assert_eq!(order.item, 0x0102);
    assert_eq!(order.price, 6);
    assert_eq!(order.expires_at, 7);
    assert_eq!(order.fee, 8);
    assert_eq!(order.escrow_agent, None);
    assert_eq!(order.signature_data.nonce, b"Ab3".to_vec());
    let signature = keypair(1).sign(&message(None, "Ab3").encode());
    assert_eq!(order.signature_data.signature.0, signature);
}

#[test]
fn order_under_a_random_nonce() {
    let mut nonces = vec![];
    for _ in 0..2 {
        let call = make_create_order(
            &keypair(1),
            OrderType::Ask,
            COLLECTION,
            5,
            6,
            7,
            8,
            Execution::AllowCreation,
        );
        let (order, execution) = order(call);
        assert_eq!(execution, Execution::AllowCreation);
        assert_eq!(order.order_type, OrderType::Ask);
        assert_eq!(order.signature_data.nonce.len(), 9);
        assert!(order.signature_data.nonce.iter().all(|c| c.is_ascii_alphanumeric()));
        assert_eq!(
            order.signature_data.signature.0,
            keypair(1).sign(&signed_bytes(&order))
        );
        nonces.push(order.signature_data.nonce);
    }
    assert_ne!(nonces[0], nonces[1]);
}

#[test]
fn time_is_cut_to_64_bits() {
    assert_eq!(myth_timestamp(0), 0);
    assert_eq!(myth_timestamp(1_700_000_000_000), 1_700_000_000_000);
    assert_eq!(myth_timestamp(u64::MAX as u128), u64::MAX);
    assert_eq!(myth_timestamp(u64::MAX as u128 + 1), 0);
    assert_eq!(myth_timestamp(u64::MAX as u128 + 18), 17);
}

#[test]
fn funding() {
    let tx = fund(&keypair(1), account(2), 33);
    assert_eq!(tx.signer.secret_key(), [1; 32]);
    match tx.call {
        Call::Balances(BalancesCall::TransferKeepAlive { dest, value }) => {
            assert_eq!(dest, account(2));
            assert_eq!(value, 33);
        }
        _ => panic!("another call"),
    }
}

#[test]
fn delegation() {
    let tx = delegate_to(&keypair(1), account(2));
    assert_eq!(tx.signer.secret_key(), [1; 32]);
    match tx.call {
        Call::MythProxy(MythProxyCall::AddProxy { delegate, proxy_type, sponsor }) => {
            assert_eq!(delegate, account(2));
            assert!(matches!(proxy_type, ProxyType::Any));
            assert_eq!(sponsor, None);
        }
        _ => panic!("another call"),
    }
}

#[test]
fn collection() {
    let tx = create_collection(&keypair(1));
    assert_eq!(tx.signer.secret_key(), [1; 32]);
    match tx.call {
        Call::Nfts(NftsCall::Create { admin, config }) => {
            assert_eq!(admin, account(1));
            assert_eq!(config.settings, 0);
            assert_eq!(config.max_supply, Some(u128::MAX));
            assert!(matches!(config.mint_settings.mint_type, MintType::Issuer));
            assert_eq!(config.mint_settings.price, None);
            assert_eq!(config.mint_settings.start_block, None);
            assert_eq!(config.mint_settings.end_block, None);
            assert_eq!(config.mint_settings.default_item_settings, 0);
            assert!(config.mint_settings.serial_mint);
        }
        _ => panic!("another call"),
    }
}

#[test]
fn minting() {
    let tx = mint(&keypair(1), COLLECTION, account(2), account(3));
    assert_eq!(tx.signer.secret_key(), [1; 32]);
    let (address, call) = unproxied(tx.call);
    assert_eq!(address, account(2));
    match call {
        Call::Nfts(NftsCall::Mint { collection, maybe_item, mint_to, witness_data }) => {
            assert_eq!(collection, COLLECTION);
            assert_eq!(maybe_item, None);
            assert_eq!(mint_to, account(3));
            assert!(witness_data.is_none());
        }
        _ => panic!("another call"),
    }
}

#[test]
fn moving() {
    let tx = transfer(&keypair(1), account(2), COLLECTION, 77, account(3), account(4));
    assert_eq!(tx.signer.secret_key(), [1; 32]);
    let (address, call) = unproxied(tx.call);
    assert_eq!(address, account(2));
    let (address, call) = unproxied(call);
    assert_eq!(address, account(3));
    match call {
        Call::Nfts(NftsCall::Transfer { collection, item, dest }) => {
            assert_eq!(collection, COLLECTION);
            assert_eq!(item, 77);
            assert_eq!(dest, account(4));
        }
        _ => panic!("another call"),
    }
}

#[test]
fn burning() {
    let tx = burn(&keypair(1), account(2), COLLECTION, account(3), 77);
    assert_eq!(tx.signer.secret_key(), [1; 32]);
    let (address, call) = unproxied(tx.call);
    assert_eq!(address, account(2));
    let (address, call) = unproxied(call);
    assert_eq!(address, account(3));
    match call {
        Call::Nfts(NftsCall::Burn { collection, item }) => {
            assert_eq!(collection, COLLECTION);
            assert_eq!(item, 77);
        }
        _ => panic!("another call"),
    }
}

fn leg(leg: TradeLeg) -> Transaction {
    trade(
        leg,
        &keypair(1),
        account(2),
        COLLECTION,
        &keypair(3),
        &keypair(4),
        &keypair(5),
        77,
        6 * COIN,
        1_000,
    )
}

#[test]
fn legs_come_in_order() {
    assert_eq!(TradeLeg::FundBuyer.next(), Some(TradeLeg::Ask));
    assert_eq!(TradeLeg::Ask.next(), Some(TradeLeg::Bid));
    assert_eq!(TradeLeg::Bid.next(), Some(TradeLeg::Sweep));
    assert_eq!(TradeLeg::Sweep.next(), None);
}

#[test]
fn buyer_gets_price_and_fee() {
    let tx = leg(TradeLeg::FundBuyer);
    assert_eq!(tx.signer.secret_key(), [1; 32]);
    match tx.call {
        Call::Balances(BalancesCall::TransferKeepAlive { dest, value }) => {
            assert_eq!(dest, account(4));
            assert_eq!(value, 7 * COIN);
        }
        _ => panic!("another call"),
    }
}

#[test]
fn ask_and_bid_fit() {
    let ask = leg(TradeLeg::Ask);
    let bid = leg(TradeLeg::Bid);
    assert_eq!(ask.signer.secret_key(), [1; 32]);
    assert_eq!(bid.signer.secret_key(), [1; 32]);
    let (address, call) = unproxied(ask.call);
    assert_eq!(address, account(2));
    let (address, call) = unproxied(call);
    assert_eq!(address, account(3));
    let (ask, ask_execution) = order(call);
    let (address, call) = unproxied(bid.call);
    assert_eq!(address, account(2));
    let (address, call) = unproxied(call);
    assert_eq!(address, account(4));
    let (bid, bid_execution) = order(call);
    assert_eq!(ask.order_type, OrderType::Ask);
    assert_eq!(bid.order_type, OrderType::Bid);
    assert_eq!(ask_execution, Execution::AllowCreation);
    assert_eq!(bid_execution, Execution::Force);
    for order in [&ask, &bid] {
        assert_eq!(order.collection, COLLECTION);
        assert_eq!(order.item, 77);
        assert_eq!(order.price, 6 * COIN);
        assert_eq!(order.expires_at, 9_001_001);
        assert_eq!(order.fee, COIN);
        assert_eq!(order.escrow_agent, None);
        assert_eq!(
            order.signature_data.signature.0,
            keypair(5).sign(&signed_bytes(order))
        );
    }
}

#[test]
fn seller_gives_everything_back() {
    let tx = leg(TradeLeg::Sweep);
    assert_eq!(tx.signer.secret_key(), [3; 32]);
    match tx.call {
        Call::Balances(BalancesCall::TransferAll { dest, keep_alive }) => {
            assert_eq!(dest, account(1));
            assert!(keep_alive);
        }
        _ => panic!("another call"),
    }
}
