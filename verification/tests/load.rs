use myth_loader::amounts::COIN;
use myth_loader::calls::{BalancesCall, Call, MarketplaceCall, MythProxyCall, NftsCall, Transaction};
use myth_loader::config::Config;
use myth_loader::keys::Keypair;
use myth_loader::load::{LoadContext, LoadRun, SenderAction, SenderEvent, SenderState};
use myth_loader::substrate::{AccountId20, IncrementableU256, U256};
use myth_loader::trade::TradeLeg;

const COLLECTION: IncrementableU256 = IncrementableU256(U256([8, 0, 0, 0]));

const NOW: u64 = 1_700_000_000_000;

fn keypair(n: u8) -> Keypair {
    Keypair::from_secret_key([n; 32]).unwrap()
}

fn account(n: u8) -> AccountId20 {
    keypair(n).account_id()
}

fn start(senders: u8, users: u8) -> LoadRun {
    let context = LoadContext {
        pot: keypair(1),
        master: keypair(2),
        fee_signer: keypair(4),
        collection_admin: keypair(3),
        collection_id: COLLECTION,
        senders: (0..senders).map(|i| keypair(10 + i)).collect(),
        users: (0..users).map(|i| keypair(50 + i)).collect(),
    };
    let config = Config {
        node_url: String::new(),
        pot_pk: String::new(),
        master_pk: String::new(),
        collection_admin_pk: String::new(),
        fee_signer_pk: String::new(),
        batch_size: 1,
        senders_count: 0,
        sender_funds: 0,
        users_count: 0,
        user_funds: 6,
    };
    context.run(&config)
}

fn take(run: &mut LoadRun, i: usize, event: SenderEvent) -> SenderAction {
    assert!(run.accepts(i, event, NOW));
    run.step(i, event, NOW)
}

fn submit(action: SenderAction) -> Transaction {
    match action {
        SenderAction::Submit(tx) => tx,
        _ => panic!("not a transaction"),
    }
}

fn unproxied(call: Call) -> (AccountId20, Call) {
    match call {
        Call::MythProxy(MythProxyCall::Proxy { address, call }) => (address, *call),
        _ => panic!("not made for another"),
    }
}

fn free(run: &LoadRun) -> Vec<u8> {
    run.users.iter().map(|user| user.secret_key()[0]).collect()
}

fn mint(run: &mut LoadRun, i: usize) {
    take(run, i, SenderEvent::Begin);
    take(run, i, SenderEvent::Balance(u128::MAX));
}

#[test]
fn whole_round() {
    let mut run = start(1, 3);
    assert_eq!(free(&run), vec![50, 51, 52]);

    match take(&mut run, 0, SenderEvent::Begin) {
        SenderAction::QueryBalance(of) => assert_eq!(of, account(10)),
        _ => panic!("no query"),
    }

    match take(&mut run, 0, SenderEvent::Balance(5 * COIN)) {
        SenderAction::Mint(tx) => {
            assert_eq!(tx.signer.secret_key(), [10; 32]);
            let (address, call) = unproxied(tx.call);
            assert_eq!(address, account(3));
            match call {
                Call::Nfts(NftsCall::Mint { collection, mint_to, .. }) => {
                    assert_eq!(collection, COLLECTION);
                    assert_eq!(mint_to, account(52));
                }
                _ => panic!("another call"),
            }
        }
        _ => panic!("no mint"),
    }
    assert_eq!(free(&run), vec![50]);

    let tx = submit(take(&mut run, 0, SenderEvent::Minted(77)));
    assert_eq!(tx.signer.secret_key(), [10; 32]);
    let (address, call) = unproxied(tx.call);
    assert_eq!(address, account(2));
    let (address, call) = unproxied(call);
    assert_eq!(address, account(52));
    match call {
        Call::Nfts(NftsCall::Transfer { collection, item, dest }) => {
            assert_eq!(collection, COLLECTION);
            assert_eq!(item, 77);
            assert_eq!(dest, account(51));
        }
        _ => panic!("another call"),
    }

    let tx = submit(take(&mut run, 0, SenderEvent::Finalized));
    assert_eq!(tx.signer.secret_key(), [10; 32]);
    match tx.call {
        Call::Balances(BalancesCall::TransferKeepAlive { dest, value }) => {
            assert_eq!(dest, account(52));
            assert_eq!(value, 7 * COIN);
        }
        _ => panic!("another call"),
    }

    for party in [51, 52] {
        let tx = submit(take(&mut run, 0, SenderEvent::Finalized));
        assert_eq!(tx.signer.secret_key(), [10; 32]);
        let (address, call) = unproxied(tx.call);
        assert_eq!(address, account(2));
        let (address, call) = unproxied(call);
        assert_eq!(address, account(party));
        match call {
            Call::Marketplace(MarketplaceCall::CreateOrder { order, .. }) => {
                assert_eq!(order.item, 77);
                assert_eq!(order.price, 6 * COIN);
                assert_eq!(order.expires_at, NOW + 9_000_001);
                assert_eq!(order.fee, COIN);
            }
            _ => panic!("another call"),
        }
    }

    let tx = submit(take(&mut run, 0, SenderEvent::Finalized));
    assert_eq!(tx.signer.secret_key(), [51; 32]);
    match tx.call {
        Call::Balances(BalancesCall::TransferAll { dest, keep_alive }) => {
            assert_eq!(dest, account(10));
            assert!(keep_alive);
        }
        _ => panic!("another call"),
    }

    let tx = submit(take(&mut run, 0, SenderEvent::Finalized));
    assert_eq!(tx.signer.secret_key(), [10; 32]);
    let (address, call) = unproxied(tx.call);
    assert_eq!(address, account(2));
    let (address, call) = unproxied(call);
    assert_eq!(address, account(52));
    match call {
        Call::Nfts(NftsCall::Burn { collection, item }) => {
            assert_eq!(collection, COLLECTION);
            assert_eq!(item, 77);
        }
        _ => panic!("another call"),
    }
    assert_eq!(free(&run), vec![50]);

    match take(&mut run, 0, SenderEvent::Finalized) {
        SenderAction::QueryBalance(of) => assert_eq!(of, account(10)),
        _ => panic!("no query"),
    }
    assert_eq!(free(&run), vec![50, 52, 51]);
}

#[test]
fn poor_sender_stops() {
    let mut run = start(1, 2);
    take(&mut run, 0, SenderEvent::Begin);
    let action = take(&mut run, 0, SenderEvent::Balance(5 * COIN - 1));
    assert!(matches!(action, SenderAction::Stop));
    assert!(matches!(run.states[0], SenderState::Stopped));
    assert_eq!(free(&run), vec![50, 51]);
    assert!(!run.accepts(0, SenderEvent::Balance(u128::MAX), NOW));
    assert!(!run.accepts(0, SenderEvent::Awake, NOW));
}

fn fails_after(successes: &[SenderEvent]) {
    let mut run = start(1, 3);
    mint(&mut run, 0);
    for event in successes {
        take(&mut run, 0, *event);
    }
    assert_eq!(free(&run), vec![50]);
    match take(&mut run, 0, SenderEvent::Failed) {
        SenderAction::Sleep(seconds) => assert_eq!(seconds, 50),
        _ => panic!("no pause"),
    }
    assert_eq!(free(&run), vec![50, 52, 51]);
    match take(&mut run, 0, SenderEvent::Awake) {
        SenderAction::QueryBalance(of) => assert_eq!(of, account(10)),
        _ => panic!("no query"),
    }
}

#[test]
fn failure_gives_the_pair_back() {
    let done = SenderEvent::Finalized;
    let minted = SenderEvent::Minted(77);
    fails_after(&[]);
    fails_after(&[minted]);
    fails_after(&[minted, done]);
    fails_after(&[minted, done, done]);
    fails_after(&[minted, done, done, done]);
    fails_after(&[minted, done, done, done, done]);
    fails_after(&[minted, done, done, done, done, done]);
}

#[test]
fn users_never_run_out() {
    let mut run = start(3, 6);
    for i in 0..3 {
        mint(&mut run, i);
    }
    assert!(free(&run).is_empty());
    take(&mut run, 1, SenderEvent::Failed);
    assert_eq!(free(&run).len(), 2);
    take(&mut run, 1, SenderEvent::Awake);
    take(&mut run, 1, SenderEvent::Balance(u128::MAX));
    assert!(free(&run).is_empty());
}

#[test]
fn too_few_users_are_noticed() {
    let mut run = start(2, 3);
    mint(&mut run, 0);
    take(&mut run, 1, SenderEvent::Begin);
    assert!(!run.accepts(1, SenderEvent::Balance(5 * COIN), NOW));
    assert!(run.accepts(1, SenderEvent::Balance(0), NOW));
}

#[test]
fn no_user_is_in_two_places() {
    let mut run = start(2, 4);
    mint(&mut run, 0);
    mint(&mut run, 1);
    let mut working = vec![];
    for state in &run.states {
        match state {
            SenderState::Minting { alice, bob } => {
                working.push(alice.secret_key()[0]);
                working.push(bob.secret_key()[0]);
            }
            _ => panic!("another state"),
        }
    }
    assert_eq!(working, vec![53, 52, 51, 50]);
}

#[test]
fn pair_and_item_are_kept() {
    let mut run = start(1, 2);
    mint(&mut run, 0);
    take(&mut run, 0, SenderEvent::Minted(9));
    take(&mut run, 0, SenderEvent::Finalized);
    for expected in [TradeLeg::FundBuyer, TradeLeg::Ask, TradeLeg::Bid, TradeLeg::Sweep] {
        match run.states[0] {
            SenderState::Trading { alice, bob, item, leg } => {
                assert_eq!(alice.secret_key(), [51; 32]);
                assert_eq!(bob.secret_key(), [50; 32]);
                assert_eq!(item, 9);
                assert_eq!(leg, expected);
            }
            _ => panic!("another state"),
        }
        take(&mut run, 0, SenderEvent::Finalized);
    }
    assert!(matches!(run.states[0], SenderState::Burning { item: 9, .. }));
}

#[test]
fn senders_do_not_disturb_each_other() {
    let mut run = start(2, 4);
    mint(&mut run, 0);
    mint(&mut run, 1);
    take(&mut run, 0, SenderEvent::Minted(1));
    take(&mut run, 1, SenderEvent::Failed);
    assert!(matches!(run.states[0], SenderState::Transferring { item: 1, .. }));
    assert!(matches!(run.states[1], SenderState::Pausing));
}

#[test]
fn expiry_has_to_fit() {
    let mut run = start(1, 2);
    mint(&mut run, 0);
    take(&mut run, 0, SenderEvent::Minted(9));
    take(&mut run, 0, SenderEvent::Finalized);
    let last = u64::MAX - 9_000_001;
    assert!(run.accepts(0, SenderEvent::Finalized, last));
    assert!(!run.accepts(0, SenderEvent::Finalized, last + 1));
    assert!(run.accepts(0, SenderEvent::Failed, last + 1));
}

#[test]
fn unexpected_events_are_refused() {
    let mut run = start(1, 2);
    assert!(!run.accepts(0, SenderEvent::Finalized, NOW));
    assert!(!run.accepts(0, SenderEvent::Failed, NOW));
    assert!(!run.accepts(1, SenderEvent::Begin, NOW));
    take(&mut run, 0, SenderEvent::Begin);
    assert!(!run.accepts(0, SenderEvent::Begin, NOW));
    assert!(!run.accepts(0, SenderEvent::Failed, NOW));
    assert!(!run.accepts(0, SenderEvent::Minted(1), NOW));
}

#[test]
fn only_orders_need_the_time() {
    let mut run = start(1, 2);
    let events = [
        (SenderEvent::Begin, false),
        (SenderEvent::Balance(5 * COIN), false),
        (SenderEvent::Minted(1), false),
        (SenderEvent::Finalized, false),
        (SenderEvent::Finalized, true),
        (SenderEvent::Finalized, true),
        (SenderEvent::Finalized, false),
        (SenderEvent::Finalized, false),
        (SenderEvent::Finalized, false),
    ];
    for (event, needed) in events {
        assert_eq!(run.needs_time(0, event), needed);
        assert!(!run.needs_time(0, SenderEvent::Failed));
        assert!(!run.needs_time(1, event));
        take(&mut run, 0, event);
    }
    assert!(matches!(run.states[0], SenderState::Checking));
}
