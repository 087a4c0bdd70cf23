use myth_loader::amounts::COIN;
use myth_loader::calls::{BalancesCall, Call, MythProxyCall, NftsCall, Transaction, UtilityCall};
use myth_loader::config::Config;
use myth_loader::keys::{KeyError, Keypair};
use myth_loader::load::{LoadContext, SenderAction, SenderEvent};
use myth_loader::setup::{Setup, SetupAction, SetupEvent, SetupStage};
use myth_loader::substrate::{AccountId20, IncrementableU256, U256};

const COLLECTION: IncrementableU256 = IncrementableU256(U256([8, 0, 0, 0]));

fn key(n: u8) -> String {
    hex::encode([n; 32])
}

fn keypair(n: u8) -> Keypair {
    Keypair::from_secret_key([n; 32]).unwrap()
}

fn config() -> Config {
    Config {
        node_url: "ws://localhost:9944".to_string(),
        pot_pk: key(1),
        master_pk: key(2),
        collection_admin_pk: key(3),
        fee_signer_pk: key(4),
        batch_size: 2,
        senders_count: 3,
        sender_funds: 50,
        users_count: 5,
        user_funds: 7,
    }
}

fn begin(config: &Config) -> Setup {
    match LoadContext::setup(config) {
        Ok(setup) => setup,
        Err(_) => panic!("no set-up"),
    }
}

fn small(batch_size: usize, senders: u8, users: u8) -> Setup {
    Setup::new(
        keypair(1),
        keypair(2),
        keypair(4),
        keypair(3),
        (0..senders).map(|i| keypair(10 + i)).collect(),
        (0..users).map(|i| keypair(50 + i)).collect(),
        batch_size,
        50,
        7,
    )
}

fn take(setup: &mut Setup, event: SetupEvent) -> SetupAction {
    assert!(setup.accepts(&event));
    setup.next(event)
}

fn query(action: SetupAction) -> AccountId20 {
    match action {
        SetupAction::QueryBalance(account) => account,
        _ => panic!("not a query"),
    }
}

fn submit(action: SetupAction) -> Transaction {
    match action {
        SetupAction::Submit(tx) => tx,
        _ => panic!("not a transaction"),
    }
}

fn submit_all(action: SetupAction) -> (Vec<Transaction>, bool) {
    match action {
        SetupAction::SubmitAll { transactions, ordered } => (transactions, ordered),
        _ => panic!("not transactions"),
    }
}

fn transfer(call: &Call) -> (AccountId20, u128) {
    match call {
        Call::Balances(BalancesCall::TransferKeepAlive { dest, value }) => (*dest, *value),
        _ => panic!("not a transfer"),
    }
}

fn delegate(call: &Call) -> AccountId20 {
    match call {
        Call::MythProxy(MythProxyCall::AddProxy { delegate, .. }) => *delegate,
        _ => panic!("not a delegation"),
    }
}

fn batch(call: &Call) -> &Vec<Call> {
    match call {
        Call::Utility(UtilityCall::BatchAll { calls }) => calls,
        _ => panic!("not a batch"),
    }
}

fn accounts(keypairs: &[Keypair]) -> Vec<AccountId20> {
    keypairs.iter().map(|keypair| keypair.account_id()).collect()
}

#[test]
fn whole_set_up() {
    let mut setup = begin(&config());
    assert_eq!(setup.collection_id, None);
    let senders = accounts(&setup.senders);
    let users = accounts(&setup.users);
    assert_eq!(senders.len(), 3);
    assert_eq!(users.len(), 5);

    assert_eq!(query(take(&mut setup, SetupEvent::Begin)), keypair(3).account_id());

    let tx = submit(take(&mut setup, SetupEvent::Balance(10 * COIN - 1)));
    assert_eq!(tx.signer.secret_key(), [1; 32]);
    assert_eq!(transfer(&tx.call), (keypair(3).account_id(), 10 * COIN));

    assert_eq!(query(take(&mut setup, SetupEvent::Finalized)), keypair(2).account_id());

    let tx = submit(take(&mut setup, SetupEvent::Balance(0)));
    assert_eq!(tx.signer.secret_key(), [1; 32]);
    assert_eq!(
        transfer(&tx.call),
        (keypair(2).account_id(), 10_600_000_000_000_000_000)
    );

    let (transactions, ordered) = submit_all(take(&mut setup, SetupEvent::Finalized));
    assert!(ordered);
    assert_eq!(transactions.len(), 6);
    for (j, delegator) in [2, 1, 3].into_iter().enumerate() {
        let mut delegates = vec![];
        for tx in &transactions[2 * j..2 * j + 2] {
            assert_eq!(tx.signer.secret_key(), [delegator; 32]);
            delegates.extend(batch(&tx.call).iter().map(delegate));
        }
        assert_eq!(delegates, senders);
        assert_eq!(batch(&transactions[2 * j].call).len(), 2);
    }

    match take(&mut setup, SetupEvent::Finalized) {
        SetupAction::CreateCollection(tx) => {
            assert_eq!(tx.signer.secret_key(), [3; 32]);
            assert!(matches!(tx.call, Call::Nfts(NftsCall::Create { .. })));
        }
        _ => panic!("no collection"),
    }

    let mut funded = vec![];
    let mut action = take(&mut setup, SetupEvent::Created(COLLECTION));
    for count in [2, 1] {
        let tx = submit(action);
        assert_eq!(tx.signer.secret_key(), [1; 32]);
        assert_eq!(batch(&tx.call).len(), count);
        funded.extend(batch(&tx.call).iter().map(transfer));
        action = take(&mut setup, SetupEvent::Finalized);
    }
    let expected: Vec<(AccountId20, u128)> =
        senders.iter().map(|account| (*account, 50 * COIN)).collect();
    assert_eq!(funded, expected);

    let mut funded = vec![];
    for count in [2, 2, 1] {
        let tx = submit(action);
        assert_eq!(tx.signer.secret_key(), [1; 32]);
        assert_eq!(batch(&tx.call).len(), count);
        funded.extend(batch(&tx.call).iter().map(transfer));
        action = take(&mut setup, SetupEvent::Finalized);
    }
    let expected: Vec<(AccountId20, u128)> =
        users.iter().map(|account| (*account, 7_210_000_000_000_000_000)).collect();
    assert_eq!(funded, expected);

    let (transactions, ordered) = submit_all(action);
    assert!(!ordered);
    assert_eq!(transactions.len(), 5);
    for (tx, user) in transactions.iter().zip(&setup.users) {
        assert_eq!(tx.signer.secret_key(), user.secret_key());
        assert_eq!(delegate(&tx.call), keypair(2).account_id());
    }

    assert!(matches!(take(&mut setup, SetupEvent::Finalized), SetupAction::Finish));
    assert!(!setup.accepts(&SetupEvent::Finalized));
    let context = setup.finish().unwrap();
    assert_eq!(context.pot.secret_key(), [1; 32]);
    assert_eq!(context.master.secret_key(), [2; 32]);
    assert_eq!(context.collection_admin.secret_key(), [3; 32]);
    assert_eq!(context.fee_signer.secret_key(), [4; 32]);
    assert_eq!(context.collection_id, COLLECTION);
    assert_eq!(accounts(&context.senders), senders);
    assert_eq!(accounts(&context.users), users);
}

#[test]
fn rich_accounts_get_nothing() {
    let mut setup = small(10, 2, 4);
    take(&mut setup, SetupEvent::Begin);
    assert_eq!(
        query(take(&mut setup, SetupEvent::Balance(10 * COIN))),
        keypair(2).account_id()
    );
    let (transactions, _) =
        submit_all(take(&mut setup, SetupEvent::Balance(10_400_000_000_000_000_000)));
    assert_eq!(transactions.len(), 3);
    assert_eq!(setup.stage, SetupStage::SenderProxies);
}

#[test]
fn nobody_to_prepare() {
    let mut setup = small(10, 0, 0);
    take(&mut setup, SetupEvent::Begin);
    take(&mut setup, SetupEvent::Balance(u128::MAX));
    let (transactions, _) = submit_all(take(&mut setup, SetupEvent::Balance(u128::MAX)));
    assert!(transactions.is_empty());
    take(&mut setup, SetupEvent::Finalized);
    let (transactions, _) = submit_all(take(&mut setup, SetupEvent::Created(COLLECTION)));
    assert!(transactions.is_empty());
    assert!(matches!(take(&mut setup, SetupEvent::Finalized), SetupAction::Finish));
}

#[test]
fn empty_batches_are_refused() {
    let mut setup = small(0, 1, 2);
    take(&mut setup, SetupEvent::Begin);
    take(&mut setup, SetupEvent::Balance(u128::MAX));
    assert!(!setup.accepts(&SetupEvent::Balance(u128::MAX)));
    assert!(setup.accepts(&SetupEvent::Balance(0)));
    setup.next(SetupEvent::Balance(0));
    assert!(!setup.accepts(&SetupEvent::Finalized));
    assert!(setup.accepts(&SetupEvent::Failed));
}

#[test]
fn failure_ends_the_set_up() {
    let mut setup = small(10, 1, 2);
    assert!(!setup.accepts(&SetupEvent::Failed));
    take(&mut setup, SetupEvent::Begin);
    take(&mut setup, SetupEvent::Balance(0));
    assert!(matches!(take(&mut setup, SetupEvent::Failed), SetupAction::Abort));
    assert_eq!(setup.stage, SetupStage::Failed);
    assert!(!setup.accepts(&SetupEvent::Finalized));
    assert!(!setup.accepts(&SetupEvent::Failed));
    assert!(setup.finish().is_none());
}

#[test]
fn events_out_of_turn_are_refused() {
    let mut setup = small(10, 1, 2);
    assert!(!setup.accepts(&SetupEvent::Finalized));
    take(&mut setup, SetupEvent::Begin);
    assert!(!setup.accepts(&SetupEvent::Begin));
    assert!(!setup.accepts(&SetupEvent::Finalized));
    assert!(!setup.accepts(&SetupEvent::Created(COLLECTION)));
    assert!(setup.finish().is_none());
}

#[test]
fn first_bad_key_is_reported() {
    let mut bad = config();
    bad.collection_admin_pk = String::new();
    assert!(matches!(LoadContext::setup(&bad), Err(KeyError::Empty { .. })));
    bad.fee_signer_pk = "0".to_string();
    assert!(matches!(LoadContext::setup(&bad), Err(KeyError::Hex(_))));
    bad.master_pk = "00".to_string();
    assert!(matches!(LoadContext::setup(&bad), Err(KeyError::Length { .. })));
    bad.pot_pk = "00".repeat(32);
    assert!(matches!(LoadContext::setup(&bad), Err(KeyError::InvalidSecret)));
}

#[test]
fn set_up_comes_to_an_end() {
    let mut setup = small(1, 3, 4);
    let mut events = 0;
    let mut action = take(&mut setup, SetupEvent::Begin);
    loop {
        events += 1;
        let event = match action {
            SetupAction::QueryBalance(_) => SetupEvent::Balance(0),
            SetupAction::Submit(_) | SetupAction::SubmitAll { .. } => SetupEvent::Finalized,
            SetupAction::CreateCollection(_) => SetupEvent::Created(COLLECTION),
            SetupAction::Finish => break,
            SetupAction::Abort => panic!("failed"),
        };
        action = take(&mut setup, event);
    }
    assert_eq!(events, 15);
}

#[test]
fn configured_load_goes_on() {
    let mut config = config();
    config.senders_count = 3;
    config.users_count = 6;
    let mut setup = begin(&config);
    let mut action = take(&mut setup, SetupEvent::Begin);
    loop {
        let event = match action {
            SetupAction::QueryBalance(_) => SetupEvent::Balance(u128::MAX),
            SetupAction::Submit(_) | SetupAction::SubmitAll { .. } => SetupEvent::Finalized,
            SetupAction::CreateCollection(_) => SetupEvent::Created(COLLECTION),
            SetupAction::Finish => break,
            SetupAction::Abort => panic!("failed"),
        };
        action = take(&mut setup, event);
    }
    let mut run = setup.finish().unwrap().run(&config);
    assert_eq!(run.price, 7 * COIN);
    for i in [2, 0, 1] {
        assert!(run.accepts(i, SenderEvent::Begin, 0));
        run.step(i, SenderEvent::Begin, 0);
        let balance = SenderEvent::Balance(5 * COIN);
        assert!(run.accepts(i, balance, 0));
        assert!(matches!(run.step(i, balance, 0), SenderAction::Mint(_)));
    }
    assert!(run.users.is_empty());
}

#[test]
fn fresh_accounts_differ() {
    let setup = begin(&config());
    let mut secrets: Vec<[u8; 32]> =
        setup.senders.iter().chain(&setup.users).map(|keypair| keypair.secret_key()).collect();
    secrets.sort();
    secrets.dedup();
    assert_eq!(secrets.len(), 8);
}

fn from_draws(draws: &[[u8; 64]], senders: usize) -> Setup {
    let result = Setup::from_seeds(
        keypair(1),
        keypair(2),
        keypair(4),
        keypair(3),
        &draws[..senders].to_vec(),
        &draws[senders..].to_vec(),
        2,
        50,
        7,
    );
    match result {
        Ok(setup) => setup,
        Err(_) => panic!("no set-up"),
    }
}

#[test]
fn draws_become_accounts_in_order() {
    let mut rng: rand::rngs::StdRng = rand::SeedableRng::seed_from_u64(17);
    let draws: Vec<[u8; 64]> = (0..5).map(|_| rand::Rng::random(&mut rng)).collect();
    let setup = from_draws(&draws, 2);
    assert_eq!(setup.senders.len(), 2);
    assert_eq!(setup.users.len(), 3);
    for (account, draw) in setup.senders.iter().chain(&setup.users).zip(&draws) {
        assert_eq!(account.secret_key(), Keypair::from_seed(draw).unwrap().secret_key());
    }
    assert_eq!(setup.pot.secret_key(), [1; 32]);
    assert_eq!(setup.master.secret_key(), [2; 32]);
    assert_eq!(setup.collection_admin.secret_key(), [3; 32]);
    assert_eq!(setup.fee_signer.secret_key(), [4; 32]);
    assert_eq!(setup.stage, SetupStage::Start);
}

#[test]
fn same_draws_give_the_same_accounts() {
    let draws = [[1; 64], [2; 64], [3; 64]];
    let first = from_draws(&draws, 1);
    let second = from_draws(&draws, 1);
    assert_eq!(accounts(&first.senders), accounts(&second.senders));
    assert_eq!(accounts(&first.users), accounts(&second.users));
    assert_ne!(accounts(&first.senders)[0], accounts(&first.users)[0]);
}
