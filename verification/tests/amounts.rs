use myth_loader::amounts::{
    admin_target_balance, get_free_balance, master_target_balance, sender_grant_amount,
    trade_price_amount, user_grant_amount, CENT, COIN, EXISTENTIAL_DEPOSIT,
};
use myth_loader::batch::{count_chunks, delegate_to_chunk, fund_chunk};
use myth_loader::calls::{BalancesCall, Call, MythProxyCall, ProxyType, Transaction, UtilityCall};
use myth_loader::keys::Keypair;
use myth_loader::substrate::AccountId20;

fn keypair(n: u8) -> Keypair {
    Keypair::from_secret_key([n; 32]).unwrap()
}

fn keypairs(count: u8) -> Vec<Keypair> {
    (1..=count).map(keypair).collect()
}

fn batch(tx: Transaction) -> Vec<Call> {
    match tx.call {
        Call::Utility(UtilityCall::BatchAll { calls }) => calls,
        _ => panic!("not a batch"),
    }
}

fn transfers(tx: Transaction) -> Vec<(AccountId20, u128)> {
    batch(tx)
        .into_iter()
        .map(|call| match call {
            Call::Balances(BalancesCall::TransferKeepAlive { dest, value }) => (dest, value),
            _ => panic!("not a transfer"),
        })
        .collect()
}

#[test]
fn units() {
    assert_eq!(COIN, 1_000_000_000_000_000_000);
    assert_eq!(COIN, 100 * CENT);
    assert_eq!(EXISTENTIAL_DEPOSIT, CENT);
}

#[test]
fn targets() {
    assert_eq!(admin_target_balance(), 10_000_000_000_000_000_000);
    assert_eq!(master_target_balance(0), 10_000_000_000_000_000_000);
    assert_eq!(master_target_balance(1), 10_200_000_000_000_000_000);
    assert_eq!(master_target_balance(50), 20 * COIN);
    assert_eq!(
        master_target_balance(usize::MAX),
        20 * CENT * (usize::MAX as u128) + 10 * COIN
    );
}

#[test]
fn grants() {
    assert_eq!(sender_grant_amount(0), 0);
    assert_eq!(sender_grant_amount(7), 7_000_000_000_000_000_000);
    assert_eq!(user_grant_amount(0), 210_000_000_000_000_000);
    assert_eq!(user_grant_amount(3), 3_210_000_000_000_000_000);
    assert_eq!(trade_price_amount(3), 3_000_000_000_000_000_000);
    assert_eq!(sender_grant_amount(u64::MAX), u64::MAX as u128 * COIN);
}

#[test]
fn user_grant_covers_price() {
    for funds in [0, 1, 1000, u64::MAX] {
        assert_eq!(
            user_grant_amount(funds) - trade_price_amount(funds),
            20 * CENT + EXISTENTIAL_DEPOSIT
        );
    }
}

#[test]
fn missing_account_has_nothing() {
    assert_eq!(get_free_balance(None), 0);
    assert_eq!(get_free_balance(Some(0)), 0);
    assert_eq!(get_free_balance(Some(17)), 17);
    assert_eq!(get_free_balance(Some(u128::MAX)), u128::MAX);
}

#[test]
fn numbers_of_chunks() {
    assert_eq!(count_chunks(0, 5), 0);
    assert_eq!(count_chunks(1, 5), 1);
    assert_eq!(count_chunks(5, 5), 1);
    assert_eq!(count_chunks(6, 5), 2);
    assert_eq!(count_chunks(10, 1), 10);
    assert_eq!(count_chunks(usize::MAX, 1), usize::MAX);
    assert_eq!(count_chunks(usize::MAX, usize::MAX), 1);
}

#[test]
fn chunks_are_the_list() {
    let accounts = keypairs(7);
    let all: Vec<AccountId20> = accounts.iter().map(|account| account.account_id()).collect();
    for size in 1..=8 {
        let mut funded = vec![];
        for i in 0..count_chunks(accounts.len(), size) {
            let tx = fund_chunk(&keypair(99), &accounts, size, i, 11);
            let part = transfers(tx);
            assert!(!part.is_empty() && part.len() <= size);
            funded.extend(part);
        }
        let expected: Vec<(AccountId20, u128)> = all.iter().map(|account| (*account, 11)).collect();
        assert_eq!(funded, expected);
    }
}

#[test]
fn chunk_of_delegations() {
    let accounts = keypairs(5);
    let tx = delegate_to_chunk(&keypair(99), &accounts, 2, 2);
    assert_eq!(tx.signer.secret_key(), [99; 32]);
    let calls = batch(tx);
    assert_eq!(calls.len(), 1);
    match &calls[0] {
        Call::MythProxy(MythProxyCall::AddProxy { delegate, proxy_type, sponsor }) => {
            assert_eq!(*delegate, accounts[4].account_id());
            assert!(matches!(proxy_type, ProxyType::Any));
            assert_eq!(*sponsor, None);
        }
        _ => panic!("not a delegation"),
    }
}

#[test]
fn chunk_of_transfers() {
    let accounts = keypairs(5);
    let tx = fund_chunk(&keypair(99), &accounts, 3, 0, 25);
    assert_eq!(tx.signer.secret_key(), [99; 32]);
    assert_eq!(
        transfers(tx),
        vec![
            (accounts[0].account_id(), 25),
            (accounts[1].account_id(), 25),
            (accounts[2].account_id(), 25),
        ]
    );
}
