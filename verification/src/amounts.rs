//! Amounts of money, in the chain's smallest unit.
use vstd::prelude::*;

verus! {

/// One coin.
pub const COIN: u128 = 1_000_000_000_000_000_000;

/// A hundredth of a coin.
pub const CENT: u128 = 10_000_000_000_000_000;

/// What an account must hold to exist.
pub const EXISTENTIAL_DEPOSIT: u128 = 10_000_000_000_000_000;

/// Balance that the administrator of the collection starts with.
pub open spec fn admin_target() -> int {
    10 * COIN
}

/// Balance that the master account starts with, for a number of senders.
pub open spec fn master_target(senders: int) -> int {
    20 * CENT * senders + 10 * COIN
}

/// What a sender gets, for a number of coins.
pub open spec fn sender_grant(coins: int) -> int {
    coins * COIN
}

/// What a user gets, for a number of coins: the coins, the fees and the deposit.
pub open spec fn user_grant(coins: int) -> int {
    coins * COIN + 20 * CENT + EXISTENTIAL_DEPOSIT
}

/// Price of a trade, for a number of coins.
pub open spec fn trade_price(coins: int) -> int {
    coins * COIN
}

/// Balance below which a sender stops.
pub open spec fn sender_minimum() -> int {
    5 * COIN
}

/// Balance that the administrator of the collection starts with.
pub fn admin_target_balance() -> (amount: u128)
    ensures
        amount == admin_target(),
{
    10 * COIN
}

/// Balance that the master account starts with.
pub fn master_target_balance(senders_count: usize) -> (amount: u128)
    ensures
        amount == master_target(senders_count as int),
{
    proof {
        assert(0 <= 20 * CENT * (senders_count as u128) <= 20 * CENT * 0x1_0000_0000_0000_0000)
            by (nonlinear_arith)
            requires
                senders_count <= 0xffff_ffff_ffff_ffff,
        ;
    }
    20 * CENT * (senders_count as u128) + 10 * COIN
}

/// What each sender gets.
pub fn sender_grant_amount(sender_funds: u64) -> (amount: u128)
    ensures
        amount == sender_grant(sender_funds as int),
{
    (sender_funds as u128) * COIN
}

/// What each user gets.
pub fn user_grant_amount(user_funds: u64) -> (amount: u128)
    ensures
        amount == user_grant(user_funds as int),
{
    (user_funds as u128) * COIN + 20 * CENT + EXISTENTIAL_DEPOSIT
}

/// Price of a trade.
pub fn trade_price_amount(user_funds: u64) -> (amount: u128)
    ensures
        amount == trade_price(user_funds as int),
{
    (user_funds as u128) * COIN
}

/// Free balance of an account: that of its record, nothing where it has none.
pub fn get_free_balance(record: Option<u128>) -> (free: u128)
    ensures
        free == (match record {
            Some(amount) => amount,
            None => 0,
        }),
{
    match record {
        Some(amount) => amount,
        None => 0,
    }
}

/// A user's grant covers the price of a trade, with fees and deposit to spare.
pub proof fn lemma_user_grant_covers_price(coins: int)
    ensures
        user_grant(coins) == trade_price(coins) + 20 * CENT + EXISTENTIAL_DEPOSIT,
        user_grant(coins) > trade_price(coins),
{
}

/// A coin is a hundred cents of ten to the sixteenth each, and the deposit is one of
/// them.
pub proof fn lemma_units()
    ensures
        CENT == 10_000_000_000_000_000,
        COIN == 100 * CENT,
        EXISTENTIAL_DEPOSIT == CENT,
{
}

/// The targets, in figures: ten coins for the administrator, and ten coins and a
/// fifth of a coin for each sender for the master.
pub proof fn lemma_targets_in_figures(senders: usize, admin: u128, master: u128)
    requires
        call_ensures(admin_target_balance, (), admin),
        call_ensures(master_target_balance, (senders,), master),
    ensures
        admin == 10_000_000_000_000_000_000,
        admin == admin_target(),
        master - admin == senders * 200_000_000_000_000_000,
        master == master_target(senders as int),
{
    assert(20 * CENT * (senders as int) == senders * 200_000_000_000_000_000)
        by (nonlinear_arith);
}

/// The targets for any number of senders, in figures.
pub proof fn lemma_master_target_in_figures(senders: int)
    ensures
        admin_target() == 10_000_000_000_000_000_000,
        master_target(senders) - 10_000_000_000_000_000_000 == senders * 200_000_000_000_000_000,
{
    assert(20 * CENT * senders == senders * 200_000_000_000_000_000) by (nonlinear_arith);
}

/// The grants and the price, in figures: whole coins, and for a user twenty-one cents
/// besides.
pub proof fn lemma_grants_in_figures(coins: u64, sender: u128, user: u128, price: u128)
    requires
        call_ensures(sender_grant_amount, (coins,), sender),
        call_ensures(user_grant_amount, (coins,), user),
        call_ensures(trade_price_amount, (coins,), price),
    ensures
        sender == coins * 1_000_000_000_000_000_000,
        user == sender + 210_000_000_000_000_000,
        price == sender,
        sender == sender_grant(coins as int),
        user == user_grant(coins as int),
        price == trade_price(coins as int),
{
}

/// The grants, the price and the minimum for any number of coins, in figures.
pub proof fn lemma_amounts_in_figures(coins: int)
    ensures
        sender_grant(coins) == coins * 1_000_000_000_000_000_000,
        user_grant(coins) - coins * 1_000_000_000_000_000_000 == 210_000_000_000_000_000,
        trade_price(coins) == coins * 1_000_000_000_000_000_000,
        sender_minimum() == 5_000_000_000_000_000_000,
{
}

/// The free balance is what the record says; an account without one has nothing.
pub proof fn lemma_free_balance(amount: u128, free: u128, nothing: u128)
    requires
        call_ensures(get_free_balance, (Some(amount),), free),
        call_ensures(get_free_balance, (None::<u128>,), nothing),
    ensures
        free == amount,
        nothing == 0,
{
}

} // verus!
