//! Batches of calls over the accounts of a list.
use vstd::prelude::*;

use crate::calls::BalancesCall;
use crate::calls::Call;
use crate::calls::MythProxyCall;
use crate::calls::ProxyType;
use crate::calls::Transaction;
use crate::calls::UtilityCall;
use crate::keys::Keypair;

verus! {

/// Number of chunks of at most `size` that `len` things make.
pub open spec fn chunk_count(len: int, size: int) -> int {
    (len + size - 1) / size
}

/// Where a chunk starts.
pub open spec fn chunk_start(size: int, i: int) -> int {
    i * size
}

/// Where a chunk ends.
pub open spec fn chunk_end(len: int, size: int, i: int) -> int {
    if (i + 1) * size <= len {
        (i + 1) * size
    } else {
        len
    }
}

/// Chunk number `i` of a list.
pub open spec fn chunk<T>(list: Seq<T>, size: int, i: int) -> Seq<T> {
    list.subrange(chunk_start(size, i), chunk_end(list.len() as int, size, i))
}

/// The first `count` chunks of a list, one after the other.
pub open spec fn joined_chunks<T>(list: Seq<T>, size: int, count: int) -> Seq<T>
    decreases count,
{
    if count <= 0 {
        Seq::empty()
    } else {
        joined_chunks(list, size, count - 1) + chunk(list, size, count - 1)
    }
}

/// Chunks lie within the list, hold something and hold no more than `size`; all
/// but the last hold exactly that many.
pub proof fn lemma_chunk_bounds(len: int, size: int, i: int)
    requires
        len >= 0,
        size > 0,
        0 <= i < chunk_count(len, size),
    ensures
        0 <= chunk_start(size, i) < chunk_end(len, size, i) <= len,
        chunk_end(len, size, i) - chunk_start(size, i) <= size,
        i + 1 < chunk_count(len, size) ==> chunk_end(len, size, i) == (i + 1) * size,
        i + 1 == chunk_count(len, size) ==> chunk_end(len, size, i) == len,
{
    let count = chunk_count(len, size);
    let total = len + size - 1;
    vstd::arithmetic::div_mod::lemma_fundamental_div_mod(total, size);
    assert(count * size <= total && total < count * size + size) by (nonlinear_arith)
        requires
            total == size * (total / size) + total % size,
            0 <= total % size < size,
            count == total / size,
            size > 0,
    ;
    assert(i * size >= 0) by (nonlinear_arith)
        requires
            i >= 0,
            size > 0,
    ;
    assert((i + 1) * size == i * size + size) by (nonlinear_arith);
    assert((i + 1) * size <= count * size) by (nonlinear_arith)
        requires
            i + 1 <= count,
            size > 0,
    ;
    if i + 1 < count {
        assert((i + 2) * size <= count * size) by (nonlinear_arith)
            requires
                i + 2 <= count,
                size > 0,
        ;
        assert((i + 2) * size == (i + 1) * size + size) by (nonlinear_arith);
    }
}

/// The chunks of a list, one after the other, are the list: everything is in one
/// chunk and nothing in two.
pub proof fn lemma_chunks_are_the_list<T>(list: Seq<T>, size: int)
    requires
        size > 0,
    ensures
        joined_chunks(list, size, chunk_count(list.len() as int, size)) == list,
{
    let count = chunk_count(list.len() as int, size);
    if list.len() == 0 {
        assert(count == 0) by {
            assert((size - 1) / size == 0) by (nonlinear_arith)
                requires
                    size > 0,
            ;
        }
    } else {
        lemma_chunk_count(list.len() as int, size);
        lemma_joined_chunks(list, size, count);
        lemma_chunk_bounds(list.len() as int, size, count - 1);
        assert(list.take(list.len() as int) =~= list);
    }
}

/// The first chunks are the start of the list.
proof fn lemma_joined_chunks<T>(list: Seq<T>, size: int, count: int)
    requires
        size > 0,
        0 <= count <= chunk_count(list.len() as int, size),
    ensures
        count == 0 ==> joined_chunks(list, size, count) == Seq::<T>::empty(),
        count > 0 ==> joined_chunks(list, size, count) == list.take(
            chunk_end(list.len() as int, size, count - 1),
        ),
    decreases count,
{
    if count > 0 {
        let len = list.len() as int;
        lemma_joined_chunks(list, size, count - 1);
        lemma_chunk_bounds(len, size, count - 1);
        let end = chunk_end(len, size, count - 1);
        if count > 1 {
            lemma_chunk_bounds(len, size, count - 2);
            assert(chunk_end(len, size, count - 2) == chunk_start(size, count - 1));
            assert(list.take(chunk_start(size, count - 1)) + chunk(list, size, count - 1)
                =~= list.take(end));
        } else {
            assert(chunk_start(size, 0) == 0);
            assert(Seq::<T>::empty() + chunk(list, size, 0) =~= list.take(end));
        }
    }
}

/// Number of chunks of a list that holds something.
pub proof fn lemma_chunk_count(len: int, size: int)
    requires
        len > 0,
        size > 0,
    ensures
        chunk_count(len, size) == (len - 1) / size + 1,
        1 <= chunk_count(len, size) <= len,
{
    assert(len + size - 1 == (len - 1) + size);
    vstd::arithmetic::div_mod::lemma_div_plus_one(len - 1, size);
    vstd::arithmetic::div_mod::lemma_div_pos_is_pos(len - 1, size);
    vstd::arithmetic::div_mod::lemma_div_is_ordered_by_denominator(len - 1, 1, size);
}

/// Number of chunks of at most `size` that `len` things make.
pub fn count_chunks(len: usize, size: usize) -> (count: usize)
    requires
        size > 0,
    ensures
        count == chunk_count(len as int, size as int),
{
    if len == 0 {
        assert((size - 1) / (size as int) == 0) by (nonlinear_arith)
            requires
                size > 0,
        ;
        0
    } else {
        proof {
            lemma_chunk_count(len as int, size as int);
        }
        (len - 1) / size + 1
    }
}

/// Where chunk number `i` starts and ends.
fn chunk_range(len: usize, size: usize, i: usize) -> (range: (usize, usize))
    requires
        size > 0,
        i < chunk_count(len as int, size as int),
    ensures
        range.0 == chunk_start(size as int, i as int),
        range.1 == chunk_end(len as int, size as int, i as int),
        range.0 < range.1 <= len,
{
    proof {
        lemma_chunk_bounds(len as int, size as int, i as int);
        assert((i + 1) * (size as int) == i * (size as int) + size) by (nonlinear_arith);
    }
    let start: usize = i * size;
    if len - start >= size {
        (start, start + size)
    } else {
        (start, len)
    }
}

/// `call` makes the given calls, all or none.
pub open spec fn batches(call: Call, calls: Seq<Call>) -> bool {
    call matches Call::Utility(UtilityCall::BatchAll { calls: batch }) && batch@ == calls
}

/// The calls that transfer `amount` to each account.
pub open spec fn fund_calls(accounts: Seq<Keypair>, amount: u128) -> Seq<Call> {
    accounts.map_values(
        |keypair: Keypair| crate::calls::transfer_keep_alive(keypair.account(), amount),
    )
}

/// The calls that let each account act for the signer.
pub open spec fn add_proxy_calls(accounts: Seq<Keypair>) -> Seq<Call> {
    accounts.map_values(|keypair: Keypair| crate::calls::add_proxy(keypair.account()))
}

/// `tx` funds chunk number `i` of the accounts.
pub open spec fn funds_chunk(
    tx: Transaction,
    signer: Keypair,
    accounts: Seq<Keypair>,
    size: int,
    i: int,
    amount: u128,
) -> bool {
    tx.signer == signer && batches(tx.call, fund_calls(chunk(accounts, size, i), amount))
}

/// `tx` lets chunk number `i` of the accounts act for the signer.
pub open spec fn delegates_to_chunk(
    tx: Transaction,
    signer: Keypair,
    accounts: Seq<Keypair>,
    size: int,
    i: int,
) -> bool {
    tx.signer == signer && batches(tx.call, add_proxy_calls(chunk(accounts, size, i)))
}

/// `signer` transfers `amount` to each account of a chunk.
pub fn fund_chunk(
    signer: &Keypair,
    accounts: &Vec<Keypair>,
    size: usize,
    i: usize,
    amount: u128,
) -> (tx: Transaction)
    requires
        size > 0,
        i < chunk_count(accounts@.len() as int, size as int),
    ensures
        funds_chunk(tx, *signer, accounts@, size as int, i as int, amount),
{
    let (start, end) = chunk_range(accounts.len(), size, i);
    let mut calls: Vec<Call> = Vec::new();
    let mut next: usize = start;
    while next < end
        invariant
            start <= next <= end <= accounts@.len(),
            calls@ == fund_calls(accounts@.subrange(start as int, next as int), amount),
        decreases end - next,
    {
        calls.push(
            Call::Balances(
                BalancesCall::TransferKeepAlive {
                    dest: accounts[next].account_id(),
                    value: amount,
                },
            ),
        );
        next = next + 1;
        assert(accounts@.subrange(start as int, next as int) =~= accounts@.subrange(
            start as int,
            next - 1,
        ).push(accounts@[next - 1]));
        assert(calls@ =~= fund_calls(accounts@.subrange(start as int, next as int), amount));
    }
    Transaction { signer: *signer, call: Call::Utility(UtilityCall::BatchAll { calls }) }
}

/// `signer` lets each account of a chunk act for it.
pub fn delegate_to_chunk(
    signer: &Keypair,
    accounts: &Vec<Keypair>,
    size: usize,
    i: usize,
) -> (tx: Transaction)
    requires
        size > 0,
        i < chunk_count(accounts@.len() as int, size as int),
    ensures
        delegates_to_chunk(tx, *signer, accounts@, size as int, i as int),
{
    let (start, end) = chunk_range(accounts.len(), size, i);
    let mut calls: Vec<Call> = Vec::new();
    let mut next: usize = start;
    while next < end
        invariant
            start <= next <= end <= accounts@.len(),
            calls@ == add_proxy_calls(accounts@.subrange(start as int, next as int)),
        decreases end - next,
    {
        calls.push(
            Call::MythProxy(
                MythProxyCall::AddProxy {
                    delegate: accounts[next].account_id(),
                    proxy_type: ProxyType::Any,
                    sponsor: None,
                },
            ),
        );
        next = next + 1;
        assert(accounts@.subrange(start as int, next as int) =~= accounts@.subrange(
            start as int,
            next - 1,
        ).push(accounts@[next - 1]));
        assert(calls@ =~= add_proxy_calls(accounts@.subrange(start as int, next as int)));
    }
    Transaction { signer: *signer, call: Call::Utility(UtilityCall::BatchAll { calls }) }
}

/// There are as many chunks as are needed and no more.
pub proof fn lemma_chunk_count_is_least(len: int, size: int)
    requires
        len >= 0,
        size > 0,
    ensures
        chunk_count(len, size) >= 0,
        chunk_count(len, size) * size >= len,
        chunk_count(len, size) > 0 ==> (chunk_count(len, size) - 1) * size < len,
{
    let total = len + size - 1;
    let count = chunk_count(len, size);
    vstd::arithmetic::div_mod::lemma_fundamental_div_mod(total, size);
    vstd::arithmetic::div_mod::lemma_div_pos_is_pos(total, size);
    assert(count * size <= total && total < count * size + size) by (nonlinear_arith)
        requires
            total == size * (total / size) + total % size,
            0 <= total % size < size,
            count == total / size,
            size > 0,
    ;
    assert((count - 1) * size == count * size - size) by (nonlinear_arith);
}

/// Member `j` of chunk `i` is member `i * size + j` of the list, and the chunk goes
/// on until it holds `size` members or the list ends.
pub proof fn lemma_chunk_members<T>(list: Seq<T>, size: int, i: int)
    requires
        size > 0,
        0 <= i < chunk_count(list.len() as int, size),
    ensures
        0 <= i * size < list.len(),
        chunk(list, size, i).len() == (if list.len() - i * size < size {
            list.len() - i * size
        } else {
            size
        }),
        forall|j: int|
            0 <= j < chunk(list, size, i).len() ==> #[trigger] chunk(list, size, i)[j] == list[i
                * size + j],
{
    lemma_chunk_bounds(list.len() as int, size, i);
    assert((i + 1) * size == i * size + size) by (nonlinear_arith);
}

/// The batch that funds a chunk pays each of its accounts, once and in order, and
/// nobody else.
pub proof fn lemma_each_of_chunk_is_paid(
    tx: Transaction,
    signer: Keypair,
    accounts: Seq<Keypair>,
    size: int,
    i: int,
    amount: u128,
)
    requires
        size > 0,
        0 <= i < chunk_count(accounts.len() as int, size),
        funds_chunk(tx, signer, accounts, size, i, amount),
    ensures
        tx.signer == signer,
        tx.call matches Call::Utility(UtilityCall::BatchAll { calls }) && {
            &&& calls@.len() == (if accounts.len() - i * size < size {
                accounts.len() - i * size
            } else {
                size
            })
            &&& forall|j: int|
                0 <= j < calls@.len() ==> (#[trigger] calls@[j] matches Call::Balances(
                    BalancesCall::TransferKeepAlive { dest, value },
                ) && dest == accounts[i * size + j].account() && value == amount)
        },
{
    lemma_chunk_members(accounts, size, i);
}

/// The batch that delegates to a chunk lets each of its accounts act for the signer,
/// once and in order, and nobody else.
pub proof fn lemma_each_of_chunk_may_act(
    tx: Transaction,
    signer: Keypair,
    accounts: Seq<Keypair>,
    size: int,
    i: int,
)
    requires
        size > 0,
        0 <= i < chunk_count(accounts.len() as int, size),
        delegates_to_chunk(tx, signer, accounts, size, i),
    ensures
        tx.signer == signer,
        tx.call matches Call::Utility(UtilityCall::BatchAll { calls }) && {
            &&& calls@.len() == (if accounts.len() - i * size < size {
                accounts.len() - i * size
            } else {
                size
            })
            &&& forall|j: int|
                0 <= j < calls@.len() ==> (#[trigger] calls@[j] matches Call::MythProxy(
                    MythProxyCall::AddProxy { delegate, proxy_type, sponsor },
                ) && delegate == accounts[i * size + j].account() && proxy_type is Any
                    && sponsor is None)
        },
{
    lemma_chunk_members(accounts, size, i);
}

/// What the two kinds of batches hold, as they are made.
pub proof fn lemma_batches_as_made(
    signer: Keypair,
    accounts: Vec<Keypair>,
    size: usize,
    i: usize,
    amount: u128,
    funding: Transaction,
    delegation: Transaction,
)
    requires
        size > 0,
        i < chunk_count(accounts@.len() as int, size as int),
        call_ensures(fund_chunk, (&signer, &accounts, size, i, amount), funding),
        call_ensures(delegate_to_chunk, (&signer, &accounts, size, i), delegation),
    ensures
        funding.signer == signer,
        delegation.signer == signer,
        funding.call matches Call::Utility(UtilityCall::BatchAll { calls }) && forall|j: int|
            0 <= j < size && i * size + j < accounts@.len() ==> j < calls@.len() && (
            #[trigger] calls@[j] matches Call::Balances(
                BalancesCall::TransferKeepAlive { dest, value },
            ) && dest == accounts@[i * size + j].account() && value == amount),
        delegation.call matches Call::Utility(UtilityCall::BatchAll { calls }) && forall|j: int|
            0 <= j < size && i * size + j < accounts@.len() ==> j < calls@.len() && (
            #[trigger] calls@[j] matches Call::MythProxy(
                MythProxyCall::AddProxy { delegate, proxy_type, sponsor },
            ) && delegate == accounts@[i * size + j].account() && proxy_type is Any
                && sponsor is None),
{
    let (n, k) = (size as int, i as int);
    lemma_each_of_chunk_is_paid(funding, signer, accounts@, n, k, amount);
    lemma_each_of_chunk_may_act(delegation, signer, accounts@, n, k);
}

/// The number of chunks, as it is computed.
pub proof fn lemma_count_as_made(len: usize, size: usize, count: usize)
    requires
        size > 0,
        call_ensures(count_chunks, (len, size), count),
    ensures
        count * size >= len,
        count > 0 ==> (count - 1) * size < len,
        count == chunk_count(len as int, size as int),
{
    lemma_chunk_count_is_least(len as int, size as int);
}

} // verus!
