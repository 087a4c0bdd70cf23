//! What a set-up does, from the outside: the balances that it asks for, the payments,
//! the delegations and the collection, in the order in which they come.
use vstd::prelude::*;

use crate::calls::BalancesCall;
use crate::calls::Call;
use crate::calls::CollectionConfig;
use crate::calls::MintSettings;
use crate::calls::MintType;
use crate::calls::MythProxyCall;
use crate::calls::NftsCall;
use crate::calls::Transaction;
use crate::calls::UtilityCall;
use crate::keys::Keypair;
use crate::setup::Setup;
use crate::setup::SetupAction;
use crate::setup::SetupEvent;
use crate::setup::SetupStage;
use crate::substrate::AccountId20;

verus! {

/// One thing that is asked for or changed on the chain.
pub enum Effect {
    /// The balance of the account is asked for.
    Asked(AccountId20),
    /// `by` pays `value` to `to`.
    Paid { by: Keypair, to: AccountId20, value: int },
    /// `by` lets `to` act for it in every way.
    Delegated { by: Keypair, to: AccountId20 },
    /// `by` creates a collection for `admin`.
    Created { by: Keypair, admin: AccountId20, config: CollectionConfig },
    /// Anything else.
    Other,
}

/// What a call does that is no batch.
pub open spec fn call_effect(signer: Keypair, call: Call) -> Effect {
    match call {
        Call::Balances(BalancesCall::TransferKeepAlive { dest, value }) => Effect::Paid {
            by: signer,
            to: dest,
            value: value as int,
        },
        Call::MythProxy(MythProxyCall::AddProxy { delegate, proxy_type, sponsor }) => if proxy_type
            is Any && sponsor is None {
            Effect::Delegated { by: signer, to: delegate }
        } else {
            Effect::Other
        },
        Call::Nfts(NftsCall::Create { admin, config }) => Effect::Created {
            by: signer,
            admin,
            config,
        },
        _ => Effect::Other,
    }
}

/// What a transaction does: what each call of a batch does, or the one call.
pub open spec fn transaction_effects(tx: Transaction) -> Seq<Effect> {
    match tx.call {
        Call::Utility(UtilityCall::BatchAll { calls }) => calls@.map_values(
            |call: Call| call_effect(tx.signer, call),
        ),
        call => seq![call_effect(tx.signer, call)],
    }
}

/// What transactions do, one after the other.
pub open spec fn all_effects(transactions: Seq<Transaction>) -> Seq<Effect>
    decreases transactions.len(),
{
    if transactions.len() == 0 {
        Seq::empty()
    } else {
        all_effects(transactions.drop_last()) + transaction_effects(transactions.last())
    }
}

/// What an action does.
pub open spec fn action_effects(action: SetupAction) -> Seq<Effect> {
    match action {
        SetupAction::QueryBalance(account) => seq![Effect::Asked(account)],
        SetupAction::Submit(tx) => transaction_effects(tx),
        SetupAction::SubmitAll { transactions, ordered: _ } => all_effects(transactions@),
        SetupAction::CreateCollection(tx) => transaction_effects(tx),
        SetupAction::Finish | SetupAction::Abort => Seq::empty(),
    }
}

/// What actions do, one after the other.
pub open spec fn trace(actions: Seq<SetupAction>) -> Seq<Effect>
    decreases actions.len(),
{
    if actions.len() == 0 {
        Seq::empty()
    } else {
        trace(actions.drop_last()) + action_effects(actions.last())
    }
}

/// `by` pays `value` to each of the accounts.
pub open spec fn pays(by: Keypair, accounts: Seq<Keypair>, value: int) -> Seq<Effect> {
    accounts.map_values(|account: Keypair| Effect::Paid { by, to: account.account(), value })
}

/// `by` lets each of the accounts act for it.
pub open spec fn delegates(by: Keypair, accounts: Seq<Keypair>) -> Seq<Effect> {
    accounts.map_values(|account: Keypair| Effect::Delegated { by, to: account.account() })
}

/// Each of the accounts lets `to` act for it.
pub open spec fn delegate_each(accounts: Seq<Keypair>, to: AccountId20) -> Seq<Effect> {
    accounts.map_values(|account: Keypair| Effect::Delegated { by: account, to })
}

/// The balance that came at some place was below the target.
pub open spec fn short(events: Seq<SetupEvent>, place: int, target: int) -> bool {
    events[place] matches SetupEvent::Balance(free) && free < target
}

/// The actions are those that the set-up asked for after each of the events.
pub open spec fn performed(
    setup: Setup,
    events: Seq<SetupEvent>,
    actions: Seq<SetupAction>,
) -> bool {
    &&& actions.len() == events.len()
    &&& forall|n: int|
        0 <= n < events.len() ==> crate::setup::run(setup, events.take(n + 1)).calls_for(
            #[trigger] actions[n],
        )
}

/// What comes before the delegations: the balances that are asked for, and the
/// payments where they were short.
spec fn opening(setup: Setup, admin_short: bool, master_short: bool) -> Seq<Effect> {
    let admin = setup.collection_admin.account();
    let master = setup.master.account();
    seq![Effect::Asked(admin)] + (if admin_short {
        seq![
            Effect::Paid {
                by: setup.pot,
                to: admin,
                value: crate::amounts::admin_target(),
            },
        ]
    } else {
        Seq::empty()
    }) + seq![Effect::Asked(master)] + (if master_short {
        seq![
            Effect::Paid {
                by: setup.pot,
                to: master,
                value: crate::amounts::master_target(setup.senders@.len() as int),
            },
        ]
    } else {
        Seq::empty()
    })
}

/// The delegations to the senders.
spec fn sender_delegations(setup: Setup) -> Seq<Effect> {
    delegates(setup.master, setup.senders@) + delegates(setup.pot, setup.senders@) + delegates(
        setup.collection_admin,
        setup.senders@,
    )
}

/// The collection.
spec fn creation(setup: Setup) -> Seq<Effect> {
    seq![
        Effect::Created {
            by: setup.collection_admin,
            admin: setup.collection_admin.account(),
            config: crate::calls::load_collection(),
        },
    ]
}

/// The payments to some of the senders.
spec fn sender_payments(setup: Setup, accounts: Seq<Keypair>) -> Seq<Effect> {
    pays(setup.pot, accounts, crate::amounts::sender_grant(setup.sender_funds as int))
}

/// The payments to some of the users.
spec fn user_payments(setup: Setup, accounts: Seq<Keypair>) -> Seq<Effect> {
    pays(setup.pot, accounts, crate::amounts::user_grant(setup.user_funds as int))
}

/// What has been done at a stage.
spec fn done_so_far(setup: Setup, admin_short: bool, master_short: bool) -> Seq<Effect> {
    let size = setup.batch_size as int;
    let admin = setup.collection_admin.account();
    let master = setup.master.account();
    let base = opening(setup, admin_short, master_short) + sender_delegations(setup);
    match setup.stage {
        SetupStage::Start | SetupStage::Failed => Seq::empty(),
        SetupStage::AdminBalance => seq![Effect::Asked(admin)],
        SetupStage::AdminFunding => opening(setup, true, false).drop_last(),
        SetupStage::MasterBalance => opening(setup, admin_short, false),
        SetupStage::MasterFunding => opening(setup, admin_short, true),
        SetupStage::SenderProxies => base,
        SetupStage::Collection => base + creation(setup),
        SetupStage::SenderFunding { chunk } => base + creation(setup) + sender_payments(
            setup,
            crate::batch::joined_chunks(setup.senders@, size, chunk + 1),
        ),
        SetupStage::UserFunding { chunk } => base + creation(setup) + sender_payments(
            setup,
            setup.senders@,
        ) + user_payments(
            setup,
            crate::batch::joined_chunks(setup.users@, size, chunk + 1),
        ),
        SetupStage::UserProxies | SetupStage::Ready => base + creation(setup) + sender_payments(
            setup,
            setup.senders@,
        ) + user_payments(setup, setup.users@) + delegate_each(setup.users@, master),
    }
}

/// What lists of transactions do together.
proof fn lemma_all_effects_add(a: Seq<Transaction>, b: Seq<Transaction>)
    ensures
        all_effects(a + b) == all_effects(a) + all_effects(b),
    decreases b.len(),
{
    if b.len() == 0 {
        assert(a + b =~= a);
        assert(all_effects(a) + all_effects(b) =~= all_effects(a));
    } else {
        assert((a + b).drop_last() =~= a + b.drop_last());
        lemma_all_effects_add(a, b.drop_last());
        assert(all_effects(a) + all_effects(b.drop_last()) + transaction_effects(b.last())
            =~= all_effects(a) + all_effects(b));
    }
}

/// What the first delegations of a delegator do.
proof fn lemma_delegations(
    setup: Setup,
    transactions: Seq<Transaction>,
    from: int,
    by: Keypair,
    count: int,
)
    requires
        setup.batch_size > 0,
        0 <= from,
        0 <= count <= setup.sender_chunks(),
        from + setup.sender_chunks() <= transactions.len(),
        setup.delegations(transactions, from, by),
    ensures
        all_effects(transactions.subrange(from, from + count)) == delegates(
            by,
            crate::batch::joined_chunks(setup.senders@, setup.batch_size as int, count),
        ),
    decreases count,
{
    let size = setup.batch_size as int;
    let some = transactions.subrange(from, from + count);
    if count == 0 {
        assert(delegates(by, Seq::empty()) =~= Seq::empty());
    } else {
        lemma_delegations(setup, transactions, from, by, count - 1);
        assert(some.drop_last() =~= transactions.subrange(from, from + count - 1));
        let tx = transactions[from + (count - 1)];
        assert(crate::batch::delegates_to_chunk(tx, by, setup.senders@, size, count - 1));
        crate::batch::lemma_each_of_chunk_may_act(tx, by, setup.senders@, size, count - 1);
        crate::batch::lemma_chunk_members(setup.senders@, size, count - 1);
        let chunk = crate::batch::chunk(setup.senders@, size, count - 1);
        assert(transaction_effects(tx) =~= delegates(by, chunk)) by {
            if let Call::Utility(UtilityCall::BatchAll { calls }) = tx.call {
                assert forall|j: int| 0 <= j < calls@.len() implies call_effect(
                    by,
                    #[trigger] calls@[j],
                ) == delegates(by, chunk)[j] by {
                    assert(chunk[j] == setup.senders@[(count - 1) * size + j]);
                }
            }
        }
        let earlier = crate::batch::joined_chunks(setup.senders@, size, count - 1);
        assert(delegates(by, earlier + chunk) =~= delegates(by, earlier) + delegates(by, chunk));
    }
}

/// What the batch that funds a chunk does.
proof fn lemma_chunk_payments(
    tx: Transaction,
    by: Keypair,
    accounts: Seq<Keypair>,
    size: int,
    i: int,
    amount: u128,
)
    requires
        size > 0,
        0 <= i < crate::batch::chunk_count(accounts.len() as int, size),
        crate::batch::funds_chunk(tx, by, accounts, size, i, amount),
    ensures
        transaction_effects(tx) == pays(
            by,
            crate::batch::chunk(accounts, size, i),
            amount as int,
        ),
{
    crate::batch::lemma_each_of_chunk_is_paid(tx, by, accounts, size, i, amount);
    crate::batch::lemma_chunk_members(accounts, size, i);
    let chunk = crate::batch::chunk(accounts, size, i);
    assert(transaction_effects(tx) =~= pays(by, chunk, amount as int)) by {
        if let Call::Utility(UtilityCall::BatchAll { calls }) = tx.call {
            assert forall|j: int| 0 <= j < calls@.len() implies call_effect(
                by,
                #[trigger] calls@[j],
            ) == pays(by, chunk, amount as int)[j] by {
                assert(chunk[j] == accounts[i * size + j]);
            }
        }
    }
}

/// What delegations of single accounts do.
proof fn lemma_user_delegations(
    users: Seq<Keypair>,
    transactions: Seq<Transaction>,
    to: AccountId20,
)
    requires
        transactions.len() == users.len(),
        forall|i: int|
            0 <= i < users.len() ==> (#[trigger] transactions[i]).signer == users[i]
                && transactions[i].call == crate::calls::add_proxy(to),
    ensures
        all_effects(transactions) == delegate_each(users, to),
    decreases users.len(),
{
    if users.len() == 0 {
        assert(delegate_each(users, to) =~= Seq::empty());
    } else {
        let (less, others) = (transactions.drop_last(), users.drop_last());
        assert forall|i: int| 0 <= i < others.len() implies (#[trigger] less[i]).signer
            == others[i] && less[i].call == crate::calls::add_proxy(to) by {
            assert(less[i] == transactions[i]);
        }
        lemma_user_delegations(others, less, to);
        let last = transactions[users.len() - 1];
        assert(last.signer == users.last());
        assert(transaction_effects(last) =~= seq![
            Effect::Delegated { by: users.last(), to },
        ]);
        assert(delegate_each(users, to) =~= delegate_each(others, to) + seq![
            Effect::Delegated { by: users.last(), to },
        ]);
    }
}

/// Numbers of chunks are numbers.
proof fn lemma_counts(setup: Setup)
    requires
        setup.batch_size > 0,
    ensures
        0 <= setup.sender_chunks() <= usize::MAX,
        0 <= setup.user_chunks() <= usize::MAX,
        crate::batch::joined_chunks(
            setup.senders@,
            setup.batch_size as int,
            setup.sender_chunks(),
        ) == setup.senders@,
        crate::batch::joined_chunks(
            setup.users@,
            setup.batch_size as int,
            setup.user_chunks(),
        ) == setup.users@,
{
    let size = setup.batch_size as int;
    crate::batch::lemma_chunk_count_is_least(setup.senders@.len() as int, size);
    crate::batch::lemma_chunk_count_is_least(setup.users@.len() as int, size);
    crate::batch::lemma_chunks_are_the_list(setup.senders@, size);
    crate::batch::lemma_chunks_are_the_list(setup.users@, size);
    assert(setup.senders.len() == setup.senders@.len());
    assert(setup.users.len() == setup.users@.len());
    if setup.senders@.len() > 0 {
        crate::batch::lemma_chunk_count(setup.senders@.len() as int, size);
    }
    if setup.users@.len() > 0 {
        crate::batch::lemma_chunk_count(setup.users@.len() as int, size);
    }
    assert((size - 1) / size == 0) by (nonlinear_arith)
        requires
            size > 0,
    ;
}

/// What does not depend on the stage.
proof fn lemma_same_parts(before: Setup, now: Setup)
    requires
        before == (Setup { stage: before.stage, collection_id: before.collection_id, ..now }),
    ensures
        forall|x: bool, y: bool| #[trigger] opening(before, x, y) == opening(now, x, y),
        sender_delegations(before) == sender_delegations(now),
        creation(before) == creation(now),
        forall|accounts: Seq<Keypair>| #[trigger]
            sender_payments(before, accounts) == sender_payments(now, accounts),
        forall|accounts: Seq<Keypair>| #[trigger]
            user_payments(before, accounts) == user_payments(now, accounts),
        before.sender_chunks() == now.sender_chunks(),
        before.user_chunks() == now.user_chunks(),
{
}

/// The payments to a chunk of the senders add to what has been done.
proof fn lemma_sender_chunk_adds(
    before: Setup,
    now: Setup,
    action: SetupAction,
    admin_short: bool,
    master_short: bool,
)
    requires
        now.wf(),
        before == (Setup { stage: before.stage, collection_id: before.collection_id, ..now }),
        now.calls_for(action),
        now.stage matches SetupStage::SenderFunding { chunk } && (if chunk == 0 {
            before.stage is Collection
        } else {
            before.stage == (SetupStage::SenderFunding { chunk: (chunk - 1) as usize })
        }),
    ensures
        done_so_far(now, admin_short, master_short) == done_so_far(
            before,
            admin_short,
            master_short,
        ) + action_effects(action),
{
    lemma_counts(now);
    lemma_same_parts(before, now);
    let size = now.batch_size as int;
    if let SetupStage::SenderFunding { chunk } = now.stage {
        if let SetupAction::Submit(tx) = action {
            let amount = crate::amounts::sender_grant(now.sender_funds as int);
            lemma_chunk_payments(tx, now.pot, now.senders@, size, chunk as int, amount as u128);
            let base = opening(now, admin_short, master_short) + sender_delegations(now)
                + creation(now);
            let old_ones = crate::batch::joined_chunks(now.senders@, size, chunk as int);
            let new_ones = crate::batch::chunk(now.senders@, size, chunk as int);
            let (p, q) = (sender_payments(now, old_ones), sender_payments(now, new_ones));
            assert(sender_payments(now, old_ones + new_ones) =~= p + q);
            assert(base + p + q =~= base + (p + q));
            if chunk == 0 {
                assert(base + p =~= base);
            }
        }
    }
}

/// The payments to a chunk of the users add to what has been done.
proof fn lemma_user_chunk_adds(
    before: Setup,
    now: Setup,
    action: SetupAction,
    admin_short: bool,
    master_short: bool,
)
    requires
        now.wf(),
        before == (Setup { stage: before.stage, collection_id: before.collection_id, ..now }),
        now.calls_for(action),
        now.stage matches SetupStage::UserFunding { chunk } && (if chunk == 0 {
            ||| before.stage is Collection && now.sender_chunks() <= 0
            ||| before.stage matches SetupStage::SenderFunding { chunk: last } && last + 1
                == now.sender_chunks()
        } else {
            before.stage == (SetupStage::UserFunding { chunk: (chunk - 1) as usize })
        }),
    ensures
        done_so_far(now, admin_short, master_short) == done_so_far(
            before,
            admin_short,
            master_short,
        ) + action_effects(action),
{
    lemma_counts(now);
    lemma_same_parts(before, now);
    let size = now.batch_size as int;
    if let SetupStage::UserFunding { chunk } = now.stage {
        if let SetupAction::Submit(tx) = action {
            let amount = crate::amounts::user_grant(now.user_funds as int);
            lemma_chunk_payments(tx, now.pot, now.users@, size, chunk as int, amount as u128);
            let start = opening(now, admin_short, master_short) + sender_delegations(now)
                + creation(now);
            let base = start + sender_payments(now, now.senders@);
            let old_ones = crate::batch::joined_chunks(now.users@, size, chunk as int);
            let new_ones = crate::batch::chunk(now.users@, size, chunk as int);
            let (p, q) = (user_payments(now, old_ones), user_payments(now, new_ones));
            assert(user_payments(now, old_ones + new_ones) =~= p + q);
            assert(base + p + q =~= base + (p + q));
            if chunk == 0 {
                assert(base + p =~= base);
                lemma_senders_done(before, now);
                if before.stage is Collection {
                    assert(start + sender_payments(now, now.senders@) =~= start);
                }
            }
        }
    }
}

/// The action of a stage adds to what has been done.
proof fn lemma_stage_adds(
    before: Setup,
    event: SetupEvent,
    action: SetupAction,
    admin_short: bool,
    master_short: bool,
)
    requires
        before.wf(),
        before.can_take(event),
        before.after(event).wf(),
        before.after(event).calls_for(action),
        !(before.after(event).stage is Failed),
        before.stage is AdminBalance ==> admin_short == (event matches SetupEvent::Balance(free)
            && free < crate::amounts::admin_target()),
        before.stage is AdminFunding ==> admin_short,
        before.stage is MasterBalance ==> master_short == (event matches SetupEvent::Balance(
            free,
        ) && free < crate::amounts::master_target(before.senders@.len() as int)),
        before.stage is MasterFunding ==> master_short,
    ensures
        done_so_far(before.after(event), admin_short, master_short) == done_so_far(
            before,
            admin_short,
            master_short,
        ) + action_effects(action),
{
    let now = before.after(event);
    let size = now.batch_size as int;
    let earlier = done_so_far(before, admin_short, master_short);
    let added = action_effects(action);
    let admin = now.collection_admin.account();
    let master = now.master.account();
    match now.stage {
        SetupStage::AdminBalance => {
            assert(earlier + added =~= seq![Effect::Asked(admin)]);
        },
        SetupStage::AdminFunding => {
            assert(added =~= seq![
                Effect::Paid {
                    by: now.pot,
                    to: admin,
                    value: crate::amounts::admin_target(),
                },
            ]);
            assert(done_so_far(now, admin_short, master_short) =~= earlier + added);
        },
        SetupStage::MasterBalance => {
            assert(added =~= seq![Effect::Asked(master)]);
            assert(done_so_far(now, admin_short, master_short) =~= earlier + added);
        },
        SetupStage::MasterFunding => {
            assert(now.senders.len() == now.senders@.len());
            let target = crate::amounts::master_target(now.senders@.len() as int);
            crate::amounts::lemma_master_target_in_figures(now.senders@.len() as int);
            assert(0 <= target <= u128::MAX);
            assert(added =~= seq![
                Effect::Paid { by: now.pot, to: master, value: target },
            ]);
            assert(done_so_far(now, admin_short, master_short) =~= earlier + added);
        },
        SetupStage::SenderProxies => {
            lemma_counts(now);
            if let SetupAction::SubmitAll { transactions, ordered } = action {
                let txs = transactions@;
                let count = now.sender_chunks();
                lemma_delegations(now, txs, 0, now.master, count);
                lemma_delegations(now, txs, count, now.pot, count);
                lemma_delegations(now, txs, 2 * count, now.collection_admin, count);
                let (x, y, z) = (
                    txs.subrange(0, count),
                    txs.subrange(count, count + count),
                    txs.subrange(2 * count, 2 * count + count),
                );
                assert(txs =~= x + y + z);
                lemma_all_effects_add(x + y, z);
                lemma_all_effects_add(x, y);
                assert(added == sender_delegations(now));
            }
            assert(earlier =~= opening(now, admin_short, master_short));
            assert(done_so_far(now, admin_short, master_short) =~= earlier + added);
        },
        SetupStage::Collection => {
            assert(added =~= creation(now));
            assert(done_so_far(now, admin_short, master_short) =~= earlier + added);
        },
        SetupStage::SenderFunding { chunk: _ } => {
            lemma_counts(before);
            lemma_sender_chunk_adds(before, now, action, admin_short, master_short);
        },
        SetupStage::UserFunding { chunk: _ } => {
            lemma_counts(before);
            lemma_user_chunk_adds(before, now, action, admin_short, master_short);
        },
        SetupStage::UserProxies => {
            lemma_counts(now);
            if let SetupAction::SubmitAll { transactions, ordered } = action {
                lemma_user_delegations(now.users@, transactions@, master);
            }
            lemma_senders_done(before, now);
            if !(before.stage is UserFunding) {
                assert(crate::batch::joined_chunks(now.users@, size, 0) == now.users@);
                assert(user_payments(now, now.users@) =~= Seq::empty());
            }
            assert(done_so_far(now, admin_short, master_short) =~= earlier + added);
        },
        SetupStage::Ready => {
            assert(done_so_far(now, admin_short, master_short) =~= earlier + added);
        },
        _ => {},
    }
}

/// Where the users come next, the senders are all paid.
proof fn lemma_senders_done(before: Setup, now: Setup)
    requires
        now.batch_size > 0,
        now.senders == before.senders,
        now.batch_size == before.batch_size,
        now.users == before.users,
        before.stage is Collection ==> now.sender_chunks() == 0 || now.sender_chunks() < 0,
        before.stage matches SetupStage::SenderFunding { chunk } ==> chunk + 1
            == now.sender_chunks(),
    ensures
        before.stage is Collection ==> sender_payments(now, now.senders@) == Seq::<Effect>::empty(),
        before.stage matches SetupStage::SenderFunding { chunk } ==> crate::batch::joined_chunks(
            now.senders@,
            now.batch_size as int,
            chunk + 1,
        ) == now.senders@,
{
    lemma_counts(now);
    if before.stage is Collection {
        assert(now.senders@ =~= Seq::<Keypair>::empty());
        assert(sender_payments(now, now.senders@) =~= Seq::<Effect>::empty());
    }
}

/// What has been done after some events is what the stage says.
proof fn lemma_trace(setup: Setup, events: Seq<SetupEvent>, actions: Seq<SetupAction>, n: int)
    requires
        setup.wf(),
        setup.stage is Start,
        crate::setup::all_taken(setup, events),
        performed(setup, events, actions),
        0 <= n <= events.len(),
    ensures
        ({
            let now = crate::setup::run(setup, events.take(n));
            let admin_short = short(events, 1, crate::amounts::admin_target());
            let place = if admin_short {
                3int
            } else {
                2int
            };
            let master_short = short(
                events,
                place,
                crate::amounts::master_target(setup.senders@.len() as int),
            );
            &&& now.wf()
            &&& crate::setup::all_taken(setup, events.take(n))
            &&& now == (Setup { stage: now.stage, collection_id: now.collection_id, ..setup })
            &&& now.stage is Start ==> n == 0
            &&& now.stage is AdminBalance ==> n == 1
            &&& now.stage is AdminFunding ==> n == 2 && admin_short
            &&& now.stage is MasterBalance ==> n == place
            &&& now.stage is MasterFunding ==> n == place + 1 && master_short
            &&& !(now.stage is Failed) ==> trace(actions.take(n)) == done_so_far(
                now,
                admin_short,
                master_short,
            )
        }),
    decreases n,
{
    let now = crate::setup::run(setup, events.take(n));
    let admin_short = short(events, 1, crate::amounts::admin_target());
    let place = if admin_short {
        3int
    } else {
        2int
    };
    let master_short = short(
        events,
        place,
        crate::amounts::master_target(setup.senders@.len() as int),
    );
    if n == 0 {
        lemma_all_taken_prefix(setup, events, 0);
        assert(actions.take(0) =~= Seq::<SetupAction>::empty());
    } else {
        lemma_trace(setup, events, actions, n - 1);
        lemma_all_taken_prefix(setup, events, n);
        let before = crate::setup::run(setup, events.take(n - 1));
        let event = events[n - 1];
        assert(events.take(n).drop_last() =~= events.take(n - 1));
        assert(events.take(n).last() == event);
        assert(now == before.after(event));
        assert(before.can_take(event));
        crate::setup::lemma_setup_progress(before, event);
        assert(actions.take(n).drop_last() =~= actions.take(n - 1));
        assert(actions.take(n).last() == actions[n - 1]);
        assert(now.calls_for(actions[n - 1]));
        if !(now.stage is Failed) {
            lemma_stage_adds(before, event, actions[n - 1], admin_short, master_short);
        }
    }
}

/// Where all events were taken, the first ones were.
proof fn lemma_all_taken_prefix(setup: Setup, events: Seq<SetupEvent>, n: int)
    requires
        crate::setup::all_taken(setup, events),
        0 <= n <= events.len(),
    ensures
        crate::setup::all_taken(setup, events.take(n)),
    decreases events.len(),
{
    if n < events.len() {
        lemma_all_taken_prefix(setup, events.drop_last(), n);
        assert(events.drop_last().take(n) =~= events.take(n));
    } else {
        assert(events.take(n) =~= events);
    }
}

/// What comes first: the administrator's balance is asked for, and it is paid ten
/// coins from the pot where it was short; then the master's, which is paid ten coins
/// and a fifth of a coin for each sender where it was short.
pub open spec fn balances_settled(
    setup: Setup,
    admin_short: bool,
    master_short: bool,
) -> Seq<Effect> {
    let (admin, master) = (setup.collection_admin.account(), setup.master.account());
    seq![Effect::Asked(admin)] + (if admin_short {
        seq![Effect::Paid { by: setup.pot, to: admin, value: 10_000_000_000_000_000_000 }]
    } else {
        Seq::empty()
    }) + seq![Effect::Asked(master)] + (if master_short {
        seq![
            Effect::Paid {
                by: setup.pot,
                to: master,
                value: 10_000_000_000_000_000_000 + (setup.senders@.len() as int)
                    * 200_000_000_000_000_000,
            },
        ]
    } else {
        Seq::empty()
    })
}

/// The administrator creates its collection: unlimited, numbered in sequence, minted
/// by the issuer alone, free and at any time, with nothing switched off.
pub open spec fn collection_created(setup: Setup) -> Effect {
    Effect::Created {
        by: setup.collection_admin,
        admin: setup.collection_admin.account(),
        config: CollectionConfig {
            settings: 0,
            max_supply: Some(u128::MAX),
            mint_settings: MintSettings {
                mint_type: MintType::Issuer,
                price: None,
                start_block: None,
                end_block: None,
                default_item_settings: 0,
                serial_mint: true,
            },
        },
    }
}

/// All that a set-up has done once it is ready, in this order and nothing besides:
/// the balances are settled; the master, the pot and the administrator let every
/// sender act for them; the administrator created the collection; the pot paid every
/// sender and then every user what is configured, a user twenty-one cents more; and
/// every user let the master act for it.
pub proof fn lemma_whole_set_up(
    setup: Setup,
    events: Seq<SetupEvent>,
    actions: Seq<SetupAction>,
)
    requires
        setup.wf(),
        setup.stage is Start,
        crate::setup::all_taken(setup, events),
        performed(setup, events, actions),
        crate::setup::run(setup, events).stage is Ready,
    ensures
        ({
            let admin_short = short(events, 1, 10_000_000_000_000_000_000);
            let master_short = short(
                events,
                if admin_short {
                    3
                } else {
                    2
                },
                10_000_000_000_000_000_000 + (setup.senders@.len() as int)
                    * 200_000_000_000_000_000,
            );
            trace(actions) == balances_settled(setup, admin_short, master_short) + (delegates(
                setup.master,
                setup.senders@,
            ) + delegates(setup.pot, setup.senders@) + delegates(
                setup.collection_admin,
                setup.senders@,
            )) + seq![collection_created(setup)] + pays(
                setup.pot,
                setup.senders@,
                setup.sender_funds * 1_000_000_000_000_000_000,
            ) + pays(
                setup.pot,
                setup.users@,
                setup.user_funds * 1_000_000_000_000_000_000 + 210_000_000_000_000_000,
            ) + delegate_each(setup.users@, setup.master.account())
        }),
{
    lemma_trace(setup, events, actions, events.len() as int);
    assert(events.take(events.len() as int) =~= events);
    assert(actions.take(actions.len() as int) =~= actions);
    crate::amounts::lemma_master_target_in_figures(setup.senders@.len() as int);
    let now = crate::setup::run(setup, events);
    let admin_short = short(events, 1, 10_000_000_000_000_000_000);
    let place = if admin_short {
        3int
    } else {
        2int
    };
    let target: int = 10_000_000_000_000_000_000 + (setup.senders@.len() as int)
        * 200_000_000_000_000_000;
    lemma_ready_in_figures(setup, now, admin_short, short(events, place, target));
}

/// What has been done at the end, in figures.
proof fn lemma_ready_in_figures(setup: Setup, now: Setup, admin_short: bool, master_short: bool)
    requires
        now.stage is Ready,
        now == (Setup { stage: now.stage, collection_id: now.collection_id, ..setup }),
    ensures
        done_so_far(now, admin_short, master_short) == balances_settled(
            setup,
            admin_short,
            master_short,
        ) + (delegates(setup.master, setup.senders@) + delegates(setup.pot, setup.senders@)
            + delegates(setup.collection_admin, setup.senders@)) + seq![
            collection_created(setup),
        ] + pays(
            setup.pot,
            setup.senders@,
            setup.sender_funds * 1_000_000_000_000_000_000,
        ) + pays(
            setup.pot,
            setup.users@,
            setup.user_funds * 1_000_000_000_000_000_000 + 210_000_000_000_000_000,
        ) + delegate_each(setup.users@, setup.master.account()),
{
    crate::amounts::lemma_master_target_in_figures(setup.senders@.len() as int);
    crate::amounts::lemma_amounts_in_figures(setup.sender_funds as int);
    crate::amounts::lemma_amounts_in_figures(setup.user_funds as int);
    assert(opening(now, admin_short, master_short) == balances_settled(
        setup,
        admin_short,
        master_short,
    ));
    assert(creation(now) == seq![collection_created(setup)]);
}

} // verus!
