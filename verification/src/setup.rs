//! Preparation of a load test: accounts are funded, delegations made and a
//! collection created.
use vstd::prelude::*;

use crate::amounts::admin_target_balance;
use crate::amounts::master_target_balance;
use crate::amounts::sender_grant_amount;
use crate::amounts::user_grant_amount;
use crate::batch::count_chunks;
use crate::batch::delegate_to_chunk;
use crate::batch::fund_chunk;
use crate::calls::Transaction;
use crate::calls::create_collection;
use crate::calls::delegate_to;
use crate::calls::fund;
use crate::config::Config;
use crate::keys::KeyError;
use crate::keys::Keypair;
use crate::keys::decode_secret_key;
use crate::keys::keypairs_from_seeds;
use crate::keys::random_seeds;
use crate::load::LoadContext;
use crate::substrate::AccountId20;
use crate::substrate::IncrementableU256;

verus! {

/// Largest number of transactions that are under way at the same time.
pub const CONCURRENCY: usize = 1000;

/// What the set-up waits for.
#[derive(Clone, Copy, Debug, PartialEq, Eq, Structural)]
pub enum SetupStage {
    /// To begin.
    Start,
    /// Balance of the administrator of the collection.
    AdminBalance,
    /// Funding of the administrator.
    AdminFunding,
    /// Balance of the master.
    MasterBalance,
    /// Funding of the master.
    MasterFunding,
    /// Delegations to the senders.
    SenderProxies,
    /// Creation of the collection.
    Collection,
    /// Funding of a chunk of the senders.
    SenderFunding { chunk: usize },
    /// Funding of a chunk of the users.
    UserFunding { chunk: usize },
    /// Delegations of the users to the master.
    UserProxies,
    /// Nothing: all is done.
    Ready,
    /// Nothing: something failed.
    Failed,
}

/// What happened.
pub enum SetupEvent {
    /// The set-up begins.
    Begin,
    /// The free balance that was asked for.
    Balance(u128),
    /// What was submitted is finalized and successful.
    Finalized,
    /// The collection is finalized, under this identifier.
    Created(IncrementableU256),
    /// What was asked for or submitted failed.
    Failed,
}

/// What to do next.
pub enum SetupAction {
    /// Ask for the free balance of an account.
    QueryBalance(AccountId20),
    /// Submit a transaction and wait until it is finalized.
    Submit(Transaction),
    /// Submit transactions, up to [`CONCURRENCY`] of them at the same time, and
    /// wait until all are finalized; where `ordered`, look at the results in the
    /// order of the transactions.
    SubmitAll { transactions: Vec<Transaction>, ordered: bool },
    /// Submit the creation of the collection and wait until it is finalized.
    CreateCollection(Transaction),
    /// The set-up is done.
    Finish,
    /// The set-up failed.
    Abort,
}

/// A set-up under way.
pub struct Setup {
    pub pot: Keypair,
    pub master: Keypair,
    pub fee_signer: Keypair,
    pub collection_admin: Keypair,
    pub senders: Vec<Keypair>,
    pub users: Vec<Keypair>,
    pub batch_size: usize,
    pub sender_funds: u64,
    pub user_funds: u64,
    pub collection_id: Option<IncrementableU256>,
    pub stage: SetupStage,
}

impl Setup {
    /// Number of chunks of the senders.
    pub open spec fn sender_chunks(self) -> int {
        crate::batch::chunk_count(self.senders@.len() as int, self.batch_size as int)
    }

    /// Number of chunks of the users.
    pub open spec fn user_chunks(self) -> int {
        crate::batch::chunk_count(self.users@.len() as int, self.batch_size as int)
    }

    /// The stage is one that needs batches.
    pub open spec fn batching(self) -> bool {
        match self.stage {
            SetupStage::Start
            | SetupStage::AdminBalance
            | SetupStage::AdminFunding
            | SetupStage::MasterBalance
            | SetupStage::MasterFunding
            | SetupStage::Failed => false,
            _ => true,
        }
    }

    /// What every step keeps: there are batches where they are needed, chunks are
    /// chunks of the lists, and the collection is known once it is created.
    pub open spec fn wf(self) -> bool {
        &&& self.batching() ==> self.batch_size > 0
        &&& match self.stage {
            SetupStage::SenderFunding { chunk } => chunk < self.sender_chunks()
                && self.collection_id is Some,
            SetupStage::UserFunding { chunk } => chunk < self.user_chunks()
                && self.collection_id is Some,
            SetupStage::UserProxies | SetupStage::Ready => self.collection_id is Some,
            _ => true,
        }
    }

    /// Stage in which the users get their funds, from a chunk on.
    pub open spec fn users_from(self, chunk: int) -> SetupStage {
        if chunk < self.user_chunks() {
            SetupStage::UserFunding { chunk: chunk as usize }
        } else {
            SetupStage::UserProxies
        }
    }

    /// Stage in which the senders get their funds, from a chunk on.
    pub open spec fn senders_from(self, chunk: int) -> SetupStage {
        if chunk < self.sender_chunks() {
            SetupStage::SenderFunding { chunk: chunk as usize }
        } else {
            self.users_from(0)
        }
    }

    /// Stage that an event leads to; none where the event is not waited for.
    pub open spec fn stage_after(self, event: SetupEvent) -> Option<SetupStage> {
        match (self.stage, event) {
            (SetupStage::Start, SetupEvent::Begin) => Some(SetupStage::AdminBalance),
            (SetupStage::AdminBalance, SetupEvent::Balance(free)) => Some(
                if free < crate::amounts::admin_target() {
                    SetupStage::AdminFunding
                } else {
                    SetupStage::MasterBalance
                },
            ),
            (SetupStage::AdminFunding, SetupEvent::Finalized) => Some(SetupStage::MasterBalance),
            (SetupStage::MasterBalance, SetupEvent::Balance(free)) => Some(
                if free < crate::amounts::master_target(self.senders@.len() as int) {
                    SetupStage::MasterFunding
                } else {
                    SetupStage::SenderProxies
                },
            ),
            (SetupStage::MasterFunding, SetupEvent::Finalized) => Some(SetupStage::SenderProxies),
            (SetupStage::SenderProxies, SetupEvent::Finalized) => Some(SetupStage::Collection),
            (SetupStage::Collection, SetupEvent::Created(_)) => Some(self.senders_from(0)),
            (SetupStage::SenderFunding { chunk }, SetupEvent::Finalized) => Some(
                self.senders_from(chunk + 1),
            ),
            (SetupStage::UserFunding { chunk }, SetupEvent::Finalized) => Some(
                self.users_from(chunk + 1),
            ),
            (SetupStage::UserProxies, SetupEvent::Finalized) => Some(SetupStage::Ready),
            (SetupStage::Start, _) | (SetupStage::Ready, _) | (SetupStage::Failed, _) => None,
            (_, SetupEvent::Failed) => Some(SetupStage::Failed),
            _ => None,
        }
    }

    /// The event is waited for, and what comes next can be done.
    pub open spec fn can_take(self, event: SetupEvent) -> bool {
        &&& self.stage_after(event) is Some
        &&& self.stage_after(event) == Some(SetupStage::SenderProxies) ==> self.batch_size > 0
    }

    /// The set-up after an event.
    pub open spec fn after(self, event: SetupEvent) -> Setup {
        Setup {
            stage: self.stage_after(event)->0,
            collection_id: match event {
                SetupEvent::Created(id) => Some(id),
                _ => self.collection_id,
            },
            ..self
        }
    }

    /// `transactions` let each chunk of the senders act for `delegator`, from
    /// position `from` on.
    pub open spec fn delegations(
        self,
        transactions: Seq<Transaction>,
        from: int,
        delegator: Keypair,
    ) -> bool {
        forall|i: int|
            0 <= i < self.sender_chunks() ==> crate::batch::delegates_to_chunk(
                #[trigger] transactions[from + i],
                delegator,
                self.senders@,
                self.batch_size as int,
                i,
            )
    }

    /// `action` is what to do at the stage.
    pub open spec fn calls_for(self, action: SetupAction) -> bool {
        match self.stage {
            SetupStage::Start => false,
            SetupStage::AdminBalance => action == SetupAction::QueryBalance(
                self.collection_admin.account(),
            ),
            SetupStage::AdminFunding => {
                &&& action matches SetupAction::Submit(tx)
                &&& tx.signer == self.pot
                &&& tx.call == crate::calls::transfer_keep_alive(
                    self.collection_admin.account(),
                    crate::amounts::admin_target() as u128,
                )
            },
            SetupStage::MasterBalance => action == SetupAction::QueryBalance(
                self.master.account(),
            ),
            SetupStage::MasterFunding => {
                &&& action matches SetupAction::Submit(tx)
                &&& tx.signer == self.pot
                &&& tx.call == crate::calls::transfer_keep_alive(
                    self.master.account(),
                    crate::amounts::master_target(self.senders@.len() as int) as u128,
                )
            },
            SetupStage::SenderProxies => {
                let count = self.sender_chunks();
                &&& action matches SetupAction::SubmitAll { transactions, ordered }
                &&& ordered
                &&& transactions@.len() == 3 * count
                &&& self.delegations(transactions@, 0, self.master)
                &&& self.delegations(transactions@, count, self.pot)
                &&& self.delegations(transactions@, 2 * count, self.collection_admin)
            },
            SetupStage::Collection => {
                &&& action matches SetupAction::CreateCollection(tx)
                &&& tx.signer == self.collection_admin
                &&& tx.call == crate::calls::create_collection_call(
                    self.collection_admin.account(),
                )
            },
            SetupStage::SenderFunding { chunk } => {
                &&& action matches SetupAction::Submit(tx)
                &&& crate::batch::funds_chunk(
                    tx,
                    self.pot,
                    self.senders@,
                    self.batch_size as int,
                    chunk as int,
                    crate::amounts::sender_grant(self.sender_funds as int) as u128,
                )
            },
            SetupStage::UserFunding { chunk } => {
                &&& action matches SetupAction::Submit(tx)
                &&& crate::batch::funds_chunk(
                    tx,
                    self.pot,
                    self.users@,
                    self.batch_size as int,
                    chunk as int,
                    crate::amounts::user_grant(self.user_funds as int) as u128,
                )
            },
            SetupStage::UserProxies => {
                &&& action matches SetupAction::SubmitAll { transactions, ordered }
                &&& !ordered
                &&& transactions@.len() == self.users@.len()
                &&& forall|i: int|
                    0 <= i < self.users@.len() ==> (#[trigger] transactions@[i]).signer
                        == self.users@[i] && transactions@[i].call == crate::calls::add_proxy(
                        self.master.account(),
                    )
            },
            SetupStage::Ready => action is Finish,
            SetupStage::Failed => action is Abort,
        }
    }

    /// A set-up that is to begin.
    pub fn new(
        pot: Keypair,
        master: Keypair,
        fee_signer: Keypair,
        collection_admin: Keypair,
        senders: Vec<Keypair>,
        users: Vec<Keypair>,
        batch_size: usize,
        sender_funds: u64,
        user_funds: u64,
    ) -> (setup: Setup)
        ensures
            setup.wf(),
            setup.stage is Start,
            setup.collection_id is None,
            setup.pot == pot,
            setup.master == master,
            setup.fee_signer == fee_signer,
            setup.collection_admin == collection_admin,
            setup.senders == senders,
            setup.users == users,
            setup.batch_size == batch_size,
            setup.sender_funds == sender_funds,
            setup.user_funds == user_funds,
    {
        Setup {
            pot,
            master,
            fee_signer,
            collection_admin,
            senders,
            users,
            batch_size,
            sender_funds,
            user_funds,
            collection_id: None,
            stage: SetupStage::Start,
        }
    }

    /// A set-up that is to begin, with the senders and the users that the seeds give.
    pub fn from_seeds(
        pot: Keypair,
        master: Keypair,
        fee_signer: Keypair,
        collection_admin: Keypair,
        sender_seeds: &Vec<[u8; 64]>,
        user_seeds: &Vec<[u8; 64]>,
        batch_size: usize,
        sender_funds: u64,
        user_funds: u64,
    ) -> (result: Result<Setup, KeyError>)
        ensures
            result is Ok == (crate::keys::all_derivable(sender_seeds@)
                && crate::keys::all_derivable(user_seeds@)),
            result matches Ok(setup) ==> {
                &&& drawn_from(setup, sender_seeds@, user_seeds@)
                &&& setup.wf()
                &&& setup.stage is Start
                &&& setup.collection_id is None
                &&& setup.pot == pot
                &&& setup.master == master
                &&& setup.fee_signer == fee_signer
                &&& setup.collection_admin == collection_admin
                &&& setup.batch_size == batch_size
                &&& setup.sender_funds == sender_funds
                &&& setup.user_funds == user_funds
            },
            result matches Err(error) ==> error is Seed,
    {
        let senders = keypairs_from_seeds(sender_seeds)?;
        let users = keypairs_from_seeds(user_seeds)?;
        Ok(
            Setup::new(
                pot,
                master,
                fee_signer,
                collection_admin,
                senders,
                users,
                batch_size,
                sender_funds,
                user_funds,
            ),
        )
    }

    /// Stage in which the users get their funds, from a chunk on.
    fn user_stage(&self, chunk: usize) -> (stage: SetupStage)
        requires
            self.batch_size > 0,
        ensures
            stage == self.users_from(chunk as int),
    {
        if chunk < count_chunks(self.users.len(), self.batch_size) {
            SetupStage::UserFunding { chunk }
        } else {
            SetupStage::UserProxies
        }
    }

    /// Stage in which the senders get their funds, from a chunk on.
    fn sender_stage(&self, chunk: usize) -> (stage: SetupStage)
        requires
            self.batch_size > 0,
        ensures
            stage == self.senders_from(chunk as int),
    {
        if chunk < count_chunks(self.senders.len(), self.batch_size) {
            SetupStage::SenderFunding { chunk }
        } else {
            self.user_stage(0)
        }
    }

    /// Stage that an event leads to; none where the event is not waited for.
    fn next_stage(&self, event: &SetupEvent) -> (stage: Option<SetupStage>)
        requires
            self.wf(),
        ensures
            stage == self.stage_after(*event),
    {
        match (self.stage, event) {
            (SetupStage::Start, SetupEvent::Begin) => Some(SetupStage::AdminBalance),
            (SetupStage::AdminBalance, SetupEvent::Balance(free)) => Some(
                if *free < admin_target_balance() {
                    SetupStage::AdminFunding
                } else {
                    SetupStage::MasterBalance
                },
            ),
            (SetupStage::AdminFunding, SetupEvent::Finalized) => Some(SetupStage::MasterBalance),
            (SetupStage::MasterBalance, SetupEvent::Balance(free)) => Some(
                if *free < master_target_balance(self.senders.len()) {
                    SetupStage::MasterFunding
                } else {
                    SetupStage::SenderProxies
                },
            ),
            (SetupStage::MasterFunding, SetupEvent::Finalized) => Some(SetupStage::SenderProxies),
            (SetupStage::SenderProxies, SetupEvent::Finalized) => Some(SetupStage::Collection),
            (SetupStage::Collection, SetupEvent::Created(_)) => Some(self.sender_stage(0)),
            (SetupStage::SenderFunding { chunk }, SetupEvent::Finalized) => {
                proof {
                    self.lemma_chunk_room();
                }
                Some(self.sender_stage(chunk + 1))
            },
            (SetupStage::UserFunding { chunk }, SetupEvent::Finalized) => {
                proof {
                    self.lemma_chunk_room();
                }
                Some(self.user_stage(chunk + 1))
            },
            (SetupStage::UserProxies, SetupEvent::Finalized) => Some(SetupStage::Ready),
            (SetupStage::Start, _) | (SetupStage::Ready, _) | (SetupStage::Failed, _) => None,
            (_, SetupEvent::Failed) => Some(SetupStage::Failed),
            _ => None,
        }
    }

    /// A chunk's number leaves room for the next.
    proof fn lemma_chunk_room(self)
        requires
            self.batch_size > 0,
        ensures
            self.sender_chunks() <= usize::MAX,
            self.user_chunks() <= usize::MAX,
    {
        let size = self.batch_size as int;
        assert(self.senders.len() == self.senders@.len());
        assert(self.users.len() == self.users@.len());
        if self.senders@.len() > 0 {
            crate::batch::lemma_chunk_count(self.senders@.len() as int, size);
        }
        if self.users@.len() > 0 {
            crate::batch::lemma_chunk_count(self.users@.len() as int, size);
        }
        assert((size - 1) / size == 0) by (nonlinear_arith)
            requires
                size > 0,
        ;
    }

    /// Whether the event is waited for, and what comes next can be done.
    pub fn accepts(&self, event: &SetupEvent) -> (accepted: bool)
        requires
            self.wf(),
        ensures
            accepted == self.can_take(*event),
    {
        match self.next_stage(event) {
            Some(SetupStage::SenderProxies) => self.batch_size > 0,
            Some(_) => true,
            None => false,
        }
    }

    /// Adds the transactions that let each chunk of the senders act for
    /// `delegator`.
    fn push_delegations(&self, delegator: &Keypair, transactions: &mut Vec<Transaction>)
        requires
            self.batch_size > 0,
        ensures
            final(transactions)@.len() == old(transactions)@.len() + self.sender_chunks(),
            final(transactions)@.take(old(transactions)@.len() as int) == old(transactions)@,
            self.delegations(
                final(transactions)@,
                old(transactions)@.len() as int,
                *delegator,
            ),
    {
        let count: usize = count_chunks(self.senders.len(), self.batch_size);
        let ghost before = transactions@;
        let mut chunk: usize = 0;
        while chunk < count
            invariant
                self.batch_size > 0,
                chunk <= count,
                count == self.sender_chunks(),
                transactions@.len() == before.len() + chunk,
                transactions@.take(before.len() as int) == before,
                forall|i: int|
                    0 <= i < chunk ==> crate::batch::delegates_to_chunk(
                        #[trigger] transactions@[before.len() + i],
                        *delegator,
                        self.senders@,
                        self.batch_size as int,
                        i,
                    ),
            decreases count - chunk,
        {
            let ghost earlier = transactions@;
            transactions.push(
                delegate_to_chunk(delegator, &self.senders, self.batch_size, chunk),
            );
            chunk = chunk + 1;
            assert(transactions@.take(before.len() as int) =~= earlier.take(before.len() as int));
            assert forall|i: int| 0 <= i < chunk implies crate::batch::delegates_to_chunk(
                #[trigger] transactions@[before.len() + i],
                *delegator,
                self.senders@,
                self.batch_size as int,
                i,
            ) by {
                if i < chunk - 1 {
                    assert(transactions@[before.len() + i] == earlier[before.len() + i]);
                }
            }
        }
    }

    /// Delegations of the master, of the pot and of the administrator to the
    /// senders.
    fn sender_proxies(&self) -> (transactions: Vec<Transaction>)
        requires
            self.batch_size > 0,
        ensures
            transactions@.len() == 3 * self.sender_chunks(),
            self.delegations(transactions@, 0, self.master),
            self.delegations(transactions@, self.sender_chunks(), self.pot),
            self.delegations(transactions@, 2 * self.sender_chunks(), self.collection_admin),
    {
        let mut transactions: Vec<Transaction> = Vec::new();
        self.push_delegations(&self.master, &mut transactions);
        let ghost first = transactions@;
        self.push_delegations(&self.pot, &mut transactions);
        let ghost second = transactions@;
        self.push_delegations(&self.collection_admin, &mut transactions);
        proof {
            let count = self.sender_chunks();
            assert forall|i: int| 0 <= i < count implies #[trigger] transactions@[0 + i]
                == first[i] by {
                assert(transactions@[i] == transactions@.take(second.len() as int)[i]);
                assert(second[i] == second.take(first.len() as int)[i]);
            }
            assert forall|i: int| 0 <= i < count implies crate::batch::delegates_to_chunk(
                #[trigger] transactions@[0 + i],
                self.master,
                self.senders@,
                self.batch_size as int,
                i,
            ) by {
                assert(transactions@[0 + i] == first[0 + i]);
            }
            assert forall|i: int| 0 <= i < count implies crate::batch::delegates_to_chunk(
                #[trigger] transactions@[count + i],
                self.pot,
                self.senders@,
                self.batch_size as int,
                i,
            ) by {
                assert(transactions@[count + i] == transactions@.take(second.len() as int)[count
                    + i]);
                assert(second[count + i] == second[first.len() + i]);
            }
        }
        transactions
    }

    /// Delegations of the users to the master.
    fn user_proxies(&self) -> (transactions: Vec<Transaction>)
        ensures
            transactions@.len() == self.users@.len(),
            forall|i: int|
                0 <= i < self.users@.len() ==> (#[trigger] transactions@[i]).signer
                    == self.users@[i] && transactions@[i].call == crate::calls::add_proxy(
                    self.master.account(),
                ),
    {
        let mut transactions: Vec<Transaction> = Vec::new();
        while transactions.len() < self.users.len()
            invariant
                transactions@.len() <= self.users@.len(),
                forall|i: int|
                    0 <= i < transactions@.len() ==> (#[trigger] transactions@[i]).signer
                        == self.users@[i] && transactions@[i].call == crate::calls::add_proxy(
                        self.master.account(),
                    ),
            decreases self.users@.len() - transactions@.len(),
        {
            let user = self.users[transactions.len()];
            transactions.push(delegate_to(&user, self.master.account_id()));
        }
        transactions
    }

    /// What to do at the stage.
    fn action(&self) -> (action: SetupAction)
        requires
            self.wf(),
            !(self.stage is Start),
        ensures
            self.calls_for(action),
    {
        match self.stage {
            SetupStage::AdminBalance => SetupAction::QueryBalance(
                self.collection_admin.account_id(),
            ),
            SetupStage::AdminFunding => SetupAction::Submit(
                fund(&self.pot, self.collection_admin.account_id(), admin_target_balance()),
            ),
            SetupStage::MasterBalance => SetupAction::QueryBalance(self.master.account_id()),
            SetupStage::MasterFunding => SetupAction::Submit(
                fund(
                    &self.pot,
                    self.master.account_id(),
                    master_target_balance(self.senders.len()),
                ),
            ),
            SetupStage::SenderProxies => SetupAction::SubmitAll {
                transactions: self.sender_proxies(),
                ordered: true,
            },
            SetupStage::Collection => SetupAction::CreateCollection(
                create_collection(&self.collection_admin),
            ),
            SetupStage::SenderFunding { chunk } => SetupAction::Submit(
                fund_chunk(
                    &self.pot,
                    &self.senders,
                    self.batch_size,
                    chunk,
                    sender_grant_amount(self.sender_funds),
                ),
            ),
            SetupStage::UserFunding { chunk } => SetupAction::Submit(
                fund_chunk(
                    &self.pot,
                    &self.users,
                    self.batch_size,
                    chunk,
                    user_grant_amount(self.user_funds),
                ),
            ),
            SetupStage::UserProxies => SetupAction::SubmitAll {
                transactions: self.user_proxies(),
                ordered: false,
            },
            SetupStage::Ready => SetupAction::Finish,
            SetupStage::Failed | SetupStage::Start => SetupAction::Abort,
        }
    }

    /// Takes an event and says what to do next.
    pub fn next(&mut self, event: SetupEvent) -> (action: SetupAction)
        requires
            old(self).wf(),
            old(self).can_take(event),
        ensures
            final(self).wf(),
            *final(self) == old(self).after(event),
            final(self).calls_for(action),
    {
        let stage = self.next_stage(&event);
        if let SetupEvent::Created(id) = event {
            self.collection_id = Some(id);
        }
        if let Some(stage) = stage {
            self.stage = stage;
        }
        self.action()
    }

    /// The accounts that the set-up has prepared.
    pub fn finish(self) -> (context: Option<LoadContext>)
        requires
            self.wf(),
        ensures
            context is Some == self.stage is Ready,
            context matches Some(context) ==> {
                &&& context.pot == self.pot
                &&& context.master == self.master
                &&& context.fee_signer == self.fee_signer
                &&& context.collection_admin == self.collection_admin
                &&& self.collection_id == Some(context.collection_id)
                &&& context.senders == self.senders
                &&& context.users == self.users
            },
    {
        match (self.stage, self.collection_id) {
            (SetupStage::Ready, Some(collection_id)) => Some(
                LoadContext {
                    pot: self.pot,
                    master: self.master,
                    fee_signer: self.fee_signer,
                    collection_admin: self.collection_admin,
                    collection_id,
                    senders: self.senders,
                    users: self.users,
                },
            ),
            _ => None,
        }
    }
}

/// The senders and the users are those that the seeds give, in their order.
pub open spec fn drawn_from(
    setup: Setup,
    sender_seeds: Seq<[u8; 64]>,
    user_seeds: Seq<[u8; 64]>,
) -> bool {
    crate::keys::are_of(setup.senders@, sender_seeds) && crate::keys::are_of(
        setup.users@,
        user_seeds,
    )
}

/// Some of the seeds give no key.
pub open spec fn some_underivable(
    sender_seeds: Seq<[u8; 64]>,
    user_seeds: Seq<[u8; 64]>,
) -> bool {
    !(crate::keys::all_derivable(sender_seeds) && crate::keys::all_derivable(user_seeds))
}

impl LoadContext {
    /// Begins the set-up that a configuration asks for: its keys are decoded, and
    /// random seeds are drawn for the senders and then for the users.
    pub fn setup(config: &Config) -> (result: Result<Setup, KeyError>)
        ensures
            result matches Ok(setup) ==> {
                &&& crate::keys::is_key(config.pot_pk@)
                &&& crate::keys::is_key(config.master_pk@)
                &&& crate::keys::is_key(config.fee_signer_pk@)
                &&& crate::keys::is_key(config.collection_admin_pk@)
                &&& setup.pot.secret() == crate::keys::secret_of_key(config.pot_pk@)
                &&& setup.master.secret() == crate::keys::secret_of_key(config.master_pk@)
                &&& setup.fee_signer.secret() == crate::keys::secret_of_key(config.fee_signer_pk@)
                &&& setup.collection_admin.secret() == crate::keys::secret_of_key(
                    config.collection_admin_pk@,
                )
                &&& exists|sender_seeds: Seq<[u8; 64]>, user_seeds: Seq<[u8; 64]>|
                    sender_seeds.len() == config.senders_count && user_seeds.len()
                        == config.users_count && #[trigger] drawn_from(
                        setup,
                        sender_seeds,
                        user_seeds,
                    )
                &&& setup.batch_size == config.batch_size
                &&& setup.sender_funds == config.sender_funds
                &&& setup.user_funds == config.user_funds
                &&& setup.stage is Start
                &&& setup.collection_id is None
                &&& setup.wf()
            },
            result matches Err(error) ==> if !crate::keys::is_key(config.pot_pk@) {
                crate::keys::key_error(config.pot_pk@, error)
            } else if !crate::keys::is_key(config.master_pk@) {
                crate::keys::key_error(config.master_pk@, error)
            } else if !crate::keys::is_key(config.fee_signer_pk@) {
                crate::keys::key_error(config.fee_signer_pk@, error)
            } else if !crate::keys::is_key(config.collection_admin_pk@) {
                crate::keys::key_error(config.collection_admin_pk@, error)
            } else {
                error is Seed && exists|sender_seeds: Seq<[u8; 64]>, user_seeds: Seq<[u8; 64]>|
                    sender_seeds.len() == config.senders_count && user_seeds.len()
                        == config.users_count && #[trigger] some_underivable(
                        sender_seeds,
                        user_seeds,
                    )
            },
    {
        let pot = decode_secret_key(config.pot_pk.as_str())?;
        let master = decode_secret_key(config.master_pk.as_str())?;
        let fee_signer = decode_secret_key(config.fee_signer_pk.as_str())?;
        let collection_admin = decode_secret_key(config.collection_admin_pk.as_str())?;
        let sender_seeds = random_seeds(config.senders_count);
        let user_seeds = random_seeds(config.users_count);
        let result = Setup::from_seeds(
            pot,
            master,
            fee_signer,
            collection_admin,
            &sender_seeds,
            &user_seeds,
            config.batch_size,
            config.sender_funds,
            config.user_funds,
        );
        assert(result is Ok ==> drawn_from(result->Ok_0, sender_seeds@, user_seeds@));
        assert(result is Err ==> some_underivable(sender_seeds@, user_seeds@));
        result
    }
}

/// The set-up after some events.
pub open spec fn run(setup: Setup, events: Seq<SetupEvent>) -> Setup
    decreases events.len(),
{
    if events.len() == 0 {
        setup
    } else {
        run(setup, events.drop_last()).after(events.last())
    }
}

/// Each of the events can be taken when it comes.
pub open spec fn all_taken(setup: Setup, events: Seq<SetupEvent>) -> bool
    decreases events.len(),
{
    events.len() > 0 ==> all_taken(setup, events.drop_last()) && run(
        setup,
        events.drop_last(),
    ).can_take(events.last())
}

/// The stage is one that every set-up goes through; the fundings of the
/// administrator and of the master depend on their balances.
pub open spec fn is_milestone(stage: SetupStage) -> bool {
    match stage {
        SetupStage::SenderProxies
        | SetupStage::Collection
        | SetupStage::SenderFunding { .. }
        | SetupStage::UserFunding { .. }
        | SetupStage::UserProxies => true,
        _ => false,
    }
}

/// The milestones whose work succeeded, in order.
pub open spec fn milestones(setup: Setup, events: Seq<SetupEvent>) -> Seq<SetupStage>
    decreases events.len(),
{
    if events.len() == 0 {
        Seq::empty()
    } else {
        let earlier = milestones(setup, events.drop_last());
        let stage = run(setup, events.drop_last()).stage;
        if is_milestone(stage) && !(events.last() is Failed) {
            earlier.push(stage)
        } else {
            earlier
        }
    }
}

/// The milestones of a whole set-up: the delegations to the senders, the
/// collection, the funding of each chunk of the senders and then of the users,
/// and the delegations of the users.
pub open spec fn script(setup: Setup) -> Seq<SetupStage> {
    seq![SetupStage::SenderProxies, SetupStage::Collection] + Seq::new(
        setup.sender_chunks() as nat,
        |i: int| SetupStage::SenderFunding { chunk: i as usize },
    ) + Seq::new(
        setup.user_chunks() as nat,
        |i: int| SetupStage::UserFunding { chunk: i as usize },
    ) + seq![SetupStage::UserProxies]
}

/// Number of milestones that lie behind a stage.
pub open spec fn position(setup: Setup) -> int {
    match setup.stage {
        SetupStage::Collection => 1,
        SetupStage::SenderFunding { chunk } => 2 + chunk,
        SetupStage::UserFunding { chunk } => 2 + setup.sender_chunks() + chunk,
        SetupStage::UserProxies => 2 + setup.sender_chunks() + setup.user_chunks(),
        SetupStage::Ready => 3 + setup.sender_chunks() + setup.user_chunks(),
        _ => 0,
    }
}

/// Largest number of events that can still be taken before the set-up is ready.
pub open spec fn remaining(setup: Setup) -> int {
    let rest = if setup.batch_size > 0 {
        3 + setup.sender_chunks() + setup.user_chunks() - position(setup)
    } else {
        0
    };
    match setup.stage {
        SetupStage::Start => rest + 5,
        SetupStage::AdminBalance => rest + 4,
        SetupStage::AdminFunding => rest + 3,
        SetupStage::MasterBalance => rest + 2,
        SetupStage::MasterFunding => rest + 1,
        SetupStage::Failed => 0,
        _ => rest,
    }
}

/// Lists have no negative number of chunks.
proof fn lemma_chunks_nonnegative(setup: Setup)
    requires
        setup.batch_size > 0,
    ensures
        0 <= setup.sender_chunks() <= usize::MAX,
        0 <= setup.user_chunks() <= usize::MAX,
{
    let size = setup.batch_size as int;
    setup.lemma_chunk_room();
    vstd::arithmetic::div_mod::lemma_div_pos_is_pos(setup.senders@.len() + size - 1, size);
    vstd::arithmetic::div_mod::lemma_div_pos_is_pos(setup.users@.len() + size - 1, size);
}

/// A set-up comes to an end: each event that it takes leaves fewer to come.
pub proof fn lemma_setup_progress(setup: Setup, event: SetupEvent)
    requires
        setup.wf(),
        setup.can_take(event),
    ensures
        setup.after(event).wf(),
        0 <= remaining(setup.after(event)) < remaining(setup),
{
    if setup.batch_size > 0 {
        lemma_chunks_nonnegative(setup);
    }
}

/// A failure ends the set-up, whatever it was doing, and nothing comes after it.
pub proof fn lemma_failure_is_final(setup: Setup, event: SetupEvent)
    ensures
        setup.can_take(SetupEvent::Failed) ==> setup.after(SetupEvent::Failed).stage is Failed,
        setup.stage is Failed ==> !setup.can_take(event),
{
}

/// A set-up that is ready has gone through the whole script, each milestone once
/// and in its order, whatever the balances were.
pub proof fn lemma_ready_means_script_done(setup: Setup, events: Seq<SetupEvent>)
    requires
        setup.wf(),
        setup.stage is Start,
        all_taken(setup, events),
        run(setup, events).stage is Ready,
    ensures
        milestones(setup, events) == script(setup),
{
    lemma_milestones(setup, events);
    let end = run(setup, events);
    lemma_chunks_nonnegative(end);
    assert(script(setup).take(script(setup).len() as int) =~= script(setup));
}

/// The milestones so far are the start of the script.
proof fn lemma_milestones(setup: Setup, events: Seq<SetupEvent>)
    requires
        setup.wf(),
        setup.stage is Start,
        all_taken(setup, events),
    ensures
        ({
            let now = run(setup, events);
            &&& now.wf()
            &&& now == (Setup { stage: now.stage, collection_id: now.collection_id, ..setup })
            &&& !(now.stage is Failed) ==> milestones(setup, events) == script(setup).take(
                position(now),
            )
        }),
    decreases events.len(),
{
    if events.len() == 0 {
        assert(script(setup).take(0) =~= Seq::<SetupStage>::empty());
    } else {
        let before = run(setup, events.drop_last());
        let event = events.last();
        let now = run(setup, events);
        lemma_milestones(setup, events.drop_last());
        assert(before.can_take(event));
        if !(now.stage is Failed) {
            if is_milestone(before.stage) {
                lemma_chunks_nonnegative(before);
                assert(script(setup)[position(before)] == before.stage);
                assert(position(now) == position(before) + 1);
                assert(script(setup).take(position(before)).push(before.stage) =~= script(
                    setup,
                ).take(position(now)));
            }
        }
    }
}

/// The senders that the given milestones fund, in order.
pub open spec fn funded_senders(setup: Setup, stages: Seq<SetupStage>) -> Seq<Keypair>
    decreases stages.len(),
{
    if stages.len() == 0 {
        Seq::empty()
    } else {
        funded_senders(setup, stages.drop_last()) + (match stages.last() {
            SetupStage::SenderFunding { chunk } => crate::batch::chunk(
                setup.senders@,
                setup.batch_size as int,
                chunk as int,
            ),
            _ => Seq::empty(),
        })
    }
}

/// The users that the given milestones fund, in order.
pub open spec fn funded_users(setup: Setup, stages: Seq<SetupStage>) -> Seq<Keypair>
    decreases stages.len(),
{
    if stages.len() == 0 {
        Seq::empty()
    } else {
        funded_users(setup, stages.drop_last()) + (match stages.last() {
            SetupStage::UserFunding { chunk } => crate::batch::chunk(
                setup.users@,
                setup.batch_size as int,
                chunk as int,
            ),
            _ => Seq::empty(),
        })
    }
}

/// Once a set-up is ready, each sender and each user has been funded, in the
/// order of the lists and exactly once.
pub proof fn lemma_everyone_funded_once(setup: Setup, events: Seq<SetupEvent>)
    requires
        setup.wf(),
        setup.stage is Start,
        all_taken(setup, events),
        run(setup, events).stage is Ready,
    ensures
        funded_senders(setup, milestones(setup, events)) == setup.senders@,
        funded_users(setup, milestones(setup, events)) == setup.users@,
{
    let size = setup.batch_size as int;
    lemma_ready_means_script_done(setup, events);
    lemma_milestones(setup, events);
    lemma_chunks_nonnegative(setup);
    lemma_funded(setup, script(setup).len() as int);
    assert(script(setup).take(script(setup).len() as int) =~= script(setup));
    crate::batch::lemma_chunks_are_the_list(setup.senders@, size);
    crate::batch::lemma_chunks_are_the_list(setup.users@, size);
}

/// How far `value` lies above `low`, but no more than `most`.
spec fn clamped(value: int, low: int, most: int) -> int {
    if value <= low {
        0
    } else if value - low <= most {
        value - low
    } else {
        most
    }
}

/// What the first milestones of the script fund.
proof fn lemma_funded(setup: Setup, count: int)
    requires
        setup.batch_size > 0,
        0 <= count <= script(setup).len(),
    ensures
        funded_senders(setup, script(setup).take(count)) == crate::batch::joined_chunks(
            setup.senders@,
            setup.batch_size as int,
            clamped(count, 2, setup.sender_chunks()),
        ),
        funded_users(setup, script(setup).take(count)) == crate::batch::joined_chunks(
            setup.users@,
            setup.batch_size as int,
            clamped(count, 2 + setup.sender_chunks(), setup.user_chunks()),
        ),
    decreases count,
{
    lemma_chunks_nonnegative(setup);
    if count > 0 {
        lemma_funded(setup, count - 1);
        let stages = script(setup).take(count);
        assert(stages.drop_last() =~= script(setup).take(count - 1));
        assert(stages.last() == script(setup)[count - 1]);
        let senders = funded_senders(setup, stages.drop_last());
        let users = funded_users(setup, stages.drop_last());
        assert(senders + Seq::<Keypair>::empty() =~= senders);
        assert(users + Seq::<Keypair>::empty() =~= users);
    }
}

/// `tx` lets `delegate` act for `delegator`, in a batch.
pub open spec fn lets_act(tx: Transaction, delegator: Keypair, delegate: AccountId20) -> bool {
    &&& tx.signer == delegator
    &&& tx.call matches crate::calls::Call::Utility(crate::calls::UtilityCall::BatchAll { calls })
    &&& calls@.contains(crate::calls::add_proxy(delegate))
}

/// Each chunk of delegations reaches every sender in it.
proof fn lemma_delegation_reaches(
    setup: Setup,
    transactions: Seq<Transaction>,
    from: int,
    delegator: Keypair,
    k: int,
)
    requires
        setup.batch_size > 0,
        0 <= k < setup.senders@.len(),
        0 <= from,
        from + setup.sender_chunks() <= transactions.len(),
        setup.delegations(transactions, from, delegator),
    ensures
        exists|j: int|
            0 <= j < transactions.len() && lets_act(
                #[trigger] transactions[j],
                delegator,
                setup.senders@[k].account(),
            ),
{
    let size = setup.batch_size as int;
    let len = setup.senders@.len() as int;
    let i = k / size;
    vstd::arithmetic::div_mod::lemma_fundamental_div_mod(k, size);
    crate::batch::lemma_chunk_count(len, size);
    vstd::arithmetic::div_mod::lemma_div_is_ordered(k, len - 1, size);
    vstd::arithmetic::div_mod::lemma_div_pos_is_pos(k, size);
    crate::batch::lemma_chunk_bounds(len, size, i);
    assert(i * size <= k < (i + 1) * size) by (nonlinear_arith)
        requires
            k == size * i + k % size,
            0 <= k % size < size,
    ;
    let tx = transactions[from + i];
    let accounts = crate::batch::chunk(setup.senders@, size, i);
    assert(crate::batch::delegates_to_chunk(tx, delegator, setup.senders@, size, i));
    let offset = k - crate::batch::chunk_start(size, i);
    assert(accounts[offset] == setup.senders@[k]);
    let calls = crate::batch::add_proxy_calls(accounts);
    assert(calls[offset] == crate::calls::add_proxy(setup.senders@[k].account()));
    assert(lets_act(tx, delegator, setup.senders@[k].account()));
}

/// The set-up lets every sender act for the master, for the pot and for the
/// administrator of the collection.
pub proof fn lemma_senders_may_act(setup: Setup, transactions: Vec<Transaction>, k: int)
    requires
        setup.wf(),
        setup.stage is SenderProxies,
        setup.calls_for(SetupAction::SubmitAll { transactions, ordered: true }),
        0 <= k < setup.senders@.len(),
    ensures
        exists|j: int|
            0 <= j < transactions@.len() && lets_act(
                #[trigger] transactions@[j],
                setup.master,
                setup.senders@[k].account(),
            ),
        exists|j: int|
            0 <= j < transactions@.len() && lets_act(
                #[trigger] transactions@[j],
                setup.pot,
                setup.senders@[k].account(),
            ),
        exists|j: int|
            0 <= j < transactions@.len() && lets_act(
                #[trigger] transactions@[j],
                setup.collection_admin,
                setup.senders@[k].account(),
            ),
{
    let count = setup.sender_chunks();
    lemma_chunks_nonnegative(setup);
    lemma_delegation_reaches(setup, transactions@, 0, setup.master, k);
    lemma_delegation_reaches(setup, transactions@, count, setup.pot, k);
    lemma_delegation_reaches(setup, transactions@, 2 * count, setup.collection_admin, k);
}

/// The senders come from the first draws and the users from those after them, one
/// draw for each account and no others.
pub proof fn lemma_draws_in_order(
    setup: Setup,
    sender_seeds: Seq<[u8; 64]>,
    user_seeds: Seq<[u8; 64]>,
    draws: Seq<[u8; 64]>,
)
    requires
        drawn_from(setup, sender_seeds, user_seeds),
        draws == sender_seeds + user_seeds,
    ensures
        draws.len() == setup.senders@.len() + setup.users@.len(),
        forall|i: int|
            0 <= i < setup.senders@.len() ==> Some((#[trigger] setup.senders@[i]).secret())
                == crate::keys::master_secret(draws[i]@),
        forall|j: int|
            0 <= j < setup.users@.len() ==> Some((#[trigger] setup.users@[j]).secret())
                == crate::keys::master_secret(draws[setup.senders@.len() + j]@),
{
}

/// The same draws give the same senders and users.
pub proof fn lemma_same_draws_same_accounts(
    a: Setup,
    b: Setup,
    sender_seeds: Seq<[u8; 64]>,
    user_seeds: Seq<[u8; 64]>,
)
    requires
        drawn_from(a, sender_seeds, user_seeds),
        drawn_from(b, sender_seeds, user_seeds),
    ensures
        a.senders@ == b.senders@,
        a.users@ == b.users@,
{
    assert forall|i: int| 0 <= i < a.senders@.len() implies a.senders@[i] == b.senders@[i] by {
        assert(Some(b.senders@[i].secret()) == Some(a.senders@[i].secret()));
        crate::keys::lemma_known_by_secret(a.senders@[i], b.senders@[i]);
    }
    assert forall|i: int| 0 <= i < a.users@.len() implies a.users@[i] == b.users@[i] by {
        assert(Some(b.users@[i].secret()) == Some(a.users@[i].secret()));
        crate::keys::lemma_known_by_secret(a.users@[i], b.users@[i]);
    }
    assert(a.senders@ =~= b.senders@);
    assert(a.users@ =~= b.users@);
}

/// A configuration with at least twice as many users as senders is enough for the
/// load test that its set-up leads to: after any events, in whatever order the
/// senders come, a sender that works for nobody finds two users free.
pub proof fn lemma_configured_load_goes_on(
    config: Config,
    setup: Setup,
    run: crate::load::LoadRun,
    steps: Seq<(int, crate::load::SenderEvent)>,
)
    requires
        config.users_count >= 2 * config.senders_count,
        setup.senders@.len() == config.senders_count,
        setup.users@.len() == config.users_count,
        run.wf(),
        run.senders == setup.senders,
        run.users == setup.users,
        forall|i: int| 0 <= i < run.states@.len() ==> (#[trigger] run.states@[i]) is Fresh,
        crate::load::all_awaited(run.users@, run.states@, steps),
    ensures
        ({
            let (free, now) = crate::load::after_steps(run.users@, run.states@, steps);
            forall|i: int|
                0 <= i < now.len() && (#[trigger] crate::load::pair(now[i])) is None ==> free.len()
                    >= 2
        }),
{
    crate::load::lemma_load_goes_on(run.users@, run.states@, steps);
}

/// The administrator is paid where its balance is below ten coins and only there, and
/// the master where its balance is below ten coins and a fifth of a coin for each
/// sender, and only there.
pub proof fn lemma_balance_checks(setup: Setup, free: u128)
    ensures
        setup.stage is AdminBalance ==> setup.after(SetupEvent::Balance(free)).stage == (if free
            < 10_000_000_000_000_000_000 {
            SetupStage::AdminFunding
        } else {
            SetupStage::MasterBalance
        }),
        setup.stage is MasterBalance ==> setup.after(SetupEvent::Balance(free)).stage == (if free
            < 10_000_000_000_000_000_000 + setup.senders@.len() * 200_000_000_000_000_000 {
            SetupStage::MasterFunding
        } else {
            SetupStage::SenderProxies
        }),
{
    crate::amounts::lemma_master_target_in_figures(setup.senders@.len() as int);
}

/// What a set-up waits for at each stage, and nothing else: to begin; a balance; that
/// what was submitted is finalized; the collection. While something is under way it
/// may also fail. Without a batch size it does not come as far as the delegations.
pub open spec fn waits_for(setup: Setup, event: SetupEvent) -> bool {
    match setup.stage {
        SetupStage::Start => event is Begin,
        SetupStage::AdminBalance => event is Balance || event is Failed,
        SetupStage::AdminFunding => event is Finalized || event is Failed,
        SetupStage::MasterBalance => event is Failed || (event matches SetupEvent::Balance(free)
            && (setup.batch_size > 0 || free < 10_000_000_000_000_000_000
            + setup.senders@.len() * 200_000_000_000_000_000)),
        SetupStage::MasterFunding => event is Failed || event is Finalized && setup.batch_size
            > 0,
        SetupStage::Collection => event is Created || event is Failed,
        SetupStage::SenderProxies
        | SetupStage::SenderFunding { .. }
        | SetupStage::UserFunding { .. }
        | SetupStage::UserProxies => event is Finalized || event is Failed,
        SetupStage::Ready | SetupStage::Failed => false,
    }
}

/// A set-up takes what it waits for at its stage, and says so.
pub proof fn lemma_turns(setup: Setup, event: SetupEvent, accepted: bool)
    requires
        setup.wf(),
        call_ensures(Setup::accepts, (&setup, &event), accepted),
    ensures
        setup.can_take(event) == waits_for(setup, event),
        accepted == waits_for(setup, event),
{
    crate::amounts::lemma_master_target_in_figures(setup.senders@.len() as int);
}

/// Chunk `c` is one of the chunks of a list where the list goes beyond its start.
proof fn lemma_chunk_exists(len: int, size: int, c: int)
    requires
        len >= 0,
        size > 0,
        c >= 0,
    ensures
        c < crate::batch::chunk_count(len, size) <==> c * size < len,
{
    let count = crate::batch::chunk_count(len, size);
    crate::batch::lemma_chunk_count_is_least(len, size);
    if c < count {
        assert(c * size <= (count - 1) * size) by (nonlinear_arith)
            requires
                c <= count - 1,
                size > 0,
        ;
    } else {
        assert(c * size >= count * size) by (nonlinear_arith)
            requires
                c >= count,
                size > 0,
        ;
        assert(c * size >= 0) by (nonlinear_arith)
            requires
                c >= 0,
                size > 0,
        ;
    }
}

/// Where the funding of the users goes on after `c` chunks.
pub open spec fn users_after_chunks(setup: Setup, c: int) -> SetupStage {
    if c * setup.batch_size < setup.users@.len() {
        SetupStage::UserFunding { chunk: c as usize }
    } else {
        SetupStage::UserProxies
    }
}

/// After the collection the senders are funded, chunk after chunk until the list
/// ends, then the users in the same way, and then the users make their delegations.
pub proof fn lemma_chunk_after_chunk(setup: Setup, id: IncrementableU256)
    requires
        setup.wf(),
    ensures
        setup.stage is SenderProxies ==> setup.after(SetupEvent::Finalized).stage is Collection,
        setup.stage is Collection ==> setup.after(SetupEvent::Created(id)).stage == (
        if setup.senders@.len() > 0 {
            SetupStage::SenderFunding { chunk: 0 }
        } else {
            users_after_chunks(setup, 0)
        }) && setup.after(SetupEvent::Created(id)).collection_id == Some(id),
        setup.stage matches SetupStage::SenderFunding { chunk } ==> setup.after(
            SetupEvent::Finalized,
        ).stage == (if (chunk + 1) * setup.batch_size < setup.senders@.len() {
            SetupStage::SenderFunding { chunk: (chunk + 1) as usize }
        } else {
            users_after_chunks(setup, 0)
        }),
        setup.stage matches SetupStage::UserFunding { chunk } ==> setup.after(
            SetupEvent::Finalized,
        ).stage == users_after_chunks(setup, chunk + 1),
        setup.stage is UserProxies ==> setup.after(SetupEvent::Finalized).stage is Ready,
        setup.stage is Start ==> setup.after(SetupEvent::Begin).stage is AdminBalance,
        setup.stage is AdminFunding ==> setup.after(SetupEvent::Finalized).stage is MasterBalance,
        setup.stage is MasterFunding ==> setup.after(SetupEvent::Finalized).stage is SenderProxies,
{
    if setup.batch_size > 0 {
        let size = setup.batch_size as int;
        let (senders, users) = (setup.senders@.len() as int, setup.users@.len() as int);
        lemma_chunk_exists(senders, size, 0);
        lemma_chunk_exists(users, size, 0);
        match setup.stage {
            SetupStage::SenderFunding { chunk } => {
                lemma_chunk_exists(senders, size, chunk + 1);
            },
            SetupStage::UserFunding { chunk } => {
                lemma_chunk_exists(users, size, chunk + 1);
            },
            _ => {},
        }
    }
}

/// An event changes nothing but the stage, and the collection where it is created.
pub proof fn lemma_rest_is_kept(setup: Setup, event: SetupEvent)
    ensures
        setup.after(event).pot == setup.pot,
        setup.after(event).master == setup.master,
        setup.after(event).fee_signer == setup.fee_signer,
        setup.after(event).collection_admin == setup.collection_admin,
        setup.after(event).senders == setup.senders,
        setup.after(event).users == setup.users,
        setup.after(event).batch_size == setup.batch_size,
        setup.after(event).sender_funds == setup.sender_funds,
        setup.after(event).user_funds == setup.user_funds,
        !(event is Created) ==> setup.after(event).collection_id == setup.collection_id,
        event matches SetupEvent::Created(id) ==> setup.after(event).collection_id == Some(id),
{
}

/// What is under way at each stage: balances are asked for, one transaction is
/// submitted, or many; the delegations to the senders are looked at in order, those
/// of the users as they come, a thousand of them at a time.
pub proof fn lemma_ways_of_submitting(setup: Setup, action: SetupAction)
    requires
        setup.calls_for(action),
    ensures
        CONCURRENCY == 1000,
        setup.stage is AdminBalance || setup.stage is MasterBalance <==> action is QueryBalance,
        setup.stage is Collection <==> action is CreateCollection,
        setup.stage is SenderProxies <==> (action matches SetupAction::SubmitAll {
            transactions: _,
            ordered,
        } && ordered),
        setup.stage is UserProxies <==> (action matches SetupAction::SubmitAll {
            transactions: _,
            ordered,
        } && !ordered),
        setup.stage is Ready <==> action is Finish,
        setup.stage is Failed <==> action is Abort,
{
}

/// The accounts come out of a set-up as they went in, once it is ready and only then.
pub proof fn lemma_accounts_pass_through(
    pot: Keypair,
    master: Keypair,
    fee_signer: Keypair,
    collection_admin: Keypair,
    senders: Vec<Keypair>,
    users: Vec<Keypair>,
    batch_size: usize,
    sender_funds: u64,
    user_funds: u64,
    begun: Setup,
    events: Seq<SetupEvent>,
    context: Option<LoadContext>,
)
    requires
        call_ensures(
            Setup::new,
            (
                pot,
                master,
                fee_signer,
                collection_admin,
                senders,
                users,
                batch_size,
                sender_funds,
                user_funds,
            ),
            begun,
        ),
        all_taken(begun, events),
        call_ensures(Setup::finish, (run(begun, events),), context),
    ensures
        begun.stage is Start && begun.collection_id is None && begun.wf(),
        begun.batch_size == batch_size,
        begun.sender_funds == sender_funds,
        begun.user_funds == user_funds,
        context is Some == run(begun, events).stage is Ready,
        context matches Some(context) ==> {
            &&& context.pot == pot
            &&& context.master == master
            &&& context.fee_signer == fee_signer
            &&& context.collection_admin == collection_admin
            &&& context.senders@ == senders@
            &&& context.users@ == users@
            &&& run(begun, events).collection_id == Some(context.collection_id)
        },
{
    lemma_milestones(begun, events);
}

/// A set-up from seeds has, at each place, the account of the seed at that place, and
/// everything else as given; it fails only for seeds that give no key.
pub proof fn lemma_from_seeds(
    pot: Keypair,
    master: Keypair,
    fee_signer: Keypair,
    collection_admin: Keypair,
    sender_seeds: Vec<[u8; 64]>,
    user_seeds: Vec<[u8; 64]>,
    batch_size: usize,
    sender_funds: u64,
    user_funds: u64,
    result: Result<Setup, KeyError>,
)
    requires
        call_ensures(
            Setup::from_seeds,
            (
                pot,
                master,
                fee_signer,
                collection_admin,
                &sender_seeds,
                &user_seeds,
                batch_size,
                sender_funds,
                user_funds,
            ),
            result,
        ),
    ensures
        match result {
            Ok(setup) => {
                &&& setup.pot == pot
                &&& setup.master == master
                &&& setup.fee_signer == fee_signer
                &&& setup.collection_admin == collection_admin
                &&& setup.batch_size == batch_size
                &&& setup.sender_funds == sender_funds
                &&& setup.user_funds == user_funds
                &&& setup.senders@.len() == sender_seeds@.len()
                &&& setup.users@.len() == user_seeds@.len()
                &&& forall|i: int|
                    0 <= i < sender_seeds@.len() ==> crate::keys::master_secret(
                        (#[trigger] sender_seeds@[i])@,
                    ) == Some(setup.senders@[i].secret())
                &&& forall|i: int|
                    0 <= i < user_seeds@.len() ==> crate::keys::master_secret(
                        (#[trigger] user_seeds@[i])@,
                    ) == Some(setup.users@[i].secret())
            },
            Err(_) => exists|seed: [u8; 64]|
                (sender_seeds@.contains(seed) || user_seeds@.contains(seed))
                    && crate::keys::master_secret(#[trigger] seed@) is None,
        },
{
    match result {
        Ok(setup) => {
            assert forall|i: int| 0 <= i < sender_seeds@.len() implies crate::keys::master_secret(
                (#[trigger] sender_seeds@[i])@,
            ) == Some(setup.senders@[i].secret()) by {
                assert(Some(setup.senders@[i].secret()) == crate::keys::master_secret(
                    sender_seeds@[i]@,
                ));
            }
            assert forall|i: int| 0 <= i < user_seeds@.len() implies crate::keys::master_secret(
                (#[trigger] user_seeds@[i])@,
            ) == Some(setup.users@[i].secret()) by {
                assert(Some(setup.users@[i].secret()) == crate::keys::master_secret(
                    user_seeds@[i]@,
                ));
            }
        },
        Err(_) => {
            if !crate::keys::all_derivable(sender_seeds@) {
                let i = choose|i: int|
                    0 <= i < sender_seeds@.len() && crate::keys::master_secret(
                        (#[trigger] sender_seeds@[i])@,
                    ) is None;
                assert(sender_seeds@.contains(sender_seeds@[i]));
            } else {
                let i = choose|i: int|
                    0 <= i < user_seeds@.len() && crate::keys::master_secret(
                        (#[trigger] user_seeds@[i])@,
                    ) is None;
                assert(user_seeds@.contains(user_seeds@[i]));
            }
        },
    }
}

/// A set-up that a configuration begins has the key that stands in the configuration
/// for each of its four accounts, and as many senders and users, the batch size and
/// the funds that it asks for. The first of the four keys that is none is reported.
pub proof fn lemma_configured_set_up(
    config: Config,
    result: Result<Setup, KeyError>,
    pot: Result<Keypair, KeyError>,
    master: Result<Keypair, KeyError>,
    fee_signer: Result<Keypair, KeyError>,
    collection_admin: Result<Keypair, KeyError>,
    pot_pk: &str,
    master_pk: &str,
    fee_signer_pk: &str,
    collection_admin_pk: &str,
)
    requires
        call_ensures(LoadContext::setup, (&config,), result),
        call_ensures(decode_secret_key, (pot_pk,), pot),
        call_ensures(decode_secret_key, (master_pk,), master),
        call_ensures(decode_secret_key, (fee_signer_pk,), fee_signer),
        call_ensures(decode_secret_key, (collection_admin_pk,), collection_admin),
        pot_pk@ == config.pot_pk@,
        master_pk@ == config.master_pk@,
        fee_signer_pk@ == config.fee_signer_pk@,
        collection_admin_pk@ == config.collection_admin_pk@,
    ensures
        match result {
            Ok(setup) => {
                &&& pot == Ok::<Keypair, KeyError>(setup.pot)
                &&& master == Ok::<Keypair, KeyError>(setup.master)
                &&& fee_signer == Ok::<Keypair, KeyError>(setup.fee_signer)
                &&& collection_admin == Ok::<Keypair, KeyError>(setup.collection_admin)
                &&& setup.senders@.len() == config.senders_count
                &&& setup.users@.len() == config.users_count
                &&& setup.batch_size == config.batch_size
                &&& setup.sender_funds == config.sender_funds
                &&& setup.user_funds == config.user_funds
                &&& setup.stage is Start && setup.collection_id is None
            },
            Err(error) => if pot is Err {
                crate::keys::key_error(config.pot_pk@, error)
            } else if master is Err {
                crate::keys::key_error(config.master_pk@, error)
            } else if fee_signer is Err {
                crate::keys::key_error(config.fee_signer_pk@, error)
            } else if collection_admin is Err {
                crate::keys::key_error(config.collection_admin_pk@, error)
            } else {
                error is Seed && config.senders_count + config.users_count > 0
            },
        },
{
    match result {
        Ok(setup) => {
            crate::keys::lemma_known_by_secret(pot->Ok_0, setup.pot);
            crate::keys::lemma_known_by_secret(master->Ok_0, setup.master);
            crate::keys::lemma_known_by_secret(fee_signer->Ok_0, setup.fee_signer);
            crate::keys::lemma_known_by_secret(collection_admin->Ok_0, setup.collection_admin);
        },
        Err(_) => {},
    }
}

/// What a set-up submits at each stage: the pot pays the administrator ten coins, the
/// master what it should have, and each account of a chunk what is configured for it;
/// the administrator creates its collection; and every user lets the master act for
/// it.
pub proof fn lemma_what_a_set_up_submits(setup: Setup, action: SetupAction)
    requires
        setup.wf(),
        setup.calls_for(action),
    ensures
        setup.stage is AdminBalance ==> action == SetupAction::QueryBalance(
            setup.collection_admin.account(),
        ),
        setup.stage is MasterBalance ==> action == SetupAction::QueryBalance(
            setup.master.account(),
        ),
        setup.stage is AdminFunding ==> (action matches SetupAction::Submit(tx) && tx.signer
            == setup.pot && (tx.call matches crate::calls::Call::Balances(
            crate::calls::BalancesCall::TransferKeepAlive { dest, value },
        ) && dest == setup.collection_admin.account() && value == 10_000_000_000_000_000_000)),
        setup.stage is MasterFunding ==> (action matches SetupAction::Submit(tx) && tx.signer
            == setup.pot && (tx.call matches crate::calls::Call::Balances(
            crate::calls::BalancesCall::TransferKeepAlive { dest, value },
        ) && dest == setup.master.account() && value == 10_000_000_000_000_000_000
            + setup.senders@.len() * 200_000_000_000_000_000)),
        setup.stage matches SetupStage::SenderFunding { chunk } ==> (
        action matches SetupAction::Submit(tx) && tx.signer == setup.pot && (
        tx.call matches crate::calls::Call::Utility(
            crate::calls::UtilityCall::BatchAll { calls },
        ) && forall|j: int|
            0 <= j < setup.batch_size && chunk * setup.batch_size + j < setup.senders@.len()
                ==> j < calls@.len() && (#[trigger] calls@[j] matches crate::calls::Call::Balances(
                crate::calls::BalancesCall::TransferKeepAlive { dest, value },
            ) && dest == setup.senders@[chunk * setup.batch_size + j].account() && value
                == setup.sender_funds * 1_000_000_000_000_000_000))),
        setup.stage matches SetupStage::UserFunding { chunk } ==> (
        action matches SetupAction::Submit(tx) && tx.signer == setup.pot && (
        tx.call matches crate::calls::Call::Utility(
            crate::calls::UtilityCall::BatchAll { calls },
        ) && forall|j: int|
            0 <= j < setup.batch_size && chunk * setup.batch_size + j < setup.users@.len()
                ==> j < calls@.len() && (#[trigger] calls@[j] matches crate::calls::Call::Balances(
                crate::calls::BalancesCall::TransferKeepAlive { dest, value },
            ) && dest == setup.users@[chunk * setup.batch_size + j].account() && value
                == setup.user_funds * 1_000_000_000_000_000_000 + 210_000_000_000_000_000))),
        setup.stage is UserProxies ==> (action matches SetupAction::SubmitAll {
            transactions,
            ordered: _,
        } && transactions@.len() == setup.users@.len() && forall|i: int|
            0 <= i < setup.users@.len() ==> (#[trigger] transactions@[i]).signer
                == setup.users@[i] && (transactions@[i].call matches crate::calls::Call::MythProxy(
                crate::calls::MythProxyCall::AddProxy { delegate, proxy_type, sponsor },
            ) && delegate == setup.master.account() && proxy_type is Any && sponsor is None)),
{
    crate::amounts::lemma_amounts_in_figures(setup.sender_funds as int);
    crate::amounts::lemma_amounts_in_figures(setup.user_funds as int);
    match (setup.stage, action) {
        (SetupStage::MasterFunding, _) => {
            assert(setup.senders.len() == setup.senders@.len());
            crate::amounts::lemma_master_target_in_figures(setup.senders@.len() as int);
        },
        (SetupStage::SenderFunding { chunk }, SetupAction::Submit(tx)) => {
            crate::batch::lemma_each_of_chunk_is_paid(
                tx,
                setup.pot,
                setup.senders@,
                setup.batch_size as int,
                chunk as int,
                crate::amounts::sender_grant(setup.sender_funds as int) as u128,
            );
        },
        (SetupStage::UserFunding { chunk }, SetupAction::Submit(tx)) => {
            crate::batch::lemma_each_of_chunk_is_paid(
                tx,
                setup.pot,
                setup.users@,
                setup.batch_size as int,
                chunk as int,
                crate::amounts::user_grant(setup.user_funds as int) as u128,
            );
        },
        _ => {},
    }
}

} // verus!
