//! The load test: senders mint, transfer, trade and burn items for pairs of users.
use vstd::prelude::*;

use vstd::multiset::Multiset;

use crate::amounts::COIN;
use crate::amounts::trade_price_amount;
use crate::calls::Transaction;
use crate::calls::burn;
use crate::calls::mint;
use crate::calls::transfer;
use crate::config::Config;
use crate::keys::Keypair;
use crate::substrate::AccountId20;
use crate::substrate::IncrementableU256;
use crate::trade::ORDER_LIFETIME;
use crate::trade::TradeLeg;
use crate::trade::trade;

verus! {

/// How long a sender sleeps after a failure, in seconds.
pub const PAUSE_SECONDS: u64 = 50;

/// Accounts that are ready for the load test.
pub struct LoadContext {
    pub pot: Keypair,
    pub master: Keypair,
    pub fee_signer: Keypair,
    pub collection_admin: Keypair,
    pub collection_id: IncrementableU256,
    pub senders: Vec<Keypair>,
    pub users: Vec<Keypair>,
}

/// What a sender waits for. The pair of users that it works for is `alice` and
/// `bob`; `item` is the item that it has minted for them.
#[derive(Clone, Copy)]
pub enum SenderState {
    /// To begin.
    Fresh,
    /// Its own balance.
    Checking,
    /// The item, which is minted to `alice`.
    Minting { alice: Keypair, bob: Keypair },
    /// The transfer of the item from `alice` to `bob`.
    Transferring { alice: Keypair, bob: Keypair, item: u128 },
    /// A leg of the trade in which `alice` buys the item from `bob`.
    Trading { alice: Keypair, bob: Keypair, item: u128, leg: TradeLeg },
    /// The destruction of the item, which `alice` owns.
    Burning { alice: Keypair, bob: Keypair, item: u128 },
    /// The end of its pause after a failure.
    Pausing,
    /// Nothing: it ran out of funds.
    Stopped,
}

/// What happened to a sender.
#[derive(Clone, Copy)]
pub enum SenderEvent {
    /// It begins.
    Begin,
    /// Its free balance.
    Balance(u128),
    /// The item that it minted is finalized, under this number.
    Minted(u128),
    /// What it submitted is finalized and successful.
    Finalized,
    /// What it submitted failed.
    Failed,
    /// Its pause is over.
    Awake,
}

/// What a sender does next.
pub enum SenderAction {
    /// Ask for the free balance of an account.
    QueryBalance(AccountId20),
    /// Submit a mint and wait until it is finalized.
    Mint(Transaction),
    /// Submit a transaction and wait until it is finalized.
    Submit(Transaction),
    /// Sleep for a number of seconds.
    Sleep(u64),
    /// Stop for good.
    Stop,
}

/// A load test under way.
pub struct LoadRun {
    pub master: Keypair,
    pub fee_signer: Keypair,
    pub collection_admin: Keypair,
    pub collection_id: IncrementableU256,
    /// Price of each trade.
    pub price: u128,
    pub senders: Vec<Keypair>,
    /// State of each sender.
    pub states: Vec<SenderState>,
    /// Users that no sender works for.
    pub users: Vec<Keypair>,
}

/// The users that a sender works for.
pub open spec fn pair(state: SenderState) -> Option<(Keypair, Keypair)> {
    match state {
        SenderState::Minting { alice, bob } => Some((alice, bob)),
        SenderState::Transferring { alice, bob, item: _ } => Some((alice, bob)),
        SenderState::Trading { alice, bob, item: _, leg: _ } => Some((alice, bob)),
        SenderState::Burning { alice, bob, item: _ } => Some((alice, bob)),
        _ => None,
    }
}

/// State that an event leads to, with the users that are free; none where the
/// event is not waited for.
pub open spec fn state_after(
    state: SenderState,
    event: SenderEvent,
    users: Seq<Keypair>,
) -> Option<SenderState> {
    match (state, event) {
        (SenderState::Fresh, SenderEvent::Begin) => Some(SenderState::Checking),
        (SenderState::Checking, SenderEvent::Balance(free)) => Some(
            if free < crate::amounts::sender_minimum() {
                SenderState::Stopped
            } else {
                SenderState::Minting {
                    alice: users[users.len() - 1],
                    bob: users[users.len() - 2],
                }
            },
        ),
        (SenderState::Minting { alice, bob }, SenderEvent::Minted(item)) => Some(
            SenderState::Transferring { alice, bob, item },
        ),
        (SenderState::Transferring { alice, bob, item }, SenderEvent::Finalized) => Some(
            SenderState::Trading { alice, bob, item, leg: TradeLeg::FundBuyer },
        ),
        (SenderState::Trading { alice, bob, item, leg }, SenderEvent::Finalized) => Some(
            match crate::trade::leg_after(leg) {
                Some(leg) => SenderState::Trading { alice, bob, item, leg },
                None => SenderState::Burning { alice, bob, item },
            },
        ),
        (SenderState::Burning { alice: _, bob: _, item: _ }, SenderEvent::Finalized) => Some(
            SenderState::Checking,
        ),
        (SenderState::Pausing, SenderEvent::Awake) => Some(SenderState::Checking),
        (_, SenderEvent::Failed) => if pair(state) is Some {
            Some(SenderState::Pausing)
        } else {
            None
        },
        _ => None,
    }
}

/// The free users after a sender goes from one state to another: it takes the last
/// two where it begins to work for a pair, and gives them back where it ends.
pub open spec fn users_after(
    from: SenderState,
    to: SenderState,
    users: Seq<Keypair>,
) -> Seq<Keypair> {
    match (pair(from), pair(to)) {
        (None, Some(_)) => users.take(users.len() - 2),
        (Some((alice, bob)), None) => users.push(alice).push(bob),
        _ => users,
    }
}

/// The users that a sender works for, as a multiset.
pub open spec fn hand(state: SenderState) -> Multiset<Keypair> {
    match pair(state) {
        Some((alice, bob)) => Multiset::singleton(alice).insert(bob),
        None => Multiset::empty(),
    }
}

/// The users that any of the senders works for.
pub open spec fn hands(states: Seq<SenderState>) -> Multiset<Keypair>
    decreases states.len(),
{
    if states.len() == 0 {
        Multiset::empty()
    } else {
        hands(states.drop_last()).add(hand(states.last()))
    }
}

/// Sender number `i` took an event, at the time `now`, and does `action` next.
pub open spec fn stepped(
    before: LoadRun,
    i: int,
    event: SenderEvent,
    now: u64,
    action: SenderAction,
    after: LoadRun,
) -> bool {
    let from = before.states@[i];
    let to = state_after(from, event, before.users@)->0;
    &&& after.states@ == before.states@.update(i, to)
    &&& after.users@ == users_after(from, to, before.users@)
    &&& after.master == before.master
    &&& after.fee_signer == before.fee_signer
    &&& after.collection_admin == before.collection_admin
    &&& after.collection_id == before.collection_id
    &&& after.price == before.price
    &&& after.senders == before.senders
    &&& after.calls_for(i, action, now)
}

impl LoadRun {
    /// What every step keeps: each sender has a state, and a buyer can be given
    /// the price and the fee.
    pub open spec fn wf(self) -> bool {
        &&& self.states@.len() == self.senders@.len()
        &&& self.price + COIN <= u128::MAX
    }

    /// All users, the free ones and those that senders work for.
    pub open spec fn population(self) -> Multiset<Keypair> {
        self.users@.to_multiset().add(hands(self.states@))
    }

    /// Sender number `i` waits for the event, and what it does next can be done:
    /// two users are free where it begins to work for a pair, and an order's
    /// expiry can be written down.
    pub open spec fn can_take(self, i: int, event: SenderEvent, now: u64) -> bool {
        &&& 0 <= i < self.states@.len()
        &&& state_after(self.states@[i], event, self.users@) matches Some(next)
        &&& pair(self.states@[i]) is None && pair(next) is Some ==> self.users@.len() >= 2
        &&& next matches SenderState::Trading { alice: _, bob: _, item: _, leg } ==> (leg is Ask
            || leg is Bid) ==> now + ORDER_LIFETIME <= u64::MAX
    }

    /// `action` is what sender number `i` does in its state, at the time `now`.
    pub open spec fn calls_for(self, i: int, action: SenderAction, now: u64) -> bool {
        let sender = self.senders@[i];
        match self.states@[i] {
            SenderState::Fresh => false,
            SenderState::Checking => action == SenderAction::QueryBalance(sender.account()),
            SenderState::Minting { alice, bob: _ } => {
                &&& action matches SenderAction::Mint(tx)
                &&& tx.signer == sender
                &&& tx.call == crate::calls::mint_call(
                    self.collection_id,
                    self.collection_admin.account(),
                    alice.account(),
                )
            },
            SenderState::Transferring { alice, bob, item } => {
                &&& action matches SenderAction::Submit(tx)
                &&& tx.signer == sender
                &&& tx.call == crate::calls::transfer_call(
                    self.master.account(),
                    self.collection_id,
                    item,
                    alice.account(),
                    bob.account(),
                )
            },
            SenderState::Trading { alice, bob, item, leg } => {
                &&& action matches SenderAction::Submit(tx)
                &&& crate::trade::is_trade_leg(
                    tx,
                    leg,
                    sender,
                    self.master.account(),
                    self.collection_id,
                    bob,
                    alice,
                    self.fee_signer,
                    item,
                    self.price,
                    now,
                )
            },
            SenderState::Burning { alice, bob: _, item } => {
                &&& action matches SenderAction::Submit(tx)
                &&& tx.signer == sender
                &&& tx.call == crate::calls::burn_call(
                    self.master.account(),
                    self.collection_id,
                    alice.account(),
                    item,
                )
            },
            SenderState::Pausing => action == SenderAction::Sleep(PAUSE_SECONDS),
            SenderState::Stopped => action is Stop,
        }
    }

    /// Whether sender number `i` waits for the event, and what it does next can be
    /// done at the time `now`.
    pub fn accepts(&self, i: usize, event: SenderEvent, now: u64) -> (accepted: bool)
        requires
            self.wf(),
        ensures
            accepted == self.can_take(i as int, event, now),
    {
        if i >= self.states.len() {
            return false;
        }
        match (self.states[i], event) {
            (SenderState::Fresh, SenderEvent::Begin) => true,
            (SenderState::Checking, SenderEvent::Balance(free)) => free < 5 * COIN
                || self.users.len() >= 2,
            (SenderState::Minting { .. }, SenderEvent::Minted(_)) => true,
            (SenderState::Transferring { .. }, SenderEvent::Finalized) => true,
            (SenderState::Trading { leg, .. }, SenderEvent::Finalized) => match leg {
                TradeLeg::FundBuyer | TradeLeg::Ask => now <= u64::MAX - ORDER_LIFETIME,
                TradeLeg::Bid | TradeLeg::Sweep => true,
            },
            (SenderState::Burning { .. }, SenderEvent::Finalized) => true,
            (SenderState::Pausing, SenderEvent::Awake) => true,
            (SenderState::Minting { .. }, SenderEvent::Failed)
            | (SenderState::Transferring { .. }, SenderEvent::Failed)
            | (SenderState::Trading { .. }, SenderEvent::Failed)
            | (SenderState::Burning { .. }, SenderEvent::Failed) => true,
            _ => false,
        }
    }

    /// Whether an event makes sender number `i` create an order, which needs the time.
    pub fn needs_time(&self, i: usize, event: SenderEvent) -> (needed: bool)
        requires
            self.wf(),
        ensures
            needed == (i < self.states@.len() && (state_after(
                self.states@[i as int],
                event,
                self.users@,
            ) matches Some(SenderState::Trading { alice: _, bob: _, item: _, leg }) && (leg is Ask
                || leg is Bid))),
    {
        if i >= self.states.len() {
            return false;
        }
        match (self.states[i], event) {
            (SenderState::Trading { leg, .. }, SenderEvent::Finalized) => match leg {
                TradeLeg::FundBuyer | TradeLeg::Ask => true,
                TradeLeg::Bid | TradeLeg::Sweep => false,
            },
            _ => false,
        }
    }

    /// State that an event leads to, and the free users taken or given back.
    fn advance(&mut self, i: usize, event: SenderEvent)
        requires
            old(self).wf(),
            i < old(self).states@.len(),
            state_after(old(self).states@[i as int], event, old(self).users@) is Some,
            pair(old(self).states@[i as int]) is None && pair(
                state_after(old(self).states@[i as int], event, old(self).users@)->0,
            ) is Some ==> old(self).users@.len() >= 2,
        ensures
            ({
                let from = old(self).states@[i as int];
                let to = state_after(from, event, old(self).users@)->0;
                &&& final(self).states@ == old(self).states@.update(i as int, to)
                &&& final(self).users@ == users_after(from, to, old(self).users@)
            }),
            final(self).master == old(self).master,
            final(self).fee_signer == old(self).fee_signer,
            final(self).collection_admin == old(self).collection_admin,
            final(self).collection_id == old(self).collection_id,
            final(self).price == old(self).price,
            final(self).senders == old(self).senders,
    {
        let ghost free = self.users@;
        let state = self.states[i];
        match (state, event) {
            (SenderState::Fresh, SenderEvent::Begin) => {
                self.states.set(i, SenderState::Checking);
            },
            (SenderState::Checking, SenderEvent::Balance(balance)) => {
                if balance < 5 * COIN {
                    self.states.set(i, SenderState::Stopped);
                } else {
                    let alice = self.users.pop();
                    let bob = self.users.pop();
                    if let (Some(alice), Some(bob)) = (alice, bob) {
                        self.states.set(i, SenderState::Minting { alice, bob });
                    }
                    assert(self.users@ =~= free.take(free.len() - 2));
                }
            },
            (SenderState::Minting { alice, bob }, SenderEvent::Minted(item)) => {
                self.states.set(i, SenderState::Transferring { alice, bob, item });
            },
            (SenderState::Transferring { alice, bob, item }, SenderEvent::Finalized) => {
                self.states.set(
                    i,
                    SenderState::Trading { alice, bob, item, leg: TradeLeg::FundBuyer },
                );
            },
            (SenderState::Trading { alice, bob, item, leg }, SenderEvent::Finalized) => {
                match leg.next() {
                    Some(leg) => {
                        self.states.set(i, SenderState::Trading { alice, bob, item, leg });
                    },
                    None => {
                        self.states.set(i, SenderState::Burning { alice, bob, item });
                    },
                }
            },
            (SenderState::Burning { alice, bob, .. }, SenderEvent::Finalized) => {
                self.users.push(alice);
                self.users.push(bob);
                self.states.set(i, SenderState::Checking);
            },
            (SenderState::Pausing, SenderEvent::Awake) => {
                self.states.set(i, SenderState::Checking);
            },
            (SenderState::Minting { alice, bob }, SenderEvent::Failed)
            | (SenderState::Transferring { alice, bob, .. }, SenderEvent::Failed)
            | (SenderState::Trading { alice, bob, .. }, SenderEvent::Failed)
            | (SenderState::Burning { alice, bob, .. }, SenderEvent::Failed) => {
                self.users.push(alice);
                self.users.push(bob);
                self.states.set(i, SenderState::Pausing);
            },
            _ => {},
        }
    }

    /// What sender number `i` does in its state, at the time `now`.
    fn action(&self, i: usize, now: u64) -> (action: SenderAction)
        requires
            self.wf(),
            i < self.states@.len(),
            !(self.states@[i as int] is Fresh),
            self.states@[i as int] matches SenderState::Trading { alice: _, bob: _, item: _, leg }
                ==> (leg is Ask || leg is Bid) ==> now + ORDER_LIFETIME <= u64::MAX,
        ensures
            self.calls_for(i as int, action, now),
    {
        let sender = self.senders[i];
        let master = self.master.account_id();
        match self.states[i] {
            SenderState::Checking => SenderAction::QueryBalance(sender.account_id()),
            SenderState::Minting { alice, bob: _ } => SenderAction::Mint(
                mint(
                    &sender,
                    self.collection_id,
                    self.collection_admin.account_id(),
                    alice.account_id(),
                ),
            ),
            SenderState::Transferring { alice, bob, item } => SenderAction::Submit(
                transfer(
                    &sender,
                    master,
                    self.collection_id,
                    item,
                    alice.account_id(),
                    bob.account_id(),
                ),
            ),
            SenderState::Trading { alice, bob, item, leg } => SenderAction::Submit(
                trade(
                    leg,
                    &sender,
                    master,
                    self.collection_id,
                    &bob,
                    &alice,
                    &self.fee_signer,
                    item,
                    self.price,
                    now,
                ),
            ),
            SenderState::Burning { alice, bob: _, item } => SenderAction::Submit(
                burn(&sender, master, self.collection_id, alice.account_id(), item),
            ),
            SenderState::Pausing => SenderAction::Sleep(PAUSE_SECONDS),
            SenderState::Stopped | SenderState::Fresh => SenderAction::Stop,
        }
    }

    /// Takes an event of sender number `i`, at the time `now`, and says what the
    /// sender does next.
    pub fn step(&mut self, i: usize, event: SenderEvent, now: u64) -> (action: SenderAction)
        requires
            old(self).wf(),
            old(self).can_take(i as int, event, now),
        ensures
            final(self).wf(),
            stepped(*old(self), i as int, event, now, action, *final(self)),
            final(self).population() == old(self).population(),
    {
        self.advance(i, event);
        proof {
            lemma_population_kept(old(self).users@, old(self).states@, i as int, event);
        }
        self.action(i, now)
    }
}

impl LoadContext {
    /// Begins the load test: every sender is to begin, and all users are free.
    pub fn run(self, config: &Config) -> (run: LoadRun)
        ensures
            run.wf(),
            run.master == self.master,
            run.fee_signer == self.fee_signer,
            run.collection_admin == self.collection_admin,
            run.collection_id == self.collection_id,
            run.price == crate::amounts::trade_price(config.user_funds as int),
            run.senders == self.senders,
            run.users == self.users,
            forall|i: int| 0 <= i < run.states@.len() ==> (#[trigger] run.states@[i]) is Fresh,
            run.population() == self.users@.to_multiset(),
    {
        let mut states: Vec<SenderState> = Vec::new();
        while states.len() < self.senders.len()
            invariant
                states@.len() <= self.senders@.len(),
                forall|i: int| 0 <= i < states@.len() ==> (#[trigger] states@[i]) is Fresh,
            decreases self.senders@.len() - states@.len(),
        {
            states.push(SenderState::Fresh);
        }
        proof {
            lemma_no_hands(states@);
        }
        let price: u128 = trade_price_amount(config.user_funds);
        assert(self.users@.to_multiset().add(hands(states@)) =~= self.users@.to_multiset());
        LoadRun {
            master: self.master,
            fee_signer: self.fee_signer,
            collection_admin: self.collection_admin,
            collection_id: self.collection_id,
            price,
            senders: self.senders,
            states,
            users: self.users,
        }
    }
}

/// Replacing the state of a sender replaces its hand.
proof fn lemma_hands_update(states: Seq<SenderState>, i: int, state: SenderState)
    requires
        0 <= i < states.len(),
    ensures
        forall|user: Keypair| #[trigger]
            hands(states.update(i, state)).count(user) + hand(states[i]).count(user) == hands(
                states,
            ).count(user) + hand(state).count(user),
    decreases states.len(),
{
    let updated = states.update(i, state);
    if i == states.len() - 1 {
        assert(updated.drop_last() =~= states.drop_last());
    } else {
        assert(updated.drop_last() =~= states.drop_last().update(i, state));
        lemma_hands_update(states.drop_last(), i, state);
    }
    assert forall|user: Keypair| #[trigger]
        hands(updated).count(user) + hand(states[i]).count(user) == hands(states).count(user)
            + hand(state).count(user) by {
        let shorter = states.drop_last();
        assert(hands(updated) == hands(updated.drop_last()).add(hand(updated.last())));
        assert(hands(states) == hands(shorter).add(hand(states.last())));
        if i < shorter.len() {
            assert(shorter[i] == states[i]);
            assert(hands(shorter.update(i, state)).count(user) + hand(shorter[i]).count(user)
                == hands(shorter).count(user) + hand(state).count(user));
        }
    }
}

/// No user is lost and none is made: a step moves users between the free ones and
/// the senders.
pub proof fn lemma_population_kept(
    users: Seq<Keypair>,
    states: Seq<SenderState>,
    i: int,
    event: SenderEvent,
)
    requires
        0 <= i < states.len(),
        state_after(states[i], event, users) is Some,
        pair(states[i]) is None && pair(state_after(states[i], event, users)->0) is Some
            ==> users.len() >= 2,
    ensures
        ({
            let to = state_after(states[i], event, users)->0;
            users_after(states[i], to, users).to_multiset().add(hands(states.update(i, to)))
                == users.to_multiset().add(hands(states))
        }),
{
    broadcast use vstd::seq_lib::group_to_multiset_ensures;

    let from = states[i];
    let to = state_after(from, event, users)->0;
    lemma_hands_update(states, i, to);
    let left = users_after(from, to, users);
    match (pair(from), pair(to)) {
        (None, Some((alice, bob))) => {
            assert(users =~= left.push(bob).push(alice));
        },
        _ => {},
    }
    let free = left.to_multiset();
    assert(free.add(hand(to)) =~= users.to_multiset().add(hand(from)));
    assert forall|user: Keypair|
        free.add(hands(states.update(i, to))).count(user) == #[trigger] users.to_multiset().add(
            hands(states),
        ).count(user) by {
        assert(free.add(hand(to)).count(user) == users.to_multiset().add(hand(from)).count(user));
        assert(hands(states.update(i, to)).count(user) + hand(from).count(user) == hands(
            states,
        ).count(user) + hand(to).count(user));
    }
    assert(free.add(hands(states.update(i, to))) =~= users.to_multiset().add(hands(states)));
}

/// Senders have at most two users each.
proof fn lemma_hands_len(states: Seq<SenderState>)
    ensures
        hands(states).len() <= 2 * states.len(),
        (exists|i: int| 0 <= i < states.len() && #[trigger] pair(states[i]) is None) ==> hands(
            states,
        ).len() <= 2 * states.len() - 2,
    decreases states.len(),
{
    if states.len() > 0 {
        let shorter = states.drop_last();
        lemma_hands_len(shorter);
        assert(hand(states.last()).len() == if pair(states.last()) is Some {
            2int
        } else {
            0
        });
        if exists|i: int| 0 <= i < states.len() && #[trigger] pair(states[i]) is None {
            let i = choose|i: int| 0 <= i < states.len() && #[trigger] pair(states[i]) is None;
            if i < shorter.len() {
                assert(pair(shorter[i]) is None);
            }
        }
    }
}

/// With at least twice as many users as senders, users never run out: a sender
/// that works for nobody finds two of them free, whatever the others do.
pub proof fn lemma_users_never_run_out(run: LoadRun, i: int)
    requires
        run.wf(),
        run.population().len() >= 2 * run.senders@.len(),
        0 <= i < run.senders@.len(),
        pair(run.states@[i]) is None,
    ensures
        run.users@.len() >= 2,
{
    broadcast use vstd::seq_lib::group_to_multiset_ensures;

    lemma_hands_len(run.states@);
    assert(run.population().len() == run.users@.to_multiset().len() + hands(run.states@).len());
}

/// A sender's hand is among the hands.
proof fn lemma_hand_counted(states: Seq<SenderState>, i: int, user: Keypair)
    requires
        0 <= i < states.len(),
    ensures
        hand(states[i]).count(user) <= hands(states).count(user),
    decreases states.len(),
{
    if i < states.len() - 1 {
        lemma_hand_counted(states.drop_last(), i, user);
    }
}

/// The hands of two senders are among the hands.
proof fn lemma_two_hands_counted(states: Seq<SenderState>, i: int, j: int, user: Keypair)
    requires
        0 <= i < j < states.len(),
    ensures
        hand(states[i]).count(user) + hand(states[j]).count(user) <= hands(states).count(user),
    decreases states.len(),
{
    let shorter = states.drop_last();
    if j < states.len() - 1 {
        lemma_two_hands_counted(shorter, i, j, user);
    } else {
        lemma_hand_counted(shorter, i, user);
    }
}

/// Where all users are different, no user is in two places at once: the two of a
/// pair differ, they are not free, and no other sender works for them.
pub proof fn lemma_no_user_twice(run: LoadRun, i: int)
    requires
        forall|user: Keypair| #[trigger] run.population().count(user) <= 1,
        0 <= i < run.states@.len(),
    ensures
        pair(run.states@[i]) matches Some((alice, bob)) ==> {
            &&& alice != bob
            &&& !run.users@.contains(alice) && !run.users@.contains(bob)
            &&& forall|j: int|
                0 <= j < run.states@.len() && j != i ==> (#[trigger] pair(
                    run.states@[j],
                ) matches Some((carol, dave)) ==> alice != carol && alice != dave && bob != carol
                    && bob != dave)
        },
{
    broadcast use vstd::seq_lib::group_to_multiset_ensures;

    let states = run.states@;
    if let Some((alice, bob)) = pair(states[i]) {
        assert(run.population().count(alice) <= 1);
        assert(run.population().count(bob) <= 1);
        lemma_hand_counted(states, i, alice);
        lemma_hand_counted(states, i, bob);
        assert(hand(states[i]).count(alice) >= 1 && hand(states[i]).count(bob) >= 1);
        assert forall|j: int| 0 <= j < states.len() && j != i implies (#[trigger] pair(
            states[j],
        ) matches Some((carol, dave)) ==> alice != carol && alice != dave && bob != carol && bob
            != dave) by {
            if i < j {
                lemma_two_hands_counted(states, i, j, alice);
                lemma_two_hands_counted(states, i, j, bob);
            } else {
                lemma_two_hands_counted(states, j, i, alice);
                lemma_two_hands_counted(states, j, i, bob);
            }
            if let Some((carol, dave)) = pair(states[j]) {
                assert(hand(states[j]).count(carol) >= 1 && hand(states[j]).count(dave) >= 1);
            }
        }
    }
}

/// A sender stops only where its balance is below the minimum.
pub proof fn lemma_stops_only_without_funds(
    state: SenderState,
    event: SenderEvent,
    users: Seq<Keypair>,
)
    requires
        state_after(state, event, users) matches Some(next) && next is Stopped,
    ensures
        state is Checking,
        event matches SenderEvent::Balance(free) && free < crate::amounts::sender_minimum(),
{
}

/// Who owns the item that a sender has minted, while the sender waits.
pub open spec fn owner(state: SenderState) -> Option<Keypair> {
    match state {
        SenderState::Transferring { alice, bob: _, item: _ } => Some(alice),
        SenderState::Trading { alice, bob, item: _, leg } => if leg is Sweep {
            Some(alice)
        } else {
            Some(bob)
        },
        SenderState::Burning { alice, bob: _, item: _ } => Some(alice),
        _ => None,
    }
}

/// The account for which a call is made through the master.
pub open spec fn made_for(call: crate::calls::Call) -> Option<AccountId20> {
    match crate::calls::unproxied(call) {
        crate::calls::Call::MythProxy(
            crate::calls::MythProxyCall::Proxy { address, call: _ },
        ) => Some(address),
        _ => None,
    }
}

/// An item is moved, put up for sale and destroyed on behalf of the one who owns
/// it.
pub proof fn lemma_acts_for_owner(run: LoadRun, i: int, action: SenderAction, now: u64)
    requires
        0 <= i < run.states@.len(),
        run.calls_for(i, action, now),
        run.states@[i] is Transferring || run.states@[i] is Burning || (run.states@[i] matches
            SenderState::Trading { alice: _, bob: _, item: _, leg } && leg is Ask),
    ensures
        action matches SenderAction::Submit(tx) && made_for(tx.call) == Some(
            owner(run.states@[i])->0.account(),
        ),
{
}

/// Who signs what a sender submits.
pub open spec fn signer(run: LoadRun, i: int) -> Keypair {
    match run.states@[i] {
        SenderState::Trading { alice: _, bob, item: _, leg } => if leg is Sweep {
            bob
        } else {
            run.senders@[i]
        },
        _ => run.senders@[i],
    }
}

/// A sender signs what it submits itself, but for the return of a seller's money,
/// which the seller signs: nobody else signs, and so nobody else pays, in the load
/// test.
pub proof fn lemma_who_signs(run: LoadRun, i: int, action: SenderAction, now: u64)
    requires
        0 <= i < run.states@.len(),
        run.calls_for(i, action, now),
    ensures
        action matches SenderAction::Mint(tx) ==> tx.signer == signer(run, i),
        action matches SenderAction::Submit(tx) ==> tx.signer == signer(run, i),
{
}

/// The item that a sender has minted for its pair.
pub open spec fn item(state: SenderState) -> Option<u128> {
    match state {
        SenderState::Transferring { alice: _, bob: _, item } => Some(item),
        SenderState::Trading { alice: _, bob: _, item, leg: _ } => Some(item),
        SenderState::Burning { alice: _, bob: _, item } => Some(item),
        _ => None,
    }
}

/// A sender works for the same pair, and on the same item once that is minted,
/// until it gives the pair back; every failure makes it do that and pause.
pub proof fn lemma_pair_kept(state: SenderState, event: SenderEvent, users: Seq<Keypair>)
    requires
        pair(state) is Some,
        state_after(state, event, users) is Some,
    ensures
        ({
            let next = state_after(state, event, users)->0;
            &&& pair(next) is Some ==> pair(next) == pair(state)
            &&& pair(next) is Some && item(state) is Some ==> item(next) == item(state)
            &&& event is Failed ==> next is Pausing
        }),
{
}

/// The free users and the states of the senders after some steps, each an event of
/// a sender.
pub open spec fn after_steps(
    users: Seq<Keypair>,
    states: Seq<SenderState>,
    steps: Seq<(int, SenderEvent)>,
) -> (Seq<Keypair>, Seq<SenderState>)
    decreases steps.len(),
{
    if steps.len() == 0 {
        (users, states)
    } else {
        let (free, before) = after_steps(users, states, steps.drop_last());
        let (i, event) = steps.last();
        let to = state_after(before[i], event, free)->0;
        (users_after(before[i], to, free), before.update(i, to))
    }
}

/// Each event is one that its sender waits for when it comes.
pub open spec fn all_awaited(
    users: Seq<Keypair>,
    states: Seq<SenderState>,
    steps: Seq<(int, SenderEvent)>,
) -> bool
    decreases steps.len(),
{
    steps.len() > 0 ==> {
        let (free, before) = after_steps(users, states, steps.drop_last());
        let (i, event) = steps.last();
        &&& all_awaited(users, states, steps.drop_last())
        &&& 0 <= i < before.len()
        &&& state_after(before[i], event, free) is Some
    }
}

/// A load test that begins with at least twice as many users as senders goes on:
/// after any events, in whatever order the senders come, a sender that works for
/// nobody finds two users free, and all users are still there.
pub proof fn lemma_load_goes_on(
    users: Seq<Keypair>,
    states: Seq<SenderState>,
    steps: Seq<(int, SenderEvent)>,
)
    requires
        users.len() >= 2 * states.len(),
        forall|i: int| 0 <= i < states.len() ==> (#[trigger] states[i]) is Fresh,
        all_awaited(users, states, steps),
    ensures
        ({
            let (free, now) = after_steps(users, states, steps);
            &&& now.len() == states.len()
            &&& free.to_multiset().add(hands(now)) == users.to_multiset()
            &&& forall|i: int|
                0 <= i < now.len() && (#[trigger] pair(now[i])) is None ==> free.len() >= 2
        }),
    decreases steps.len(),
{
    broadcast use vstd::seq_lib::group_to_multiset_ensures;

    let (free, now) = after_steps(users, states, steps);
    if steps.len() == 0 {
        lemma_no_hands(states);
        assert(free.to_multiset().add(hands(now)) =~= users.to_multiset());
    } else {
        let (earlier, before) = after_steps(users, states, steps.drop_last());
        let (i, event) = steps.last();
        lemma_load_goes_on(users, states, steps.drop_last());
        if pair(before[i]) is None {
            assert(earlier.len() >= 2);
        }
        lemma_population_kept(earlier, before, i, event);
    }
    lemma_hands_len(now);
    assert(users.to_multiset().len() == free.to_multiset().len() + hands(now).len());
}

/// Senders that are to begin work for nobody.
proof fn lemma_no_hands(states: Seq<SenderState>)
    requires
        forall|i: int| 0 <= i < states.len() ==> (#[trigger] states[i]) is Fresh,
    ensures
        hands(states) == Multiset::<Keypair>::empty(),
    decreases states.len(),
{
    if states.len() > 0 {
        assert(states.last() is Fresh);
        lemma_no_hands(states.drop_last());
        assert(hands(states) =~= Multiset::<Keypair>::empty());
    }
}

/// A step touches its own sender and the free users alone: the other senders and all
/// that the load test is about stay as they are.
pub proof fn lemma_step_touches_one_sender(
    before: LoadRun,
    i: int,
    event: SenderEvent,
    now: u64,
    action: SenderAction,
    after: LoadRun,
    j: int,
)
    requires
        0 <= i < before.states@.len(),
        0 <= j < before.states@.len(),
        stepped(before, i, event, now, action, after),
    ensures
        after.states@.len() == before.states@.len(),
        j != i ==> after.states@[j] == before.states@[j],
        after.senders@ == before.senders@,
        after.master == before.master,
        after.fee_signer == before.fee_signer,
        after.collection_admin == before.collection_admin,
        after.collection_id == before.collection_id,
        after.price == before.price,
{
}

/// A minted item is the one that is worked on, for the pair that it was minted for,
/// and it is handed on unchanged: moved, traded leg by leg, and burnt.
pub proof fn lemma_item_goes_through(
    alice: Keypair,
    bob: Keypair,
    n: u128,
    users: Seq<Keypair>,
)
    ensures
        state_after(
            SenderState::Minting { alice, bob },
            SenderEvent::Minted(n),
            users,
        ) matches Some(SenderState::Transferring { alice: a, bob: b, item }) && a == alice && b
            == bob && item == n,
        state_after(
            SenderState::Transferring { alice, bob, item: n },
            SenderEvent::Finalized,
            users,
        ) matches Some(SenderState::Trading { alice: a, bob: b, item, leg }) && a == alice && b
            == bob && item == n && leg is FundBuyer,
        state_after(
            SenderState::Trading { alice, bob, item: n, leg: TradeLeg::FundBuyer },
            SenderEvent::Finalized,
            users,
        ) matches Some(SenderState::Trading { alice: a, bob: b, item, leg }) && a == alice && b
            == bob && item == n && leg is Ask,
        state_after(
            SenderState::Trading { alice, bob, item: n, leg: TradeLeg::Ask },
            SenderEvent::Finalized,
            users,
        ) matches Some(SenderState::Trading { alice: a, bob: b, item, leg }) && a == alice && b
            == bob && item == n && leg is Bid,
        state_after(
            SenderState::Trading { alice, bob, item: n, leg: TradeLeg::Bid },
            SenderEvent::Finalized,
            users,
        ) matches Some(SenderState::Trading { alice: a, bob: b, item, leg }) && a == alice && b
            == bob && item == n && leg is Sweep,
        state_after(
            SenderState::Trading { alice, bob, item: n, leg: TradeLeg::Sweep },
            SenderEvent::Finalized,
            users,
        ) matches Some(SenderState::Burning { alice: a, bob: b, item }) && a == alice && b == bob
            && item == n,
        state_after(
            SenderState::Burning { alice, bob, item: n },
            SenderEvent::Finalized,
            users,
        ) matches Some(next) && next is Checking,
{
}

/// A sender goes on from five coins, and takes the last two of the free users, the
/// last one as the one that the item is minted to; below five coins it stops.
pub proof fn lemma_balance_decides(
    before: LoadRun,
    i: int,
    free: u128,
    now: u64,
    action: SenderAction,
    after: LoadRun,
)
    requires
        before.wf(),
        before.can_take(i, SenderEvent::Balance(free), now),
        stepped(before, i, SenderEvent::Balance(free), now, action, after),
    ensures
        free < 5_000_000_000_000_000_000 ==> after.states@[i] is Stopped && action is Stop
            && after.users@ == before.users@,
        free >= 5_000_000_000_000_000_000 ==> (after.states@[i] matches SenderState::Minting {
            alice,
            bob,
        } && before.users@ == after.users@.push(bob).push(alice) && action is Mint),
{
    if free >= 5_000_000_000_000_000_000 {
        let users = before.users@;
        assert(users =~= users.take(users.len() - 2).push(users[users.len() - 2]).push(
            users[users.len() - 1],
        ));
    }
}

/// Users are free again, the one that the item was minted to first, when a sender has
/// burnt the item or something failed, and only then; a failure makes it sleep for
/// fifty seconds.
pub proof fn lemma_pair_is_given_back(
    before: LoadRun,
    i: int,
    event: SenderEvent,
    now: u64,
    action: SenderAction,
    after: LoadRun,
)
    requires
        before.wf(),
        before.can_take(i, event, now),
        stepped(before, i, event, now, action, after),
    ensures
        match before.states@[i] {
            SenderState::Fresh | SenderState::Pausing => after.states@[i] is Checking
                && after.users@ == before.users@,
            SenderState::Checking => event is Balance,
            SenderState::Minting { alice, bob } => if event is Failed {
                after.users@ == before.users@.push(alice).push(bob) && action
                    == SenderAction::Sleep(50) && after.states@[i] is Pausing
            } else {
                after.users@ == before.users@ && event is Minted
            },
            SenderState::Transferring { alice, bob, item: _ } => if event is Failed {
                after.users@ == before.users@.push(alice).push(bob) && action
                    == SenderAction::Sleep(50) && after.states@[i] is Pausing
            } else {
                after.users@ == before.users@ && event is Finalized
            },
            SenderState::Trading { alice, bob, item: _, leg: _ } => if event is Failed {
                after.users@ == before.users@.push(alice).push(bob) && action
                    == SenderAction::Sleep(50) && after.states@[i] is Pausing
            } else {
                after.users@ == before.users@ && event is Finalized
            },
            SenderState::Burning { alice, bob, item: _ } => {
                &&& after.users@ == before.users@.push(alice).push(bob)
                &&& event is Failed ==> action == SenderAction::Sleep(50)
                    && after.states@[i] is Pausing
                &&& event is Finalized ==> after.states@[i] is Checking
                &&& event is Failed || event is Finalized
            },
            SenderState::Stopped => false,
        },
{
}

/// What a sender waits for in each state, and nothing else. It begins to work for a
/// pair only where two users are free, and an order needs a time whose expiry can be
/// written down.
pub open spec fn waits_for(run: LoadRun, i: int, event: SenderEvent, now: u64) -> bool {
    0 <= i < run.states@.len() && match run.states@[i] {
        SenderState::Fresh => event is Begin,
        SenderState::Checking => event matches SenderEvent::Balance(free) && (free
            < 5_000_000_000_000_000_000 || run.users@.len() >= 2),
        SenderState::Minting { alice: _, bob: _ } => event is Minted || event is Failed,
        SenderState::Transferring { alice: _, bob: _, item: _ } => event is Finalized
            || event is Failed,
        SenderState::Trading { alice: _, bob: _, item: _, leg } => event is Failed
            || event is Finalized && (leg is Bid || leg is Sweep || now + 9_000_001 <= u64::MAX),
        SenderState::Burning { alice: _, bob: _, item: _ } => event is Finalized
            || event is Failed,
        SenderState::Pausing => event is Awake,
        SenderState::Stopped => false,
    }
}

/// A sender takes what it waits for in its state, and says so; it needs the time
/// where the buyer was funded or the ask was made, and only there.
pub proof fn lemma_turns(
    run: LoadRun,
    i: usize,
    event: SenderEvent,
    now: u64,
    accepted: bool,
    needed: bool,
)
    requires
        run.wf(),
        call_ensures(LoadRun::accepts, (&run, i, event, now), accepted),
        call_ensures(LoadRun::needs_time, (&run, i, event), needed),
    ensures
        run.can_take(i as int, event, now) == waits_for(run, i as int, event, now),
        accepted == waits_for(run, i as int, event, now),
        needed == (i < run.states@.len() && event is Finalized && (
        run.states@[i as int] matches SenderState::Trading { alice: _, bob: _, item: _, leg } && (
        leg is FundBuyer || leg is Ask))),
{
}

/// What a sender does while it waits: it asks for its own balance; mints to the first
/// of its pair; moves the item from the first to the second; burns the item of the
/// first.
pub proof fn lemma_what_a_sender_does(run: LoadRun, i: int, action: SenderAction, now: u64)
    requires
        0 <= i < run.states@.len(),
        run.calls_for(i, action, now),
    ensures
        run.states@[i] is Checking ==> action == SenderAction::QueryBalance(
            run.senders@[i].account(),
        ),
        run.states@[i] is Pausing ==> action == SenderAction::Sleep(50),
        run.states@[i] is Stopped ==> action is Stop,
        run.states@[i] matches SenderState::Minting { alice, bob: _ } ==> (
        action matches SenderAction::Mint(tx) && tx.signer == run.senders@[i] && (
        tx.call matches crate::calls::Call::MythProxy(
            crate::calls::MythProxyCall::Proxy { address, call },
        ) && address == run.collection_admin.account() && (*call matches crate::calls::Call::Nfts(
            crate::calls::NftsCall::Mint { collection, maybe_item, mint_to, witness_data },
        ) && collection == run.collection_id && maybe_item is None && mint_to == alice.account()
            && witness_data is None))),
        run.states@[i] matches SenderState::Transferring { alice, bob, item } ==> (
        action matches SenderAction::Submit(tx) && tx.signer == run.senders@[i] && (
        tx.call matches crate::calls::Call::MythProxy(
            crate::calls::MythProxyCall::Proxy { address, call },
        ) && address == run.master.account() && (*call matches crate::calls::Call::MythProxy(
            crate::calls::MythProxyCall::Proxy { address: owner, call: inner },
        ) && owner == alice.account() && (*inner matches crate::calls::Call::Nfts(
            crate::calls::NftsCall::Transfer { collection, item: moved, dest },
        ) && collection == run.collection_id && moved == item && dest == bob.account())))),
        run.states@[i] matches SenderState::Burning { alice, bob: _, item } ==> (
        action matches SenderAction::Submit(tx) && tx.signer == run.senders@[i] && (
        tx.call matches crate::calls::Call::MythProxy(
            crate::calls::MythProxyCall::Proxy { address, call },
        ) && address == run.master.account() && (*call matches crate::calls::Call::MythProxy(
            crate::calls::MythProxyCall::Proxy { address: owner, call: inner },
        ) && owner == alice.account() && (*inner matches crate::calls::Call::Nfts(
            crate::calls::NftsCall::Burn { collection, item: burnt },
        ) && collection == run.collection_id && burnt == item)))),
{
}

/// How a sender trades: the first of its pair is paid the price and a coin; the second
/// asks and the first bids, of the item at the price, for a fee of one coin and
/// signed by the fee signer; and the second gives the sender what it has.
pub proof fn lemma_how_a_sender_trades(run: LoadRun, i: int, action: SenderAction, now: u64)
    requires
        run.wf(),
        0 <= i < run.states@.len(),
        now + 9_000_001 <= u64::MAX,
        run.calls_for(i, action, now),
        run.states@[i] is Trading,
    ensures
        run.states@[i] matches SenderState::Trading { alice, bob, item, leg } && (
        action matches SenderAction::Submit(tx) && {
            &&& leg is FundBuyer ==> tx.signer == run.senders@[i] && (
            tx.call matches crate::calls::Call::Balances(
                crate::calls::BalancesCall::TransferKeepAlive { dest, value },
            ) && dest == alice.account() && value == run.price + 1_000_000_000_000_000_000)
            &&& leg is Sweep ==> tx.signer == bob && (tx.call matches crate::calls::Call::Balances(
                crate::calls::BalancesCall::TransferAll { dest, keep_alive },
            ) && dest == run.senders@[i].account() && keep_alive)
            &&& leg is Ask || leg is Bid ==> tx.signer == run.senders@[i] && (
            tx.call matches crate::calls::Call::MythProxy(
                crate::calls::MythProxyCall::Proxy { address, call },
            ) && address == run.master.account() && (*call matches crate::calls::Call::MythProxy(
                crate::calls::MythProxyCall::Proxy { address: party, call: inner },
            ) && party == (if leg is Ask {
                bob.account()
            } else {
                alice.account()
            }) && (*inner matches crate::calls::Call::Marketplace(
                crate::calls::MarketplaceCall::CreateOrder { order, execution },
            ) && {
                &&& order.order_type is Ask == leg is Ask
                &&& execution is AllowCreation == leg is Ask
                &&& order.collection == run.collection_id
                &&& order.item == item
                &&& order.price == run.price
                &&& order.expires_at == now + 9_000_001
                &&& order.fee == 1_000_000_000_000_000_000
                &&& order.escrow_agent is None
                &&& crate::trade::signature_belongs(order, run.fee_signer)
            })))
        }),
{
    if let SenderState::Trading { alice, bob, item, leg } = run.states@[i] {
        if let SenderAction::Submit(tx) = action {
            crate::trade::lemma_money_of_a_trade(
                tx,
                leg,
                run.senders@[i],
                run.master.account(),
                run.collection_id,
                bob,
                alice,
                run.fee_signer,
                item,
                run.price,
                now,
            );
            if leg is Ask || leg is Bid {
                crate::trade::lemma_orders_of_a_trade(
                    tx,
                    leg,
                    run.senders@[i],
                    run.master.account(),
                    run.collection_id,
                    bob,
                    alice,
                    run.fee_signer,
                    item,
                    run.price,
                    now,
                );
            }
        }
    }
}

/// A load test begins with all senders fresh, all users free, and whole coins as its
/// price.
pub proof fn lemma_load_begins(context: LoadContext, config: Config, run: LoadRun, i: int)
    requires
        call_ensures(LoadContext::run, (context, &config), run),
        0 <= i < context.senders@.len(),
    ensures
        run.states@.len() == context.senders@.len(),
        run.states@[i] is Fresh,
        run.senders@ == context.senders@,
        run.users@ == context.users@,
        run.master == context.master,
        run.fee_signer == context.fee_signer,
        run.collection_admin == context.collection_admin,
        run.collection_id == context.collection_id,
        run.price == config.user_funds * 1_000_000_000_000_000_000,
{
}

} // verus!
