//! Extrinsics that are waited for, and the finalized blocks that bring them.
use vstd::prelude::*;

use std::collections::HashMap;

use rayon::iter::IntoParallelRefIterator;
use rayon::iter::ParallelIterator;

use crate::channel::Channel;
use crate::channel::DeliveryError;
use crate::channel::Ended;
use crate::channel::Offer;
use crate::substrate::H256;

verus! {

/// How many payloads the channel of an extrinsic can hold.
pub const CHANNEL_LIMIT: usize = 1;

/// Part of a block that an event belongs to.
#[derive(Clone, Copy, Debug, PartialEq, Eq, Structural)]
pub enum Phase {
    /// The extrinsic with this index.
    ApplyExtrinsic(u32),
    /// The end of the block.
    Finalization,
    /// The start of the block.
    Initialization,
}

/// What an event says of its extrinsic.
#[derive(Clone, Copy, Debug, PartialEq, Eq, Structural)]
pub enum RootEvent {
    /// `System::ExtrinsicSuccess`.
    ExtrinsicSuccess,
    /// `System::ExtrinsicFailed`.
    ExtrinsicFailed,
    /// Any other event.
    Other,
}

/// An event of a block.
pub struct EventDetails {
    pub phase: Phase,
    /// Its index among the events of the block.
    pub index: u32,
    /// Name of the pallet that it comes from.
    pub pallet_name: String,
    /// Name of the event in its pallet.
    pub variant_name: String,
    /// The decoded event; none where it cannot be decoded.
    pub root: Option<RootEvent>,
    /// The encoded event.
    pub bytes: Vec<u8>,
    /// What it can be found by.
    pub topics: Vec<H256>,
}

/// An extrinsic of a block.
#[derive(Clone, Copy, Debug, PartialEq, Eq)]
pub struct ExtrinsicDetails {
    /// Its index in the block.
    pub index: u32,
    pub hash: H256,
}

/// The two halves of the hash of some bytes, as
/// `subxt::config::substrate::BlakeTwo256` computes it.
pub uninterp spec fn hash_halves(bytes: Seq<u8>) -> (u128, u128);

/// Calls `hash` of `subxt::config::Hasher` on `BlakeTwo256` and reads the result as
/// a big-endian number. Trusted: the hash depends on the bytes alone.
#[verifier::external_body]
fn hash_of_bytes(bytes: &[u8]) -> (halves: (u128, u128))
    ensures
        halves == hash_halves(bytes@),
{
    let hash = <subxt::config::substrate::BlakeTwo256 as subxt::config::Hasher>::hash(bytes).0;
    let (hi, lo) = hash.split_at(16);
    (
        u128::from_be_bytes(hi.try_into().expect("sixteen bytes")),
        u128::from_be_bytes(lo.try_into().expect("sixteen bytes")),
    )
}

impl ExtrinsicDetails {
    /// The extrinsic that these bytes encode.
    pub fn from_bytes(index: u32, bytes: &[u8]) -> (extrinsic: ExtrinsicDetails)
        ensures
            extrinsic.index == index,
            (extrinsic.hash.hi, extrinsic.hash.lo) == hash_halves(bytes@),
    {
        let (hi, lo) = hash_of_bytes(bytes);
        ExtrinsicDetails { index, hash: H256 { hi, lo } }
    }
}

/// What is told to the one who waits for an extrinsic: whether it succeeded, and
/// its events.
pub type ChannelPayload = (bool, Vec<EventDetails>);

/// An extrinsic with its events.
pub struct BlockEntry {
    pub extrinsic: ExtrinsicDetails,
    pub events: Vec<EventDetails>,
}

/// What a [`BlockEntry`] holds.
pub struct EntryView {
    pub extrinsic: ExtrinsicDetails,
    pub events: Seq<EventDetails>,
}

impl View for BlockEntry {
    type V = EntryView;

    open spec fn view(&self) -> EntryView {
        EntryView { extrinsic: self.extrinsic, events: self.events@ }
    }
}

/// What the entries hold.
pub open spec fn views(entries: Seq<BlockEntry>) -> Seq<EntryView> {
    entries.map_values(|entry: BlockEntry| entry@)
}

/// Where a block leaves an extrinsic.
#[derive(Clone, Copy, Debug, PartialEq, Eq, Structural)]
pub enum Verdict {
    /// Nobody waits for it.
    Untracked,
    /// It succeeded.
    Succeeded,
    /// It failed.
    Failed,
    /// Its last event cannot be decoded.
    Undecodable,
}

/// What the last event of an extrinsic that is waited for says.
pub open spec fn verdict_of(event: EventDetails) -> Verdict {
    match event.root {
        None => Verdict::Undecodable,
        Some(RootEvent::ExtrinsicSuccess) => Verdict::Succeeded,
        Some(_) => Verdict::Failed,
    }
}

/// Where a block leaves an entry, for the extrinsics that are waited for.
pub open spec fn verdict(
    entry: EntryView,
    waiting: Map<H256, Channel>,
) -> Verdict {
    if waiting.contains_key(entry.extrinsic.hash) {
        verdict_of(entry.events.last())
    } else {
        Verdict::Untracked
    }
}

/// The entry can be judged: it has events, and where it is waited for, the last
/// one is about its success or cannot be decoded.
pub open spec fn can_judge(
    entry: EntryView,
    waiting: Map<H256, Channel>,
) -> bool {
    &&& entry.events.len() > 0
    &&& waiting.contains_key(entry.extrinsic.hash) ==> entry.events.last().root != Some(
        RootEvent::Other,
    )
}

/// All entries can be judged.
pub open spec fn can_judge_all(
    entries: Seq<EntryView>,
    waiting: Map<H256, Channel>,
) -> bool {
    forall|i: int| 0 <= i < entries.len() ==> can_judge(#[trigger] entries[i], waiting)
}

/// The extrinsics that are waited for, with the channels on which they are told.
pub struct ExtrinsicTracker {
    /// Channels by the upper and then the lower half of the hash.
    tracked_extrinsics: HashMap<u128, HashMap<u128, Channel>>,
}

impl View for ExtrinsicTracker {
    type V = Map<H256, Channel>;

    closed spec fn view(&self) -> Map<H256, Channel> {
        Map::new(
            |hash: H256|
                self.tracked_extrinsics@.contains_key(hash.hi)
                    && self.tracked_extrinsics@[hash.hi]@.contains_key(hash.lo),
            |hash: H256| self.tracked_extrinsics@[hash.hi]@[hash.lo],
        )
    }
}

impl Default for ExtrinsicTracker {
    /// Nothing is waited for.
    fn default() -> (tracker: ExtrinsicTracker)
        ensures
            tracker@ == Map::<H256, Channel>::empty(),
    {
        let tracker = ExtrinsicTracker { tracked_extrinsics: HashMap::new() };
        assert(tracker@ =~= Map::<H256, Channel>::empty());
        tracker
    }
}

/// The extrinsic is waited for on a new channel with this receiver.
pub open spec fn waits_anew(
    before: Map<H256, Channel>,
    hash: H256,
    rx: flume::Receiver<ChannelPayload>,
    after: Map<H256, Channel>,
) -> bool {
    &&& after == before.insert(hash, after[hash])
    &&& after[hash].feeds(rx)
    &&& after[hash].limit() == CHANNEL_LIMIT
    &&& after[hash].log() == Seq::<Offer>::empty()
}

impl ExtrinsicTracker {
    /// Waits for an extrinsic, and only on the new channel where it was waited for
    /// already. The other half of the channel is told what becomes of it.
    pub fn track(&mut self, extrinsic_hash: H256) -> (rx: flume::Receiver<ChannelPayload>)
        ensures
            waits_anew(old(self)@, extrinsic_hash, rx, final(self)@),
    {
        let (channel, rx) = Channel::new(CHANNEL_LIMIT);
        self.put(&extrinsic_hash, channel);
        rx
    }

    /// Channel on which an extrinsic is told; none where it is not waited for.
    fn channel(&self, hash: &H256) -> (channel: Option<&Channel>)
        ensures
            channel is Some == self@.contains_key(*hash),
            channel matches Some(channel) ==> *channel == self@[*hash],
    {
        match self.tracked_extrinsics.get(&hash.hi) {
            Some(row) => row.get(&hash.lo),
            None => None,
        }
    }

    /// Puts a channel in, in place of the one for the same extrinsic.
    fn put(&mut self, hash: &H256, channel: Channel)
        ensures
            final(self)@ == old(self)@.insert(*hash, channel),
    {
        let ghost before = self@;
        let mut row: HashMap<u128, Channel> = match self.tracked_extrinsics.remove(&hash.hi) {
            Some(row) => row,
            None => HashMap::new(),
        };
        let ghost given = channel;
        row.insert(hash.lo, channel);
        self.tracked_extrinsics.insert(hash.hi, row);
        assert(self@ =~= before.insert(*hash, given));
    }

    /// Takes the channel for an extrinsic out, which is waited for no longer.
    fn take(&mut self, hash: &H256) -> (channel: Option<Channel>)
        ensures
            final(self)@ == old(self)@.remove(*hash),
            channel is Some == old(self)@.contains_key(*hash),
            channel matches Some(channel) ==> channel == old(self)@[*hash],
    {
        let ghost before = self@;
        match self.tracked_extrinsics.remove(&hash.hi) {
            Some(mut row) => {
                let channel = row.remove(&hash.lo);
                if !row.is_empty() {
                    self.tracked_extrinsics.insert(hash.hi, row);
                }
                assert(self@ =~= before.remove(*hash));
                channel
            },
            None => {
                assert(self@ =~= before.remove(*hash));
                None
            },
        }
    }

    /// Offers the outcome of an entry to the channel on which it is waited for.
    fn tell(&mut self, entry: BlockEntry, success: bool) -> (notice: Notice)
        requires
            old(self)@.contains_key(entry.extrinsic.hash),
            success == (verdict_of(entry.events@.last()) == Verdict::Succeeded),
        ensures
            told(notice, entry@),
            ({
                let hash = entry.extrinsic.hash;
                let (from, to) = (old(self)@[hash], final(self)@[hash]);
                &&& final(self)@ == old(self)@.insert(hash, to)
                &&& continued(from, to, seq![offer_of(entry@, notice)])
                &&& room_respected(notice, from.log(), from.limit())
            }),
    {
        let extrinsic = entry.extrinsic;
        let ghost before = self@;
        let mut channel = self.take(&extrinsic.hash).unwrap();
        let ghost from = channel;
        let delivery = channel.send((success, entry.events));
        let notice = Notice { extrinsic, success, delivery };
        proof {
            let offer = offer_of(entry@, notice);
            assert(from.log().push(offer) =~= from.log() + seq![offer]);
            assert(before.remove(extrinsic.hash).insert(extrinsic.hash, channel)
                =~= before.insert(extrinsic.hash, channel));
        }
        self.put(&extrinsic.hash, channel);
        notice
    }

    /// Where a block leaves an entry.
    pub fn examine(&self, entry: &BlockEntry) -> (result: Verdict)
        requires
            can_judge(entry@, self@),
        ensures
            result == verdict(entry@, self@),
    {
        match self.channel(&entry.extrinsic.hash) {
            None => Verdict::Untracked,
            Some(_) => match entry.events[entry.events.len() - 1].root {
                None => Verdict::Undecodable,
                Some(RootEvent::ExtrinsicSuccess) => Verdict::Succeeded,
                Some(_) => Verdict::Failed,
            },
        }
    }

    /// Whether all entries can be judged.
    pub fn accepts(&self, entries: &Vec<BlockEntry>) -> (accepted: bool)
        ensures
            accepted == can_judge_all(views(entries@), self@),
    {
        let mut i: usize = 0;
        while i < entries.len()
            invariant
                i <= entries@.len(),
                forall|j: int|
                    0 <= j < i ==> can_judge(#[trigger] views(entries@)[j], self@),
            decreases entries@.len() - i,
        {
            let entry = &entries[i];
            assert(views(entries@)[i as int] == entry@);
            if entry.events.len() == 0 {
                return false;
            }
            if self.channel(&entry.extrinsic.hash).is_some() {
                if let Some(RootEvent::Other) = entry.events[entry.events.len() - 1].root {
                    return false;
                }
            }
            i = i + 1;
        }
        true
    }
}

/// Calls `rayon::iter::ParallelIterator::collect` on the entries, each mapped to
/// what [`ExtrinsicTracker::examine`] says of it. Trusted: the verdicts come in
/// the order of the entries, one for each.
#[verifier::external_body]
fn examine_all(tracker: &ExtrinsicTracker, entries: &Vec<BlockEntry>) -> (verdicts: Vec<Verdict>)
    requires
        can_judge_all(views(entries@), tracker@),
    ensures
        verdicts@.len() == entries@.len(),
        forall|i: int|
            0 <= i < entries@.len() ==> (#[trigger] verdicts@[i]) == verdict(
                entries@[i]@,
                tracker@,
            ),
{
    entries.par_iter().map(|entry| tracker.examine(entry)).collect()
}

/// What came of telling about an extrinsic.
pub struct Notice {
    pub extrinsic: ExtrinsicDetails,
    /// Whether the extrinsic succeeded.
    pub success: bool,
    /// The payload comes back where the channel did not take it.
    pub delivery: Result<(), DeliveryError>,
}

/// An extrinsic that is waited for no longer.
pub struct Done {
    pub hash: H256,
    /// What is left of its channel.
    pub channel: Ended,
}

/// What a block brought.
pub struct BlockReport {
    /// What came of telling about the extrinsics that were waited for.
    pub notices: Vec<Notice>,
    /// The extrinsics that are waited for no longer.
    pub done: Vec<Done>,
}

/// The last event of an extrinsic that is waited for cannot be decoded.
pub struct BlockError {
    pub extrinsic: ExtrinsicDetails,
    /// What came of telling about the extrinsics before it.
    pub notices: Vec<Notice>,
}

/// The entries that are waited for, in order.
pub open spec fn awaited(entries: Seq<EntryView>, waiting: Map<H256, Channel>) -> Seq<EntryView> {
    entries.filter(|entry: EntryView| waiting.contains_key(entry.extrinsic.hash))
}

/// The notice is about the entry.
pub open spec fn told(notice: Notice, entry: EntryView) -> bool {
    &&& notice.extrinsic == entry.extrinsic
    &&& notice.success == (verdict_of(entry.events.last()) == Verdict::Succeeded)
    &&& notice.delivery matches Err(error) ==> error.payload().0 == notice.success
        && error.payload().1@ == entry.events
}

/// The offer that tells about an entry: its outcome and all its events.
pub open spec fn offer_of(entry: EntryView, notice: Notice) -> Offer {
    Offer {
        success: verdict_of(entry.events.last()) == Verdict::Succeeded,
        events: entry.events,
        taken: notice.delivery is Ok,
    }
}

/// The offers that tell about the entries with this hash, in order, where the
/// notices are about the entries.
pub open spec fn offers_to(
    hash: H256,
    entries: Seq<EntryView>,
    notices: Seq<Notice>,
) -> Seq<Offer>
    decreases entries.len(),
{
    if entries.len() == 0 {
        Seq::empty()
    } else {
        let earlier = offers_to(hash, entries.drop_last(), notices.drop_last());
        if entries.last().extrinsic.hash == hash {
            earlier.push(offer_of(entries.last(), notices.last()))
        } else {
            earlier
        }
    }
}

/// `to` is the channel `from` after these offers and no others.
pub open spec fn continued(from: Channel, to: Channel, more: Seq<Offer>) -> bool {
    &&& to.log() == from.log() + more
    &&& to.limit() == from.limit()
    &&& forall|rx: flume::Receiver<ChannelPayload>| #[trigger] to.feeds(rx) == from.feeds(rx)
    &&& more.len() == 0 ==> to == from
}

/// A channel to which `log` was offered is full only where it took as much as it
/// can hold.
pub open spec fn room_respected(notice: Notice, log: Seq<Offer>, limit: nat) -> bool {
    notice.delivery matches Err(DeliveryError::Full(_)) ==> crate::channel::taken(log) >= limit
}

/// The notices are about the entries that are waited for, one for each and in
/// their order, and no channel refused what it had room for.
pub open spec fn all_told(
    notices: Seq<Notice>,
    entries: Seq<EntryView>,
    waiting: Map<H256, Channel>,
) -> bool {
    let heard = awaited(entries, waiting);
    &&& notices.len() == heard.len()
    &&& forall|k: int| 0 <= k < notices.len() ==> told(#[trigger] notices[k], heard[k])
    &&& forall|k: int|
        0 <= k < notices.len() ==> {
            let channel = waiting[heard[k].extrinsic.hash];
            room_respected(
                #[trigger] notices[k],
                channel.log() + offers_to(
                    heard[k].extrinsic.hash,
                    heard.take(k),
                    notices.take(k),
                ),
                channel.limit(),
            )
        }
}

/// The channel for `hash` was offered what tells about the entries with that hash,
/// and nothing else.
pub open spec fn told_on(
    hash: H256,
    from: Channel,
    to: Channel,
    notices: Seq<Notice>,
    entries: Seq<EntryView>,
    waiting: Map<H256, Channel>,
) -> bool {
    continued(from, to, offers_to(hash, awaited(entries, waiting), notices))
}

/// No entry that is waited for ends in an event that cannot be decoded.
pub open spec fn all_decodable(entries: Seq<EntryView>, waiting: Map<H256, Channel>) -> bool {
    forall|i: int|
        0 <= i < entries.len() ==> verdict(#[trigger] entries[i], waiting) != Verdict::Undecodable
}

/// The hashes of the entries.
pub open spec fn hashes(entries: Seq<EntryView>) -> Set<H256> {
    entries.map_values(|entry: EntryView| entry.extrinsic.hash).to_set()
}

/// Every channel was offered what tells about its entries, and nothing else.
pub open spec fn channels_told(
    before: Map<H256, Channel>,
    after: Map<H256, Channel>,
    notices: Seq<Notice>,
    entries: Seq<EntryView>,
) -> bool {
    &&& after.dom() == before.dom()
    &&& forall|hash: H256| #[trigger]
        before.contains_key(hash) ==> told_on(
            hash,
            before[hash],
            after[hash],
            notices,
            entries,
            before,
        )
}

/// Each of the extrinsics is done, once, and no other is.
pub open spec fn all_ended(done: Seq<Done>, extrinsics: Map<H256, Channel>) -> bool {
    &&& forall|k: int| 0 <= k < done.len() ==> extrinsics.contains_key((#[trigger] done[k]).hash)
    &&& forall|hash: H256| #[trigger]
        extrinsics.contains_key(hash) ==> exists|k: int|
            0 <= k < done.len() && (#[trigger] done[k]).hash == hash
    &&& forall|j: int, k: int|
        0 <= j < k < done.len() ==> (#[trigger] done[j]).hash != (#[trigger] done[k]).hash
}

/// The outcome of a block, for the extrinsics that were waited for before it and
/// those that are waited for after it.
pub open spec fn processed(
    entries: Seq<EntryView>,
    before: Map<H256, Channel>,
    result: Result<BlockReport, BlockError>,
    after: Map<H256, Channel>,
) -> bool {
    match result {
        Ok(report) => {
            &&& all_decodable(entries, before)
            &&& all_told(report.notices@, entries, before)
            &&& after == before.remove_keys(hashes(entries))
            &&& all_ended(report.done@, before.restrict(hashes(entries)))
            &&& forall|k: int|
                0 <= k < report.done@.len() ==> told_on(
                    (#[trigger] report.done@[k]).hash,
                    before[report.done@[k].hash],
                    report.done@[k].channel.last(),
                    report.notices@,
                    entries,
                    before,
                )
        },
        Err(error) => exists|i: int|
            0 <= i < entries.len() && verdict(#[trigger] entries[i], before)
                == Verdict::Undecodable && error.extrinsic == entries[i].extrinsic
                && all_decodable(entries.take(i), before) && all_told(
                error.notices@,
                entries.take(i),
                before,
            ) && channels_told(before, after, error.notices@, entries.take(i)),
    }
}

/// One more entry adds itself where it is waited for.
proof fn lemma_awaited_step(
    entries: Seq<EntryView>,
    waiting: Map<H256, Channel>,
    i: int,
)
    requires
        0 <= i < entries.len(),
    ensures
        awaited(entries.take(i + 1), waiting) == if waiting.contains_key(
            entries[i].extrinsic.hash,
        ) {
            awaited(entries.take(i), waiting).push(entries[i])
        } else {
            awaited(entries.take(i), waiting)
        },
{
    reveal(Seq::filter);
    assert(entries.take(i + 1).drop_last() =~= entries.take(i));
}

/// A hash belongs to one of the entries.
proof fn lemma_hashes(entries: Seq<EntryView>, hash: H256)
    ensures
        hashes(entries).contains(hash) <==> exists|i: int|
            0 <= i < entries.len() && (#[trigger] entries[i]).extrinsic.hash == hash,
{
    let all = entries.map_values(|entry: EntryView| entry.extrinsic.hash);
    if all.contains(hash) {
        let i = choose|i: int| 0 <= i < all.len() && all[i] == hash;
        assert(entries[i].extrinsic.hash == hash);
    }
    if exists|i: int| 0 <= i < entries.len() && (#[trigger] entries[i]).extrinsic.hash == hash {
        let i = choose|i: int|
            0 <= i < entries.len() && (#[trigger] entries[i]).extrinsic.hash == hash;
        assert(all[i] == hash);
    }
}

/// The entries that are waited for are entries, and are waited for.
proof fn lemma_awaited(entries: Seq<EntryView>, waiting: Map<H256, Channel>, k: int)
    requires
        0 <= k < awaited(entries, waiting).len(),
    ensures
        entries.contains(awaited(entries, waiting)[k]),
        waiting.contains_key(awaited(entries, waiting)[k].extrinsic.hash),
{
    let pred = |entry: EntryView| waiting.contains_key(entry.extrinsic.hash);
    entries.lemma_filter_pred(pred, k);
    entries.lemma_filter_contains_rev(pred, awaited(entries, waiting)[k]);
}

/// Nothing is offered for a hash that no entry has.
proof fn lemma_no_offers(hash: H256, entries: Seq<EntryView>, notices: Seq<Notice>)
    requires
        forall|k: int|
            0 <= k < entries.len() ==> (#[trigger] entries[k]).extrinsic.hash != hash,
    ensures
        offers_to(hash, entries, notices) == Seq::<Offer>::empty(),
    decreases entries.len(),
{
    if entries.len() > 0 {
        lemma_no_offers(hash, entries.drop_last(), notices.drop_last());
    }
}

/// One more awaited entry and its notice keep what was told, and add an offer to
/// the channel of the entry.
proof fn lemma_told_step(
    block: Seq<EntryView>,
    before: Map<H256, Channel>,
    middle: Map<H256, Channel>,
    after: Map<H256, Channel>,
    notices: Seq<Notice>,
    notice: Notice,
    i: int,
)
    requires
        0 <= i < block.len(),
        before.contains_key(block[i].extrinsic.hash),
        all_told(notices, block.take(i), before),
        channels_told(before, middle, notices, block.take(i)),
        told(notice, block[i]),
        ({
            let hash = block[i].extrinsic.hash;
            &&& after == middle.insert(hash, after[hash])
            &&& continued(middle[hash], after[hash], seq![offer_of(block[i], notice)])
            &&& room_respected(notice, middle[hash].log(), middle[hash].limit())
        }),
    ensures
        all_told(notices.push(notice), block.take(i + 1), before),
        channels_told(before, after, notices.push(notice), block.take(i + 1)),
{
    let entry = block[i];
    let hash = entry.extrinsic.hash;
    let heard = awaited(block.take(i), before);
    let longer = notices.push(notice);
    lemma_awaited_step(block, before, i);
    assert(awaited(block.take(i + 1), before) == heard.push(entry));
    assert(heard.push(entry).drop_last() =~= heard);
    assert(longer.drop_last() =~= notices);
    assert(told_on(hash, before[hash], middle[hash], notices, block.take(i), before));
    assert forall|k: int| 0 <= k < longer.len() implies {
        let channel = before[heard.push(entry)[k].extrinsic.hash];
        room_respected(
            #[trigger] longer[k],
            channel.log() + offers_to(
                heard.push(entry)[k].extrinsic.hash,
                heard.push(entry).take(k),
                longer.take(k),
            ),
            channel.limit(),
        )
    } by {
        assert(heard.push(entry).take(k) =~= heard.take(k));
        assert(longer.take(k) =~= notices.take(k));
        if k < notices.len() {
            assert(longer[k] == notices[k]);
        } else {
            assert(heard.take(k) =~= heard);
            assert(notices.take(k) =~= notices);
        }
    }
    assert forall|k: int| 0 <= k < longer.len() implies told(
        #[trigger] longer[k],
        heard.push(entry)[k],
    ) by {
        if k < notices.len() {
            assert(told(notices[k], heard[k]));
        }
    }
    assert forall|other: H256| #[trigger] before.contains_key(other) implies told_on(
        other,
        before[other],
        after[other],
        longer,
        block.take(i + 1),
        before,
    ) by {
        assert(told_on(other, before[other], middle[other], notices, block.take(i), before));
        let more = offers_to(other, heard, notices);
        if other == hash {
            let offer = offer_of(entry, notice);
            assert(before[other].log() + more + seq![offer] =~= before[other].log() + more.push(
                offer,
            ));
        }
    }
    assert(after.dom() =~= before.dom());
}

/// Tells about the extrinsics of a block that are waited for, and waits for them
/// no longer.
pub fn process_block(
    entries: Vec<BlockEntry>,
    tracker: &mut ExtrinsicTracker,
) -> (result: Result<BlockReport, BlockError>)
    requires
        can_judge_all(views(entries@), old(tracker)@),
    ensures
        processed(views(entries@), old(tracker)@, result, final(tracker)@),
{
    let verdicts = examine_all(tracker, &entries);
    let ghost before = tracker@;
    let ghost block = views(entries@);
    let mut notices: Vec<Notice> = Vec::new();
    let mut notified: Vec<H256> = Vec::new();
    let mut i: usize = 0;
    proof {
        reveal(Seq::filter);
        assert(block.take(0) =~= Seq::empty());
        assert forall|hash: H256| #[trigger] before.contains_key(hash) implies told_on(
            hash,
            before[hash],
            before[hash],
            Seq::empty(),
            block.take(0),
            before,
        ) by {
            assert(before[hash].log() + Seq::<Offer>::empty() =~= before[hash].log());
        }
    }
    for entry in iter: entries
        invariant
            iter.seq() == entries@,
            i == iter.index(),
            before == old(tracker)@,
            block == views(entries@),
            verdicts@.len() == entries@.len(),
            verdicts.len() == verdicts@.len(),
            forall|j: int|
                0 <= j < entries@.len() ==> (#[trigger] verdicts@[j]) == verdict(
                    entries@[j]@,
                    before,
                ),
            all_decodable(block.take(i as int), before),
            all_told(notices@, block.take(i as int), before),
            channels_told(before, tracker@, notices@, block.take(i as int)),
            forall|hash: H256|
                notified@.contains(hash) <==> before.contains_key(hash) && exists|j: int|
                    0 <= j < i && (#[trigger] block[j]).extrinsic.hash == hash,
    {
        let hash = entry.extrinsic.hash;
        let ghost told_before = notified@;
        let ghost middle = tracker@;
        proof {
            lemma_awaited_step(block, before, i as int);
            assert(entry@ == block[i as int]);
            assert(before.contains_key(hash) ==> middle.contains_key(hash));
        }
        match verdicts[i] {
            Verdict::Undecodable => {
                return Err(BlockError { extrinsic: entry.extrinsic, notices });
            },
            Verdict::Untracked => {},
            Verdict::Succeeded => {
                let notice = tracker.tell(entry, true);
                proof {
                    lemma_told_step(block, before, middle, tracker@, notices@, notice, i as int);
                }
                notices.push(notice);
                notified.push(hash);
            },
            Verdict::Failed => {
                let notice = tracker.tell(entry, false);
                proof {
                    lemma_told_step(block, before, middle, tracker@, notices@, notice, i as int);
                }
                notices.push(notice);
                notified.push(hash);
            },
        }
        proof {
            assert forall|other: H256|
                notified@.contains(other) <==> before.contains_key(other) && exists|j: int|
                    0 <= j < i + 1 && (#[trigger] block[j]).extrinsic.hash == other by {
                assert(block[i as int].extrinsic.hash == hash);
                if notified@.len() == told_before.len() + 1 {
                    assert(notified@.last() == hash);
                    if told_before.contains(other) {
                        let k = told_before.index_of(other);
                        assert(notified@[k] == other);
                    }
                    if notified@.contains(other) && other != hash {
                        let k = notified@.index_of(other);
                        assert(told_before[k] == other);
                    }
                }
            }
        }
        i = i + 1;
    }
    assert(block.take(block.len() as int) =~= block);
    let ghost all = tracker@;
    let mut done: Vec<Done> = Vec::new();
    let mut k: usize = 0;
    proof {
        assert(all =~= all.remove_keys(Set::empty()));
    }
    while k < notified.len()
        invariant
            k <= notified@.len(),
            tracker@ == all.remove_keys(notified@.take(k as int).to_set()),
            all_ended(done@, all.restrict(notified@.take(k as int).to_set())),
            forall|n: int|
                0 <= n < done@.len() ==> (#[trigger] done@[n]).channel.last()
                    == all[done@[n].hash],
        decreases notified@.len() - k,
    {
        let hash = notified[k];
        let ghost earlier = done@;
        let ghost left = tracker@;
        if let Some(channel) = tracker.take(&hash) {
            done.push(Done { hash, channel: channel.close() });
        }
        proof {
            let first = notified@.take(k as int);
            let next = notified@.take(k + 1);
            assert(next =~= first.push(hash));
            assert forall|other: H256|
                next.to_set().contains(other) <==> first.to_set().contains(other) || other
                    == hash by {
                if first.contains(other) {
                    assert(next[first.index_of(other)] == other);
                }
                assert(next[k as int] == hash);
            }
            assert(tracker@ =~= all.remove_keys(next.to_set()));
            let (some, more) = (all.restrict(first.to_set()), all.restrict(next.to_set()));
            assert forall|n: int| 0 <= n < done@.len() implies more.contains_key(
                (#[trigger] done@[n]).hash,
            ) && done@[n].channel.last() == all[done@[n].hash] by {
                if n < earlier.len() {
                    assert(done@[n] == earlier[n]);
                    assert(some.contains_key(earlier[n].hash));
                }
            }
            assert forall|other: H256| #[trigger] more.contains_key(other) implies exists|n: int|
                0 <= n < done@.len() && (#[trigger] done@[n]).hash == other by {
                if some.contains_key(other) {
                    let n = choose|n: int|
                        0 <= n < earlier.len() && (#[trigger] earlier[n]).hash == other;
                    assert(done@[n] == earlier[n]);
                } else {
                    assert(left.contains_key(hash));
                    assert(done@[earlier.len() as int].hash == other);
                }
            }
            assert forall|m: int, n: int| 0 <= m < n < done@.len() implies (
            #[trigger] done@[m]).hash != (#[trigger] done@[n]).hash by {
                assert(done@[m] == earlier[m]);
                if n < earlier.len() {
                    assert(done@[n] == earlier[n]);
                } else {
                    assert(some.contains_key(earlier[m].hash));
                }
            }
        }
        k = k + 1;
    }
    proof {
        assert(notified@.take(k as int) =~= notified@);
        assert forall|hash: H256| before.contains_key(hash) implies (notified@.contains(hash)
            <==> hashes(block).contains(hash)) by {
            lemma_hashes(block, hash);
        }
        assert forall|hash: H256| before.contains_key(hash) && !notified@.contains(hash) implies
            all[hash] == before[hash] by {
            let heard = awaited(block, before);
            assert forall|k: int| 0 <= k < heard.len() implies (
            #[trigger] heard[k]).extrinsic.hash != hash by {
                lemma_awaited(block, before, k);
                let j = block.index_of(heard[k]);
                assert(block[j] == heard[k]);
            }
            lemma_no_offers(hash, heard, notices@);
            assert(told_on(hash, before[hash], all[hash], notices@, block, before));
        }
        assert(tracker@ =~= before.remove_keys(hashes(block)));
        let (ended, gone) = (all.restrict(notified@.to_set()), before.restrict(hashes(block)));
        assert forall|hash: H256| ended.contains_key(hash) <==> #[trigger] gone.contains_key(
            hash,
        ) by {
            assert(notified@.contains(hash) ==> before.contains_key(hash));
        }
        assert forall|k: int| 0 <= k < done@.len() implies told_on(
            (#[trigger] done@[k]).hash,
            before[done@[k].hash],
            done@[k].channel.last(),
            notices@,
            block,
            before,
        ) by {
            assert(ended.contains_key(done@[k].hash));
            assert(before.contains_key(done@[k].hash));
        }
    }
    Ok(BlockReport { notices, done })
}

/// The event belongs to the extrinsic with this index.
pub open spec fn belongs(event: EventDetails, index: int) -> bool {
    event.phase matches Phase::ApplyExtrinsic(i) && i == index
}

/// The events of the extrinsic with this index, in order.
pub open spec fn events_of(events: Seq<EventDetails>, index: int) -> Seq<EventDetails> {
    events.filter(|event: EventDetails| belongs(event, index))
}

/// The extrinsics of a block, each with its events.
pub open spec fn grouped(
    extrinsics: Seq<ExtrinsicDetails>,
    events: Seq<EventDetails>,
) -> Seq<EntryView> {
    Seq::new(
        extrinsics.len(),
        |i: int| EntryView { extrinsic: extrinsics[i], events: events_of(events, i) },
    )
}

/// The event is of no extrinsic, or of one that stands at its index.
pub open spec fn can_place(extrinsics: Seq<ExtrinsicDetails>, event: EventDetails) -> bool {
    event.phase matches Phase::ApplyExtrinsic(i) ==> i < extrinsics.len()
        && extrinsics[i as int].index == i
}

/// All events can be placed.
pub open spec fn can_place_all(
    extrinsics: Seq<ExtrinsicDetails>,
    events: Seq<EventDetails>,
) -> bool {
    forall|j: int| 0 <= j < events.len() ==> can_place(extrinsics, #[trigger] events[j])
}

/// Whether all events can be placed.
pub fn placeable(extrinsics: &Vec<ExtrinsicDetails>, events: &Vec<EventDetails>) -> (placed: bool)
    ensures
        placed == can_place_all(extrinsics@, events@),
{
    let mut j: usize = 0;
    while j < events.len()
        invariant
            j <= events@.len(),
            forall|k: int| 0 <= k < j ==> can_place(extrinsics@, #[trigger] events@[k]),
        decreases events@.len() - j,
    {
        if let Phase::ApplyExtrinsic(index) = events[j].phase {
            let i: usize = index as usize;
            if i >= extrinsics.len() || extrinsics[i].index != index {
                assert(!can_place(extrinsics@, events@[j as int]));
                return false;
            }
        }
        j = j + 1;
    }
    true
}

/// One more event adds itself to those of its extrinsic.
proof fn lemma_events_step(events: Seq<EventDetails>, j: int, index: int)
    requires
        0 <= j < events.len(),
    ensures
        events_of(events.take(j + 1), index) == if belongs(events[j], index) {
            events_of(events.take(j), index).push(events[j])
        } else {
            events_of(events.take(j), index)
        },
{
    reveal(Seq::filter);
    assert(events.take(j + 1).drop_last() =~= events.take(j));
}

/// Gives each extrinsic of a block its events.
pub fn group_events(
    extrinsics: Vec<ExtrinsicDetails>,
    events: Vec<EventDetails>,
) -> (entries: Vec<BlockEntry>)
    requires
        can_place_all(extrinsics@, events@),
    ensures
        views(entries@) == grouped(extrinsics@, events@),
{
    let mut entries: Vec<BlockEntry> = Vec::new();
    for extrinsic in iter: extrinsics
        invariant
            iter.seq() == extrinsics@,
            entries@.len() == iter.index(),
            forall|i: int|
                0 <= i < entries@.len() ==> (#[trigger] entries@[i]).extrinsic == extrinsics@[i]
                    && entries@[i].events@ == Seq::<EventDetails>::empty(),
    {
        entries.push(BlockEntry { extrinsic, events: Vec::new() });
    }
    let ghost mut count: int = 0;
    proof {
        reveal(Seq::filter);
        assert(events@.take(0) =~= Seq::empty());
    }
    for event in iter: events
        invariant
            iter.seq() == events@,
            count == iter.index(),
            can_place_all(extrinsics@, events@),
            entries@.len() == extrinsics@.len(),
            forall|i: int|
                0 <= i < entries@.len() ==> (#[trigger] entries@[i]).extrinsic == extrinsics@[i]
                    && entries@[i].events@ == events_of(events@.take(count), i),
    {
        proof {
            assert(can_place(extrinsics@, events@[count]));
            assert forall|i: int| #[trigger]
                events_of(events@.take(count + 1), i) == if belongs(event, i) {
                    events_of(events@.take(count), i).push(event)
                } else {
                    events_of(events@.take(count), i)
                } by {
                lemma_events_step(events@, count, i);
            }
        }
        if let Phase::ApplyExtrinsic(index) = event.phase {
            let i: usize = index as usize;
            entries[i].events.push(event);
        }
        proof {
            count = count + 1;
        }
    }
    proof {
        assert(events@.take(count) =~= events@);
        assert(views(entries@) =~= grouped(extrinsics@, events@));
    }
    entries
}

/// `last` is the place of the last event of the extrinsic with this index; none
/// where it has no event.
pub open spec fn is_last(last: Option<usize>, events: Seq<EventDetails>, index: int) -> bool {
    match last {
        None => events_of(events, index).len() == 0,
        Some(j) => j < events.len() && events_of(events, index).len() > 0 && events_of(
            events,
            index,
        ).last() == events[j as int],
    }
}

/// Places of the last events of the extrinsics.
fn last_events(
    extrinsics: &Vec<ExtrinsicDetails>,
    events: &Vec<EventDetails>,
) -> (last: Vec<Option<usize>>)
    requires
        can_place_all(extrinsics@, events@),
    ensures
        last@.len() == extrinsics@.len(),
        forall|i: int| 0 <= i < last@.len() ==> is_last(#[trigger] last@[i], events@, i),
{
    let mut last: Vec<Option<usize>> = Vec::new();
    while last.len() < extrinsics.len()
        invariant
            last@.len() <= extrinsics@.len(),
            forall|i: int| 0 <= i < last@.len() ==> (#[trigger] last@[i]) is None,
        decreases extrinsics@.len() - last@.len(),
    {
        last.push(None);
    }
    proof {
        reveal(Seq::filter);
        assert(events@.take(0) =~= Seq::empty());
    }
    let mut j: usize = 0;
    while j < events.len()
        invariant
            j <= events@.len(),
            can_place_all(extrinsics@, events@),
            last@.len() == extrinsics@.len(),
            forall|i: int|
                0 <= i < last@.len() ==> is_last(#[trigger] last@[i], events@.take(j as int), i),
        decreases events@.len() - j,
    {
        let ghost before = last@;
        assert(can_place(extrinsics@, events@[j as int]));
        if let Phase::ApplyExtrinsic(index) = events[j].phase {
            last.set(index as usize, Some(j));
        }
        proof {
            assert forall|i: int| 0 <= i < last@.len() implies is_last(
                #[trigger] last@[i],
                events@.take(j + 1),
                i,
            ) by {
                assert(is_last(before[i], events@.take(j as int), i));
                lemma_events_step(events@, j as int, i);
            }
        }
        j = j + 1;
    }
    assert(events@.take(j as int) =~= events@);
    last
}

/// Follows the finalized blocks.
pub struct Monitor {
    pub tracker: ExtrinsicTracker,
}

impl Monitor {
    /// Waits for nothing.
    pub fn new() -> (monitor: Monitor)
        ensures
            monitor.tracker@ == Map::<H256, Channel>::empty(),
    {
        Monitor { tracker: ExtrinsicTracker::default() }
    }

    /// Whether the extrinsics and the events can be those of a block: all events can
    /// be placed, and each extrinsic can be judged by its events.
    pub fn accepts(
        &self,
        extrinsics: &Vec<ExtrinsicDetails>,
        events: &Vec<EventDetails>,
    ) -> (accepted: bool)
        ensures
            accepted == (can_place_all(extrinsics@, events@) && can_judge_all(
                grouped(extrinsics@, events@),
                self.tracker@,
            )),
    {
        if !placeable(extrinsics, events) {
            return false;
        }
        let last = last_events(extrinsics, events);
        let mut i: usize = 0;
        while i < extrinsics.len()
            invariant
                i <= extrinsics@.len(),
                last@.len() == extrinsics@.len(),
                forall|k: int|
                    0 <= k < last@.len() ==> is_last(#[trigger] last@[k], events@, k),
                forall|k: int|
                    0 <= k < i ==> can_judge(
                        #[trigger] grouped(extrinsics@, events@)[k],
                        self.tracker@,
                    ),
            decreases extrinsics@.len() - i,
        {
            let ghost entry = grouped(extrinsics@, events@)[i as int];
            assert(is_last(last@[i as int], events@, i as int));
            match last[i] {
                None => {
                    assert(!can_judge(entry, self.tracker@));
                    return false;
                },
                Some(j) => {
                    if self.tracker.channel(&extrinsics[i].hash).is_some() {
                        if let Some(RootEvent::Other) = events[j].root {
                            assert(!can_judge(entry, self.tracker@));
                            return false;
                        }
                    }
                },
            }
            i = i + 1;
        }
        true
    }

    /// Takes the extrinsics and the events of a finalized block: tells about those
    /// that are waited for, and waits for them no longer.
    pub fn monitor(
        &mut self,
        extrinsics: Vec<ExtrinsicDetails>,
        events: Vec<EventDetails>,
    ) -> (result: Result<BlockReport, BlockError>)
        requires
            can_place_all(extrinsics@, events@),
            can_judge_all(grouped(extrinsics@, events@), old(self).tracker@),
        ensures
            processed(
                grouped(extrinsics@, events@),
                old(self).tracker@,
                result,
                final(self).tracker@,
            ),
    {
        let entries = group_events(extrinsics, events);
        process_block(entries, &mut self.tracker)
    }
}

/// An extrinsic that is waited for and stands in a block is told of and is waited
/// for no longer: its channel is ended, with what tells about it as the last offers,
/// and so its receiver is disconnected.
pub proof fn lemma_awaited_is_told(
    entries: Seq<EntryView>,
    before: Map<H256, Channel>,
    report: BlockReport,
    after: Map<H256, Channel>,
    i: int,
) -> (d: int)
    requires
        processed(entries, before, Ok(report), after),
        0 <= i < entries.len(),
        before.contains_key(entries[i].extrinsic.hash),
    ensures
        exists|k: int|
            0 <= k < report.notices@.len() && told(#[trigger] report.notices@[k], entries[i]),
        !after.contains_key(entries[i].extrinsic.hash),
        0 <= d < report.done@.len(),
        report.done@[d].hash == entries[i].extrinsic.hash,
        told_on(
            entries[i].extrinsic.hash,
            before[entries[i].extrinsic.hash],
            report.done@[d].channel.last(),
            report.notices@,
            entries,
            before,
        ),
        forall|rx: flume::Receiver<ChannelPayload>| #[trigger]
            before[entries[i].extrinsic.hash].feeds(rx) ==> report.done@[d].channel.cuts_off(rx),
{
    let hash = entries[i].extrinsic.hash;
    let pred = |entry: EntryView| before.contains_key(entry.extrinsic.hash);
    entries.lemma_filter_contains(pred, i);
    let k = awaited(entries, before).index_of(entries[i]);
    assert(told(report.notices@[k], awaited(entries, before)[k]));
    lemma_hashes(entries, hash);
    assert(before.restrict(hashes(entries)).contains_key(hash));
    let d = choose|d: int|
        0 <= d < report.done@.len() && (#[trigger] report.done@[d]).hash == hash;
    assert(report.done@[d].hash == hash);
    d
}

/// The offers for a hash that one entry alone has.
proof fn lemma_one_offer(
    hash: H256,
    entries: Seq<EntryView>,
    notices: Seq<Notice>,
    k: int,
)
    requires
        notices.len() == entries.len(),
        0 <= k < entries.len(),
        entries[k].extrinsic.hash == hash,
        forall|j: int|
            0 <= j < entries.len() && j != k ==> (#[trigger] entries[j]).extrinsic.hash != hash,
    ensures
        offers_to(hash, entries, notices) == seq![offer_of(entries[k], notices[k])],
    decreases entries.len(),
{
    let (shorter, rest) = (entries.drop_last(), notices.drop_last());
    if k == entries.len() - 1 {
        lemma_no_offers(hash, shorter, rest);
        assert(offers_to(hash, entries, notices) =~= seq![offer_of(entries[k], notices[k])]);
    } else {
        assert(shorter[k] == entries[k] && rest[k] == notices[k]);
        lemma_one_offer(hash, shorter, rest, k);
    }
}

/// Filtering keeps a value that occurs once where it occurs once.
proof fn lemma_awaited_once(
    entries: Seq<EntryView>,
    waiting: Map<H256, Channel>,
    i: int,
) -> (k: int)
    requires
        0 <= i < entries.len(),
        waiting.contains_key(entries[i].extrinsic.hash),
        forall|j: int|
            0 <= j < entries.len() && j != i ==> (#[trigger] entries[j]).extrinsic.hash
                != entries[i].extrinsic.hash,
    ensures
        0 <= k < awaited(entries, waiting).len(),
        awaited(entries, waiting)[k] == entries[i],
        forall|j: int|
            0 <= j < awaited(entries, waiting).len() && j != k ==> (#[trigger] awaited(
                entries,
                waiting,
            )[j]).extrinsic.hash != entries[i].extrinsic.hash,
    decreases entries.len(),
{
    let shorter = entries.drop_last();
    let last = entries.len() - 1;
    assert(entries.take(last) =~= shorter);
    assert(entries.take(last + 1) =~= entries);
    lemma_awaited_step(entries, waiting, last);
    if i == last {
        let heard = awaited(shorter, waiting);
        assert forall|j: int| 0 <= j < heard.len() implies (#[trigger] heard[j]).extrinsic.hash
            != entries[i].extrinsic.hash by {
            lemma_awaited(shorter, waiting, j);
            let n = shorter.index_of(heard[j]);
            assert(entries[n] == heard[j]);
        }
        heard.len() as int
    } else {
        assert(shorter[i] == entries[i]);
        assert forall|j: int| 0 <= j < shorter.len() && j != i implies (
        #[trigger] shorter[j]).extrinsic.hash != shorter[i].extrinsic.hash by {
            assert(shorter[j] == entries[j]);
        }
        let k = lemma_awaited_once(shorter, waiting, i);
        let heard = awaited(shorter, waiting);
        let longer = awaited(entries, waiting);
        assert forall|j: int| 0 <= j < longer.len() && j != k implies (
        #[trigger] longer[j]).extrinsic.hash != entries[i].extrinsic.hash by {
            if j < heard.len() {
                assert(longer[j] == heard[j]);
            }
        }
        k
    }
}

/// An extrinsic that is waited for and stands in the block once is told of exactly
/// once: its channel is offered its outcome and all its events, and nothing else.
/// A channel to which nothing was offered before takes the offer, unless nobody can
/// receive from it.
pub proof fn lemma_told_exactly_once(
    entries: Seq<EntryView>,
    before: Map<H256, Channel>,
    report: BlockReport,
    after: Map<H256, Channel>,
    i: int,
) -> (at: (int, int))
    requires
        processed(entries, before, Ok(report), after),
        0 <= i < entries.len(),
        before.contains_key(entries[i].extrinsic.hash),
        forall|j: int|
            0 <= j < entries.len() && j != i ==> (#[trigger] entries[j]).extrinsic.hash
                != entries[i].extrinsic.hash,
    ensures
        ({
            let (k, d) = at;
            let channel = before[entries[i].extrinsic.hash];
            let (notice, done) = (report.notices@[k], report.done@[d]);
            &&& 0 <= k < report.notices@.len()
            &&& 0 <= d < report.done@.len()
            &&& told(notice, entries[i])
            &&& done.hash == entries[i].extrinsic.hash
            &&& continued(channel, done.channel.last(), seq![offer_of(entries[i], notice)])
            &&& channel.log().len() == 0 && channel.limit() > 0 ==> (notice.delivery matches Err(
                error,
            ) ==> error is Disconnected)
        }),
{
    let hash = entries[i].extrinsic.hash;
    let heard = awaited(entries, before);
    let notices = report.notices@;
    let k = lemma_awaited_once(entries, before, i);
    let d = lemma_awaited_is_told(entries, before, report, after, i);
    lemma_one_offer(hash, heard, notices, k);
    assert(told(notices[k], heard[k]));
    lemma_no_offers(hash, heard.take(k), notices.take(k));
    let log = before[hash].log();
    if log.len() == 0 {
        assert(log + Seq::<Offer>::empty() =~= Seq::<Offer>::empty());
        reveal(Seq::filter);
        assert(crate::channel::taken(Seq::<Offer>::empty()) == 0);
        assert(room_respected(
            notices[k],
            log + offers_to(hash, heard.take(k), notices.take(k)),
            before[hash].limit(),
        ));
    }
    (k, d)
}

/// Of two blocks that bring an extrinsic, which is tracked before the first and not
/// again, only the first is told of: its receiver gets what tells about that block
/// and is then disconnected, and the second block tells nobody about it.
pub proof fn lemma_first_block_alone_tells(
    first: Seq<EntryView>,
    second: Seq<EntryView>,
    before: Map<H256, Channel>,
    report: BlockReport,
    between: Map<H256, Channel>,
    later: Result<BlockReport, BlockError>,
    after: Map<H256, Channel>,
    i: int,
    rx: flume::Receiver<ChannelPayload>,
) -> (d: int)
    requires
        processed(first, before, Ok(report), between),
        processed(second, between, later, after),
        0 <= i < first.len(),
        before.contains_key(first[i].extrinsic.hash),
        before[first[i].extrinsic.hash].feeds(rx),
    ensures
        0 <= d < report.done@.len(),
        report.done@[d].hash == first[i].extrinsic.hash,
        report.done@[d].channel.cuts_off(rx),
        told_on(
            first[i].extrinsic.hash,
            before[first[i].extrinsic.hash],
            report.done@[d].channel.last(),
            report.notices@,
            first,
            before,
        ),
        forall|k: int|
            0 <= k < notices_of(later).len() ==> (#[trigger] notices_of(later)[k]).extrinsic.hash
                != first[i].extrinsic.hash,
        !after.contains_key(first[i].extrinsic.hash),
{
    let d = lemma_awaited_is_told(first, before, report, between, i);
    lemma_unawaited_is_untold(second, between, later, after, first[i].extrinsic.hash);
    d
}

/// Nobody is told of an extrinsic that does not stand in the block, and it is
/// waited for as before, on the same channel, to which nothing is offered.
pub proof fn lemma_others_keep_waiting(
    entries: Seq<EntryView>,
    before: Map<H256, Channel>,
    result: Result<BlockReport, BlockError>,
    after: Map<H256, Channel>,
    hash: H256,
)
    requires
        processed(entries, before, result, after),
        forall|i: int|
            0 <= i < entries.len() ==> (#[trigger] entries[i]).extrinsic.hash != hash,
    ensures
        after.contains_key(hash) == before.contains_key(hash),
        before.contains_key(hash) ==> after[hash] == before[hash],
        forall|k: int|
            0 <= k < notices_of(result).len() ==> (#[trigger] notices_of(
                result,
            )[k]).extrinsic.hash != hash,
{
    match result {
        Ok(report) => {
            lemma_hashes(entries, hash);
            lemma_unnoticed(entries, before, report.notices@, hash);
        },
        Err(error) => {
            let i = choose|i: int|
                0 <= i < entries.len() && verdict(#[trigger] entries[i], before)
                    == Verdict::Undecodable && error.extrinsic == entries[i].extrinsic
                    && all_decodable(entries.take(i), before) && all_told(
                    error.notices@,
                    entries.take(i),
                    before,
                ) && channels_told(before, after, error.notices@, entries.take(i));
            let first = entries.take(i);
            assert forall|j: int| 0 <= j < first.len() implies (
            #[trigger] first[j]).extrinsic.hash != hash by {
                assert(first[j] == entries[j]);
            }
            lemma_unnoticed(first, before, error.notices@, hash);
            if before.contains_key(hash) {
                let heard = awaited(first, before);
                assert forall|k: int| 0 <= k < heard.len() implies (
                #[trigger] heard[k]).extrinsic.hash != hash by {
                    lemma_awaited(first, before, k);
                    let j = first.index_of(heard[k]);
                    assert(first[j] == heard[k]);
                }
                lemma_no_offers(hash, heard, error.notices@);
                assert(told_on(hash, before[hash], after[hash], error.notices@, first, before));
            }
        },
    }
}

/// The notices that a block brought.
pub open spec fn notices_of(result: Result<BlockReport, BlockError>) -> Seq<Notice> {
    match result {
        Ok(report) => report.notices@,
        Err(error) => error.notices@,
    }
}

/// No notice is about a hash that no entry has.
proof fn lemma_unnoticed(
    entries: Seq<EntryView>,
    before: Map<H256, Channel>,
    notices: Seq<Notice>,
    hash: H256,
)
    requires
        all_told(notices, entries, before),
        (forall|i: int|
            0 <= i < entries.len() ==> (#[trigger] entries[i]).extrinsic.hash != hash)
            || !before.contains_key(hash),
    ensures
        forall|k: int|
            0 <= k < notices.len() ==> (#[trigger] notices[k]).extrinsic.hash != hash,
{
    assert forall|k: int| 0 <= k < notices.len() implies (#[trigger] notices[k]).extrinsic.hash
        != hash by {
        let heard = awaited(entries, before);
        assert(told(notices[k], heard[k]));
        lemma_awaited(entries, before, k);
        let j = entries.index_of(heard[k]);
        assert(entries[j] == heard[k]);
    }
}

/// An extrinsic that is not waited for is told of to nobody, whatever block it
/// stands in, and is not waited for afterwards: one that was told of once, and is
/// not tracked again, is never told of again.
pub proof fn lemma_unawaited_is_untold(
    entries: Seq<EntryView>,
    before: Map<H256, Channel>,
    result: Result<BlockReport, BlockError>,
    after: Map<H256, Channel>,
    hash: H256,
)
    requires
        processed(entries, before, result, after),
        !before.contains_key(hash),
    ensures
        forall|k: int|
            0 <= k < notices_of(result).len() ==> (#[trigger] notices_of(
                result,
            )[k]).extrinsic.hash != hash,
        !after.contains_key(hash),
{
    match result {
        Ok(report) => lemma_unnoticed(entries, before, report.notices@, hash),
        Err(error) => {
            let i = choose|i: int|
                0 <= i < entries.len() && verdict(#[trigger] entries[i], before)
                    == Verdict::Undecodable && error.extrinsic == entries[i].extrinsic
                    && all_decodable(entries.take(i), before) && all_told(
                    error.notices@,
                    entries.take(i),
                    before,
                ) && channels_told(before, after, error.notices@, entries.take(i));
            lemma_unnoticed(entries.take(i), before, error.notices@, hash);
        },
    }
}

/// A block in which nothing is waited for cannot fail, tells nobody anything and
/// leaves what is waited for as it is.
pub proof fn lemma_unawaited_block(
    entries: Seq<EntryView>,
    before: Map<H256, Channel>,
    result: Result<BlockReport, BlockError>,
    after: Map<H256, Channel>,
)
    requires
        processed(entries, before, result, after),
        forall|i: int|
            0 <= i < entries.len() ==> !before.contains_key((#[trigger] entries[i]).extrinsic.hash),
    ensures
        result matches Ok(report) && report.notices@.len() == 0 && report.done@.len() == 0,
        after == before,
{
    let pred = |entry: EntryView| before.contains_key(entry.extrinsic.hash);
    assert forall|x: EntryView| entries.contains(x) implies !pred(x) by {
        let i = entries.index_of(x);
        assert(entries[i] == x);
    }
    entries.lemma_all_neg_filter_empty(pred);
    assert forall|hash: H256| before.contains_key(hash) implies !hashes(entries).contains(hash) by {
        lemma_hashes(entries, hash);
    }
    if let Ok(report) = result {
        assert(after =~= before);
        if report.done@.len() > 0 {
            assert(before.restrict(hashes(entries)).contains_key(report.done@[0].hash));
        }
    }
}

/// Every event of an extrinsic comes to that extrinsic and to no other, and no
/// other event does.
pub proof fn lemma_events_placed(
    extrinsics: Seq<ExtrinsicDetails>,
    events: Seq<EventDetails>,
    event: EventDetails,
    i: int,
)
    requires
        0 <= i < extrinsics.len(),
    ensures
        grouped(extrinsics, events)[i].events.contains(event) <==> events.contains(event)
            && belongs(event, i),
{
    let pred = |event: EventDetails| belongs(event, i);
    if events.contains(event) && belongs(event, i) {
        let j = events.index_of(event);
        events.lemma_filter_contains(pred, j);
    }
    if events_of(events, i).contains(event) {
        let k = events_of(events, i).index_of(event);
        events.lemma_filter_pred(pred, k);
        events.lemma_filter_contains_rev(pred, event);
    }
}

/// Tracking adds exactly the extrinsic: it is waited for on a channel that feeds the
/// receiver, holds one payload at most and was offered nothing yet; all others are
/// waited for as before.
pub proof fn lemma_tracking(
    before: Map<H256, Channel>,
    hash: H256,
    rx: flume::Receiver<ChannelPayload>,
    after: Map<H256, Channel>,
    other: H256,
)
    requires
        waits_anew(before, hash, rx, after),
    ensures
        after.contains_key(hash),
        after[hash].feeds(rx),
        after[hash].limit() == 1,
        after[hash].log().len() == 0,
        other != hash ==> after.contains_key(other) == before.contains_key(other),
        other != hash && before.contains_key(other) ==> after[other] == before[other],
{
}

/// A new monitor waits for nothing, and an extrinsic that is made from bytes has the
/// index given and the hash of the bytes.
pub proof fn lemma_begin(
    monitor: Monitor,
    index: u32,
    bytes: &[u8],
    extrinsic: ExtrinsicDetails,
    hash: H256,
)
    requires
        call_ensures(Monitor::new, (), monitor),
        call_ensures(ExtrinsicDetails::from_bytes, (index, bytes), extrinsic),
    ensures
        !monitor.tracker@.contains_key(hash),
        extrinsic.index == index,
        (extrinsic.hash.hi, extrinsic.hash.lo) == hash_halves(bytes@),
{
}

/// Filters that let the same through give the same.
proof fn lemma_same_filter<T>(list: Seq<T>, p: spec_fn(T) -> bool, q: spec_fn(T) -> bool)
    requires
        forall|x: T| #[trigger] p(x) == q(x),
    ensures
        list.filter(p) == list.filter(q),
    decreases list.len(),
{
    reveal(Seq::filter);
    if list.len() > 0 {
        lemma_same_filter(list.drop_last(), p, q);
        assert(p(list.last()) == q(list.last()));
    }
}

/// The entry at place `i` holds exactly the events whose phase names `i`, all of them
/// and in the order of the block.
pub proof fn lemma_events_by_phase(
    extrinsics: Seq<ExtrinsicDetails>,
    events: Seq<EventDetails>,
    i: int,
)
    requires
        can_place_all(extrinsics, events),
        0 <= i < extrinsics.len(),
    ensures
        grouped(extrinsics, events).len() == extrinsics.len(),
        grouped(extrinsics, events)[i].extrinsic == extrinsics[i],
        i <= u32::MAX ==> grouped(extrinsics, events)[i].events == events.filter(
            |event: EventDetails| event.phase == Phase::ApplyExtrinsic(i as u32),
        ),
        forall|j: int|
            0 <= j < grouped(extrinsics, events)[i].events.len() ==> (#[trigger] grouped(
                extrinsics,
                events,
            )[i].events[j]).phase == Phase::ApplyExtrinsic(extrinsics[i].index)
                && extrinsics[i].index == i,
        forall|k: int|
            0 <= k < events.len() && (#[trigger] events[k]).phase == Phase::ApplyExtrinsic(
                i as u32,
            ) && i <= u32::MAX ==> grouped(extrinsics, events)[i].events.contains(events[k]),
{
    let pred = |event: EventDetails| belongs(event, i);
    let entry = grouped(extrinsics, events)[i];
    if i <= u32::MAX {
        let by_phase = |event: EventDetails| event.phase == Phase::ApplyExtrinsic(i as u32);
        assert forall|event: EventDetails| #[trigger] pred(event) == by_phase(event) by {}
        lemma_same_filter(events, pred, by_phase);
    }
    assert forall|j: int| 0 <= j < entry.events.len() implies (#[trigger] entry.events[j]).phase
        == Phase::ApplyExtrinsic(extrinsics[i].index) && extrinsics[i].index == i by {
        events.lemma_filter_pred(pred, j);
        events.lemma_filter_contains_rev(pred, entry.events[j]);
        let k = events.index_of(entry.events[j]);
        assert(can_place(extrinsics, events[k]));
    }
    assert forall|k: int|
        0 <= k < events.len() && (#[trigger] events[k]).phase == Phase::ApplyExtrinsic(i as u32)
            && i <= u32::MAX implies entry.events.contains(events[k]) by {
        events.lemma_filter_contains(pred, k);
    }
}

/// Grouping gives the entry of each extrinsic the events whose phase names it.
pub proof fn lemma_grouping(
    extrinsics: Vec<ExtrinsicDetails>,
    events: Vec<EventDetails>,
    entries: Vec<BlockEntry>,
    i: int,
)
    requires
        can_place_all(extrinsics@, events@),
        call_ensures(group_events, (extrinsics, events), entries),
        0 <= i < extrinsics@.len(),
    ensures
        entries@.len() == extrinsics@.len(),
        entries@[i].extrinsic == extrinsics@[i],
        i <= u32::MAX ==> entries@[i].events@ == events@.filter(
            |event: EventDetails| event.phase == Phase::ApplyExtrinsic(i as u32),
        ),
        forall|j: int|
            0 <= j < entries@[i].events@.len() ==> (#[trigger] entries@[i].events@[j]).phase
                == Phase::ApplyExtrinsic(i as u32),
{
    lemma_events_by_phase(extrinsics@, events@, i);
    assert(views(entries@).len() == entries@.len());
    assert(views(entries@)[i] == entries@[i]@);
}

/// Events can be placed where each extrinsic that a phase names stands in the block,
/// at the place that is its index.
pub proof fn lemma_placing(
    extrinsics: Vec<ExtrinsicDetails>,
    events: Vec<EventDetails>,
    placed: bool,
)
    requires
        call_ensures(placeable, (&extrinsics, &events), placed),
    ensures
        placed == can_place_all(extrinsics@, events@),
        placed <==> forall|k: int|
            0 <= k < events@.len() ==> match (#[trigger] events@[k]).phase {
                Phase::ApplyExtrinsic(n) => n < extrinsics@.len() && extrinsics@[n as int].index
                    == n,
                Phase::Finalization | Phase::Initialization => true,
            },
{
    if placed {
        assert forall|k: int| 0 <= k < events@.len() implies match (#[trigger] events@[k]).phase {
            Phase::ApplyExtrinsic(n) => n < extrinsics@.len() && extrinsics@[n as int].index == n,
            Phase::Finalization | Phase::Initialization => true,
        } by {
            assert(can_place(extrinsics@, events@[k]));
        }
    } else {
        let k = choose|k: int|
            0 <= k < events@.len() && !can_place(extrinsics@, #[trigger] events@[k]);
        assert(events@[k].phase is ApplyExtrinsic);
    }
}

/// An entry can be judged where it has events and, if it is waited for, the last of
/// them says success or failure or cannot be decoded.
pub proof fn lemma_judging(entry: EntryView, waiting: Map<H256, Channel>)
    ensures
        can_judge(entry, waiting) <==> entry.events.len() > 0 && (
        !waiting.contains_key(entry.extrinsic.hash) || match entry.events.last().root {
            Some(RootEvent::ExtrinsicSuccess) => true,
            Some(RootEvent::ExtrinsicFailed) => true,
            Some(RootEvent::Other) => false,
            None => true,
        }),
{
}

/// Blocks are accepted where all events can be placed and all extrinsics judged, and
/// nowhere else.
pub proof fn lemma_accepting(
    monitor: Monitor,
    extrinsics: Vec<ExtrinsicDetails>,
    events: Vec<EventDetails>,
    accepted: bool,
    tracker: ExtrinsicTracker,
    entries: Vec<BlockEntry>,
    taken: bool,
)
    requires
        call_ensures(Monitor::accepts, (&monitor, &extrinsics, &events), accepted),
        call_ensures(ExtrinsicTracker::accepts, (&tracker, &entries), taken),
    ensures
        accepted <==> can_place_all(extrinsics@, events@) && forall|i: int|
            0 <= i < extrinsics@.len() ==> can_judge(
                EntryView {
                    extrinsic: #[trigger] extrinsics@[i],
                    events: events_of(events@, i),
                },
                monitor.tracker@,
            ),
        taken <==> forall|i: int|
            0 <= i < entries@.len() ==> can_judge((#[trigger] entries@[i])@, tracker@),
{
    let block = grouped(extrinsics@, events@);
    if accepted {
        assert forall|i: int| 0 <= i < extrinsics@.len() implies can_judge(
            EntryView { extrinsic: #[trigger] extrinsics@[i], events: events_of(events@, i) },
            monitor.tracker@,
        ) by {
            assert(can_judge(block[i], monitor.tracker@));
        }
    } else if can_place_all(extrinsics@, events@) {
        let i = choose|i: int|
            0 <= i < block.len() && !can_judge(#[trigger] block[i], monitor.tracker@);
        assert(block[i].extrinsic == extrinsics@[i]);
    }
    if taken {
        assert forall|i: int| 0 <= i < entries@.len() implies can_judge(
            (#[trigger] entries@[i])@,
            tracker@,
        ) by {
            assert(can_judge(views(entries@)[i], tracker@));
        }
    } else {
        let i = choose|i: int|
            0 <= i < views(entries@).len() && !can_judge(#[trigger] views(entries@)[i], tracker@);
        assert(views(entries@)[i] == entries@[i]@);
    }
}

/// The verdict on an entry is what its last event says, where it is waited for.
pub proof fn lemma_examining(tracker: ExtrinsicTracker, entry: BlockEntry, result: Verdict)
    requires
        can_judge(entry@, tracker@),
        call_ensures(ExtrinsicTracker::examine, (&tracker, &entry), result),
    ensures
        result is Untracked <==> !tracker@.contains_key(entry.extrinsic.hash),
        tracker@.contains_key(entry.extrinsic.hash) ==> match entry.events@.last().root {
            Some(RootEvent::ExtrinsicSuccess) => result is Succeeded,
            Some(RootEvent::ExtrinsicFailed) => result is Failed,
            Some(RootEvent::Other) => false,
            None => result is Undecodable,
        },
{
}

/// The entries of a block with a hash, in order.
pub open spec fn with_hash(entries: Seq<EntryView>, hash: H256) -> Seq<EntryView> {
    entries.filter(|entry: EntryView| entry.extrinsic.hash == hash)
}

/// The offers tell about the entries: one for each and in order, all its events, and
/// success exactly where the last event says so.
pub open spec fn tell_about(offers: Seq<Offer>, entries: Seq<EntryView>) -> bool {
    &&& offers.len() == entries.len()
    &&& forall|m: int|
        0 <= m < entries.len() ==> (#[trigger] offers[m]).events == entries[m].events
            && offers[m].success == (entries[m].events.last().root == Some(
            RootEvent::ExtrinsicSuccess,
        ))
}

/// The offers for a hash tell about the entries with that hash.
proof fn lemma_offers_tell(
    hash: H256,
    entries: Seq<EntryView>,
    waiting: Map<H256, Channel>,
    notices: Seq<Notice>,
)
    requires
        waiting.contains_key(hash),
        notices.len() == awaited(entries, waiting).len(),
    ensures
        tell_about(
            offers_to(hash, awaited(entries, waiting), notices),
            with_hash(entries, hash),
        ),
    decreases entries.len(),
{
    reveal(Seq::filter);
    if entries.len() > 0 {
        let last = entries.last();
        let shorter = entries.drop_last();
        let heard = awaited(shorter, waiting);
        if waiting.contains_key(last.extrinsic.hash) {
            assert(awaited(entries, waiting) == heard.push(last));
            assert(heard.push(last).drop_last() =~= heard);
            lemma_offers_tell(hash, shorter, waiting, notices.drop_last());
        } else {
            lemma_offers_tell(hash, shorter, waiting, notices);
        }
    }
}

/// What a block means for one hash that is waited for. Where no entry has it, it is
/// waited for as before. Where some do, it is waited for no longer: its channel is
/// ended, after it was offered what tells about those entries and nothing else.
pub proof fn lemma_block_for_one_hash(
    entries: Seq<EntryView>,
    before: Map<H256, Channel>,
    report: BlockReport,
    after: Map<H256, Channel>,
    hash: H256,
)
    requires
        processed(entries, before, Ok(report), after),
        before.contains_key(hash),
    ensures
        (forall|i: int| 0 <= i < entries.len() ==> (#[trigger] entries[i]).extrinsic.hash != hash)
            ==> after.contains_key(hash) && after[hash] == before[hash] && forall|d: int|
            0 <= d < report.done@.len() ==> (#[trigger] report.done@[d]).hash != hash,
        (exists|i: int| 0 <= i < entries.len() && (#[trigger] entries[i]).extrinsic.hash == hash)
            ==> !after.contains_key(hash) && exists|d: int|
            0 <= d < report.done@.len() && (#[trigger] report.done@[d]).hash == hash,
        forall|d: int|
            0 <= d < report.done@.len() && (#[trigger] report.done@[d]).hash == hash ==> ({
                let last = report.done@[d].channel.last();
                let old_log = before[hash].log();
                &&& last.log().len() >= old_log.len()
                &&& last.log().take(old_log.len() as int) == old_log
                &&& tell_about(last.log().skip(old_log.len() as int), with_hash(entries, hash))
                &&& last.limit() == before[hash].limit()
                &&& forall|rx: flume::Receiver<ChannelPayload>| #[trigger]
                    last.feeds(rx) == before[hash].feeds(rx)
            }),
{
    lemma_hashes(entries, hash);
    let gone = before.restrict(hashes(entries));
    if exists|i: int| 0 <= i < entries.len() && (#[trigger] entries[i]).extrinsic.hash == hash {
        assert(gone.contains_key(hash));
    } else {
        assert forall|d: int| 0 <= d < report.done@.len() implies (
        #[trigger] report.done@[d]).hash != hash by {
            assert(gone.contains_key(report.done@[d].hash));
        }
    }
    assert forall|d: int|
        0 <= d < report.done@.len() && (#[trigger] report.done@[d]).hash == hash implies ({
        let last = report.done@[d].channel.last();
        let old_log = before[hash].log();
        &&& last.log().len() >= old_log.len()
        &&& last.log().take(old_log.len() as int) == old_log
        &&& tell_about(last.log().skip(old_log.len() as int), with_hash(entries, hash))
        &&& last.limit() == before[hash].limit()
        &&& forall|rx: flume::Receiver<ChannelPayload>| #[trigger]
            last.feeds(rx) == before[hash].feeds(rx)
    }) by {
        let last = report.done@[d].channel.last();
        let old_log = before[hash].log();
        let more = offers_to(hash, awaited(entries, before), report.notices@);
        assert(told_on(hash, before[hash], last, report.notices@, entries, before));
        lemma_offers_tell(hash, entries, before, report.notices@);
        assert(last.log().take(old_log.len() as int) =~= old_log);
        assert(last.log().skip(old_log.len() as int) =~= more);
    }
}

/// The notices of a block are about the entries that are waited for, one for each and
/// in order: success exactly where the last event says so, and what comes back is
/// what was offered.
pub proof fn lemma_notices_of_a_block(
    entries: Seq<EntryView>,
    before: Map<H256, Channel>,
    report: BlockReport,
    after: Map<H256, Channel>,
    k: int,
)
    requires
        processed(entries, before, Ok(report), after),
        0 <= k < report.notices@.len(),
    ensures
        ({
            let heard = entries.filter(
                |entry: EntryView| before.contains_key(entry.extrinsic.hash),
            );
            let notice = report.notices@[k];
            &&& report.notices@.len() == heard.len()
            &&& notice.extrinsic == heard[k].extrinsic
            &&& notice.success == (heard[k].events.last().root == Some(
                RootEvent::ExtrinsicSuccess,
            ))
            &&& notice.delivery matches Err(DeliveryError::Full((success, events))) ==> success
                == notice.success && events@ == heard[k].events
            &&& notice.delivery matches Err(DeliveryError::Disconnected((success, events)))
                ==> success == notice.success && events@ == heard[k].events
        }),
{
    assert(told(report.notices@[k], awaited(entries, before)[k]));
}

/// A block fails where the last event of an entry that is waited for cannot be
/// decoded, and nowhere else; the first such entry is reported, and everything is
/// waited for as before, with the entries before it told of.
pub proof fn lemma_when_a_block_fails(
    entries: Seq<EntryView>,
    before: Map<H256, Channel>,
    result: Result<BlockReport, BlockError>,
    after: Map<H256, Channel>,
)
    requires
        processed(entries, before, result, after),
    ensures
        result is Err <==> exists|i: int|
            0 <= i < entries.len() && before.contains_key((#[trigger] entries[i]).extrinsic.hash)
                && entries[i].events.last().root is None,
        result matches Err(error) ==> after.dom() == before.dom() && exists|i: int| {
            &&& 0 <= i < entries.len()
            &&& (#[trigger] entries[i]).extrinsic == error.extrinsic
            &&& before.contains_key(entries[i].extrinsic.hash)
            &&& entries[i].events.last().root is None
            &&& forall|j: int|
                0 <= j < i && before.contains_key((#[trigger] entries[j]).extrinsic.hash)
                    ==> entries[j].events.last().root is Some
            &&& forall|hash: H256| #[trigger]
                before.contains_key(hash) ==> after[hash].log().len() >= before[hash].log().len()
                    && tell_about(
                    after[hash].log().skip(before[hash].log().len() as int),
                    with_hash(entries.take(i), hash),
                )
        },
{
    match result {
        Ok(_) => {
            assert forall|i: int|
                0 <= i < entries.len() && before.contains_key(
                    (#[trigger] entries[i]).extrinsic.hash,
                ) implies entries[i].events.last().root is Some by {
                assert(verdict(entries[i], before) != Verdict::Undecodable);
            }
        },
        Err(error) => {
            let i = choose|i: int|
                0 <= i < entries.len() && verdict(#[trigger] entries[i], before)
                    == Verdict::Undecodable && error.extrinsic == entries[i].extrinsic
                    && all_decodable(entries.take(i), before) && all_told(
                    error.notices@,
                    entries.take(i),
                    before,
                ) && channels_told(before, after, error.notices@, entries.take(i));
            let first = entries.take(i);
            assert(before.contains_key(entries[i].extrinsic.hash));
            assert forall|j: int|
                0 <= j < i && before.contains_key(
                    (#[trigger] entries[j]).extrinsic.hash,
                ) implies entries[j].events.last().root is Some by {
                assert(first[j] == entries[j]);
                assert(verdict(first[j], before) != Verdict::Undecodable);
            }
            assert forall|hash: H256| #[trigger] before.contains_key(hash) implies after[
                hash].log().len() >= before[hash].log().len() && tell_about(
                after[hash].log().skip(before[hash].log().len() as int),
                with_hash(first, hash),
            ) by {
                let more = offers_to(hash, awaited(first, before), error.notices@);
                assert(told_on(hash, before[hash], after[hash], error.notices@, first, before));
                lemma_offers_tell(hash, first, before, error.notices@);
                assert(after[hash].log().skip(before[hash].log().len() as int) =~= more);
            }
        },
    }
}

/// The offer to a channel that an extrinsic's only entry leads to is taken exactly
/// where its notice says so.
pub proof fn lemma_notice_tells_of_the_offer(
    entries: Seq<EntryView>,
    before: Map<H256, Channel>,
    report: BlockReport,
    after: Map<H256, Channel>,
    i: int,
) -> (at: (int, int))
    requires
        processed(entries, before, Ok(report), after),
        0 <= i < entries.len(),
        before.contains_key(entries[i].extrinsic.hash),
        forall|j: int|
            0 <= j < entries.len() && j != i ==> (#[trigger] entries[j]).extrinsic.hash
                != entries[i].extrinsic.hash,
    ensures
        ({
            let (k, d) = at;
            let (notice, done) = (report.notices@[k], report.done@[d]);
            let channel = before[entries[i].extrinsic.hash];
            &&& 0 <= k < report.notices@.len()
            &&& 0 <= d < report.done@.len()
            &&& notice.extrinsic == entries[i].extrinsic
            &&& done.hash == entries[i].extrinsic.hash
            &&& done.channel.last().log() == channel.log().push(
                (Offer {
                    success: entries[i].events.last().root == Some(RootEvent::ExtrinsicSuccess),
                    events: entries[i].events,
                    taken: notice.delivery is Ok,
                }),
            )
        }),
{
    let (k, d) = lemma_told_exactly_once(entries, before, report, after, i);
    let channel = before[entries[i].extrinsic.hash];
    let offer = offer_of(entries[i], report.notices@[k]);
    assert(channel.log() + seq![offer] =~= channel.log().push(offer));
    (k, d)
}

/// A block that is accepted is taken as it is grouped: the outcome for the extrinsics
/// and events is the outcome for the entries.
pub proof fn lemma_block_is_its_entries(
    extrinsics: Vec<ExtrinsicDetails>,
    events: Vec<EventDetails>,
    entries: Vec<BlockEntry>,
    before: Map<H256, Channel>,
    result: Result<BlockReport, BlockError>,
    after: Map<H256, Channel>,
)
    requires
        can_place_all(extrinsics@, events@),
        call_ensures(group_events, (extrinsics, events), entries),
    ensures
        processed(views(entries@), before, result, after) == processed(
            grouped(extrinsics@, events@),
            before,
            result,
            after,
        ),
        views(entries@).len() == entries@.len(),
        forall|i: int|
            0 <= i < entries@.len() ==> (#[trigger] views(entries@)[i]).extrinsic
                == entries@[i].extrinsic && views(entries@)[i].events == entries@[i].events@,
{
}

/// What is done was waited for and stands in the block, and is done once.
pub proof fn lemma_done_once(
    entries: Seq<EntryView>,
    before: Map<H256, Channel>,
    report: BlockReport,
    after: Map<H256, Channel>,
    c: int,
    d: int,
)
    requires
        processed(entries, before, Ok(report), after),
        0 <= c < report.done@.len(),
        0 <= d < report.done@.len(),
    ensures
        before.contains_key(report.done@[d].hash),
        exists|i: int|
            0 <= i < entries.len() && (#[trigger] entries[i]).extrinsic.hash
                == report.done@[d].hash,
        c != d ==> report.done@[c].hash != report.done@[d].hash,
{
    let gone = before.restrict(hashes(entries));
    assert(gone.contains_key(report.done@[d].hash));
    lemma_hashes(entries, report.done@[d].hash);
}

/// The notices of a block that failed are about the entries before the one that is
/// reported.
pub proof fn lemma_notices_before_a_failure(
    entries: Seq<EntryView>,
    before: Map<H256, Channel>,
    error: BlockError,
    after: Map<H256, Channel>,
)
    requires
        processed(entries, before, Err(error), after),
    ensures
        exists|i: int| {
            let heard = entries.take(i).filter(
                |entry: EntryView| before.contains_key(entry.extrinsic.hash),
            );
            &&& 0 <= i < entries.len()
            &&& (#[trigger] entries[i]).extrinsic == error.extrinsic
            &&& entries[i].events.last().root is None
            &&& error.notices@.len() == heard.len()
            &&& forall|k: int|
                0 <= k < heard.len() ==> (#[trigger] error.notices@[k]).extrinsic
                    == heard[k].extrinsic && error.notices@[k].success == (
                heard[k].events.last().root == Some(RootEvent::ExtrinsicSuccess))
        },
{
    let i = choose|i: int|
        0 <= i < entries.len() && verdict(#[trigger] entries[i], before) == Verdict::Undecodable
            && error.extrinsic == entries[i].extrinsic && all_decodable(entries.take(i), before)
            && all_told(error.notices@, entries.take(i), before) && channels_told(
            before,
            after,
            error.notices@,
            entries.take(i),
        );
    let heard = awaited(entries.take(i), before);
    assert forall|k: int| 0 <= k < heard.len() implies (
    #[trigger] error.notices@[k]).extrinsic == heard[k].extrinsic && error.notices@[k].success
        == (heard[k].events.last().root == Some(RootEvent::ExtrinsicSuccess)) by {
        assert(told(error.notices@[k], heard[k]));
    }
    assert(entries[i].extrinsic == error.extrinsic);
}

} // verus!
