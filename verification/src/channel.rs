//! Channels on which the outcome of an extrinsic is told.
use vstd::prelude::*;

use crate::monitor::ChannelPayload;
use crate::monitor::EventDetails;

verus! {

/// Sending half of a channel.
#[verifier::external_type_specification]
#[verifier::external_body]
#[verifier::reject_recursive_types(T)]
pub struct ExSender<T>(flume::Sender<T>);

/// Receiving half of a channel.
#[verifier::external_type_specification]
#[verifier::external_body]
#[verifier::reject_recursive_types(T)]
pub struct ExReceiver<T>(flume::Receiver<T>);

/// A payload that was offered to a channel.
pub struct Offer {
    /// The outcome that was told.
    pub success: bool,
    /// The events that were told.
    pub events: Seq<EventDetails>,
    /// Whether the channel took the payload.
    pub taken: bool,
}

/// The two halves belong to the same channel.
pub uninterp spec fn connected(
    tx: flume::Sender<ChannelPayload>,
    rx: flume::Receiver<ChannelPayload>,
) -> bool;

/// How many payloads the channel can hold.
pub uninterp spec fn room(tx: flume::Sender<ChannelPayload>) -> nat;

/// What was offered to the channel since it was made, in order.
pub uninterp spec fn offers(tx: flume::Sender<ChannelPayload>) -> Seq<Offer>;

/// Number of offers that the channel took.
pub open spec fn taken(log: Seq<Offer>) -> nat {
    log.filter(|offer: Offer| offer.taken).len()
}

/// Why a channel did not take a payload, which comes back.
pub enum DeliveryError {
    /// The channel holds as much as it can.
    Full(ChannelPayload),
    /// Nobody can receive from the channel.
    Disconnected(ChannelPayload),
}

impl DeliveryError {
    /// The payload that comes back.
    pub open spec fn payload(self) -> ChannelPayload {
        match self {
            DeliveryError::Full(payload) => payload,
            DeliveryError::Disconnected(payload) => payload,
        }
    }
}

/// The only sending half of a channel.
pub struct Channel {
    tx: flume::Sender<ChannelPayload>,
}

/// Calls `flume::bounded`. Trusted: the two halves belong to the same channel,
/// which holds at most `limit` payloads and to which nothing was offered yet.
#[verifier::external_body]
fn bounded(limit: usize) -> (halves: (
    flume::Sender<ChannelPayload>,
    flume::Receiver<ChannelPayload>,
))
    ensures
        connected(halves.0, halves.1),
        room(halves.0) == limit,
        offers(halves.0) == Seq::<Offer>::empty(),
{
    flume::bounded(limit)
}

/// Calls `flume::Sender::try_send`. Trusted: the payload is offered to the channel,
/// once, and comes back where it is not taken. The channel is full only where it
/// took as many payloads before as it can hold: this is its only sending half, so
/// it holds no others. It stays the same channel. Whether it takes the payload
/// depends, besides, on the other half.
#[verifier::external_body]
fn try_send(channel: &mut Channel, payload: ChannelPayload) -> (result: Result<(), DeliveryError>)
    ensures
        offers(final(channel).tx) == offers(old(channel).tx).push(
            (Offer { success: payload.0, events: payload.1@, taken: result is Ok }),
        ),
        room(final(channel).tx) == room(old(channel).tx),
        forall|rx: flume::Receiver<ChannelPayload>| #[trigger]
            connected(final(channel).tx, rx) == connected(old(channel).tx, rx),
        result matches Err(error) ==> error.payload() == payload,
        result matches Err(DeliveryError::Full(_)) ==> taken(offers(old(channel).tx)) >= room(
            old(channel).tx,
        ),
{
    channel.tx.try_send(payload).map_err(
        |error|
            match error {
                flume::TrySendError::Full(payload) => DeliveryError::Full(payload),
                flume::TrySendError::Disconnected(payload) => DeliveryError::Disconnected(payload),
            },
    )
}

/// What is left of a channel whose only sending half was dropped: its receivers are
/// disconnected, once they took what it still holds, and nothing can be offered to
/// it.
pub struct Ended {
    last: Ghost<Channel>,
}

impl Ended {
    /// The channel as it was in the end.
    pub closed spec fn last(self) -> Channel {
        self.last@
    }

    /// The receiver belongs to the channel, and so is disconnected.
    pub open spec fn cuts_off(self, rx: flume::Receiver<ChannelPayload>) -> bool {
        self.last().feeds(rx)
    }
}

/// Drops the `flume::Sender` of a channel, by `std::mem::drop`. Trusted: nothing
/// more is offered to the channel, and its receivers are disconnected.
#[verifier::external_body]
fn drop_sender(channel: Channel) -> (ended: Ended)
    ensures
        ended.last@ == channel,
{
    let ended = Ended { last: Ghost(channel) };
    std::mem::drop(channel.tx);
    ended
}

impl Channel {
    /// What is offered comes to this receiver.
    pub closed spec fn feeds(self, rx: flume::Receiver<ChannelPayload>) -> bool {
        connected(self.tx, rx)
    }

    /// How many payloads the channel can hold.
    pub closed spec fn limit(self) -> nat {
        room(self.tx)
    }

    /// What was offered to the channel, in order.
    pub closed spec fn log(self) -> Seq<Offer> {
        offers(self.tx)
    }

    /// A channel that holds at most `limit` payloads, and its receiver.
    pub(crate) fn new(limit: usize) -> (halves: (Channel, flume::Receiver<ChannelPayload>))
        ensures
            halves.0.feeds(halves.1),
            halves.0.limit() == limit,
            halves.0.log() == Seq::<Offer>::empty(),
    {
        let (tx, rx) = bounded(limit);
        (Channel { tx }, rx)
    }

    /// Offers a payload to the channel.
    pub(crate) fn send(&mut self, payload: ChannelPayload) -> (result: Result<(), DeliveryError>)
        ensures
            final(self).log() == old(self).log().push(
                (Offer { success: payload.0, events: payload.1@, taken: result is Ok }),
            ),
            final(self).limit() == old(self).limit(),
            forall|rx: flume::Receiver<ChannelPayload>| #[trigger]
                final(self).feeds(rx) == old(self).feeds(rx),
            result matches Err(error) ==> error.payload() == payload,
            result matches Err(DeliveryError::Full(_)) ==> taken(old(self).log())
                >= old(self).limit(),
    {
        try_send(self, payload)
    }

    /// Drops the sending half.
    pub(crate) fn close(self) -> (ended: Ended)
        ensures
            ended.last() == self,
    {
        drop_sender(self)
    }
}

} // verus!
