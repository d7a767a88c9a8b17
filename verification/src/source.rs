//! Batches of events on their way from where they come in to where they are
//! stored.
use crate::event::MetricEvent;
use vstd::prelude::*;

verus! {

/// The end of a channel for one value that sends it.
#[verifier::external_type_specification]
#[verifier::external_body]
#[verifier::reject_recursive_types(T)]
pub struct ExSender<T>(tokio::sync::oneshot::Sender<T>);

/// The end of a channel for one value that receives it.
#[verifier::external_type_specification]
#[verifier::external_body]
#[verifier::reject_recursive_types(T)]
pub struct ExReceiver<T>(tokio::sync::oneshot::Receiver<T>);

/// That the sending end of a channel was dropped.
#[verifier::external_type_specification]
#[verifier::external_body]
pub struct ExRecvError(tokio::sync::oneshot::error::RecvError);

/// A share of a queue, given back when it is dropped.
#[verifier::external_type_specification]
#[verifier::external_body]
pub struct ExOwnedSemaphorePermit(tokio::sync::OwnedSemaphorePermit);

/// The channel that a sending end belongs to.
pub uninterp spec fn sender_channel(sender: tokio::sync::oneshot::Sender<()>) -> int;

/// The channel that a receiving end belongs to.
pub uninterp spec fn receiver_channel(receiver: tokio::sync::oneshot::Receiver<()>) -> int;

/// `tokio::sync::oneshot::channel`: both ends of one channel.
#[verifier::external_body]
fn ack_channel() -> (r: (tokio::sync::oneshot::Sender<()>, tokio::sync::oneshot::Receiver<()>))
    ensures
        sender_channel(r.0) == receiver_channel(r.1),
{
    tokio::sync::oneshot::channel()
}

/// Some events that belong together. Who sent them may want to know when they are
/// stored.
#[derive(Debug)]
pub struct Batch {
    pub events: Vec<MetricEvent>,
    /// Told once the events are stored; dropped where they could not be.
    pub ack: Option<tokio::sync::oneshot::Sender<()>>,
    /// The share of the queue that the events take up.
    pub permit: Option<tokio::sync::OwnedSemaphorePermit>,
}

impl Batch {
    /// A batch that nobody waits for.
    pub fn new(events: Vec<MetricEvent>) -> (r: Batch)
        ensures
            r.events == events,
            r.ack is None,
            r.permit is None,
    {
        Batch { events, ack: None, permit: None }
    }

    /// A batch, and the end of the channel on which to wait for it.
    pub fn with_ack(events: Vec<MetricEvent>) -> (r: (
        Batch,
        tokio::sync::oneshot::Receiver<()>,
    ))
        ensures
            r.0.events == events,
            match r.0.ack {
                Some(ack) => sender_channel(ack) == receiver_channel(r.1),
                None => false,
            },
            r.0.permit is None,
    {
        let (tx, rx) = ack_channel();
        (Batch { events, ack: Some(tx), permit: None }, rx)
    }
}

/// How large a share of a queue so many events take up: one for each, but at least
/// one, and no more than the queue has, or it would never be given.
pub open spec fn share(events: nat, capacity: nat) -> nat {
    let most: nat = if capacity < 0xffff_ffff {
        capacity
    } else {
        0xffff_ffff
    };
    if events < 1 {
        1
    } else if events > most {
        most
    } else {
        events
    }
}

/// How large a share of a queue to ask for.
pub fn permits(events: usize, capacity: usize) -> (r: u32)
    requires
        capacity >= 1,
    ensures
        r == share(events as nat, capacity as nat),
        1 <= r <= capacity,
{
    let most: u32 = if capacity < 0xffff_ffff {
        capacity as u32
    } else {
        0xffff_ffff
    };
    if events < 1 {
        1
    } else if events > most as usize {
        most
    } else {
        events as u32
    }
}

/// What to do with events that are to be sent.
#[derive(Debug)]
pub enum Sending {
    /// There are none.
    Nothing,
    /// Ask for this share of the queue, and then send the batch.
    Reserve(u32, Batch),
}

/// What to do with events that are to be sent and not waited for.
pub fn plan_send(events: Vec<MetricEvent>, capacity: usize) -> (r: Sending)
    requires
        events@.len() == 0 || capacity >= 1,
    ensures
        match r {
            Sending::Nothing => events@.len() == 0,
            Sending::Reserve(permits, batch) => {
                &&& events@.len() > 0
                &&& permits == share(events@.len(), capacity as nat)
                &&& batch.events == events
                &&& batch.ack is None
                &&& batch.permit is None
            },
        },
{
    if events.len() == 0 {
        Sending::Nothing
    } else {
        let wanted: u32 = permits(events.len(), capacity);
        Sending::Reserve(wanted, Batch::new(events))
    }
}

/// A batch that holds its share of the queue.
pub fn admitted(batch: Batch, permit: tokio::sync::OwnedSemaphorePermit) -> (r: Batch)
    ensures
        r == (Batch { permit: Some(permit), ..batch }),
{
    Batch { permit: Some(permit), ..batch }
}

/// Events within the capacity take up one each, and none take up one; more than the
/// capacity take up all of it, as far as a queue can be asked for.
pub proof fn lemma_shares(events: nat, capacity: nat)
    requires
        capacity >= 1,
    ensures
        1 <= events <= capacity && events <= 0xffff_ffff ==> share(events, capacity) == events,
        events == 0 ==> share(events, capacity) == 1,
        events >= capacity && capacity <= 0xffff_ffff ==> share(events, capacity) == capacity,
        events >= 0xffff_ffff && capacity >= 0xffff_ffff ==> share(events, capacity)
            == 0xffff_ffff,
{
}

} // verus!
