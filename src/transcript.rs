use tokio::sync::broadcast::error::TryRecvError;
use tokio::sync::broadcast::{Receiver, Sender};
use vstd::prelude::*;

verus! {

#[verifier::external_type_specification]
#[verifier::external_body]
#[verifier::reject_recursive_types(T)]
pub struct ExSender<T>(Sender<T>);

#[verifier::external_type_specification]
#[verifier::external_body]
#[verifier::reject_recursive_types(T)]
pub struct ExReceiver<T>(Receiver<T>);

/// What a subscriber finds when it looks for the next event.
#[derive(Debug, PartialEq, Eq)]
pub enum Delivery {
    /// The next event.
    Event(String),
    /// The subscriber fell behind: this many events were skipped, and it goes
    /// on from the oldest event still buffered.
    Lagged(u64),
    /// Nothing new yet.
    Empty,
    /// The channel is closed: nothing more will come.
    Closed,
}

/// Relies on tokio's `broadcast::Sender::new`, which panics on a zero
/// capacity and on one above `usize::MAX / 2`.
#[verifier::external_body]
fn new_sender(capacity: usize) -> (r: Sender<String>)
    requires
        0 < capacity <= usize::MAX / 2,
{
    Sender::new(capacity)
}

/// Relies on tokio's `broadcast::Sender::send`, which never blocks: whether
/// the event reached at least one subscriber (with none it is dropped).
#[verifier::external_body]
fn send_event(tx: &Sender<String>, event: String) -> (r: bool) {
    tx.send(event).is_ok()
}

/// Relies on tokio's `broadcast::Sender::receiver_count`.
#[verifier::external_body]
fn count_receivers(tx: &Sender<String>) -> (r: usize) {
    tx.receiver_count()
}

/// Relies on tokio's `broadcast::Sender::subscribe`: a receiver of every
/// event sent after this call.
#[verifier::external_body]
fn new_receiver(tx: &Sender<String>) -> (r: Receiver<String>) {
    tx.subscribe()
}

/// Relies on tokio's `broadcast::Receiver::try_recv`, which never blocks.
#[verifier::external_body]
fn try_receive(rx: &mut Receiver<String>) -> (r: Delivery) {
    match rx.try_recv() {
        Ok(event) => Delivery::Event(event),
        Err(TryRecvError::Lagged(skipped)) => Delivery::Lagged(skipped),
        Err(TryRecvError::Empty) => Delivery::Empty,
        Err(TryRecvError::Closed) => Delivery::Closed,
    }
}

/// What a run does at its start barrier.
#[derive(Debug, Clone, Copy, PartialEq, Eq)]
pub enum BarrierAction {
    /// No one is watching yet: wait a moment and look again.
    Wait,
    /// Someone is watching: start the run.
    Start,
}

/// The start barrier's decision: a run waits until at least one subscriber
/// is present, so that its events are not silently dropped.
pub fn barrier_step(subscribers: usize) -> (r: BarrierAction)
    ensures
        r == if subscribers == 0 {
            BarrierAction::Wait
        } else {
            BarrierAction::Start
        },
{
    if subscribers == 0 {
        BarrierAction::Wait
    } else {
        BarrierAction::Start
    }
}

/// A broadcast channel of transcript events: one producer, any number of
/// subscribers, a bounded buffer, and a lag signal for subscribers that fall
/// behind.
pub struct TranscriptChannel {
    tx: Sender<String>,
}

/// One subscriber's view of a `TranscriptChannel`.
pub struct Subscription {
    rx: Receiver<String>,
}

impl TranscriptChannel {
    /// A channel that buffers at least `capacity` events (tokio rounds it up
    /// to a power of two).
    pub fn new(capacity: usize) -> (r: TranscriptChannel)
        requires
            0 < capacity <= usize::MAX / 2,
    {
        TranscriptChannel { tx: new_sender(capacity) }
    }

    /// Publishes `event` to the current subscribers, without blocking and
    /// without failing; with no subscribers the event is dropped. Whether
    /// any subscriber got it.
    pub fn publish(&self, event: String) -> (delivered: bool) {
        send_event(&self.tx, event)
    }

    /// How many subscribers there are now.
    pub fn subscriber_count(&self) -> (r: usize) {
        count_receivers(&self.tx)
    }

    /// A new subscriber, which receives every event published from now on.
    pub fn subscribe(&self) -> (r: Subscription) {
        Subscription { rx: new_receiver(&self.tx) }
    }
}

impl Subscription {
    /// The next event, a lag signal, or that there is nothing (yet).
    pub fn try_next(&mut self) -> (r: Delivery) {
        try_receive(&mut self.rx)
    }

    /// The underlying tokio receiver, for an asynchronous consumer.
    pub fn into_receiver(self) -> (r: Receiver<String>) {
        self.rx
    }
}

} // verus!
