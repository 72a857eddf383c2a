use vstd::prelude::*;

verus! {

use crate::codec::Message;
use crate::codec::SpecMessage;

// The event bus: a bounded multi-reader broadcast channel of decoded
// messages.  Publishing never blocks; a full ring fails the publish and the
// caller drops the message.  Each subscriber gets an independent cursor and
// sees every message broadcast after its subscription, in broadcast order.
// The channel itself is the `bus` crate's lock-free ring; this module keeps
// a ghost history of everything this handle has broadcast, so that the
// router's contracts can speak about what reached the bus.  What a reader
// returns depends on other threads, so the receive wrappers promise nothing
// about values.

#[verifier::external_type_specification]
#[verifier::external_body]
#[verifier::reject_recursive_types(T)]
pub struct ExBus<T>(bus::Bus<T>);

#[verifier::external_type_specification]
#[verifier::external_body]
#[verifier::reject_recursive_types(T)]
pub struct ExBusReader<T>(bus::BusReader<T>);

/// Relies on `bus::Bus::new`: allocates a broadcast ring that can hold
/// `capacity` undelivered messages.
#[verifier::external_body]
fn bus_new(capacity: usize) -> bus::Bus<Message> {
    bus::Bus::new(capacity)
}

/// Relies on `bus::Bus::try_broadcast`: it never blocks; it delivers the
/// message to every current reader's queue and returns `Ok`, or, when the
/// ring is full, delivers nothing and hands the message back.
#[verifier::external_body]
fn bus_try_broadcast(b: &mut bus::Bus<Message>, m: Message) -> (r: Result<(), Message>)
    ensures
        r matches Err(x) ==> x == m,
{
    b.try_broadcast(m)
}

/// Relies on `bus::Bus::add_rx`: a new reader whose cursor starts at the
/// present, so it will see exactly the broadcasts made after this call, in
/// broadcast order.
#[verifier::external_body]
fn bus_add_rx(b: &mut bus::Bus<Message>) -> bus::BusReader<Message> {
    b.add_rx()
}

/// Relies on `bus::BusReader::recv`: blocks until the next broadcast after
/// this reader's cursor arrives and returns it; returns nothing once the bus
/// has been dropped.  Which message arrives depends on the other threads, so
/// nothing is promised of the value.
#[verifier::external_body]
fn bus_recv(r: &mut bus::BusReader<Message>) -> Option<Message> {
    r.recv().ok()
}

/// Relies on `bus::BusReader::try_recv`: the next pending broadcast after
/// this reader's cursor, if one is already there, without blocking.
#[verifier::external_body]
fn bus_try_recv(r: &mut bus::BusReader<Message>) -> Option<Message> {
    r.try_recv().ok()
}

/// The ring was full: the message was delivered to nobody and is dropped.
#[derive(Clone, Copy, PartialEq, Eq, Structural, Debug)]
pub struct BusFullError;

/// The fan-out bus of decoded messages, with a ghost history of every
/// message successfully broadcast through this handle.
pub struct EventBus {
    inner: bus::Bus<Message>,
    history: Ghost<Seq<SpecMessage>>,
}

/// An independent reader cursor.  `start` remembers how long the history was
/// at subscription: only messages published after that can ever reach it.
pub struct Subscriber {
    inner: bus::BusReader<Message>,
    start: Ghost<int>,
}

impl EventBus {
    /// Everything successfully broadcast through this handle, oldest first.
    pub closed spec fn history(&self) -> Seq<SpecMessage> {
        self.history@
    }

    /// A fresh bus that can hold `capacity` undelivered messages.
    pub fn new(capacity: usize) -> (r: EventBus)
        ensures
            r.history() == Seq::<SpecMessage>::empty(),
    {
        EventBus { inner: bus_new(capacity), history: Ghost(Seq::empty()) }
    }

    /// Publishes a message to every current subscriber without blocking.
    /// On success the history grows by the message; a full ring delivers
    /// nothing, leaves the history alone, and reports the drop.
    pub fn push_message(&mut self, msg: Message) -> (r: Result<(), BusFullError>)
        ensures
            r is Ok ==> final(self).history() == old(self).history().push(msg@),
            r is Err ==> final(self).history() == old(self).history(),
    {
        let ghost m = msg@;
        match bus_try_broadcast(&mut self.inner, msg) {
            Ok(()) => {
                proof {
                    self.history@ = self.history@.push(m);
                }
                Ok(())
            },
            Err(_) => Err(BusFullError),
        }
    }

    /// Registers a new reader cursor.  The subscriber will see only the
    /// messages published after this call, each exactly once, in publish
    /// order; the history is untouched.
    pub fn get_receiver(&mut self) -> (r: Subscriber)
        ensures
            final(self).history() == old(self).history(),
            r.start() == old(self).history().len(),
    {
        let ghost at = self.history@.len() as int;
        let reader = bus_add_rx(&mut self.inner);
        Subscriber { inner: reader, start: Ghost(at) }
    }
}

impl Subscriber {
    /// The length the bus history had when this cursor was registered.
    pub closed spec fn start(&self) -> int {
        self.start@
    }

    /// The next message broadcast after this cursor, blocking until one
    /// arrives; nothing once the bus is gone.
    pub fn recv(&mut self) -> (r: Option<Message>)
        ensures
            final(self).start() == old(self).start(),
    {
        bus_recv(&mut self.inner)
    }

    /// The next pending message, if one is already there, without blocking.
    pub fn try_recv(&mut self) -> (r: Option<Message>)
        ensures
            final(self).start() == old(self).start(),
    {
        bus_try_recv(&mut self.inner)
    }
}

} // verus!
