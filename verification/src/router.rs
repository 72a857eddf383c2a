use vstd::prelude::*;

verus! {

use crate::codec::Message;
use crate::codec::Notification;
use crate::codec::NotificationBody;
use crate::codec::ORIGIN_TAG;
use crate::codec::Pin;
use crate::codec::PinOperation;
use crate::codec::PinRead;
use crate::codec::SetPin;
use crate::codec::SpecMessage;
use crate::codec::SpecMessageBody;
use crate::codec::SpecNotification;
use crate::codec::Timestamp;
use crate::codec::decode_message;
use crate::codec::lemma_message_round_trip;
use crate::codec::lemma_notification_round_trip;
use crate::codec::spec_decode_message;
use crate::codec::spec_encode_message;
use crate::codec::validate_msg;
use crate::eventbus::BusFullError;
use crate::eventbus::EventBus;
use crate::eventbus::Subscriber;

// The GATT command router.  Inbound writes carry one encoded message each:
// the router decodes the bytes, checks the origin tag and publishes the
// message on the event bus, and reports success to the peer whatever
// happened - completion of the write must not reveal which check failed.
// Outbound, notifications are encoded and sent to every registered
// connection.  The registry is a fixed array of connection handles, slot
// value 0 meaning unused; the state machine tracks the link lifecycle,
// including the stop sequence whose ordering the radio hardware demands.

/// Reverses the sixteen bytes of a 128-bit service UUID: the BLE host stack
/// stores UUIDs least-significant byte first.
pub fn inv(bytes: [u8; 16]) -> (r: [u8; 16])
    ensures
        forall|i: int| 0 <= i < 16 ==> r@[i] == bytes@[15 - i],
{
    [
        bytes[15],
        bytes[14],
        bytes[13],
        bytes[12],
        bytes[11],
        bytes[10],
        bytes[9],
        bytes[8],
        bytes[7],
        bytes[6],
        bytes[5],
        bytes[4],
        bytes[3],
        bytes[2],
        bytes[1],
        bytes[0],
    ]
}

/// Tracks the active BLE connection handles for multicast notify: a
/// fixed-capacity array of slots, 0 meaning unused.
pub struct ConnectionRegistry {
    slots: Vec<u16>,
}

impl ConnectionRegistry {
    /// The slot array: position `i` holds the handle registered there, or 0.
    pub closed spec fn slots_view(&self) -> Seq<u16> {
        self.slots@
    }

    /// A registry of `capacity` empty slots.
    pub fn new(capacity: usize) -> (r: ConnectionRegistry)
        ensures
            r.slots_view() == Seq::new(capacity as nat, |i: int| 0u16),
    {
        let mut slots: Vec<u16> = Vec::new();
        let mut i: usize = 0;
        while i < capacity
            invariant
                i <= capacity,
                slots@ =~= Seq::new(i as nat, |j: int| 0u16),
            decreases capacity - i,
        {
            slots.push(0);
            i = i + 1;
        }
        proof {
            assert(slots@ =~= Seq::new(capacity as nat, |i: int| 0u16));
        }
        ConnectionRegistry { slots }
    }

    /// Registers a connection handle in the first unused slot.  Succeeds
    /// exactly when an unused slot exists; nothing else changes.
    pub fn register(&mut self, handle: u16) -> (ok: bool)
        requires
            handle != 0,
        ensures
            ok <==> exists|i: int|
                0 <= i < old(self).slots_view().len() && old(self).slots_view()[i] == 0,
            ok ==> exists|i: int|
                {
                    &&& 0 <= i < old(self).slots_view().len()
                    &&& old(self).slots_view()[i] == 0
                    &&& (forall|j: int| 0 <= j < i ==> old(self).slots_view()[j] != 0)
                    &&& final(self).slots_view() == old(self).slots_view().update(i, handle)
                },
            !ok ==> final(self).slots_view() == old(self).slots_view(),
    {
        let mut i: usize = 0;
        while i < self.slots.len()
            invariant
                i <= self.slots@.len(),
                self == old(self),
                forall|j: int| 0 <= j < i ==> self.slots_view()[j] != 0,
            decreases self.slots@.len() - i,
        {
            if self.slots[i] == 0 {
                proof {
                    let w = i as int;
                    assert(0 <= w < old(self).slots_view().len() && old(self).slots_view()[w]
                        == 0);
                }
                self.slots.set(i, handle);
                proof {
                    let w = i as int;
                    assert(self.slots_view() =~= old(self).slots_view().update(w, handle));
                    assert(0 <= w < old(self).slots_view().len() && old(self).slots_view()[w] == 0
                        && (forall|j: int| 0 <= j < w ==> old(self).slots_view()[j] != 0)
                        && self.slots_view() == old(self).slots_view().update(w, handle));
                }
                return true;
            }
            i = i + 1;
        }
        false
    }

    /// Clears every slot holding the handle.
    pub fn remove(&mut self, handle: u16) -> (found: bool)
        ensures
            final(self).slots_view().len() == old(self).slots_view().len(),
            forall|i: int|
                0 <= i < old(self).slots_view().len() ==> final(self).slots_view()[i] == (
                if old(self).slots_view()[i] == handle {
                    0u16
                } else {
                    old(self).slots_view()[i]
                }),
            found <==> exists|i: int|
                0 <= i < old(self).slots_view().len() && old(self).slots_view()[i] == handle,
    {
        let mut found = false;
        let mut i: usize = 0;
        while i < self.slots.len()
            invariant
                i <= self.slots@.len(),
                self.slots@.len() == old(self).slots_view().len(),
                forall|j: int|
                    0 <= j < i ==> self.slots@[j] == (if old(self).slots_view()[j] == handle {
                        0u16
                    } else {
                        old(self).slots_view()[j]
                    }),
                forall|j: int| i <= j < self.slots@.len() ==> self.slots@[j] == old(
                    self,
                ).slots_view()[j],
                found ==> exists|j: int| 0 <= j < i && old(self).slots_view()[j] == handle,
                !found ==> forall|j: int| 0 <= j < i ==> old(self).slots_view()[j] != handle,
            decreases self.slots@.len() - i,
        {
            if self.slots[i] == handle {
                proof {
                    let w = i as int;
                    assert(0 <= w < i + 1 && old(self).slots_view()[w] == handle);
                }
                self.slots.set(i, 0);
                found = true;
            }
            i = i + 1;
        }
        found
    }

    /// The registered handles, in slot order.
    pub fn active_handles(&self) -> (r: Vec<u16>)
        ensures
            r@ == self.slots_view().filter(|h: u16| h != 0),
    {
        let mut out: Vec<u16> = Vec::new();
        let mut i: usize = 0;
        proof {
            reveal_with_fuel(Seq::filter, 1);
            assert(self.slots_view().take(0) =~= Seq::<u16>::empty());
            assert(Seq::<u16>::empty().filter(|h: u16| h != 0) =~= Seq::<u16>::empty());
        }
        while i < self.slots.len()
            invariant
                i <= self.slots@.len(),
                out@ == self.slots_view().take(i as int).filter(|h: u16| h != 0),
            decreases self.slots@.len() - i,
        {
            let h = self.slots[i];
            proof {
                reveal_with_fuel(Seq::filter, 1);
                let taken = self.slots_view().take(i as int + 1);
                assert(taken.drop_last() =~= self.slots_view().take(i as int));
                assert(taken.last() == self.slots_view()[i as int]);
            }
            if h != 0 {
                out.push(h);
            }
            i = i + 1;
        }
        proof {
            assert(self.slots_view().take(self.slots@.len() as int) =~= self.slots_view());
        }
        out
    }

    /// Whether any slot is in use.
    pub fn any_active(&self) -> (r: bool)
        ensures
            r <==> exists|i: int|
                0 <= i < self.slots_view().len() && self.slots_view()[i] != 0,
    {
        let mut i: usize = 0;
        while i < self.slots.len()
            invariant
                i <= self.slots@.len(),
                forall|j: int| 0 <= j < i ==> self.slots_view()[j] == 0,
            decreases self.slots@.len() - i,
        {
            if self.slots[i] != 0 {
                proof {
                    let w = i as int;
                    assert(0 <= w < self.slots_view().len() && self.slots_view()[w] != 0);
                }
                return true;
            }
            i = i + 1;
        }
        false
    }
}

/// The lifecycle of the BLE link.
#[derive(Clone, Copy, PartialEq, Eq, Structural, Debug)]
pub enum BleState {
    /// The stack is up but not advertising.
    Idle,
    /// Advertising, waiting for a central to connect.
    Advertising,
    /// At least one central is connected.
    Connected,
    /// A stop was requested of the host stack; its confirmation is awaited.
    Stopping,
    /// The host stack has confirmed the stop; the radio may be deinitialised.
    Stopped,
}

/// An event from the BLE host stack's GAP layer.
#[derive(Clone, Copy, PartialEq, Eq, Structural, Debug)]
pub enum GapEvent {
    /// A connection attempt finished: status 0 is success.
    Connect { status: i32, handle: u16 },
    /// A central disconnected.
    Disconnect { handle: u16 },
    /// The advertisement window ran out.
    AdvertiseComplete,
    /// Connection parameters changed.
    ConnectionUpdate,
    /// The MTU changed.
    MtuUpdate,
}

/// What the caller must do next on the radio.
#[derive(Clone, Copy, PartialEq, Eq, Structural, Debug)]
pub enum GapAction {
    /// Nothing.
    Stay,
    /// Restart advertising.
    Advertise,
}


/// The GATT server: the link state machine, the connection registry and the
/// event bus that decoded commands are fanned out on.
pub struct BleServer {
    state: BleState,
    registry: ConnectionRegistry,
    bus: EventBus,
}

/// The link state after a GAP event, and what the radio must be told.
/// A successful connect occupies the link; a failed connect and a disconnect
/// both re-enter advertising, as the device accepts new centrals whenever
/// none is connected.  Events during the stop sequence change nothing.
pub open spec fn spec_gap_step(state: BleState, ev: GapEvent) -> (BleState, GapAction) {
    if state == BleState::Stopping || state == BleState::Stopped {
        (state, GapAction::Stay)
    } else {
        match ev {
            GapEvent::Connect { status, handle } => if status == 0 {
                (BleState::Connected, GapAction::Stay)
            } else {
                (BleState::Advertising, GapAction::Advertise)
            },
            GapEvent::Disconnect { handle } => (BleState::Advertising, GapAction::Advertise),
            _ => (state, GapAction::Stay),
        }
    }
}

impl BleServer {
    pub closed spec fn state(&self) -> BleState {
        self.state
    }

    pub closed spec fn registry_view(&self) -> Seq<u16> {
        self.registry.slots_view()
    }

    /// Everything this server has published on its bus.
    pub closed spec fn history(&self) -> Seq<SpecMessage> {
        self.bus.history()
    }

    /// A fresh server: idle link, `slots` empty connection slots, a bus that
    /// can hold `bus_capacity` undelivered messages.
    pub fn new(slots: usize, bus_capacity: usize) -> (r: BleServer)
        ensures
            r.state() == BleState::Idle,
            r.registry_view() == Seq::new(slots as nat, |i: int| 0u16),
            r.history() == Seq::<SpecMessage>::empty(),
    {
        BleServer {
            state: BleState::Idle,
            registry: ConnectionRegistry::new(slots),
            bus: EventBus::new(bus_capacity),
        }
    }

    /// Starts advertising.  Only an idle or already advertising link may
    /// (re)start advertising; the stop sequence must not be interrupted.
    pub fn start_advertising(&mut self)
        requires
            old(self).state() == BleState::Idle || old(self).state() == BleState::Advertising,
        ensures
            final(self).state() == BleState::Advertising,
            final(self).registry_view() == old(self).registry_view(),
            final(self).history() == old(self).history(),
    {
        self.state = BleState::Advertising;
    }

    /// Whether any central is connected right now.
    pub fn ble_connected(&self) -> (r: bool)
        ensures
            r <==> exists|i: int|
                0 <= i < self.registry_view().len() && self.registry_view()[i] != 0,
    {
        let r = self.registry.any_active();
        proof {
            assert(self.registry_view() == self.registry.slots_view());
            if r {
                let w = choose|i: int|
                    0 <= i < self.registry.slots_view().len() && self.registry.slots_view()[i]
                        != 0;
                assert(0 <= w < self.registry_view().len() && self.registry_view()[w] != 0);
            } else {
                if exists|i: int|
                    0 <= i < self.registry_view().len() && self.registry_view()[i] != 0 {
                    let w = choose|i: int|
                        0 <= i < self.registry_view().len() && self.registry_view()[i] != 0;
                    assert(0 <= w < self.registry.slots_view().len()
                        && self.registry.slots_view()[w] != 0);
                }
            }
        }
        r
    }

    /// Handles one GAP event: updates the link state as `spec_gap_step`
    /// says, registers the handle of a successful connect in the first free
    /// registry slot (silently dropped when every slot is taken), clears the
    /// handle's slots on disconnect, and tells the caller whether to restart
    /// advertising.
    pub fn handle_gap_event(&mut self, ev: GapEvent) -> (act: GapAction)
        ensures
            ({
                let (st, a) = spec_gap_step(old(self).state(), ev);
                final(self).state() == st && act == a
            }),
            final(self).history() == old(self).history(),
            final(self).registry_view().len() == old(self).registry_view().len(),
            (old(self).state() == BleState::Stopping || old(self).state() == BleState::Stopped)
                ==> final(self).registry_view() == old(self).registry_view(),
            ({
                let reg = old(self).registry_view();
                let unchanged = final(self).registry_view() == reg;
                (old(self).state() != BleState::Stopping && old(self).state() != BleState::Stopped)
                    ==> match ev {
                    GapEvent::Connect { status, handle } => if status == 0 && handle != 0 {
                        if exists|i: int| 0 <= i < reg.len() && reg[i] == 0 {
                            exists|i: int|
                                {
                                    &&& 0 <= i < reg.len()
                                    &&& reg[i] == 0
                                    &&& (forall|j: int| 0 <= j < i ==> reg[j] != 0)
                                    &&& final(self).registry_view() == reg.update(i, handle)
                                }
                        } else {
                            unchanged
                        }
                    } else {
                        unchanged
                    },
                    GapEvent::Disconnect { handle } => forall|i: int|
                        0 <= i < reg.len() ==> final(self).registry_view()[i] == (if reg[i]
                            == handle {
                            0u16
                        } else {
                            reg[i]
                        }),
                    _ => unchanged,
                }
            }),
    {
        if matches!(self.state, BleState::Stopping) || matches!(self.state, BleState::Stopped) {
            return GapAction::Stay;
        }
        match ev {
            GapEvent::Connect { status, handle } => {
                if status == 0 {
                    if handle != 0 {
                        let _ = self.registry.register(handle);
                    }
                    self.state = BleState::Connected;
                    GapAction::Stay
                } else {
                    self.state = BleState::Advertising;
                    GapAction::Advertise
                }
            },
            GapEvent::Disconnect { handle } => {
                let _ = self.registry.remove(handle);
                self.state = BleState::Advertising;
                GapAction::Advertise
            },
            _ => GapAction::Stay,
        }
    }

    /// The inbound write handler.  Decodes the payload, checks the origin
    /// tag and publishes the message; whatever happened - malformed bytes, a
    /// wrong origin, a full bus - the handler reports 0 (success) to the
    /// peer, so that write completion does not reveal which check failed.
    /// The history grows by exactly the decoded, validated message when the
    /// bus accepted it, and is untouched otherwise.
    pub fn handle_data_in(&mut self, buf: &[u8]) -> (rc: i32)
        ensures
            rc == 0,
            final(self).state() == old(self).state(),
            final(self).registry_view() == old(self).registry_view(),
            ({
                let d = spec_decode_message(buf@);
                let unchanged = final(self).history() == old(self).history();
                match d {
                    Some(m) => if m.origin == ORIGIN_TAG {
                        final(self).history() == old(self).history().push(m) || unchanged
                    } else {
                        unchanged
                    },
                    None => unchanged,
                }
            }),
    {
        let msg = match decode_message(buf) {
            Ok(m) => m,
            Err(_) => {
                return 0;
            },
        };
        let msg = match validate_msg(msg) {
            Ok(m) => m,
            Err(_) => {
                return 0;
            },
        };
        let _ = self.bus.push_message(msg);
        0
    }

    /// Publishes an already validated message on the bus.
    pub fn push_message(&mut self, msg: Message) -> (r: Result<(), BusFullError>)
        ensures
            r is Ok ==> final(self).history() == old(self).history().push(msg@),
            r is Err ==> final(self).history() == old(self).history(),
            final(self).state() == old(self).state(),
            final(self).registry_view() == old(self).registry_view(),
    {
        self.bus.push_message(msg)
    }

    /// A new reader cursor on the bus: it sees only messages published from
    /// now on.
    pub fn get_receiver(&mut self) -> (r: Subscriber)
        ensures
            final(self).history() == old(self).history(),
            final(self).state() == old(self).state(),
            final(self).registry_view() == old(self).registry_view(),
            r.start() == old(self).history().len(),
    {
        self.bus.get_receiver()
    }

    /// The handles that an outbound notification must be sent to, in slot
    /// order.
    pub fn notify_targets(&self) -> (r: Vec<u16>)
        ensures
            r@ == self.registry_view().filter(|h: u16| h != 0),
    {
        self.registry.active_handles()
    }

    /// Asks the host stack to stop.  The caller must dispatch the actual
    /// stop request to the stack when this succeeds, then wait for its
    /// confirmation and call `confirm_stop`.
    pub fn request_stop(&mut self)
        requires
            old(self).state() != BleState::Stopping,
            old(self).state() != BleState::Stopped,
        ensures
            final(self).state() == BleState::Stopping,
            final(self).registry_view() == old(self).registry_view(),
            final(self).history() == old(self).history(),
    {
        self.state = BleState::Stopping;
    }

    /// Records the host stack's stop confirmation.  Only after this may the
    /// radio controller be deinitialised: doing it in any other order is
    /// undefined behaviour on the hardware, which is why `may_deinit` gates
    /// on the `Stopped` state.
    pub fn confirm_stop(&mut self)
        requires
            old(self).state() == BleState::Stopping,
        ensures
            final(self).state() == BleState::Stopped,
            final(self).registry_view() == old(self).registry_view(),
            final(self).history() == old(self).history(),
    {
        self.state = BleState::Stopped;
    }

    /// Whether the radio controller may be deinitialised: exactly when the
    /// host stack has confirmed the stop.
    pub fn may_deinit(&self) -> (r: bool)
        ensures
            r <==> self.state() == BleState::Stopped,
    {
        matches!(self.state, BleState::Stopped)
    }
}

// ---------------------------------------------------------------------------
// Consumer decisions
// ---------------------------------------------------------------------------

/// The text to show, when the message pushes a notification.
pub fn notification_update(msg: &Message) -> (r: Option<String>)
    ensures
        r is Some <==> msg@.body matches Some(SpecMessageBody::PushNotification(_)),
        r matches Some(s) ==> msg@.body == Some(SpecMessageBody::PushNotification(s@)),
{
    match &msg.body {
        Option::Some(crate::codec::MessageBody::PushNotification(pn)) => Some(pn.body.clone()),
        _ => None,
    }
}

/// The timestamp to set the clock to, when the message syncs the clock.
pub fn clock_sync_update(msg: &Message) -> (r: Option<Timestamp>)
    ensures
        r == (match msg@.body {
            Some(SpecMessageBody::SyncClock(sc)) => Some(sc.timestamp),
            _ => None::<Timestamp>,
        }),
{
    match &msg.body {
        Option::Some(crate::codec::MessageBody::SyncClock(sc)) => Some(sc.timestamp),
        _ => None,
    }
}

/// The pin command to execute, when the message carries one.
pub fn pin_command(msg: &Message) -> (r: Option<SetPin>)
    ensures
        r == (match msg@.body {
            Some(SpecMessageBody::SetPin(sp)) => Some(sp),
            _ => None::<SetPin>,
        }),
{
    match &msg.body {
        Option::Some(crate::codec::MessageBody::SetPin(sp)) => Some(*sp),
        _ => None,
    }
}

/// The outbound notification reporting a pin reading.  The value is the
/// IEEE-754 bit pattern of the measured value.
pub fn pin_read_notification(pin: Pin, value_bits: u32) -> (n: Notification)
    ensures
        n@ == (SpecNotification {
            body: Some(NotificationBody::PinRead(PinRead { pin, value_bits })),
        }),
{
    Notification { body: Some(NotificationBody::PinRead(PinRead { pin, value_bits })) }
}

/// End to end: any valid message asking for an analogue read of a pin
/// decodes from its own encoding, names that pin command, and the pin-read
/// notification built from any reading of that pin survives the outbound
/// encoding exactly.
pub proof fn lemma_pin_read_end_to_end(m: SpecMessage, pin: Pin, value_bits: u32)
    requires
        m.origin == ORIGIN_TAG,
        m.body == Some(
            SpecMessageBody::SetPin(SetPin { pin, operation: PinOperation::AnalogueRead }),
        ),
    ensures
        spec_decode_message(spec_encode_message(m)) == Some(m),
        ({
            let n = SpecNotification {
                body: Some(NotificationBody::PinRead(PinRead { pin, value_bits })),
            };
            crate::codec::spec_decode_notification(crate::codec::spec_encode_notification(n))
                == Some(n)
        }),
{
    lemma_message_round_trip(m);
    lemma_notification_round_trip(
        SpecNotification { body: Some(NotificationBody::PinRead(PinRead { pin, value_bits })) },
    );
}

} // verus!
