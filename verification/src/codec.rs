use vstd::prelude::*;

verus! {

// The wire schema of the BLE control protocol.  Every message is a sequence
// of tagged fields in the usual base-128 varint wire format: a field starts
// with a varint tag holding `field_number * 8 + wire_type`, where wire type
// 0 is a varint payload, wire type 2 a length-prefixed payload and wire type
// 5 four little-endian bytes.  Unknown fields are skipped on decode; the
// required fields of each record must be present or the decode fails.

/// A remotely controllable GPIO pin.
#[derive(Clone, Copy, PartialEq, Eq, Structural, Debug)]
pub enum Pin {
    G0,
    G25,
    G26,
}

/// What to do with a pin.
#[derive(Clone, Copy, PartialEq, Eq, Structural, Debug)]
pub enum PinOperation {
    SetHigh,
    SetLow,
    AnalogueRead,
}

/// Command: drive or read one pin.
#[derive(Clone, Copy, PartialEq, Eq, Structural, Debug)]
pub struct SetPin {
    pub pin: Pin,
    pub operation: PinOperation,
}

/// A point in time: seconds since the epoch and a nanosecond part.
#[derive(Clone, Copy, PartialEq, Eq, Structural, Debug)]
pub struct Timestamp {
    pub seconds: i64,
    pub nanos: i32,
}

/// Command: set the real-time clock.
#[derive(Clone, Copy, PartialEq, Eq, Structural, Debug)]
pub struct SyncClock {
    pub timestamp: Timestamp,
}

/// Command: show a text notification on the LED panel.
#[derive(Clone, Debug)]
pub struct PushNotification {
    pub body: String,
}

/// The body of an inbound message.
#[derive(Clone, Debug)]
pub enum MessageBody {
    SetPin(SetPin),
    SyncClock(SyncClock),
    PushNotification(PushNotification),
}

/// One inbound message: an origin authentication tag and an optional body.
#[derive(Clone, Debug)]
pub struct Message {
    pub origin: u32,
    pub body: Option<MessageBody>,
}

/// Telemetry: the value read from a pin.  The value is the IEEE-754 bit
/// pattern of the reading, carried as four little-endian bytes on the wire.
#[derive(Clone, Copy, PartialEq, Eq, Structural, Debug)]
pub struct PinRead {
    pub pin: Pin,
    pub value_bits: u32,
}

/// The body of an outbound notification.
#[derive(Clone, Copy, PartialEq, Eq, Structural, Debug)]
pub enum NotificationBody {
    PinRead(PinRead),
}

/// One outbound notification.
#[derive(Clone, Copy, Debug)]
pub struct Notification {
    pub body: Option<NotificationBody>,
}

/// The abstract value of a message body: the notification text is a
/// character sequence rather than a `String`.
pub enum SpecMessageBody {
    SetPin(SetPin),
    SyncClock(SyncClock),
    PushNotification(Seq<char>),
}

/// The abstract value of a message.
pub struct SpecMessage {
    pub origin: u32,
    pub body: Option<SpecMessageBody>,
}

impl View for MessageBody {
    type V = SpecMessageBody;

    open spec fn view(&self) -> SpecMessageBody {
        match self {
            MessageBody::SetPin(sp) => SpecMessageBody::SetPin(*sp),
            MessageBody::SyncClock(sc) => SpecMessageBody::SyncClock(*sc),
            MessageBody::PushNotification(pn) => SpecMessageBody::PushNotification(pn.body@),
        }
    }
}

impl View for Message {
    type V = SpecMessage;

    open spec fn view(&self) -> SpecMessage {
        SpecMessage {
            origin: self.origin,
            body: match self.body {
                Option::None => None,
                Option::Some(b) => Some(b@),
            },
        }
    }
}

/// The abstract value of a notification.
pub struct SpecNotification {
    pub body: Option<NotificationBody>,
}

impl View for Notification {
    type V = SpecNotification;

    open spec fn view(&self) -> SpecNotification {
        SpecNotification { body: self.body }
    }
}

impl PartialEq for PushNotification {
    fn eq(&self, other: &PushNotification) -> bool {
        self.body == other.body
    }
}

impl vstd::std_specs::cmp::PartialEqSpecImpl for PushNotification {
    open spec fn obeys_eq_spec() -> bool {
        true
    }

    open spec fn eq_spec(&self, other: &PushNotification) -> bool {
        self.body@ == other.body@
    }
}

impl PartialEq for MessageBody {
    fn eq(&self, other: &MessageBody) -> bool {
        match (self, other) {
            (MessageBody::SetPin(a), MessageBody::SetPin(b)) => a == b,
            (MessageBody::SyncClock(a), MessageBody::SyncClock(b)) => a == b,
            (MessageBody::PushNotification(a), MessageBody::PushNotification(b)) => a == b,
            _ => false,
        }
    }
}

impl vstd::std_specs::cmp::PartialEqSpecImpl for MessageBody {
    open spec fn obeys_eq_spec() -> bool {
        true
    }

    open spec fn eq_spec(&self, other: &MessageBody) -> bool {
        self@ == other@
    }
}

impl PartialEq for Message {
    fn eq(&self, other: &Message) -> bool {
        let bodies_eq = match (&self.body, &other.body) {
            (Option::None, Option::None) => true,
            (Option::Some(a), Option::Some(b)) => a == b,
            _ => false,
        };
        self.origin == other.origin && bodies_eq
    }
}

impl vstd::std_specs::cmp::PartialEqSpecImpl for Message {
    open spec fn obeys_eq_spec() -> bool {
        true
    }

    open spec fn eq_spec(&self, other: &Message) -> bool {
        self@ == other@
    }
}

impl PartialEq for Notification {
    fn eq(&self, other: &Notification) -> bool {
        match (&self.body, &other.body) {
            (Option::None, Option::None) => true,
            (Option::Some(a), Option::Some(b)) => a == b,
            _ => false,
        }
    }
}

impl vstd::std_specs::cmp::PartialEqSpecImpl for Notification {
    open spec fn obeys_eq_spec() -> bool {
        true
    }

    open spec fn eq_spec(&self, other: &Notification) -> bool {
        self@ == other@
    }
}

/// The origin tag that every accepted inbound message must carry: a fixed
/// shared constant, a crude anti-noise filter rather than cryptography.
pub const ORIGIN_TAG: u32 = 3387062;

/// The message's origin tag is not the fixed constant.
#[derive(Clone, Copy, PartialEq, Eq, Structural, Debug)]
pub struct AuthError;

/// Checks the origin authentication tag: accepts exactly the messages whose
/// origin equals `ORIGIN_TAG`, whatever their body looks like, and hands the
/// message back unchanged.
pub fn validate_msg(msg: Message) -> (r: Result<Message, AuthError>)
    ensures
        r is Ok <==> msg.origin == ORIGIN_TAG,
        r matches Ok(m) ==> m == msg,
{
    if msg.origin != ORIGIN_TAG {
        return Err(AuthError);
    }
    Ok(msg)
}

// ---------------------------------------------------------------------------
// Varints
// ---------------------------------------------------------------------------

/// The base-128 encoding of `v`: low seven bits first, the high bit of every
/// byte but the last set.
pub open spec fn spec_varint(v: nat) -> Seq<u8>
    decreases v,
{
    if v < 128 {
        seq![v as u8]
    } else {
        seq![(128 + v % 128) as u8] + spec_varint(v / 128)
    }
}

/// Decodes a varint from the front of `s`: the value and the number of bytes
/// consumed.  Fails on an empty or truncated input, on more than ten bytes,
/// and on a value that does not fit in 64 bits.
pub open spec fn spec_decode_varint(s: Seq<u8>) -> Option<(nat, int)>
    decreases s.len(),
{
    if s.len() == 0 {
        None
    } else if s[0] < 128 {
        Some((s[0] as nat, 1))
    } else {
        match spec_decode_varint(s.drop_first()) {
            None => None,
            Some((v, n)) => {
                let val = (s[0] - 128) + 128 * v;
                if n + 1 <= 10 && val < 0x1_0000_0000_0000_0000 {
                    Some((val as nat, n + 1))
                } else {
                    None
                }
            },
        }
    }
}

/// A decoded varint consumed between one byte and all of the input, and its
/// value fits in 64 bits.
pub proof fn lemma_decode_varint_bounds(s: Seq<u8>)
    ensures
        spec_decode_varint(s) matches Some((v, n)) ==> 1 <= n <= s.len() && n <= 10 && v
            < 0x1_0000_0000_0000_0000,
    decreases s.len(),
{
    if s.len() > 0 && s[0] >= 128 {
        lemma_decode_varint_bounds(s.drop_first());
    }
}

/// The varint encoding of a 64-bit value takes at most `k` bytes when the
/// value is below `2^(7k)`.
proof fn lemma_varint_len_rec(v: nat, k: nat)
    requires
        1 <= k,
        v < vstd::arithmetic::power2::pow2(7 * k),
    ensures
        1 <= spec_varint(v).len() <= k,
    decreases k,
{
    vstd::arithmetic::power2::lemma2_to64();
    if v < 128 {
    } else {
        assert(k >= 2) by {
            if k == 1 {
                assert(vstd::arithmetic::power2::pow2(7) == 128);
            }
        }
        vstd::arithmetic::power2::lemma_pow2_adds(7, (7 * (k - 1)) as nat);
        assert(v / 128 < vstd::arithmetic::power2::pow2(7 * (k - 1) as nat)) by (nonlinear_arith)
            requires
                v < vstd::arithmetic::power2::pow2(7) * vstd::arithmetic::power2::pow2(
                    7 * (k - 1) as nat,
                ),
                vstd::arithmetic::power2::pow2(7) == 128,
        ;
        lemma_varint_len_rec(v / 128, (k - 1) as nat);
    }
}

/// A 64-bit value's varint encoding is one to ten bytes long.
pub proof fn lemma_varint_len(v: nat)
    requires
        v < 0x1_0000_0000_0000_0000,
    ensures
        1 <= spec_varint(v).len() <= 10,
{
    vstd::arithmetic::power2::lemma2_to64();
    vstd::arithmetic::power2::lemma_pow2_adds(64, 6);
    assert(vstd::arithmetic::power2::pow2(64) <= vstd::arithmetic::power2::pow2(70))
        by (nonlinear_arith)
        requires
            vstd::arithmetic::power2::pow2(70) == vstd::arithmetic::power2::pow2(64)
                * vstd::arithmetic::power2::pow2(6),
            vstd::arithmetic::power2::pow2(6) >= 1,
            vstd::arithmetic::power2::pow2(64) >= 0,
    ;
    lemma_varint_len_rec(v, 10);
}

/// Round trip of the varint layer: decoding the encoding of `v`, whatever
/// follows it, yields `v` and consumes exactly the encoding.
pub proof fn lemma_varint_round_trip(v: nat, rest: Seq<u8>)
    requires
        v < 0x1_0000_0000_0000_0000,
    ensures
        spec_decode_varint(spec_varint(v) + rest) == Some((v, spec_varint(v).len() as int)),
    decreases v,
{
    let enc = spec_varint(v);
    let s = enc + rest;
    if v < 128 {
        assert(s[0] == v as u8);
    } else {
        assert(s[0] == (128 + v % 128) as u8);
        assert(s[0] >= 128);
        assert(s.drop_first() =~= spec_varint(v / 128) + rest);
        lemma_varint_round_trip(v / 128, rest);
        lemma_varint_len(v);
        vstd::arithmetic::div_mod::lemma_fundamental_div_mod(v as int, 128);
        assert((s[0] - 128) + 128 * (v / 128) == v);
    }
}

/// Appends the varint encoding of `v` to `out`.
pub fn encode_varint(out: &mut Vec<u8>, v: u64)
    ensures
        final(out)@ == old(out)@ + spec_varint(v as nat),
{
    let ghost orig = out@;
    let ghost v0 = v as nat;
    let mut v = v;
    while v >= 128
        invariant
            orig + spec_varint(v0) == out@ + spec_varint(v as nat),
        decreases v,
    {
        let ghost before = out@;
        let ghost vprev = v as nat;
        out.push((v % 128 + 128) as u8);
        v = v / 128;
        proof {
            assert(spec_varint(vprev) == seq![(128 + vprev % 128) as u8] + spec_varint(
                vprev / 128,
            ));
            assert(before + spec_varint(vprev) =~= out@ + spec_varint(v as nat));
        }
    }
    let ghost before = out@;
    out.push(v as u8);
    proof {
        assert(spec_varint(v as nat) == seq![v as u8]);
        assert(before + spec_varint(v as nat) =~= out@);
        assert(out@ + Seq::<u8>::empty() =~= out@);
        assert(orig + spec_varint(v0) =~= out@);
    }
}

/// Reads a varint at `pos`.  The result mirrors `spec_decode_varint` on the
/// input from `pos` on: the value and the number of bytes consumed.
pub fn decode_varint(s: &[u8], pos: usize) -> (r: Option<(u64, usize)>)
    requires
        pos <= s@.len(),
    ensures
        match r {
            Some((v, n)) => spec_decode_varint(s@.skip(pos as int)) == Some((v as nat, n as int))
                && 1 <= n && pos + n <= s@.len(),
            None => spec_decode_varint(s@.skip(pos as int)) is None,
        },
    decreases s@.len() - pos,
{
    if pos == s.len() {
        return None;
    }
    let b = s[pos];
    if b < 128 {
        return Some((b as u64, 1));
    }
    proof {
        assert(s@.skip(pos as int).drop_first() =~= s@.skip(pos as int + 1));
    }
    match decode_varint(s, pos + 1) {
        None => None,
        Some((v, n)) => {
            let low = (b - 128) as u64;
            if n < 10 && v <= (u64::MAX - low) / 128 {
                proof {
                    assert(low + 128 * v <= u64::MAX) by (nonlinear_arith)
                        requires
                            v <= ((u64::MAX - low) as u64 / 128) as int,
                            0 <= low < 128,
                            0 <= v,
                    ;
                }
                Some((low + 128 * v, n + 1))
            } else {
                proof {
                    if n >= 10 {
                    } else {
                        assert(low + 128 * v >= 0x1_0000_0000_0000_0000) by (nonlinear_arith)
                            requires
                                v > ((u64::MAX - low) as u64 / 128) as int,
                                0 <= low < 128,
                                v < 0x1_0000_0000_0000_0000,
                        ;
                    }
                    lemma_decode_varint_bounds(s@.skip(pos as int + 1));
                }
                None
            }
        },
    }
}

// ---------------------------------------------------------------------------
// Field values
// ---------------------------------------------------------------------------

/// The wire value of a pin.
pub open spec fn spec_pin_num(p: Pin) -> nat {
    match p {
        Pin::G0 => 0,
        Pin::G25 => 1,
        Pin::G26 => 2,
    }
}

/// The pin of a wire value.
pub open spec fn spec_pin_of(v: nat) -> Option<Pin> {
    if v == 0 {
        Some(Pin::G0)
    } else if v == 1 {
        Some(Pin::G25)
    } else if v == 2 {
        Some(Pin::G26)
    } else {
        None
    }
}

/// The wire value of a pin operation.
pub open spec fn spec_op_num(o: PinOperation) -> nat {
    match o {
        PinOperation::SetHigh => 0,
        PinOperation::SetLow => 1,
        PinOperation::AnalogueRead => 2,
    }
}

/// The pin operation of a wire value.
pub open spec fn spec_op_of(v: nat) -> Option<PinOperation> {
    if v == 0 {
        Some(PinOperation::SetHigh)
    } else if v == 1 {
        Some(PinOperation::SetLow)
    } else if v == 2 {
        Some(PinOperation::AnalogueRead)
    } else {
        None
    }
}

/// A signed 64-bit value as its two's-complement wire value.
pub open spec fn spec_u64_of_i64(v: int) -> nat
    recommends
        -0x8000_0000_0000_0000 <= v < 0x8000_0000_0000_0000,
{
    if v >= 0 {
        v as nat
    } else {
        (v + 0x1_0000_0000_0000_0000) as nat
    }
}

/// The signed reading of a 64-bit wire value.
pub open spec fn spec_i64_of_u64(u: nat) -> int
    recommends
        u < 0x1_0000_0000_0000_0000,
{
    if u < 0x8000_0000_0000_0000 {
        u as int
    } else {
        u - 0x1_0000_0000_0000_0000
    }
}

/// The four little-endian bytes of a 32-bit value.
pub open spec fn spec_le32(v: u32) -> Seq<u8> {
    seq![
        (v % 256) as u8,
        ((v / 256) % 256) as u8,
        ((v / 0x1_0000) % 256) as u8,
        ((v / 0x100_0000) % 256) as u8,
    ]
}

/// The 32-bit value of four little-endian bytes.
pub open spec fn spec_u32_of_le(b0: u8, b1: u8, b2: u8, b3: u8) -> u32 {
    (b0 + 256 * (b1 as int) + 0x1_0000 * (b2 as int) + 0x100_0000 * (b3 as int)) as u32
}

// ---------------------------------------------------------------------------
// Encoding
// ---------------------------------------------------------------------------

/// A length-prefixed field: its tag, the payload length, the payload.
pub open spec fn spec_len_field(tag: nat, payload: Seq<u8>) -> Seq<u8> {
    spec_varint(tag) + spec_varint(payload.len()) + payload
}

/// The `SetPin` record: pin at field 1, operation at field 2, both varints.
pub open spec fn spec_encode_set_pin(sp: SetPin) -> Seq<u8> {
    spec_varint(8) + spec_varint(spec_pin_num(sp.pin)) + spec_varint(16) + spec_varint(
        spec_op_num(sp.operation),
    )
}

/// The `Timestamp` record: seconds at field 1, nanos at field 2, both
/// two's-complement varints.
pub open spec fn spec_encode_timestamp(ts: Timestamp) -> Seq<u8> {
    spec_varint(8) + spec_varint(spec_u64_of_i64(ts.seconds as int)) + spec_varint(16)
        + spec_varint(spec_u64_of_i64(ts.nanos as int))
}

/// The `SyncClock` record: the timestamp record at field 1.
pub open spec fn spec_encode_sync_clock(sc: SyncClock) -> Seq<u8> {
    spec_len_field(10, spec_encode_timestamp(sc.timestamp))
}

/// The `PushNotification` record: the UTF-8 text at field 1.
pub open spec fn spec_encode_push(body: Seq<char>) -> Seq<u8> {
    spec_len_field(10, vstd::utf8::encode_utf8(body))
}

/// The body cases of a message, at fields 2, 3 and 4.
pub open spec fn spec_encode_body(b: SpecMessageBody) -> Seq<u8> {
    match b {
        SpecMessageBody::SetPin(sp) => spec_len_field(18, spec_encode_set_pin(sp)),
        SpecMessageBody::SyncClock(sc) => spec_len_field(26, spec_encode_sync_clock(sc)),
        SpecMessageBody::PushNotification(chars) => spec_len_field(34, spec_encode_push(chars)),
    }
}

/// A whole message: the origin tag at field 1, then the body field, if any.
pub open spec fn spec_encode_message(m: SpecMessage) -> Seq<u8> {
    spec_varint(8) + spec_varint(m.origin as nat) + match m.body {
        Option::None => Seq::empty(),
        Option::Some(b) => spec_encode_body(b),
    }
}

/// The `PinRead` record: pin at field 1 (varint), the reading's bit pattern
/// at field 2 (four little-endian bytes).
pub open spec fn spec_encode_pin_read(pr: PinRead) -> Seq<u8> {
    spec_varint(8) + spec_varint(spec_pin_num(pr.pin)) + spec_varint(21) + spec_le32(pr.value_bits)
}

/// A whole notification: the pin-read record at field 1, if any.
pub open spec fn spec_encode_notification(n: SpecNotification) -> Seq<u8> {
    match n.body {
        Option::None => Seq::empty(),
        Option::Some(NotificationBody::PinRead(pr)) => spec_len_field(
            10,
            spec_encode_pin_read(pr),
        ),
    }
}

// ---------------------------------------------------------------------------
// Decoding
// ---------------------------------------------------------------------------

/// Bytes consumed by an unknown field's payload of the given wire type at
/// the front of `s`, or nothing where the payload is malformed or truncated.
pub open spec fn spec_skip_len(s: Seq<u8>, wt: nat) -> Option<int> {
    if wt == 0 {
        match spec_decode_varint(s) {
            None => None,
            Some((v, n)) => Some(n),
        }
    } else if wt == 1 {
        if s.len() >= 8 {
            Some(8)
        } else {
            None
        }
    } else if wt == 2 {
        match spec_decode_varint(s) {
            None => None,
            Some((l, n)) => if n + l <= s.len() {
                Some(n + l)
            } else {
                None
            },
        }
    } else if wt == 5 {
        if s.len() >= 4 {
            Some(4)
        } else {
            None
        }
    } else {
        None
    }
}

/// A skipped payload takes between zero bytes and the rest of the input.
pub proof fn lemma_skip_len_bounds(s: Seq<u8>, wt: nat)
    ensures
        spec_skip_len(s, wt) matches Some(m) ==> 0 <= m <= s.len(),
{
    lemma_decode_varint_bounds(s);
}

/// A length-prefixed payload at the front of `s`: the payload bytes and the
/// total bytes consumed.
pub open spec fn spec_take_payload(s: Seq<u8>) -> Option<(Seq<u8>, int)> {
    match spec_decode_varint(s) {
        None => None,
        Some((l, n)) => if n + l <= s.len() {
            Some((s.subrange(n, n + l), n + l))
        } else {
            None
        },
    }
}

/// A taken payload consumes between one byte and the rest of the input.
pub proof fn lemma_take_payload_bounds(s: Seq<u8>)
    ensures
        spec_take_payload(s) matches Some((p, m)) ==> 1 <= m <= s.len() && p.len() <= m,
{
    lemma_decode_varint_bounds(s);
}

/// The `SetPin` record decoder: both fields are required, unknown fields are
/// skipped, the last occurrence of a repeated field wins.
pub open spec fn spec_decode_set_pin_fields(
    s: Seq<u8>,
    pin: Option<Pin>,
    op: Option<PinOperation>,
) -> Option<SetPin>
    decreases s.len(),
    via spec_decode_set_pin_fields_dec
{
    if s.len() == 0 {
        match (pin, op) {
            (Some(p), Some(o)) => Some(SetPin { pin: p, operation: o }),
            _ => None,
        }
    } else {
        match spec_decode_varint(s) {
            None => None,
            Some((tag, n)) => {
                let rest = s.skip(n);
                if tag == 8 {
                    match spec_decode_varint(rest) {
                        None => None,
                        Some((v, m)) => match spec_pin_of(v) {
                            None => None,
                            Some(p) => spec_decode_set_pin_fields(rest.skip(m), Some(p), op),
                        },
                    }
                } else if tag == 16 {
                    match spec_decode_varint(rest) {
                        None => None,
                        Some((v, m)) => match spec_op_of(v) {
                            None => None,
                            Some(o) => spec_decode_set_pin_fields(rest.skip(m), pin, Some(o)),
                        },
                    }
                } else {
                    match spec_skip_len(rest, tag % 8) {
                        None => None,
                        Some(m) => spec_decode_set_pin_fields(rest.skip(m), pin, op),
                    }
                }
            },
        }
    }
}

#[via_fn]
proof fn spec_decode_set_pin_fields_dec(s: Seq<u8>, pin: Option<Pin>, op: Option<PinOperation>) {
    lemma_decode_varint_bounds(s);
    if s.len() != 0 {
        if let Some((tag, n)) = spec_decode_varint(s) {
            let rest = s.skip(n);
            lemma_decode_varint_bounds(rest);
            lemma_skip_len_bounds(rest, tag % 8);
        }
    }
}

pub open spec fn spec_decode_set_pin(s: Seq<u8>) -> Option<SetPin> {
    spec_decode_set_pin_fields(s, None, None)
}

/// The `Timestamp` record decoder: seconds and nanos are required; a nanos
/// value outside the 32-bit range is malformed.
pub open spec fn spec_decode_timestamp_fields(
    s: Seq<u8>,
    seconds: Option<i64>,
    nanos: Option<i32>,
) -> Option<Timestamp>
    decreases s.len(),
    via spec_decode_timestamp_fields_dec
{
    if s.len() == 0 {
        match (seconds, nanos) {
            (Some(sec), Some(ns)) => Some(Timestamp { seconds: sec, nanos: ns }),
            _ => None,
        }
    } else {
        match spec_decode_varint(s) {
            None => None,
            Some((tag, n)) => {
                let rest = s.skip(n);
                if tag == 8 {
                    match spec_decode_varint(rest) {
                        None => None,
                        Some((v, m)) => spec_decode_timestamp_fields(
                            rest.skip(m),
                            Some(spec_i64_of_u64(v) as i64),
                            nanos,
                        ),
                    }
                } else if tag == 16 {
                    match spec_decode_varint(rest) {
                        None => None,
                        Some((v, m)) => {
                            let w = spec_i64_of_u64(v);
                            if -0x8000_0000 <= w < 0x8000_0000 {
                                spec_decode_timestamp_fields(
                                    rest.skip(m),
                                    seconds,
                                    Some(w as i32),
                                )
                            } else {
                                None
                            }
                        },
                    }
                } else {
                    match spec_skip_len(rest, tag % 8) {
                        None => None,
                        Some(m) => spec_decode_timestamp_fields(rest.skip(m), seconds, nanos),
                    }
                }
            },
        }
    }
}

#[via_fn]
proof fn spec_decode_timestamp_fields_dec(s: Seq<u8>, seconds: Option<i64>, nanos: Option<i32>) {
    lemma_decode_varint_bounds(s);
    if s.len() != 0 {
        if let Some((tag, n)) = spec_decode_varint(s) {
            let rest = s.skip(n);
            lemma_decode_varint_bounds(rest);
            lemma_skip_len_bounds(rest, tag % 8);
        }
    }
}

pub open spec fn spec_decode_timestamp(s: Seq<u8>) -> Option<Timestamp> {
    spec_decode_timestamp_fields(s, None, None)
}

/// The `SyncClock` record decoder: the timestamp record is required.
pub open spec fn spec_decode_sync_clock_fields(s: Seq<u8>, ts: Option<Timestamp>) -> Option<
    SyncClock,
>
    decreases s.len(),
    via spec_decode_sync_clock_fields_dec
{
    if s.len() == 0 {
        match ts {
            Some(t) => Some(SyncClock { timestamp: t }),
            None => None,
        }
    } else {
        match spec_decode_varint(s) {
            None => None,
            Some((tag, n)) => {
                let rest = s.skip(n);
                if tag == 10 {
                    match spec_take_payload(rest) {
                        None => None,
                        Some((p, m)) => match spec_decode_timestamp(p) {
                            None => None,
                            Some(t) => spec_decode_sync_clock_fields(rest.skip(m), Some(t)),
                        },
                    }
                } else {
                    match spec_skip_len(rest, tag % 8) {
                        None => None,
                        Some(m) => spec_decode_sync_clock_fields(rest.skip(m), ts),
                    }
                }
            },
        }
    }
}

#[via_fn]
proof fn spec_decode_sync_clock_fields_dec(s: Seq<u8>, ts: Option<Timestamp>) {
    lemma_decode_varint_bounds(s);
    if s.len() != 0 {
        if let Some((tag, n)) = spec_decode_varint(s) {
            let rest = s.skip(n);
            lemma_take_payload_bounds(rest);
            lemma_skip_len_bounds(rest, tag % 8);
        }
    }
}

pub open spec fn spec_decode_sync_clock(s: Seq<u8>) -> Option<SyncClock> {
    spec_decode_sync_clock_fields(s, None)
}

/// The `PushNotification` record decoder: the text is required and must be
/// well-formed UTF-8.
pub open spec fn spec_decode_push_fields(s: Seq<u8>, body: Option<Seq<char>>) -> Option<Seq<char>>
    decreases s.len(),
    via spec_decode_push_fields_dec
{
    if s.len() == 0 {
        body
    } else {
        match spec_decode_varint(s) {
            None => None,
            Some((tag, n)) => {
                let rest = s.skip(n);
                if tag == 10 {
                    match spec_take_payload(rest) {
                        None => None,
                        Some((p, m)) => if vstd::utf8::valid_utf8(p) {
                            spec_decode_push_fields(rest.skip(m), Some(vstd::utf8::decode_utf8(p)))
                        } else {
                            None
                        },
                    }
                } else {
                    match spec_skip_len(rest, tag % 8) {
                        None => None,
                        Some(m) => spec_decode_push_fields(rest.skip(m), body),
                    }
                }
            },
        }
    }
}

#[via_fn]
proof fn spec_decode_push_fields_dec(s: Seq<u8>, body: Option<Seq<char>>) {
    lemma_decode_varint_bounds(s);
    if s.len() != 0 {
        if let Some((tag, n)) = spec_decode_varint(s) {
            let rest = s.skip(n);
            lemma_take_payload_bounds(rest);
            lemma_skip_len_bounds(rest, tag % 8);
        }
    }
}

pub open spec fn spec_decode_push(s: Seq<u8>) -> Option<Seq<char>> {
    spec_decode_push_fields(s, None)
}

/// The message decoder: the origin tag is required, the body fields are
/// alternatives (the last one present wins), unknown fields are skipped.
pub open spec fn spec_decode_msg_fields(
    s: Seq<u8>,
    origin: Option<u32>,
    body: Option<SpecMessageBody>,
) -> Option<SpecMessage>
    decreases s.len(),
    via spec_decode_msg_fields_dec
{
    if s.len() == 0 {
        match origin {
            Some(o) => Some(SpecMessage { origin: o, body }),
            None => None,
        }
    } else {
        match spec_decode_varint(s) {
            None => None,
            Some((tag, n)) => {
                let rest = s.skip(n);
                if tag == 8 {
                    match spec_decode_varint(rest) {
                        None => None,
                        Some((v, m)) => if v < 0x1_0000_0000 {
                            spec_decode_msg_fields(rest.skip(m), Some(v as u32), body)
                        } else {
                            None
                        },
                    }
                } else if tag == 18 {
                    match spec_take_payload(rest) {
                        None => None,
                        Some((p, m)) => match spec_decode_set_pin(p) {
                            None => None,
                            Some(sp) => spec_decode_msg_fields(
                                rest.skip(m),
                                origin,
                                Some(SpecMessageBody::SetPin(sp)),
                            ),
                        },
                    }
                } else if tag == 26 {
                    match spec_take_payload(rest) {
                        None => None,
                        Some((p, m)) => match spec_decode_sync_clock(p) {
                            None => None,
                            Some(sc) => spec_decode_msg_fields(
                                rest.skip(m),
                                origin,
                                Some(SpecMessageBody::SyncClock(sc)),
                            ),
                        },
                    }
                } else if tag == 34 {
                    match spec_take_payload(rest) {
                        None => None,
                        Some((p, m)) => match spec_decode_push(p) {
                            None => None,
                            Some(chars) => spec_decode_msg_fields(
                                rest.skip(m),
                                origin,
                                Some(SpecMessageBody::PushNotification(chars)),
                            ),
                        },
                    }
                } else {
                    match spec_skip_len(rest, tag % 8) {
                        None => None,
                        Some(m) => spec_decode_msg_fields(rest.skip(m), origin, body),
                    }
                }
            },
        }
    }
}

#[via_fn]
proof fn spec_decode_msg_fields_dec(
    s: Seq<u8>,
    origin: Option<u32>,
    body: Option<SpecMessageBody>,
) {
    lemma_decode_varint_bounds(s);
    if s.len() != 0 {
        if let Some((tag, n)) = spec_decode_varint(s) {
            let rest = s.skip(n);
            lemma_decode_varint_bounds(rest);
            lemma_take_payload_bounds(rest);
            lemma_skip_len_bounds(rest, tag % 8);
        }
    }
}

/// The abstract decode of a whole message.
pub open spec fn spec_decode_message(s: Seq<u8>) -> Option<SpecMessage> {
    spec_decode_msg_fields(s, None, None)
}

/// The `PinRead` record decoder: pin and reading are both required.
pub open spec fn spec_decode_pin_read_fields(
    s: Seq<u8>,
    pin: Option<Pin>,
    bits: Option<u32>,
) -> Option<PinRead>
    decreases s.len(),
    via spec_decode_pin_read_fields_dec
{
    if s.len() == 0 {
        match (pin, bits) {
            (Some(p), Some(b)) => Some(PinRead { pin: p, value_bits: b }),
            _ => None,
        }
    } else {
        match spec_decode_varint(s) {
            None => None,
            Some((tag, n)) => {
                let rest = s.skip(n);
                if tag == 8 {
                    match spec_decode_varint(rest) {
                        None => None,
                        Some((v, m)) => match spec_pin_of(v) {
                            None => None,
                            Some(p) => spec_decode_pin_read_fields(rest.skip(m), Some(p), bits),
                        },
                    }
                } else if tag == 21 {
                    if rest.len() >= 4 {
                        spec_decode_pin_read_fields(
                            rest.skip(4),
                            pin,
                            Some(spec_u32_of_le(rest[0], rest[1], rest[2], rest[3])),
                        )
                    } else {
                        None
                    }
                } else {
                    match spec_skip_len(rest, tag % 8) {
                        None => None,
                        Some(m) => spec_decode_pin_read_fields(rest.skip(m), pin, bits),
                    }
                }
            },
        }
    }
}

#[via_fn]
proof fn spec_decode_pin_read_fields_dec(s: Seq<u8>, pin: Option<Pin>, bits: Option<u32>) {
    lemma_decode_varint_bounds(s);
    if s.len() != 0 {
        if let Some((tag, n)) = spec_decode_varint(s) {
            let rest = s.skip(n);
            lemma_decode_varint_bounds(rest);
            lemma_skip_len_bounds(rest, tag % 8);
        }
    }
}

pub open spec fn spec_decode_pin_read(s: Seq<u8>) -> Option<PinRead> {
    spec_decode_pin_read_fields(s, None, None)
}

/// The notification decoder: the body is optional.
pub open spec fn spec_decode_notification_fields(s: Seq<u8>, body: Option<NotificationBody>)
    -> Option<SpecNotification>
    decreases s.len(),
    via spec_decode_notification_fields_dec
{
    if s.len() == 0 {
        Some(SpecNotification { body })
    } else {
        match spec_decode_varint(s) {
            None => None,
            Some((tag, n)) => {
                let rest = s.skip(n);
                if tag == 10 {
                    match spec_take_payload(rest) {
                        None => None,
                        Some((p, m)) => match spec_decode_pin_read(p) {
                            None => None,
                            Some(pr) => spec_decode_notification_fields(
                                rest.skip(m),
                                Some(NotificationBody::PinRead(pr)),
                            ),
                        },
                    }
                } else {
                    match spec_skip_len(rest, tag % 8) {
                        None => None,
                        Some(m) => spec_decode_notification_fields(rest.skip(m), body),
                    }
                }
            },
        }
    }
}

#[via_fn]
proof fn spec_decode_notification_fields_dec(s: Seq<u8>, body: Option<NotificationBody>) {
    lemma_decode_varint_bounds(s);
    if s.len() != 0 {
        if let Some((tag, n)) = spec_decode_varint(s) {
            let rest = s.skip(n);
            lemma_take_payload_bounds(rest);
            lemma_skip_len_bounds(rest, tag % 8);
        }
    }
}

/// The abstract decode of a whole notification.
pub open spec fn spec_decode_notification(s: Seq<u8>) -> Option<SpecNotification> {
    spec_decode_notification_fields(s, None)
}

// ---------------------------------------------------------------------------
// Executable encoders
// ---------------------------------------------------------------------------

fn pin_num(p: Pin) -> (r: u64)
    ensures
        r as nat == spec_pin_num(p),
{
    match p {
        Pin::G0 => 0,
        Pin::G25 => 1,
        Pin::G26 => 2,
    }
}

fn op_num(o: PinOperation) -> (r: u64)
    ensures
        r as nat == spec_op_num(o),
{
    match o {
        PinOperation::SetHigh => 0,
        PinOperation::SetLow => 1,
        PinOperation::AnalogueRead => 2,
    }
}

/// The two's-complement wire value of a signed 64-bit value.
fn u64_of_i64(v: i64) -> (r: u64)
    ensures
        r as nat == spec_u64_of_i64(v as int),
{
    if v >= 0 {
        v as u64
    } else {
        (v - i64::MIN) as u64 + 0x8000_0000_0000_0000
    }
}

/// The signed reading of a 64-bit wire value.
fn i64_of_u64(u: u64) -> (r: i64)
    ensures
        r as int == spec_i64_of_u64(u as nat),
{
    if u < 0x8000_0000_0000_0000 {
        u as i64
    } else {
        (u - 0x8000_0000_0000_0000) as i64 + i64::MIN
    }
}

/// Encodes a `SetPin` record.
pub fn encode_set_pin(sp: &SetPin) -> (r: Vec<u8>)
    ensures
        r@ == spec_encode_set_pin(*sp),
{
    let mut out: Vec<u8> = Vec::new();
    encode_varint(&mut out, 8);
    encode_varint(&mut out, pin_num(sp.pin));
    encode_varint(&mut out, 16);
    encode_varint(&mut out, op_num(sp.operation));
    proof {
        assert(out@ =~= spec_encode_set_pin(*sp));
    }
    out
}

/// Encodes a `Timestamp` record.
pub fn encode_timestamp(ts: &Timestamp) -> (r: Vec<u8>)
    ensures
        r@ == spec_encode_timestamp(*ts),
{
    let mut out: Vec<u8> = Vec::new();
    encode_varint(&mut out, 8);
    encode_varint(&mut out, u64_of_i64(ts.seconds));
    encode_varint(&mut out, 16);
    encode_varint(&mut out, u64_of_i64(ts.nanos as i64));
    proof {
        assert(out@ =~= spec_encode_timestamp(*ts));
    }
    out
}

/// Encodes a `SyncClock` record.
pub fn encode_sync_clock(sc: &SyncClock) -> (r: Vec<u8>)
    ensures
        r@ == spec_encode_sync_clock(*sc),
{
    let mut ts = encode_timestamp(&sc.timestamp);
    let mut out: Vec<u8> = Vec::new();
    encode_varint(&mut out, 10);
    encode_varint(&mut out, ts.len() as u64);
    out.append(&mut ts);
    proof {
        assert(out@ =~= spec_encode_sync_clock(*sc));
    }
    out
}

/// Encodes a whole message.
pub fn encode_message(m: &Message) -> (r: Vec<u8>)
    ensures
        r@ == spec_encode_message(m@),
{
    let mut out: Vec<u8> = Vec::new();
    encode_varint(&mut out, 8);
    encode_varint(&mut out, m.origin as u64);
    match &m.body {
        Option::None => {
            proof {
                assert(out@ =~= spec_encode_message(m@));
            }
        },
        Option::Some(MessageBody::SetPin(sp)) => {
            let mut sub = encode_set_pin(sp);
            encode_varint(&mut out, 18);
            encode_varint(&mut out, sub.len() as u64);
            out.append(&mut sub);
            proof {
                assert(out@ =~= spec_encode_message(m@));
            }
        },
        Option::Some(MessageBody::SyncClock(sc)) => {
            let mut sub = encode_sync_clock(sc);
            encode_varint(&mut out, 26);
            encode_varint(&mut out, sub.len() as u64);
            out.append(&mut sub);
            proof {
                assert(out@ =~= spec_encode_message(m@));
            }
        },
        Option::Some(MessageBody::PushNotification(pn)) => {
            let mut bytes = vstd::string::StrSliceExecFns::as_bytes_vec(pn.body.as_str());
            let mut rec: Vec<u8> = Vec::new();
            encode_varint(&mut rec, 10);
            encode_varint(&mut rec, bytes.len() as u64);
            rec.append(&mut bytes);
            proof {
                assert(rec@ =~= spec_encode_push(pn.body@));
            }
            encode_varint(&mut out, 34);
            encode_varint(&mut out, rec.len() as u64);
            out.append(&mut rec);
            proof {
                assert(out@ =~= spec_encode_message(m@));
            }
        },
    }
    out
}

/// Encodes a `PinRead` record.
pub fn encode_pin_read(pr: &PinRead) -> (r: Vec<u8>)
    ensures
        r@ == spec_encode_pin_read(*pr),
{
    let mut out: Vec<u8> = Vec::new();
    encode_varint(&mut out, 8);
    encode_varint(&mut out, pin_num(pr.pin));
    encode_varint(&mut out, 21);
    let v = pr.value_bits;
    out.push((v % 256) as u8);
    out.push(((v / 256) % 256) as u8);
    out.push(((v / 0x1_0000) % 256) as u8);
    out.push(((v / 0x100_0000) % 256) as u8);
    proof {
        assert(out@ =~= spec_encode_pin_read(*pr));
    }
    out
}

/// Encodes a whole notification.
pub fn encode_notification(n: &Notification) -> (r: Vec<u8>)
    ensures
        r@ == spec_encode_notification(n@),
{
    let mut out: Vec<u8> = Vec::new();
    match &n.body {
        Option::None => {},
        Option::Some(NotificationBody::PinRead(pr)) => {
            let mut sub = encode_pin_read(pr);
            encode_varint(&mut out, 10);
            encode_varint(&mut out, sub.len() as u64);
            out.append(&mut sub);
        },
    }
    proof {
        assert(out@ =~= spec_encode_notification(n@));
    }
    out
}

// ---------------------------------------------------------------------------
// Executable decoders
// ---------------------------------------------------------------------------

/// Skipping then skipping again is one longer skip.
pub proof fn lemma_skip_skip(s: Seq<u8>, a: int, b: int)
    requires
        0 <= a,
        0 <= b,
        a + b <= s.len(),
    ensures
        s.skip(a).skip(b) == s.skip(a + b),
{
    assert(s.skip(a).skip(b) =~= s.skip(a + b));
}

/// A decode error: the input bytes are not a well-formed record.
#[derive(Clone, Copy, PartialEq, Eq, Structural, Debug)]
pub struct DecodeError;

fn pin_of(v: u64) -> (r: Option<Pin>)
    ensures
        r == spec_pin_of(v as nat),
{
    if v == 0 {
        Some(Pin::G0)
    } else if v == 1 {
        Some(Pin::G25)
    } else if v == 2 {
        Some(Pin::G26)
    } else {
        None
    }
}

fn op_of(v: u64) -> (r: Option<PinOperation>)
    ensures
        r == spec_op_of(v as nat),
{
    if v == 0 {
        Some(PinOperation::SetHigh)
    } else if v == 1 {
        Some(PinOperation::SetLow)
    } else if v == 2 {
        Some(PinOperation::AnalogueRead)
    } else {
        None
    }
}

/// Relies on std's `String::from_utf8`: it succeeds exactly on well-formed
/// UTF-8 and returns the string that the bytes encode.
#[verifier::external_body]
fn bytes_to_string(v: Vec<u8>) -> (r: Option<String>)
    ensures
        r is Some <==> vstd::utf8::valid_utf8(v@),
        r matches Some(s) ==> s@ == vstd::utf8::decode_utf8(v@),
{
    String::from_utf8(v).ok()
}

/// Skips the payload of an unknown field of wire type `wt` at `pos`:
/// the number of bytes its payload occupies.
fn skip_field(s: &[u8], pos: usize, wt: u64) -> (r: Option<usize>)
    requires
        pos <= s@.len(),
    ensures
        match r {
            Some(m) => spec_skip_len(s@.skip(pos as int), wt as nat) == Some(m as int) && pos + m
                <= s@.len(),
            None => spec_skip_len(s@.skip(pos as int), wt as nat) is None,
        },
{
    if wt == 0 {
        match decode_varint(s, pos) {
            None => None,
            Some((_v, n)) => Some(n),
        }
    } else if wt == 1 {
        if s.len() - pos >= 8 {
            Some(8)
        } else {
            None
        }
    } else if wt == 2 {
        match decode_varint(s, pos) {
            None => None,
            Some((l, n)) => {
                if l <= (s.len() - pos - n) as u64 {
                    Some(n + l as usize)
                } else {
                    None
                }
            },
        }
    } else if wt == 5 {
        if s.len() - pos >= 4 {
            Some(4)
        } else {
            None
        }
    } else {
        None
    }
}

/// Reads a length-prefixed payload at `pos`: the payload slice and the total
/// bytes consumed.
fn take_payload<'a>(s: &'a [u8], pos: usize) -> (r: Option<(&'a [u8], usize)>)
    requires
        pos <= s@.len(),
    ensures
        match r {
            Some((p, m)) => spec_take_payload(s@.skip(pos as int)) == Some((p@, m as int)) && pos
                + m <= s@.len(),
            None => spec_take_payload(s@.skip(pos as int)) is None,
        },
{
    match decode_varint(s, pos) {
        None => None,
        Some((l, n)) => {
            if l <= (s.len() - pos - n) as u64 {
                let lu = l as usize;
                let p = vstd::slice::slice_subrange(s, pos + n, pos + n + lu);
                proof {
                    assert(p@ =~= s@.skip(pos as int).subrange(n as int, n as int + l as int));
                }
                Some((p, n + lu))
            } else {
                None
            }
        },
    }
}

/// Decodes a `SetPin` record from the whole of `s`.
pub fn decode_set_pin(s: &[u8]) -> (r: Option<SetPin>)
    ensures
        r == spec_decode_set_pin(s@),
{
    let mut pos: usize = 0;
    proof {
        assert(s@.skip(0) =~= s@);
    }
    let mut pin: Option<Pin> = None;
    let mut op: Option<PinOperation> = None;
    while pos < s.len()
        invariant
            pos <= s@.len(),
            spec_decode_set_pin_fields(s@.skip(pos as int), pin, op) == spec_decode_set_pin(s@),
        decreases s@.len() - pos,
    {
        let ghost rem = s@.skip(pos as int);
        match decode_varint(s, pos) {
            None => {
                return None;
            },
            Some((tag, n)) => {
                proof {
                    lemma_skip_skip(s@, pos as int, n as int);
                }
                if tag == 8 {
                    match decode_varint(s, pos + n) {
                        None => {
                            return None;
                        },
                        Some((v, m)) => {
                            match pin_of(v) {
                                None => {
                                    return None;
                                },
                                Some(p) => {
                                    proof {
                                        lemma_skip_skip(s@, pos as int + n, m as int);
                                    }
                                    pin = Some(p);
                                    pos = pos + n + m;
                                },
                            }
                        },
                    }
                } else if tag == 16 {
                    match decode_varint(s, pos + n) {
                        None => {
                            return None;
                        },
                        Some((v, m)) => {
                            match op_of(v) {
                                None => {
                                    return None;
                                },
                                Some(o) => {
                                    proof {
                                        lemma_skip_skip(s@, pos as int + n, m as int);
                                    }
                                    op = Some(o);
                                    pos = pos + n + m;
                                },
                            }
                        },
                    }
                } else {
                    match skip_field(s, pos + n, tag % 8) {
                        None => {
                            return None;
                        },
                        Some(m) => {
                            proof {
                                lemma_skip_skip(s@, pos as int + n, m as int);
                            }
                            pos = pos + n + m;
                        },
                    }
                }
            },
        }
    }
    match (pin, op) {
        (Some(p), Some(o)) => Some(SetPin { pin: p, operation: o }),
        _ => None,
    }
}

/// Decodes a `Timestamp` record from the whole of `s`.
pub fn decode_timestamp(s: &[u8]) -> (r: Option<Timestamp>)
    ensures
        r == spec_decode_timestamp(s@),
{
    let mut pos: usize = 0;
    proof {
        assert(s@.skip(0) =~= s@);
    }
    let mut seconds: Option<i64> = None;
    let mut nanos: Option<i32> = None;
    while pos < s.len()
        invariant
            pos <= s@.len(),
            spec_decode_timestamp_fields(s@.skip(pos as int), seconds, nanos)
                == spec_decode_timestamp(s@),
        decreases s@.len() - pos,
    {
        match decode_varint(s, pos) {
            None => {
                return None;
            },
            Some((tag, n)) => {
                proof {
                    lemma_skip_skip(s@, pos as int, n as int);
                }
                if tag == 8 {
                    match decode_varint(s, pos + n) {
                        None => {
                            return None;
                        },
                        Some((v, m)) => {
                            proof {
                                lemma_skip_skip(s@, pos as int + n, m as int);
                            }
                            seconds = Some(i64_of_u64(v));
                            pos = pos + n + m;
                        },
                    }
                } else if tag == 16 {
                    match decode_varint(s, pos + n) {
                        None => {
                            return None;
                        },
                        Some((v, m)) => {
                            let w = i64_of_u64(v);
                            if -0x8000_0000i64 <= w && w < 0x8000_0000i64 {
                                proof {
                                    lemma_skip_skip(s@, pos as int + n, m as int);
                                }
                                nanos = Some(w as i32);
                                pos = pos + n + m;
                            } else {
                                return None;
                            }
                        },
                    }
                } else {
                    match skip_field(s, pos + n, tag % 8) {
                        None => {
                            return None;
                        },
                        Some(m) => {
                            proof {
                                lemma_skip_skip(s@, pos as int + n, m as int);
                            }
                            pos = pos + n + m;
                        },
                    }
                }
            },
        }
    }
    match (seconds, nanos) {
        (Some(sec), Some(ns)) => Some(Timestamp { seconds: sec, nanos: ns }),
        _ => None,
    }
}

/// Decodes a `SyncClock` record from the whole of `s`.
pub fn decode_sync_clock(s: &[u8]) -> (r: Option<SyncClock>)
    ensures
        r == spec_decode_sync_clock(s@),
{
    let mut pos: usize = 0;
    proof {
        assert(s@.skip(0) =~= s@);
    }
    let mut ts: Option<Timestamp> = None;
    while pos < s.len()
        invariant
            pos <= s@.len(),
            spec_decode_sync_clock_fields(s@.skip(pos as int), ts) == spec_decode_sync_clock(s@),
        decreases s@.len() - pos,
    {
        match decode_varint(s, pos) {
            None => {
                return None;
            },
            Some((tag, n)) => {
                proof {
                    lemma_skip_skip(s@, pos as int, n as int);
                }
                if tag == 10 {
                    match take_payload(s, pos + n) {
                        None => {
                            return None;
                        },
                        Some((p, m)) => {
                            match decode_timestamp(p) {
                                None => {
                                    return None;
                                },
                                Some(t) => {
                                    proof {
                                        lemma_skip_skip(s@, pos as int + n, m as int);
                                    }
                                    ts = Some(t);
                                    pos = pos + n + m;
                                },
                            }
                        },
                    }
                } else {
                    match skip_field(s, pos + n, tag % 8) {
                        None => {
                            return None;
                        },
                        Some(m) => {
                            proof {
                                lemma_skip_skip(s@, pos as int + n, m as int);
                            }
                            pos = pos + n + m;
                        },
                    }
                }
            },
        }
    }
    match ts {
        Some(t) => Some(SyncClock { timestamp: t }),
        None => None,
    }
}

/// Decodes a `PushNotification` record from the whole of `s`.
pub fn decode_push(s: &[u8]) -> (r: Option<String>)
    ensures
        match r {
            Some(body) => spec_decode_push(s@) == Some(body@),
            None => spec_decode_push(s@) is None,
        },
{
    let mut pos: usize = 0;
    proof {
        assert(s@.skip(0) =~= s@);
    }
    let mut body: Option<String> = None;
    while pos < s.len()
        invariant
            pos <= s@.len(),
            ({
                let b = match body {
                    Option::Some(ref x) => Some(x@),
                    Option::None => None,
                };
                spec_decode_push_fields(s@.skip(pos as int), b) == spec_decode_push(s@)
            }),
        decreases s@.len() - pos,
    {
        match decode_varint(s, pos) {
            None => {
                return None;
            },
            Some((tag, n)) => {
                proof {
                    lemma_skip_skip(s@, pos as int, n as int);
                }
                if tag == 10 {
                    match take_payload(s, pos + n) {
                        None => {
                            return None;
                        },
                        Some((p, m)) => {
                            let bytes = vstd::slice::slice_to_vec(p);
                            match bytes_to_string(bytes) {
                                None => {
                                    return None;
                                },
                                Some(text) => {
                                    proof {
                                        lemma_skip_skip(s@, pos as int + n, m as int);
                                    }
                                    body = Some(text);
                                    pos = pos + n + m;
                                },
                            }
                        },
                    }
                } else {
                    match skip_field(s, pos + n, tag % 8) {
                        None => {
                            return None;
                        },
                        Some(m) => {
                            proof {
                                lemma_skip_skip(s@, pos as int + n, m as int);
                            }
                            pos = pos + n + m;
                        },
                    }
                }
            },
        }
    }
    body
}

/// The abstract body of an optional exec body.
pub open spec fn spec_body_opt(b: Option<MessageBody>) -> Option<SpecMessageBody> {
    match b {
        Option::None => None,
        Option::Some(x) => Some(x@),
    }
}

/// Decodes a whole message.  Succeeds exactly where `spec_decode_message`
/// does, and then returns exactly the message it gives.
pub fn decode_message(s: &[u8]) -> (r: Result<Message, DecodeError>)
    ensures
        r matches Ok(m) ==> spec_decode_message(s@) == Some(m@),
        r is Err ==> spec_decode_message(s@) is None,
{
    let mut pos: usize = 0;
    proof {
        assert(s@.skip(0) =~= s@);
    }
    let mut origin: Option<u32> = None;
    let mut body: Option<MessageBody> = None;
    while pos < s.len()
        invariant
            pos <= s@.len(),
            spec_decode_msg_fields(s@.skip(pos as int), origin, spec_body_opt(body))
                == spec_decode_message(s@),
        decreases s@.len() - pos,
    {
        match decode_varint(s, pos) {
            None => {
                return Err(DecodeError);
            },
            Some((tag, n)) => {
                proof {
                    lemma_skip_skip(s@, pos as int, n as int);
                }
                if tag == 8 {
                    match decode_varint(s, pos + n) {
                        None => {
                            return Err(DecodeError);
                        },
                        Some((v, m)) => {
                            if v < 0x1_0000_0000u64 {
                                proof {
                                    lemma_skip_skip(s@, pos as int + n, m as int);
                                }
                                origin = Some(v as u32);
                                pos = pos + n + m;
                            } else {
                                return Err(DecodeError);
                            }
                        },
                    }
                } else if tag == 18 {
                    match take_payload(s, pos + n) {
                        None => {
                            return Err(DecodeError);
                        },
                        Some((p, m)) => {
                            match decode_set_pin(p) {
                                None => {
                                    return Err(DecodeError);
                                },
                                Some(sp) => {
                                    proof {
                                        lemma_skip_skip(s@, pos as int + n, m as int);
                                    }
                                    body = Some(MessageBody::SetPin(sp));
                                    pos = pos + n + m;
                                },
                            }
                        },
                    }
                } else if tag == 26 {
                    match take_payload(s, pos + n) {
                        None => {
                            return Err(DecodeError);
                        },
                        Some((p, m)) => {
                            match decode_sync_clock(p) {
                                None => {
                                    return Err(DecodeError);
                                },
                                Some(sc) => {
                                    proof {
                                        lemma_skip_skip(s@, pos as int + n, m as int);
                                    }
                                    body = Some(MessageBody::SyncClock(sc));
                                    pos = pos + n + m;
                                },
                            }
                        },
                    }
                } else if tag == 34 {
                    match take_payload(s, pos + n) {
                        None => {
                            return Err(DecodeError);
                        },
                        Some((p, m)) => {
                            match decode_push(p) {
                                None => {
                                    return Err(DecodeError);
                                },
                                Some(text) => {
                                    proof {
                                        lemma_skip_skip(s@, pos as int + n, m as int);
                                    }
                                    body = Some(
                                        MessageBody::PushNotification(
                                            PushNotification { body: text },
                                        ),
                                    );
                                    pos = pos + n + m;
                                },
                            }
                        },
                    }
                } else {
                    match skip_field(s, pos + n, tag % 8) {
                        None => {
                            return Err(DecodeError);
                        },
                        Some(m) => {
                            proof {
                                lemma_skip_skip(s@, pos as int + n, m as int);
                            }
                            pos = pos + n + m;
                        },
                    }
                }
            },
        }
    }
    match origin {
        Some(o) => Ok(Message { origin: o, body }),
        None => Err(DecodeError),
    }
}

/// Decodes a `PinRead` record from the whole of `s`.
pub fn decode_pin_read(s: &[u8]) -> (r: Option<PinRead>)
    ensures
        r == spec_decode_pin_read(s@),
{
    let mut pos: usize = 0;
    proof {
        assert(s@.skip(0) =~= s@);
    }
    let mut pin: Option<Pin> = None;
    let mut bits: Option<u32> = None;
    while pos < s.len()
        invariant
            pos <= s@.len(),
            spec_decode_pin_read_fields(s@.skip(pos as int), pin, bits) == spec_decode_pin_read(
                s@,
            ),
        decreases s@.len() - pos,
    {
        match decode_varint(s, pos) {
            None => {
                return None;
            },
            Some((tag, n)) => {
                proof {
                    lemma_skip_skip(s@, pos as int, n as int);
                }
                if tag == 8 {
                    match decode_varint(s, pos + n) {
                        None => {
                            return None;
                        },
                        Some((v, m)) => {
                            match pin_of(v) {
                                None => {
                                    return None;
                                },
                                Some(p) => {
                                    proof {
                                        lemma_skip_skip(s@, pos as int + n, m as int);
                                    }
                                    pin = Some(p);
                                    pos = pos + n + m;
                                },
                            }
                        },
                    }
                } else if tag == 21 {
                    if s.len() - (pos + n) >= 4 {
                        let b0 = s[pos + n];
                        let b1 = s[pos + n + 1];
                        let b2 = s[pos + n + 2];
                        let b3 = s[pos + n + 3];
                        let v = b0 as u32 + 256 * (b1 as u32) + 0x1_0000 * (b2 as u32) + 0x100_0000
                            * (b3 as u32);
                        proof {
                            lemma_skip_skip(s@, pos as int + n, 4);
                        }
                        bits = Some(v);
                        pos = pos + n + 4;
                    } else {
                        return None;
                    }
                } else {
                    match skip_field(s, pos + n, tag % 8) {
                        None => {
                            return None;
                        },
                        Some(m) => {
                            proof {
                                lemma_skip_skip(s@, pos as int + n, m as int);
                            }
                            pos = pos + n + m;
                        },
                    }
                }
            },
        }
    }
    match (pin, bits) {
        (Some(p), Some(b)) => Some(PinRead { pin: p, value_bits: b }),
        _ => None,
    }
}

/// Decodes a whole notification.  Succeeds exactly where
/// `spec_decode_notification` does, and then returns exactly what it gives.
pub fn decode_notification(s: &[u8]) -> (r: Result<Notification, DecodeError>)
    ensures
        r matches Ok(n) ==> spec_decode_notification(s@) == Some(n@),
        r is Err ==> spec_decode_notification(s@) is None,
{
    let mut pos: usize = 0;
    proof {
        assert(s@.skip(0) =~= s@);
    }
    let mut body: Option<NotificationBody> = None;
    while pos < s.len()
        invariant
            pos <= s@.len(),
            spec_decode_notification_fields(s@.skip(pos as int), body)
                == spec_decode_notification(s@),
        decreases s@.len() - pos,
    {
        match decode_varint(s, pos) {
            None => {
                return Err(DecodeError);
            },
            Some((tag, n)) => {
                proof {
                    lemma_skip_skip(s@, pos as int, n as int);
                }
                if tag == 10 {
                    match take_payload(s, pos + n) {
                        None => {
                            return Err(DecodeError);
                        },
                        Some((p, m)) => {
                            match decode_pin_read(p) {
                                None => {
                                    return Err(DecodeError);
                                },
                                Some(pr) => {
                                    proof {
                                        lemma_skip_skip(s@, pos as int + n, m as int);
                                    }
                                    body = Some(NotificationBody::PinRead(pr));
                                    pos = pos + n + m;
                                },
                            }
                        },
                    }
                } else {
                    match skip_field(s, pos + n, tag % 8) {
                        None => {
                            return Err(DecodeError);
                        },
                        Some(m) => {
                            proof {
                                lemma_skip_skip(s@, pos as int + n, m as int);
                            }
                            pos = pos + n + m;
                        },
                    }
                }
            },
        }
    }
    Ok(Notification { body })
}

// ---------------------------------------------------------------------------
// Round trip
// ---------------------------------------------------------------------------

/// Skipping a leading chunk of a concatenation leaves the tail.
pub proof fn lemma_concat_skip(a: Seq<u8>, b: Seq<u8>)
    ensures
        (a + b).skip(a.len() as int) == b,
{
    assert((a + b).skip(a.len() as int) =~= b);
}

/// Reading a varint field at the front of a field sequence: the value comes
/// back and the rest is left.
proof fn lemma_field_varint(v: nat, rest: Seq<u8>)
    requires
        v < 0x1_0000_0000_0000_0000,
    ensures
        spec_decode_varint(spec_varint(v) + rest) == Some((
            v,
            spec_varint(v).len() as int,
        )),
        (spec_varint(v) + rest).skip(spec_varint(v).len() as int) == rest,
{
    lemma_varint_round_trip(v, rest);
    lemma_concat_skip(spec_varint(v), rest);
}

/// Reading a length-prefixed payload at the front of a field sequence: the
/// payload comes back whole and the rest is left.
proof fn lemma_field_payload(p: Seq<u8>, rest: Seq<u8>)
    requires
        p.len() < 0x1_0000_0000_0000_0000,
    ensures
        ({
            let whole = spec_varint(p.len()) + p + rest;
            let m = spec_varint(p.len()).len() + p.len();
            spec_take_payload(whole) == Some((p, m as int)) && whole.skip(m as int) == rest
        }),
{
    let lv = spec_varint(p.len());
    let whole = lv + p + rest;
    lemma_varint_round_trip(p.len(), p + rest);
    assert(whole =~= lv + (p + rest));
    let n = lv.len() as int;
    assert(spec_decode_varint(whole) == Some((p.len(), n)));
    assert(whole.subrange(n, n + p.len() as int) =~= p);
    assert(whole.skip(n + p.len() as int) =~= rest);
}

/// Round trip of the `SetPin` record.
pub proof fn lemma_set_pin_round_trip(sp: SetPin)
    ensures
        spec_decode_set_pin(spec_encode_set_pin(sp)) == Some(sp),
{
    let a = spec_varint(8);
    let b = spec_varint(spec_pin_num(sp.pin));
    let c = spec_varint(16);
    let d = spec_varint(spec_op_num(sp.operation));
    let enc = spec_encode_set_pin(sp);
    let s0 = a + (b + (c + (d + Seq::<u8>::empty())));
    let s1 = b + (c + (d + Seq::<u8>::empty()));
    let s2 = c + (d + Seq::<u8>::empty());
    let s3 = d + Seq::<u8>::empty();
    assert(enc =~= s0);
    lemma_field_varint(8, s1);
    lemma_field_varint(spec_pin_num(sp.pin), s2);
    lemma_field_varint(16, s3);
    lemma_field_varint(spec_op_num(sp.operation), Seq::<u8>::empty());
    assert(spec_pin_of(spec_pin_num(sp.pin)) == Some(sp.pin));
    assert(spec_op_of(spec_op_num(sp.operation)) == Some(sp.operation));
    assert(spec_decode_set_pin_fields(s0, None, None) == spec_decode_set_pin_fields(
        s2,
        Some(sp.pin),
        None,
    ));
    assert(spec_decode_set_pin_fields(s2, Some(sp.pin), None) == spec_decode_set_pin_fields(
        Seq::<u8>::empty(),
        Some(sp.pin),
        Some(sp.operation),
    ));
    assert(spec_decode_set_pin_fields(Seq::<u8>::empty(), Some(sp.pin), Some(sp.operation))
        == Some(sp));
}

/// The two's-complement wire value reads back as the signed value it encodes.
proof fn lemma_i64_wire_round_trip(v: i64)
    ensures
        spec_u64_of_i64(v as int) < 0x1_0000_0000_0000_0000,
        spec_i64_of_u64(spec_u64_of_i64(v as int)) == v as int,
{
}

/// Round trip of the `Timestamp` record.
pub proof fn lemma_timestamp_round_trip(ts: Timestamp)
    ensures
        spec_decode_timestamp(spec_encode_timestamp(ts)) == Some(ts),
{
    let a = spec_varint(8);
    let sv = spec_u64_of_i64(ts.seconds as int);
    let nv = spec_u64_of_i64(ts.nanos as int);
    let b = spec_varint(sv);
    let c = spec_varint(16);
    let d = spec_varint(nv);
    let enc = spec_encode_timestamp(ts);
    lemma_i64_wire_round_trip(ts.seconds);
    lemma_i64_wire_round_trip(ts.nanos as i64);
    let s0 = a + (b + (c + (d + Seq::<u8>::empty())));
    let s1 = b + (c + (d + Seq::<u8>::empty()));
    let s2 = c + (d + Seq::<u8>::empty());
    let s3 = d + Seq::<u8>::empty();
    assert(enc =~= s0);
    lemma_field_varint(8, s1);
    lemma_field_varint(sv, s2);
    lemma_field_varint(16, s3);
    lemma_field_varint(nv, Seq::<u8>::empty());
    assert(spec_decode_timestamp_fields(s0, None, None) == spec_decode_timestamp_fields(
        s2,
        Some(ts.seconds),
        None,
    ));
    assert(spec_decode_timestamp_fields(s2, Some(ts.seconds), None)
        == spec_decode_timestamp_fields(Seq::<u8>::empty(), Some(ts.seconds), Some(ts.nanos)));
    assert(spec_decode_timestamp_fields(Seq::<u8>::empty(), Some(ts.seconds), Some(ts.nanos))
        == Some(ts));
}

/// Round trip of the `SyncClock` record.
pub proof fn lemma_sync_clock_round_trip(sc: SyncClock)
    ensures
        spec_decode_sync_clock(spec_encode_sync_clock(sc)) == Some(sc),
{
    let p = spec_encode_timestamp(sc.timestamp);
    let a = spec_varint(10);
    let lv = spec_varint(p.len());
    let enc = spec_encode_sync_clock(sc);
    lemma_varint_len(spec_u64_of_i64(sc.timestamp.seconds as int));
    lemma_varint_len(spec_u64_of_i64(sc.timestamp.nanos as int));
    lemma_i64_wire_round_trip(sc.timestamp.seconds);
    lemma_i64_wire_round_trip(sc.timestamp.nanos as i64);
    let s0 = a + (lv + p + Seq::<u8>::empty());
    let s1 = lv + p + Seq::<u8>::empty();
    assert(enc =~= s0);
    assert(s1 =~= spec_varint(p.len()) + p + Seq::<u8>::empty());
    lemma_field_varint(10, s1);
    lemma_field_payload(p, Seq::<u8>::empty());
    lemma_timestamp_round_trip(sc.timestamp);
    assert(spec_decode_sync_clock_fields(s0, None) == spec_decode_sync_clock_fields(
        Seq::<u8>::empty(),
        Some(sc.timestamp),
    ));
    assert(spec_decode_sync_clock_fields(Seq::<u8>::empty(), Some(sc.timestamp)) == Some(sc));
}

/// Round trip of the `PushNotification` record, for any text whose UTF-8
/// form fits the length prefix.
pub proof fn lemma_push_round_trip(chars: Seq<char>)
    requires
        vstd::utf8::encode_utf8(chars).len() < 0x1_0000_0000_0000_0000,
    ensures
        spec_decode_push(spec_encode_push(chars)) == Some(chars),
{
    let p = vstd::utf8::encode_utf8(chars);
    let a = spec_varint(10);
    let lv = spec_varint(p.len());
    let enc = spec_encode_push(chars);
    let s0 = a + (lv + p + Seq::<u8>::empty());
    let s1 = lv + p + Seq::<u8>::empty();
    assert(enc =~= s0);
    lemma_field_varint(10, s1);
    lemma_field_payload(p, Seq::<u8>::empty());
    vstd::utf8::encode_utf8_valid_utf8(chars);
    vstd::utf8::encode_utf8_decode_utf8(chars);
    assert(spec_decode_push_fields(s0, None) == spec_decode_push_fields(
        Seq::<u8>::empty(),
        Some(chars),
    ));
    assert(spec_decode_push_fields(Seq::<u8>::empty(), Some(chars)) == Some(chars));
}

/// Round trip of a whole message (the text of a push body bounded by the
/// length prefix).
#[verifier::rlimit(100)]
pub proof fn lemma_message_round_trip(m: SpecMessage)
    requires
        m.body matches Some(SpecMessageBody::PushNotification(chars))
            ==> vstd::utf8::encode_utf8(chars).len() < 0x1000_0000_0000_0000,
    ensures
        spec_decode_message(spec_encode_message(m)) == Some(m),
{
    let a = spec_varint(8);
    let b = spec_varint(m.origin as nat);
    let enc = spec_encode_message(m);
    match m.body {
        Option::None => {
            let s0 = a + (b + Seq::<u8>::empty());
            let s1 = b + Seq::<u8>::empty();
            assert(enc =~= s0);
            lemma_field_varint(8, s1);
            lemma_field_varint(m.origin as nat, Seq::<u8>::empty());
            assert(spec_decode_msg_fields(s0, None, None) == spec_decode_msg_fields(
                Seq::<u8>::empty(),
                Some(m.origin),
                None,
            ));
            assert(spec_decode_msg_fields(Seq::<u8>::empty(), Some(m.origin), None) == Some(m));
        },
        Option::Some(SpecMessageBody::SetPin(sp)) => {
            let p = spec_encode_set_pin(sp);
            let t = spec_varint(18);
            lemma_varint_len(spec_pin_num(sp.pin));
            lemma_varint_len(spec_op_num(sp.operation));
            assert(p.len() < 64);
            let lv = spec_varint(p.len());
            let s0 = a + (b + (t + (lv + p + Seq::<u8>::empty())));
            let s1 = b + (t + (lv + p + Seq::<u8>::empty()));
            let s2 = t + (lv + p + Seq::<u8>::empty());
            let s3 = lv + p + Seq::<u8>::empty();
            assert(enc =~= s0);
            lemma_field_varint(8, s1);
            lemma_field_varint(m.origin as nat, s2);
            lemma_field_varint(18, s3);
            lemma_field_payload(p, Seq::<u8>::empty());
            lemma_set_pin_round_trip(sp);
            assert(spec_decode_msg_fields(s0, None, None) == spec_decode_msg_fields(
                s2,
                Some(m.origin),
                None,
            ));
            assert(spec_decode_msg_fields(s2, Some(m.origin), None) == spec_decode_msg_fields(
                Seq::<u8>::empty(),
                Some(m.origin),
                Some(SpecMessageBody::SetPin(sp)),
            ));
            assert(spec_decode_msg_fields(
                Seq::<u8>::empty(),
                Some(m.origin),
                Some(SpecMessageBody::SetPin(sp)),
            ) == Some(m));
        },
        Option::Some(SpecMessageBody::SyncClock(sc)) => {
            let p = spec_encode_sync_clock(sc);
            let t = spec_varint(26);
            lemma_varint_len(spec_u64_of_i64(sc.timestamp.seconds as int));
            lemma_varint_len(spec_u64_of_i64(sc.timestamp.nanos as int));
            lemma_i64_wire_round_trip(sc.timestamp.seconds);
            lemma_i64_wire_round_trip(sc.timestamp.nanos as i64);
            assert(spec_encode_timestamp(sc.timestamp).len() < 64);
            lemma_varint_len(spec_encode_timestamp(sc.timestamp).len());
            assert(p.len() < 128);
            let lv = spec_varint(p.len());
            let s0 = a + (b + (t + (lv + p + Seq::<u8>::empty())));
            let s1 = b + (t + (lv + p + Seq::<u8>::empty()));
            let s2 = t + (lv + p + Seq::<u8>::empty());
            let s3 = lv + p + Seq::<u8>::empty();
            assert(enc =~= s0);
            lemma_field_varint(8, s1);
            lemma_field_varint(m.origin as nat, s2);
            lemma_field_varint(26, s3);
            lemma_field_payload(p, Seq::<u8>::empty());
            lemma_sync_clock_round_trip(sc);
            assert(spec_decode_msg_fields(s0, None, None) == spec_decode_msg_fields(
                s2,
                Some(m.origin),
                None,
            ));
            assert(spec_decode_msg_fields(s2, Some(m.origin), None) == spec_decode_msg_fields(
                Seq::<u8>::empty(),
                Some(m.origin),
                Some(SpecMessageBody::SyncClock(sc)),
            ));
            assert(spec_decode_msg_fields(
                Seq::<u8>::empty(),
                Some(m.origin),
                Some(SpecMessageBody::SyncClock(sc)),
            ) == Some(m));
        },
        Option::Some(SpecMessageBody::PushNotification(chars)) => {
            let p = spec_encode_push(chars);
            let t = spec_varint(34);
            lemma_varint_len(vstd::utf8::encode_utf8(chars).len());
            assert(p.len() < 0x1_0000_0000_0000_0000);
            let lv = spec_varint(p.len());
            let s0 = a + (b + (t + (lv + p + Seq::<u8>::empty())));
            let s1 = b + (t + (lv + p + Seq::<u8>::empty()));
            let s2 = t + (lv + p + Seq::<u8>::empty());
            let s3 = lv + p + Seq::<u8>::empty();
            assert(enc =~= s0);
            lemma_field_varint(8, s1);
            lemma_field_varint(m.origin as nat, s2);
            lemma_field_varint(34, s3);
            lemma_field_payload(p, Seq::<u8>::empty());
            lemma_push_round_trip(chars);
            assert(spec_decode_msg_fields(s0, None, None) == spec_decode_msg_fields(
                s2,
                Some(m.origin),
                None,
            ));
            assert(spec_decode_msg_fields(s2, Some(m.origin), None) == spec_decode_msg_fields(
                Seq::<u8>::empty(),
                Some(m.origin),
                Some(SpecMessageBody::PushNotification(chars)),
            ));
            assert(spec_decode_msg_fields(
                Seq::<u8>::empty(),
                Some(m.origin),
                Some(SpecMessageBody::PushNotification(chars)),
            ) == Some(m));
        },
    }
}

/// Round trip of the `PinRead` record.
pub proof fn lemma_pin_read_round_trip(pr: PinRead)
    ensures
        spec_decode_pin_read(spec_encode_pin_read(pr)) == Some(pr),
{
    let a = spec_varint(8);
    let b = spec_varint(spec_pin_num(pr.pin));
    let c = spec_varint(21);
    let d = spec_le32(pr.value_bits);
    let enc = spec_encode_pin_read(pr);
    let s0 = a + (b + (c + (d + Seq::<u8>::empty())));
    let s1 = b + (c + (d + Seq::<u8>::empty()));
    let s2 = c + (d + Seq::<u8>::empty());
    let s3 = d + Seq::<u8>::empty();
    assert(enc =~= s0);
    lemma_field_varint(8, s1);
    lemma_field_varint(spec_pin_num(pr.pin), s2);
    lemma_field_varint(21, s3);
    assert(s3.len() == 4);
    let v = pr.value_bits;
    assert(s3[0] == (v % 256) as u8 && s3[1] == ((v / 256) % 256) as u8 && s3[2] == ((v
        / 0x1_0000) % 256) as u8 && s3[3] == ((v / 0x100_0000) % 256) as u8);
    assert(spec_u32_of_le(s3[0], s3[1], s3[2], s3[3]) == v) by {
        assert(v % 256 + 256 * ((v / 256) % 256) + 0x1_0000 * ((v / 0x1_0000) % 256) + 0x100_0000
            * ((v / 0x100_0000) % 256) == v) by (bit_vector);
    }
    assert(s3.skip(4) =~= Seq::<u8>::empty());
    assert(spec_decode_pin_read_fields(s0, None, None) == spec_decode_pin_read_fields(
        s2,
        Some(pr.pin),
        None,
    ));
    assert(spec_decode_pin_read_fields(s2, Some(pr.pin), None) == spec_decode_pin_read_fields(
        Seq::<u8>::empty(),
        Some(pr.pin),
        Some(v),
    ));
    assert(spec_decode_pin_read_fields(Seq::<u8>::empty(), Some(pr.pin), Some(v)) == Some(pr));
}

/// Round trip of a whole notification.
pub proof fn lemma_notification_round_trip(n: SpecNotification)
    ensures
        spec_decode_notification(spec_encode_notification(n)) == Some(n),
{
    let enc = spec_encode_notification(n);
    match n.body {
        Option::None => {
            assert(enc =~= Seq::<u8>::empty());
        },
        Option::Some(NotificationBody::PinRead(pr)) => {
            let p = spec_encode_pin_read(pr);
            let a = spec_varint(10);
            let lv = spec_varint(p.len());
            lemma_varint_len(spec_pin_num(pr.pin));
            let s0 = a + (lv + p + Seq::<u8>::empty());
            let s1 = lv + p + Seq::<u8>::empty();
            assert(enc =~= s0);
            lemma_field_varint(10, s1);
            lemma_field_payload(p, Seq::<u8>::empty());
            lemma_pin_read_round_trip(pr);
            assert(spec_decode_notification_fields(s0, None) == spec_decode_notification_fields(
                Seq::<u8>::empty(),
                Some(NotificationBody::PinRead(pr)),
            ));
        },
    }
}

} // verus!
