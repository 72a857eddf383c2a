use ledband::codec::{
    decode_message, decode_notification, encode_message, encode_notification, validate_msg,
    Message, MessageBody, Notification, NotificationBody, Pin, PinOperation, PinRead,
    PushNotification, SetPin, SyncClock, Timestamp, ORIGIN_TAG,
};

fn round_trip(msg: Message) {
    let bytes = encode_message(&msg);
    let back = decode_message(&bytes).expect("round trip decode");
    assert_eq!(back, msg);
}

#[test]
fn round_trip_set_pin_all_variants() {
    for pin in [Pin::G0, Pin::G25, Pin::G26] {
        for operation in [
            PinOperation::SetHigh,
            PinOperation::SetLow,
            PinOperation::AnalogueRead,
        ] {
            round_trip(Message {
                origin: ORIGIN_TAG,
                body: Some(MessageBody::SetPin(SetPin { pin, operation })),
            });
        }
    }
}

#[test]
fn round_trip_sync_clock() {
    for (seconds, nanos) in [
        (0i64, 0i32),
        (1_700_000_000, 999_999_999),
        (-1, -1),
        (i64::MIN, i32::MIN),
        (i64::MAX, i32::MAX),
    ] {
        round_trip(Message {
            origin: 7,
            body: Some(MessageBody::SyncClock(SyncClock {
                timestamp: Timestamp { seconds, nanos },
            })),
        });
    }
}

#[test]
fn round_trip_push_notification() {
    for text in ["", "hello", "héllo wörld", "緊急通知", "line\nbreak"] {
        round_trip(Message {
            origin: ORIGIN_TAG,
            body: Some(MessageBody::PushNotification(PushNotification {
                body: text.to_string(),
            })),
        });
    }
}

#[test]
fn round_trip_no_body() {
    round_trip(Message { origin: 0, body: None });
    round_trip(Message { origin: u32::MAX, body: None });
}

#[test]
fn round_trip_notification() {
    for pin in [Pin::G0, Pin::G25, Pin::G26] {
        for value_bits in [0u32, 1, (512.0f32).to_bits(), u32::MAX] {
            let n = Notification {
                body: Some(NotificationBody::PinRead(PinRead { pin, value_bits })),
            };
            let bytes = encode_notification(&n);
            assert_eq!(decode_notification(&bytes).expect("decode"), n);
        }
    }
    let empty = Notification { body: None };
    let bytes = encode_notification(&empty);
    assert!(bytes.is_empty());
    assert_eq!(decode_notification(&bytes).unwrap(), empty);
}

#[test]
fn exact_wire_bytes() {
    // origin 1, no body: field 1 varint tag then the value.
    let m = Message { origin: 1, body: None };
    assert_eq!(encode_message(&m), vec![0x08, 0x01]);

    // The origin constant 3387062 as a varint.
    let m = Message { origin: ORIGIN_TAG, body: None };
    assert_eq!(encode_message(&m), vec![0x08, 0xB6, 0xDD, 0xCE, 0x01]);

    // A set-pin body: field 2 length-delimited, pin G25 = 1 at field 1,
    // operation AnalogueRead = 2 at field 2.
    let m = Message {
        origin: 1,
        body: Some(MessageBody::SetPin(SetPin {
            pin: Pin::G25,
            operation: PinOperation::AnalogueRead,
        })),
    };
    assert_eq!(
        encode_message(&m),
        vec![0x08, 0x01, 0x12, 0x04, 0x08, 0x01, 0x10, 0x02]
    );

    // A push body: field 4, inner text at field 1.
    let m = Message {
        origin: 1,
        body: Some(MessageBody::PushNotification(PushNotification {
            body: "AB".to_string(),
        })),
    };
    assert_eq!(
        encode_message(&m),
        vec![0x08, 0x01, 0x22, 0x04, 0x0A, 0x02, 0x41, 0x42]
    );
}

#[test]
fn exact_wire_bytes_negative_timestamp() {
    // Negative integers travel as ten-byte two's-complement varints.
    let m = Message {
        origin: 1,
        body: Some(MessageBody::SyncClock(SyncClock {
            timestamp: Timestamp { seconds: -1, nanos: 0 },
        })),
    };
    let expected = vec![
        0x08, 0x01, // origin 1
        0x1A, 0x0F, // field 3, 15 bytes
        0x0A, 0x0D, // timestamp record, 13 bytes
        0x08, 0xFF, 0xFF, 0xFF, 0xFF, 0xFF, 0xFF, 0xFF, 0xFF, 0xFF, 0x01, // seconds -1
        0x10, 0x00, // nanos 0
    ];
    assert_eq!(encode_message(&m), expected);
    assert_eq!(decode_message(&expected).unwrap(), m);
}

#[test]
fn decode_accepts_any_field_order() {
    // The wire format does not fix the field order: body before origin is
    // fine.
    let bytes = vec![0x12, 0x04, 0x08, 0x00, 0x10, 0x00, 0x08, 0x01];
    let m = decode_message(&bytes).unwrap();
    assert_eq!(
        m,
        Message {
            origin: 1,
            body: Some(MessageBody::SetPin(SetPin {
                pin: Pin::G0,
                operation: PinOperation::SetHigh,
            })),
        }
    );
}

#[test]
fn decode_rejects_malformed_input() {
    // Empty input: the required origin is missing.
    assert!(decode_message(&[]).is_err());
    // Truncated varint.
    assert!(decode_message(&[0x08, 0x80]).is_err());
    // Origin too large for 32 bits.
    assert!(decode_message(&[0x08, 0x80, 0x80, 0x80, 0x80, 0x10]).is_err());
    // Body present but missing its required operation field.
    assert!(decode_message(&[0x08, 0x01, 0x12, 0x02, 0x08, 0x00]).is_err());
    // Length prefix running past the end.
    assert!(decode_message(&[0x08, 0x01, 0x12, 0x09, 0x08, 0x00]).is_err());
    // Unknown pin value.
    assert!(decode_message(&[0x08, 0x01, 0x12, 0x04, 0x08, 0x07, 0x10, 0x00]).is_err());
    // Push body that is not UTF-8.
    assert!(decode_message(&[0x08, 0x01, 0x22, 0x03, 0x0A, 0x01, 0xFF]).is_err());
    // A varint of more than ten bytes.
    let mut long = vec![0x08];
    long.extend([0x80u8; 10]);
    long.push(0x01);
    assert!(decode_message(&long).is_err());
}

#[test]
fn decode_skips_unknown_fields() {
    // Field 5 (varint), field 6 (length-delimited) and field 7 (fixed32) are
    // unknown and ignored; the origin still decodes.
    let bytes = vec![
        0x28, 0x07, // field 5, varint 7
        0x08, 0x2A, // origin 42
        0x32, 0x03, 0x01, 0x02, 0x03, // field 6, 3 bytes
        0x3D, 0x01, 0x02, 0x03, 0x04, // field 7, fixed32
    ];
    let m = decode_message(&bytes).expect("unknown fields are skipped");
    assert_eq!(m, Message { origin: 42, body: None });
}

#[test]
fn decode_last_field_wins() {
    // Two origin fields: the last one counts, as in the usual wire format.
    let bytes = vec![0x08, 0x01, 0x08, 0x02];
    assert_eq!(decode_message(&bytes).unwrap().origin, 2);
}

#[test]
fn validate_accepts_exactly_the_fixed_origin() {
    // The right origin passes whatever the body looks like.
    for body in [
        None,
        Some(MessageBody::SetPin(SetPin { pin: Pin::G0, operation: PinOperation::SetLow })),
        Some(MessageBody::PushNotification(PushNotification { body: "x".to_string() })),
    ] {
        let m = Message { origin: ORIGIN_TAG, body };
        let v = validate_msg(m.clone()).expect("fixed origin accepted");
        assert_eq!(v, m);
    }
    // Any other origin is rejected.
    for origin in [0u32, 1, ORIGIN_TAG - 1, ORIGIN_TAG + 1, u32::MAX] {
        assert!(validate_msg(Message { origin, body: None }).is_err());
    }
}
