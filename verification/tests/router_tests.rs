use ledband::codec::{
    decode_notification, encode_message, encode_notification, Message, MessageBody, Notification,
    NotificationBody, Pin, PinOperation, PinRead, PushNotification, SetPin, SyncClock, Timestamp,
    ORIGIN_TAG,
};
use ledband::router::{
    clock_sync_update, inv, notification_update, pin_command, pin_read_notification, BleServer,
    ConnectionRegistry, GapAction, GapEvent,
};

#[test]
fn pin_read_request_to_outbound_notification() {
    // A SetPin{G25, AnalogueRead} message, decoded and validated, must end
    // as a PinRead{G25, reading} notification on the outbound path.
    let mut server = BleServer::new(3, 10);
    let mut rx = server.get_receiver();
    let cmd = Message {
        origin: ORIGIN_TAG,
        body: Some(MessageBody::SetPin(SetPin {
            pin: Pin::G25,
            operation: PinOperation::AnalogueRead,
        })),
    };
    let bytes = encode_message(&cmd);
    assert_eq!(server.handle_data_in(&bytes), 0);

    // The pin consumer picks the command off the bus ...
    let received = rx.recv().expect("command reaches the bus");
    let set_pin = pin_command(&received).expect("a pin command");
    assert_eq!(set_pin.pin, Pin::G25);
    assert_eq!(set_pin.operation, PinOperation::AnalogueRead);

    // ... performs the analogue read and queues the notification.
    let reading: f32 = 612.0;
    let notif = pin_read_notification(set_pin.pin, reading.to_bits());

    // The outbound thread serializes it; the peer decodes the same values.
    let wire = encode_notification(&notif);
    let back = decode_notification(&wire).unwrap();
    assert_eq!(
        back,
        Notification {
            body: Some(NotificationBody::PinRead(PinRead {
                pin: Pin::G25,
                value_bits: reading.to_bits(),
            })),
        }
    );
    match back.body.unwrap() {
        NotificationBody::PinRead(pr) => assert_eq!(f32::from_bits(pr.value_bits), 612.0),
    }
}

#[test]
fn data_in_reports_success_whatever_happens() {
    let mut server = BleServer::new(3, 10);
    let mut rx = server.get_receiver();
    // Garbage bytes: dropped, but the peer sees success.
    assert_eq!(server.handle_data_in(&[0xFF, 0x00, 0x13]), 0);
    // A wrong origin: dropped too.
    let bad = Message { origin: 1234, body: None };
    assert_eq!(server.handle_data_in(&encode_message(&bad)), 0);
    // Neither reached the bus.
    assert!(rx.try_recv().is_none());
    // A valid message: same return code, but it is published.
    let good = Message { origin: ORIGIN_TAG, body: None };
    assert_eq!(server.handle_data_in(&encode_message(&good)), 0);
    assert_eq!(rx.recv().unwrap(), good);
}

#[test]
fn registry_tracks_handles() {
    let mut reg = ConnectionRegistry::new(3);
    assert!(reg.active_handles().is_empty());
    assert!(reg.register(7));
    assert!(reg.register(9));
    assert_eq!(reg.active_handles(), vec![7, 9]);
    assert!(reg.register(11));
    // All slots taken.
    assert!(!reg.register(13));
    assert_eq!(reg.active_handles(), vec![7, 9, 11]);
    assert!(reg.remove(9));
    assert!(!reg.remove(9));
    assert_eq!(reg.active_handles(), vec![7, 11]);
    // The freed slot is reused.
    assert!(reg.register(13));
    assert_eq!(reg.active_handles(), vec![7, 13, 11]);
}

#[test]
fn link_state_machine() {
    let mut server = BleServer::new(2, 4);
    assert!(!server.ble_connected());
    server.start_advertising();

    // A successful connect occupies the link and registers the handle.
    let act = server.handle_gap_event(GapEvent::Connect { status: 0, handle: 5 });
    assert_eq!(act, GapAction::Stay);
    assert!(server.ble_connected());
    assert_eq!(server.notify_targets(), vec![5]);

    // A failed connect attempt restarts advertising.
    let act = server.handle_gap_event(GapEvent::Connect { status: 3, handle: 6 });
    assert_eq!(act, GapAction::Advertise);

    // Housekeeping events change nothing.
    assert_eq!(server.handle_gap_event(GapEvent::ConnectionUpdate), GapAction::Stay);
    assert_eq!(server.handle_gap_event(GapEvent::MtuUpdate), GapAction::Stay);
    assert_eq!(server.handle_gap_event(GapEvent::AdvertiseComplete), GapAction::Stay);

    // Disconnect clears the handle and re-enters advertising.
    let act = server.handle_gap_event(GapEvent::Disconnect { handle: 5 });
    assert_eq!(act, GapAction::Advertise);
    assert!(!server.ble_connected());
    assert!(server.notify_targets().is_empty());
}

#[test]
fn stop_sequence_ordering() {
    let mut server = BleServer::new(2, 4);
    assert!(!server.may_deinit());
    server.request_stop();
    // The stack has not confirmed yet: deinitialising the radio now would
    // be unsafe, so permission is still refused.
    assert!(!server.may_deinit());
    // Events arriving while stopping change nothing.
    assert_eq!(
        server.handle_gap_event(GapEvent::Connect { status: 0, handle: 2 }),
        GapAction::Stay
    );
    assert!(!server.may_deinit());
    server.confirm_stop();
    assert!(server.may_deinit());
}

#[test]
fn consumer_decisions() {
    let push = Message {
        origin: ORIGIN_TAG,
        body: Some(MessageBody::PushNotification(PushNotification {
            body: "tea is ready".to_string(),
        })),
    };
    assert_eq!(notification_update(&push).unwrap(), "tea is ready");
    assert!(clock_sync_update(&push).is_none());
    assert!(pin_command(&push).is_none());

    let sync = Message {
        origin: ORIGIN_TAG,
        body: Some(MessageBody::SyncClock(SyncClock {
            timestamp: Timestamp { seconds: 1_700_000_000, nanos: 42 },
        })),
    };
    let ts = clock_sync_update(&sync).unwrap();
    assert_eq!(ts.seconds, 1_700_000_000);
    assert_eq!(ts.nanos, 42);
    assert!(notification_update(&sync).is_none());

    let none = Message { origin: ORIGIN_TAG, body: None };
    assert!(notification_update(&none).is_none());
    assert!(clock_sync_update(&none).is_none());
    assert!(pin_command(&none).is_none());
}

#[test]
fn uuid_byte_reversal() {
    let bytes: [u8; 16] = [1, 2, 3, 4, 5, 6, 7, 8, 9, 10, 11, 12, 13, 14, 15, 16];
    let r = inv(bytes);
    assert_eq!(r, [16, 15, 14, 13, 12, 11, 10, 9, 8, 7, 6, 5, 4, 3, 2, 1]);
    // Reversing twice gives the original.
    assert_eq!(inv(r), bytes);
}

#[test]
fn fresh_server_is_idle() {
    let server = BleServer::new(4, 4);
    assert!(!server.ble_connected());
    assert!(server.notify_targets().is_empty());
}
