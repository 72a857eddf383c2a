use ledband::codec::{Message, MessageBody, PushNotification};
use ledband::eventbus::EventBus;

fn msg(origin: u32, text: &str) -> Message {
    Message {
        origin,
        body: Some(MessageBody::PushNotification(PushNotification {
            body: text.to_string(),
        })),
    }
}

#[test]
fn every_subscriber_sees_publish_order() {
    let mut bus = EventBus::new(10);
    let mut rx1 = bus.get_receiver();
    let mut rx2 = bus.get_receiver();
    let a = msg(1, "a");
    let b = msg(2, "b");
    let c = msg(3, "c");
    bus.push_message(a.clone()).unwrap();
    bus.push_message(b.clone()).unwrap();
    bus.push_message(c.clone()).unwrap();
    for rx in [&mut rx1, &mut rx2] {
        assert_eq!(rx.recv().unwrap(), a);
        assert_eq!(rx.recv().unwrap(), b);
        assert_eq!(rx.recv().unwrap(), c);
        assert!(rx.try_recv().is_none());
    }
}

#[test]
fn late_subscriber_sees_only_later_messages() {
    let mut bus = EventBus::new(10);
    let mut early = bus.get_receiver();
    let before = msg(1, "before");
    let after = msg(2, "after");
    bus.push_message(before.clone()).unwrap();
    let mut late = bus.get_receiver();
    bus.push_message(after.clone()).unwrap();
    // The late subscriber never sees what was published before it existed.
    assert_eq!(late.recv().unwrap(), after);
    assert!(late.try_recv().is_none());
    // The early one sees everything, in order.
    assert_eq!(early.recv().unwrap(), before);
    assert_eq!(early.recv().unwrap(), after);
}

#[test]
fn publish_without_subscribers_succeeds() {
    let mut bus = EventBus::new(2);
    for i in 0..50 {
        bus.push_message(msg(i, "x")).unwrap();
    }
}

#[test]
fn full_ring_drops_the_publish() {
    let mut bus = EventBus::new(1);
    let mut rx = bus.get_receiver();
    bus.push_message(msg(1, "first")).unwrap();
    // The single slot is taken and the reader has not caught up: the next
    // publish is refused, nothing blocks.
    assert!(bus.push_message(msg(2, "second")).is_err());
    // Draining the reader frees the slot.
    assert_eq!(rx.recv().unwrap(), msg(1, "first"));
    bus.push_message(msg(3, "third")).unwrap();
    assert_eq!(rx.recv().unwrap(), msg(3, "third"));
}
