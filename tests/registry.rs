use gstd::msg::{deliver_reply, DeliveryError};
use gstd::{
    await_reply, CodecMessageFuture, Fault, MessageFuture, MessageId, Progress, ReplyPoll,
    WakeSignals,
};

fn mid(b: u8) -> MessageId {
    MessageId([b; 32])
}

#[test]
fn recorded_reply_is_handed_out_once() {
    let mut signals = WakeSignals::new();
    signals.register_signal(mid(1), mid(9));
    assert!(matches!(signals.poll(mid(1)), ReplyPoll::Pending));
    assert_eq!(signals.record_reply(mid(1), vec![5, 6, 7]), Ok(mid(9)));
    match signals.poll(mid(1)) {
        ReplyPoll::Ready(p) => assert_eq!(p, vec![5, 6, 7]),
        _ => panic!("reply expected"),
    }
    assert!(matches!(signals.poll(mid(1)), ReplyPoll::Absent));
}

#[test]
fn fresh_registration_after_consumption_is_pending() {
    let mut signals = WakeSignals::new();
    signals.register_signal(mid(1), mid(9));
    assert_eq!(signals.record_reply(mid(1), vec![1]), Ok(mid(9)));
    assert!(matches!(signals.poll(mid(1)), ReplyPoll::Ready(_)));
    signals.register_signal(mid(1), mid(8));
    assert!(matches!(signals.poll(mid(1)), ReplyPoll::Pending));
    assert_eq!(signals.record_reply(mid(1), vec![2]), Ok(mid(8)));
}

#[test]
fn pending_poll_leaves_entry() {
    let mut signals = WakeSignals::new();
    signals.register_signal(mid(3), mid(4));
    for _ in 0..10 {
        assert!(matches!(signals.poll(mid(3)), ReplyPoll::Pending));
    }
    assert_eq!(signals.record_reply(mid(3), vec![]), Ok(mid(4)));
    match signals.poll(mid(3)) {
        ReplyPoll::Ready(p) => assert!(p.is_empty()),
        _ => panic!("reply expected"),
    }
}

#[test]
fn never_registered_polls_absent() {
    let mut signals = WakeSignals::new();
    assert!(matches!(signals.poll(mid(2)), ReplyPoll::Absent));
}

#[test]
fn unknown_reply_is_a_fault() {
    let mut signals = WakeSignals::new();
    signals.register_signal(mid(1), mid(9));
    assert_eq!(signals.record_reply(mid(2), vec![1, 2]), Err(Fault::UnknownReply));
    assert!(matches!(signals.poll(mid(2)), ReplyPoll::Absent));
    assert!(matches!(signals.poll(mid(1)), ReplyPoll::Pending));
}

#[test]
fn unknown_reply_is_not_delivered() {
    let mut signals = WakeSignals::new();
    let r = deliver_reply(&mut signals, mid(7), vec![1]);
    assert!(matches!(r, Err(DeliveryError::Unknown(Fault::UnknownReply))));
    assert!(matches!(signals.poll(mid(7)), ReplyPoll::Absent));
}

#[test]
fn second_registration_replaces_first() {
    let mut signals = WakeSignals::new();
    signals.register_signal(mid(1), mid(9));
    signals.register_signal(mid(1), mid(8));
    assert_eq!(signals.record_reply(mid(1), vec![3]), Ok(mid(8)));
}

#[test]
fn replies_are_kept_apart_by_id() {
    let mut signals = WakeSignals::new();
    signals.register_signal(mid(1), mid(9));
    signals.register_signal(mid(2), mid(9));
    assert_eq!(signals.record_reply(mid(2), vec![22]), Ok(mid(9)));
    assert!(matches!(signals.poll(mid(1)), ReplyPoll::Pending));
    match signals.poll(mid(2)) {
        ReplyPoll::Ready(p) => assert_eq!(p, vec![22]),
        _ => panic!("reply expected"),
    }
    assert_eq!(signals.record_reply(mid(1), vec![11]), Ok(mid(9)));
    match signals.poll(mid(1)) {
        ReplyPoll::Ready(p) => assert_eq!(p, vec![11]),
        _ => panic!("reply expected"),
    }
}

#[test]
fn raw_future_follows_registry() {
    let mut signals = WakeSignals::new();
    let fut = MessageFuture { waiting_reply_to: mid(4) };
    assert!(matches!(fut.poll(&mut signals), Err(Fault::NeverAwaited)));
    let fut = await_reply(&mut signals, mid(4), mid(5));
    assert_eq!(fut.waiting_reply_to, mid(4));
    assert!(matches!(fut.poll(&mut signals), Ok(Progress::Pending)));
    assert_eq!(signals.record_reply(mid(4), b"PONG".to_vec()), Ok(mid(5)));
    match fut.poll(&mut signals) {
        Ok(Progress::Ready(p)) => assert_eq!(p, b"PONG".to_vec()),
        _ => panic!("reply expected"),
    }
    assert!(matches!(fut.poll(&mut signals), Err(Fault::NeverAwaited)));
}

#[test]
fn typed_future_decodes_reply() {
    let mut signals = WakeSignals::new();
    signals.register_signal(mid(6), mid(5));
    let fut: CodecMessageFuture<u32> = CodecMessageFuture::new(mid(6));
    assert!(matches!(fut.poll(&mut signals), Ok(Progress::Pending)));
    assert_eq!(signals.record_reply(mid(6), vec![1, 1, 0, 0]), Ok(mid(5)));
    match fut.poll(&mut signals) {
        Ok(Progress::Ready(Ok(v))) => assert_eq!(v, 257),
        _ => panic!("decoded reply expected"),
    }
}

#[test]
fn typed_future_decode_error_is_not_a_fault() {
    let mut signals = WakeSignals::new();
    signals.register_signal(mid(6), mid(5));
    assert_eq!(signals.record_reply(mid(6), vec![1, 2]), Ok(mid(5)));
    let fut: CodecMessageFuture<u32> = CodecMessageFuture::new(mid(6));
    assert!(matches!(fut.poll(&mut signals), Ok(Progress::Ready(Err(_)))));
    assert!(matches!(fut.poll(&mut signals), Err(Fault::NeverAwaited)));
    assert!(matches!(signals.poll(mid(6)), ReplyPoll::Absent));
}

#[test]
fn typed_future_never_awaited_is_a_fault() {
    let mut signals = WakeSignals::new();
    let fut: CodecMessageFuture<u64> = CodecMessageFuture::new(mid(1));
    assert!(matches!(fut.poll(&mut signals), Err(Fault::NeverAwaited)));
}

/// A handler that sends a message, awaits its reply and then answers with how
/// many full round trips it has seen, as the example program does.
fn handle(
    signals: &mut WakeSignals,
    counter: &mut i32,
    sent: MessageId,
    current: MessageId,
    first_run: bool,
) -> Option<(Vec<u8>, i32)> {
    if first_run {
        *counter += 1;
        await_reply(signals, sent, current);
    }
    let fut = MessageFuture { waiting_reply_to: sent };
    match fut.poll(signals) {
        Ok(Progress::Ready(p)) => {
            let answer = *counter;
            *counter = 0;
            Some((p, answer))
        }
        Ok(Progress::Pending) => None,
        Err(f) => panic!("{:?}", f),
    }
}

#[test]
fn round_trip_resumes_with_reply() {
    let mut signals = WakeSignals::new();
    let mut counter = 0;
    let a = mid(0xA);
    let task = mid(0x1);
    assert_eq!(handle(&mut signals, &mut counter, a, task, true), None);
    assert_eq!(counter, 1);
    assert_eq!(signals.record_reply(a, b"PONG".to_vec()), Ok(task));
    let out = handle(&mut signals, &mut counter, a, task, false);
    assert_eq!(out, Some((b"PONG".to_vec(), 1)));
    assert_eq!(counter, 0);
}
