use karo_common_rpc::codec::encode;
use karo_common_rpc::envelope::{Body, Envelope, Kind};
use karo_common_rpc::registry::{
    CallError, CallsRegistry, Delivery, EntryKind, RegisterError, MAX_ENDPOINT_LEN,
};
use karo_common_rpc::request::{Request, RequestError};
use karo_common_rpc::writer::{SendError, Writer};

fn name(s: &str) -> Vec<u8> {
    s.as_bytes().to_vec()
}

#[test]
fn a_writer_queues_frames_whole_and_in_order() {
    let mut w = Writer::new();
    assert!(w.is_open());
    assert_eq!(w.pending_len(), 0);
    let a = Envelope::call(1, name("echo"), vec![1]);
    let b = Envelope::message(0, name("log"), vec![2, 3]);
    assert_eq!(w.send(&a), Ok(()));
    assert_eq!(w.send(&b), Ok(()));
    let mut expected = encode(&a).unwrap();
    expected.extend(encode(&b).unwrap());
    assert_eq!(w.pending_len(), expected.len());
    assert_eq!(w.take_pending(), expected);
    assert_eq!(w.pending_len(), 0);
    assert_eq!(w.take_pending(), Vec::<u8>::new());
    assert!(w.is_open());
}

#[test]
fn a_closed_writer_refuses_to_send() {
    let mut w = Writer::new();
    let a = Envelope::call(1, name("echo"), vec![1]);
    assert_eq!(w.send(&a), Ok(()));
    w.close();
    assert!(!w.is_open());
    assert_eq!(w.pending_len(), 0);
    assert_eq!(w.send(&a), Err(SendError::TransportClosed));
    assert_eq!(w.pending_len(), 0);
    w.replace_stream();
    assert!(w.is_open());
    assert_eq!(w.send(&a), Ok(()));
    assert_eq!(w.take_pending(), encode(&a).unwrap());
}

#[test]
fn a_writer_refuses_what_has_no_frame() {
    let mut w = Writer::new();
    let bad = Envelope {
        kind: Kind::Message,
        id: 0,
        endpoint: name("log"),
        body: Body::Failure(vec![]),
        client_name: vec![],
    };
    assert_eq!(w.send(&bad), Err(SendError::NotWellFormed));
    let big = Envelope::message(0, name("log"), vec![0; 0x100_0000]);
    assert_eq!(w.send(&big), Err(SendError::TooLarge));
    assert_eq!(w.pending_len(), 0);
}

#[test]
fn an_id_is_registered_once() {
    let mut r = CallsRegistry::new();
    assert_eq!(r.len(), 0);
    assert_eq!(r.register_call(1, name("echo")), Ok(()));
    assert_eq!(r.register_call(1, name("other")), Err(RegisterError::DuplicateId));
    assert_eq!(r.register_subscription(1, name("signal")), Err(RegisterError::DuplicateId));
    assert_eq!(r.register_subscription(2, name("signal")), Ok(()));
    assert_eq!(r.register_call(2, name("echo")), Err(RegisterError::DuplicateId));
    assert_eq!(r.len(), 2);
    assert_eq!(r.kind_of(1), Some(EntryKind::Call));
    assert_eq!(r.kind_of(2), Some(EntryKind::Subscription));
    assert_eq!(r.kind_of(3), None);
}

#[test]
fn an_endpoint_that_fits_no_frame_is_not_registered() {
    let mut r = CallsRegistry::new();
    assert_eq!(r.register_call(1, vec![b'a'; MAX_ENDPOINT_LEN]), Ok(()));
    assert_eq!(
        r.register_call(2, vec![b'a'; MAX_ENDPOINT_LEN + 1]),
        Err(RegisterError::EndpointTooLong)
    );
    assert_eq!(
        r.register_subscription(3, vec![b'a'; MAX_ENDPOINT_LEN + 1]),
        Err(RegisterError::EndpointTooLong)
    );
    assert_eq!(r.len(), 1);
}

#[test]
fn a_call_is_resolved_at_most_once() {
    let mut r = CallsRegistry::new();
    r.register_call(7, name("echo")).unwrap();
    assert_eq!(
        r.resolve(7, Ok(vec![42])),
        Delivery::ToCall { id: 7, result: Ok(vec![42]) }
    );
    assert_eq!(r.len(), 0);
    assert_eq!(r.resolve(7, Ok(vec![43])), Delivery::Dropped);
    assert_eq!(r.len(), 0);
}

#[test]
fn a_call_can_be_resolved_with_a_rejection() {
    let mut r = CallsRegistry::new();
    r.register_call(7, name("echo")).unwrap();
    assert_eq!(
        r.resolve(7, Err(CallError::PeerRejected(vec![1]))),
        Delivery::ToCall { id: 7, result: Err(CallError::PeerRejected(vec![1])) }
    );
    assert_eq!(r.kind_of(7), None);
}

#[test]
fn a_subscription_gets_every_response_in_order() {
    let mut r = CallsRegistry::new();
    r.register_call(1, name("echo")).unwrap();
    r.register_subscription(2, name("signal")).unwrap();
    for v in [41u8, 42, 43, 44, 45] {
        assert_eq!(
            r.resolve(2, Ok(vec![v])),
            Delivery::ToSubscription { id: 2, result: Ok(vec![v]) }
        );
        assert_eq!(r.len(), 2);
    }
    assert_eq!(r.kind_of(2), Some(EntryKind::Subscription));
}

#[test]
fn a_response_to_an_unknown_id_is_dropped() {
    let mut r = CallsRegistry::new();
    r.register_subscription(2, name("signal")).unwrap();
    assert_eq!(r.resolve(3, Ok(vec![1])), Delivery::Dropped);
    assert_eq!(r.len(), 1);
    assert_eq!(r.kind_of(2), Some(EntryKind::Subscription));
}

#[test]
fn removing_an_entry_forgets_its_id() {
    let mut r = CallsRegistry::new();
    r.register_subscription(2, name("signal")).unwrap();
    r.register_call(3, name("echo")).unwrap();
    assert!(r.remove(2));
    assert!(!r.remove(2));
    assert_eq!(r.len(), 1);
    assert_eq!(r.resolve(2, Ok(vec![1])), Delivery::Dropped);
    assert_eq!(r.kind_of(3), Some(EntryKind::Call));
    assert_eq!(r.register_subscription(2, name("signal")), Ok(()));
}

#[test]
fn clearing_fails_the_calls_and_keeps_the_subscriptions() {
    let mut r = CallsRegistry::new();
    r.register_call(1, name("a")).unwrap();
    r.register_subscription(2, name("b")).unwrap();
    r.register_call(3, name("c")).unwrap();
    r.register_call(4, name("d")).unwrap();
    r.register_subscription(5, name("e")).unwrap();
    let lost = r.clear_calls();
    assert_eq!(
        lost,
        vec![
            Delivery::ToCall { id: 1, result: Err(CallError::ConnectionLost) },
            Delivery::ToCall { id: 3, result: Err(CallError::ConnectionLost) },
            Delivery::ToCall { id: 4, result: Err(CallError::ConnectionLost) },
        ]
    );
    assert_eq!(r.len(), 2);
    assert_eq!(r.kind_of(1), None);
    assert_eq!(r.kind_of(2), Some(EntryKind::Subscription));
    assert_eq!(r.kind_of(5), Some(EntryKind::Subscription));
    assert_eq!(r.clear_calls(), vec![]);
    assert_eq!(r.len(), 2);
}

#[test]
fn a_subscription_is_marked_from_the_loss_until_its_renewal() {
    let mut r = CallsRegistry::new();
    r.register_subscription(2, name("b")).unwrap();
    r.register_call(3, name("c")).unwrap();
    assert!(!r.awaits_resubscription(2));
    assert!(!r.awaits_resubscription(3));
    assert!(!r.awaits_resubscription(4));
    let _ = r.clear_calls();
    assert!(r.awaits_resubscription(2));
    assert!(!r.awaits_resubscription(3));
    // a subscription that comes later carries no mark
    r.register_subscription(6, name("f")).unwrap();
    assert!(!r.awaits_resubscription(6));
    // a response still reaches a marked subscription
    assert_eq!(
        r.resolve(2, Ok(vec![1])),
        Delivery::ToSubscription { id: 2, result: Ok(vec![1]) }
    );
    assert!(r.awaits_resubscription(2));
    let mut w = Writer::new();
    assert_eq!(r.resubscribe_all(&mut w), Ok(()));
    assert!(!r.awaits_resubscription(2));
    assert!(!r.awaits_resubscription(6));
    assert_eq!(r.kind_of(2), Some(EntryKind::Subscription));
    assert_eq!(r.len(), 2);
}

#[test]
fn resubscribing_sends_one_envelope_per_subscription() {
    let mut r = CallsRegistry::new();
    r.register_subscription(2, name("b")).unwrap();
    r.register_call(3, name("c")).unwrap();
    r.register_subscription(5, name("e")).unwrap();
    let mut w = Writer::new();
    let first = Envelope::message(0, name("log"), vec![]);
    w.send(&first).unwrap();
    assert_eq!(r.resubscribe_all(&mut w), Ok(()));
    let mut expected = encode(&first).unwrap();
    expected.extend(encode(&Envelope::resubscription(2, name("b"))).unwrap());
    expected.extend(encode(&Envelope::resubscription(5, name("e"))).unwrap());
    assert_eq!(w.take_pending(), expected);
    assert_eq!(r.len(), 3);
    assert_eq!(r.kind_of(3), Some(EntryKind::Call));
    let _ = r.clear_calls();
    w.close();
    assert_eq!(r.resubscribe_all(&mut w), Err(SendError::TransportClosed));
    assert_eq!(w.pending_len(), 0);
    assert!(r.awaits_resubscription(2));
    assert!(r.awaits_resubscription(5));
}

#[test]
fn a_response_is_no_request() {
    assert!(Request::new(Envelope::response(1, Ok(vec![]))).is_none());
    assert!(Request::new(Envelope::call(1, name("echo"), vec![])).is_some());
}

#[test]
fn a_request_shows_what_the_envelope_holds() {
    let q = Request::new(Envelope::fd(9, name("connect"), name("client.one"))).unwrap();
    assert_eq!(q.kind(), Kind::Fd);
    assert_eq!(q.id(), 9);
    assert_eq!(q.endpoint(), &name("connect"));
    assert_eq!(q.client_name(), &name("client.one"));
}

#[test]
fn the_body_is_taken_once() {
    let mut q = Request::new(Envelope::call(1, name("echo"), vec![42])).unwrap();
    assert_eq!(q.take_body(), Ok(Body::Payload(vec![42])));
    assert_eq!(q.take_body(), Err(RequestError::AlreadyConsumed));
    assert_eq!(q.take_body(), Err(RequestError::AlreadyConsumed));
    assert_eq!(q.endpoint(), &name("echo"));
    assert_eq!(q.id(), 1);
}

#[test]
fn a_message_cannot_be_answered() {
    let q = Request::new(Envelope::message(0, name("log"), vec![1])).unwrap();
    let mut w = Writer::new();
    assert_eq!(q.respond(Ok(vec![1]), &mut w), Err(RequestError::NotRespondable));
    assert_eq!(w.pending_len(), 0);
}

#[test]
fn a_call_is_answered_with_its_own_id() {
    let q = Request::new(Envelope::call(77, name("echo"), vec![42])).unwrap();
    let mut w = Writer::new();
    assert_eq!(q.respond(Ok(vec![42]), &mut w), Ok(()));
    assert_eq!(w.take_pending(), encode(&Envelope::response(77, Ok(vec![42]))).unwrap());
    assert_eq!(q.respond(Err(vec![1]), &mut w), Ok(()));
    assert_eq!(w.take_pending(), encode(&Envelope::response(77, Err(vec![1]))).unwrap());
}

#[test]
fn an_answer_fails_when_the_stream_is_down_or_the_frame_too_large() {
    let q = Request::new(Envelope::resubscription(5, name("signal"))).unwrap();
    let mut w = Writer::new();
    assert_eq!(
        q.respond(Ok(vec![0; 0x100_0000]), &mut w),
        Err(RequestError::Send(SendError::TooLarge))
    );
    w.close();
    assert_eq!(
        q.respond(Ok(vec![1]), &mut w),
        Err(RequestError::Send(SendError::TransportClosed))
    );
    assert_eq!(w.pending_len(), 0);
}
