use karo_common_rpc::bytes::{copy_range, push_all, push_be32, push_be64, read_be32, read_be64};
use karo_common_rpc::codec::{
    declared_len, decode, decode_record, encode, record_len, EncodeError, MalformedFrame,
    HEADER_LEN, MAX_FRAME_LEN, PREFIX_LEN,
};
use karo_common_rpc::envelope::{Body, Envelope, Kind};

fn name(s: &str) -> Vec<u8> {
    s.as_bytes().to_vec()
}

#[test]
fn big_endian_32_has_the_high_byte_first() {
    let mut out = vec![9u8];
    push_be32(&mut out, 0x0102_0304);
    assert_eq!(out, vec![9, 1, 2, 3, 4]);
    assert_eq!(read_be32(&out, 1), 0x0102_0304);
}

#[test]
fn big_endian_64_has_the_high_byte_first() {
    let mut out = Vec::new();
    push_be64(&mut out, 0x0102_0304_0506_0708);
    assert_eq!(out, vec![1, 2, 3, 4, 5, 6, 7, 8]);
    assert_eq!(read_be64(&out, 0), 0x0102_0304_0506_0708);
    let mut top = Vec::new();
    push_be64(&mut top, u64::MAX);
    assert_eq!(top, vec![255; 8]);
    assert_eq!(read_be64(&top, 0), u64::MAX);
}

#[test]
fn copying_and_appending_bytes() {
    let src = vec![1u8, 2, 3, 4, 5];
    assert_eq!(copy_range(&src, 1, 4), vec![2, 3, 4]);
    assert_eq!(copy_range(&src, 2, 2), Vec::<u8>::new());
    let mut out = vec![0u8];
    push_all(&mut out, &src);
    assert_eq!(out, vec![0, 1, 2, 3, 4, 5]);
}

#[test]
fn a_call_encodes_to_the_documented_bytes() {
    let e = Envelope::call(0x0102, name("echo"), vec![42]);
    let frame = encode(&e).unwrap();
    let expected: Vec<u8> = vec![
        0, 0, 0, 23, // record length
        0, // kind: call
        0, 0, 0, 0, 0, 0, 1, 2, // id
        1, // body: payload
        0, 0, 0, 4, // endpoint length
        0, 0, 0, 0, // client name length
        b'e', b'c', b'h', b'o', // endpoint
        42, // payload
    ];
    assert_eq!(frame, expected);
    assert_eq!(record_len(&e), Some(23));
    assert_eq!(declared_len(&frame), Ok(23));
}

#[test]
fn a_failure_response_encodes_to_the_documented_bytes() {
    let e = Envelope::response(3, Err(vec![7, 8]));
    let frame = encode(&e).unwrap();
    let expected: Vec<u8> =
        vec![0, 0, 0, 20, 2, 0, 0, 0, 0, 0, 0, 0, 3, 2, 0, 0, 0, 0, 0, 0, 0, 0, 7, 8];
    assert_eq!(frame, expected);
}

#[test]
fn every_kind_survives_a_round_trip() {
    let all = vec![
        Envelope::call(1, name("echo"), vec![42]),
        Envelope::call(u64::MAX, name(""), vec![]),
        Envelope::message(0, name("log"), name("{\"message\":\"Hello world!\"}")),
        Envelope::resubscription(2, name("signal")),
        Envelope::subscription(3, name("signal"), vec![1, 2, 3]),
        Envelope::response(4, Ok(vec![])),
        Envelope::response(5, Ok(vec![9; 300])),
        Envelope::response(6, Err(name("no such endpoint"))),
        Envelope::fd(7, name("connect"), name("client.one")),
    ];
    for e in all {
        assert!(e.is_well_formed());
        let frame = encode(&e).unwrap();
        assert_eq!(frame.len(), PREFIX_LEN + record_len(&e).unwrap());
        assert_eq!(decode(&frame), Ok(e.clone()));
        assert_eq!(decode_record(&frame[PREFIX_LEN..].to_vec()), Ok(e));
    }
}

#[test]
fn the_constructors_fill_the_fields() {
    let e = Envelope::fd(7, name("connect"), name("client"));
    assert_eq!(e.kind, Kind::Fd);
    assert_eq!(e.id, 7);
    assert_eq!(e.endpoint, name("connect"));
    assert_eq!(e.client_name, name("client"));
    assert_eq!(e.body, Body::Empty);
    let r = Envelope::response(9, Ok(vec![1]));
    assert_eq!(r.kind, Kind::Response);
    assert_eq!(r.id, 9);
    assert!(r.endpoint.is_empty());
    assert_eq!(r.body, Body::Payload(vec![1]));
    let f = Envelope::response(9, Err(vec![2]));
    assert_eq!(f.body, Body::Failure(vec![2]));
    let c = Envelope::call(1, name("a"), vec![3]);
    assert_eq!(c.kind, Kind::Call);
    assert_eq!(c.body, Body::Payload(vec![3]));
    let m = Envelope::message(1, name("a"), vec![3]);
    assert_eq!(m.kind, Kind::Message);
    let s = Envelope::resubscription(1, name("a"));
    assert_eq!(s.kind, Kind::Subscription);
    assert_eq!(s.body, Body::Empty);
}

#[test]
fn an_envelope_that_breaks_the_schema_is_not_encoded() {
    let with_endpoint = Envelope {
        kind: Kind::Response,
        id: 1,
        endpoint: name("echo"),
        body: Body::Payload(vec![]),
        client_name: vec![],
    };
    assert!(!with_endpoint.is_well_formed());
    assert_eq!(encode(&with_endpoint), Err(EncodeError::NotWellFormed));
    let empty_response = Envelope {
        kind: Kind::Response,
        id: 1,
        endpoint: vec![],
        body: Body::Empty,
        client_name: vec![],
    };
    assert_eq!(encode(&empty_response), Err(EncodeError::NotWellFormed));
    let failing_call = Envelope {
        kind: Kind::Call,
        id: 1,
        endpoint: name("echo"),
        body: Body::Failure(vec![]),
        client_name: vec![],
    };
    assert_eq!(encode(&failing_call), Err(EncodeError::NotWellFormed));
    let named_call = Envelope {
        kind: Kind::Call,
        id: 1,
        endpoint: name("echo"),
        body: Body::Empty,
        client_name: name("me"),
    };
    assert_eq!(encode(&named_call), Err(EncodeError::NotWellFormed));
}

#[test]
fn the_largest_record_fits_and_one_byte_more_does_not() {
    let fits = Envelope::call(1, vec![], vec![0; MAX_FRAME_LEN - HEADER_LEN]);
    assert_eq!(record_len(&fits), Some(MAX_FRAME_LEN));
    let frame = encode(&fits).unwrap();
    assert_eq!(&frame[..4], &[1, 0, 0, 0]);
    assert_eq!(decode(&frame), Ok(fits));
    let too_large = Envelope::call(1, vec![], vec![0; MAX_FRAME_LEN - HEADER_LEN + 1]);
    assert_eq!(record_len(&too_large), None);
    assert_eq!(encode(&too_large), Err(EncodeError::TooLarge));
}

#[test]
fn truncated_input_is_refused() {
    assert_eq!(decode(&vec![]), Err(MalformedFrame::Truncated));
    assert_eq!(decode(&vec![0, 0, 0]), Err(MalformedFrame::Truncated));
    assert_eq!(declared_len(&vec![0, 0]), Err(MalformedFrame::Truncated));
    let frame = encode(&Envelope::call(1, name("echo"), vec![42])).unwrap();
    for cut in 0..frame.len() {
        assert_eq!(decode(&frame[..cut].to_vec()), Err(MalformedFrame::Truncated));
    }
}

#[test]
fn an_oversized_length_is_refused() {
    assert_eq!(decode(&vec![1, 0, 0, 1]), Err(MalformedFrame::Oversized));
    assert_eq!(declared_len(&vec![1, 0, 0, 1]), Err(MalformedFrame::Oversized));
    assert_eq!(decode(&vec![255, 255, 255, 255, 0]), Err(MalformedFrame::Oversized));
    assert_eq!(declared_len(&vec![1, 0, 0, 0]), Ok(MAX_FRAME_LEN));
}

#[test]
fn a_record_that_breaks_the_schema_is_refused() {
    let good = encode(&Envelope::call(1, name("echo"), vec![42])).unwrap();
    // trailing bytes behind the frame
    let mut trailing = good.clone();
    trailing.push(0);
    assert_eq!(decode(&trailing), Err(MalformedFrame::Invalid));
    // unknown kind
    let mut kind = good.clone();
    kind[4] = 5;
    assert_eq!(decode(&kind), Err(MalformedFrame::Invalid));
    // unknown body tag
    let mut body = good.clone();
    body[13] = 3;
    assert_eq!(decode(&body), Err(MalformedFrame::Invalid));
    // a call that reports a failure
    let mut failing = good.clone();
    failing[13] = 2;
    assert_eq!(decode(&failing), Err(MalformedFrame::Invalid));
    // no payload announced, yet bytes follow
    let mut stray = good.clone();
    stray[13] = 0;
    assert_eq!(decode(&stray), Err(MalformedFrame::Invalid));
    // an endpoint longer than the record
    let mut long = good.clone();
    long[17] = 6;
    assert_eq!(decode(&long), Err(MalformedFrame::Invalid));
    // a response that names an endpoint
    let mut response = good.clone();
    response[4] = 2;
    assert_eq!(decode(&response), Err(MalformedFrame::Invalid));
    // a call that names a client
    let mut named = good.clone();
    named[17] = 2;
    named[21] = 2;
    assert_eq!(decode(&named), Err(MalformedFrame::Invalid));
    // a record shorter than its header
    assert_eq!(decode(&vec![0, 0, 0, 2, 0, 0]), Err(MalformedFrame::Invalid));
    assert_eq!(decode_record(&vec![0; 17]), Err(MalformedFrame::Invalid));
}
