//! The frame codec: one envelope to and from one length-prefixed frame.
//!
//! A frame is a four-byte big-endian length followed by that many bytes of
//! record. A record is a fixed header (the kind, the correlation id, the
//! body's tag, and the lengths of the endpoint and of the client name)
//! followed by the endpoint, the client name and the payload bytes.

use vstd::prelude::*;
use crate::bytes::{
    copy_range, lemma_be32_canonical, lemma_be32_round_trip, lemma_be64_canonical,
    lemma_be64_round_trip, push_all, push_be32, push_be64, read_be32, read_be64, spec_be32,
    spec_be64, spec_from_be32, spec_from_be64,
};
use crate::envelope::{Body, BodyView, Envelope, EnvelopeView, Kind};

verus! {

/// The longest record that a frame may carry, in bytes.
pub const MAX_FRAME_LEN: usize = 0x100_0000;

/// The length of the length prefix, in bytes.
pub const PREFIX_LEN: usize = 4;

/// The length of a record's fixed header, in bytes.
pub const HEADER_LEN: usize = 18;

/// Why a frame was refused. Each of these is fatal to the stream.
#[derive(Clone, Copy, Debug, PartialEq, Eq, Structural)]
pub enum MalformedFrame {
    /// The input ends before the frame does.
    Truncated,
    /// The length prefix exceeds [`MAX_FRAME_LEN`].
    Oversized,
    /// The record does not keep to the schema.
    Invalid,
}

/// Why an envelope was not encoded.
#[derive(Clone, Copy, Debug, PartialEq, Eq, Structural)]
pub enum EncodeError {
    /// The envelope does not keep to the schema.
    NotWellFormed,
    /// The record would exceed [`MAX_FRAME_LEN`].
    TooLarge,
}

pub open spec fn spec_kind_tag(k: Kind) -> u8 {
    match k {
        Kind::Call => 0,
        Kind::Message => 1,
        Kind::Response => 2,
        Kind::Subscription => 3,
        Kind::Fd => 4,
    }
}

pub open spec fn spec_kind_of(tag: u8) -> Kind {
    if tag == 0 {
        Kind::Call
    } else if tag == 1 {
        Kind::Message
    } else if tag == 2 {
        Kind::Response
    } else if tag == 3 {
        Kind::Subscription
    } else {
        Kind::Fd
    }
}

pub open spec fn spec_body_tag(b: BodyView) -> u8 {
    match b {
        BodyView::Empty => 0,
        BodyView::Payload(_) => 1,
        BodyView::Failure(_) => 2,
    }
}

pub open spec fn spec_body_of(tag: u8, bytes: Seq<u8>) -> BodyView {
    if tag == 0 {
        BodyView::Empty
    } else if tag == 1 {
        BodyView::Payload(bytes)
    } else {
        BodyView::Failure(bytes)
    }
}

/// The length of the record of `e`.
pub open spec fn spec_record_len(e: EnvelopeView) -> nat {
    HEADER_LEN as nat + e.endpoint.len() + e.client_name.len() + e.body.bytes().len()
}

/// The fixed header of the record of `e`.
pub open spec fn spec_header(e: EnvelopeView) -> Seq<u8> {
    seq![spec_kind_tag(e.kind)] + spec_be64(e.id) + seq![spec_body_tag(e.body)] + spec_be32(
        e.endpoint.len() as u32,
    ) + spec_be32(e.client_name.len() as u32)
}

/// The record of `e`.
pub open spec fn spec_record(e: EnvelopeView) -> Seq<u8> {
    spec_header(e) + e.endpoint + e.client_name + e.body.bytes()
}

/// Whether `e` has a frame: it keeps to the schema and its record fits.
pub open spec fn spec_encodable(e: EnvelopeView) -> bool {
    e.well_formed() && spec_record_len(e) <= MAX_FRAME_LEN
}

/// The frame of `e`.
pub open spec fn spec_encode(e: EnvelopeView) -> Seq<u8> {
    spec_be32(spec_record_len(e) as u32) + spec_record(e)
}

/// What a record decodes to.
pub open spec fn spec_decode_record(r: Seq<u8>) -> Result<EnvelopeView, MalformedFrame> {
    if r.len() < HEADER_LEN {
        Err(MalformedFrame::Invalid)
    } else {
        let el = spec_from_be32(r.subrange(10, 14));
        let cl = spec_from_be32(r.subrange(14, 18));
        if r[0] > 4 || r[9] > 2 || HEADER_LEN + el + cl > r.len() {
            Err(MalformedFrame::Invalid)
        } else {
            let rest = r.subrange(HEADER_LEN + el + cl, r.len() as int);
            let e = EnvelopeView {
                kind: spec_kind_of(r[0]),
                id: spec_from_be64(r.subrange(1, 9)) as u64,
                endpoint: r.subrange(HEADER_LEN as int, HEADER_LEN + el),
                body: spec_body_of(r[9], rest),
                client_name: r.subrange(HEADER_LEN + el, HEADER_LEN + el + cl),
            };
            if (r[9] == 0 && rest.len() > 0) || !e.well_formed() {
                Err(MalformedFrame::Invalid)
            } else {
                Ok(e)
            }
        }
    }
}

/// What the length prefix of a frame declares, or why it is refused.
pub open spec fn spec_declared_len(b: Seq<u8>) -> Result<int, MalformedFrame> {
    if b.len() < PREFIX_LEN {
        Err(MalformedFrame::Truncated)
    } else if spec_from_be32(b.subrange(0, 4)) > MAX_FRAME_LEN {
        Err(MalformedFrame::Oversized)
    } else {
        Ok(spec_from_be32(b.subrange(0, 4)))
    }
}

/// What a frame decodes to.
pub open spec fn spec_decode(b: Seq<u8>) -> Result<EnvelopeView, MalformedFrame> {
    match spec_declared_len(b) {
        Err(e) => Err(e),
        Ok(n) => if b.len() < PREFIX_LEN + n {
            Err(MalformedFrame::Truncated)
        } else if b.len() > PREFIX_LEN + n {
            Err(MalformedFrame::Invalid)
        } else {
            spec_decode_record(b.subrange(PREFIX_LEN as int, b.len() as int))
        },
    }
}

/// Decoding the record of an envelope that keeps to the schema gives the
/// envelope back.
pub proof fn lemma_record_round_trip(e: EnvelopeView)
    requires
        spec_encodable(e),
    ensures
        spec_record(e).len() == spec_record_len(e),
        spec_decode_record(spec_record(e)) == Ok::<EnvelopeView, MalformedFrame>(e),
{
    let r = spec_record(e);
    let el = e.endpoint.len() as u32;
    let cl = e.client_name.len() as u32;
    lemma_be64_round_trip(e.id);
    lemma_be32_round_trip(el);
    lemma_be32_round_trip(cl);
    assert(spec_header(e).len() == HEADER_LEN);
    assert(r.subrange(1, 9) =~= spec_be64(e.id));
    assert(r.subrange(10, 14) =~= spec_be32(el));
    assert(r.subrange(14, 18) =~= spec_be32(cl));
    assert(r[0] == spec_kind_tag(e.kind));
    assert(r[9] == spec_body_tag(e.body));
    assert(r.subrange(HEADER_LEN as int, HEADER_LEN + el) =~= e.endpoint);
    assert(r.subrange(HEADER_LEN + el, HEADER_LEN + el + cl) =~= e.client_name);
    assert(r.subrange(HEADER_LEN + el + cl, r.len() as int) =~= e.body.bytes());
    assert(spec_kind_of(r[0]) == e.kind);
    assert(spec_body_of(r[9], e.body.bytes()) == e.body);
}

/// Round trip: decoding the frame of an envelope that keeps to the schema
/// and fits a frame gives the envelope back.
pub proof fn lemma_round_trip(e: EnvelopeView)
    requires
        spec_encodable(e),
    ensures
        spec_decode(spec_encode(e)) == Ok::<EnvelopeView, MalformedFrame>(e),
{
    let n = spec_record_len(e) as u32;
    let f = spec_encode(e);
    lemma_be32_round_trip(n);
    lemma_record_round_trip(e);
    assert(f.subrange(0, 4) =~= spec_be32(n));
    assert(f.subrange(PREFIX_LEN as int, f.len() as int) =~= spec_record(e));
}

/// A record that decodes is the record of the envelope it decodes to.
pub proof fn lemma_record_canonical(r: Seq<u8>)
    requires
        spec_decode_record(r) is Ok,
    ensures
        spec_decode_record(r)->Ok_0.well_formed(),
        spec_record_len(spec_decode_record(r)->Ok_0) == r.len(),
        spec_record(spec_decode_record(r)->Ok_0) == r,
{
    let e = spec_decode_record(r)->Ok_0;
    lemma_be64_canonical(r.subrange(1, 9));
    lemma_be32_canonical(r.subrange(10, 14));
    lemma_be32_canonical(r.subrange(14, 18));
    let el = spec_from_be32(r.subrange(10, 14));
    let cl = spec_from_be32(r.subrange(14, 18));
    assert(e.endpoint.len() == el);
    assert(e.client_name.len() == cl);
    assert(seq![spec_kind_tag(e.kind)] =~= r.subrange(0, 1));
    assert(seq![spec_body_tag(e.body)] =~= r.subrange(9, 10));
    assert(spec_header(e) =~= r.subrange(0, HEADER_LEN as int));
    assert(e.body.bytes() =~= r.subrange(HEADER_LEN + el + cl, r.len() as int));
    assert(spec_record(e) =~= r);
}

/// Only frames decode: bytes that decode to an envelope are that envelope's
/// frame, and the envelope keeps to the schema and fits a frame.
pub proof fn lemma_decode_canonical(b: Seq<u8>)
    requires
        spec_decode(b) is Ok,
    ensures
        spec_encodable(spec_decode(b)->Ok_0),
        spec_encode(spec_decode(b)->Ok_0) == b,
{
    let r = b.subrange(PREFIX_LEN as int, b.len() as int);
    lemma_record_canonical(r);
    lemma_be32_canonical(b.subrange(0, 4));
    assert(b.subrange(0, 4) + r =~= b);
}

/// A frame delimits itself: whatever follows it on the stream, the length
/// prefix read from the front gives the length of its record, and that
/// many bytes behind the prefix are the frame and nothing else.
pub proof fn lemma_frame_delimits_itself(e: EnvelopeView, rest: Seq<u8>)
    requires
        spec_encodable(e),
    ensures
        spec_declared_len(spec_encode(e) + rest) == Ok::<int, MalformedFrame>(
            spec_record_len(e) as int,
        ),
        (spec_encode(e) + rest).subrange(0, PREFIX_LEN + spec_record_len(e)) == spec_encode(e),
{
    let n = spec_record_len(e) as u32;
    let stream = spec_encode(e) + rest;
    lemma_be32_round_trip(n);
    lemma_record_round_trip(e);
    assert(stream.subrange(0, 4) =~= spec_be32(n));
    assert(stream.subrange(0, PREFIX_LEN + spec_record_len(e)) =~= spec_encode(e));
}

/// Decoding succeeds exactly on frames: bytes decode if and only if they
/// are the frame of some envelope that keeps to the schema and fits.
pub proof fn lemma_decode_succeeds_exactly_on_frames(b: Seq<u8>)
    ensures
        spec_decode(b) is Ok <==> exists|e: EnvelopeView|
            spec_encodable(e) && #[trigger] spec_encode(e) == b,
{
    if spec_decode(b) is Ok {
        lemma_decode_canonical(b);
        let e = spec_decode(b)->Ok_0;
        assert(spec_encodable(e) && spec_encode(e) == b);
    }
    if exists|e: EnvelopeView| spec_encodable(e) && #[trigger] spec_encode(e) == b {
        let e = choose|e: EnvelopeView| spec_encodable(e) && #[trigger] spec_encode(e) == b;
        lemma_round_trip(e);
    }
}

/// The length of the record that `e` encodes to, where it fits a frame.
pub fn record_len(e: &Envelope) -> (n: Option<usize>)
    ensures
        match n {
            Some(n) => n == spec_record_len(e@) && n <= MAX_FRAME_LEN,
            None => spec_record_len(e@) > MAX_FRAME_LEN,
        },
{
    let bl: usize = match &e.body {
        Body::Empty => 0,
        Body::Payload(b) => b.len(),
        Body::Failure(b) => b.len(),
    };
    let el: usize = e.endpoint.len();
    let cl: usize = e.client_name.len();
    if el > MAX_FRAME_LEN || cl > MAX_FRAME_LEN || bl > MAX_FRAME_LEN {
        None
    } else if HEADER_LEN + el + cl + bl > MAX_FRAME_LEN {
        None
    } else {
        Some(HEADER_LEN + el + cl + bl)
    }
}

/// Encodes `e` as one frame. Fails on an envelope that breaks the schema or
/// whose record is longer than [`MAX_FRAME_LEN`], and on no other. The
/// frame decodes to `e` again.
pub fn encode(e: &Envelope) -> (res: Result<Vec<u8>, EncodeError>)
    ensures
        match res {
            Ok(frame) => {
                &&& spec_encodable(e@)
                &&& frame@ == spec_encode(e@)
                &&& spec_decode(frame@) == Ok::<EnvelopeView, MalformedFrame>(e@)
            },
            Err(EncodeError::NotWellFormed) => !e@.well_formed(),
            Err(EncodeError::TooLarge) => e@.well_formed() && spec_record_len(e@)
                > MAX_FRAME_LEN,
        },
{
    if !e.is_well_formed() {
        return Err(EncodeError::NotWellFormed);
    }
    match record_len(e) {
        Some(n) => {
            let frame = write_frame(e, n);
            proof {
                lemma_round_trip(e@);
            }
            Ok(frame)
        },
        None => Err(EncodeError::TooLarge),
    }
}

/// Writes out the frame of `e`, whose record has the length `n`.
fn write_frame(e: &Envelope, n: usize) -> (out: Vec<u8>)
    requires
        n == spec_record_len(e@),
        n <= MAX_FRAME_LEN,
    ensures
        out@ == spec_encode(e@),
{
    let mut out: Vec<u8> = Vec::new();
    push_be32(&mut out, n as u32);
    push_header(&mut out, e);
    push_all(&mut out, &e.endpoint);
    push_all(&mut out, &e.client_name);
    match &e.body {
        Body::Empty => {},
        Body::Payload(b) => {
            push_all(&mut out, b);
        },
        Body::Failure(b) => {
            push_all(&mut out, b);
        },
    }
    assert(out@ =~= spec_be32(n as u32) + (spec_header(e@) + e@.endpoint + e@.client_name
        + e@.body.bytes()));
    out
}

/// Appends the fixed header of the record of `e` to `out`.
fn push_header(out: &mut Vec<u8>, e: &Envelope)
    requires
        e.endpoint@.len() <= MAX_FRAME_LEN,
        e.client_name@.len() <= MAX_FRAME_LEN,
    ensures
        final(out)@ == old(out)@ + spec_header(e@),
{
    let ghost start = out@;
    let mut head: Vec<u8> = Vec::new();
    head.push(kind_tag(e.kind));
    push_be64(&mut head, e.id);
    head.push(body_tag(&e.body));
    assert(head@ =~= seq![spec_kind_tag(e@.kind)] + spec_be64(e.id) + seq![
        spec_body_tag(e@.body),
    ]);
    push_be32(&mut head, e.endpoint.len() as u32);
    push_be32(&mut head, e.client_name.len() as u32);
    assert(head@ =~= spec_header(e@));
    push_all(out, &head);
}

fn kind_tag(k: Kind) -> (t: u8)
    ensures
        t == spec_kind_tag(k),
{
    match k {
        Kind::Call => 0,
        Kind::Message => 1,
        Kind::Response => 2,
        Kind::Subscription => 3,
        Kind::Fd => 4,
    }
}

fn body_tag(b: &Body) -> (t: u8)
    ensures
        t == spec_body_tag(b@),
{
    match b {
        Body::Empty => 0,
        Body::Payload(_) => 1,
        Body::Failure(_) => 2,
    }
}

fn kind_of(tag: u8) -> (k: Kind)
    ensures
        k == spec_kind_of(tag),
{
    if tag == 0 {
        Kind::Call
    } else if tag == 1 {
        Kind::Message
    } else if tag == 2 {
        Kind::Response
    } else if tag == 3 {
        Kind::Subscription
    } else {
        Kind::Fd
    }
}

/// Whether `res` is the exec form of the spec result `expected`.
pub open spec fn spec_decoded_as(
    res: Result<Envelope, MalformedFrame>,
    expected: Result<EnvelopeView, MalformedFrame>,
) -> bool {
    match res {
        Ok(e) => expected == Ok::<EnvelopeView, MalformedFrame>(e@),
        Err(x) => expected == Err::<EnvelopeView, MalformedFrame>(x),
    }
}

/// Reads the length prefix at the start of `bytes`: the length of the record
/// that follows. Fails with `Truncated` on fewer than four bytes and with
/// `Oversized` on a length above [`MAX_FRAME_LEN`].
pub fn declared_len(bytes: &Vec<u8>) -> (res: Result<usize, MalformedFrame>)
    ensures
        match res {
            Ok(n) => spec_declared_len(bytes@) == Ok::<int, MalformedFrame>(n as int),
            Err(x) => spec_declared_len(bytes@) == Err::<int, MalformedFrame>(x),
        },
{
    if bytes.len() < PREFIX_LEN {
        return Err(MalformedFrame::Truncated);
    }
    let n: u32 = read_be32(bytes, 0);
    if n as usize > MAX_FRAME_LEN {
        Err(MalformedFrame::Oversized)
    } else {
        Ok(n as usize)
    }
}

/// Decodes one record, the part of a frame behind the length prefix.
pub fn decode_record(r: &Vec<u8>) -> (res: Result<Envelope, MalformedFrame>)
    ensures
        spec_decoded_as(res, spec_decode_record(r@)),
{
    if r.len() < HEADER_LEN {
        return Err(MalformedFrame::Invalid);
    }
    let el: usize = read_be32(r, 10) as usize;
    let cl: usize = read_be32(r, 14) as usize;
    let kind_byte: u8 = r[0];
    let body_byte: u8 = r[9];
    if kind_byte > 4 || body_byte > 2 {
        return Err(MalformedFrame::Invalid);
    }
    let len: usize = r.len();
    if el > len - HEADER_LEN || cl > len - HEADER_LEN - el {
        return Err(MalformedFrame::Invalid);
    }
    let start: usize = HEADER_LEN + el + cl;
    if body_byte == 0 && start < len {
        return Err(MalformedFrame::Invalid);
    }
    let id: u64 = read_be64(r, 1);
    let endpoint = copy_range(r, HEADER_LEN, HEADER_LEN + el);
    let client_name = copy_range(r, HEADER_LEN + el, start);
    let body = if body_byte == 0 {
        Body::Empty
    } else if body_byte == 1 {
        Body::Payload(copy_range(r, start, len))
    } else {
        Body::Failure(copy_range(r, start, len))
    };
    let e = Envelope { kind: kind_of(kind_byte), id, endpoint, body, client_name };
    proof {
        lemma_be64_canonical(r@.subrange(1, 9));
    }
    if e.is_well_formed() {
        Ok(e)
    } else {
        Err(MalformedFrame::Invalid)
    }
}

/// Decodes one frame. Succeeds exactly on the frames that [`encode`]
/// produces; fails with `Truncated` where the input ends before the frame
/// does, with `Oversized` where the length prefix exceeds
/// [`MAX_FRAME_LEN`], and with `Invalid` on anything else.
pub fn decode(bytes: &Vec<u8>) -> (res: Result<Envelope, MalformedFrame>)
    ensures
        spec_decoded_as(res, spec_decode(bytes@)),
        res is Ok ==> spec_encodable(res->Ok_0@) && spec_encode(res->Ok_0@) == bytes@,
{
    let n: usize = match declared_len(bytes) {
        Ok(n) => n,
        Err(x) => {
            return Err(x);
        },
    };
    if bytes.len() - PREFIX_LEN < n {
        return Err(MalformedFrame::Truncated);
    }
    if bytes.len() - PREFIX_LEN > n {
        return Err(MalformedFrame::Invalid);
    }
    let record = copy_range(bytes, PREFIX_LEN, bytes.len());
    let res = decode_record(&record);
    proof {
        if res is Ok {
            lemma_decode_canonical(bytes@);
        }
    }
    res
}

} // verus!
