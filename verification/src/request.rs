//! The handle over one inbound request.

use vstd::prelude::*;
use crate::codec::{spec_encodable, spec_encode, spec_record_len, MAX_FRAME_LEN};
use crate::envelope::{Body, BodyView, Envelope, EnvelopeView, Kind};
use crate::writer::{SendError, Writer, WriterView};

verus! {

/// Why a request refused what was asked of it.
#[derive(Clone, Copy, Debug, PartialEq, Eq, Structural)]
pub enum RequestError {
    /// The body was taken before.
    AlreadyConsumed,
    /// The request is a one-way message: nobody waits for an answer.
    NotRespondable,
    /// The response was not sent.
    Send(SendError),
}

/// The mathematical value of a [`Request`].
pub struct RequestView {
    pub kind: Kind,
    pub id: u64,
    pub endpoint: Seq<u8>,
    pub client_name: Seq<u8>,
    /// The payload, until it is taken.
    pub body: Option<BodyView>,
}

/// One inbound call, message, subscription or descriptor handoff.
#[derive(Debug)]
pub struct Request {
    kind: Kind,
    id: u64,
    endpoint: Vec<u8>,
    client_name: Vec<u8>,
    body: Option<Body>,
}

impl View for Request {
    type V = RequestView;

    closed spec fn view(&self) -> RequestView {
        RequestView {
            kind: self.kind,
            id: self.id,
            endpoint: self.endpoint@,
            client_name: self.client_name@,
            body: match self.body {
                Some(b) => Some(b@),
                None => None,
            },
        }
    }
}

/// The request that the envelope `e` stands for, its body not yet taken.
pub open spec fn spec_request(e: EnvelopeView) -> RequestView {
    RequestView {
        kind: e.kind,
        id: e.id,
        endpoint: e.endpoint,
        client_name: e.client_name,
        body: Some(e.body),
    }
}

/// The response to the exchange `id` that carries `result`.
pub open spec fn spec_response(id: u64, result: Result<Vec<u8>, Vec<u8>>) -> EnvelopeView {
    EnvelopeView {
        kind: Kind::Response,
        id,
        endpoint: Seq::<u8>::empty(),
        body: match result {
            Ok(b) => BodyView::Payload(b@),
            Err(b) => BodyView::Failure(b@),
        },
        client_name: Seq::<u8>::empty(),
    }
}

impl Request {
    /// Wraps an inbound envelope. A response is no request: it gives
    /// `None`, and every other kind gives a request.
    pub fn new(envelope: Envelope) -> (r: Option<Request>)
        ensures
            match r {
                Some(q) => envelope.kind != Kind::Response && q@ == spec_request(envelope@),
                None => envelope.kind == Kind::Response,
            },
    {
        match envelope.kind {
            Kind::Response => None,
            _ => Some(
                Request {
                    kind: envelope.kind,
                    id: envelope.id,
                    endpoint: envelope.endpoint,
                    client_name: envelope.client_name,
                    body: Some(envelope.body),
                },
            ),
        }
    }

    /// What the request asks for.
    pub fn kind(&self) -> (k: Kind)
        ensures
            k == self@.kind,
    {
        self.kind
    }

    /// The correlation id that every response echoes.
    pub fn id(&self) -> (id: u64)
        ensures
            id == self@.id,
    {
        self.id
    }

    /// The name of the endpoint addressed.
    pub fn endpoint(&self) -> (name: &Vec<u8>)
        ensures
            name@ == self@.endpoint,
    {
        &self.endpoint
    }

    /// The name of the client on whose behalf a descriptor is handed over;
    /// empty on every other kind that keeps to the schema.
    pub fn client_name(&self) -> (name: &Vec<u8>)
        ensures
            name@ == self@.client_name,
    {
        &self.client_name
    }

    /// Hands out the payload. It can be taken once: from then on the call
    /// fails with `AlreadyConsumed`.
    pub fn take_body(&mut self) -> (res: Result<Body, RequestError>)
        ensures
            final(self)@ == (RequestView { body: None, ..old(self)@ }),
            match res {
                Ok(b) => old(self)@.body == Some(b@),
                Err(RequestError::AlreadyConsumed) => old(self)@.body is None,
                Err(_) => false,
            },
    {
        match self.body.take() {
            Some(b) => Ok(b),
            None => Err(RequestError::AlreadyConsumed),
        }
    }

    /// Answers the request: queues one response envelope with the
    /// request's id on `writer`. A one-way message cannot be answered; the
    /// call then fails with `NotRespondable` and queues nothing. It may be
    /// called any number of times, and queues one response each time it
    /// succeeds.
    pub fn respond(&self, result: Result<Vec<u8>, Vec<u8>>, writer: &mut Writer) -> (res: Result<
        (),
        RequestError,
    >)
        ensures
            match res {
                Ok(()) => {
                    &&& self@.kind != Kind::Message
                    &&& old(writer)@.open
                    &&& spec_encodable(spec_response(self@.id, result))
                    &&& final(writer)@ == (WriterView {
                        open: true,
                        pending: old(writer)@.pending + spec_encode(
                            spec_response(self@.id, result),
                        ),
                    })
                },
                Err(RequestError::NotRespondable) => {
                    &&& self@.kind == Kind::Message
                    &&& final(writer)@ == old(writer)@
                },
                Err(RequestError::Send(SendError::TransportClosed)) => {
                    &&& self@.kind != Kind::Message
                    &&& !old(writer)@.open
                    &&& final(writer)@ == old(writer)@
                },
                Err(RequestError::Send(SendError::TooLarge)) => {
                    &&& self@.kind != Kind::Message
                    &&& old(writer)@.open
                    &&& spec_record_len(spec_response(self@.id, result)) > MAX_FRAME_LEN
                    &&& final(writer)@ == old(writer)@
                },
                Err(_) => false,
            },
    {
        if matches!(self.kind, Kind::Message) {
            return Err(RequestError::NotRespondable);
        }
        let envelope = Envelope::response(self.id, result);
        proof {
            assert(envelope@.endpoint =~= Seq::<u8>::empty());
            assert(envelope@.client_name =~= Seq::<u8>::empty());
            assert(envelope@ == spec_response(self@.id, result));
        }
        match writer.send(&envelope) {
            Ok(()) => Ok(()),
            Err(e) => Err(RequestError::Send(e)),
        }
    }
}

} // verus!
