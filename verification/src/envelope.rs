//! The wire-level message model.

use vstd::prelude::*;

verus! {

/// What an envelope asks of the peer.
#[derive(Clone, Copy, Debug, PartialEq, Eq, Structural)]
pub enum Kind {
    /// A request that expects exactly one response.
    Call,
    /// A one-way message; no response is expected.
    Message,
    /// An answer to an earlier call, subscription or handoff.
    Response,
    /// A request that expects any number of responses over time.
    Subscription,
    /// A request that hands a descriptor over to the peer.
    Fd,
}

/// The payload of an envelope. The bytes are opaque to this crate.
#[derive(Clone, Debug, PartialEq, Eq)]
pub enum Body {
    /// No payload.
    Empty,
    /// A payload; on a response, the success value.
    Payload(Vec<u8>),
    /// The failure that a peer reports in a response.
    Failure(Vec<u8>),
}

/// The mathematical value of a [`Body`].
pub enum BodyView {
    Empty,
    Payload(Seq<u8>),
    Failure(Seq<u8>),
}

impl View for Body {
    type V = BodyView;

    open spec fn view(&self) -> BodyView {
        match *self {
            Body::Empty => BodyView::Empty,
            Body::Payload(b) => BodyView::Payload(b@),
            Body::Failure(b) => BodyView::Failure(b@),
        }
    }
}

impl BodyView {
    /// The payload bytes, whichever way they are tagged.
    pub open spec fn bytes(self) -> Seq<u8> {
        match self {
            BodyView::Empty => Seq::<u8>::empty(),
            BodyView::Payload(b) => b,
            BodyView::Failure(b) => b,
        }
    }
}

/// The mathematical value of an [`Envelope`].
pub struct EnvelopeView {
    pub kind: Kind,
    pub id: u64,
    pub endpoint: Seq<u8>,
    pub body: BodyView,
    pub client_name: Seq<u8>,
}

impl EnvelopeView {
    /// The schema of an envelope: a response names no endpoint and carries
    /// either a success or a failure payload, only a response reports a
    /// failure, and only a handoff names a client.
    pub open spec fn well_formed(self) -> bool {
        &&& self.kind == Kind::Response ==> self.endpoint.len() == 0 && !(self.body is Empty)
        &&& self.body is Failure ==> self.kind == Kind::Response
        &&& self.kind != Kind::Fd ==> self.client_name.len() == 0
    }
}

/// One logical unit exchanged over the connection.
#[derive(Clone, Debug, PartialEq, Eq)]
pub struct Envelope {
    pub kind: Kind,
    pub id: u64,
    pub endpoint: Vec<u8>,
    pub body: Body,
    pub client_name: Vec<u8>,
}

impl View for Envelope {
    type V = EnvelopeView;

    open spec fn view(&self) -> EnvelopeView {
        EnvelopeView {
            kind: self.kind,
            id: self.id,
            endpoint: self.endpoint@,
            body: self.body@,
            client_name: self.client_name@,
        }
    }
}

impl Envelope {
    /// A call to `endpoint` with the given payload.
    pub fn call(id: u64, endpoint: Vec<u8>, payload: Vec<u8>) -> (e: Envelope)
        ensures
            e == (Envelope {
                kind: Kind::Call,
                id,
                endpoint,
                body: Body::Payload(payload),
                client_name: e.client_name,
            }),
            e.client_name@.len() == 0,
            e@.well_formed(),
    {
        Envelope {
            kind: Kind::Call,
            id,
            endpoint,
            body: Body::Payload(payload),
            client_name: Vec::new(),
        }
    }

    /// A one-way message to `endpoint` with the given payload.
    pub fn message(id: u64, endpoint: Vec<u8>, payload: Vec<u8>) -> (e: Envelope)
        ensures
            e == (Envelope {
                kind: Kind::Message,
                id,
                endpoint,
                body: Body::Payload(payload),
                client_name: e.client_name,
            }),
            e.client_name@.len() == 0,
            e@.well_formed(),
    {
        Envelope {
            kind: Kind::Message,
            id,
            endpoint,
            body: Body::Payload(payload),
            client_name: Vec::new(),
        }
    }

    /// A subscription to `endpoint` with the given payload.
    pub fn subscription(id: u64, endpoint: Vec<u8>, payload: Vec<u8>) -> (e: Envelope)
        ensures
            e == (Envelope {
                kind: Kind::Subscription,
                id,
                endpoint,
                body: Body::Payload(payload),
                client_name: e.client_name,
            }),
            e.client_name@.len() == 0,
            e@.well_formed(),
    {
        Envelope {
            kind: Kind::Subscription,
            id,
            endpoint,
            body: Body::Payload(payload),
            client_name: Vec::new(),
        }
    }

    /// The renewal of the subscription `id` to `endpoint`: a subscription
    /// envelope with no payload.
    pub fn resubscription(id: u64, endpoint: Vec<u8>) -> (e: Envelope)
        ensures
            e == (Envelope {
                kind: Kind::Subscription,
                id,
                endpoint,
                body: Body::Empty,
                client_name: e.client_name,
            }),
            e.client_name@.len() == 0,
            e@.well_formed(),
    {
        Envelope {
            kind: Kind::Subscription,
            id,
            endpoint,
            body: Body::Empty,
            client_name: Vec::new(),
        }
    }

    /// A response to the exchange `id`: `Ok` carries the success payload,
    /// `Err` the failure payload.
    pub fn response(id: u64, result: Result<Vec<u8>, Vec<u8>>) -> (e: Envelope)
        ensures
            e.kind == Kind::Response,
            e.id == id,
            e.endpoint@.len() == 0,
            e.client_name@.len() == 0,
            e.body == match result {
                Ok(b) => Body::Payload(b),
                Err(b) => Body::Failure(b),
            },
            e@.well_formed(),
    {
        let body = match result {
            Ok(b) => Body::Payload(b),
            Err(b) => Body::Failure(b),
        };
        Envelope {
            kind: Kind::Response,
            id,
            endpoint: Vec::new(),
            body,
            client_name: Vec::new(),
        }
    }

    /// A descriptor handoff to `endpoint` on behalf of `client_name`.
    pub fn fd(id: u64, endpoint: Vec<u8>, client_name: Vec<u8>) -> (e: Envelope)
        ensures
            e == (Envelope { kind: Kind::Fd, id, endpoint, body: Body::Empty, client_name }),
            e@.well_formed(),
    {
        Envelope { kind: Kind::Fd, id, endpoint, body: Body::Empty, client_name }
    }

    /// Whether the envelope keeps to the schema.
    pub fn is_well_formed(&self) -> (ok: bool)
        ensures
            ok == self@.well_formed(),
    {
        let response = matches!(self.kind, Kind::Response);
        let fd = matches!(self.kind, Kind::Fd);
        let failure = matches!(self.body, Body::Failure(_));
        let empty = matches!(self.body, Body::Empty);
        (!response || (self.endpoint.len() == 0 && !empty)) && (!failure || response) && (fd
            || self.client_name.len() == 0)
    }
}

} // verus!
