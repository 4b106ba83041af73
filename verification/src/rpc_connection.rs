//! The connection multiplexer: one writer, one registry, and the rule that
//! turns each inbound frame into either the resolution of a waiter or a
//! request for the embedding code.
//!
//! The connection does no I/O of its own. The embedding code reads frames
//! from the transport and feeds them to [`RpcConnection::read`], drains the
//! write queue into the transport, and reports the loss of the transport
//! and the arrival of a fresh one.

use vstd::prelude::*;
use crate::bytes::copy_range;
use crate::codec::{
    decode, record_len, spec_decode, spec_encodable, spec_encode, spec_record_len, MAX_FRAME_LEN,
};
use crate::envelope::{Body, BodyView, Envelope, EnvelopeView, Kind};
use crate::registry::{
    lemma_lost_calls_complete, lemma_resubscribe_frames_skip_calls, lemma_subscriptions_complete,
    lemma_subscriptions_sound, spec_after_resolve, spec_has, spec_lost_call, spec_lost_calls,
    spec_after_resubscribe, spec_awaiting, spec_marked_from, spec_renewed,
    spec_resubscribe_frames, spec_slot, spec_subscriptions, spec_valid, spec_without, CallError,
    CallsRegistry, Delivery, Entry, EntryKind,
};
use crate::request::{spec_request, spec_response, Request, RequestError};
use crate::writer::{SendError, Writer, WriterView};

verus! {

/// The mathematical value of an [`RpcConnection`].
pub struct RpcConnectionView {
    /// The write path.
    pub writer: WriterView,
    /// The outstanding exchanges, in the order of their registration.
    pub registry: Seq<Entry>,
    /// The correlation id that the next exchange gets.
    pub next_id: u64,
}

/// What one inbound frame led to.
#[derive(Debug)]
pub enum ReadStep {
    /// The frame is a request of the peer, for the embedding code to
    /// handle.
    Request(Request),
    /// The frame is a response; this is where its result goes. Reading
    /// goes on.
    Resolved(Delivery),
    /// The stream is unusable: it was down before, or the frame is
    /// malformed. Every call that was outstanding is failed with the
    /// deliveries attached.
    Disconnected(Vec<Delivery>),
}

/// One end of a multiplexed connection.
#[derive(Debug)]
pub struct RpcConnection {
    writer: Writer,
    registry: CallsRegistry,
    next_id: u64,
}

impl View for RpcConnection {
    type V = RpcConnectionView;

    closed spec fn view(&self) -> RpcConnectionView {
        RpcConnectionView {
            writer: self.writer@,
            registry: self.registry@,
            next_id: self.next_id,
        }
    }
}

/// The envelope that opens the exchange `id` of the given kind.
pub open spec fn spec_opening(kind: EntryKind, id: u64, endpoint: Seq<u8>, payload: Seq<u8>)
    -> EnvelopeView {
    EnvelopeView {
        kind: match kind {
            EntryKind::Call => Kind::Call,
            EntryKind::Subscription => Kind::Subscription,
        },
        id,
        endpoint,
        body: BodyView::Payload(payload),
        client_name: Seq::<u8>::empty(),
    }
}

/// The one-way message to `endpoint` with the given payload.
pub open spec fn spec_message(endpoint: Seq<u8>, payload: Seq<u8>) -> EnvelopeView {
    EnvelopeView {
        kind: Kind::Message,
        id: 0,
        endpoint,
        body: BodyView::Payload(payload),
        client_name: Seq::<u8>::empty(),
    }
}

/// Whether `after` is `before` with one entry more, behind the others, for
/// the exchange `id` of the given kind on `endpoint`.
pub open spec fn spec_registered(
    before: Seq<Entry>,
    after: Seq<Entry>,
    kind: EntryKind,
    id: u64,
    endpoint: Seq<u8>,
) -> bool {
    &&& after.len() == before.len() + 1
    &&& after.drop_last() == before
    &&& after.last().id == id
    &&& after.last().kind == kind
    &&& after.last().endpoint@ == endpoint
    &&& !after.last().pending_resubscribe
}

/// Whether `result` is what a response with the payload `body` reports:
/// success with the success payload, or the peer's rejection with the
/// failure payload.
pub open spec fn spec_reports(result: Result<Vec<u8>, CallError>, body: BodyView) -> bool {
    match body {
        BodyView::Payload(b) => result matches Ok(v) && v@ == b,
        BodyView::Failure(b) => result matches Err(CallError::PeerRejected(v)) && v@ == b,
        BodyView::Empty => false,
    }
}

/// Whether `d` is where a response to `id` with the payload `body` goes,
/// given the entries `s`: to the call or the subscription registered under
/// `id`, and nowhere when there is none.
pub open spec fn spec_routed(d: Delivery, s: Seq<Entry>, id: u64, body: BodyView) -> bool {
    if !spec_has(s, id) {
        d == Delivery::Dropped
    } else if s[spec_slot(s, id)].kind == EntryKind::Call {
        d matches Delivery::ToCall { id: i, result: r } && i == id && spec_reports(r, body)
    } else {
        d matches Delivery::ToSubscription { id: i, result: r } && i == id && spec_reports(
            r,
            body,
        )
    }
}

/// The state that the loss of the transport leaves: the writer down and
/// empty, the calls gone, the subscriptions in place and marked as
/// awaiting their renewal.
pub open spec fn spec_after_loss(c: RpcConnectionView) -> RpcConnectionView {
    RpcConnectionView {
        writer: WriterView { open: false, pending: Seq::<u8>::empty() },
        registry: spec_subscriptions(c.registry),
        next_id: c.next_id,
    }
}

/// The state that a fresh transport leaves: the writer up, with one
/// subscription frame queued for every subscription; the calls gone; the
/// subscriptions in place, none of them marked.
pub open spec fn spec_after_replace(c: RpcConnectionView) -> RpcConnectionView {
    RpcConnectionView {
        writer: WriterView {
            open: true,
            pending: spec_resubscribe_frames(spec_subscriptions(c.registry)),
        },
        registry: spec_after_resubscribe(spec_subscriptions(c.registry)),
        next_id: c.next_id,
    }
}

/// Whether `step` and the state `after` are what the frame `frame` leads
/// to from the state `before`.
pub open spec fn spec_read(
    before: RpcConnectionView,
    frame: Seq<u8>,
    after: RpcConnectionView,
    step: ReadStep,
) -> bool {
    if !before.writer.open {
        &&& after == before
        &&& step matches ReadStep::Disconnected(lost) && lost@.len() == 0
    } else {
        match spec_decode(frame) {
            Err(_) => {
                &&& after == spec_after_loss(before)
                &&& step matches ReadStep::Disconnected(lost) && lost@ == spec_lost_calls(
                    before.registry,
                )
            },
            Ok(e) => if e.kind == Kind::Response {
                &&& after == (RpcConnectionView {
                    registry: spec_after_resolve(before.registry, e.id),
                    ..before
                })
                &&& step matches ReadStep::Resolved(d) && spec_routed(
                    d,
                    before.registry,
                    e.id,
                    e.body,
                )
            } else {
                &&& after == before
                &&& step matches ReadStep::Request(q) && q@ == spec_request(e)
            },
        }
    }
}

/// A response that matches no entry is dropped without a trace: reading
/// it leaves the connection as it was and goes on, with nothing delivered
/// and no disconnect.
pub proof fn lemma_unknown_response_is_dropped(
    before: RpcConnectionView,
    frame: Seq<u8>,
    after: RpcConnectionView,
    step: ReadStep,
)
    requires
        before.writer.open,
        spec_decode(frame) is Ok,
        spec_decode(frame)->Ok_0.kind == Kind::Response,
        !spec_has(before.registry, spec_decode(frame)->Ok_0.id),
        spec_read(before, frame, after, step),
    ensures
        after == before,
        step == ReadStep::Resolved(Delivery::Dropped),
{
}

/// A fresh transport keeps every subscription and fails every call: each
/// subscription entry is still registered afterwards and has its frame
/// among those queued, which are the frames that renew the subscriptions
/// of the table; each call entry has its news of the lost connection among
/// those handed out.
pub proof fn lemma_replace_stream_continuity(c: RpcConnectionView, i: int)
    requires
        0 <= i < c.registry.len(),
    ensures
        spec_after_replace(c).writer.open,
        spec_after_replace(c).writer.pending == spec_resubscribe_frames(c.registry),
        c.registry[i].kind == EntryKind::Subscription ==> spec_after_replace(c).registry.contains(
            spec_renewed(c.registry[i]),
        ),
        c.registry[i].kind == EntryKind::Call ==> spec_lost_calls(c.registry).contains(
            spec_lost_call(c.registry[i].id),
        ),
{
    lemma_subscriptions_complete(c.registry);
    lemma_lost_calls_complete(c.registry);
    lemma_resubscribe_frames_skip_calls(c.registry);
    if c.registry[i].kind == EntryKind::Subscription {
        let kept = spec_subscriptions(c.registry);
        let marked = spec_awaiting(c.registry[i]);
        assert(kept.contains(marked));
        let k = choose|k: int| 0 <= k < kept.len() && kept[k] == marked;
        assert(spec_after_replace(c).registry[k] == spec_renewed(c.registry[i]));
    }
}

/// The subscriptions of a table carry no id that the table does not.
proof fn lemma_subscriptions_below(s: Seq<Entry>, bound: u64)
    requires
        forall|i: int| 0 <= i < s.len() ==> (#[trigger] s[i]).id < bound,
    ensures
        forall|k: int|
            0 <= k < spec_subscriptions(s).len() ==> (#[trigger] spec_subscriptions(s)[k]).id
                < bound,
{
    lemma_subscriptions_sound(s);
    let t = spec_subscriptions(s);
    assert forall|k: int| 0 <= k < t.len() implies (#[trigger] t[k]).id < bound by {
        assert(spec_marked_from(s, t[k]));
        let i = choose|i: int| 0 <= i < s.len() && #[trigger] spec_awaiting(s[i]) == t[k];
        assert(s[i].id < bound);
    }
}

/// A table with one entry taken out carries no id that the table does not.
proof fn lemma_remove_below(s: Seq<Entry>, at: int, bound: u64)
    requires
        0 <= at < s.len(),
        forall|i: int| 0 <= i < s.len() ==> (#[trigger] s[i]).id < bound,
    ensures
        forall|k: int| 0 <= k < s.remove(at).len() ==> (#[trigger] s.remove(at)[k]).id < bound,
{
    let t = s.remove(at);
    assert forall|k: int| 0 <= k < t.len() implies (#[trigger] t[k]).id < bound by {
        let i = if k < at { k } else { k + 1 };
        assert(t[k] == s[i]);
    }
}

/// What a response with the payload `body` reports to its waiter.
fn report(body: Body) -> (result: Result<Vec<u8>, CallError>)
    requires
        !(body is Empty),
    ensures
        spec_reports(result, body@),
{
    match body {
        Body::Payload(b) => Ok(b),
        Body::Failure(b) => Err(CallError::PeerRejected(b)),
        Body::Empty => Err(CallError::ConnectionLost),
    }
}

impl RpcConnection {
    /// The invariant: no two live entries share an id, every endpoint name
    /// fits a frame, and every live id was given out before.
    pub open spec fn well_formed(&self) -> bool {
        &&& spec_valid(self@.registry)
        &&& forall|i: int|
            0 <= i < self@.registry.len() ==> (#[trigger] self@.registry[i]).id < self@.next_id
    }

    /// A connection over a fresh stream: the writer up, nothing queued,
    /// nothing outstanding.
    pub fn new() -> (c: RpcConnection)
        ensures
            c.well_formed(),
            c@ == (RpcConnectionView {
                writer: WriterView { open: true, pending: Seq::<u8>::empty() },
                registry: Seq::<Entry>::empty(),
                next_id: 0,
            }),
    {
        RpcConnection { writer: Writer::new(), registry: CallsRegistry::new(), next_id: 0 }
    }

    /// A connection over a fresh stream that gives out `first_id` as its
    /// first correlation id, and counts up from there.
    pub fn with_first_id(first_id: u64) -> (c: RpcConnection)
        ensures
            c.well_formed(),
            c@ == (RpcConnectionView {
                writer: WriterView { open: true, pending: Seq::<u8>::empty() },
                registry: Seq::<Entry>::empty(),
                next_id: first_id,
            }),
    {
        RpcConnection { writer: Writer::new(), registry: CallsRegistry::new(), next_id: first_id }
    }

    /// Whether the stream is up.
    pub fn is_open(&self) -> (open: bool)
        ensures
            open == self@.writer.open,
    {
        self.writer.is_open()
    }

    /// The number of outstanding exchanges.
    pub fn outstanding(&self) -> (n: usize)
        ensures
            n == self@.registry.len(),
    {
        self.registry.len()
    }

    /// What kind of waiter, if any, stands behind `id`.
    pub fn waiter(&self, id: u64) -> (res: Option<EntryKind>)
        requires
            self.well_formed(),
        ensures
            match res {
                Some(k) => spec_has(self@.registry, id) && self@.registry[spec_slot(
                    self@.registry,
                    id,
                )].kind == k,
                None => !spec_has(self@.registry, id),
            },
    {
        self.registry.kind_of(id)
    }

    /// Whether `id` is a subscription that awaits its renewal on a fresh
    /// stream.
    pub fn awaits_resubscription(&self, id: u64) -> (awaits: bool)
        requires
            self.well_formed(),
        ensures
            awaits == (spec_has(self@.registry, id) && self@.registry[spec_slot(
                self@.registry,
                id,
            )].pending_resubscribe),
    {
        self.registry.awaits_resubscription(id)
    }

    /// The write path, for answering requests and for draining the queue.
    pub fn sender(&mut self) -> (w: &mut Writer)
        ensures
            w@ == old(self)@.writer,
            final(self)@ == (RpcConnectionView { writer: final(w)@, ..old(self)@ }),
    {
        &mut self.writer
    }

    /// Hands out the bytes queued for the transport and leaves the queue
    /// empty.
    pub fn take_pending(&mut self) -> (bytes: Vec<u8>)
        ensures
            bytes@ == old(self)@.writer.pending,
            final(self)@ == (RpcConnectionView {
                writer: WriterView { open: old(self)@.writer.open, pending: Seq::<u8>::empty() },
                ..old(self)@
            }),
    {
        self.writer.take_pending()
    }

    /// Opens an exchange: takes a fresh id, registers the waiter, then
    /// queues the opening envelope.
    fn open_exchange(&mut self, kind: EntryKind, endpoint: Vec<u8>, payload: Vec<u8>) -> (res:
        Result<u64, SendError>)
        requires
            old(self).well_formed(),
        ensures
            final(self).well_formed(),
            match res {
                Ok(id) => {
                    &&& old(self)@.writer.open
                    &&& id == old(self)@.next_id
                    &&& id < u64::MAX
                    &&& spec_encodable(spec_opening(kind, id, endpoint@, payload@))
                    &&& final(self)@.next_id == id + 1
                    &&& final(self)@.writer == (WriterView {
                        open: true,
                        pending: old(self)@.writer.pending + spec_encode(
                            spec_opening(kind, id, endpoint@, payload@),
                        ),
                    })
                    &&& spec_registered(
                        old(self)@.registry,
                        final(self)@.registry,
                        kind,
                        id,
                        endpoint@,
                    )
                },
                Err(SendError::TransportClosed) => {
                    &&& !old(self)@.writer.open
                    &&& final(self)@ == old(self)@
                },
                Err(SendError::IdsExhausted) => {
                    &&& old(self)@.writer.open
                    &&& old(self)@.next_id == u64::MAX
                    &&& final(self)@ == old(self)@
                },
                Err(SendError::TooLarge) => {
                    &&& old(self)@.writer.open
                    &&& old(self)@.next_id < u64::MAX
                    &&& spec_record_len(
                        spec_opening(kind, old(self)@.next_id, endpoint@, payload@),
                    ) > MAX_FRAME_LEN
                    &&& final(self)@ == old(self)@
                },
                Err(SendError::NotWellFormed) => false,
            },
    {
        if !self.writer.is_open() {
            return Err(SendError::TransportClosed);
        }
        if self.next_id == u64::MAX {
            return Err(SendError::IdsExhausted);
        }
        let id: u64 = self.next_id;
        let name = copy_range(&endpoint, 0, endpoint.len());
        let ghost wanted = spec_opening(kind, id, endpoint@, payload@);
        let envelope = match kind {
            EntryKind::Call => Envelope::call(id, endpoint, payload),
            EntryKind::Subscription => Envelope::subscription(id, endpoint, payload),
        };
        proof {
            assert(envelope@.client_name =~= Seq::<u8>::empty());
            assert(envelope@ == wanted);
            assert(name@ =~= endpoint@);
        }
        if record_len(&envelope).is_none() {
            return Err(SendError::TooLarge);
        }
        proof {
            if spec_has(self@.registry, id) {
                let k = spec_slot(self@.registry, id);
                assert(self@.registry[k].id < self@.next_id);
            }
        }
        let registered = match kind {
            EntryKind::Call => self.registry.register_call(id, name),
            EntryKind::Subscription => self.registry.register_subscription(id, name),
        };
        if registered.is_err() {
            proof {
                assert(false);
            }
            return Err(SendError::TooLarge);
        }
        let sent = self.writer.send(&envelope);
        if sent.is_err() {
            proof {
                assert(false);
            }
            return Err(SendError::TooLarge);
        }
        self.next_id = id + 1;
        proof {
            let before = old(self)@.registry;
            let after = self@.registry;
            assert(after.drop_last() =~= before);
            assert forall|i: int| 0 <= i < after.len() implies (#[trigger] after[i]).id
                < self@.next_id by {
                if i < before.len() {
                    assert(after[i] == before[i]);
                }
            }
        }
        Ok(id)
    }

    /// Starts a call to `endpoint`: registers a one-shot waiter under a
    /// fresh id, queues the call envelope, and gives the id. Fails, and
    /// changes nothing, when the stream is down, the envelope does not fit
    /// a frame, or no id is left.
    pub fn call(&mut self, endpoint: Vec<u8>, payload: Vec<u8>) -> (res: Result<u64, SendError>)
        requires
            old(self).well_formed(),
        ensures
            final(self).well_formed(),
            match res {
                Ok(id) => {
                    &&& old(self)@.writer.open
                    &&& id == old(self)@.next_id
                    &&& id < u64::MAX
                    &&& !spec_has(old(self)@.registry, id)
                    &&& spec_encodable(spec_opening(EntryKind::Call, id, endpoint@, payload@))
                    &&& final(self)@.next_id == id + 1
                    &&& final(self)@.writer == (WriterView {
                        open: true,
                        pending: old(self)@.writer.pending + spec_encode(
                            spec_opening(EntryKind::Call, id, endpoint@, payload@),
                        ),
                    })
                    &&& spec_registered(
                        old(self)@.registry,
                        final(self)@.registry,
                        EntryKind::Call,
                        id,
                        endpoint@,
                    )
                },
                Err(SendError::TransportClosed) => {
                    &&& !old(self)@.writer.open
                    &&& final(self)@ == old(self)@
                },
                Err(SendError::IdsExhausted) => {
                    &&& old(self)@.writer.open
                    &&& old(self)@.next_id == u64::MAX
                    &&& final(self)@ == old(self)@
                },
                Err(SendError::TooLarge) => {
                    &&& old(self)@.writer.open
                    &&& old(self)@.next_id < u64::MAX
                    &&& spec_record_len(
                        spec_opening(EntryKind::Call, old(self)@.next_id, endpoint@, payload@),
                    ) > MAX_FRAME_LEN
                    &&& final(self)@ == old(self)@
                },
                Err(SendError::NotWellFormed) => false,
            },
    {
        proof {
            if spec_has(self@.registry, self@.next_id) {
                let k = spec_slot(self@.registry, self@.next_id);
                assert(self@.registry[k].id < self@.next_id);
            }
        }
        self.open_exchange(EntryKind::Call, endpoint, payload)
    }

    /// Starts a subscription to `endpoint`: registers a multi-shot
    /// receiver under a fresh id, queues the subscription envelope, and
    /// gives the id. Fails, and changes nothing, when the stream is down,
    /// the envelope does not fit a frame, or no id is left.
    pub fn subscribe(&mut self, endpoint: Vec<u8>, payload: Vec<u8>) -> (res: Result<
        u64,
        SendError,
    >)
        requires
            old(self).well_formed(),
        ensures
            final(self).well_formed(),
            match res {
                Ok(id) => {
                    &&& old(self)@.writer.open
                    &&& id == old(self)@.next_id
                    &&& id < u64::MAX
                    &&& !spec_has(old(self)@.registry, id)
                    &&& spec_encodable(
                        spec_opening(EntryKind::Subscription, id, endpoint@, payload@),
                    )
                    &&& final(self)@.next_id == id + 1
                    &&& final(self)@.writer == (WriterView {
                        open: true,
                        pending: old(self)@.writer.pending + spec_encode(
                            spec_opening(EntryKind::Subscription, id, endpoint@, payload@),
                        ),
                    })
                    &&& spec_registered(
                        old(self)@.registry,
                        final(self)@.registry,
                        EntryKind::Subscription,
                        id,
                        endpoint@,
                    )
                },
                Err(SendError::TransportClosed) => {
                    &&& !old(self)@.writer.open
                    &&& final(self)@ == old(self)@
                },
                Err(SendError::IdsExhausted) => {
                    &&& old(self)@.writer.open
                    &&& old(self)@.next_id == u64::MAX
                    &&& final(self)@ == old(self)@
                },
                Err(SendError::TooLarge) => {
                    &&& old(self)@.writer.open
                    &&& old(self)@.next_id < u64::MAX
                    &&& spec_record_len(
                        spec_opening(
                            EntryKind::Subscription,
                            old(self)@.next_id,
                            endpoint@,
                            payload@,
                        ),
                    ) > MAX_FRAME_LEN
                    &&& final(self)@ == old(self)@
                },
                Err(SendError::NotWellFormed) => false,
            },
    {
        proof {
            if spec_has(self@.registry, self@.next_id) {
                let k = spec_slot(self@.registry, self@.next_id);
                assert(self@.registry[k].id < self@.next_id);
            }
        }
        self.open_exchange(EntryKind::Subscription, endpoint, payload)
    }

    /// Queues a one-way message to `endpoint`. Nothing is registered and no
    /// answer is expected. Fails, and changes nothing, when the stream is
    /// down or the envelope does not fit a frame.
    pub fn send_message(&mut self, endpoint: Vec<u8>, payload: Vec<u8>) -> (res: Result<
        (),
        SendError,
    >)
        ensures
            match res {
                Ok(()) => {
                    &&& old(self)@.writer.open
                    &&& spec_encodable(spec_message(endpoint@, payload@))
                    &&& final(self)@ == (RpcConnectionView {
                        writer: WriterView {
                            open: true,
                            pending: old(self)@.writer.pending + spec_encode(
                                spec_message(endpoint@, payload@),
                            ),
                        },
                        ..old(self)@
                    })
                },
                Err(SendError::TransportClosed) => {
                    &&& !old(self)@.writer.open
                    &&& final(self)@ == old(self)@
                },
                Err(SendError::TooLarge) => {
                    &&& old(self)@.writer.open
                    &&& spec_record_len(spec_message(endpoint@, payload@)) > MAX_FRAME_LEN
                    &&& final(self)@ == old(self)@
                },
                Err(_) => false,
            },
    {
        let ghost wanted = spec_message(endpoint@, payload@);
        let envelope = Envelope::message(0, endpoint, payload);
        proof {
            assert(envelope@.client_name =~= Seq::<u8>::empty());
            assert(envelope@ == wanted);
        }
        self.writer.send(&envelope)
    }

    /// Takes in one frame read from the transport.
    ///
    /// With the stream down, nothing happens. A frame that does not decode
    /// is fatal: the stream is marked down and every outstanding call is
    /// failed with `ConnectionLost`, while subscriptions stay. A response
    /// is routed through the registry: to its call, which is thereby done;
    /// to its subscription, which stays; or nowhere, where no entry has
    /// its id, which changes nothing. Any other envelope is handed out as
    /// a request and changes nothing.
    pub fn read(&mut self, frame: &Vec<u8>) -> (step: ReadStep)
        requires
            old(self).well_formed(),
        ensures
            final(self).well_formed(),
            spec_read(old(self)@, frame@, final(self)@, step),
    {
        if !self.writer.is_open() {
            return ReadStep::Disconnected(Vec::new());
        }
        match decode(frame) {
            Err(_) => ReadStep::Disconnected(self.disconnect()),
            Ok(envelope) => {
                match envelope.kind {
                    Kind::Response => {
                        let id: u64 = envelope.id;
                        let ghost before = self@.registry;
                        let result = report(envelope.body);
                        proof {
                            if spec_has(before, id) {
                                lemma_remove_below(before, spec_slot(before, id), self@.next_id);
                            }
                        }
                        let d = self.registry.resolve(id, result);
                        ReadStep::Resolved(d)
                    },
                    _ => {
                        match Request::new(envelope) {
                            Some(q) => ReadStep::Request(q),
                            None => {
                                proof {
                                    assert(false);
                                }
                                ReadStep::Disconnected(Vec::new())
                            },
                        }
                    },
                }
            },
        }
    }

    /// Takes note that the transport is lost: marks the stream down, drops
    /// what was queued, and fails every outstanding call with
    /// `ConnectionLost`. Subscriptions stay, awaiting a fresh stream.
    pub fn disconnect(&mut self) -> (lost: Vec<Delivery>)
        requires
            old(self).well_formed(),
        ensures
            final(self).well_formed(),
            final(self)@ == spec_after_loss(old(self)@),
            lost@ == spec_lost_calls(old(self)@.registry),
    {
        proof {
            lemma_subscriptions_below(self@.registry, self@.next_id);
        }
        self.writer.close();
        self.registry.clear_calls()
    }

    /// Fails every outstanding call with `ConnectionLost` and forgets it.
    /// Subscriptions and the writer stay as they are.
    pub fn reset(&mut self) -> (lost: Vec<Delivery>)
        requires
            old(self).well_formed(),
        ensures
            final(self).well_formed(),
            final(self)@ == (RpcConnectionView {
                registry: spec_subscriptions(old(self)@.registry),
                ..old(self)@
            }),
            lost@ == spec_lost_calls(old(self)@.registry),
    {
        proof {
            lemma_subscriptions_below(self@.registry, self@.next_id);
        }
        self.registry.clear_calls()
    }

    /// Takes note of a fresh transport: marks the stream up with an empty
    /// queue, fails every outstanding call with `ConnectionLost`, and
    /// queues one subscription envelope, with the id it was given and its
    /// endpoint, for every subscription. Subscriptions keep their entries,
    /// so their receivers go on.
    pub fn replace_stream(&mut self) -> (lost: Vec<Delivery>)
        requires
            old(self).well_formed(),
        ensures
            final(self).well_formed(),
            final(self)@ == spec_after_replace(old(self)@),
            lost@ == spec_lost_calls(old(self)@.registry),
    {
        proof {
            lemma_subscriptions_below(self@.registry, self@.next_id);
        }
        self.writer.replace_stream();
        let lost = self.registry.clear_calls();
        let ghost kept = self.registry@;
        let renewed = self.registry.resubscribe_all(&mut self.writer);
        proof {
            assert(renewed is Ok);
            assert(self@.writer.pending =~= spec_resubscribe_frames(kept));
            assert forall|i: int| 0 <= i < self@.registry.len() implies (
            #[trigger] self@.registry[i]).id < self@.next_id by {
                assert(self@.registry[i].id == kept[i].id);
            }
        }
        lost
    }

    /// Forgets the exchange `id`, as when its waiter was dropped. Later
    /// responses to it are dropped. Says whether there was an entry.
    pub fn unsubscribe(&mut self, id: u64) -> (found: bool)
        requires
            old(self).well_formed(),
        ensures
            final(self).well_formed(),
            found == spec_has(old(self)@.registry, id),
            !spec_has(final(self)@.registry, id),
            final(self)@ == (RpcConnectionView {
                registry: spec_without(old(self)@.registry, id),
                ..old(self)@
            }),
    {
        proof {
            if spec_has(self@.registry, id) {
                lemma_remove_below(self@.registry, spec_slot(self@.registry, id), self@.next_id);
            }
        }
        self.registry.remove(id)
    }

    /// Answers an inbound request through this connection's writer: queues
    /// one response envelope with the request's id. A one-way message
    /// cannot be answered. A failure queues nothing; nothing but the
    /// writer's queue ever changes.
    pub fn respond(&mut self, request: &Request, result: Result<Vec<u8>, Vec<u8>>) -> (res: Result<
        (),
        RequestError,
    >)
        ensures
            match res {
                Ok(()) => {
                    &&& request@.kind != Kind::Message
                    &&& old(self)@.writer.open
                    &&& spec_encodable(spec_response(request@.id, result))
                    &&& final(self)@ == (RpcConnectionView {
                        writer: WriterView {
                            open: true,
                            pending: old(self)@.writer.pending + spec_encode(
                                spec_response(request@.id, result),
                            ),
                        },
                        ..old(self)@
                    })
                },
                Err(RequestError::NotRespondable) => {
                    &&& request@.kind == Kind::Message
                    &&& final(self)@ == old(self)@
                },
                Err(RequestError::Send(SendError::TransportClosed)) => {
                    &&& request@.kind != Kind::Message
                    &&& !old(self)@.writer.open
                    &&& final(self)@ == old(self)@
                },
                Err(RequestError::Send(SendError::TooLarge)) => {
                    &&& request@.kind != Kind::Message
                    &&& old(self)@.writer.open
                    &&& spec_record_len(spec_response(request@.id, result)) > MAX_FRAME_LEN
                    &&& final(self)@ == old(self)@
                },
                Err(_) => false,
            },
    {
        request.respond(result, &mut self.writer)
    }
}

} // verus!
