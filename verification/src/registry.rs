//! The calls registry: which correlation ids await a response, and what
//! kind of waiter stands behind each.
//!
//! The registry decides where a response goes; handing the result to the
//! waiter is left to the embedding code, which gets a [`Delivery`] for it.

use vstd::prelude::*;
use crate::bytes::copy_range;
use crate::codec::{spec_encodable, spec_encode, HEADER_LEN, MAX_FRAME_LEN};
use crate::envelope::{BodyView, Envelope, EnvelopeView, Kind};
use crate::writer::{SendError, Writer, WriterView};

verus! {

/// The longest endpoint name that a registry entry may hold: the longest
/// that still fits a frame.
pub const MAX_ENDPOINT_LEN: usize = MAX_FRAME_LEN - HEADER_LEN;

/// What kind of waiter an entry stands for.
#[derive(Clone, Copy, Debug, PartialEq, Eq, Structural)]
pub enum EntryKind {
    /// A one-shot waiter: resolved once, then gone.
    Call,
    /// A multi-shot receiver: resolved any number of times.
    Subscription,
}

/// One outstanding exchange.
#[derive(Debug)]
pub struct Entry {
    pub id: u64,
    pub kind: EntryKind,
    pub endpoint: Vec<u8>,
    /// Set on a subscription from the loss of the transport until the
    /// subscription is renewed on a fresh one.
    pub pending_resubscribe: bool,
}

/// Why a call or a subscription failed.
#[derive(Clone, Debug, PartialEq, Eq)]
pub enum CallError {
    /// The peer answered with a failure; its payload is attached.
    PeerRejected(Vec<u8>),
    /// The transport was lost before an answer came.
    ConnectionLost,
}

/// Where a result goes.
#[derive(Debug, PartialEq, Eq)]
pub enum Delivery {
    /// To the one-shot waiter of call `id`, which is thereby done.
    ToCall { id: u64, result: Result<Vec<u8>, CallError> },
    /// To the receiver of subscription `id`, as its next item.
    ToSubscription { id: u64, result: Result<Vec<u8>, CallError> },
    /// Nowhere: nothing waits for it.
    Dropped,
}

/// Why an exchange was not registered.
#[derive(Clone, Copy, Debug, PartialEq, Eq, Structural)]
pub enum RegisterError {
    /// An entry with this id is live.
    DuplicateId,
    /// The endpoint name exceeds [`MAX_ENDPOINT_LEN`].
    EndpointTooLong,
}

/// Whether an entry of `s` has the id `id`.
pub open spec fn spec_has(s: Seq<Entry>, id: u64) -> bool {
    exists|i: int| 0 <= i < s.len() && (#[trigger] s[i]).id == id
}

/// The place of an entry of `s` with the id `id`.
pub open spec fn spec_slot(s: Seq<Entry>, id: u64) -> int {
    choose|i: int| 0 <= i < s.len() && (#[trigger] s[i]).id == id
}

/// No two entries of `s` share an id.
pub open spec fn spec_distinct(s: Seq<Entry>) -> bool {
    forall|i: int, j: int| 0 <= i < j < s.len() ==> (#[trigger] s[i]).id != (#[trigger] s[j]).id
}

/// The invariant of a registry: no two entries share an id, and every
/// endpoint name fits a frame.
pub open spec fn spec_valid(s: Seq<Entry>) -> bool {
    &&& spec_distinct(s)
    &&& forall|i: int| 0 <= i < s.len() ==> (#[trigger] s[i]).endpoint@.len() <= MAX_ENDPOINT_LEN
}

/// The entries that a response to `id` leaves: a call entry goes, anything
/// else stays.
pub open spec fn spec_after_resolve(s: Seq<Entry>, id: u64) -> Seq<Entry> {
    if spec_has(s, id) && s[spec_slot(s, id)].kind == EntryKind::Call {
        s.remove(spec_slot(s, id))
    } else {
        s
    }
}

/// Where a response to `id` with the given result goes.
pub open spec fn spec_delivery(s: Seq<Entry>, id: u64, result: Result<Vec<u8>, CallError>)
    -> Delivery {
    if !spec_has(s, id) {
        Delivery::Dropped
    } else if s[spec_slot(s, id)].kind == EntryKind::Call {
        Delivery::ToCall { id, result }
    } else {
        Delivery::ToSubscription { id, result }
    }
}

/// The entries of `s` without `id`.
pub open spec fn spec_without(s: Seq<Entry>, id: u64) -> Seq<Entry> {
    if spec_has(s, id) {
        s.remove(spec_slot(s, id))
    } else {
        s
    }
}

/// The entry `e`, marked as awaiting its renewal.
pub open spec fn spec_awaiting(e: Entry) -> Entry {
    Entry { pending_resubscribe: true, ..e }
}

/// The entry `e` after the subscriptions were renewed: a subscription
/// loses its mark, a call is left as it is.
pub open spec fn spec_renewed(e: Entry) -> Entry {
    if e.kind == EntryKind::Subscription {
        Entry { pending_resubscribe: false, ..e }
    } else {
        e
    }
}

/// The entries of `s` after the subscriptions were renewed.
pub open spec fn spec_after_resubscribe(s: Seq<Entry>) -> Seq<Entry> {
    Seq::new(s.len(), |i: int| spec_renewed(s[i]))
}

/// Whether `e` is an entry of `s` with the mark set.
pub open spec fn spec_marked_from(s: Seq<Entry>, e: Entry) -> bool {
    exists|i: int| 0 <= i < s.len() && #[trigger] spec_awaiting(s[i]) == e
}

/// What the loss of the transport leaves of `s`: the subscription
/// entries, in their order, each marked as awaiting its renewal.
pub open spec fn spec_subscriptions(s: Seq<Entry>) -> Seq<Entry>
    decreases s.len(),
{
    if s.len() == 0 {
        Seq::<Entry>::empty()
    } else if s.last().kind == EntryKind::Subscription {
        spec_subscriptions(s.drop_last()).push(spec_awaiting(s.last()))
    } else {
        spec_subscriptions(s.drop_last())
    }
}

/// The news of a lost connection for the call `id`.
pub open spec fn spec_lost_call(id: u64) -> Delivery {
    Delivery::ToCall { id, result: Err(CallError::ConnectionLost) }
}

/// The news of a lost connection for every call entry of `s`, in their
/// order.
pub open spec fn spec_lost_calls(s: Seq<Entry>) -> Seq<Delivery>
    decreases s.len(),
{
    if s.len() == 0 {
        Seq::<Delivery>::empty()
    } else if s.last().kind == EntryKind::Call {
        spec_lost_calls(s.drop_last()).push(spec_lost_call(s.last().id))
    } else {
        spec_lost_calls(s.drop_last())
    }
}

/// The envelope that renews the subscription `e`: its id and its endpoint,
/// with no payload.
pub open spec fn spec_resubscription(e: Entry) -> EnvelopeView {
    EnvelopeView {
        kind: Kind::Subscription,
        id: e.id,
        endpoint: e.endpoint@,
        body: BodyView::Empty,
        client_name: Seq::<u8>::empty(),
    }
}

/// The frames that renew every subscription entry of `s`, one each, in
/// their order.
pub open spec fn spec_resubscribe_frames(s: Seq<Entry>) -> Seq<u8>
    decreases s.len(),
{
    if s.len() == 0 {
        Seq::<u8>::empty()
    } else if s.last().kind == EntryKind::Subscription {
        spec_resubscribe_frames(s.drop_last()) + spec_encode(spec_resubscription(s.last()))
    } else {
        spec_resubscribe_frames(s.drop_last())
    }
}

/// No two live entries share an id: in a valid table, two places that
/// hold the same id are the same place.
pub proof fn lemma_live_ids_are_unique(s: Seq<Entry>, i: int, j: int)
    requires
        spec_valid(s),
        0 <= i < s.len(),
        0 <= j < s.len(),
        s[i].id == s[j].id,
    ensures
        i == j,
{
    if i < j {
        assert(s[i].id != s[j].id);
    } else if j < i {
        assert(s[j].id != s[i].id);
    }
}

/// With distinct ids, an entry's own place is the place of its id.
pub proof fn lemma_slot_is_unique(s: Seq<Entry>, i: int)
    requires
        spec_distinct(s),
        0 <= i < s.len(),
    ensures
        spec_has(s, s[i].id),
        spec_slot(s, s[i].id) == i,
{
    let id = s[i].id;
    let k = spec_slot(s, id);
    assert(0 <= k < s.len() && s[k].id == id);
    if k < i {
        assert(s[k].id != s[i].id);
    } else if i < k {
        assert(s[i].id != s[k].id);
    }
}

/// Taking one entry out keeps the invariant, and takes its id out.
pub proof fn lemma_remove_keeps_valid(s: Seq<Entry>, i: int)
    requires
        spec_valid(s),
        0 <= i < s.len(),
    ensures
        spec_valid(s.remove(i)),
        !spec_has(s.remove(i), s[i].id),
        forall|id: u64| id != s[i].id ==> (spec_has(s.remove(i), id) <==> spec_has(s, id)),
{
    let r = s.remove(i);
    assert forall|a: int, b: int| 0 <= a < b < r.len() implies (#[trigger] r[a]).id != (
    #[trigger] r[b]).id by {
        let a0 = if a < i { a } else { a + 1 };
        let b0 = if b < i { b } else { b + 1 };
        assert(r[a] == s[a0] && r[b] == s[b0]);
    }
    assert forall|a: int| 0 <= a < r.len() implies (#[trigger] r[a]).endpoint@.len()
        <= MAX_ENDPOINT_LEN by {
        let a0 = if a < i { a } else { a + 1 };
        assert(r[a] == s[a0]);
    }
    if spec_has(r, s[i].id) {
        let k = spec_slot(r, s[i].id);
        let k0 = if k < i { k } else { k + 1 };
        assert(r[k] == s[k0]);
        if k0 < i {
            assert(s[k0].id != s[i].id);
        } else {
            assert(s[i].id != s[k0].id);
        }
    }
    assert forall|id: u64| id != s[i].id implies (spec_has(r, id) <==> spec_has(s, id)) by {
        if spec_has(r, id) {
            let k = spec_slot(r, id);
            let k0 = if k < i { k } else { k + 1 };
            assert(r[k] == s[k0]);
            assert(s[k0].id == id);
        }
        if spec_has(s, id) {
            let k = spec_slot(s, id);
            let k1 = if k < i { k } else { k - 1 };
            assert(r[k1] == s[k]);
            assert(r[k1].id == id);
        }
    }
}

/// What the loss of the transport leaves of `s` are entries of `s` with
/// the mark set, and all of them are subscriptions.
pub proof fn lemma_subscriptions_sound(s: Seq<Entry>)
    ensures
        spec_subscriptions(s).len() <= s.len(),
        forall|k: int|
            0 <= k < spec_subscriptions(s).len() ==> {
                &&& (#[trigger] spec_subscriptions(s)[k]).kind == EntryKind::Subscription
                &&& spec_subscriptions(s)[k].pending_resubscribe
                &&& spec_marked_from(s, spec_subscriptions(s)[k])
            },
    decreases s.len(),
{
    if s.len() > 0 {
        let p = s.drop_last();
        let q = spec_subscriptions(p);
        let t = spec_subscriptions(s);
        lemma_subscriptions_sound(p);
        assert forall|k: int| 0 <= k < t.len() implies {
            &&& (#[trigger] t[k]).kind == EntryKind::Subscription
            &&& t[k].pending_resubscribe
            &&& spec_marked_from(s, t[k])
        } by {
            if k < q.len() {
                assert(t[k] == q[k]);
                assert(spec_marked_from(p, q[k]));
                let i = choose|i: int| 0 <= i < p.len() && #[trigger] spec_awaiting(p[i]) == q[k];
                assert(p[i] == s[i]);
                assert(spec_awaiting(s[i]) == t[k]);
            } else {
                assert(spec_awaiting(s[s.len() - 1]) == t[k]);
            }
        }
    }
}

/// Every subscription entry of `s` is, with the mark set, among what the
/// loss of the transport leaves of `s`: none is lost.
pub proof fn lemma_subscriptions_complete(s: Seq<Entry>)
    ensures
        forall|i: int|
            0 <= i < s.len() && (#[trigger] s[i]).kind == EntryKind::Subscription
                ==> spec_subscriptions(s).contains(spec_awaiting(s[i])),
    decreases s.len(),
{
    if s.len() > 0 {
        let p = s.drop_last();
        let q = spec_subscriptions(p);
        let t = spec_subscriptions(s);
        lemma_subscriptions_complete(p);
        assert forall|i: int|
            0 <= i < s.len() && (#[trigger] s[i]).kind == EntryKind::Subscription implies t.contains(
            spec_awaiting(s[i]),
        ) by {
            if i < p.len() {
                assert(p[i] == s[i]);
                assert(q.contains(spec_awaiting(p[i])));
                let k = choose|k: int| 0 <= k < q.len() && q[k] == spec_awaiting(p[i]);
                assert(t[k] == spec_awaiting(s[i]));
            } else {
                assert(t[t.len() - 1] == spec_awaiting(s[i]));
            }
        }
    }
}

/// What the loss of the transport leaves of a valid table is a valid
/// table.
pub proof fn lemma_subscriptions_valid(s: Seq<Entry>)
    requires
        spec_valid(s),
    ensures
        spec_valid(spec_subscriptions(s)),
    decreases s.len(),
{
    if s.len() > 0 {
        let p = s.drop_last();
        let q = spec_subscriptions(p);
        let t = spec_subscriptions(s);
        assert forall|i: int, j: int| 0 <= i < j < p.len() implies (#[trigger] p[i]).id != (
        #[trigger] p[j]).id by {
            assert(p[i] == s[i] && p[j] == s[j]);
        }
        assert forall|i: int| 0 <= i < p.len() implies (#[trigger] p[i]).endpoint@.len()
            <= MAX_ENDPOINT_LEN by {
            assert(p[i] == s[i]);
        }
        lemma_subscriptions_valid(p);
        lemma_subscriptions_sound(p);
        let last = s[s.len() - 1];
        assert forall|a: int, b: int| 0 <= a < b < t.len() implies (#[trigger] t[a]).id != (
        #[trigger] t[b]).id by {
            if b < q.len() {
                assert(t[a] == q[a] && t[b] == q[b]);
            } else {
                assert(t[a] == q[a]);
                assert(spec_marked_from(p, q[a]));
                let i = choose|i: int| 0 <= i < p.len() && #[trigger] spec_awaiting(p[i]) == q[a];
                assert(s[i] == p[i]);
                assert(t[b] == spec_awaiting(last));
                assert(s[i].id != last.id);
            }
        }
        assert forall|a: int| 0 <= a < t.len() implies (#[trigger] t[a]).endpoint@.len()
            <= MAX_ENDPOINT_LEN by {
            if a < q.len() {
                assert(t[a] == q[a]);
            } else {
                assert(t[a] == spec_awaiting(last));
            }
        }
    }
}

/// Renewing the subscriptions of a valid table leaves a valid table with
/// the same ids in the same places.
pub proof fn lemma_after_resubscribe_valid(s: Seq<Entry>)
    requires
        spec_valid(s),
    ensures
        spec_valid(spec_after_resubscribe(s)),
        forall|id: u64| spec_has(spec_after_resubscribe(s), id) <==> spec_has(s, id),
{
    let t = spec_after_resubscribe(s);
    assert forall|i: int, j: int| 0 <= i < j < t.len() implies (#[trigger] t[i]).id != (
    #[trigger] t[j]).id by {
        assert(t[i].id == s[i].id && t[j].id == s[j].id);
    }
    assert forall|i: int| 0 <= i < t.len() implies (#[trigger] t[i]).endpoint@.len()
        <= MAX_ENDPOINT_LEN by {
        assert(t[i].endpoint == s[i].endpoint);
    }
    assert forall|id: u64| spec_has(t, id) <==> spec_has(s, id) by {
        if spec_has(t, id) {
            let k = spec_slot(t, id);
            assert(s[k].id == id);
        }
        if spec_has(s, id) {
            let k = spec_slot(s, id);
            assert(t[k].id == id);
        }
    }
}

/// Every call entry of `s` has its news of the lost connection among the
/// news for `s`: no call is left waiting.
pub proof fn lemma_lost_calls_complete(s: Seq<Entry>)
    ensures
        forall|i: int|
            0 <= i < s.len() && (#[trigger] s[i]).kind == EntryKind::Call ==> spec_lost_calls(
                s,
            ).contains(spec_lost_call(s[i].id)),
    decreases s.len(),
{
    if s.len() > 0 {
        let p = s.drop_last();
        let q = spec_lost_calls(p);
        let t = spec_lost_calls(s);
        lemma_lost_calls_complete(p);
        assert forall|i: int|
            0 <= i < s.len() && (#[trigger] s[i]).kind == EntryKind::Call implies t.contains(
            spec_lost_call(s[i].id),
        ) by {
            if i < p.len() {
                assert(p[i] == s[i]);
                assert(q.contains(spec_lost_call(p[i].id)));
                let k = choose|k: int| 0 <= k < q.len() && q[k] == spec_lost_call(p[i].id);
                assert(t[k] == spec_lost_call(s[i].id));
            } else {
                assert(t[t.len() - 1] == spec_lost_call(s[i].id));
            }
        }
    }
}

/// Renewing the subscriptions of `s` takes the same frames whether or not
/// the calls were cleared first.
pub proof fn lemma_resubscribe_frames_skip_calls(s: Seq<Entry>)
    ensures
        spec_resubscribe_frames(spec_subscriptions(s)) == spec_resubscribe_frames(s),
    decreases s.len(),
{
    if s.len() > 0 {
        let p = s.drop_last();
        lemma_resubscribe_frames_skip_calls(p);
        if s.last().kind == EntryKind::Subscription {
            let t = spec_subscriptions(p).push(spec_awaiting(s.last()));
            assert(t.drop_last() =~= spec_subscriptions(p));
            assert(t.last() == spec_awaiting(s.last()));
        }
    }
}

/// A call is resolved at most once: after a response to a live call, a
/// second response to the same id finds no entry and is dropped.
pub proof fn lemma_call_resolves_once(
    s: Seq<Entry>,
    id: u64,
    second: Result<Vec<u8>, CallError>,
)
    requires
        spec_valid(s),
        spec_has(s, id),
        s[spec_slot(s, id)].kind == EntryKind::Call,
    ensures
        !spec_has(spec_after_resolve(s, id), id),
        spec_delivery(spec_after_resolve(s, id), id, second) == Delivery::Dropped,
        spec_after_resolve(spec_after_resolve(s, id), id) == spec_after_resolve(s, id),
{
    lemma_remove_keeps_valid(s, spec_slot(s, id));
}

/// Where a run of responses goes: each to the place that the registry
/// gives it at its turn.
pub open spec fn spec_deliveries(s: Seq<Entry>, responses: Seq<(u64, Result<Vec<u8>, CallError>)>)
    -> Seq<Delivery>
    decreases responses.len(),
{
    if responses.len() == 0 {
        Seq::<Delivery>::empty()
    } else {
        seq![spec_delivery(s, responses[0].0, responses[0].1)] + spec_deliveries(
            spec_after_resolve(s, responses[0].0),
            responses.drop_first(),
        )
    }
}

/// The entries that a run of responses leaves.
pub open spec fn spec_after_responses(
    s: Seq<Entry>,
    responses: Seq<(u64, Result<Vec<u8>, CallError>)>,
) -> Seq<Entry>
    decreases responses.len(),
{
    if responses.len() == 0 {
        s
    } else {
        spec_after_responses(spec_after_resolve(s, responses[0].0), responses.drop_first())
    }
}

/// A subscription gets one item per response, in the order of the
/// responses: a run of responses that are all addressed to live
/// subscriptions is delivered item by item, each to the subscription it
/// names, and leaves every entry in place.
pub proof fn lemma_subscription_items_in_order(
    s: Seq<Entry>,
    responses: Seq<(u64, Result<Vec<u8>, CallError>)>,
)
    requires
        forall|k: int|
            0 <= k < responses.len() ==> spec_has(s, (#[trigger] responses[k]).0) && s[spec_slot(
                s,
                responses[k].0,
            )].kind == EntryKind::Subscription,
    ensures
        spec_after_responses(s, responses) == s,
        spec_deliveries(s, responses).len() == responses.len(),
        forall|k: int|
            0 <= k < responses.len() ==> #[trigger] spec_deliveries(s, responses)[k] == (
            Delivery::ToSubscription { id: responses[k].0, result: responses[k].1 }),
    decreases responses.len(),
{
    if responses.len() > 0 {
        let rest = responses.drop_first();
        assert(spec_has(s, responses[0].0));
        assert(spec_after_resolve(s, responses[0].0) == s);
        assert forall|k: int| 0 <= k < rest.len() implies spec_has(s, (#[trigger] rest[k]).0)
            && s[spec_slot(s, rest[k].0)].kind == EntryKind::Subscription by {
            assert(rest[k] == responses[k + 1]);
        }
        lemma_subscription_items_in_order(s, rest);
        assert forall|k: int| 0 <= k < responses.len() implies #[trigger] spec_deliveries(
            s,
            responses,
        )[k] == (Delivery::ToSubscription { id: responses[k].0, result: responses[k].1 }) by {
            if k > 0 {
                assert(spec_deliveries(s, responses)[k] == spec_deliveries(s, rest)[k - 1]);
                assert(rest[k - 1] == responses[k]);
            }
        }
    }
}

/// The table of outstanding exchanges, in the order of their registration.
#[derive(Debug)]
pub struct CallsRegistry {
    entries: Vec<Entry>,
}

impl View for CallsRegistry {
    type V = Seq<Entry>;

    closed spec fn view(&self) -> Seq<Entry> {
        self.entries@
    }
}

impl CallsRegistry {
    /// The invariant: no two live entries share an id, and every endpoint
    /// name fits a frame.
    pub open spec fn well_formed(&self) -> bool {
        spec_valid(self@)
    }

    /// A registry with no entry.
    pub fn new() -> (r: CallsRegistry)
        ensures
            r@ == Seq::<Entry>::empty(),
            r.well_formed(),
    {
        CallsRegistry { entries: Vec::new() }
    }

    /// The number of live entries.
    pub fn len(&self) -> (n: usize)
        ensures
            n == self@.len(),
    {
        self.entries.len()
    }

    /// The place of the entry with the id `id`, if there is one.
    fn find(&self, id: u64) -> (res: Option<usize>)
        requires
            self.well_formed(),
        ensures
            match res {
                Some(i) => spec_has(self@, id) && i == spec_slot(self@, id) && i < self@.len()
                    && self@[i as int].id == id,
                None => !spec_has(self@, id),
            },
    {
        let mut i: usize = 0;
        while i < self.entries.len()
            invariant
                self.well_formed(),
                i <= self.entries@.len(),
                forall|k: int| 0 <= k < i ==> (#[trigger] self.entries@[k]).id != id,
            decreases self.entries@.len() - i,
        {
            if self.entries[i].id == id {
                proof {
                    lemma_slot_is_unique(self@, i as int);
                }
                return Some(i);
            }
            i = i + 1;
        }
        None
    }

    /// What kind of waiter, if any, stands behind `id`.
    pub fn kind_of(&self, id: u64) -> (res: Option<EntryKind>)
        requires
            self.well_formed(),
        ensures
            match res {
                Some(k) => spec_has(self@, id) && self@[spec_slot(self@, id)].kind == k,
                None => !spec_has(self@, id),
            },
    {
        match self.find(id) {
            Some(i) => Some(self.entries[i].kind),
            None => None,
        }
    }

    fn register(&mut self, id: u64, kind: EntryKind, endpoint: Vec<u8>) -> (res: Result<
        (),
        RegisterError,
    >)
        requires
            old(self).well_formed(),
        ensures
            final(self).well_formed(),
            match res {
                Ok(()) => {
                    &&& !spec_has(old(self)@, id)
                    &&& endpoint@.len() <= MAX_ENDPOINT_LEN
                    &&& final(self)@ == old(self)@.push(
                        Entry { id, kind, endpoint, pending_resubscribe: false },
                    )
                },
                Err(RegisterError::DuplicateId) => spec_has(old(self)@, id) && final(self)@ == old(
                    self,
                )@,
                Err(RegisterError::EndpointTooLong) => {
                    &&& !spec_has(old(self)@, id)
                    &&& endpoint@.len() > MAX_ENDPOINT_LEN
                    &&& final(self)@ == old(self)@
                },
            },
    {
        if self.find(id).is_some() {
            return Err(RegisterError::DuplicateId);
        }
        if endpoint.len() > MAX_ENDPOINT_LEN {
            return Err(RegisterError::EndpointTooLong);
        }
        self.entries.push(Entry { id, kind, endpoint, pending_resubscribe: false });
        proof {
            let s = old(self)@;
            let t = self@;
            assert forall|i: int, j: int| 0 <= i < j < t.len() implies (#[trigger] t[i]).id != (
            #[trigger] t[j]).id by {
                assert(t[i] == s[i]);
                if j < s.len() {
                    assert(t[j] == s[j]);
                }
            }
            assert forall|i: int| 0 <= i < t.len() implies (#[trigger] t[i]).endpoint@.len()
                <= MAX_ENDPOINT_LEN by {
                if i < s.len() {
                    assert(t[i] == s[i]);
                }
            }
        }
        Ok(())
    }

    /// Adds a call entry behind the others. Fails, and changes nothing,
    /// where an entry with this id is live or the endpoint name is too long
    /// for a frame.
    pub fn register_call(&mut self, id: u64, endpoint: Vec<u8>) -> (res: Result<(), RegisterError>)
        requires
            old(self).well_formed(),
        ensures
            final(self).well_formed(),
            match res {
                Ok(()) => {
                    &&& !spec_has(old(self)@, id)
                    &&& endpoint@.len() <= MAX_ENDPOINT_LEN
                    &&& final(self)@ == old(self)@.push(
                        Entry { id, kind: EntryKind::Call, endpoint, pending_resubscribe: false },
                    )
                },
                Err(RegisterError::DuplicateId) => spec_has(old(self)@, id) && final(self)@ == old(
                    self,
                )@,
                Err(RegisterError::EndpointTooLong) => {
                    &&& !spec_has(old(self)@, id)
                    &&& endpoint@.len() > MAX_ENDPOINT_LEN
                    &&& final(self)@ == old(self)@
                },
            },
    {
        self.register(id, EntryKind::Call, endpoint)
    }

    /// Adds a subscription entry behind the others. Fails, and changes
    /// nothing, where an entry with this id is live or the endpoint name is
    /// too long for a frame.
    pub fn register_subscription(&mut self, id: u64, endpoint: Vec<u8>) -> (res: Result<
        (),
        RegisterError,
    >)
        requires
            old(self).well_formed(),
        ensures
            final(self).well_formed(),
            match res {
                Ok(()) => {
                    &&& !spec_has(old(self)@, id)
                    &&& endpoint@.len() <= MAX_ENDPOINT_LEN
                    &&& final(self)@ == old(self)@.push(
                        Entry {
                            id,
                            kind: EntryKind::Subscription,
                            endpoint,
                            pending_resubscribe: false,
                        },
                    )
                },
                Err(RegisterError::DuplicateId) => spec_has(old(self)@, id) && final(self)@ == old(
                    self,
                )@,
                Err(RegisterError::EndpointTooLong) => {
                    &&& !spec_has(old(self)@, id)
                    &&& endpoint@.len() > MAX_ENDPOINT_LEN
                    &&& final(self)@ == old(self)@
                },
            },
    {
        self.register(id, EntryKind::Subscription, endpoint)
    }

    /// Routes one response. A call entry gets the result and goes; a
    /// subscription entry gets it and stays; with no entry for `id` the
    /// result is dropped and nothing changes.
    pub fn resolve(&mut self, id: u64, result: Result<Vec<u8>, CallError>) -> (d: Delivery)
        requires
            old(self).well_formed(),
        ensures
            final(self).well_formed(),
            final(self)@ == spec_after_resolve(old(self)@, id),
            d == spec_delivery(old(self)@, id, result),
    {
        match self.find(id) {
            None => Delivery::Dropped,
            Some(i) => {
                match self.entries[i].kind {
                    EntryKind::Call => {
                        proof {
                            lemma_remove_keeps_valid(self@, i as int);
                        }
                        let _gone = self.entries.remove(i);
                        Delivery::ToCall { id, result }
                    },
                    EntryKind::Subscription => Delivery::ToSubscription { id, result },
                }
            },
        }
    }

    /// Takes the entry of `id` out, as when its waiter was dropped. Says
    /// whether there was one.
    pub fn remove(&mut self, id: u64) -> (found: bool)
        requires
            old(self).well_formed(),
        ensures
            final(self).well_formed(),
            found == spec_has(old(self)@, id),
            final(self)@ == spec_without(old(self)@, id),
            !spec_has(final(self)@, id),
    {
        match self.find(id) {
            None => false,
            Some(i) => {
                proof {
                    lemma_remove_keeps_valid(self@, i as int);
                }
                let _gone = self.entries.remove(i);
                true
            },
        }
    }

    /// Fails every outstanding call with `ConnectionLost` and takes its
    /// entry out. Subscription entries stay, in their order, each marked
    /// as awaiting its renewal.
    pub fn clear_calls(&mut self) -> (lost: Vec<Delivery>)
        requires
            old(self).well_formed(),
        ensures
            final(self).well_formed(),
            final(self)@ == spec_subscriptions(old(self)@),
            lost@ == spec_lost_calls(old(self)@),
    {
        let mut lost: Vec<Delivery> = Vec::new();
        let mut i: usize = 0;
        let ghost mut k: int = 0;
        let ghost start = self@;
        while i < self.entries.len()
            invariant
                start == old(self)@,
                0 <= k <= start.len(),
                i == spec_subscriptions(start.take(k)).len(),
                self.entries@ == spec_subscriptions(start.take(k)) + start.skip(k),
                lost@ == spec_lost_calls(start.take(k)),
            decreases start.len() - k,
        {
            proof {
                assert(self.entries@[i as int] == start.skip(k)[0]);
                assert(start.take(k + 1).drop_last() =~= start.take(k));
                assert(start.take(k + 1).last() == start[k]);
            }
            match self.entries[i].kind {
                EntryKind::Call => {
                    let gone = self.entries.remove(i);
                    lost.push(Delivery::ToCall { id: gone.id, result: Err(CallError::ConnectionLost) });
                    proof {
                        assert(self.entries@ =~= spec_subscriptions(start.take(k + 1)) + start.skip(
                            k + 1,
                        ));
                    }
                },
                EntryKind::Subscription => {
                    let kept = self.entries.remove(i);
                    self.entries.insert(
                        i,
                        Entry {
                            id: kept.id,
                            kind: kept.kind,
                            endpoint: kept.endpoint,
                            pending_resubscribe: true,
                        },
                    );
                    i = i + 1;
                    proof {
                        assert(self.entries@ =~= spec_subscriptions(start.take(k + 1)) + start.skip(
                            k + 1,
                        ));
                    }
                },
            }
            proof {
                k = k + 1;
            }
        }
        proof {
            assert(start.take(k) =~= start);
            lemma_subscriptions_valid(start);
        }
        lost
    }

    /// Whether `id` is a subscription that awaits its renewal.
    pub fn awaits_resubscription(&self, id: u64) -> (awaits: bool)
        requires
            self.well_formed(),
        ensures
            awaits == (spec_has(self@, id) && self@[spec_slot(self@, id)].pending_resubscribe),
    {
        match self.find(id) {
            Some(i) => self.entries[i].pending_resubscribe,
            None => false,
        }
    }

    /// Renews every live subscription on a fresh stream: queues, for each
    /// subscription entry in turn, one subscription envelope with the
    /// entry's id and endpoint, and takes the entry's mark off. Entries
    /// stay in their places. Fails, and does nothing, when the stream is
    /// down.
    pub fn resubscribe_all(&mut self, writer: &mut Writer) -> (res: Result<(), SendError>)
        requires
            old(self).well_formed(),
        ensures
            final(self).well_formed(),
            match res {
                Ok(()) => {
                    &&& old(writer)@.open
                    &&& final(writer)@ == (WriterView {
                        open: true,
                        pending: old(writer)@.pending + spec_resubscribe_frames(old(self)@),
                    })
                    &&& final(self)@ == spec_after_resubscribe(old(self)@)
                },
                Err(SendError::TransportClosed) => {
                    &&& !old(writer)@.open
                    &&& final(writer)@ == old(writer)@
                    &&& final(self)@ == old(self)@
                },
                Err(_) => false,
            },
    {
        if !writer.is_open() {
            return Err(SendError::TransportClosed);
        }
        let ghost start = self@;
        let mut i: usize = 0;
        while i < self.entries.len()
            invariant
                start == old(self)@,
                spec_valid(start),
                i <= start.len(),
                self.entries@.len() == start.len(),
                forall|j: int| 0 <= j < i ==> self.entries@[j] == spec_renewed(#[trigger] start[j]),
                forall|j: int| i <= j < start.len() ==> self.entries@[j] == #[trigger] start[j],
                old(writer)@.open,
                writer@ == (WriterView {
                    open: true,
                    pending: old(writer)@.pending + spec_resubscribe_frames(start.take(i as int)),
                }),
            decreases start.len() - i,
        {
            proof {
                assert(start.take(i + 1).drop_last() =~= start.take(i as int));
                assert(start.take(i + 1).last() == start[i as int]);
                assert(self.entries@[i as int] == start[i as int]);
            }
            match self.entries[i].kind {
                EntryKind::Call => {},
                EntryKind::Subscription => {
                    let ghost before = self.entries@;
                    let entry = self.entries.remove(i);
                    let endpoint = copy_range(&entry.endpoint, 0, entry.endpoint.len());
                    let envelope = Envelope::resubscription(entry.id, endpoint);
                    proof {
                        assert(envelope@.endpoint =~= entry.endpoint@);
                        assert(envelope@.client_name =~= Seq::<u8>::empty());
                        assert(envelope@ == spec_resubscription(entry));
                        assert(spec_encodable(envelope@));
                    }
                    match writer.send(&envelope) {
                        Ok(()) => {},
                        Err(e) => {
                            proof {
                                assert(false);
                            }
                            return Err(e);
                        },
                    }
                    self.entries.insert(
                        i,
                        Entry {
                            id: entry.id,
                            kind: entry.kind,
                            endpoint: entry.endpoint,
                            pending_resubscribe: false,
                        },
                    );
                    proof {
                        assert(self.entries@ =~= before.update(i as int, spec_renewed(entry)));
                        assert(writer@.pending =~= old(writer)@.pending + spec_resubscribe_frames(
                            start.take(i + 1),
                        ));
                    }
                },
            }
            i = i + 1;
        }
        proof {
            assert(start.take(i as int) =~= start);
            assert(self.entries@ =~= spec_after_resubscribe(start));
            lemma_after_resubscribe_valid(start);
        }
        Ok(())
    }
}

} // verus!
