//! The per-process instance state machine: the inbox queue with its
//! two receive modes, the request/response context table with timer
//! coupling, blob inheritance, id and rsvp assignment on send, and
//! the pruning of forged foreign capabilities on receive.

use vstd::prelude::*;
use crate::ids::{Address, AddressView, clone_bytes, ProcessIdView};
use crate::message::{
    caps_view, clone_opt_blob, clone_opt_bytes, Capability, CapabilityView, KernelMessage,
    KernelMessageView, LazyLoadBlob, Message, MessageView, Request, RequestView, Response,
    SendError, SendErrorKind, SignedCapability, SignedCapView, WrappedSendError,
};
use crate::codec::{cap_signing_bytes, enc_cap};
use crate::crypto::{ed25519_sig_ok, ed25519_verify};
use crate::oracle::{filter_caps_spec, plain_caps_view, CapOracle};

verus! {

/// What sits in an inbox: a delivered envelope, or a synthetic send
/// error carrying the id of the request it answers.
pub enum QueueItem {
    Message(KernelMessage),
    Failure(WrappedSendError),
}

/// The id an inbox item answers to.
pub open spec fn item_id(it: QueueItem) -> u64 {
    match it {
        QueueItem::Message(km) => km.id,
        QueueItem::Failure(e) => e.id,
    }
}

/// Per-outstanding-request bookkeeping: the envelope that prompted
/// the request, if any, and the sender's opaque context.
pub struct ProcessContext {
    pub prompting_message: Option<KernelMessage>,
    pub user_context: Option<Vec<u8>>,
}

/// A context table line: an in-flight request id and its context.
pub struct ContextEntry {
    pub id: u64,
    pub context: ProcessContext,
}

/// An id has a live entry in the context table.
pub open spec fn contexts_has(entries: Seq<ContextEntry>, id: u64) -> bool {
    exists|i: int| 0 <= i < entries.len() && (#[trigger] entries[i]).id == id
}

/// Context-table well-formedness: one entry per id.
pub open spec fn contexts_wf(entries: Seq<ContextEntry>) -> bool {
    forall|i: int, j: int|
        0 <= i < j < entries.len() ==> (#[trigger] entries[i]).id != (#[trigger] entries[j]).id
}

/// An instruction to the host: start a timeout timer for this request
/// id, firing after this many seconds.
pub struct TimerRequest {
    pub id: u64,
    pub seconds: u64,
}

/// The runtime state of one process instance.
pub struct ProcessState {
    /// This process's own address; its node is the local node.
    pub our: Address,
    /// The local node's Ed25519 verifying key, for foreign caps.
    pub public_key: Vec<u8>,
    /// Contexts of outstanding requests, one per in-flight id.
    pub contexts: Vec<ContextEntry>,
    /// The inbox: delivered items not yet surfaced, front first.
    pub message_queue: Vec<QueueItem>,
    /// The last envelope surfaced to the component.
    pub current_incoming: Option<KernelMessage>,
    /// The predecessor request saved when a response displaced it.
    pub nested_request: Option<KernelMessage>,
    /// The blob of the last received request or response.
    pub last_blob: Option<LazyLoadBlob>,
}

impl ProcessState {
    pub open spec fn wf(&self) -> bool {
        contexts_wf(self.contexts@)
    }

    /// A fresh instance: empty inbox, no contexts, nothing received.
    pub fn new(our: Address, public_key: Vec<u8>) -> (r: ProcessState)
        ensures
            r.wf(),
            r.contexts@.len() == 0,
            r.message_queue@.len() == 0,
            r.our@ == our@,
            r.public_key@ == public_key@,
            r.current_incoming is None,
            r.nested_request is None,
            r.last_blob is None,
    {
        ProcessState {
            our,
            public_key,
            contexts: Vec::new(),
            message_queue: Vec::new(),
            current_incoming: None,
            nested_request: None,
            last_blob: None,
        }
    }

    /// Whether an id has an outstanding context.
    pub fn contexts_contains(&self, id: u64) -> (r: bool)
        ensures
            r == contexts_has(self.contexts@, id),
    {
        let n: usize = self.contexts.len();
        let mut i: usize = 0;
        while i < n
            invariant
                n == self.contexts@.len(),
                i <= n,
                forall|j: int| 0 <= j < i ==> (#[trigger] self.contexts@[j]).id != id,
            decreases n - i,
        {
            if self.contexts[i].id == id {
                assert(self.contexts@[i as int].id == id);
                return true;
            }
            i += 1;
        }
        false
    }

    /// Take the context of an id out of the table, if there is one.
    /// Removal keeps the other entries and their order.
    pub fn contexts_remove(&mut self, id: u64) -> (r: Option<ProcessContext>)
        requires
            old(self).wf(),
        ensures
            final(self).wf(),
            final(self).our@ == old(self).our@,
            final(self).public_key@ == old(self).public_key@,
            final(self).message_queue@ == old(self).message_queue@,
            final(self).current_incoming == old(self).current_incoming,
            final(self).nested_request == old(self).nested_request,
            final(self).last_blob == old(self).last_blob,
            r is Some <==> contexts_has(old(self).contexts@, id),
            forall|x: u64|
                contexts_has(final(self).contexts@, x) <==> (contexts_has(old(self).contexts@, x)
                    && x != id),
            r is Some ==> exists|i: int|
                0 <= i < old(self).contexts@.len() && (#[trigger] old(self).contexts@[i]).id == id
                    && r == Some(old(self).contexts@[i].context),
    {
        let n: usize = self.contexts.len();
        let mut i: usize = 0;
        while i < n
            invariant
                *self == *old(self),
                old(self).wf(),
                n == self.contexts@.len(),
                i <= n,
                forall|j: int| 0 <= j < i ==> (#[trigger] self.contexts@[j]).id != id,
            decreases n - i,
        {
            if self.contexts[i].id == id {
                let ghost before = self.contexts@;
                let entry = self.contexts.remove(i);
                proof {
                    before.remove_ensures(i as int);
                    assert(before[i as int].id == id);
                    assert forall|x: u64|
                        contexts_has(self.contexts@, x) <==> (contexts_has(before, x) && x
                            != id) by {
                        if contexts_has(self.contexts@, x) {
                            let k = choose|k: int|
                                0 <= k < self.contexts@.len() && (#[trigger] self.contexts@[k]).id
                                    == x;
                            if k < i {
                                assert(before[k].id == x);
                            } else {
                                assert(before[k + 1] == self.contexts@[k]);
                                assert(before[k + 1].id == x);
                            }
                        }
                        if contexts_has(before, x) && x != id {
                            let k = choose|k: int|
                                0 <= k < before.len() && (#[trigger] before[k]).id == x;
                            if k < i {
                                assert(self.contexts@[k] == before[k]);
                                assert(self.contexts@[k].id == x);
                            } else {
                                assert(k > i);
                                assert(self.contexts@[k - 1] == before[k]);
                                assert(self.contexts@[k - 1].id == x);
                            }
                        }
                    }
                    assert(contexts_wf(self.contexts@)) by {
                        assert forall|a: int, b: int|
                            0 <= a < b < self.contexts@.len() implies (
                        #[trigger] self.contexts@[a]).id != (#[trigger] self.contexts@[b]).id by {
                            let a0 = if a < i {
                                a
                            } else {
                                a + 1
                            };
                            let b0 = if b < i {
                                b
                            } else {
                                b + 1
                            };
                            assert(self.contexts@[a] == before[a0]);
                            assert(self.contexts@[b] == before[b0]);
                        }
                    }
                }
                return Some(entry.context);
            }
            i += 1;
        }
        None
    }

    /// Record a fresh outstanding request. The id must not be live:
    /// send-time id assignment guarantees that.
    pub fn contexts_insert(&mut self, id: u64, context: ProcessContext)
        requires
            old(self).wf(),
            !contexts_has(old(self).contexts@, id),
        ensures
            final(self).wf(),
            final(self).our@ == old(self).our@,
            final(self).public_key@ == old(self).public_key@,
            final(self).message_queue@ == old(self).message_queue@,
            final(self).current_incoming == old(self).current_incoming,
            final(self).nested_request == old(self).nested_request,
            final(self).last_blob == old(self).last_blob,
            final(self).contexts@ == old(self).contexts@.push(
                ContextEntry { id, context: context },
            ),
            forall|x: u64|
                contexts_has(final(self).contexts@, x) <==> (contexts_has(old(self).contexts@, x)
                    || x == id),
    {
        let ghost before = self.contexts@;
        self.contexts.push(ContextEntry { id, context });
        proof {
            assert forall|x: u64|
                contexts_has(self.contexts@, x) <==> (contexts_has(before, x) || x == id) by {
                if contexts_has(self.contexts@, x) {
                    let k = choose|k: int|
                        0 <= k < self.contexts@.len() && (#[trigger] self.contexts@[k]).id == x;
                    if k < before.len() {
                        assert(before[k].id == x);
                    }
                }
                if contexts_has(before, x) {
                    let k = choose|k: int| 0 <= k < before.len() && (#[trigger] before[k]).id == x;
                    assert(self.contexts@[k].id == x);
                }
                if x == id {
                    assert(self.contexts@[before.len() as int].id == x);
                }
            }
            assert forall|a: int, b: int| 0 <= a < b < self.contexts@.len() implies (
            #[trigger] self.contexts@[a]).id != (#[trigger] self.contexts@[b]).id by {
                if b < before.len() {
                    assert(before[a].id != before[b].id);
                } else {
                    assert(self.contexts@[b].id == id);
                    assert(before[a].id == self.contexts@[a].id);
                    assert(contexts_has(before, self.contexts@[a].id));
                }
            }
        }
    }

    /// Pop the head of the inbox, if any. First in, first out.
    pub fn pop_next(&mut self) -> (r: Option<QueueItem>)
        ensures
            final(self).contexts@ == old(self).contexts@,
            final(self).our@ == old(self).our@,
            final(self).public_key@ == old(self).public_key@,
            final(self).current_incoming == old(self).current_incoming,
            final(self).nested_request == old(self).nested_request,
            final(self).last_blob == old(self).last_blob,
            match r {
                None => old(self).message_queue@.len() == 0 && final(self).message_queue@ == old(
                    self,
                ).message_queue@,
                Some(it) => old(self).message_queue@.len() > 0 && it == old(
                    self,
                ).message_queue@[0] && final(self).message_queue@ == old(
                    self,
                ).message_queue@.drop_first(),
            },
    {
        if self.message_queue.len() == 0 {
            return None;
        }
        let it = self.message_queue.remove(0);
        proof {
            assert(self.message_queue@ =~= old(self).message_queue@.drop_first());
        }
        Some(it)
    }

    /// Take the first inbox item answering to `id`, if any, leaving
    /// every other item in place and in order: awaiting an id never
    /// reorders what it does not take.
    pub fn take_specific(&mut self, id: u64) -> (r: Option<QueueItem>)
        ensures
            final(self).contexts@ == old(self).contexts@,
            final(self).our@ == old(self).our@,
            final(self).public_key@ == old(self).public_key@,
            final(self).current_incoming == old(self).current_incoming,
            final(self).nested_request == old(self).nested_request,
            final(self).last_blob == old(self).last_blob,
            match r {
                None => final(self).message_queue@ == old(self).message_queue@ && forall|j: int|
                    0 <= j < old(self).message_queue@.len() ==> item_id(
                        #[trigger] old(self).message_queue@[j],
                    ) != id,
                Some(it) => exists|k: int|
                    0 <= k < old(self).message_queue@.len() && it == old(self).message_queue@[k]
                        && item_id(it) == id && (forall|j: int|
                        0 <= j < k ==> item_id(#[trigger] old(self).message_queue@[j]) != id) && (
                    final(self).message_queue@ == old(self).message_queue@.remove(k)),
            },
    {
        let n: usize = self.message_queue.len();
        let mut i: usize = 0;
        while i < n
            invariant
                *self == *old(self),
                n == self.message_queue@.len(),
                i <= n,
                forall|j: int| 0 <= j < i ==> item_id(#[trigger] self.message_queue@[j]) != id,
            decreases n - i,
        {
            let hit = match &self.message_queue[i] {
                QueueItem::Message(km) => km.id == id,
                QueueItem::Failure(e) => e.id == id,
            };
            if hit {
                let ghost before = self.message_queue@;
                let it = self.message_queue.remove(i);
                proof {
                    assert(it == before[i as int]);
                    assert(item_id(it) == id);
                }
                return Some(it);
            }
            i += 1;
        }
        None
    }

    /// The dispatch loop delivered an item: append it to the inbox.
    /// Arrival order is kept.
    pub fn deliver(&mut self, item: QueueItem)
        ensures
            final(self).message_queue@ == old(self).message_queue@.push(item),
            final(self).contexts@ == old(self).contexts@,
            final(self).our@ == old(self).our@,
            final(self).public_key@ == old(self).public_key@,
            final(self).current_incoming == old(self).current_incoming,
            final(self).nested_request == old(self).nested_request,
            final(self).last_blob == old(self).last_blob,
    {
        self.message_queue.push(item);
    }
}

/// The model of an optional envelope.
pub open spec fn view_opt_km(o: Option<KernelMessage>) -> Option<KernelMessageView> {
    match o {
        None => None,
        Some(km) => Some(km@),
    }
}

/// The context of the first table line with this id, if any; under
/// well-formedness, of the only one.
pub open spec fn ctx_lookup(entries: Seq<ContextEntry>, id: u64) -> Option<ProcessContext>
    decreases entries.len(),
{
    if entries.len() == 0 {
        None
    } else if entries[0].id == id {
        Some(entries[0].context)
    } else {
        ctx_lookup(entries.drop_first(), id)
    }
}

/// Under well-formedness, any table line with an id gives the lookup
/// result for that id.
pub proof fn lemma_ctx_lookup_unique(entries: Seq<ContextEntry>, i: int, id: u64)
    requires
        contexts_wf(entries),
        0 <= i < entries.len(),
        entries[i].id == id,
    ensures
        ctx_lookup(entries, id) == Some(entries[i].context),
    decreases entries.len(),
{
    if i == 0 {
    } else {
        assert(entries[0].id != entries[i].id);
        assert(contexts_wf(entries.drop_first())) by {
            assert forall|a: int, b: int| 0 <= a < b < entries.drop_first().len() implies (
            #[trigger] entries.drop_first()[a]).id != (#[trigger] entries.drop_first()[b]).id by {
                assert(entries.drop_first()[a] == entries[a + 1]);
                assert(entries.drop_first()[b] == entries[b + 1]);
            }
        }
        assert(entries.drop_first()[i - 1] == entries[i]);
        lemma_ctx_lookup_unique(entries.drop_first(), i - 1, id);
    }
}

/// An id with no live entry looks up to nothing.
pub proof fn lemma_ctx_lookup_none(entries: Seq<ContextEntry>, id: u64)
    requires
        !contexts_has(entries, id),
    ensures
        ctx_lookup(entries, id) is None,
    decreases entries.len(),
{
    if entries.len() > 0 {
        assert(entries[0].id != id);
        assert(!contexts_has(entries.drop_first(), id)) by {
            if contexts_has(entries.drop_first(), id) {
                let k = choose|k: int|
                    0 <= k < entries.drop_first().len() && (#[trigger] entries.drop_first()[k]).id
                        == id;
                assert(entries[k + 1] == entries.drop_first()[k]);
                assert(entries[k + 1].id == id);
            }
        }
        lemma_ctx_lookup_none(entries.drop_first(), id);
    }
}

/// One answer per awaited request: sending a response-expecting
/// request makes its id outstanding; the first matching response or
/// timeout consumes the context, and after that the id is no longer
/// outstanding, so a second answer for it finds nothing to consume
/// and cancels no timer. Never both a response and a timeout act on
/// one context.
pub proof fn lemma_one_answer_per_request(
    before_send: Seq<ContextEntry>,
    after_send: Seq<ContextEntry>,
    after_answer: Seq<ContextEntry>,
    id: u64,
)
    requires
        forall|x: u64|
            contexts_has(after_send, x) <==> (contexts_has(before_send, x) || x == id),
        forall|x: u64|
            contexts_has(after_answer, x) <==> (contexts_has(after_send, x) && x != id),
    ensures
        contexts_has(after_send, id),
        !contexts_has(after_answer, id),
        ctx_lookup(after_answer, id) is None,
{
    lemma_ctx_lookup_none(after_answer, id);
}

/// Whether a capability in transit survives the receive-side check:
/// the one time a signature is verified is when a foreign node hands
/// us a capability that the local node allegedly issued.
pub open spec fn keep_cap(
    c: SignedCapView,
    src_node: Seq<u8>,
    our_node: Seq<u8>,
    pk: Seq<u8>,
) -> bool {
    if src_node != our_node && c.cap.issuer.node == our_node {
        ed25519_sig_ok(pk, enc_cap(c.cap), c.sig)
    } else {
        true
    }
}

/// The capabilities that survive the receive-side check, in order.
pub open spec fn prune_caps_spec(
    caps: Seq<SignedCapView>,
    src_node: Seq<u8>,
    our_node: Seq<u8>,
    pk: Seq<u8>,
) -> Seq<SignedCapView>
    decreases caps.len(),
{
    if caps.len() == 0 {
        Seq::empty()
    } else {
        (if keep_cap(caps[0], src_node, our_node, pk) {
            seq![caps[0]]
        } else {
            Seq::empty()
        }) + prune_caps_spec(caps.drop_first(), src_node, our_node, pk)
    }
}

/// Keep exactly the capabilities that pass the receive-side check.
pub fn prune_caps(
    caps: &Vec<SignedCapability>,
    src_node: &Vec<u8>,
    our_node: &Vec<u8>,
    pk: &Vec<u8>,
) -> (r: Vec<SignedCapability>)
    ensures
        caps_view(r@) == prune_caps_spec(caps_view(caps@), src_node@, our_node@, pk@),
{
    let mut out: Vec<SignedCapability> = Vec::new();
    let n: usize = caps.len();
    let mut i: usize = 0;
    proof {
        assert(caps_view(caps@).skip(0) =~= caps_view(caps@));
        assert(caps_view(out@) =~= Seq::<SignedCapView>::empty());
        assert(caps_view(out@) + prune_caps_spec(caps_view(caps@), src_node@, our_node@, pk@)
            =~= prune_caps_spec(caps_view(caps@), src_node@, our_node@, pk@));
    }
    while i < n
        invariant
            n == caps@.len(),
            i <= n,
            prune_caps_spec(caps_view(caps@), src_node@, our_node@, pk@) == caps_view(out@)
                + prune_caps_spec(caps_view(caps@).skip(i as int), src_node@, our_node@, pk@),
        decreases n - i,
    {
        let sc = &caps[i];
        let ghost out0 = out@;
        let ghost tail = caps_view(caps@).skip(i as int);
        proof {
            assert(tail[0] == caps@[i as int]@);
            assert(tail.drop_first() =~= caps_view(caps@).skip(i + 1));
        }
        let needs_check = !crate::bytes_eq(src_node, our_node) && crate::bytes_eq(
            &sc.cap.issuer.node,
            our_node,
        );
        let keep = if needs_check {
            let msg = cap_signing_bytes(&sc.cap);
            ed25519_verify(pk, &msg, &sc.sig)
        } else {
            true
        };
        if keep {
            out.push(sc.clone_signed());
            proof {
                crate::message::lemma_caps_view_push(out0, out@[out@.len() - 1]);
                assert(caps_view(out0) + (seq![caps@[i as int]@] + prune_caps_spec(
                    caps_view(caps@).skip(i + 1),
                    src_node@,
                    our_node@,
                    pk@,
                )) =~= caps_view(out@) + prune_caps_spec(
                    caps_view(caps@).skip(i + 1),
                    src_node@,
                    our_node@,
                    pk@,
                ));
            }
        } else {
            proof {
                assert(caps_view(out0) + (Seq::<SignedCapView>::empty() + prune_caps_spec(
                    caps_view(caps@).skip(i + 1),
                    src_node@,
                    our_node@,
                    pk@,
                )) =~= caps_view(out@) + prune_caps_spec(
                    caps_view(caps@).skip(i + 1),
                    src_node@,
                    our_node@,
                    pk@,
                ));
            }
        }
        i += 1;
    }
    proof {
        assert(caps_view(caps@).skip(n as int) =~= Seq::<SignedCapView>::empty());
        assert(caps_view(out@) + Seq::<SignedCapView>::empty() =~= caps_view(out@));
    }
    out
}

/// Every capability that survives pruning passes the check: in
/// particular, a capability claiming a local issuer that arrived from
/// a foreign node carries a signature that verifies under the local
/// public key.
pub proof fn lemma_prune_caps_sound(
    caps: Seq<SignedCapView>,
    src_node: Seq<u8>,
    our_node: Seq<u8>,
    pk: Seq<u8>,
)
    ensures
        forall|j: int|
            0 <= j < prune_caps_spec(caps, src_node, our_node, pk).len() ==> keep_cap(
                #[trigger] prune_caps_spec(caps, src_node, our_node, pk)[j],
                src_node,
                our_node,
                pk,
            ),
    decreases caps.len(),
{
    if caps.len() > 0 {
        lemma_prune_caps_sound(caps.drop_first(), src_node, our_node, pk);
        let f = prune_caps_spec(caps, src_node, our_node, pk);
        let rest = prune_caps_spec(caps.drop_first(), src_node, our_node, pk);
        if keep_cap(caps[0], src_node, our_node, pk) {
            assert forall|j: int| 0 <= j < f.len() implies keep_cap(
                #[trigger] f[j],
                src_node,
                our_node,
                pk,
            ) by {
                if j == 0 {
                    assert(f[0] == caps[0]);
                } else {
                    assert(f[j] == rest[j - 1]);
                    assert(keep_cap(rest[j - 1], src_node, our_node, pk));
                }
            }
        } else {
            assert forall|j: int| 0 <= j < f.len() implies keep_cap(
                #[trigger] f[j],
                src_node,
                our_node,
                pk,
            ) by {
                assert(f[j] == rest[j]);
                assert(keep_cap(rest[j], src_node, our_node, pk));
            }
        }
    }
}

/// Prune a message's capability list, leaving the rest of it as it
/// came.
pub open spec fn prune_message_spec(
    m: MessageView,
    src_node: Seq<u8>,
    our_node: Seq<u8>,
    pk: Seq<u8>,
) -> MessageView {
    match m {
        MessageView::Request(q) => MessageView::Request(
            RequestView {
                capabilities: prune_caps_spec(q.capabilities, src_node, our_node, pk),
                ..q
            },
        ),
        MessageView::Response(p) => MessageView::Response(
            crate::message::ResponseView {
                capabilities: prune_caps_spec(p.capabilities, src_node, our_node, pk),
                ..p
            },
        ),
    }
}

/// What `receive` hands the component: a message whose forged
/// capabilities are pruned, or a send failure with the original
/// sender context restored; either may carry a timer to cancel.
pub enum Received {
    Delivered {
        source: Address,
        message: Message,
        user_context: Option<Vec<u8>>,
        cancel_timer: Option<u64>,
    },
    Failed {
        error: SendError,
        user_context: Option<Vec<u8>>,
        cancel_timer: Option<u64>,
    },
}

impl ProcessState {
    /// Surface one inbox item to the component, updating the instance
    /// state: blob inheritance, predecessor tracking, context
    /// consumption (which cancels the paired timer), and capability
    /// pruning. A response or failure consumes the context of its id:
    /// afterwards that id is no longer outstanding, so the paired
    /// timeout can fire no more, and a later timeout for it finds
    /// nothing.
    pub fn ingest(&mut self, item: QueueItem) -> (r: Received)
        requires
            old(self).wf(),
        ensures
            final(self).wf(),
            final(self).our@ == old(self).our@,
            final(self).public_key@ == old(self).public_key@,
            final(self).message_queue@ == old(self).message_queue@,
            match item {
                QueueItem::Message(km) => match km.message {
                    Message::Request(req) => {
                        &&& final(self).contexts@ == old(self).contexts@
                        &&& crate::codec::view_opt_blob(final(self).last_blob)
                            == crate::codec::view_opt_blob(km.blob)
                        &&& view_opt_km(final(self).current_incoming) == Some(km@)
                        &&& view_opt_km(final(self).nested_request) == (match old(
                            self,
                        ).current_incoming {
                            Some(ci) => if ci.message@ is Request {
                                Some(ci@)
                            } else {
                                view_opt_km(old(self).nested_request)
                            },
                            None => view_opt_km(old(self).nested_request),
                        })
                        &&& (match r {
                            Received::Delivered { source, message, user_context, cancel_timer } => {
                                &&& source@ == km.source@
                                &&& message@ == prune_message_spec(
                                    km.message@,
                                    km.source@.node,
                                    old(self).our@.node,
                                    old(self).public_key@,
                                )
                                &&& user_context is None
                                &&& cancel_timer is None
                            },
                            _ => false,
                        })
                    },
                    Message::Response(resp) => {
                        &&& crate::codec::view_opt_blob(final(self).last_blob)
                            == crate::codec::view_opt_blob(km.blob)
                        &&& final(self).nested_request == old(self).nested_request
                        &&& (forall|x: u64|
                            contexts_has(final(self).contexts@, x) <==> (contexts_has(
                                old(self).contexts@,
                                x,
                            ) && x != km.id))
                        &&& (match r {
                            Received::Delivered { source, message, user_context, cancel_timer } => {
                                &&& source@ == km.source@
                                &&& message@ == prune_message_spec(
                                    km.message@,
                                    km.source@.node,
                                    old(self).our@.node,
                                    old(self).public_key@,
                                )
                                &&& (match ctx_lookup(old(self).contexts@, km.id) {
                                    Some(c) => {
                                        &&& cancel_timer == Some(km.id)
                                        &&& crate::codec::view_opt_bytes(user_context)
                                            == crate::codec::view_opt_bytes(c.user_context)
                                        &&& view_opt_km(final(self).current_incoming) == (match c
                                            .prompting_message {
                                            Some(pm) => Some(pm@),
                                            None => Some(km@),
                                        })
                                    },
                                    None => {
                                        &&& cancel_timer is None
                                        &&& user_context is None
                                        &&& view_opt_km(final(self).current_incoming) == Some(km@)
                                    },
                                })
                            },
                            _ => false,
                        })
                    },
                },
                QueueItem::Failure(e) => {
                    &&& final(self).last_blob == old(self).last_blob
                    &&& final(self).nested_request == old(self).nested_request
                    &&& (forall|x: u64|
                        contexts_has(final(self).contexts@, x) <==> (contexts_has(
                            old(self).contexts@,
                            x,
                        ) && x != e.id))
                    &&& (match r {
                        Received::Failed { error, user_context, cancel_timer } => {
                            &&& error@ == e.error@
                            &&& (match ctx_lookup(old(self).contexts@, e.id) {
                                Some(c) => {
                                    &&& cancel_timer == Some(e.id)
                                    &&& crate::codec::view_opt_bytes(user_context)
                                        == crate::codec::view_opt_bytes(c.user_context)
                                    &&& view_opt_km(final(self).current_incoming) == view_opt_km(
                                        c.prompting_message,
                                    )
                                },
                                None => {
                                    &&& cancel_timer is None
                                    &&& user_context is None
                                    &&& final(self).current_incoming == old(self).current_incoming
                                },
                            })
                        },
                        _ => false,
                    })
                },
            },
    {
        match item {
            QueueItem::Message(km) => {
                let is_req = km.message.is_request();
                if is_req {
                    let (source, message) = match &km.message {
                        Message::Request(req) => {
                            let pruned = prune_caps(
                                &req.capabilities,
                                &km.source.node,
                                &self.our.node,
                                &self.public_key,
                            );
                            let message = Message::Request(
                                Request {
                                    inherit: req.inherit,
                                    expects_response: req.expects_response,
                                    body: clone_bytes(&req.body),
                                    metadata: clone_opt_bytes(&req.metadata),
                                    capabilities: pruned,
                                },
                            );
                            (km.source.clone_address(), message)
                        },
                        Message::Response(_) => {
                            unreached()
                        },
                    };
                    let displaced = match &self.current_incoming {
                        Some(ci) => ci.message.is_request(),
                        None => false,
                    };
                    if displaced {
                        self.nested_request = match &self.current_incoming {
                            Some(ci) => Some(ci.clone_km()),
                            None => None,
                        };
                    }
                    self.last_blob = clone_opt_blob(&km.blob);
                    self.current_incoming = Some(km);
                    Received::Delivered { source, message, user_context: None, cancel_timer: None }
                } else {
                    let (source, message) = match &km.message {
                        Message::Response(resp) => {
                            let pruned = prune_caps(
                                &resp.capabilities,
                                &km.source.node,
                                &self.our.node,
                                &self.public_key,
                            );
                            let message = Message::Response(
                                Response {
                                    inherit: resp.inherit,
                                    body: clone_bytes(&resp.body),
                                    metadata: clone_opt_bytes(&resp.metadata),
                                    capabilities: pruned,
                                },
                            );
                            (km.source.clone_address(), message)
                        },
                        Message::Request(_) => {
                            unreached()
                        },
                    };
                    let ctx = self.contexts_remove(km.id);
                    proof {
                        match ctx {
                            Some(_) => {
                                let i = choose|i: int|
                                    0 <= i < old(self).contexts@.len() && (#[trigger] old(
                                        self,
                                    ).contexts@[i]).id == km.id && ctx == Some(
                                        old(self).contexts@[i].context,
                                    );
                                lemma_ctx_lookup_unique(old(self).contexts@, i, km.id);
                            },
                            None => {
                                lemma_ctx_lookup_none(old(self).contexts@, km.id);
                            },
                        }
                    }
                    self.last_blob = clone_opt_blob(&km.blob);
                    match ctx {
                        Some(c) => {
                            let cancel_timer = Some(km.id);
                            self.current_incoming = match c.prompting_message {
                                Some(pm) => Some(pm),
                                None => Some(km),
                            };
                            Received::Delivered {
                                source,
                                message,
                                user_context: c.user_context,
                                cancel_timer,
                            }
                        },
                        None => {
                            self.current_incoming = Some(km);
                            Received::Delivered {
                                source,
                                message,
                                user_context: None,
                                cancel_timer: None,
                            }
                        },
                    }
                }
            },
            QueueItem::Failure(e) => {
                let ctx = self.contexts_remove(e.id);
                proof {
                    match ctx {
                        Some(_) => {
                            let i = choose|i: int|
                                0 <= i < old(self).contexts@.len() && (#[trigger] old(
                                    self,
                                ).contexts@[i]).id == e.id && ctx == Some(
                                    old(self).contexts@[i].context,
                                );
                            lemma_ctx_lookup_unique(old(self).contexts@, i, e.id);
                        },
                        None => {
                            lemma_ctx_lookup_none(old(self).contexts@, e.id);
                        },
                    }
                }
                match ctx {
                    Some(c) => {
                        self.current_incoming = c.prompting_message;
                        Received::Failed {
                            error: e.error,
                            user_context: c.user_context,
                            cancel_timer: Some(e.id),
                        }
                    },
                    None => Received::Failed {
                        error: e.error,
                        user_context: None,
                        cancel_timer: None,
                    },
                }
            },
        }
    }
}

/// The bare capabilities of a list in transit, signatures dropped.
pub open spec fn strip_caps(caps: Seq<SignedCapView>) -> Seq<CapabilityView> {
    caps.map_values(|c: SignedCapView| c.cap)
}

/// Copy the bare capabilities out of a signed list.
pub fn bare_caps(v: &Vec<SignedCapability>) -> (r: Vec<Capability>)
    ensures
        plain_caps_view(r@) == strip_caps(caps_view(v@)),
{
    let mut out: Vec<Capability> = Vec::new();
    let n: usize = v.len();
    let mut i: usize = 0;
    while i < n
        invariant
            n == v@.len(),
            i <= n,
            out@.len() == i,
            forall|j: int| 0 <= j < i ==> out@[j]@ == v@[j]@.cap,
        decreases n - i,
    {
        out.push(v[i].cap.clone_cap());
        i += 1;
    }
    proof {
        assert(plain_caps_view(out@) =~= strip_caps(caps_view(v@)));
    }
    out
}

/// The request that prompted the instance's current work, if any:
/// the current incoming envelope when it is a request, else the saved
/// nested request when that is one.
pub open spec fn predecessor_of(s: ProcessState) -> Option<KernelMessage> {
    match s.current_incoming {
        Some(ci) => match ci.message {
            Message::Request(_) => Some(ci),
            Message::Response(_) => match s.nested_request {
                Some(nr) => match nr.message {
                    Message::Request(_) => Some(nr),
                    Message::Response(_) => None,
                },
                None => None,
            },
        },
        None => match s.nested_request {
            Some(nr) => match nr.message {
                Message::Request(_) => Some(nr),
                Message::Response(_) => None,
            },
            None => None,
        },
    }
}

/// The id an outgoing request reuses, if any: its predecessor's,
/// when the request inherits and that id is not already outstanding.
pub open spec fn reused_id(s: ProcessState, inherit: bool) -> Option<u64> {
    match predecessor_of(s) {
        Some(p) => if inherit && !contexts_has(s.contexts@, p.id) {
            Some(p.id)
        } else {
            None
        },
        None => None,
    }
}

/// Where the response to an outgoing request should go: to this
/// process when it expects a response; to the prompting request's
/// rsvp when it inherits and the current incoming is a request; else
/// nowhere.
pub open spec fn rsvp_spec(s: ProcessState, expects: Option<u64>, inherit: bool) -> Option<
    AddressView,
> {
    if expects is Some {
        Some(s.our@)
    } else if inherit {
        match s.current_incoming {
            Some(ci) => match ci.message {
                Message::Request(_) => crate::codec::view_opt_address(ci.rsvp),
                Message::Response(_) => None,
            },
            None => None,
        }
    } else {
        None
    }
}

/// Appending an entry for a new id leaves every other lookup alone
/// and makes the new id look up to the new entry.
pub proof fn lemma_ctx_lookup_push(s: Seq<ContextEntry>, e: ContextEntry, id: u64)
    requires
        !contexts_has(s, id),
    ensures
        ctx_lookup(s.push(e), id) == (if e.id == id {
            Some(e.context)
        } else {
            None
        }),
    decreases s.len(),
{
    if s.len() == 0 {
        assert(s.push(e)[0] == e);
        if e.id != id {
            assert(s.push(e).drop_first() =~= s);
            assert(ctx_lookup(s, id) is None);
        }
    } else {
        assert(s[0].id != id) by {
            if s[0].id == id {
                assert(contexts_has(s, id));
            }
        }
        assert(!contexts_has(s.drop_first(), id)) by {
            if contexts_has(s.drop_first(), id) {
                let k = choose|k: int|
                    0 <= k < s.drop_first().len() && (#[trigger] s.drop_first()[k]).id == id;
                assert(s[k + 1] == s.drop_first()[k]);
                assert(s[k + 1].id == id);
            }
        }
        assert(s.push(e)[0] == s[0]);
        assert(s.push(e).drop_first() =~= s.drop_first().push(e));
        lemma_ctx_lookup_push(s.drop_first(), e, id);
        assert(ctx_lookup(s.push(e), id) == ctx_lookup(s.drop_first().push(e), id));
    }
}

/// What a send of a request produces: the envelope to hand to the
/// dispatch loop, and the timeout timer to start, if the request
/// expects a response.
pub struct OutboundRequest {
    pub envelope: KernelMessage,
    pub timer: Option<TimerRequest>,
}

impl ProcessState {
    /// An id with no outstanding context: a random draw retried on
    /// collision, falling back to the smallest free value.
    pub fn fresh_id(&self) -> (r: u64)
        requires
            self.wf(),
            self.contexts@.len() < usize::MAX,
        ensures
            !contexts_has(self.contexts@, r),
    {
        let mut t: usize = 0;
        while t < 16
            invariant
                t <= 16,
            decreases 16 - t,
        {
            let c = rand::random::<u64>();
            if !self.contexts_contains(c) {
                return c;
            }
            t += 1;
        }
        let n: usize = self.contexts.len();
        let mut c: usize = 0;
        while c <= n
            invariant
                self.wf(),
                n == self.contexts@.len(),
                n < usize::MAX,
                c <= n + 1,
                forall|v: u64| v < c ==> contexts_has(self.contexts@, v),
            decreases n + 1 - c,
        {
            if !self.contexts_contains(c as u64) {
                return c as u64;
            }
            c += 1;
        }
        proof {
            broadcast use vstd::seq_lib::seq_to_set_is_finite;

            let entries = self.contexts@;
            let ids = entries.map_values(|e: ContextEntry| e.id as int);
            assert(ids.no_duplicates()) by {
                assert forall|i: int, j: int|
                    0 <= i < ids.len() && 0 <= j < ids.len() && i != j implies ids[i] != ids[j] by {
                    assert(ids[i] == entries[i].id as int);
                    assert(ids[j] == entries[j].id as int);
                }
            }
            ids.unique_seq_to_set();
            let cand = vstd::set_lib::set_int_range(0, n + 1 as int);
            vstd::set_lib::lemma_int_range(0, n + 1 as int);
            assert(cand.subset_of(ids.to_set())) by {
                assert forall|v: int| cand.contains(v) implies ids.to_set().contains(v) by {
                    assert(contexts_has(entries, v as u64));
                    let k = choose|k: int|
                        0 <= k < entries.len() && (#[trigger] entries[k]).id == v as u64;
                    assert(ids[k] == v);
                    assert(ids.contains(v));
                }
            }
            vstd::set_lib::lemma_len_subset(cand, ids.to_set());
        }
        unreached()
    }

    /// Build the envelope for a request this process emits: stamp the
    /// source, filter the attached capabilities to those the sender
    /// holds, resolve blob inheritance, assign the id, compute the
    /// rsvp, and, when a response is expected, record the context and
    /// ask for a timer.
    pub fn send_request(
        &mut self,
        oracle: &CapOracle,
        fake_source: Option<Address>,
        target: Address,
        request: Request,
        new_context: Option<Vec<u8>>,
        blob: Option<LazyLoadBlob>,
    ) -> (r: OutboundRequest)
        requires
            old(self).wf(),
            old(self).contexts@.len() < usize::MAX,
        ensures
            final(self).wf(),
            final(self).our@ == old(self).our@,
            final(self).public_key@ == old(self).public_key@,
            final(self).message_queue@ == old(self).message_queue@,
            final(self).current_incoming == old(self).current_incoming,
            final(self).nested_request == old(self).nested_request,
            final(self).last_blob == old(self).last_blob,
            r.envelope@.source == (match fake_source {
                Some(a) => a@,
                None => old(self).our@,
            }),
            r.envelope@.target == target@,
            r.envelope@.rsvp == rsvp_spec(*old(self), request.expects_response, request.inherit),
            r.envelope@.message == MessageView::Request(
                RequestView {
                    inherit: request.inherit,
                    expects_response: request.expects_response,
                    body: request.body@,
                    metadata: crate::codec::view_opt_bytes(request.metadata),
                    capabilities: filter_caps_spec(
                        oracle.items@,
                        old(self).our@.process,
                        strip_caps(caps_view(request.capabilities@)),
                    ),
                },
            ),
            r.envelope@.blob == (match blob {
                Some(b) => Some(b@),
                None => if request.inherit {
                    crate::codec::view_opt_blob(old(self).last_blob)
                } else {
                    None
                },
            }),
            (match reused_id(*old(self), request.inherit) {
                Some(v) => r.envelope.id == v,
                None => !contexts_has(old(self).contexts@, r.envelope.id),
            }),
            (match request.expects_response {
                Some(t) => {
                    &&& r.timer == Some(TimerRequest { id: r.envelope.id, seconds: t })
                    &&& (forall|x: u64|
                        contexts_has(final(self).contexts@, x) <==> (contexts_has(
                            old(self).contexts@,
                            x,
                        ) || x == r.envelope.id))
                    &&& (match ctx_lookup(final(self).contexts@, r.envelope.id) {
                        Some(c) => view_opt_km(c.prompting_message) == view_opt_km(
                            predecessor_of(*old(self)),
                        ) && c.user_context == new_context,
                        None => false,
                    })
                },
                None => r.timer is None && final(self).contexts@ == old(self).contexts@,
            }),
    {
        let source = match fake_source {
            Some(a) => a,
            None => self.our.clone_address(),
        };
        let pred: Option<KernelMessage> = {
            let from_current = match &self.current_incoming {
                Some(ci) => ci.message.is_request(),
                None => false,
            };
            if from_current {
                match &self.current_incoming {
                    Some(ci) => Some(ci.clone_km()),
                    None => None,
                }
            } else {
                let from_nested = match &self.nested_request {
                    Some(nr) => nr.message.is_request(),
                    None => false,
                };
                if from_nested {
                    match &self.nested_request {
                        Some(nr) => Some(nr.clone_km()),
                        None => None,
                    }
                } else {
                    None
                }
            }
        };
        proof {
            match predecessor_of(*self) {
                Some(p) => {
                    assert(view_opt_km(pred) == Some(p@));
                },
                None => {
                    assert(pred is None);
                },
            }
        }
        let rsvp: Option<Address> = match request.expects_response {
            Some(_) => Some(self.our.clone_address()),
            None => if request.inherit {
                let use_current = match &self.current_incoming {
                    Some(ci) => ci.message.is_request(),
                    None => false,
                };
                if use_current {
                    match &self.current_incoming {
                        Some(ci) => crate::message::clone_opt_address(&ci.rsvp),
                        None => None,
                    }
                } else {
                    None
                }
            } else {
                None
            },
        };
        let offered = bare_caps(&request.capabilities);
        let filtered = oracle.filter_caps(&self.our.process, &offered);
        let resolved_blob: Option<LazyLoadBlob> = match blob {
            Some(b) => Some(b),
            None => if request.inherit {
                clone_opt_blob(&self.last_blob)
            } else {
                None
            },
        };
        let reuse_id: Option<u64> = match &pred {
            Some(p) => if request.inherit && !self.contexts_contains(p.id) {
                Some(p.id)
            } else {
                None
            },
            None => None,
        };
        let id: u64 = match reuse_id {
            Some(v) => v,
            None => self.fresh_id(),
        };
        let timer: Option<TimerRequest> = match request.expects_response {
            Some(t) => {
                self.contexts_insert(
                    id,
                    ProcessContext { prompting_message: pred, user_context: new_context },
                );
                proof {
                    lemma_ctx_lookup_push(
                        old(self).contexts@,
                        self.contexts@[self.contexts@.len() - 1],
                        id,
                    );
                }
                Some(TimerRequest { id, seconds: t })
            },
            None => None,
        };
        let envelope = KernelMessage {
            id,
            source,
            target,
            rsvp,
            message: Message::Request(
                Request {
                    inherit: request.inherit,
                    expects_response: request.expects_response,
                    body: request.body,
                    metadata: request.metadata,
                    capabilities: filtered,
                },
            ),
            blob: resolved_blob,
        };
        proof {
            assert(envelope@.message == MessageView::Request(
                RequestView {
                    inherit: request.inherit,
                    expects_response: request.expects_response,
                    body: request.body@,
                    metadata: crate::codec::view_opt_bytes(request.metadata),
                    capabilities: filter_caps_spec(
                        oracle.items@,
                        old(self).our@.process,
                        strip_caps(caps_view(request.capabilities@)),
                    ),
                },
            ));
        }
        OutboundRequest { envelope, timer }
    }
}

/// The id and destination of a response this instance emits: the
/// current incoming request's id and rsvp (or source, without one);
/// through the nested request when the current incoming is itself a
/// response; nowhere when neither is at hand.
pub open spec fn response_target_spec(s: ProcessState) -> Option<(u64, AddressView)> {
    match s.current_incoming {
        None => None,
        Some(ci) => match ci.message {
            Message::Request(_) => Some(
                (
                    ci.id,
                    match ci.rsvp {
                        None => ci.source@,
                        Some(a) => a@,
                    },
                ),
            ),
            Message::Response(_) => match s.nested_request {
                None => None,
                Some(nr) => Some(
                    (
                        nr.id,
                        match nr.rsvp {
                            None => nr.source@,
                            Some(a) => a@,
                        },
                    ),
                ),
            },
        },
    }
}

impl ProcessState {
    /// Build the envelope for a response this process emits, or
    /// nothing when no incoming request is there to answer: a
    /// response out of turn is dropped.
    pub fn send_response(
        &self,
        oracle: &CapOracle,
        response: Response,
        blob: Option<LazyLoadBlob>,
    ) -> (r: Option<KernelMessage>)
        ensures
            match response_target_spec(*self) {
                None => r is None,
                Some((id, target)) => match r {
                    Some(km) => {
                        &&& km@.id == id
                        &&& km@.source == self.our@
                        &&& km@.target == target
                        &&& km@.rsvp is None
                        &&& km@.message == MessageView::Response(
                            crate::message::ResponseView {
                                inherit: response.inherit,
                                body: response.body@,
                                metadata: crate::codec::view_opt_bytes(response.metadata),
                                capabilities: filter_caps_spec(
                                    oracle.items@,
                                    self.our@.process,
                                    strip_caps(caps_view(response.capabilities@)),
                                ),
                            },
                        )
                        &&& km@.blob == (if response.inherit {
                            crate::codec::view_opt_blob(self.last_blob)
                        } else {
                            crate::codec::view_opt_blob(blob)
                        })
                    },
                    None => false,
                },
            },
    {
        let id_target: Option<(u64, Address)> = {
            let via_current = match &self.current_incoming {
                Some(ci) => ci.message.is_request(),
                None => false,
            };
            if via_current {
                match &self.current_incoming {
                    Some(ci) => {
                        let t = match &ci.rsvp {
                            None => ci.source.clone_address(),
                            Some(a) => a.clone_address(),
                        };
                        Some((ci.id, t))
                    },
                    None => None,
                }
            } else {
                match &self.current_incoming {
                    None => None,
                    Some(_) => match &self.nested_request {
                        None => None,
                        Some(nr) => {
                            let t = match &nr.rsvp {
                                None => nr.source.clone_address(),
                                Some(a) => a.clone_address(),
                            };
                            Some((nr.id, t))
                        },
                    },
                }
            }
        };
        match id_target {
            None => None,
            Some((id, target)) => {
                let resolved_blob: Option<LazyLoadBlob> = if response.inherit {
                    clone_opt_blob(&self.last_blob)
                } else {
                    blob
                };
                let offered = bare_caps(&response.capabilities);
                let filtered = oracle.filter_caps(&self.our.process, &offered);
                Some(
                    KernelMessage {
                        id,
                        source: self.our.clone_address(),
                        target,
                        rsvp: None,
                        message: Message::Response(
                            Response {
                                inherit: response.inherit,
                                body: response.body,
                                metadata: response.metadata,
                                capabilities: filtered,
                            },
                        ),
                        blob: resolved_blob,
                    },
                )
            },
        }
    }
}

/// The canonical boot command body: the bytes of `run`.
pub open spec fn run_body() -> Seq<u8> {
    seq![114u8, 117u8, 110u8]
}

/// The envelope that takes a pre-boot process to running: a bare
/// request with body `run` from the kernel process itself.
pub open spec fn is_run_message(km: KernelMessage, kernel: Address) -> bool {
    km.source@ == kernel@ && match km.message {
        Message::Request(q) => q.inherit == false && q.expects_response is None && q.body@
            == run_body() && q.metadata is None && q.capabilities@.len() == 0,
        Message::Response(_) => false,
    }
}

/// What the boot gate does with an item that arrives before the
/// process runs: the run command starts it; everything else waits in
/// the holding buffer.
pub enum BootGate {
    Run,
    Hold(QueueItem),
}

/// Classify a pre-boot arrival. Errors and ordinary messages are
/// held in arrival order; only the kernel's run command boots.
pub fn boot_gate(item: QueueItem, kernel: &Address) -> (r: BootGate)
    ensures
        match item {
            QueueItem::Message(km) => if is_run_message(km, *kernel) {
                r is Run
            } else {
                r == BootGate::Hold(item)
            },
            QueueItem::Failure(_) => r == BootGate::Hold(item),
        },
{
    let run = match &item {
        QueueItem::Message(km) => {
            if km.source.eq_address(kernel) {
                match &km.message {
                    Message::Request(q) => {
                        let body_is_run = q.body.len() == 3 && {
                            let b0 = q.body[0];
                            let b1 = q.body[1];
                            let b2 = q.body[2];
                            b0 == 114 && b1 == 117 && b2 == 110
                        };
                        let no_extras = !q.inherit && q.expects_response.is_none()
                            && q.metadata.is_none() && q.capabilities.len() == 0;
                        proof {
                            if q.body@.len() == 3 && q.body@[0] == 114 && q.body@[1] == 117
                                && q.body@[2] == 110 {
                                assert(q.body@ =~= run_body());
                            }
                        }
                        body_is_run && no_extras
                    },
                    Message::Response(_) => false,
                }
            } else {
                false
            }
        },
        QueueItem::Failure(_) => false,
    };
    if run {
        BootGate::Run
    } else {
        BootGate::Hold(item)
    }
}

impl ProcessState {
    /// Replay the pre-boot holding buffer into the inbox, in arrival
    /// order, when the process transitions to running.
    pub fn replay(&mut self, buffer: Vec<QueueItem>)
        ensures
            final(self).message_queue@ == old(self).message_queue@ + buffer@,
            final(self).contexts@ == old(self).contexts@,
            final(self).our@ == old(self).our@,
            final(self).public_key@ == old(self).public_key@,
            final(self).current_incoming == old(self).current_incoming,
            final(self).nested_request == old(self).nested_request,
            final(self).last_blob == old(self).last_blob,
    {
        let mut rest = buffer;
        let ghost all = rest@;
        let ghost mut taken: int = 0;
        while rest.len() > 0
            invariant
                0 <= taken <= all.len(),
                rest@ == all.skip(taken),
                self.message_queue@ == old(self).message_queue@ + all.take(taken),
                self.contexts@ == old(self).contexts@,
                self.our@ == old(self).our@,
                self.public_key@ == old(self).public_key@,
                self.current_incoming == old(self).current_incoming,
                self.nested_request == old(self).nested_request,
                self.last_blob == old(self).last_blob,
            decreases rest@.len(),
    {
            let item = rest.remove(0);
            proof {
                assert(all.skip(taken)[0] == all[taken]);
            }
            self.deliver(item);
            proof {
                assert(rest@ =~= all.skip(taken + 1));
                assert(old(self).message_queue@ + all.take(taken + 1) =~= (old(
                    self,
                ).message_queue@ + all.take(taken)).push(all[taken]));
            }
            proof {
                taken = taken + 1;
            }
        }
        proof {
            assert(all.take(taken) =~= all);
        }
    }
}

/// A request a process asks to have fired on its behalf when it
/// exits.
pub struct OnExitRequest {
    pub target: Address,
    pub request: Request,
    pub blob: Option<LazyLoadBlob>,
}

/// What a process wants done when it exits: nothing beyond removal,
/// a restart with the same record, or a set of farewell requests.
pub enum OnExit {
    Quit,
    Restart,
    Requests(Vec<OnExitRequest>),
}

/// One step of exit enactment for the kernel to perform.
pub enum ExitAction {
    /// Drop the process record and its capabilities.
    RemoveProcess,
    /// Re-initialize the process with the same record and these
    /// capabilities, and run it again.
    Reinitialize { capabilities: Vec<SignedCapability> },
    /// Fire one farewell request.
    Emit { target: Address, request: Request, blob: Option<LazyLoadBlob> },
}

/// The messaging token for a target address.
pub open spec fn messaging_cap_view(target: AddressView) -> CapabilityView {
    CapabilityView { issuer: target, params: crate::caps::messaging_params() }
}

/// The farewell requests that actually go out: those whose sender
/// holds a messaging capability to the target, in order, each with
/// its response expectation cleared. Even in death, a process can
/// only message processes it has capabilities for.
pub open spec fn exit_requests_spec(
    items: Seq<crate::oracle::LedgerItem>,
    sender: ProcessIdView,
    reqs: Seq<OnExitRequest>,
) -> Seq<(AddressView, RequestView, Option<crate::message::BlobView>)>
    decreases reqs.len(),
{
    if reqs.len() == 0 {
        Seq::empty()
    } else {
        (if crate::oracle::ledger_holds(items, sender, messaging_cap_view(reqs[0].target@)) {
            seq![
                (
                    reqs[0].target@,
                    RequestView { expects_response: None, ..reqs[0].request@ },
                    crate::codec::view_opt_blob(reqs[0].blob),
                ),
            ]
        } else {
            Seq::empty()
        }) + exit_requests_spec(items, sender, reqs.drop_first())
    }
}

/// Enact an exit policy: always remove the record; then, for a clean
/// restart, re-initialize with the capabilities on file; or fire the
/// farewell requests the sender is entitled to. A crashed process
/// with a restart policy is not restarted.
pub fn on_exit_actions(
    oracle: &CapOracle,
    our: &Address,
    on_exit: OnExit,
    is_error: bool,
) -> (r: Vec<ExitAction>)
    ensures
        r@.len() >= 1,
        r@[0] is RemoveProcess,
        on_exit is Quit ==> r@.len() == 1,
        on_exit is Restart && is_error ==> r@.len() == 1,
        on_exit is Restart && !is_error ==> r@.len() == 2 && r@[1] is Reinitialize && caps_view(
            r@[1]->Reinitialize_capabilities@,
        ) == crate::oracle::all_of(oracle.items@, our@.process),
        on_exit matches OnExit::Requests(reqs) ==> {
            let planned = exit_requests_spec(oracle.items@, our@.process, reqs@);
            &&& r@.len() == 1 + planned.len()
            &&& (forall|j: int|
                0 <= j < planned.len() ==> (#[trigger] r@[j + 1]) is Emit && r@[j
                    + 1]->Emit_target@ == planned[j].0 && r@[j + 1]->Emit_request@ == planned[j].1
                    && crate::codec::view_opt_blob(r@[j + 1]->Emit_blob) == planned[j].2)
        },
{
    let mut out: Vec<ExitAction> = Vec::new();
    out.push(ExitAction::RemoveProcess);
    match on_exit {
        OnExit::Quit => out,
        OnExit::Restart => {
            if !is_error {
                let capabilities = oracle.get_all(&our.process);
                out.push(ExitAction::Reinitialize { capabilities });
            }
            out
        },
        OnExit::Requests(reqs) => {
            let n: usize = reqs.len();
            let mut i: usize = 0;
            let ghost mut done: Seq<(AddressView, RequestView, Option<crate::message::BlobView>)> =
                Seq::empty();
            proof {
                assert(reqs@.skip(0) =~= reqs@);
                assert(done + exit_requests_spec(oracle.items@, our@.process, reqs@)
                    =~= exit_requests_spec(oracle.items@, our@.process, reqs@));
            }
            while i < n
                invariant
                    n == reqs@.len(),
                    i <= n,
                    out@.len() == 1 + done.len(),
                    out@[0] is RemoveProcess,
                    exit_requests_spec(oracle.items@, our@.process, reqs@) == done
                        + exit_requests_spec(oracle.items@, our@.process, reqs@.skip(i as int)),
                    forall|j: int|
                        0 <= j < done.len() ==> (#[trigger] out@[j + 1]) is Emit && out@[j
                            + 1]->Emit_target@ == done[j].0 && out@[j + 1]->Emit_request@
                            == done[j].1 && crate::codec::view_opt_blob(out@[j + 1]->Emit_blob)
                            == done[j].2,
                decreases n - i,
            {
                let entry = &reqs[i];
                let ghost tail = reqs@.skip(i as int);
                proof {
                    assert(tail[0] == reqs@[i as int]);
                    assert(tail.drop_first() =~= reqs@.skip(i + 1));
                }
                let cap = Capability {
                    issuer: entry.target.clone_address(),
                    params: crate::caps::make_messaging_params(),
                };
                let allowed = oracle.has(&our.process, &cap);
                proof {
                    assert(cap@ =~= messaging_cap_view(reqs@[i as int].target@));
                }
                if allowed {
                    let request = Request {
                        inherit: entry.request.inherit,
                        expects_response: None,
                        body: clone_bytes(&entry.request.body),
                        metadata: clone_opt_bytes(&entry.request.metadata),
                        capabilities: crate::message::clone_signed_caps(
                            &entry.request.capabilities,
                        ),
                    };
                    proof {
                        crate::message::lemma_caps_view_eq(
                            request.capabilities@,
                            reqs@[i as int].request.capabilities@,
                        );
                        assert(request@ =~= RequestView {
                            expects_response: None,
                            ..reqs@[i as int].request@
                        });
                    }
                    let blob = clone_opt_blob(&entry.blob);
                    out.push(
                        ExitAction::Emit { target: entry.target.clone_address(), request, blob },
                    );
                    proof {
                        let e = (
                            reqs@[i as int].target@,
                            RequestView { expects_response: None, ..reqs@[i as int].request@ },
                            crate::codec::view_opt_blob(reqs@[i as int].blob),
                        );
                        assert(done + (seq![e] + exit_requests_spec(
                            oracle.items@,
                            our@.process,
                            reqs@.skip(i + 1),
                        )) =~= done.push(e) + exit_requests_spec(
                            oracle.items@,
                            our@.process,
                            reqs@.skip(i + 1),
                        ));
                        done = done.push(e);
                    }
                } else {
                    proof {
                        assert(done + (Seq::<
                            (AddressView, RequestView, Option<crate::message::BlobView>),
                        >::empty() + exit_requests_spec(
                            oracle.items@,
                            our@.process,
                            reqs@.skip(i + 1),
                        )) =~= done + exit_requests_spec(
                            oracle.items@,
                            our@.process,
                            reqs@.skip(i + 1),
                        ));
                    }
                }
                i += 1;
            }
            proof {
                assert(reqs@.skip(n as int) =~= Seq::<OnExitRequest>::empty());
                assert(done + Seq::<
                    (AddressView, RequestView, Option<crate::message::BlobView>),
                >::empty() =~= done);
            }
            out
        },
    }
}

} // verus!
