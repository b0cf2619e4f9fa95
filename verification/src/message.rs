//! The typed message envelope: requests, responses, capabilities in
//! transit, blobs, send errors, and the kernel message that carries
//! them between two addresses.

use vstd::prelude::*;
use crate::ids::{Address, AddressView, clone_bytes};

verus! {

/// Optional lazily-loaded bytes attached to an envelope, independent
/// of the message body.
pub struct LazyLoadBlob {
    pub mime: Option<Vec<u8>>,
    pub bytes: Vec<u8>,
}

#[verifier::ext_equal]
pub struct BlobView {
    pub mime: Option<Seq<u8>>,
    pub bytes: Seq<u8>,
}

impl View for LazyLoadBlob {
    type V = BlobView;

    open spec fn view(&self) -> BlobView {
        BlobView {
            mime: match self.mime {
                Some(m) => Some(m@),
                None => None,
            },
            bytes: self.bytes@,
        }
    }
}

/// An authority token: the address that issued it and an opaque
/// parameter byte string, compared byte-for-byte.
pub struct Capability {
    pub issuer: Address,
    pub params: Vec<u8>,
}

#[verifier::ext_equal]
pub struct CapabilityView {
    pub issuer: AddressView,
    pub params: Seq<u8>,
}

impl View for Capability {
    type V = CapabilityView;

    open spec fn view(&self) -> CapabilityView {
        CapabilityView { issuer: self.issuer@, params: self.params@ }
    }
}

/// A capability in transit, paired with the issuer node's signature
/// over the canonical encoding of the capability.
pub struct SignedCapability {
    pub cap: Capability,
    pub sig: Vec<u8>,
}

#[verifier::ext_equal]
pub struct SignedCapView {
    pub cap: CapabilityView,
    pub sig: Seq<u8>,
}

impl View for SignedCapability {
    type V = SignedCapView;

    open spec fn view(&self) -> SignedCapView {
        SignedCapView { cap: self.cap@, sig: self.sig@ }
    }
}

/// A request: may expect a response within a timeout in seconds, may
/// inherit its predecessor's id, rsvp and blob, and may attach
/// capabilities.
pub struct Request {
    pub inherit: bool,
    pub expects_response: Option<u64>,
    pub body: Vec<u8>,
    pub metadata: Option<Vec<u8>>,
    pub capabilities: Vec<SignedCapability>,
}

#[verifier::ext_equal]
pub struct RequestView {
    pub inherit: bool,
    pub expects_response: Option<u64>,
    pub body: Seq<u8>,
    pub metadata: Option<Seq<u8>>,
    pub capabilities: Seq<SignedCapView>,
}

impl View for Request {
    type V = RequestView;

    open spec fn view(&self) -> RequestView {
        RequestView {
            inherit: self.inherit,
            expects_response: self.expects_response,
            body: self.body@,
            metadata: match self.metadata {
                Some(m) => Some(m@),
                None => None,
            },
            capabilities: self.capabilities@.map_values(|c: SignedCapability| c@),
        }
    }
}

/// A response to an earlier request.
pub struct Response {
    pub inherit: bool,
    pub body: Vec<u8>,
    pub metadata: Option<Vec<u8>>,
    pub capabilities: Vec<SignedCapability>,
}

#[verifier::ext_equal]
pub struct ResponseView {
    pub inherit: bool,
    pub body: Seq<u8>,
    pub metadata: Option<Seq<u8>>,
    pub capabilities: Seq<SignedCapView>,
}

impl View for Response {
    type V = ResponseView;

    open spec fn view(&self) -> ResponseView {
        ResponseView {
            inherit: self.inherit,
            body: self.body@,
            metadata: match self.metadata {
                Some(m) => Some(m@),
                None => None,
            },
            capabilities: self.capabilities@.map_values(|c: SignedCapability| c@),
        }
    }
}

/// A message is either a request or a response.
pub enum Message {
    Request(Request),
    Response(Response),
}

#[verifier::ext_equal]
pub enum MessageView {
    Request(RequestView),
    Response(ResponseView),
}

impl View for Message {
    type V = MessageView;

    open spec fn view(&self) -> MessageView {
        match self {
            Message::Request(r) => MessageView::Request(r@),
            Message::Response(r) => MessageView::Response(r@),
        }
    }
}

/// The on-wire unit: an identified message from a source address to a
/// target address, with optional response routing and blob.
pub struct KernelMessage {
    pub id: u64,
    pub source: Address,
    pub target: Address,
    pub rsvp: Option<Address>,
    pub message: Message,
    pub blob: Option<LazyLoadBlob>,
}

#[verifier::ext_equal]
pub struct KernelMessageView {
    pub id: u64,
    pub source: AddressView,
    pub target: AddressView,
    pub rsvp: Option<AddressView>,
    pub message: MessageView,
    pub blob: Option<BlobView>,
}

impl View for KernelMessage {
    type V = KernelMessageView;

    open spec fn view(&self) -> KernelMessageView {
        KernelMessageView {
            id: self.id,
            source: self.source@,
            target: self.target@,
            rsvp: match self.rsvp {
                Some(a) => Some(a@),
                None => None,
            },
            message: self.message@,
            blob: match self.blob {
                Some(b) => Some(b@),
                None => None,
            },
        }
    }
}

/// Why a send failed: the target was unreachable, the await timed out,
/// or the sender lacked the capability to address the target.
#[derive(PartialEq, Eq, Structural, Clone, Copy, Debug)]
pub enum SendErrorKind {
    Offline,
    Timeout,
    Denied,
}

/// A failed send, delivered back into the sender's inbox as a
/// synthetic envelope.
pub struct SendError {
    pub kind: SendErrorKind,
    pub target: Address,
    pub message: Message,
    pub blob: Option<LazyLoadBlob>,
}

#[verifier::ext_equal]
pub struct SendErrorView {
    pub kind: SendErrorKind,
    pub target: AddressView,
    pub message: MessageView,
    pub blob: Option<BlobView>,
}

impl View for SendError {
    type V = SendErrorView;

    open spec fn view(&self) -> SendErrorView {
        SendErrorView {
            kind: self.kind,
            target: self.target@,
            message: self.message@,
            blob: match self.blob {
                Some(b) => Some(b@),
                None => None,
            },
        }
    }
}

/// A send error tagged with the id of the request it answers and the
/// address it came back from.
pub struct WrappedSendError {
    pub id: u64,
    pub source: Address,
    pub error: SendError,
}

#[verifier::ext_equal]
pub struct WrappedSendErrorView {
    pub id: u64,
    pub source: AddressView,
    pub error: SendErrorView,
}

impl View for WrappedSendError {
    type V = WrappedSendErrorView;

    open spec fn view(&self) -> WrappedSendErrorView {
        WrappedSendErrorView { id: self.id, source: self.source@, error: self.error@ }
    }
}

pub fn clone_opt_bytes(v: &Option<Vec<u8>>) -> (r: Option<Vec<u8>>)
    ensures
        r is Some <==> v is Some,
        r is Some ==> r.unwrap()@ == v.unwrap()@,
{
    match v {
        Some(b) => Some(clone_bytes(b)),
        None => None,
    }
}

impl LazyLoadBlob {
    pub fn clone_blob(&self) -> (r: LazyLoadBlob)
        ensures
            r@ == self@,
    {
        let r = LazyLoadBlob { mime: clone_opt_bytes(&self.mime), bytes: clone_bytes(&self.bytes) };
        proof {
            assert(r@ =~= self@);
        }
        r
    }
}

pub fn clone_opt_blob(v: &Option<LazyLoadBlob>) -> (r: Option<LazyLoadBlob>)
    ensures
        r is Some <==> v is Some,
        r is Some ==> r.unwrap()@ == v.unwrap()@,
{
    match v {
        Some(b) => Some(b.clone_blob()),
        None => None,
    }
}

impl Capability {
    pub fn clone_cap(&self) -> (r: Capability)
        ensures
            r@ == self@,
    {
        let r = Capability { issuer: self.issuer.clone_address(), params: clone_bytes(&self.params) };
        proof {
            assert(r@ =~= self@);
        }
        r
    }

    /// Byte-for-byte equality of issuer and params.
    pub fn eq_cap(&self, other: &Capability) -> (r: bool)
        ensures
            r == (self@ == other@),
    {
        let r = self.issuer.eq_address(&other.issuer) && crate::bytes_eq(&self.params, &other.params);
        proof {
            if r {
                assert(self@ =~= other@);
            }
        }
        r
    }
}

impl SignedCapability {
    pub fn clone_signed(&self) -> (r: SignedCapability)
        ensures
            r@ == self@,
    {
        let r = SignedCapability { cap: self.cap.clone_cap(), sig: clone_bytes(&self.sig) };
        proof {
            assert(r@ =~= self@);
        }
        r
    }
}

pub fn clone_signed_caps(v: &Vec<SignedCapability>) -> (r: Vec<SignedCapability>)
    ensures
        r@.len() == v@.len(),
        forall|j: int| 0 <= j < v@.len() ==> r@[j]@ == v@[j]@,
{
    let mut out: Vec<SignedCapability> = Vec::new();
    let n: usize = v.len();
    let mut i: usize = 0;
    while i < n
        invariant
            n == v@.len(),
            i <= n,
            out@.len() == i,
            forall|j: int| 0 <= j < i ==> out@[j]@ == v@[j]@,
        decreases n - i,
    {
        out.push(v[i].clone_signed());
        i += 1;
    }
    out
}

/// The models of a vector of signed capabilities.
pub open spec fn caps_view(s: Seq<SignedCapability>) -> Seq<SignedCapView> {
    s.map_values(|c: SignedCapability| c@)
}

pub proof fn lemma_caps_view_push(s: Seq<SignedCapability>, c: SignedCapability)
    ensures
        caps_view(s.push(c)) == caps_view(s).push(c@),
{
    assert forall|j: int| 0 <= j < s.len() + 1 implies caps_view(s.push(c))[j] == caps_view(
        s,
    ).push(c@)[j] by {
        assert(caps_view(s.push(c))[j] == s.push(c)[j]@);
        if j < s.len() {
            assert(caps_view(s)[j] == s[j]@);
        }
    }
    assert(caps_view(s.push(c)) =~= caps_view(s).push(c@));
}

pub proof fn lemma_caps_view_eq(a: Seq<SignedCapability>, b: Seq<SignedCapability>)
    requires
        a.len() == b.len(),
        forall|j: int| 0 <= j < a.len() ==> a[j]@ == b[j]@,
    ensures
        a.map_values(|c: SignedCapability| c@) == b.map_values(|c: SignedCapability| c@),
{
    assert(a.map_values(|c: SignedCapability| c@) =~= b.map_values(|c: SignedCapability| c@));
}

impl Request {
    pub fn clone_request(&self) -> (r: Request)
        ensures
            r@ == self@,
    {
        let r = Request {
            inherit: self.inherit,
            expects_response: self.expects_response,
            body: clone_bytes(&self.body),
            metadata: clone_opt_bytes(&self.metadata),
            capabilities: clone_signed_caps(&self.capabilities),
        };
        proof {
            lemma_caps_view_eq(r.capabilities@, self.capabilities@);
            assert(r@ =~= self@);
        }
        r
    }
}

impl Response {
    pub fn clone_response(&self) -> (r: Response)
        ensures
            r@ == self@,
    {
        let r = Response {
            inherit: self.inherit,
            body: clone_bytes(&self.body),
            metadata: clone_opt_bytes(&self.metadata),
            capabilities: clone_signed_caps(&self.capabilities),
        };
        proof {
            lemma_caps_view_eq(r.capabilities@, self.capabilities@);
            assert(r@ =~= self@);
        }
        r
    }
}

impl Message {
    pub fn clone_message(&self) -> (r: Message)
        ensures
            r@ == self@,
    {
        match self {
            Message::Request(q) => Message::Request(q.clone_request()),
            Message::Response(p) => Message::Response(p.clone_response()),
        }
    }

    /// Whether this message is a request.
    pub fn is_request(&self) -> (r: bool)
        ensures
            r == (self@ is Request),
    {
        match self {
            Message::Request(_) => true,
            Message::Response(_) => false,
        }
    }
}

pub fn clone_opt_address(v: &Option<Address>) -> (r: Option<Address>)
    ensures
        r is Some <==> v is Some,
        r is Some ==> r.unwrap()@ == v.unwrap()@,
{
    match v {
        Some(a) => Some(a.clone_address()),
        None => None,
    }
}

impl KernelMessage {
    pub fn clone_km(&self) -> (r: KernelMessage)
        ensures
            r@ == self@,
    {
        let r = KernelMessage {
            id: self.id,
            source: self.source.clone_address(),
            target: self.target.clone_address(),
            rsvp: clone_opt_address(&self.rsvp),
            message: self.message.clone_message(),
            blob: clone_opt_blob(&self.blob),
        };
        proof {
            assert(r@ =~= self@);
        }
        r
    }
}

} // verus!
