//! The persistent-state service: a durable key-value store of process
//! records and per-process opaque state, keyed by the BLAKE3 digest of
//! the owning process id. The store itself lives behind the host; the
//! service's parsing, keying, decisions and replies are verified, as
//! is the bootstrap that populates the process map from package
//! manifests.

use vstd::prelude::*;
use crate::caps::{
    drive_path, make_drive_path, make_kind_drive_params, make_messaging_params,
    make_network_params, messaging_params, network_params, read_params, write_params,
};
use crate::codec::{enc_pid, parse_pid, put_pid, take_pid, view_opt_bytes};
use crate::crypto::{blake3_of, pid_hash};
use crate::ids::{
    clone_bytes, pid_bytes, push_bytes, Address, AddressView, PackageId, ProcessId, ProcessIdView,
};
use crate::message::{
    caps_view, Capability, CapabilityView, KernelMessage, LazyLoadBlob, Message, Request, Response,
    SignedCapability,
};
use crate::process::OnExit;

verus! {

/// What a process may ask of the state service.
pub enum StateAction {
    SetState(ProcessId),
    GetState(ProcessId),
    DeleteState(ProcessId),
    Backup,
}

/// Mathematical model of a state action.
#[verifier::ext_equal]
pub enum StateActionView {
    SetState(ProcessIdView),
    GetState(ProcessIdView),
    DeleteState(ProcessIdView),
    Backup,
}

impl View for StateAction {
    type V = StateActionView;

    open spec fn view(&self) -> StateActionView {
        match self {
            StateAction::SetState(p) => StateActionView::SetState(p@),
            StateAction::GetState(p) => StateActionView::GetState(p@),
            StateAction::DeleteState(p) => StateActionView::DeleteState(p@),
            StateAction::Backup => StateActionView::Backup,
        }
    }
}

/// The service's successful answers.
#[derive(PartialEq, Eq, Structural, Clone, Copy)]
pub enum StateResponse {
    SetState,
    GetState,
    DeleteState,
    Backup,
}

/// The service's errors, each tagged with what went wrong.
#[derive(Debug)]
pub enum StateError {
    /// No state is stored for this process.
    NotFound,
    /// The envelope was not a request.
    BadRequest,
    /// The request body did not parse as a state action.
    BadJson,
    /// The action needed a payload and none was attached.
    BadBytes,
    /// The store itself failed; its own words are carried along.
    StoreError { error: Vec<u8> },
}

/// Wire form of a state action: a variant tag, then the process id
/// for the variants that carry one.
pub open spec fn enc_state_action(a: StateActionView) -> Seq<u8> {
    match a {
        StateActionView::SetState(p) => seq![0u8] + enc_pid(p),
        StateActionView::GetState(p) => seq![1u8] + enc_pid(p),
        StateActionView::DeleteState(p) => seq![2u8] + enc_pid(p),
        StateActionView::Backup => seq![3u8],
    }
}

/// The parse of a state action body; the whole body must be consumed.
pub open spec fn parse_state_action(s: Seq<u8>) -> Option<StateActionView> {
    if s.len() < 1 {
        None
    } else if s[0] == 3 {
        if s.len() == 1 {
            Some(StateActionView::Backup)
        } else {
            None
        }
    } else if s[0] <= 2 {
        match parse_pid(s, 1) {
            None => None,
            Some((p, p2)) => if p2 == s.len() {
                if s[0] == 0 {
                    Some(StateActionView::SetState(p))
                } else if s[0] == 1 {
                    Some(StateActionView::GetState(p))
                } else {
                    Some(StateActionView::DeleteState(p))
                }
            } else {
                None
            },
        }
    } else {
        None
    }
}

/// Encode a state action for the wire.
pub fn put_state_action(out: &mut Vec<u8>, a: &StateAction)
    ensures
        final(out)@ == old(out)@ + enc_state_action(a@),
{
    match a {
        StateAction::SetState(p) => {
            out.push(0);
            put_pid(out, p);
        },
        StateAction::GetState(p) => {
            out.push(1);
            put_pid(out, p);
        },
        StateAction::DeleteState(p) => {
            out.push(2);
            put_pid(out, p);
        },
        StateAction::Backup => {
            out.push(3);
        },
    }
    proof {
        assert(out@ =~= old(out)@ + enc_state_action(a@));
    }
}

/// Decode a state action body; mirrors `parse_state_action`.
pub fn take_state_action(b: &Vec<u8>) -> (r: Option<StateAction>)
    ensures
        match r {
            Some(a) => parse_state_action(b@) == Some(a@),
            None => parse_state_action(b@) is None,
        },
{
    if b.len() < 1 {
        return None;
    }
    let tag = b[0];
    if tag == 3 {
        if b.len() == 1 {
            Some(StateAction::Backup)
        } else {
            None
        }
    } else if tag <= 2 {
        match take_pid(b, 1) {
            None => None,
            Some((p, p2)) => {
                if p2 == b.len() {
                    if tag == 0 {
                        Some(StateAction::SetState(p))
                    } else if tag == 1 {
                        Some(StateAction::GetState(p))
                    } else {
                        Some(StateAction::DeleteState(p))
                    }
                } else {
                    None
                }
            },
        }
    } else {
        None
    }
}

/// Wire form of the service's reply body: a tag for each success, and
/// an error tag followed by the error's own tag and words.
pub open spec fn enc_state_reply(r: Result<StateResponse, StateError>) -> Seq<u8> {
    match r {
        Result::Ok(StateResponse::SetState) => seq![0u8],
        Result::Ok(StateResponse::GetState) => seq![1u8],
        Result::Ok(StateResponse::DeleteState) => seq![2u8],
        Result::Ok(StateResponse::Backup) => seq![3u8],
        Result::Err(StateError::NotFound) => seq![4u8, 0u8],
        Result::Err(StateError::BadRequest) => seq![4u8, 1u8],
        Result::Err(StateError::BadJson) => seq![4u8, 2u8],
        Result::Err(StateError::BadBytes) => seq![4u8, 3u8],
        Result::Err(StateError::StoreError { error }) => seq![4u8, 4u8] + error@,
    }
}

/// Encode the service's reply body.
pub fn encode_state_reply(r: &Result<StateResponse, StateError>) -> (out: Vec<u8>)
    ensures
        out@ == enc_state_reply(*r),
{
    let mut out: Vec<u8> = Vec::new();
    match r {
        Result::Ok(StateResponse::SetState) => out.push(0),
        Result::Ok(StateResponse::GetState) => out.push(1),
        Result::Ok(StateResponse::DeleteState) => out.push(2),
        Result::Ok(StateResponse::Backup) => out.push(3),
        Result::Err(StateError::NotFound) => {
            out.push(4);
            out.push(0);
        },
        Result::Err(StateError::BadRequest) => {
            out.push(4);
            out.push(1);
        },
        Result::Err(StateError::BadJson) => {
            out.push(4);
            out.push(2);
        },
        Result::Err(StateError::BadBytes) => {
            out.push(4);
            out.push(3);
        },
        Result::Err(StateError::StoreError { error }) => {
            out.push(4);
            out.push(4);
            push_bytes(&mut out, error);
        },
    }
    proof {
        assert(out@ =~= enc_state_reply(*r));
    }
    out
}

/// The store operation the host must run for an action.
pub enum DbOp {
    Put { key: Vec<u8>, value: Vec<u8> },
    Get { key: Vec<u8> },
    Delete { key: Vec<u8> },
    Checkpoint,
}

/// What the host's store run came back with.
pub enum DbResult {
    /// The write, delete or checkpoint went through. Deleting an
    /// absent key also reports this: deletion is idempotent.
    Done,
    /// The read found this value.
    Found(Vec<u8>),
    /// The read found nothing.
    Absent,
    /// The store failed in its own words.
    Failed(Vec<u8>),
}

/// Plan the store operation for a parsed action: state writes need
/// the attached payload and are keyed, like reads and deletes, by the
/// digest of the process id.
pub fn plan_state_action(action: &StateAction, payload: &Option<LazyLoadBlob>) -> (r: Result<
    DbOp,
    StateError,
>)
    ensures
        match *action {
            StateAction::SetState(_) => match *payload {
                Some(_) => r is Ok,
                None => r == Result::<DbOp, StateError>::Err(StateError::BadBytes),
            },
            _ => r is Ok,
        },
        r is Ok ==> match *action {
            StateAction::SetState(ref p) => r->Ok_0 is Put && r->Ok_0->Put_key@ == blake3_of(
                pid_bytes(p@),
            ) && Some(r->Ok_0->Put_value@) == (match *payload {
                Some(ref b) => Some(b.bytes@),
                None => None,
            }),
            StateAction::GetState(ref p) => r->Ok_0 is Get && r->Ok_0->Get_key@ == blake3_of(
                pid_bytes(p@),
            ),
            StateAction::DeleteState(ref p) => r->Ok_0 is Delete && r->Ok_0->Delete_key@
                == blake3_of(pid_bytes(p@)),
            StateAction::Backup => r->Ok_0 is Checkpoint,
        },
{
    match action {
        StateAction::SetState(p) => {
            let key = pid_hash(p);
            match payload {
                Some(b) => Result::Ok(DbOp::Put { key, value: clone_bytes(&b.bytes) }),
                None => Result::Err(StateError::BadBytes),
            }
        },
        StateAction::GetState(p) => Result::Ok(DbOp::Get { key: pid_hash(p) }),
        StateAction::DeleteState(p) => Result::Ok(DbOp::Delete { key: pid_hash(p) }),
        StateAction::Backup => Result::Ok(DbOp::Checkpoint),
    }
}

/// Turn the store's outcome into the service's reply: a found value
/// rides back as the response payload; a missing read is NotFound; a
/// store failure carries the store's words; deletion succeeds whether
/// or not the key existed.
pub fn state_reply_of(action: &StateAction, outcome: DbResult) -> (r: (
    Result<StateResponse, StateError>,
    Option<Vec<u8>>,
))
    ensures
        match outcome {
            DbResult::Failed(e) => r.0 == Result::<StateResponse, StateError>::Err(
                StateError::StoreError { error: e },
            ) && r.1 is None,
            DbResult::Done => r.1 is None && (match *action {
                StateAction::SetState(_) => r.0 == Result::<StateResponse, StateError>::Ok(
                    StateResponse::SetState,
                ),
                StateAction::DeleteState(_) => r.0 == Result::<StateResponse, StateError>::Ok(
                    StateResponse::DeleteState,
                ),
                StateAction::Backup => r.0 == Result::<StateResponse, StateError>::Ok(
                    StateResponse::Backup,
                ),
                StateAction::GetState(_) => r.0 == Result::<StateResponse, StateError>::Err(
                    StateError::BadRequest,
                ),
            }),
            DbResult::Found(v) => match *action {
                StateAction::GetState(_) => r.0 == Result::<StateResponse, StateError>::Ok(
                    StateResponse::GetState,
                ) && r.1 == Some(v),
                _ => r.0 == Result::<StateResponse, StateError>::Err(StateError::BadRequest)
                    && r.1 is None,
            },
            DbResult::Absent => r.1 is None && (match *action {
                StateAction::GetState(_) => r.0 == Result::<StateResponse, StateError>::Err(
                    StateError::NotFound,
                ),
                _ => r.0 == Result::<StateResponse, StateError>::Err(StateError::BadRequest),
            }),
        },
{
    match outcome {
        DbResult::Failed(e) => (Result::Err(StateError::StoreError { error: e }), None),
        DbResult::Done => match action {
            StateAction::SetState(_) => (Result::Ok(StateResponse::SetState), None),
            StateAction::DeleteState(_) => (Result::Ok(StateResponse::DeleteState), None),
            StateAction::Backup => (Result::Ok(StateResponse::Backup), None),
            StateAction::GetState(_) => (Result::Err(StateError::BadRequest), None),
        },
        DbResult::Found(v) => match action {
            StateAction::GetState(_) => (Result::Ok(StateResponse::GetState), Some(v)),
            _ => (Result::Err(StateError::BadRequest), None),
        },
        DbResult::Absent => match action {
            StateAction::GetState(_) => (Result::Err(StateError::NotFound), None),
            _ => (Result::Err(StateError::BadRequest), None),
        },
    }
}

/// Take a state request apart: reject non-requests, parse the body
/// into an action, and plan the store operation. Each error comes
/// exactly from its cause: `BadRequest` for a response envelope,
/// `BadJson` for an unparseable body, `BadBytes` for a write without
/// payload.
pub fn state_request_plan(km: &KernelMessage) -> (r: Result<(StateAction, DbOp), StateError>)
    ensures
        km.message is Response ==> (r matches Err(e) && e is BadRequest),
        km.message matches Message::Request(ref q) ==> (match parse_state_action(q.body@) {
            None => (r matches Err(e) && e is BadJson),
            Some(av) => {
                &&& (r is Err <==> (av is SetState && km.blob is None))
                &&& (av is SetState && km.blob is None ==> (r matches Err(e) && e is BadBytes))
                &&& (r matches Ok((action, op)) ==> action@ == av && (match av {
                    StateActionView::SetState(p) => op is Put && op->Put_key@ == blake3_of(
                        pid_bytes(p),
                    ) && (match km.blob {
                        Some(ref b) => Some(op->Put_value@) == Some(b.bytes@),
                        None => false,
                    }),
                    StateActionView::GetState(p) => op is Get && op->Get_key@ == blake3_of(
                        pid_bytes(p),
                    ),
                    StateActionView::DeleteState(p) => op is Delete && op->Delete_key@
                        == blake3_of(pid_bytes(p)),
                    StateActionView::Backup => op is Checkpoint,
                }))
            },
        }),
{
    let q = match &km.message {
        Message::Response(_) => {
            return Err(StateError::BadRequest);
        },
        Message::Request(q) => q,
    };
    let action = match take_state_action(&q.body) {
        None => {
            return Err(StateError::BadJson);
        },
        Some(a) => a,
    };
    match plan_state_action(&action, &km.blob) {
        Ok(op) => Ok((action, op)),
        Err(e) => Err(e),
    }
}

/// Where an error report goes: to the envelope's rsvp when set, else
/// straight back to the sender.
pub fn error_reply_target(km: &KernelMessage) -> (r: Address)
    ensures
        match km.rsvp {
            Some(ref a) => r@ == a@,
            None => r@ == km.source@,
        },
{
    match &km.rsvp {
        Some(a) => a.clone_address(),
        None => km.source.clone_address(),
    }
}

/// Where a service sends its reply: to the envelope's rsvp when set,
/// else back to the sender when a response is expected, else nowhere.
pub fn service_reply_target(our_node: &Vec<u8>, km: &KernelMessage) -> (r: Option<Address>)
    ensures
        match km.rsvp {
            Some(ref a) => r is Some && r.unwrap()@ == a@,
            None => match km.message {
                Message::Request(ref q) => if q.expects_response is Some {
                    r is Some && r.unwrap()@ == (AddressView {
                        node: our_node@,
                        process: km.source@.process,
                    })
                } else {
                    r is None
                },
                Message::Response(_) => r is None,
            },
        },
{
    match &km.rsvp {
        Some(a) => Some(a.clone_address()),
        None => match &km.message {
            Message::Request(q) => match q.expects_response {
                Some(_) => Some(
                    Address {
                        node: clone_bytes(our_node),
                        process: km.source.process.clone_pid(),
                    },
                ),
                None => None,
            },
            Message::Response(_) => None,
        },
    }
}

/// Build a service's reply envelope: a response from the service's
/// own address, answering to the request's id, with the reply body
/// and an optional payload blob.
pub fn make_service_response(
    our_node: &Vec<u8>,
    service: &ProcessId,
    id: u64,
    target: Address,
    body: Vec<u8>,
    metadata: Option<Vec<u8>>,
    payload: Option<Vec<u8>>,
) -> (r: KernelMessage)
    ensures
        r@.id == id,
        r@.source.node == our_node@,
        r@.source.process == service@,
        r@.target == target@,
        r@.rsvp is None,
        r@.message is Response,
        r@.message->Response_0.inherit == false,
        r@.message->Response_0.body == body@,
        r@.message->Response_0.metadata == view_opt_bytes(metadata),
        r@.message->Response_0.capabilities.len() == 0,
        (match payload {
            Some(v) => r@.blob is Some && r@.blob.unwrap().bytes == v@,
            None => r@.blob is None,
        }),
{
    let blob: Option<LazyLoadBlob> = match payload {
        Some(v) => Some(LazyLoadBlob { mime: None, bytes: v }),
        None => None,
    };
    KernelMessage {
        id,
        source: Address { node: clone_bytes(our_node), process: service.clone_pid() },
        target,
        rsvp: None,
        message: Message::Response(
            Response { inherit: false, body, metadata, capabilities: Vec::new() },
        ),
        blob,
    }
}

/// A persisted process record: where its component lives, its exit
/// policy, the capabilities it holds, and whether anyone may message
/// it.
pub struct ProcessRecord {
    pub wasm_bytes_handle: Vec<u8>,
    pub on_exit: OnExit,
    pub capabilities: Vec<Capability>,
    pub public: bool,
    pub wit_version: u32,
}

/// One line of the process map.
pub struct MapEntry {
    pub pid: ProcessId,
    pub record: ProcessRecord,
}

/// The kernel's process map, persisted under the kernel's own key.
pub struct ProcessMap {
    pub entries: Vec<MapEntry>,
}

/// A capability is among a record's set, compared by model.
pub open spec fn caps_contains(s: Seq<Capability>, cv: CapabilityView) -> bool {
    exists|i: int| 0 <= i < s.len() && (#[trigger] s[i])@ == cv
}

pub proof fn lemma_caps_contains_push(s: Seq<Capability>, c: Capability, cv: CapabilityView)
    ensures
        caps_contains(s.push(c), cv) <==> (caps_contains(s, cv) || c@ == cv),
{
    if caps_contains(s.push(c), cv) {
        let i = choose|i: int| 0 <= i < s.push(c).len() && (#[trigger] s.push(c)[i])@ == cv;
        if i < s.len() {
            assert(s[i]@ == cv);
        } else {
            assert(s.push(c)[i] == c);
        }
    }
    if caps_contains(s, cv) {
        let i = choose|i: int| 0 <= i < s.len() && (#[trigger] s[i])@ == cv;
        assert(s.push(c)[i]@ == cv);
    }
    if c@ == cv {
        assert(s.push(c)[s.len() as int]@ == cv);
    }
}

/// The record of the first map line with this pid, if any.
pub open spec fn map_lookup(entries: Seq<MapEntry>, pid: ProcessIdView) -> Option<ProcessRecord>
    decreases entries.len(),
{
    if entries.len() == 0 {
        None
    } else if entries[0].pid@ == pid {
        Some(entries[0].record)
    } else {
        map_lookup(entries.drop_first(), pid)
    }
}

/// A pid with no map line looks up to nothing.
pub proof fn lemma_map_lookup_absent(entries: Seq<MapEntry>, pid: ProcessIdView)
    requires
        forall|j: int| 0 <= j < entries.len() ==> (#[trigger] entries[j]).pid@ != pid,
    ensures
        map_lookup(entries, pid) is None,
    decreases entries.len(),
{
    if entries.len() > 0 {
        assert(entries[0].pid@ != pid);
        assert forall|j: int| 0 <= j < entries.drop_first().len() implies (
        #[trigger] entries.drop_first()[j]).pid@ != pid by {
            assert(entries.drop_first()[j] == entries[j + 1]);
        }
        lemma_map_lookup_absent(entries.drop_first(), pid);
    }
}

/// Appending a line resolves a lookup only when nothing earlier did.
pub proof fn lemma_map_lookup_push(entries: Seq<MapEntry>, e: MapEntry, pid: ProcessIdView)
    ensures
        map_lookup(entries.push(e), pid) == (match map_lookup(entries, pid) {
            Some(r) => Some(r),
            None => if e.pid@ == pid {
                Some(e.record)
            } else {
                None
            },
        }),
    decreases entries.len(),
{
    if entries.len() == 0 {
        assert(entries.push(e)[0] == e);
        if e.pid@ != pid {
            assert(entries.push(e).drop_first() =~= entries);
        }
    } else {
        assert(entries.push(e)[0] == entries[0]);
        assert(entries.push(e).drop_first() =~= entries.drop_first().push(e));
        lemma_map_lookup_push(entries.drop_first(), e, pid);
    }
}

impl ProcessMap {
    pub fn new() -> (r: ProcessMap)
        ensures
            r.entries@.len() == 0,
            forall|q: ProcessIdView| map_lookup(r.entries@, q) is None,
    {
        let r = ProcessMap { entries: Vec::new() };
        proof {
            assert forall|q: ProcessIdView| map_lookup(r.entries@, q) is None by {
                lemma_map_lookup_absent(r.entries@, q);
            }
        }
        r
    }

    /// Look a process record up by pid.
    pub fn contains(&self, pid: &ProcessId) -> (r: bool)
        ensures
            r == (map_lookup(self.entries@, pid@) is Some),
    {
        let n: usize = self.entries.len();
        let mut i: usize = 0;
        proof {
            assert(self.entries@.skip(0) =~= self.entries@);
        }
        while i < n
            invariant
                n == self.entries@.len(),
                i <= n,
                map_lookup(self.entries@, pid@) == map_lookup(self.entries@.skip(i as int), pid@),
            decreases n - i,
        {
            proof {
                assert(self.entries@.skip(i as int)[0] == self.entries@[i as int]);
                assert(self.entries@.skip(i as int).drop_first() =~= self.entries@.skip(i + 1));
            }
            if self.entries[i].pid.eq_pid(pid) {
                return true;
            }
            i += 1;
        }
        proof {
            assert(self.entries@.skip(n as int) =~= Seq::<MapEntry>::empty());
        }
        false
    }

    /// Insert a record for a pid, displacing any record it had.
    pub fn insert(&mut self, pid: ProcessId, record: ProcessRecord)
        ensures
            map_lookup(final(self).entries@, pid@) == Some(record),
            forall|q: ProcessIdView|
                q != pid@ ==> map_lookup(final(self).entries@, q) == map_lookup(
                    old(self).entries@,
                    q,
                ),
    {
        self.remove(&pid);
        let ghost kept_final = self.entries@;
        self.entries.push(MapEntry { pid, record });
        proof {
            assert forall|q: ProcessIdView|
                map_lookup(self.entries@, q) == (if q == pid@ {
                    Some(self.entries@[self.entries@.len() - 1].record)
                } else {
                    map_lookup(old(self).entries@, q)
                }) by {
                lemma_map_lookup_push(kept_final, self.entries@[self.entries@.len() - 1], q);
            }
        }
    }

    /// Remove a pid's record, if any; the other records stay.
    pub fn remove(&mut self, pid: &ProcessId)
        ensures
            map_lookup(final(self).entries@, pid@) is None,
            forall|q: ProcessIdView|
                q != pid@ ==> map_lookup(final(self).entries@, q) == map_lookup(
                    old(self).entries@,
                    q,
                ),
    {
        let mut src: Vec<MapEntry> = Vec::new();
        core::mem::swap(&mut src, &mut self.entries);
        let ghost all = src@;
        let ghost mut taken: int = 0;
        proof {
            assert forall|q: ProcessIdView|
                map_lookup(self.entries@, q) == (if q == pid@ {
                    None::<ProcessRecord>
                } else {
                    map_lookup(all.subrange(0, 0), q)
                }) by {
                lemma_map_lookup_absent(self.entries@, q);
                lemma_map_lookup_absent(all.subrange(0, 0), q);
            }
        }
        while src.len() > 0
            invariant
                0 <= taken <= all.len(),
                src@ == all.skip(taken),
                forall|q: ProcessIdView|
                    map_lookup(self.entries@, q) == (if q == pid@ {
                        None::<ProcessRecord>
                    } else {
                        map_lookup(all.subrange(0, taken), q)
                    }),
            decreases src@.len(),
        {
            let it = src.remove(0);
            let ghost pre = all.subrange(0, taken);
            let ghost itg = it;
            let ghost kept0 = self.entries@;
            proof {
                assert(all.skip(taken)[0] == all[taken]);
                assert(src@ =~= all.skip(taken + 1));
            }
            let matches_pid = it.pid.eq_pid(pid);
            if !matches_pid {
                self.entries.push(it);
            }
            proof {
                assert(all.subrange(0, taken + 1) =~= pre.push(itg));
                assert forall|q: ProcessIdView|
                    map_lookup(self.entries@, q) == (if q == pid@ {
                        None::<ProcessRecord>
                    } else {
                        map_lookup(all.subrange(0, taken + 1), q)
                    }) by {
                    lemma_map_lookup_push(pre, itg, q);
                    if !matches_pid {
                        assert(self.entries@ =~= kept0.push(itg));
                        lemma_map_lookup_push(kept0, itg, q);
                    }
                }
                taken = taken + 1;
            }
        }
        proof {
            assert(all.subrange(0, taken) =~= all);
        }
    }
}

/// A runtime module the kernel hosts directly.
pub struct RuntimeModule {
    pub pid: ProcessId,
    pub public: bool,
}

/// One process declared by a package manifest.
pub struct ManifestEntry {
    pub process_name: Vec<u8>,
    pub process_wasm_path: Vec<u8>,
    pub on_exit: OnExit,
    pub request_networking: bool,
    pub request_messaging: Vec<ProcessId>,
    pub public: bool,
}

/// A distribution package: its identity and the processes it boots.
pub struct PackageManifest {
    pub package: Vec<u8>,
    pub publisher: Vec<u8>,
    pub entries: Vec<ManifestEntry>,
}

/// The messaging token issued by a process on this node.
pub open spec fn messaging_cap_of(our_node: Seq<u8>, pid: ProcessIdView) -> CapabilityView {
    CapabilityView {
        issuer: AddressView { node: our_node, process: pid },
        params: messaging_params(),
    }
}

/// The network token, issued by the kernel.
pub open spec fn network_cap_of(our_node: Seq<u8>, kernel: ProcessIdView) -> CapabilityView {
    CapabilityView {
        issuer: AddressView { node: our_node, process: kernel },
        params: network_params(),
    }
}

/// A drive token issued by the file system process.
pub open spec fn vfs_cap_of(our_node: Seq<u8>, vfs: ProcessIdView, params: Seq<u8>) -> CapabilityView {
    CapabilityView { issuer: AddressView { node: our_node, process: vfs }, params }
}

/// The bytes of the bootstrap drive name, `pkg`.
pub open spec fn pkg_drive_name() -> Seq<u8> {
    seq![112u8, 107u8, 103u8]
}

/// A path with its leading slash, if any, taken off.
pub open spec fn normalize_path(p: Seq<u8>) -> Seq<u8> {
    if p.len() > 0 && p[0] == 47 {
        p.drop_first()
    } else {
        p
    }
}

/// Where a manifest entry's component lives: under the package's
/// bootstrap drive.
pub open spec fn wasm_handle_spec(drive: Seq<u8>, path: Seq<u8>) -> Seq<u8> {
    drive + seq![47u8] + normalize_path(path)
}

/// The capability set a manifest entry is granted: messaging to each
/// named peer and to itself, the network token if asked, and the
/// read and write tokens of its own drive — exactly these.
pub open spec fn entry_cap_spec(
    cv: CapabilityView,
    our_node: Seq<u8>,
    kernel: ProcessIdView,
    vfs: ProcessIdView,
    drive: Seq<u8>,
    msgs: Seq<ProcessId>,
    networking: bool,
    own: ProcessIdView,
) -> bool {
    ||| (exists|k: int|
        0 <= k < msgs.len() && cv == messaging_cap_of(our_node, (#[trigger] msgs[k])@))
    ||| cv == messaging_cap_of(our_node, own)
    ||| (networking && cv == network_cap_of(our_node, kernel))
    ||| cv == vfs_cap_of(our_node, vfs, read_params(drive))
    ||| cv == vfs_cap_of(our_node, vfs, write_params(drive))
}

/// The capability set of a runtime module: messaging to the kernel,
/// the network process, and every runtime module, plus the network
/// token.
pub open spec fn runtime_cap_spec(
    cv: CapabilityView,
    our_node: Seq<u8>,
    kernel: ProcessIdView,
    net: ProcessIdView,
    exts: Seq<RuntimeModule>,
) -> bool {
    ||| cv == messaging_cap_of(our_node, kernel)
    ||| cv == messaging_cap_of(our_node, net)
    ||| (exists|k: int|
        0 <= k < exts.len() && cv == messaging_cap_of(our_node, (#[trigger] exts[k]).pid@))
    ||| cv == network_cap_of(our_node, kernel)
}

/// A record conforms to its manifest entry: same exit policy and
/// visibility, the component under the package drive, and exactly
/// the entry's capabilities.
pub open spec fn record_matches_entry(
    rec: ProcessRecord,
    our_node: Seq<u8>,
    kernel: ProcessIdView,
    vfs: ProcessIdView,
    drive: Seq<u8>,
    entry: ManifestEntry,
    own: ProcessIdView,
) -> bool {
    &&& rec.public == entry.public
    &&& rec.on_exit == entry.on_exit
    &&& rec.wasm_bytes_handle@ == wasm_handle_spec(drive, entry.process_wasm_path@)
    &&& (forall|cv: CapabilityView|
        caps_contains(rec.capabilities@, cv) <==> entry_cap_spec(
            cv,
            our_node,
            kernel,
            vfs,
            drive,
            entry.request_messaging@,
            entry.request_networking,
            own,
        ))
}

/// A messaging capability as a value.
fn make_messaging_cap(our_node: &Vec<u8>, pid: &ProcessId) -> (r: Capability)
    ensures
        r@ == messaging_cap_of(our_node@, pid@),
{
    let r = Capability {
        issuer: Address { node: clone_bytes(our_node), process: pid.clone_pid() },
        params: make_messaging_params(),
    };
    proof {
        assert(r@ =~= messaging_cap_of(our_node@, pid@));
    }
    r
}

/// The network capability as a value.
fn make_network_cap(our_node: &Vec<u8>, kernel: &ProcessId) -> (r: Capability)
    ensures
        r@ == network_cap_of(our_node@, kernel@),
{
    let r = Capability {
        issuer: Address { node: clone_bytes(our_node), process: kernel.clone_pid() },
        params: make_network_params(),
    };
    proof {
        assert(r@ =~= network_cap_of(our_node@, kernel@));
    }
    r
}

/// The component path of a manifest entry under its drive.
pub fn make_wasm_handle(drive: &Vec<u8>, path: &Vec<u8>) -> (r: Vec<u8>)
    ensures
        r@ == wasm_handle_spec(drive@, path@),
{
    let mut out: Vec<u8> = Vec::new();
    push_bytes(&mut out, drive);
    out.push(47);
    if path.len() > 0 && path[0] == 47 {
        let tail = crate::ids::copy_range(path, 1, path.len());
        push_bytes(&mut out, &tail);
    } else {
        push_bytes(&mut out, path);
    }
    proof {
        assert(out@ =~= wasm_handle_spec(drive@, path@));
    }
    out
}

/// Build exactly the capability set of one manifest entry.
fn build_entry_caps(
    our_node: &Vec<u8>,
    kernel: &ProcessId,
    vfs: &ProcessId,
    drive: &Vec<u8>,
    msgs: &Vec<ProcessId>,
    networking: bool,
    own: &ProcessId,
) -> (r: Vec<Capability>)
    ensures
        forall|cv: CapabilityView|
            caps_contains(r@, cv) <==> entry_cap_spec(
                cv,
                our_node@,
                kernel@,
                vfs@,
                drive@,
                msgs@,
                networking,
                own@,
            ),
{
    let mut out: Vec<Capability> = Vec::new();
    let n: usize = msgs.len();
    let mut i: usize = 0;
    while i < n
        invariant
            n == msgs@.len(),
            i <= n,
            forall|cv: CapabilityView|
                caps_contains(out@, cv) <==> (exists|k: int|
                    0 <= k < i && cv == messaging_cap_of(our_node@, (#[trigger] msgs@[k])@)),
        decreases n - i,
    {
        let c = make_messaging_cap(our_node, &msgs[i]);
        let ghost out0 = out@;
        let ghost cg = c;
        out.push(c);
        proof {
            assert forall|cv: CapabilityView|
                caps_contains(out@, cv) <==> (exists|k: int|
                    0 <= k < i + 1 && cv == messaging_cap_of(
                        our_node@,
                        (#[trigger] msgs@[k])@,
                    )) by {
                lemma_caps_contains_push(out0, cg, cv);
                assert(caps_contains(out0, cv) <==> (exists|k: int|
                    0 <= k < i && cv == messaging_cap_of(our_node@, (#[trigger] msgs@[k])@)));
                if cv == cg@ {
                    assert(cv == messaging_cap_of(our_node@, msgs@[i as int]@));
                }
            }
        }
        i += 1;
    }
    let ghost m = msgs@.len() as int;
    let ghost f_msgs = |cv: CapabilityView|
        exists|k: int| 0 <= k < m && cv == messaging_cap_of(our_node@, (#[trigger] msgs@[k])@);
    let c_own = make_messaging_cap(our_node, own);
    let ghost before_own = out@;
    let ghost c_own_g = c_own;
    out.push(c_own);
    proof {
        assert forall|cv: CapabilityView| #![auto] caps_contains(out@, cv) <==> (f_msgs(cv) || cv
            == messaging_cap_of(our_node@, own@)) by {
            lemma_caps_contains_push(before_own, c_own_g, cv);
            assert(caps_contains(before_own, cv) <==> (exists|k: int|
                0 <= k < m && cv == messaging_cap_of(our_node@, (#[trigger] msgs@[k])@)));
        }
    }
    if networking {
        let c_net = make_network_cap(our_node, kernel);
        let ghost before_net = out@;
        let ghost c_net_g = c_net;
        out.push(c_net);
        proof {
            assert forall|cv: CapabilityView| #![auto] caps_contains(out@, cv) <==> (f_msgs(cv)
                || cv == messaging_cap_of(our_node@, own@) || cv == network_cap_of(
                our_node@,
                kernel@,
            )) by {
                lemma_caps_contains_push(before_net, c_net_g, cv);
                assert(caps_contains(before_net, cv) <==> (f_msgs(cv) || cv == messaging_cap_of(
                    our_node@,
                    own@,
                )));
            }
        }
    }
    let c_read = Capability {
        issuer: Address { node: clone_bytes(our_node), process: vfs.clone_pid() },
        params: make_kind_drive_params(false, drive),
    };
    let ghost before_read = out@;
    let ghost c_read_g = c_read;
    proof {
        assert(c_read_g@ =~= vfs_cap_of(our_node@, vfs@, read_params(drive@)));
    }
    out.push(c_read);
    proof {
        assert forall|cv: CapabilityView| #![auto] caps_contains(out@, cv) <==> (f_msgs(cv) || cv
            == messaging_cap_of(our_node@, own@) || (networking && cv == network_cap_of(
            our_node@,
            kernel@,
        )) || cv == vfs_cap_of(our_node@, vfs@, read_params(drive@))) by {
            lemma_caps_contains_push(before_read, c_read_g, cv);
            assert(caps_contains(before_read, cv) <==> (f_msgs(cv) || cv == messaging_cap_of(
                our_node@,
                own@,
            ) || (networking && cv == network_cap_of(our_node@, kernel@))));
        }
    }
    let c_write = Capability {
        issuer: Address { node: clone_bytes(our_node), process: vfs.clone_pid() },
        params: make_kind_drive_params(true, drive),
    };
    let ghost before_write = out@;
    let ghost c_write_g = c_write;
    proof {
        assert(c_write_g@ =~= vfs_cap_of(our_node@, vfs@, write_params(drive@)));
    }
    out.push(c_write);
    proof {
        assert forall|cv: CapabilityView| #![auto] caps_contains(out@, cv) <==> entry_cap_spec(
            cv,
            our_node@,
            kernel@,
            vfs@,
            drive@,
            msgs@,
            networking,
            own@,
        ) by {
            lemma_caps_contains_push(before_write, c_write_g, cv);
            assert(caps_contains(before_write, cv) <==> (f_msgs(cv) || cv == messaging_cap_of(
                our_node@,
                own@,
            ) || (networking && cv == network_cap_of(our_node@, kernel@)) || cv == vfs_cap_of(
                our_node@,
                vfs@,
                read_params(drive@),
            )));
        }
    }
    out
}

/// Build exactly the runtime capability set.
fn build_runtime_caps(
    our_node: &Vec<u8>,
    kernel: &ProcessId,
    net: &ProcessId,
    exts: &Vec<RuntimeModule>,
) -> (r: Vec<Capability>)
    ensures
        forall|cv: CapabilityView|
            caps_contains(r@, cv) <==> runtime_cap_spec(cv, our_node@, kernel@, net@, exts@),
{
    let mut out: Vec<Capability> = Vec::new();
    let ck = make_messaging_cap(our_node, kernel);
    let ghost b0 = out@;
    let ghost ckg = ck;
    out.push(ck);
    proof {
        assert forall|cv: CapabilityView| #![auto] caps_contains(out@, cv) <==> (cv
            == messaging_cap_of(our_node@, kernel@)) by {
            lemma_caps_contains_push(b0, ckg, cv);
            assert(!caps_contains(b0, cv));
        }
    }
    let cn = make_messaging_cap(our_node, net);
    let ghost b1 = out@;
    let ghost cng = cn;
    out.push(cn);
    proof {
        assert forall|cv: CapabilityView| #![auto] caps_contains(out@, cv) <==> (cv
            == messaging_cap_of(our_node@, kernel@) || cv == messaging_cap_of(our_node@, net@)) by {
            lemma_caps_contains_push(b1, cng, cv);
            assert(caps_contains(b1, cv) <==> (cv == messaging_cap_of(our_node@, kernel@)));
        }
    }
    let n: usize = exts.len();
    let mut i: usize = 0;
    while i < n
        invariant
            n == exts@.len(),
            i <= n,
            forall|cv: CapabilityView|
                caps_contains(out@, cv) <==> (cv == messaging_cap_of(our_node@, kernel@) || cv
                    == messaging_cap_of(our_node@, net@) || (exists|k: int|
                    0 <= k < i && cv == messaging_cap_of(our_node@, (#[trigger] exts@[k]).pid@))),
        decreases n - i,
    {
        let c = make_messaging_cap(our_node, &exts[i].pid);
        let ghost bi = out@;
        let ghost cg = c;
        out.push(c);
        proof {
            assert forall|cv: CapabilityView|
                #![auto]
                caps_contains(out@, cv) <==> (cv == messaging_cap_of(our_node@, kernel@) || cv
                    == messaging_cap_of(our_node@, net@) || (exists|k: int|
                    0 <= k < i + 1 && cv == messaging_cap_of(
                        our_node@,
                        (#[trigger] exts@[k]).pid@,
                    ))) by {
                lemma_caps_contains_push(bi, cg, cv);
                assert(caps_contains(bi, cv) <==> (cv == messaging_cap_of(our_node@, kernel@) || cv
                    == messaging_cap_of(our_node@, net@) || (exists|k: int|
                    0 <= k < i && cv == messaging_cap_of(our_node@, (#[trigger] exts@[k]).pid@))));
                if cv == cg@ {
                    assert(cv == messaging_cap_of(our_node@, exts@[i as int].pid@));
                }
            }
        }
        i += 1;
    }
    let cw = make_network_cap(our_node, kernel);
    let ghost b2 = out@;
    let ghost cwg = cw;
    let ghost n_all = exts@.len() as int;
    out.push(cw);
    proof {
        assert forall|cv: CapabilityView| #![auto] caps_contains(out@, cv) <==> runtime_cap_spec(
            cv,
            our_node@,
            kernel@,
            net@,
            exts@,
        ) by {
            lemma_caps_contains_push(b2, cwg, cv);
            assert(caps_contains(b2, cv) <==> (cv == messaging_cap_of(our_node@, kernel@) || cv
                == messaging_cap_of(our_node@, net@) || (exists|k: int|
                0 <= k < n_all && cv == messaging_cap_of(our_node@, (#[trigger] exts@[k]).pid@))));
        }
    }
    out
}

/// The process id a manifest entry boots under.
pub open spec fn own_pid_view(pkg: PackageManifest, entry: ManifestEntry) -> ProcessIdView {
    ProcessIdView {
        name: entry.process_name@,
        package: pkg.package@,
        publisher: pkg.publisher@,
    }
}

/// The bootstrap drive of a package.
pub open spec fn pkg_drive_view(pkg: PackageManifest) -> Seq<u8> {
    drive_path(
        crate::ids::PackageIdView { package: pkg.package@, publisher: pkg.publisher@ },
        pkg_drive_name(),
    )
}

/// The map holds a record for this pid that conforms to the entry.
pub open spec fn map_has_entry_record(
    entries: Seq<MapEntry>,
    our_node: Seq<u8>,
    kernel: ProcessIdView,
    vfs: ProcessIdView,
    pkg: PackageManifest,
    entry: ManifestEntry,
) -> bool {
    exists|j: int|
        0 <= j < entries.len() && (#[trigger] entries[j]).pid@ == own_pid_view(pkg, entry)
            && record_matches_entry(
            entries[j].record,
            our_node,
            kernel,
            vfs,
            pkg_drive_view(pkg),
            entry,
            own_pid_view(pkg, entry),
        )
}

/// The map holds a runtime record for this pid: restart policy, the
/// given visibility, and exactly the runtime capability set.
pub open spec fn map_has_runtime_record(
    entries: Seq<MapEntry>,
    our_node: Seq<u8>,
    kernel: ProcessIdView,
    net: ProcessIdView,
    exts: Seq<RuntimeModule>,
    pid: ProcessIdView,
    public: bool,
) -> bool {
    exists|j: int|
        0 <= j < entries.len() && (#[trigger] entries[j]).pid@ == pid && entries[j].record.on_exit
            is Restart && entries[j].record.public == public && (forall|cv: CapabilityView|
            caps_contains(entries[j].record.capabilities@, cv) <==> runtime_cap_spec(
                cv,
                our_node,
                kernel,
                net,
                exts,
            ))
}

/// First boot with no kernel record: populate the process map with
/// the runtime modules and with every process the package manifests
/// declare. Every record a manifest references carries the
/// manifest's capabilities exactly, plus the read and write tokens
/// of its own drive.
pub fn bootstrap(
    our_node: &Vec<u8>,
    kernel_pid: &ProcessId,
    net_pid: &ProcessId,
    vfs_pid: &ProcessId,
    exts: &Vec<RuntimeModule>,
    packages: Vec<PackageManifest>,
) -> (r: ProcessMap)
    ensures
        map_has_runtime_record(
            r.entries@,
            our_node@,
            kernel_pid@,
            net_pid@,
            exts@,
            kernel_pid@,
            false,
        ),
        map_has_runtime_record(
            r.entries@,
            our_node@,
            kernel_pid@,
            net_pid@,
            exts@,
            net_pid@,
            false,
        ),
        forall|k: int|
            0 <= k < exts@.len() ==> map_has_runtime_record(
                r.entries@,
                our_node@,
                kernel_pid@,
                net_pid@,
                exts@,
                (#[trigger] exts@[k]).pid@,
                exts@[k].public,
            ),
        forall|p: int, e: int|
            0 <= p < packages@.len() && 0 <= e < packages@[p].entries@.len()
                ==> map_has_entry_record(
                r.entries@,
                our_node@,
                kernel_pid@,
                vfs_pid@,
                packages@[p],
                #[trigger] packages@[p].entries@[e],
            ),
{
    let mut out: Vec<MapEntry> = Vec::new();
    let caps_k = build_runtime_caps(our_node, kernel_pid, net_pid, exts);
    out.push(
        MapEntry {
            pid: kernel_pid.clone_pid(),
            record: ProcessRecord {
                wasm_bytes_handle: Vec::new(),
                on_exit: OnExit::Restart,
                capabilities: caps_k,
                public: false,
                wit_version: 0,
            },
        },
    );
    proof {
        assert(out@[0].pid@ == kernel_pid@);
        assert(map_has_runtime_record(
            out@,
            our_node@,
            kernel_pid@,
            net_pid@,
            exts@,
            kernel_pid@,
            false,
        )) by {
            assert(out@[0].pid@ == kernel_pid@ && out@[0].record.on_exit is Restart
                && out@[0].record.public == false);
        }
    }
    let caps_n = build_runtime_caps(our_node, kernel_pid, net_pid, exts);
    out.push(
        MapEntry {
            pid: net_pid.clone_pid(),
            record: ProcessRecord {
                wasm_bytes_handle: Vec::new(),
                on_exit: OnExit::Restart,
                capabilities: caps_n,
                public: false,
                wit_version: 0,
            },
        },
    );
    proof {
        assert(out@[1].pid@ == net_pid@);
        assert(map_has_runtime_record(
            out@,
            our_node@,
            kernel_pid@,
            net_pid@,
            exts@,
            net_pid@,
            false,
        )) by {
            assert(out@[1].pid@ == net_pid@ && out@[1].record.on_exit is Restart
                && out@[1].record.public == false);
        }
        assert(map_has_runtime_record(
            out@,
            our_node@,
            kernel_pid@,
            net_pid@,
            exts@,
            kernel_pid@,
            false,
        )) by {
            assert(out@[0].pid@ == kernel_pid@ && out@[0].record.on_exit is Restart
                && out@[0].record.public == false);
        }
    }
    let n_ext: usize = exts.len();
    let mut k: usize = 0;
    while k < n_ext
        invariant
            n_ext == exts@.len(),
            k <= n_ext,
            map_has_runtime_record(
                out@,
                our_node@,
                kernel_pid@,
                net_pid@,
                exts@,
                kernel_pid@,
                false,
            ),
            map_has_runtime_record(out@, our_node@, kernel_pid@, net_pid@, exts@, net_pid@, false),
            forall|k2: int|
                0 <= k2 < k ==> map_has_runtime_record(
                    out@,
                    our_node@,
                    kernel_pid@,
                    net_pid@,
                    exts@,
                    (#[trigger] exts@[k2]).pid@,
                    exts@[k2].public,
                ),
        decreases n_ext - k,
    {
        let caps_e = build_runtime_caps(our_node, kernel_pid, net_pid, exts);
        let ghost out0 = out@;
        out.push(
            MapEntry {
                pid: exts[k].pid.clone_pid(),
                record: ProcessRecord {
                    wasm_bytes_handle: Vec::new(),
                    on_exit: OnExit::Restart,
                    capabilities: caps_e,
                    public: exts[k].public,
                    wit_version: 0,
                },
            },
        );
        proof {
            assert(out@[out@.len() - 1].pid@ == exts@[k as int].pid@);
            assert forall|j: int| 0 <= j < out0.len() implies out@[j] == out0[j] by {}
        }
        k += 1;
    }
    let mut pkgs = packages;
    let ghost all_pkgs = pkgs@;
    let ghost mut p: int = 0;
    while pkgs.len() > 0
        invariant
            0 <= p <= all_pkgs.len(),
            pkgs@ == all_pkgs.skip(p),
            map_has_runtime_record(
                out@,
                our_node@,
                kernel_pid@,
                net_pid@,
                exts@,
                kernel_pid@,
                false,
            ),
            map_has_runtime_record(out@, our_node@, kernel_pid@, net_pid@, exts@, net_pid@, false),
            forall|k2: int|
                0 <= k2 < exts@.len() ==> map_has_runtime_record(
                    out@,
                    our_node@,
                    kernel_pid@,
                    net_pid@,
                    exts@,
                    (#[trigger] exts@[k2]).pid@,
                    exts@[k2].public,
                ),
            forall|p2: int, e2: int|
                0 <= p2 < p && 0 <= e2 < all_pkgs[p2].entries@.len() ==> map_has_entry_record(
                    out@,
                    our_node@,
                    kernel_pid@,
                    vfs_pid@,
                    all_pkgs[p2],
                    #[trigger] all_pkgs[p2].entries@[e2],
                ),
        decreases pkgs@.len(),
    {
        let pkg = pkgs.remove(0);
        let ghost pkg_g = pkg;
        proof {
            assert(all_pkgs.skip(p)[0] == all_pkgs[p]);
            assert(pkgs@ =~= all_pkgs.skip(p + 1));
        }
        let PackageManifest { package, publisher, entries } = pkg;
        let owner = PackageId {
            package: clone_bytes(&package),
            publisher: clone_bytes(&publisher),
        };
        let mut drive_name: Vec<u8> = Vec::new();
        drive_name.push(112);
        drive_name.push(107);
        drive_name.push(103);
        proof {
            assert(drive_name@ =~= pkg_drive_name());
        }
        let drive = make_drive_path(&owner, &drive_name);
        proof {
            assert(drive@ == pkg_drive_view(pkg_g));
        }
        let mut ents = entries;
        let ghost all_ents = ents@;
        let ghost mut e: int = 0;
        proof {
            assert(all_ents == all_pkgs[p].entries@);
        }
        while ents.len() > 0
            invariant
                0 <= e <= all_ents.len(),
                ents@ == all_ents.skip(e),
                all_ents == all_pkgs[p].entries@,
                0 <= p < all_pkgs.len(),
                drive@ == pkg_drive_view(all_pkgs[p]),
                package@ == all_pkgs[p].package@,
                publisher@ == all_pkgs[p].publisher@,
                map_has_runtime_record(
                    out@,
                    our_node@,
                    kernel_pid@,
                    net_pid@,
                    exts@,
                    kernel_pid@,
                    false,
                ),
                map_has_runtime_record(
                    out@,
                    our_node@,
                    kernel_pid@,
                    net_pid@,
                    exts@,
                    net_pid@,
                    false,
                ),
                forall|k2: int|
                    0 <= k2 < exts@.len() ==> map_has_runtime_record(
                        out@,
                        our_node@,
                        kernel_pid@,
                        net_pid@,
                        exts@,
                        (#[trigger] exts@[k2]).pid@,
                        exts@[k2].public,
                    ),
                forall|p2: int, e2: int|
                    0 <= p2 < p && 0 <= e2 < all_pkgs[p2].entries@.len() ==> map_has_entry_record(
                        out@,
                        our_node@,
                        kernel_pid@,
                        vfs_pid@,
                        all_pkgs[p2],
                        #[trigger] all_pkgs[p2].entries@[e2],
                    ),
                forall|e2: int|
                    0 <= e2 < e ==> map_has_entry_record(
                        out@,
                        our_node@,
                        kernel_pid@,
                        vfs_pid@,
                        all_pkgs[p],
                        #[trigger] all_pkgs[p].entries@[e2],
                    ),
            decreases ents@.len(),
        {
            let entry = ents.remove(0);
            let ghost entry_g = entry;
            proof {
                assert(all_ents.skip(e)[0] == all_ents[e]);
                assert(ents@ =~= all_ents.skip(e + 1));
            }
            let ManifestEntry {
                process_name,
                process_wasm_path,
                on_exit,
                request_networking,
                request_messaging,
                public,
            } = entry;
            let own = ProcessId {
                name: process_name,
                package: clone_bytes(&package),
                publisher: clone_bytes(&publisher),
            };
            let caps = build_entry_caps(
                our_node,
                kernel_pid,
                vfs_pid,
                &drive,
                &request_messaging,
                request_networking,
                &own,
            );
            let handle = make_wasm_handle(&drive, &process_wasm_path);
            let record = ProcessRecord {
                wasm_bytes_handle: handle,
                on_exit,
                capabilities: caps,
                public,
                wit_version: 0,
            };
            let ghost out0 = out@;
            proof {
                assert(own@ == own_pid_view(all_pkgs[p], all_ents[e]));
                assert(record_matches_entry(
                    record,
                    our_node@,
                    kernel_pid@,
                    vfs_pid@,
                    pkg_drive_view(all_pkgs[p]),
                    all_ents[e],
                    own@,
                ));
            }
            out.push(MapEntry { pid: own, record });
            proof {
                assert(out@[out@.len() - 1].pid@ == own_pid_view(all_pkgs[p], all_ents[e]));
                assert forall|j: int| 0 <= j < out0.len() implies out@[j] == out0[j] by {}
                e = e + 1;
            }
        }
        proof {
            p = p + 1;
        }
    }
    proof {
        assert(all_pkgs.skip(p) =~= pkgs@);
    }
    ProcessMap { entries: out }
}

} // verus!
