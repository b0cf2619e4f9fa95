//! The main dispatch loop's admission rule: whether an envelope may
//! reach its target, and the synthetic send error when it may not.

use vstd::prelude::*;
use crate::ids::{ProcessId, ProcessIdView};
use crate::message::{
    caps_view, Capability, CapabilityView, KernelMessage, Message, SendError, SendErrorKind,
    SignedCapability, WrappedSendError,
};
use crate::oracle::{ledger_holds, plain_caps_view, CapOracle, LedgerItem};
use crate::process::{bare_caps, messaging_cap_view, strip_caps, OnExit};
use crate::state_service::{map_lookup, ProcessMap, ProcessRecord};

verus! {

/// Whether the oracle admits an envelope: responses pass freely;
/// a request passes iff its sender is the kernel, or addresses
/// itself, or the target is public, or the sender holds a messaging
/// capability for the target.
pub open spec fn admission_spec(
    items: Seq<LedgerItem>,
    km: KernelMessage,
    target_public: bool,
    kernel: ProcessIdView,
) -> bool {
    match km.message {
        Message::Response(_) => true,
        Message::Request(_) => km.source@.process == kernel || km.source@ == km.target@
            || target_public || ledger_holds(items, km.source@.process, messaging_cap_view(km.target@)),
    }
}

/// Exact-match admission check against the live ledger.
pub fn check_admission(
    oracle: &CapOracle,
    km: &KernelMessage,
    target_public: bool,
    kernel: &ProcessId,
) -> (r: bool)
    ensures
        r == admission_spec(oracle.items@, *km, target_public, kernel@),
{
    if !km.message.is_request() {
        return true;
    }
    if km.source.process.eq_pid(kernel) {
        return true;
    }
    if km.source.eq_address(&km.target) {
        return true;
    }
    if target_public {
        return true;
    }
    let cap = Capability {
        issuer: km.target.clone_address(),
        params: crate::caps::make_messaging_params(),
    };
    let held = oracle.has(&km.source.process, &cap);
    proof {
        assert(cap@ =~= messaging_cap_view(km.target@));
    }
    held
}

/// What the dispatch loop does with an inbound envelope.
pub enum DeliveryDecision {
    /// Forward it to the local target's inbox.
    Deliver,
    /// Hand it to the network subsystem for a remote target.
    RouteOut,
    /// Drop it and answer the sender with this error kind.
    Reject(SendErrorKind),
}

/// Decide delivery: an inadmissible request is rejected as denied; an
/// admissible envelope goes to the local target's inbox, or outward
/// when the target is not local.
pub fn route(
    oracle: &CapOracle,
    km: &KernelMessage,
    target_is_local: bool,
    target_public: bool,
    kernel: &ProcessId,
) -> (r: DeliveryDecision)
    ensures
        !admission_spec(oracle.items@, *km, target_public, kernel@) ==> r == DeliveryDecision::Reject(
            SendErrorKind::Denied,
        ),
        admission_spec(oracle.items@, *km, target_public, kernel@) && target_is_local ==> r
            == DeliveryDecision::Deliver,
        admission_spec(oracle.items@, *km, target_public, kernel@) && !target_is_local ==> r
            == DeliveryDecision::RouteOut,
{
    if !check_admission(oracle, km, target_public, kernel) {
        DeliveryDecision::Reject(SendErrorKind::Denied)
    } else if target_is_local {
        DeliveryDecision::Deliver
    } else {
        DeliveryDecision::RouteOut
    }
}

/// The synthetic error sent back for a dropped envelope: it answers
/// to the envelope's id and carries the undeliverable message back.
pub fn build_send_error(km: KernelMessage, kind: SendErrorKind) -> (r: WrappedSendError)
    ensures
        r.id == km.id,
        r.source@ == km.target@,
        r.error.kind == kind,
        r.error.target@ == km.target@,
        r.error.message@ == km.message@,
        crate::codec::view_opt_blob(r.error.blob) == crate::codec::view_opt_blob(km.blob),
{
    WrappedSendError {
        id: km.id,
        source: km.target.clone_address(),
        error: SendError { kind, target: km.target, message: km.message, blob: km.blob },
    }
}

/// Every request the oracle admits comes from a sender that at that
/// moment held a messaging capability to the target, or targets a
/// public process, or itself, or comes from the kernel.
pub proof fn lemma_admission_sound(
    items: Seq<LedgerItem>,
    km: KernelMessage,
    target_public: bool,
    kernel: ProcessIdView,
)
    requires
        admission_spec(items, km, target_public, kernel),
        km.message is Request,
    ensures
        km.source@.process == kernel || km.source@ == km.target@ || target_public || ledger_holds(
            items,
            km.source@.process,
            messaging_cap_view(km.target@),
        ),
{
}

/// A command the kernel executes directly, outside the ordinary
/// capability check: process lifecycle and capability bookkeeping.
pub enum KernelCommand {
    InitializeProcess {
        id: ProcessId,
        wasm_bytes_handle: Vec<u8>,
        wit_version: u32,
        on_exit: OnExit,
        initial_capabilities: Vec<SignedCapability>,
        public: bool,
    },
    RunProcess(ProcessId),
    KillProcess(ProcessId),
    GrantCapabilities { target: ProcessId, capabilities: Vec<SignedCapability> },
    DropCapabilities { target: ProcessId, capabilities: Vec<Capability> },
}

/// What the host must still do after a command's bookkeeping.
pub enum KernelEffect {
    /// Allocate an inbox and spawn the instance.
    SpawnInstance(ProcessId),
    /// Deliver the run command to the instance.
    SendRun(ProcessId),
    /// Close the instance's inbox.
    DropInstance(ProcessId),
    /// Nothing beyond an acknowledgement.
    Acknowledge,
}

/// Execute a kernel command against the process table and the
/// oracle: initialization records the process and its capabilities,
/// killing removes both, grants and drops touch only the ledger.
pub fn handle_kernel_command(
    map: &mut ProcessMap,
    oracle: &mut CapOracle,
    cmd: KernelCommand,
) -> (r: KernelEffect)
    ensures
        final(oracle).our_node@ == old(oracle).our_node@,
        final(oracle).public_key@ == old(oracle).public_key@,
        cmd matches KernelCommand::InitializeProcess {
            ref id,
            ref wasm_bytes_handle,
            wit_version,
            ref on_exit,
            ref initial_capabilities,
            public,
        } ==> {
            &&& (match map_lookup(final(map).entries@, id@) {
                Some(rec) => {
                    &&& rec.wasm_bytes_handle@ == wasm_bytes_handle@
                    &&& rec.wit_version == wit_version
                    &&& rec.public == public
                    &&& plain_caps_view(rec.capabilities@) == strip_caps(
                        caps_view(initial_capabilities@),
                    )
                },
                None => false,
            })
            &&& (forall|q: ProcessIdView|
                q != id@ ==> map_lookup(final(map).entries@, q) == map_lookup(
                    old(map).entries@,
                    q,
                ))
            &&& (forall|o: ProcessIdView, c: CapabilityView|
                final(oracle).holds(o, c) <==> (old(oracle).holds(o, c) || (o == id@ && (exists|
                    k: int,
                |
                    0 <= k < initial_capabilities@.len() && c == (
                    #[trigger] initial_capabilities@[k])@.cap))))
            &&& (r matches KernelEffect::SpawnInstance(p) && p@ == id@)
        },
        cmd matches KernelCommand::RunProcess(ref p) ==> final(map).entries@ == old(map).entries@
            && final(oracle).items@ == old(oracle).items@ && (r matches KernelEffect::SendRun(q)
            && q@ == p@),
        cmd matches KernelCommand::KillProcess(ref p) ==> {
            &&& map_lookup(final(map).entries@, p@) is None
            &&& (forall|q: ProcessIdView|
                q != p@ ==> map_lookup(final(map).entries@, q) == map_lookup(old(map).entries@, q))
            &&& (forall|o: ProcessIdView, c: CapabilityView|
                final(oracle).holds(o, c) <==> (old(oracle).holds(o, c) && !(o == p@
                    || c.issuer.process == p@)))
            &&& (r matches KernelEffect::DropInstance(q) && q@ == p@)
        },
        cmd matches KernelCommand::GrantCapabilities { ref target, ref capabilities } ==> {
            &&& final(map).entries@ == old(map).entries@
            &&& (forall|o: ProcessIdView, c: CapabilityView|
                final(oracle).holds(o, c) <==> (old(oracle).holds(o, c) || (o == target@ && (
                exists|k: int|
                    0 <= k < capabilities@.len() && c == (#[trigger] capabilities@[k])@.cap))))
            &&& r is Acknowledge
        },
        cmd matches KernelCommand::DropCapabilities { ref target, ref capabilities } ==> {
            &&& final(map).entries@ == old(map).entries@
            &&& (forall|o: ProcessIdView, c: CapabilityView|
                final(oracle).holds(o, c) <==> (old(oracle).holds(o, c) && !(o == target@ && (
                exists|k: int|
                    0 <= k < capabilities@.len() && c == (#[trigger] capabilities@[k])@))))
            &&& r is Acknowledge
        },
{
    match cmd {
        KernelCommand::InitializeProcess {
            id,
            wasm_bytes_handle,
            wit_version,
            on_exit,
            initial_capabilities,
            public,
        } => {
            grant_caps_to(oracle, &id, &initial_capabilities);
            let record = ProcessRecord {
                wasm_bytes_handle,
                on_exit,
                capabilities: bare_caps(&initial_capabilities),
                public,
                wit_version,
            };
            let spawned = id.clone_pid();
            map.insert(id, record);
            KernelEffect::SpawnInstance(spawned)
        },
        KernelCommand::RunProcess(p) => KernelEffect::SendRun(p),
        KernelCommand::KillProcess(p) => {
            map.remove(&p);
            oracle.revoke_all(&p);
            KernelEffect::DropInstance(p)
        },
        KernelCommand::GrantCapabilities { target, capabilities } => {
            grant_caps_to(oracle, &target, &capabilities);
            KernelEffect::Acknowledge
        },
        KernelCommand::DropCapabilities { target, capabilities } => {
            let n: usize = capabilities.len();
            let mut i: usize = 0;
            while i < n
                invariant
                    n == capabilities@.len(),
                    i <= n,
                    oracle.our_node@ == old(oracle).our_node@,
                    oracle.public_key@ == old(oracle).public_key@,
                    forall|o: ProcessIdView, c: CapabilityView|
                        oracle.holds(o, c) <==> (old(oracle).holds(o, c) && !(o == target@ && (
                        exists|k: int|
                            0 <= k < i && c == (#[trigger] capabilities@[k])@))),
                decreases n - i,
            {
                oracle.drop_cap(&target, &capabilities[i]);
                i += 1;
            }
            KernelEffect::Acknowledge
        },
    }
}

/// Insert every capability of a transit list for one subject.
fn grant_caps_to(oracle: &mut CapOracle, target: &ProcessId, capabilities: &Vec<SignedCapability>)
    ensures
        final(oracle).our_node@ == old(oracle).our_node@,
        final(oracle).public_key@ == old(oracle).public_key@,
        forall|o: ProcessIdView, c: CapabilityView|
            final(oracle).holds(o, c) <==> (old(oracle).holds(o, c) || (o == target@ && (exists|
                k: int,
            |
                0 <= k < capabilities@.len() && c == (#[trigger] capabilities@[k])@.cap))),
{
    let n: usize = capabilities.len();
    let mut i: usize = 0;
    while i < n
        invariant
            n == capabilities@.len(),
            i <= n,
            oracle.our_node@ == old(oracle).our_node@,
            oracle.public_key@ == old(oracle).public_key@,
            forall|o: ProcessIdView, c: CapabilityView|
                oracle.holds(o, c) <==> (old(oracle).holds(o, c) || (o == target@ && (exists|
                    k: int,
                |
                    0 <= k < i && c == (#[trigger] capabilities@[k])@.cap))),
        decreases n - i,
    {
        oracle.add_signed(target, capabilities[i].clone_signed());
        i += 1;
    }
}

} // verus!
