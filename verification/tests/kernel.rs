//! The oracle, the dispatch admission rule, and the process instance
//! state machine: grants, denials, pruning of forged capabilities,
//! request/response correlation and timeout coupling.

use process_kernel::dispatch::{
    build_send_error, check_admission, handle_kernel_command, route, DeliveryDecision,
    KernelCommand, KernelEffect,
};
use process_kernel::state_service::ProcessMap;
use process_kernel::ids::{Address, ProcessId};
use process_kernel::message::{
    Capability, KernelMessage, LazyLoadBlob, Message, Request, Response, SendErrorKind,
    SignedCapability, WrappedSendError, SendError,
};
use process_kernel::oracle::CapOracle;
use process_kernel::process::{
    boot_gate, on_exit_actions, BootGate, ExitAction, OnExit, OnExitRequest, ProcessState,
    QueueItem, Received,
};

fn pid(name: &str, package: &str, publisher: &str) -> ProcessId {
    ProcessId {
        name: name.as_bytes().to_vec(),
        package: package.as_bytes().to_vec(),
        publisher: publisher.as_bytes().to_vec(),
    }
}

fn addr(node: &str, p: ProcessId) -> Address {
    Address { node: node.as_bytes().to_vec(), process: p }
}

fn new_oracle(node: &str) -> CapOracle {
    let rng = ring::rand::SystemRandom::new();
    let doc = ring::signature::Ed25519KeyPair::generate_pkcs8(&rng).unwrap();
    let kp = ring::signature::Ed25519KeyPair::from_pkcs8(doc.as_ref()).unwrap();
    CapOracle::new(node.as_bytes().to_vec(), kp)
}

fn messaging_cap(node: &str, issuer: ProcessId) -> Capability {
    Capability {
        issuer: addr(node, issuer),
        params: process_kernel::caps::make_messaging_params(),
    }
}

#[test]
fn oracle_add_has_drop_are_idempotent() {
    let mut oracle = new_oracle("alice");
    let a = pid("app", "pkg", "pub");
    let cap = messaging_cap("alice", pid("echo", "terminal", "sys"));
    assert!(!oracle.has(&a, &cap));
    oracle.add_local(&a, &cap);
    assert!(oracle.has(&a, &cap));
    let before = oracle.items.len();
    oracle.add_local(&a, &cap);
    assert_eq!(oracle.items.len(), before);
    oracle.drop_cap(&a, &cap);
    assert!(!oracle.has(&a, &cap));
    oracle.drop_cap(&a, &cap);
    assert!(!oracle.has(&a, &cap));
}

#[test]
fn oracle_filters_to_held_caps_only() {
    let mut oracle = new_oracle("alice");
    let a = pid("app", "pkg", "pub");
    let held = messaging_cap("alice", pid("echo", "terminal", "sys"));
    let not_held = messaging_cap("alice", pid("net", "distro", "sys"));
    oracle.add_local(&a, &held);
    let offered = vec![not_held.clone_cap(), held.clone_cap(), not_held.clone_cap()];
    let kept = oracle.filter_caps(&a, &offered);
    assert_eq!(kept.len(), 1);
    assert!(kept[0].cap.eq_cap(&held));
    assert_eq!(kept[0].sig.len(), 64);
}

#[test]
fn oracle_revoke_all_sweeps_subject_and_issuer() {
    let mut oracle = new_oracle("alice");
    let doomed = pid("victim", "pkg", "pub");
    let other = pid("other", "pkg", "pub");
    let by_doomed = messaging_cap("alice", doomed.clone_pid());
    let by_other = messaging_cap("alice", other.clone_pid());
    oracle.add_local(&doomed, &by_other);
    oracle.add_local(&other, &by_doomed);
    oracle.add_local(&other, &by_other);
    oracle.revoke_all(&doomed);
    assert!(!oracle.has(&doomed, &by_other));
    assert!(!oracle.has(&other, &by_doomed));
    assert!(oracle.has(&other, &by_other));
}

fn plain_request(body: &[u8], expects: Option<u64>) -> Request {
    Request {
        inherit: false,
        expects_response: expects,
        body: body.to_vec(),
        metadata: None,
        capabilities: vec![],
    }
}

fn envelope(id: u64, source: Address, target: Address, message: Message) -> KernelMessage {
    KernelMessage { id, source, target, rsvp: None, message, blob: None }
}

#[test]
fn dispatch_denies_without_messaging_cap() {
    let oracle = new_oracle("alice");
    let kernel = pid("kernel", "distro", "sys");
    let x = addr("alice", pid("x", "pkg", "pub"));
    let y = addr("alice", pid("y", "pkg", "pub"));
    let km = envelope(1, x, y, Message::Request(plain_request(b"go", None)));
    assert!(!check_admission(&oracle, &km, false, &kernel));
    match route(&oracle, &km, true, false, &kernel) {
        DeliveryDecision::Reject(kind) => assert_eq!(kind, SendErrorKind::Denied),
        _ => panic!("a capability-less request must be rejected"),
    }
    let err = build_send_error(km, SendErrorKind::Denied);
    assert_eq!(err.id, 1);
    assert_eq!(err.error.kind, SendErrorKind::Denied);
}

#[test]
fn dispatch_admits_with_cap_public_self_or_kernel() {
    let mut oracle = new_oracle("alice");
    let kernel = pid("kernel", "distro", "sys");
    let x = addr("alice", pid("x", "pkg", "pub"));
    let y = addr("alice", pid("y", "pkg", "pub"));
    let km = envelope(
        1,
        x.clone_address(),
        y.clone_address(),
        Message::Request(plain_request(b"go", None)),
    );
    oracle.add_local(&x.process, &messaging_cap("alice", y.process.clone_pid()));
    assert!(check_admission(&oracle, &km, false, &kernel));
    match route(&oracle, &km, true, false, &kernel) {
        DeliveryDecision::Deliver => {}
        _ => panic!("an entitled request must be delivered"),
    }
    // Public target needs no capability.
    let km2 = envelope(
        2,
        addr("alice", pid("z", "pkg", "pub")),
        y.clone_address(),
        Message::Request(plain_request(b"go", None)),
    );
    assert!(check_admission(&oracle, &km2, true, &kernel));
    // Self-addressed passes.
    let km3 = envelope(
        3,
        y.clone_address(),
        y.clone_address(),
        Message::Request(plain_request(b"go", None)),
    );
    assert!(check_admission(&oracle, &km3, false, &kernel));
    // The kernel passes.
    let km4 = envelope(
        4,
        addr("alice", pid("kernel", "distro", "sys")),
        y,
        Message::Request(plain_request(b"go", None)),
    );
    assert!(check_admission(&oracle, &km4, false, &kernel));
    // Responses pass freely.
    let km5 = envelope(
        5,
        addr("alice", pid("z", "pkg", "pub")),
        x,
        Message::Response(Response {
            inherit: false,
            body: vec![],
            metadata: None,
            capabilities: vec![],
        }),
    );
    assert!(check_admission(&oracle, &km5, false, &kernel));
}

#[test]
fn request_and_response_correlate_and_cancel_the_timer() {
    let oracle = new_oracle("alice");
    let our = addr("alice", pid("a", "pkg", "pub"));
    let target = addr("alice", pid("b", "pkg", "pub"));
    let pk = oracle.public_key.clone();
    let mut state = ProcessState::new(our, pk);
    let out = state.send_request(
        &oracle,
        None,
        target,
        plain_request(b"hi", Some(5)),
        Some(b"ctx".to_vec()),
        None,
    );
    let id = out.envelope.id;
    let timer = out.timer.expect("a response-expecting request starts a timer");
    assert_eq!(timer.id, id);
    assert_eq!(timer.seconds, 5);
    assert!(state.contexts_contains(id));
    // The rsvp points back at the sender.
    assert!(out.envelope.rsvp.is_some());
    // A matching response consumes the context and cancels the timer.
    let resp = envelope(
        id,
        addr("alice", pid("b", "pkg", "pub")),
        addr("alice", pid("a", "pkg", "pub")),
        Message::Response(Response {
            inherit: false,
            body: b"hi".to_vec(),
            metadata: None,
            capabilities: vec![],
        }),
    );
    match state.ingest(QueueItem::Message(resp)) {
        Received::Delivered { user_context, cancel_timer, .. } => {
            assert_eq!(cancel_timer, Some(id));
            assert_eq!(user_context, Some(b"ctx".to_vec()));
        }
        Received::Failed { .. } => panic!("a response is not a failure"),
    }
    assert!(!state.contexts_contains(id));
    // A late timeout for the same id finds nothing to cancel.
    let late = WrappedSendError {
        id,
        source: addr("alice", pid("b", "pkg", "pub")),
        error: SendError {
            kind: SendErrorKind::Timeout,
            target: addr("alice", pid("b", "pkg", "pub")),
            message: Message::Request(plain_request(b"hi", Some(5))),
            blob: None,
        },
    };
    match state.ingest(QueueItem::Failure(late)) {
        Received::Failed { cancel_timer, user_context, .. } => {
            assert_eq!(cancel_timer, None);
            assert_eq!(user_context, None);
        }
        Received::Delivered { .. } => panic!("a failure is not a delivery"),
    }
}

#[test]
fn timeout_before_response_restores_the_context() {
    let oracle = new_oracle("alice");
    let our = addr("alice", pid("a", "pkg", "pub"));
    let target = addr("alice", pid("b", "pkg", "pub"));
    let mut state = ProcessState::new(our, oracle.public_key.clone());
    let out = state.send_request(
        &oracle,
        None,
        target,
        plain_request(b"x", Some(1)),
        Some(b"ctx".to_vec()),
        None,
    );
    let id = out.envelope.id;
    let timeout = WrappedSendError {
        id,
        source: addr("alice", pid("b", "pkg", "pub")),
        error: SendError {
            kind: SendErrorKind::Timeout,
            target: addr("alice", pid("b", "pkg", "pub")),
            message: Message::Request(plain_request(b"x", Some(1))),
            blob: None,
        },
    };
    match state.ingest(QueueItem::Failure(timeout)) {
        Received::Failed { error, user_context, cancel_timer } => {
            assert_eq!(error.kind, SendErrorKind::Timeout);
            assert_eq!(user_context, Some(b"ctx".to_vec()));
            assert_eq!(cancel_timer, Some(id));
        }
        Received::Delivered { .. } => panic!("a timeout is a failure"),
    }
    assert!(!state.contexts_contains(id));
}

#[test]
fn foreign_cap_claiming_local_issuer_is_pruned_without_signature() {
    let oracle = new_oracle("alice");
    let our = addr("alice", pid("p", "pkg", "pub"));
    let mut state = ProcessState::new(our, oracle.public_key.clone());
    // A foreign node hands us a cap that the local node allegedly
    // issued, with garbage in place of the signature.
    let forged = SignedCapability {
        cap: Capability {
            issuer: addr("alice", pid("vfs", "distro", "sys")),
            params: process_kernel::caps::make_messaging_params(),
        },
        sig: vec![0u8; 64],
    };
    let harmless = SignedCapability {
        cap: Capability {
            issuer: addr("zorro", pid("vfs", "distro", "sys")),
            params: process_kernel::caps::make_messaging_params(),
        },
        sig: vec![],
    };
    let km = KernelMessage {
        id: 42,
        source: addr("zorro", pid("q", "pkg", "pub")),
        target: addr("alice", pid("p", "pkg", "pub")),
        rsvp: None,
        message: Message::Request(Request {
            inherit: false,
            expects_response: None,
            body: b"go".to_vec(),
            metadata: None,
            capabilities: vec![forged, harmless],
        }),
        blob: None,
    };
    match state.ingest(QueueItem::Message(km)) {
        Received::Delivered { message, .. } => match message {
            Message::Request(q) => {
                assert_eq!(q.capabilities.len(), 1);
                assert_eq!(q.capabilities[0].cap.issuer.node, b"zorro".to_vec());
            }
            Message::Response(_) => panic!("variant changed"),
        },
        Received::Failed { .. } => panic!("delivery expected"),
    }
}

#[test]
fn properly_signed_foreign_cap_survives_pruning() {
    let mut oracle = new_oracle("alice");
    let holder = pid("p", "pkg", "pub");
    let cap = messaging_cap("alice", pid("vfs", "distro", "sys"));
    oracle.add_local(&holder, &cap);
    let signed = {
        let offered = vec![cap.clone_cap()];
        let mut kept = oracle.filter_caps(&holder, &offered);
        kept.remove(0)
    };
    let our = addr("alice", pid("p", "pkg", "pub"));
    let mut state = ProcessState::new(our, oracle.public_key.clone());
    let km = KernelMessage {
        id: 43,
        source: addr("zorro", pid("q", "pkg", "pub")),
        target: addr("alice", pid("p", "pkg", "pub")),
        rsvp: None,
        message: Message::Request(Request {
            inherit: false,
            expects_response: None,
            body: b"go".to_vec(),
            metadata: None,
            capabilities: vec![signed],
        }),
        blob: None,
    };
    match state.ingest(QueueItem::Message(km)) {
        Received::Delivered { message, .. } => match message {
            Message::Request(q) => assert_eq!(q.capabilities.len(), 1),
            Message::Response(_) => panic!("variant changed"),
        },
        Received::Failed { .. } => panic!("delivery expected"),
    }
}

#[test]
fn inbox_is_fifo_and_awaiting_does_not_reorder() {
    let oracle = new_oracle("alice");
    let our = addr("alice", pid("p", "pkg", "pub"));
    let mut state = ProcessState::new(our, oracle.public_key.clone());
    for id in [10u64, 11, 12] {
        let km = envelope(
            id,
            addr("alice", pid("q", "pkg", "pub")),
            addr("alice", pid("p", "pkg", "pub")),
            Message::Request(plain_request(b"m", None)),
        );
        state.deliver(QueueItem::Message(km));
    }
    // Awaiting id 11 pulls it out and leaves 10 before 12.
    let taken = state.take_specific(11).expect("id 11 is queued");
    match taken {
        QueueItem::Message(km) => assert_eq!(km.id, 11),
        QueueItem::Failure(_) => panic!("queued a message"),
    }
    match state.pop_next().unwrap() {
        QueueItem::Message(km) => assert_eq!(km.id, 10),
        QueueItem::Failure(_) => panic!(),
    }
    match state.pop_next().unwrap() {
        QueueItem::Message(km) => assert_eq!(km.id, 12),
        QueueItem::Failure(_) => panic!(),
    }
    assert!(state.pop_next().is_none());
    assert!(state.take_specific(99).is_none());
}

#[test]
fn boot_gate_holds_everything_but_the_run_command() {
    let kernel = addr("alice", pid("kernel", "distro", "sys"));
    let run = envelope(
        1,
        addr("alice", pid("kernel", "distro", "sys")),
        addr("alice", pid("p", "pkg", "pub")),
        Message::Request(plain_request(b"run", None)),
    );
    assert!(matches!(
        boot_gate(QueueItem::Message(run), &kernel),
        BootGate::Run
    ));
    let not_kernel = envelope(
        2,
        addr("alice", pid("q", "pkg", "pub")),
        addr("alice", pid("p", "pkg", "pub")),
        Message::Request(plain_request(b"run", None)),
    );
    assert!(matches!(
        boot_gate(QueueItem::Message(not_kernel), &kernel),
        BootGate::Hold(_)
    ));
    let wrong_body = envelope(
        3,
        addr("alice", pid("kernel", "distro", "sys")),
        addr("alice", pid("p", "pkg", "pub")),
        Message::Request(plain_request(b"walk", None)),
    );
    assert!(matches!(
        boot_gate(QueueItem::Message(wrong_body), &kernel),
        BootGate::Hold(_)
    ));
}

#[test]
fn replay_preserves_pre_boot_arrival_order() {
    let oracle = new_oracle("alice");
    let our = addr("alice", pid("p", "pkg", "pub"));
    let mut state = ProcessState::new(our, oracle.public_key.clone());
    let make = |id: u64| {
        QueueItem::Message(envelope(
            id,
            addr("alice", pid("q", "pkg", "pub")),
            addr("alice", pid("p", "pkg", "pub")),
            Message::Request(plain_request(b"m", None)),
        ))
    };
    state.replay(vec![make(1), make(2), make(3)]);
    for want in [1u64, 2, 3] {
        match state.pop_next().unwrap() {
            QueueItem::Message(km) => assert_eq!(km.id, want),
            QueueItem::Failure(_) => panic!(),
        }
    }
}

#[test]
fn responses_answer_the_prompting_request_at_its_rsvp() {
    let oracle = new_oracle("alice");
    let our = addr("alice", pid("b", "pkg", "pub"));
    let mut state = ProcessState::new(our, oracle.public_key.clone());
    // No incoming request yet: a response out of turn is dropped.
    let stray = Response { inherit: false, body: vec![], metadata: None, capabilities: vec![] };
    assert!(state.send_response(&oracle, stray, None).is_none());
    // With an incoming request carrying an rsvp, the response goes
    // there under the request's id.
    let km = KernelMessage {
        id: 77,
        source: addr("alice", pid("a", "pkg", "pub")),
        target: addr("alice", pid("b", "pkg", "pub")),
        rsvp: Some(addr("alice", pid("terminal", "terminal", "sys"))),
        message: Message::Request(plain_request(b"work", Some(5))),
        blob: None,
    };
    state.ingest(QueueItem::Message(km));
    let reply = state
        .send_response(
            &oracle,
            Response { inherit: false, body: b"done".to_vec(), metadata: None, capabilities: vec![] },
            None,
        )
        .expect("an incoming request to answer");
    assert_eq!(reply.id, 77);
    assert!(reply.target.process.eq_pid(&pid("terminal", "terminal", "sys")));
    assert!(reply.rsvp.is_none());
}

#[test]
fn kernel_commands_manage_records_and_capabilities() {
    let mut oracle = new_oracle("alice");
    let mut map = ProcessMap::new();
    let new_pid = pid("fresh", "pkg", "pub");
    let cap = messaging_cap("alice", pid("echo", "terminal", "sys"));
    let signed = {
        let mut tmp = new_oracle("alice");
        tmp.add_local(&pid("x", "y", "z"), &cap);
        tmp.get_all(&pid("x", "y", "z")).remove(0)
    };
    let effect = handle_kernel_command(
        &mut map,
        &mut oracle,
        KernelCommand::InitializeProcess {
            id: new_pid.clone_pid(),
            wasm_bytes_handle: b"/pkg:pub/pkg/fresh.wasm".to_vec(),
            wit_version: 1,
            on_exit: OnExit::Quit,
            initial_capabilities: vec![signed],
            public: false,
        },
    );
    match effect {
        KernelEffect::SpawnInstance(p) => assert!(p.eq_pid(&new_pid)),
        _ => panic!("initialization spawns"),
    }
    assert!(map.contains(&new_pid));
    assert!(oracle.has(&new_pid, &cap));
    match handle_kernel_command(&mut map, &mut oracle, KernelCommand::RunProcess(new_pid.clone_pid()))
    {
        KernelEffect::SendRun(p) => assert!(p.eq_pid(&new_pid)),
        _ => panic!("running sends run"),
    }
    match handle_kernel_command(
        &mut map,
        &mut oracle,
        KernelCommand::DropCapabilities {
            target: new_pid.clone_pid(),
            capabilities: vec![cap.clone_cap()],
        },
    ) {
        KernelEffect::Acknowledge => {}
        _ => panic!("drops acknowledge"),
    }
    assert!(!oracle.has(&new_pid, &cap));
    match handle_kernel_command(&mut map, &mut oracle, KernelCommand::KillProcess(new_pid.clone_pid()))
    {
        KernelEffect::DropInstance(p) => assert!(p.eq_pid(&new_pid)),
        _ => panic!("killing drops the instance"),
    }
    assert!(!map.contains(&new_pid));
}

#[test]
fn exit_actions_follow_the_policy() {
    let mut oracle = new_oracle("alice");
    let our = addr("alice", pid("c", "pkg", "pub"));
    let peer = addr("alice", pid("d", "pkg", "pub"));
    let stranger = addr("alice", pid("e", "pkg", "pub"));
    oracle.add_local(&our.process, &messaging_cap("alice", peer.process.clone_pid()));

    let quit = on_exit_actions(&oracle, &our, OnExit::Quit, false);
    assert_eq!(quit.len(), 1);
    assert!(matches!(quit[0], ExitAction::RemoveProcess));

    let crashed = on_exit_actions(&oracle, &our, OnExit::Restart, true);
    assert_eq!(crashed.len(), 1);

    let clean = on_exit_actions(&oracle, &our, OnExit::Restart, false);
    assert_eq!(clean.len(), 2);
    match &clean[1] {
        ExitAction::Reinitialize { capabilities } => assert_eq!(capabilities.len(), 1),
        _ => panic!("a clean restart re-initializes"),
    }

    let reqs = vec![
        OnExitRequest {
            target: peer.clone_address(),
            request: plain_request(b"bye", Some(9)),
            blob: None,
        },
        OnExitRequest {
            target: stranger,
            request: plain_request(b"bye", None),
            blob: None,
        },
    ];
    let farewell = on_exit_actions(&oracle, &our, OnExit::Requests(reqs), false);
    // Only the entitled farewell goes out, with its response
    // expectation cleared.
    assert_eq!(farewell.len(), 2);
    match &farewell[1] {
        ExitAction::Emit { target, request, .. } => {
            assert!(target.eq_address(&peer));
            assert_eq!(request.expects_response, None);
            assert_eq!(request.body, b"bye".to_vec());
        }
        _ => panic!("the entitled farewell is emitted"),
    }
}
