//! The persistent-state service, the bootstrap, the file system
//! rules, and the terminal grammar.

use process_kernel::caps::{make_drive_path, make_kind_drive_params, make_messaging_params};
use process_kernel::ids::{Address, PackageId, ProcessId};
use process_kernel::message::{Capability, KernelMessage, LazyLoadBlob, Message, Request};
use process_kernel::oracle::CapOracle;
use process_kernel::process::OnExit;
use process_kernel::state_service::{
    bootstrap, encode_state_reply, error_reply_target, make_service_response, plan_state_action,
    service_reply_target, state_reply_of, state_request_plan, take_state_action, put_state_action,
    DbOp, DbResult, ManifestEntry, PackageManifest, RuntimeModule, StateAction, StateError,
    StateResponse,
};
use process_kernel::terminal::{
    granted_caps, parse_command_line, requested_caps, terminal_step, AliasEntry, AliasTable,
    CapRequest, TerminalEvent,
};
use process_kernel::vfs::{
    parse_package_and_drive, plan_zip_extract, put_vfs_request, take_vfs_request, vfs_check_caps,
    vfs_reply_of, vfs_request_parse, FsOutcome, SeekSpec, VfsAction, VfsError, VfsQueues,
    VfsRequest, VfsResponse, ZipFileOp,
};
use std::io::Write;

fn pid(name: &str, package: &str, publisher: &str) -> ProcessId {
    ProcessId {
        name: name.as_bytes().to_vec(),
        package: package.as_bytes().to_vec(),
        publisher: publisher.as_bytes().to_vec(),
    }
}

fn addr(node: &str, p: ProcessId) -> Address {
    Address { node: node.as_bytes().to_vec(), process: p }
}

fn new_oracle(node: &str) -> CapOracle {
    let rng = ring::rand::SystemRandom::new();
    let doc = ring::signature::Ed25519KeyPair::generate_pkcs8(&rng).unwrap();
    let kp = ring::signature::Ed25519KeyPair::from_pkcs8(doc.as_ref()).unwrap();
    CapOracle::new(node.as_bytes().to_vec(), kp)
}

#[test]
fn state_action_codec_round_trips() {
    let a = StateAction::SetState(pid("app", "pkg", "pub"));
    let mut bytes: Vec<u8> = Vec::new();
    put_state_action(&mut bytes, &a);
    match take_state_action(&bytes).unwrap() {
        StateAction::SetState(p) => assert!(p.eq_pid(&pid("app", "pkg", "pub"))),
        _ => panic!("variant changed"),
    }
    let mut b2: Vec<u8> = Vec::new();
    put_state_action(&mut b2, &StateAction::Backup);
    assert!(matches!(take_state_action(&b2), Some(StateAction::Backup)));
    assert!(take_state_action(&Vec::new()).is_none());
    assert!(take_state_action(&vec![9u8]).is_none());
}

#[test]
fn state_plan_keys_by_digest_and_requires_payload() {
    let p = pid("app", "pkg", "pub");
    let set = StateAction::SetState(p.clone_pid());
    let blob = LazyLoadBlob { mime: None, bytes: b"v".to_vec() };
    match plan_state_action(&set, &Some(blob)).unwrap() {
        DbOp::Put { key, value } => {
            assert_eq!(key.as_slice(), blake3::hash(b"app:pkg:pub").as_bytes());
            assert_eq!(value, b"v".to_vec());
        }
        _ => panic!("a set plans a put"),
    }
    match plan_state_action(&set, &None) {
        Err(StateError::BadBytes) => {}
        _ => panic!("a set without payload is BadBytes"),
    }
    match plan_state_action(&StateAction::GetState(p.clone_pid()), &None).unwrap() {
        DbOp::Get { key } => assert_eq!(key.len(), 32),
        _ => panic!("a get plans a get"),
    }
    assert!(matches!(
        plan_state_action(&StateAction::Backup, &None).unwrap(),
        DbOp::Checkpoint
    ));
}

#[test]
fn state_replies_follow_the_outcome() {
    let p = pid("app", "pkg", "pub");
    let get = StateAction::GetState(p.clone_pid());
    let (r, payload) = state_reply_of(&get, DbResult::Found(b"v".to_vec()));
    assert!(matches!(r, Ok(StateResponse::GetState)));
    assert_eq!(payload, Some(b"v".to_vec()));
    let (r, payload) = state_reply_of(&get, DbResult::Absent);
    assert!(matches!(r, Err(StateError::NotFound)));
    assert!(payload.is_none());
    // Deleting an absent key still succeeds: deletion is idempotent.
    let del = StateAction::DeleteState(p.clone_pid());
    let (r, _) = state_reply_of(&del, DbResult::Done);
    assert!(matches!(r, Ok(StateResponse::DeleteState)));
    let (r, _) = state_reply_of(&del, DbResult::Failed(b"disk on fire".to_vec()));
    assert!(matches!(r, Err(StateError::StoreError { .. })));
    // The reply body encodings are distinct.
    assert_ne!(
        encode_state_reply(&Ok(StateResponse::SetState)),
        encode_state_reply(&Err(StateError::NotFound))
    );
}

#[test]
fn service_reply_goes_to_rsvp_else_to_an_expecting_sender() {
    let our_node = b"alice".to_vec();
    let base = KernelMessage {
        id: 7,
        source: addr("alice", pid("app", "pkg", "pub")),
        target: addr("alice", pid("state", "distro", "sys")),
        rsvp: None,
        message: Message::Request(Request {
            inherit: false,
            expects_response: Some(5),
            body: vec![],
            metadata: None,
            capabilities: vec![],
        }),
        blob: None,
    };
    let t = service_reply_target(&our_node, &base).expect("an expecting sender is answered");
    assert!(t.process.eq_pid(&pid("app", "pkg", "pub")));
    let with_rsvp = KernelMessage {
        rsvp: Some(addr("alice", pid("term", "terminal", "sys"))),
        ..base
    };
    let t2 = service_reply_target(&our_node, &with_rsvp).unwrap();
    assert!(t2.process.eq_pid(&pid("term", "terminal", "sys")));
    let fire_and_forget = KernelMessage {
        id: 8,
        source: addr("alice", pid("app", "pkg", "pub")),
        target: addr("alice", pid("state", "distro", "sys")),
        rsvp: None,
        message: Message::Request(Request {
            inherit: false,
            expects_response: None,
            body: vec![],
            metadata: None,
            capabilities: vec![],
        }),
        blob: None,
    };
    assert!(service_reply_target(&our_node, &fire_and_forget).is_none());
}

#[test]
fn state_requests_parse_plan_and_answer_as_envelopes() {
    let p = pid("app", "pkg", "pub");
    let mut body: Vec<u8> = Vec::new();
    put_state_action(&mut body, &StateAction::GetState(p.clone_pid()));
    let km = KernelMessage {
        id: 12,
        source: addr("alice", pid("app", "pkg", "pub")),
        target: addr("alice", pid("state", "distro", "sys")),
        rsvp: None,
        message: Message::Request(Request {
            inherit: false,
            expects_response: Some(5),
            body,
            metadata: None,
            capabilities: vec![],
        }),
        blob: None,
    };
    let (action, op) = state_request_plan(&km).unwrap();
    assert!(matches!(action, StateAction::GetState(_)));
    assert!(matches!(op, DbOp::Get { .. }));
    // A garbage body is BadJson.
    let bad = KernelMessage {
        id: 13,
        source: addr("alice", pid("app", "pkg", "pub")),
        target: addr("alice", pid("state", "distro", "sys")),
        rsvp: None,
        message: Message::Request(Request {
            inherit: false,
            expects_response: Some(5),
            body: b"???".to_vec(),
            metadata: None,
            capabilities: vec![],
        }),
        blob: None,
    };
    assert!(matches!(state_request_plan(&bad), Err(StateError::BadJson)));
    // The reply rides back as a response envelope from the service.
    let (reply, payload) = state_reply_of(&action, DbResult::Found(b"v".to_vec()));
    let target = service_reply_target(&b"alice".to_vec(), &km).unwrap();
    let out = make_service_response(
        &b"alice".to_vec(),
        &pid("state", "distro", "sys"),
        km.id,
        target,
        encode_state_reply(&reply),
        None,
        payload,
    );
    assert_eq!(out.id, 12);
    assert!(out.source.process.eq_pid(&pid("state", "distro", "sys")));
    assert!(out.target.process.eq_pid(&pid("app", "pkg", "pub")));
    assert!(matches!(out.message, Message::Response(_)));
    assert_eq!(out.blob.map(|b| b.bytes), Some(b"v".to_vec()));
    // Errors go to the rsvp when one is set, else to the sender.
    let t = error_reply_target(&bad);
    assert!(t.process.eq_pid(&pid("app", "pkg", "pub")));
}

#[test]
fn bootstrap_gives_each_manifest_record_its_caps_exactly() {
    let our_node = b"alice".to_vec();
    let kernel = pid("kernel", "distro", "sys");
    let net = pid("net", "distro", "sys");
    let vfs = pid("vfs", "distro", "sys");
    let exts = vec![RuntimeModule { pid: pid("http", "distro", "sys"), public: true }];
    let packages = vec![PackageManifest {
        package: b"chat".to_vec(),
        publisher: b"pub".to_vec(),
        entries: vec![ManifestEntry {
            process_name: b"chat".to_vec(),
            process_wasm_path: b"/chat.wasm".to_vec(),
            on_exit: OnExit::Restart,
            request_networking: true,
            request_messaging: vec![pid("net", "distro", "sys")],
            public: false,
        }],
    }];
    let map = bootstrap(&our_node, &kernel, &net, &vfs, &exts, packages);
    // kernel, net, one runtime module, one manifest process.
    assert_eq!(map.entries.len(), 4);
    let rec = &map
        .entries
        .iter()
        .find(|e| e.pid.eq_pid(&pid("chat", "chat", "pub")))
        .expect("the manifest process is recorded")
        .record;
    assert!(!rec.public);
    assert!(matches!(rec.on_exit, OnExit::Restart));
    assert_eq!(rec.wasm_bytes_handle, b"/chat:pub/pkg/chat.wasm".to_vec());
    // Exactly: messaging to net, messaging to itself, the network
    // token, and its own drive's read and write tokens.
    assert_eq!(rec.capabilities.len(), 5);
    let drive = make_drive_path(
        &PackageId { package: b"chat".to_vec(), publisher: b"pub".to_vec() },
        &b"pkg".to_vec(),
    );
    let write_cap = Capability {
        issuer: addr("alice", pid("vfs", "distro", "sys")),
        params: make_kind_drive_params(true, &drive),
    };
    assert!(rec.capabilities.iter().any(|c| c.eq_cap(&write_cap)));
    let own_msg = Capability {
        issuer: addr("alice", pid("chat", "chat", "pub")),
        params: make_messaging_params(),
    };
    assert!(rec.capabilities.iter().any(|c| c.eq_cap(&own_msg)));
    let unrelated = Capability {
        issuer: addr("alice", pid("kernel", "distro", "sys")),
        params: make_messaging_params(),
    };
    assert!(!rec.capabilities.iter().any(|c| c.eq_cap(&unrelated)));
}

#[test]
fn process_map_persists_and_reloads() {
    let our_node = b"alice".to_vec();
    let kernel = pid("kernel", "distro", "sys");
    let net = pid("net", "distro", "sys");
    let vfs = pid("vfs", "distro", "sys");
    let exts: Vec<RuntimeModule> = vec![];
    let packages = vec![PackageManifest {
        package: b"chat".to_vec(),
        publisher: b"pub".to_vec(),
        entries: vec![ManifestEntry {
            process_name: b"chat".to_vec(),
            process_wasm_path: b"chat.wasm".to_vec(),
            on_exit: OnExit::Requests(vec![process_kernel::process::OnExitRequest {
                target: addr("alice", pid("log", "pkg", "pub")),
                request: Request {
                    inherit: false,
                    expects_response: None,
                    body: b"bye".to_vec(),
                    metadata: None,
                    capabilities: vec![],
                },
                blob: Some(LazyLoadBlob { mime: None, bytes: b"blob".to_vec() }),
            }]),
            request_networking: false,
            request_messaging: vec![],
            public: true,
        }],
    }];
    let map = bootstrap(&our_node, &kernel, &net, &vfs, &exts, packages);
    let bytes = process_kernel::persist::encode_process_map(&map);
    let back = process_kernel::persist::decode_process_map(&bytes).expect("persisted bytes parse");
    assert_eq!(back.entries.len(), map.entries.len());
    for (a, b) in map.entries.iter().zip(back.entries.iter()) {
        assert!(a.pid.eq_pid(&b.pid));
        assert_eq!(a.record.wasm_bytes_handle, b.record.wasm_bytes_handle);
        assert_eq!(a.record.public, b.record.public);
        assert_eq!(a.record.capabilities.len(), b.record.capabilities.len());
    }
    // Reserializing what was read yields the bytes that were stored.
    assert_eq!(process_kernel::persist::encode_process_map(&back), bytes);
    // Truncated bytes are rejected.
    let mut cut = bytes.clone();
    cut.pop();
    assert!(process_kernel::persist::decode_process_map(&cut).is_none());
}

#[test]
fn vfs_path_parses_into_package_drive_and_rest() {
    let (pkg, drive, rest) =
        parse_package_and_drive(&b"/chat:pub/pkg/sub/dir.txt".to_vec()).unwrap();
    assert_eq!(pkg.package, b"chat".to_vec());
    assert_eq!(pkg.publisher, b"pub".to_vec());
    assert_eq!(drive, b"pkg".to_vec());
    assert_eq!(rest, b"sub/dir.txt".to_vec());
    let (_, drive2, rest2) = parse_package_and_drive(&b"/chat:pub/data".to_vec()).unwrap();
    assert_eq!(drive2, b"data".to_vec());
    assert!(rest2.is_empty());
    assert!(matches!(
        parse_package_and_drive(&b"chat:pub/pkg".to_vec()),
        Err(VfsError::ParseError)
    ));
    assert!(matches!(
        parse_package_and_drive(&b"/chatpub/pkg".to_vec()),
        Err(VfsError::ParseError)
    ));
    assert!(matches!(
        parse_package_and_drive(&b"/chat:pub".to_vec()),
        Err(VfsError::ParseError)
    ));
}

#[test]
fn vfs_request_bodies_round_trip_and_gate_the_envelope() {
    let cases = vec![
        VfsAction::Read,
        VfsAction::WriteAt(7),
        VfsAction::Seek(SeekSpec::End(-3)),
        VfsAction::Rename(b"/chat:pub/pkg/new".to_vec()),
        VfsAction::Hash,
    ];
    for action in cases {
        let req = VfsRequest { path: b"/chat:pub/pkg/a.txt".to_vec(), action };
        let mut body: Vec<u8> = Vec::new();
        put_vfs_request(&mut body, &req);
        let back = take_vfs_request(&body).expect("encoded request parses");
        assert_eq!(back.path, req.path);
        let mut body2: Vec<u8> = Vec::new();
        put_vfs_request(&mut body2, &back);
        assert_eq!(body2, body);
    }
    // The envelope front end rejects garbage bodies.
    let km = KernelMessage {
        id: 9,
        source: addr("alice", pid("app", "pkg", "pub")),
        target: addr("alice", pid("vfs", "distro", "sys")),
        rsvp: None,
        message: Message::Request(Request {
            inherit: false,
            expects_response: Some(5),
            body: b"garbage".to_vec(),
            metadata: None,
            capabilities: vec![],
        }),
        blob: None,
    };
    assert!(matches!(vfs_request_parse(&km), Err(VfsError::BadJson)));
}

#[test]
fn vfs_caps_gate_reads_writes_and_drive_creation() {
    let mut oracle = new_oracle("alice");
    let our_node = b"alice".to_vec();
    let vfs_pid = pid("vfs", "distro", "sys");
    let owner = addr("alice", pid("chat", "chat", "pub"));
    let stranger = addr("alice", pid("spy", "other", "pub"));
    let pkg = PackageId { package: b"chat".to_vec(), publisher: b"pub".to_vec() };
    let drive = make_drive_path(&pkg, &b"pkg".to_vec());
    // The owner bypasses the check.
    assert!(vfs_check_caps(
        &mut oracle,
        &owner,
        &our_node,
        &vfs_pid,
        &VfsAction::Write,
        &pkg,
        &drive
    )
    .is_ok());
    // A stranger without the write token is denied.
    assert!(matches!(
        vfs_check_caps(
            &mut oracle,
            &stranger,
            &our_node,
            &vfs_pid,
            &VfsAction::Write,
            &pkg,
            &drive
        ),
        Err(VfsError::NoCap)
    ));
    // With the token, reads pass.
    let read_cap = Capability {
        issuer: addr("alice", pid("vfs", "distro", "sys")),
        params: make_kind_drive_params(false, &drive),
    };
    oracle.add_local(&stranger.process, &read_cap);
    assert!(vfs_check_caps(
        &mut oracle,
        &stranger,
        &our_node,
        &vfs_pid,
        &VfsAction::Read,
        &pkg,
        &drive
    )
    .is_ok());
    // Creating one's own drive grants its read and write tokens.
    let own_drive = make_drive_path(&pkg, &b"scratch".to_vec());
    assert!(vfs_check_caps(
        &mut oracle,
        &owner,
        &our_node,
        &vfs_pid,
        &VfsAction::CreateDrive,
        &pkg,
        &own_drive
    )
    .is_ok());
    let new_write = Capability {
        issuer: addr("alice", pid("vfs", "distro", "sys")),
        params: make_kind_drive_params(true, &own_drive),
    };
    assert!(oracle.has(&owner.process, &new_write));
    // A stranger without the root token cannot create drives abroad.
    assert!(matches!(
        vfs_check_caps(
            &mut oracle,
            &stranger,
            &our_node,
            &vfs_pid,
            &VfsAction::CreateDrive,
            &pkg,
            &own_drive
        ),
        Err(VfsError::NoCap)
    ));
}

#[test]
fn vfs_hash_reply_is_the_blake3_of_the_file_bytes() {
    let content = b"file contents".to_vec();
    let (resp, payload) = vfs_reply_of(&VfsAction::Hash, FsOutcome::Bytes(content.clone()))
        .unwrap();
    match resp {
        VfsResponse::Hash(h) => assert_eq!(h.as_slice(), blake3::hash(&content).as_bytes()),
        _ => panic!("a hash answer"),
    }
    assert!(payload.is_none());
    let (resp2, payload2) = vfs_reply_of(&VfsAction::Read, FsOutcome::Bytes(content.clone()))
        .unwrap();
    assert!(matches!(resp2, VfsResponse::Read));
    assert_eq!(payload2, Some(content));
    assert!(matches!(
        vfs_reply_of(&VfsAction::Write, FsOutcome::Failed(b"enospc".to_vec())),
        Err(VfsError::IOError { .. })
    ));
}

#[test]
fn zip_payloads_unpack_into_planned_writes() {
    let mut cursor = std::io::Cursor::new(Vec::new());
    {
        let mut w = zip::ZipWriter::new(&mut cursor);
        let opts: zip::write::SimpleFileOptions = Default::default();
        w.add_directory("sub", opts).unwrap();
        w.start_file("sub/a.txt", opts).unwrap();
        w.write_all(b"hello").unwrap();
        w.finish().unwrap();
    }
    let bytes = cursor.into_inner();
    let payload = LazyLoadBlob { mime: Some(b"application/zip".to_vec()), bytes };
    let ops = plan_zip_extract(&b"/chat:pub/pkg".to_vec(), &payload).unwrap();
    assert_eq!(ops.len(), 2);
    match &ops[0] {
        ZipFileOp::MakeDir(p) => assert_eq!(p, &b"/chat:pub/pkg/sub/".to_vec()),
        _ => panic!("the directory entry plans a mkdir"),
    }
    match &ops[1] {
        ZipFileOp::WriteFile { path, data } => {
            assert_eq!(path, &b"/chat:pub/pkg/sub/a.txt".to_vec());
            assert_eq!(data, &b"hello".to_vec());
        }
        _ => panic!("the file entry plans a write"),
    }
    // The wrong mime is rejected before the bytes are touched.
    let wrong = LazyLoadBlob { mime: Some(b"text/plain".to_vec()), bytes: payload.bytes.clone() };
    assert!(matches!(
        plan_zip_extract(&b"/x:y/d".to_vec(), &wrong),
        Err(VfsError::BadRequest)
    ));
    // Garbage is not an archive.
    let garbage = LazyLoadBlob {
        mime: Some(b"application/zip".to_vec()),
        bytes: b"not a zip".to_vec(),
    };
    assert!(matches!(
        plan_zip_extract(&b"/x:y/d".to_vec(), &garbage),
        Err(VfsError::ParseError)
    ));
}

#[test]
fn per_source_queues_keep_each_sources_order() {
    let mut queues = VfsQueues::new();
    let s1 = pid("a", "pkg", "pub");
    let s2 = pid("b", "pkg", "pub");
    for (id, who) in [(1u64, "a"), (2, "b"), (3, "a"), (4, "b")] {
        queues.push_km(KernelMessage {
            id,
            source: addr("alice", pid(who, "pkg", "pub")),
            target: addr("alice", pid("vfs", "distro", "sys")),
            rsvp: None,
            message: Message::Request(Request {
                inherit: false,
                expects_response: Some(5),
                body: vec![],
                metadata: None,
                capabilities: vec![],
            }),
            blob: None,
        });
    }
    // Each source sees its own operations in issue order, however
    // the two were interleaved.
    assert_eq!(queues.pop_km(&s1).unwrap().id, 1);
    assert_eq!(queues.pop_km(&s2).unwrap().id, 2);
    assert_eq!(queues.pop_km(&s1).unwrap().id, 3);
    assert_eq!(queues.pop_km(&s2).unwrap().id, 4);
    assert!(queues.pop_km(&s1).is_none());
}

#[test]
fn terminal_line_splits_head_args_and_pipe() {
    let parsed = parse_command_line(&b"echo hello|5 cat".to_vec());
    assert_eq!(parsed.head, b"echo".to_vec());
    assert_eq!(parsed.args, b"hello".to_vec());
    let (target, secs) = parsed.pipe.expect("the line pipes");
    assert_eq!(target, b"cat".to_vec());
    assert_eq!(secs, 5);

    let plain = parse_command_line(&b"echo hello world".to_vec());
    assert_eq!(plain.head, b"echo".to_vec());
    assert_eq!(plain.args, b"hello world".to_vec());
    assert!(plain.pipe.is_none());

    // A bar not followed by a digit is ordinary argument text.
    let bar = parse_command_line(&b"echo a|b".to_vec());
    assert!(bar.pipe.is_none());
    assert_eq!(bar.args, b"a|b".to_vec());

    let bare = parse_command_line(&b"top".to_vec());
    assert_eq!(bare.head, b"top".to_vec());
    assert!(bare.args.is_empty());
}

#[test]
fn terminal_timeouts_parse_and_overflow_to_zero() {
    let parsed = parse_command_line(&b"run x|18446744073709551615 sink".to_vec());
    let (_, secs) = parsed.pipe.unwrap();
    assert_eq!(secs, u64::MAX);
    let over = parse_command_line(&b"run x|18446744073709551616 sink".to_vec());
    let (_, secs2) = over.pipe.unwrap();
    assert_eq!(secs2, 0);
}

#[test]
fn terminal_aliases_resolve_before_raw_ids() {
    let table = AliasTable {
        entries: vec![AliasEntry {
            alias: b"echo".to_vec(),
            pid: pid("echo", "terminal", "sys"),
        }],
    };
    let hit = table.resolve(&b"echo".to_vec()).unwrap();
    assert!(hit.eq_pid(&pid("echo", "terminal", "sys")));
    let raw = table.resolve(&b"cat:terminal:sys".to_vec()).unwrap();
    assert!(raw.eq_pid(&pid("cat", "terminal", "sys")));
    assert!(table.resolve(&b"no such script".to_vec()).is_none());
}

#[test]
fn terminal_accepts_commands_only_from_itself_and_aliases_from_kin() {
    let our = addr("alice", pid("terminal", "terminal", "sys"));
    let own_line = Message::Request(Request {
        inherit: false,
        expects_response: None,
        body: b"echo hi".to_vec(),
        metadata: None,
        capabilities: vec![],
    });
    match terminal_step(&our, &addr("alice", pid("terminal", "terminal", "sys")), own_line) {
        TerminalEvent::RunLine(b) => assert_eq!(b, b"echo hi".to_vec()),
        _ => panic!("its own request is a command line"),
    }
    let kin = Message::Request(Request {
        inherit: false,
        expects_response: None,
        body: b"edit".to_vec(),
        metadata: None,
        capabilities: vec![],
    });
    match terminal_step(&our, &addr("alice", pid("alias", "terminal", "sys")), kin) {
        TerminalEvent::EditAction(b) => assert_eq!(b, b"edit".to_vec()),
        _ => panic!("a same-package request edits aliases"),
    }
    let stranger = Message::Request(Request {
        inherit: false,
        expects_response: None,
        body: b"sudo".to_vec(),
        metadata: None,
        capabilities: vec![],
    });
    assert!(matches!(
        terminal_step(&our, &addr("alice", pid("spy", "other", "pub")), stranger),
        TerminalEvent::Ignore
    ));

    let mut table = AliasTable { entries: vec![] };
    table.edit(b"echo".to_vec(), Some(pid("echo", "terminal", "sys")));
    assert!(table.resolve(&b"echo".to_vec()).unwrap().eq_pid(&pid("echo", "terminal", "sys")));
    table.edit(b"echo".to_vec(), Some(pid("cat", "terminal", "sys")));
    assert!(table.resolve(&b"echo".to_vec()).unwrap().eq_pid(&pid("cat", "terminal", "sys")));
    table.edit(b"echo".to_vec(), None);
    assert!(table.resolve(&b"echo".to_vec()).is_none());
}

#[test]
fn script_caps_are_granted_and_requested_as_declared() {
    let our = addr("alice", pid("terminal", "terminal", "sys"));
    let kernel = pid("kernel", "distro", "sys");
    let new_pid = pid("12345", "terminal", "sys");
    let grants = vec![CapRequest::Messaging(pid("cat", "terminal", "sys"))];
    let g = granted_caps(&our.node, &new_pid, &grants);
    assert_eq!(g.len(), 1);
    assert!(g[0].0.eq_pid(&pid("cat", "terminal", "sys")));
    assert!(g[0].1.issuer.process.eq_pid(&new_pid));

    let requests = vec![CapRequest::Custom {
        process: pid("vfs", "distro", "sys"),
        params: b"{\"root\":true}".to_vec(),
    }];
    let r = requested_caps(&our, &kernel, &requests, true);
    // The request, the messaging token back to the terminal, and the
    // network token.
    assert_eq!(r.len(), 3);
    assert_eq!(r[0].params, b"{\"root\":true}".to_vec());
    assert!(r[1].issuer.eq_address(&our));
    assert!(r[2].issuer.process.eq_pid(&kernel));
}
