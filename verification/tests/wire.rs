//! The identifier and wire-format layer: parse/format round trips,
//! envelope serialization, and the digest and signature wrappers
//! against their real implementations.

use process_kernel::codec::{
    deserialize_envelope, serialize_envelope, cap_signing_bytes, take_u64, put_u64,
};
use process_kernel::crypto::{ed25519_verify, hash_bytes, pid_hash};
use process_kernel::ids::{
    format_address, format_process_id, parse_process_id, Address, PidParseError, ProcessId,
};
use process_kernel::message::{
    Capability, KernelMessage, LazyLoadBlob, Message, Request, Response, SignedCapability,
};
use ring::signature::KeyPair;

fn pid(name: &str, package: &str, publisher: &str) -> ProcessId {
    ProcessId {
        name: name.as_bytes().to_vec(),
        package: package.as_bytes().to_vec(),
        publisher: publisher.as_bytes().to_vec(),
    }
}

fn addr(node: &str, p: ProcessId) -> Address {
    Address { node: node.as_bytes().to_vec(), process: p }
}

#[test]
fn format_then_parse_returns_the_same_id() {
    let p = pid("echo", "terminal", "sys");
    let s = format_process_id(&p);
    assert_eq!(s, b"echo:terminal:sys".to_vec());
    let q = parse_process_id(&s).unwrap();
    assert!(q.eq_pid(&p));
}

#[test]
fn parse_then_format_returns_the_same_bytes() {
    let s = b"net:distro:sys-1_x".to_vec();
    let p = parse_process_id(&s).unwrap();
    assert_eq!(format_process_id(&p), s);
}

#[test]
fn parse_rejects_wrong_arity() {
    assert!(matches!(
        parse_process_id(&b"only:two".to_vec()),
        Err(PidParseError::WrongArity)
    ));
    assert!(matches!(
        parse_process_id(&b"a:b:c:d".to_vec()),
        Err(PidParseError::WrongArity)
    ));
    assert!(matches!(parse_process_id(&b"".to_vec()), Err(PidParseError::WrongArity)));
}

#[test]
fn parse_rejects_bad_segments() {
    assert!(matches!(
        parse_process_id(&b"Echo:terminal:sys".to_vec()),
        Err(PidParseError::BadSegment)
    ));
    assert!(matches!(
        parse_process_id(&b":terminal:sys".to_vec()),
        Err(PidParseError::BadSegment)
    ));
    assert!(matches!(
        parse_process_id(&b"e cho:terminal:sys".to_vec()),
        Err(PidParseError::BadSegment)
    ));
}

#[test]
fn address_formats_with_at_sign() {
    let a = addr("alice.node", pid("kernel", "distro", "sys"));
    assert_eq!(format_address(&a), b"alice.node@kernel:distro:sys".to_vec());
}

fn rich_envelope() -> KernelMessage {
    let issuer = addr("alice", pid("vfs", "distro", "sys"));
    let cap = Capability { issuer, params: b"\"messaging\"".to_vec() };
    let signed = SignedCapability { cap, sig: vec![7u8; 64] };
    KernelMessage {
        id: 0xdead_beef_1234_5678,
        source: addr("alice", pid("terminal", "terminal", "sys")),
        target: addr("bob", pid("echo", "terminal", "sys")),
        rsvp: Some(addr("alice", pid("terminal", "terminal", "sys"))),
        message: Message::Request(Request {
            inherit: false,
            expects_response: Some(5),
            body: b"hi".to_vec(),
            metadata: Some(b"meta".to_vec()),
            capabilities: vec![signed],
        }),
        blob: Some(LazyLoadBlob { mime: Some(b"text/plain".to_vec()), bytes: b"blob".to_vec() }),
    }
}

#[test]
fn envelope_round_trips_through_the_wire() {
    let e = rich_envelope();
    let bytes = serialize_envelope(&e);
    let back = deserialize_envelope(&bytes).expect("wire bytes must parse");
    // Serializing what deserialized yields the very bytes that came in.
    assert_eq!(serialize_envelope(&back), bytes);
    assert_eq!(back.id, e.id);
    assert!(back.source.eq_address(&e.source));
    assert!(back.target.eq_address(&e.target));
    match (&back.message, &e.message) {
        (Message::Request(a), Message::Request(b)) => {
            assert_eq!(a.body, b.body);
            assert_eq!(a.expects_response, b.expects_response);
            assert_eq!(a.metadata, b.metadata);
            assert_eq!(a.capabilities.len(), 1);
            assert_eq!(a.capabilities[0].sig, b.capabilities[0].sig);
        }
        _ => panic!("variant changed on the wire"),
    }
}

#[test]
fn envelope_response_round_trips() {
    let e = KernelMessage {
        id: 9,
        source: addr("alice", pid("echo", "terminal", "sys")),
        target: addr("alice", pid("terminal", "terminal", "sys")),
        rsvp: None,
        message: Message::Response(Response {
            inherit: true,
            body: b"hi".to_vec(),
            metadata: None,
            capabilities: vec![],
        }),
        blob: None,
    };
    let bytes = serialize_envelope(&e);
    let back = deserialize_envelope(&bytes).unwrap();
    assert_eq!(serialize_envelope(&back), bytes);
}

#[test]
fn truncated_or_padded_wire_bytes_are_rejected() {
    let e = rich_envelope();
    let mut bytes = serialize_envelope(&e);
    bytes.push(0);
    assert!(deserialize_envelope(&bytes).is_none());
    bytes.pop();
    bytes.pop();
    assert!(deserialize_envelope(&bytes).is_none());
    assert!(deserialize_envelope(&Vec::new()).is_none());
}

#[test]
fn word_codec_round_trips() {
    let mut out: Vec<u8> = Vec::new();
    put_u64(&mut out, 0x0102_0304_0506_0708);
    assert_eq!(out, vec![8, 7, 6, 5, 4, 3, 2, 1]);
    let (v, p) = take_u64(&out, 0).unwrap();
    assert_eq!(v, 0x0102_0304_0506_0708);
    assert_eq!(p, 8);
}

#[test]
fn digest_wrapper_matches_the_real_blake3() {
    let data = b"the quick brown fox".to_vec();
    let d = hash_bytes(&data);
    assert_eq!(d.as_slice(), blake3::hash(&data).as_bytes());
    // And it is not the input handed back.
    assert_ne!(d, data);
}

#[test]
fn pid_hash_is_the_digest_of_the_canonical_form() {
    let p = pid("kernel", "distro", "sys");
    let h = pid_hash(&p);
    assert_eq!(h.as_slice(), blake3::hash(b"kernel:distro:sys").as_bytes());
    assert_eq!(h.len(), 32);
}

#[test]
fn signature_verification_accepts_real_and_rejects_forged() {
    let rng = ring::rand::SystemRandom::new();
    let doc = ring::signature::Ed25519KeyPair::generate_pkcs8(&rng).unwrap();
    let kp = ring::signature::Ed25519KeyPair::from_pkcs8(doc.as_ref()).unwrap();
    let pk = kp.public_key().as_ref().to_vec();
    let cap = Capability {
        issuer: addr("alice", pid("vfs", "distro", "sys")),
        params: b"\"messaging\"".to_vec(),
    };
    let msg = cap_signing_bytes(&cap);
    let sig = process_kernel::crypto::ed25519_sign(&kp, &msg);
    assert_eq!(sig.len(), 64);
    assert!(ed25519_verify(&pk, &msg, &sig));
    let forged = vec![0u8; 64];
    assert!(!ed25519_verify(&pk, &msg, &forged));
}
