//! The internal wire format: a length-prefixed binary encoding of
//! envelopes and capabilities, used for persistence, inter-node
//! transport and capability signing. Encoding and decoding are
//! verified inverse to each other.

use vstd::prelude::*;
use crate::ids::{copy_range, push_bytes, Address, AddressView, ProcessId, ProcessIdView};
use crate::message::{
    caps_view, Capability, CapabilityView, KernelMessage, KernelMessageView, LazyLoadBlob,
    BlobView, Message, MessageView, Request, RequestView, Response, ResponseView,
    SignedCapability, SignedCapView,
};

verus! {

/// Eight bytes, little endian.
pub open spec fn enc_u64(v: u64) -> Seq<u8> {
    seq![
        (v & 0xff) as u8,
        ((v >> 8) & 0xff) as u8,
        ((v >> 16) & 0xff) as u8,
        ((v >> 24) & 0xff) as u8,
        ((v >> 32) & 0xff) as u8,
        ((v >> 40) & 0xff) as u8,
        ((v >> 48) & 0xff) as u8,
        ((v >> 56) & 0xff) as u8,
    ]
}

/// One byte: 1 for true, 0 for false.
pub open spec fn enc_bool(b: bool) -> Seq<u8> {
    seq![if b { 1u8 } else { 0u8 }]
}

/// Length as a little-endian word, then the bytes themselves.
pub open spec fn enc_bytes(s: Seq<u8>) -> Seq<u8> {
    enc_u64(s.len() as u64) + s
}

/// A byte string whose length the length prefix can carry.
pub open spec fn wf_bytes(s: Seq<u8>) -> bool {
    s.len() <= u64::MAX
}

/// Eight bytes recombined into a little-endian word.
pub open spec fn combine8(x0: u8, x1: u8, x2: u8, x3: u8, x4: u8, x5: u8, x6: u8, x7: u8) -> u64 {
    (x0 as u64) | ((x1 as u64) << 8) | ((x2 as u64) << 16) | ((x3 as u64) << 24) | ((x4 as u64)
        << 32) | ((x5 as u64) << 40) | ((x6 as u64) << 48) | ((x7 as u64) << 56)
}

/// The word read at `pos`, little endian.
pub open spec fn dec_u64_at(s: Seq<u8>, pos: int) -> u64 {
    combine8(s[pos], s[pos + 1], s[pos + 2], s[pos + 3], s[pos + 4], s[pos + 5], s[pos + 6], s[pos + 7])
}

/// Parse a word at `pos`: the value and the position after it.
pub open spec fn parse_u64(s: Seq<u8>, pos: int) -> Option<(u64, int)> {
    if 0 <= pos && pos + 8 <= s.len() {
        Some((dec_u64_at(s, pos), pos + 8))
    } else {
        None
    }
}

/// Parse a boolean byte; bytes other than 0 and 1 are rejected, so
/// every accepted encoding is canonical.
pub open spec fn parse_bool(s: Seq<u8>, pos: int) -> Option<(bool, int)> {
    if 0 <= pos && pos < s.len() && (s[pos] == 0 || s[pos] == 1) {
        Some((s[pos] == 1, pos + 1))
    } else {
        None
    }
}

/// Parse a length-prefixed byte string.
pub open spec fn parse_bytes(s: Seq<u8>, pos: int) -> Option<(Seq<u8>, int)> {
    match parse_u64(s, pos) {
        None => None,
        Some((n, p1)) => if p1 + n <= s.len() {
            Some((s.subrange(p1, p1 + n), p1 + n))
        } else {
            None
        },
    }
}

/// Splitting a range of a byte string at an interior point and
/// gluing the parts back gives the range again.
pub proof fn lemma_subrange_glue(s: Seq<u8>, a: int, b: int, c: int)
    requires
        0 <= a <= b <= c <= s.len(),
    ensures
        s.subrange(a, b) + s.subrange(b, c) == s.subrange(a, c),
{
    assert(s.subrange(a, b) + s.subrange(b, c) =~= s.subrange(a, c));
}

/// Recombining eight bytes into a word and taking them out again
/// yields the same bytes.
proof fn lemma_combine_bytes(x0: u8, x1: u8, x2: u8, x3: u8, x4: u8, x5: u8, x6: u8, x7: u8)
    ensures
        ((combine8(x0, x1, x2, x3, x4, x5, x6, x7) & 0xff) as u8) == x0,
        (((combine8(x0, x1, x2, x3, x4, x5, x6, x7) >> 8) & 0xff) as u8) == x1,
        (((combine8(x0, x1, x2, x3, x4, x5, x6, x7) >> 16) & 0xff) as u8) == x2,
        (((combine8(x0, x1, x2, x3, x4, x5, x6, x7) >> 24) & 0xff) as u8) == x3,
        (((combine8(x0, x1, x2, x3, x4, x5, x6, x7) >> 32) & 0xff) as u8) == x4,
        (((combine8(x0, x1, x2, x3, x4, x5, x6, x7) >> 40) & 0xff) as u8) == x5,
        (((combine8(x0, x1, x2, x3, x4, x5, x6, x7) >> 48) & 0xff) as u8) == x6,
        (((combine8(x0, x1, x2, x3, x4, x5, x6, x7) >> 56) & 0xff) as u8) == x7,
{
    let v = combine8(x0, x1, x2, x3, x4, x5, x6, x7);
    assert(((v & 0xff) as u8) == x0 && (((v >> 8) & 0xff) as u8) == x1 && (((v >> 16) & 0xff)
        as u8) == x2 && (((v >> 24) & 0xff) as u8) == x3 && (((v >> 32) & 0xff) as u8) == x4 && (((
    v >> 40) & 0xff) as u8) == x5 && (((v >> 48) & 0xff) as u8) == x6 && (((v >> 56) & 0xff) as u8)
        == x7) by (bit_vector)
        requires
            v == (x0 as u64) | ((x1 as u64) << 8) | ((x2 as u64) << 16) | ((x3 as u64) << 24) | ((
            x4 as u64) << 32) | ((x5 as u64) << 40) | ((x6 as u64) << 48) | ((x7 as u64) << 56),
    ;
}

/// Encoding a word and reading it back yields the word.
proof fn lemma_split_combine(v: u64)
    ensures
        combine8(
            (v & 0xff) as u8,
            ((v >> 8) & 0xff) as u8,
            ((v >> 16) & 0xff) as u8,
            ((v >> 24) & 0xff) as u8,
            ((v >> 32) & 0xff) as u8,
            ((v >> 40) & 0xff) as u8,
            ((v >> 48) & 0xff) as u8,
            ((v >> 56) & 0xff) as u8,
        ) == v,
{
    let y0 = (v & 0xff) as u8;
    let y1 = ((v >> 8) & 0xff) as u8;
    let y2 = ((v >> 16) & 0xff) as u8;
    let y3 = ((v >> 24) & 0xff) as u8;
    let y4 = ((v >> 32) & 0xff) as u8;
    let y5 = ((v >> 40) & 0xff) as u8;
    let y6 = ((v >> 48) & 0xff) as u8;
    let y7 = ((v >> 56) & 0xff) as u8;
    let w = combine8(y0, y1, y2, y3, y4, y5, y6, y7);
    assert(w == v) by (bit_vector)
        requires
            w == (y0 as u64) | ((y1 as u64) << 8) | ((y2 as u64) << 16) | ((y3 as u64) << 24) | ((
            y4 as u64) << 32) | ((y5 as u64) << 40) | ((y6 as u64) << 48) | ((y7 as u64) << 56),
            y0 == (v & 0xff) as u8,
            y1 == ((v >> 8) & 0xff) as u8,
            y2 == ((v >> 16) & 0xff) as u8,
            y3 == ((v >> 24) & 0xff) as u8,
            y4 == ((v >> 32) & 0xff) as u8,
            y5 == ((v >> 40) & 0xff) as u8,
            y6 == ((v >> 48) & 0xff) as u8,
            y7 == ((v >> 56) & 0xff) as u8,
    ;
}

/// If a word parses at `pos`, its encoding is exactly the bytes read.
pub proof fn lemma_parse_u64_sound(s: Seq<u8>, pos: int)
    requires
        parse_u64(s, pos) is Some,
    ensures
        ({
            let (v, p2) = parse_u64(s, pos).unwrap();
            &&& pos <= p2 <= s.len()
            &&& p2 == pos + 8
            &&& enc_u64(v) == s.subrange(pos, p2)
        }),
{
    let (v, p2) = parse_u64(s, pos).unwrap();
    lemma_combine_bytes(
        s[pos],
        s[pos + 1],
        s[pos + 2],
        s[pos + 3],
        s[pos + 4],
        s[pos + 5],
        s[pos + 6],
        s[pos + 7],
    );
    assert(enc_u64(v) =~= s.subrange(pos, p2));
}

/// A word's encoding placed at `pos` parses back to the word.
pub proof fn lemma_parse_u64_complete(s: Seq<u8>, pos: int, v: u64)
    requires
        0 <= pos,
        pos + 8 <= s.len(),
        s.subrange(pos, pos + 8) == enc_u64(v),
    ensures
        parse_u64(s, pos) == Some((v, pos + 8)),
{
    assert forall|k: int| 0 <= k < 8 implies s[pos + k] == enc_u64(v)[k] by {
        assert(s.subrange(pos, pos + 8)[k] == s[pos + k]);
    }
    lemma_split_combine(v);
}

/// If a byte string parses at `pos`, its encoding is exactly the
/// bytes read.
pub proof fn lemma_parse_bytes_sound(s: Seq<u8>, pos: int)
    requires
        parse_bytes(s, pos) is Some,
    ensures
        ({
            let (x, p2) = parse_bytes(s, pos).unwrap();
            &&& pos <= p2 <= s.len()
            &&& wf_bytes(x)
            &&& enc_bytes(x) == s.subrange(pos, p2)
        }),
{
    let (x, p2) = parse_bytes(s, pos).unwrap();
    let (n, p1) = parse_u64(s, pos).unwrap();
    lemma_parse_u64_sound(s, pos);
    lemma_subrange_glue(s, pos, p1, p2);
    assert(x.len() as u64 == n);
    assert(enc_bytes(x) == s.subrange(pos, p1) + s.subrange(p1, p2));
}

/// A byte string's encoding placed at `pos` parses back to it.
pub proof fn lemma_parse_bytes_complete(s: Seq<u8>, pos: int, x: Seq<u8>)
    requires
        0 <= pos,
        wf_bytes(x),
        pos + enc_bytes(x).len() <= s.len(),
        s.subrange(pos, pos + enc_bytes(x).len()) == enc_bytes(x),
    ensures
        parse_bytes(s, pos) == Some((x, pos + enc_bytes(x).len())),
{
    let e = enc_bytes(x);
    let p1 = pos + 8;
    let p2 = pos + e.len();
    assert(s.subrange(pos, p1) =~= e.subrange(0, 8)) by {
        assert forall|k: int| 0 <= k < 8 implies s.subrange(pos, p1)[k] == e.subrange(0, 8)[k] by {
            assert(s.subrange(pos, p2)[k] == s[pos + k]);
        }
    }
    assert(e.subrange(0, 8) =~= enc_u64(x.len() as u64));
    lemma_parse_u64_complete(s, pos, x.len() as u64);
    assert(s.subrange(p1, p2) =~= x) by {
        assert forall|k: int| 0 <= k < x.len() implies s.subrange(p1, p2)[k] == x[k] by {
            assert(s.subrange(pos, p2)[8 + k] == s[pos + 8 + k]);
            assert(e[8 + k] == x[k]);
        }
    }
}

/// Append the encoding of a word.
pub fn put_u64(out: &mut Vec<u8>, v: u64)
    ensures
        final(out)@ == old(out)@ + enc_u64(v),
{
    out.push((v & 0xff) as u8);
    out.push(((v >> 8) & 0xff) as u8);
    out.push(((v >> 16) & 0xff) as u8);
    out.push(((v >> 24) & 0xff) as u8);
    out.push(((v >> 32) & 0xff) as u8);
    out.push(((v >> 40) & 0xff) as u8);
    out.push(((v >> 48) & 0xff) as u8);
    out.push(((v >> 56) & 0xff) as u8);
    proof {
        assert(out@ =~= old(out)@ + enc_u64(v));
    }
}

/// Append the encoding of a boolean.
pub fn put_bool(out: &mut Vec<u8>, b: bool)
    ensures
        final(out)@ == old(out)@ + enc_bool(b),
{
    out.push(if b { 1 } else { 0 });
    proof {
        assert(out@ =~= old(out)@ + enc_bool(b));
    }
}

/// Append the encoding of a byte string.
pub fn put_bytes(out: &mut Vec<u8>, v: &Vec<u8>)
    ensures
        final(out)@ == old(out)@ + enc_bytes(v@),
{
    put_u64(out, v.len() as u64);
    push_bytes(out, v);
    proof {
        assert(out@ =~= old(out)@ + enc_bytes(v@));
    }
}

/// Read a word; mirrors `parse_u64`.
pub fn take_u64(b: &Vec<u8>, pos: usize) -> (r: Option<(u64, usize)>)
    ensures
        match r {
            Some((v, p2)) => parse_u64(b@, pos as int) == Some((v, p2 as int)) && p2 <= b@.len(),
            None => parse_u64(b@, pos as int) is None,
        },
{
    if b.len() < 8 || pos > b.len() - 8 {
        return None;
    }
    let v = (b[pos] as u64) | ((b[pos + 1] as u64) << 8) | ((b[pos + 2] as u64) << 16) | ((b[pos
        + 3] as u64) << 24) | ((b[pos + 4] as u64) << 32) | ((b[pos + 5] as u64) << 40) | ((b[pos
        + 6] as u64) << 48) | ((b[pos + 7] as u64) << 56);
    Some((v, pos + 8))
}

/// Read a boolean byte; mirrors `parse_bool`.
pub fn take_bool(b: &Vec<u8>, pos: usize) -> (r: Option<(bool, usize)>)
    ensures
        match r {
            Some((v, p2)) => parse_bool(b@, pos as int) == Some((v, p2 as int)) && p2 <= b@.len(),
            None => parse_bool(b@, pos as int) is None,
        },
{
    if pos >= b.len() {
        return None;
    }
    let c = b[pos];
    if c == 0 || c == 1 {
        Some((c == 1, pos + 1))
    } else {
        None
    }
}

/// Read a length-prefixed byte string; mirrors `parse_bytes`.
pub fn take_bytes(b: &Vec<u8>, pos: usize) -> (r: Option<(Vec<u8>, usize)>)
    ensures
        match r {
            Some((v, p2)) => parse_bytes(b@, pos as int) == Some((v@, p2 as int)) && p2 <= b@.len(),
            None => parse_bytes(b@, pos as int) is None,
        },
{
    match take_u64(b, pos) {
        None => None,
        Some((n, p1)) => {
            let rem: u64 = (b.len() - p1) as u64;
            if n > rem {
                assert(p1 + n > b@.len());
                None
            } else {
                let n_us: usize = n as usize;
                let v = copy_range(b, p1, p1 + n_us);
                Some((v, p1 + n_us))
            }
        },
    }
}

/// A process id on the wire: its three segments, each length-prefixed.
pub open spec fn enc_pid(p: ProcessIdView) -> Seq<u8> {
    enc_bytes(p.name) + enc_bytes(p.package) + enc_bytes(p.publisher)
}

pub open spec fn wf_pid_enc(p: ProcessIdView) -> bool {
    wf_bytes(p.name) && wf_bytes(p.package) && wf_bytes(p.publisher)
}

pub open spec fn parse_pid(s: Seq<u8>, pos: int) -> Option<(ProcessIdView, int)> {
    match parse_bytes(s, pos) {
        None => None,
        Some((name, p1)) => match parse_bytes(s, p1) {
            None => None,
            Some((package, p2)) => match parse_bytes(s, p2) {
                None => None,
                Some((publisher, p3)) => Some(
                    (ProcessIdView { name, package, publisher }, p3),
                ),
            },
        },
    }
}

/// An address on the wire: the node name, then the process id.
pub open spec fn enc_address(a: AddressView) -> Seq<u8> {
    enc_bytes(a.node) + enc_pid(a.process)
}

pub open spec fn wf_address_enc(a: AddressView) -> bool {
    wf_bytes(a.node) && wf_pid_enc(a.process)
}

pub open spec fn parse_address(s: Seq<u8>, pos: int) -> Option<(AddressView, int)> {
    match parse_bytes(s, pos) {
        None => None,
        Some((node, p1)) => match parse_pid(s, p1) {
            None => None,
            Some((process, p2)) => Some((AddressView { node, process }, p2)),
        },
    }
}

/// A capability on the wire: its issuer, then its parameter bytes.
/// This is also the canonical form that capability signatures cover.
pub open spec fn enc_cap(c: CapabilityView) -> Seq<u8> {
    enc_address(c.issuer) + enc_bytes(c.params)
}

pub open spec fn wf_cap_enc(c: CapabilityView) -> bool {
    wf_address_enc(c.issuer) && wf_bytes(c.params)
}

pub open spec fn parse_cap(s: Seq<u8>, pos: int) -> Option<(CapabilityView, int)> {
    match parse_address(s, pos) {
        None => None,
        Some((issuer, p1)) => match parse_bytes(s, p1) {
            None => None,
            Some((params, p2)) => Some((CapabilityView { issuer, params }, p2)),
        },
    }
}

/// A capability in transit: the capability, then its signature.
pub open spec fn enc_signed_cap(c: SignedCapView) -> Seq<u8> {
    enc_cap(c.cap) + enc_bytes(c.sig)
}

pub open spec fn wf_signed_cap_enc(c: SignedCapView) -> bool {
    wf_cap_enc(c.cap) && wf_bytes(c.sig)
}

pub open spec fn parse_signed_cap(s: Seq<u8>, pos: int) -> Option<(SignedCapView, int)> {
    match parse_cap(s, pos) {
        None => None,
        Some((cap, p1)) => match parse_bytes(s, p1) {
            None => None,
            Some((sig, p2)) => Some((SignedCapView { cap, sig }, p2)),
        },
    }
}

/// The first of two adjacent encoded parts can be cut back out of the
/// byte string, and so can the second.
pub proof fn lemma_prefix_split(s: Seq<u8>, pos: int, a: Seq<u8>, b: Seq<u8>)
    requires
        0 <= pos,
        pos + a.len() + b.len() <= s.len(),
        s.subrange(pos, pos + a.len() + b.len()) == a + b,
    ensures
        s.subrange(pos, pos + a.len()) == a,
        s.subrange(pos + a.len(), pos + a.len() + b.len()) == b,
{
    let t = s.subrange(pos, pos + a.len() + b.len());
    assert forall|k: int| 0 <= k < a.len() + b.len() implies s[pos + k] == (a + b)[k] by {
        assert(t[k] == s[pos + k]);
    }
    assert(s.subrange(pos, pos + a.len()) =~= a);
    assert forall|k: int| 0 <= k < b.len() implies s.subrange(
        pos + a.len(),
        pos + a.len() + b.len(),
    )[k] == b[k] by {
        assert(s[pos + (a.len() + k)] == (a + b)[a.len() + k]);
    }
    assert(s.subrange(pos + a.len(), pos + a.len() + b.len()) =~= b);
}

pub proof fn lemma_parse_pid_sound(s: Seq<u8>, pos: int)
    requires
        parse_pid(s, pos) is Some,
    ensures
        ({
            let (p, p3) = parse_pid(s, pos).unwrap();
            &&& pos <= p3 <= s.len()
            &&& wf_pid_enc(p)
            &&& enc_pid(p) == s.subrange(pos, p3)
        }),
{
    let (name, p1) = parse_bytes(s, pos).unwrap();
    let (package, p2) = parse_bytes(s, p1).unwrap();
    let (publisher, p3) = parse_bytes(s, p2).unwrap();
    lemma_parse_bytes_sound(s, pos);
    lemma_parse_bytes_sound(s, p1);
    lemma_parse_bytes_sound(s, p2);
    lemma_subrange_glue(s, pos, p1, p2);
    lemma_subrange_glue(s, pos, p2, p3);
}

pub proof fn lemma_parse_pid_complete(s: Seq<u8>, pos: int, p: ProcessIdView)
    requires
        0 <= pos,
        wf_pid_enc(p),
        pos + enc_pid(p).len() <= s.len(),
        s.subrange(pos, pos + enc_pid(p).len()) == enc_pid(p),
    ensures
        parse_pid(s, pos) == Some((p, pos + enc_pid(p).len())),
{
    let e1 = enc_bytes(p.name);
    let e2 = enc_bytes(p.package);
    let e3 = enc_bytes(p.publisher);
    assert(enc_pid(p) =~= e1 + (e2 + e3));
    lemma_prefix_split(s, pos, e1, e2 + e3);
    lemma_prefix_split(s, pos + e1.len(), e2, e3);
    lemma_parse_bytes_complete(s, pos, p.name);
    lemma_parse_bytes_complete(s, pos + e1.len(), p.package);
    lemma_parse_bytes_complete(s, pos + e1.len() + e2.len(), p.publisher);
    assert(parse_pid(s, pos).unwrap().0 =~= p);
}

pub proof fn lemma_parse_address_sound(s: Seq<u8>, pos: int)
    requires
        parse_address(s, pos) is Some,
    ensures
        ({
            let (a, p2) = parse_address(s, pos).unwrap();
            &&& pos <= p2 <= s.len()
            &&& wf_address_enc(a)
            &&& enc_address(a) == s.subrange(pos, p2)
        }),
{
    let (node, p1) = parse_bytes(s, pos).unwrap();
    let (process, p2) = parse_pid(s, p1).unwrap();
    lemma_parse_bytes_sound(s, pos);
    lemma_parse_pid_sound(s, p1);
    lemma_subrange_glue(s, pos, p1, p2);
}

pub proof fn lemma_parse_address_complete(s: Seq<u8>, pos: int, a: AddressView)
    requires
        0 <= pos,
        wf_address_enc(a),
        pos + enc_address(a).len() <= s.len(),
        s.subrange(pos, pos + enc_address(a).len()) == enc_address(a),
    ensures
        parse_address(s, pos) == Some((a, pos + enc_address(a).len())),
{
    let e1 = enc_bytes(a.node);
    let e2 = enc_pid(a.process);
    lemma_prefix_split(s, pos, e1, e2);
    lemma_parse_bytes_complete(s, pos, a.node);
    lemma_parse_pid_complete(s, pos + e1.len(), a.process);
    assert(parse_address(s, pos).unwrap().0 =~= a);
}

pub proof fn lemma_parse_cap_sound(s: Seq<u8>, pos: int)
    requires
        parse_cap(s, pos) is Some,
    ensures
        ({
            let (c, p2) = parse_cap(s, pos).unwrap();
            &&& pos <= p2 <= s.len()
            &&& wf_cap_enc(c)
            &&& enc_cap(c) == s.subrange(pos, p2)
        }),
{
    let (issuer, p1) = parse_address(s, pos).unwrap();
    let (params, p2) = parse_bytes(s, p1).unwrap();
    lemma_parse_address_sound(s, pos);
    lemma_parse_bytes_sound(s, p1);
    lemma_subrange_glue(s, pos, p1, p2);
}

pub proof fn lemma_parse_cap_complete(s: Seq<u8>, pos: int, c: CapabilityView)
    requires
        0 <= pos,
        wf_cap_enc(c),
        pos + enc_cap(c).len() <= s.len(),
        s.subrange(pos, pos + enc_cap(c).len()) == enc_cap(c),
    ensures
        parse_cap(s, pos) == Some((c, pos + enc_cap(c).len())),
{
    let e1 = enc_address(c.issuer);
    let e2 = enc_bytes(c.params);
    lemma_prefix_split(s, pos, e1, e2);
    lemma_parse_address_complete(s, pos, c.issuer);
    lemma_parse_bytes_complete(s, pos + e1.len(), c.params);
    assert(parse_cap(s, pos).unwrap().0 =~= c);
}

pub proof fn lemma_parse_signed_cap_sound(s: Seq<u8>, pos: int)
    requires
        parse_signed_cap(s, pos) is Some,
    ensures
        ({
            let (c, p2) = parse_signed_cap(s, pos).unwrap();
            &&& pos <= p2 <= s.len()
            &&& wf_signed_cap_enc(c)
            &&& enc_signed_cap(c) == s.subrange(pos, p2)
        }),
{
    let (cap, p1) = parse_cap(s, pos).unwrap();
    let (sig, p2) = parse_bytes(s, p1).unwrap();
    lemma_parse_cap_sound(s, pos);
    lemma_parse_bytes_sound(s, p1);
    lemma_subrange_glue(s, pos, p1, p2);
}

pub proof fn lemma_parse_signed_cap_complete(s: Seq<u8>, pos: int, c: SignedCapView)
    requires
        0 <= pos,
        wf_signed_cap_enc(c),
        pos + enc_signed_cap(c).len() <= s.len(),
        s.subrange(pos, pos + enc_signed_cap(c).len()) == enc_signed_cap(c),
    ensures
        parse_signed_cap(s, pos) == Some((c, pos + enc_signed_cap(c).len())),
{
    let e1 = enc_cap(c.cap);
    let e2 = enc_bytes(c.sig);
    lemma_prefix_split(s, pos, e1, e2);
    lemma_parse_cap_complete(s, pos, c.cap);
    lemma_parse_bytes_complete(s, pos + e1.len(), c.sig);
    assert(parse_signed_cap(s, pos).unwrap().0 =~= c);
}

/// Append the encoding of a process id.
pub fn put_pid(out: &mut Vec<u8>, p: &ProcessId)
    ensures
        final(out)@ == old(out)@ + enc_pid(p@),
{
    put_bytes(out, &p.name);
    put_bytes(out, &p.package);
    put_bytes(out, &p.publisher);
    proof {
        assert(out@ =~= old(out)@ + enc_pid(p@));
    }
}

/// Append the encoding of an address.
pub fn put_address(out: &mut Vec<u8>, a: &Address)
    ensures
        final(out)@ == old(out)@ + enc_address(a@),
{
    put_bytes(out, &a.node);
    put_pid(out, &a.process);
    proof {
        assert(out@ =~= old(out)@ + enc_address(a@));
    }
}

/// Append the encoding of a capability. These are also the canonical
/// bytes that the issuer node signs.
pub fn put_cap(out: &mut Vec<u8>, c: &Capability)
    ensures
        final(out)@ == old(out)@ + enc_cap(c@),
{
    put_address(out, &c.issuer);
    put_bytes(out, &c.params);
    proof {
        assert(out@ =~= old(out)@ + enc_cap(c@));
    }
}

/// The canonical signing bytes of a capability, as a fresh vector.
pub fn cap_signing_bytes(c: &Capability) -> (r: Vec<u8>)
    ensures
        r@ == enc_cap(c@),
{
    let mut out: Vec<u8> = Vec::new();
    put_cap(&mut out, c);
    out
}

/// Append the encoding of a capability in transit.
pub fn put_signed_cap(out: &mut Vec<u8>, c: &SignedCapability)
    ensures
        final(out)@ == old(out)@ + enc_signed_cap(c@),
{
    put_cap(out, &c.cap);
    put_bytes(out, &c.sig);
    proof {
        assert(out@ =~= old(out)@ + enc_signed_cap(c@));
    }
}

/// Read a process id; mirrors `parse_pid`.
pub fn take_pid(b: &Vec<u8>, pos: usize) -> (r: Option<(ProcessId, usize)>)
    ensures
        match r {
            Some((p, p2)) => parse_pid(b@, pos as int) == Some((p@, p2 as int)) && p2 <= b@.len(),
            None => parse_pid(b@, pos as int) is None,
        },
{
    let (name, p1) = match take_bytes(b, pos) {
        None => {
            return None;
        },
        Some(x) => x,
    };
    let (package, p2) = match take_bytes(b, p1) {
        None => {
            return None;
        },
        Some(x) => x,
    };
    let (publisher, p3) = match take_bytes(b, p2) {
        None => {
            return None;
        },
        Some(x) => x,
    };
    Some((ProcessId { name, package, publisher }, p3))
}

/// Read an address; mirrors `parse_address`.
pub fn take_address(b: &Vec<u8>, pos: usize) -> (r: Option<(Address, usize)>)
    ensures
        match r {
            Some((a, p2)) => parse_address(b@, pos as int) == Some((a@, p2 as int)) && p2
                <= b@.len(),
            None => parse_address(b@, pos as int) is None,
        },
{
    let (node, p1) = match take_bytes(b, pos) {
        None => {
            return None;
        },
        Some(x) => x,
    };
    let (process, p2) = match take_pid(b, p1) {
        None => {
            return None;
        },
        Some(x) => x,
    };
    Some((Address { node, process }, p2))
}

/// Read a capability; mirrors `parse_cap`.
pub fn take_cap(b: &Vec<u8>, pos: usize) -> (r: Option<(Capability, usize)>)
    ensures
        match r {
            Some((c, p2)) => parse_cap(b@, pos as int) == Some((c@, p2 as int)) && p2 <= b@.len(),
            None => parse_cap(b@, pos as int) is None,
        },
{
    let (issuer, p1) = match take_address(b, pos) {
        None => {
            return None;
        },
        Some(x) => x,
    };
    let (params, p2) = match take_bytes(b, p1) {
        None => {
            return None;
        },
        Some(x) => x,
    };
    Some((Capability { issuer, params }, p2))
}

/// Read a capability in transit; mirrors `parse_signed_cap`.
pub fn take_signed_cap(b: &Vec<u8>, pos: usize) -> (r: Option<(SignedCapability, usize)>)
    ensures
        match r {
            Some((c, p2)) => parse_signed_cap(b@, pos as int) == Some((c@, p2 as int)) && p2
                <= b@.len(),
            None => parse_signed_cap(b@, pos as int) is None,
        },
{
    let (cap, p1) = match take_cap(b, pos) {
        None => {
            return None;
        },
        Some(x) => x,
    };
    let (sig, p2) = match take_bytes(b, p1) {
        None => {
            return None;
        },
        Some(x) => x,
    };
    Some((SignedCapability { cap, sig }, p2))
}

/// The capabilities of a list, one after another, without a count.
pub open spec fn enc_caps_items(items: Seq<SignedCapView>) -> Seq<u8>
    decreases items.len(),
{
    if items.len() == 0 {
        Seq::empty()
    } else {
        enc_signed_cap(items[0]) + enc_caps_items(items.drop_first())
    }
}

/// A capability list on the wire: a count, then the capabilities.
pub open spec fn enc_caps(items: Seq<SignedCapView>) -> Seq<u8> {
    enc_u64(items.len() as u64) + enc_caps_items(items)
}

pub open spec fn wf_caps_enc(items: Seq<SignedCapView>) -> bool {
    items.len() <= u64::MAX && forall|i: int| 0 <= i < items.len() ==> wf_signed_cap_enc(items[i])
}

pub open spec fn parse_caps_items(s: Seq<u8>, pos: int, n: nat) -> Option<
    (Seq<SignedCapView>, int),
>
    decreases n,
{
    if n == 0 {
        if 0 <= pos <= s.len() {
            Some((Seq::empty(), pos))
        } else {
            None
        }
    } else {
        match parse_signed_cap(s, pos) {
            None => None,
            Some((c, p1)) => match parse_caps_items(s, p1, (n - 1) as nat) {
                None => None,
                Some((rest, p2)) => Some((seq![c] + rest, p2)),
            },
        }
    }
}

pub open spec fn parse_caps(s: Seq<u8>, pos: int) -> Option<(Seq<SignedCapView>, int)> {
    match parse_u64(s, pos) {
        None => None,
        Some((n, p1)) => parse_caps_items(s, p1, n as nat),
    }
}

pub proof fn lemma_parse_caps_items_sound(s: Seq<u8>, pos: int, n: nat)
    requires
        parse_caps_items(s, pos, n) is Some,
    ensures
        ({
            let (items, p2) = parse_caps_items(s, pos, n).unwrap();
            &&& pos <= p2 <= s.len()
            &&& items.len() == n
            &&& forall|i: int| 0 <= i < items.len() ==> wf_signed_cap_enc(items[i])
            &&& enc_caps_items(items) == s.subrange(pos, p2)
        }),
    decreases n,
{
    if n == 0 {
        assert(enc_caps_items(Seq::empty()) =~= s.subrange(pos, pos));
    } else {
        let (c, p1) = parse_signed_cap(s, pos).unwrap();
        let (rest, p2) = parse_caps_items(s, p1, (n - 1) as nat).unwrap();
        lemma_parse_signed_cap_sound(s, pos);
        lemma_parse_caps_items_sound(s, p1, (n - 1) as nat);
        lemma_subrange_glue(s, pos, p1, p2);
        let items = seq![c] + rest;
        assert(items[0] == c);
        assert(items.drop_first() =~= rest);
        assert(enc_caps_items(items) == enc_signed_cap(c) + enc_caps_items(rest));
    }
}

pub proof fn lemma_parse_caps_sound(s: Seq<u8>, pos: int)
    requires
        parse_caps(s, pos) is Some,
    ensures
        ({
            let (items, p2) = parse_caps(s, pos).unwrap();
            &&& pos <= p2 <= s.len()
            &&& wf_caps_enc(items)
            &&& enc_caps(items) == s.subrange(pos, p2)
        }),
{
    let (n, p1) = parse_u64(s, pos).unwrap();
    let (items, p2) = parse_caps_items(s, p1, n as nat).unwrap();
    lemma_parse_u64_sound(s, pos);
    lemma_parse_caps_items_sound(s, p1, n as nat);
    lemma_subrange_glue(s, pos, p1, p2);
    assert(items.len() as u64 == n);
}

/// An optional word: an absence byte, or a presence byte and the word.
pub open spec fn enc_opt_u64(o: Option<u64>) -> Seq<u8> {
    match o {
        None => enc_bool(false),
        Some(v) => enc_bool(true) + enc_u64(v),
    }
}

pub open spec fn parse_opt_u64(s: Seq<u8>, pos: int) -> Option<(Option<u64>, int)> {
    match parse_bool(s, pos) {
        None => None,
        Some((tag, p1)) => if !tag {
            Some((None, p1))
        } else {
            match parse_u64(s, p1) {
                None => None,
                Some((v, p2)) => Some((Some(v), p2)),
            }
        },
    }
}

pub proof fn lemma_parse_opt_u64_sound(s: Seq<u8>, pos: int)
    requires
        parse_opt_u64(s, pos) is Some,
    ensures
        ({
            let (o, p2) = parse_opt_u64(s, pos).unwrap();
            &&& pos <= p2 <= s.len()
            &&& enc_opt_u64(o) == s.subrange(pos, p2)
        }),
{
    let (tag, p1) = parse_bool(s, pos).unwrap();
    if !tag {
        assert(enc_opt_u64(None) =~= s.subrange(pos, p1));
    } else {
        let (v, p2) = parse_u64(s, p1).unwrap();
        lemma_parse_u64_sound(s, p1);
        lemma_subrange_glue(s, pos, p1, p2);
        assert(enc_bool(true) =~= s.subrange(pos, p1));
    }
}

/// An optional byte string, tagged the same way.
pub open spec fn enc_opt_bytes(o: Option<Seq<u8>>) -> Seq<u8> {
    match o {
        None => enc_bool(false),
        Some(v) => enc_bool(true) + enc_bytes(v),
    }
}

pub open spec fn wf_opt_bytes_enc(o: Option<Seq<u8>>) -> bool {
    match o {
        None => true,
        Some(v) => wf_bytes(v),
    }
}

pub open spec fn parse_opt_bytes(s: Seq<u8>, pos: int) -> Option<(Option<Seq<u8>>, int)> {
    match parse_bool(s, pos) {
        None => None,
        Some((tag, p1)) => if !tag {
            Some((None, p1))
        } else {
            match parse_bytes(s, p1) {
                None => None,
                Some((v, p2)) => Some((Some(v), p2)),
            }
        },
    }
}

pub proof fn lemma_parse_opt_bytes_sound(s: Seq<u8>, pos: int)
    requires
        parse_opt_bytes(s, pos) is Some,
    ensures
        ({
            let (o, p2) = parse_opt_bytes(s, pos).unwrap();
            &&& pos <= p2 <= s.len()
            &&& wf_opt_bytes_enc(o)
            &&& enc_opt_bytes(o) == s.subrange(pos, p2)
        }),
{
    let (tag, p1) = parse_bool(s, pos).unwrap();
    if !tag {
        assert(enc_opt_bytes(None) =~= s.subrange(pos, p1));
    } else {
        let (v, p2) = parse_bytes(s, p1).unwrap();
        lemma_parse_bytes_sound(s, p1);
        lemma_subrange_glue(s, pos, p1, p2);
        assert(enc_bool(true) =~= s.subrange(pos, p1));
    }
}

/// An optional address, tagged the same way.
pub open spec fn enc_opt_address(o: Option<AddressView>) -> Seq<u8> {
    match o {
        None => enc_bool(false),
        Some(a) => enc_bool(true) + enc_address(a),
    }
}

pub open spec fn wf_opt_address_enc(o: Option<AddressView>) -> bool {
    match o {
        None => true,
        Some(a) => wf_address_enc(a),
    }
}

pub open spec fn parse_opt_address(s: Seq<u8>, pos: int) -> Option<(Option<AddressView>, int)> {
    match parse_bool(s, pos) {
        None => None,
        Some((tag, p1)) => if !tag {
            Some((None, p1))
        } else {
            match parse_address(s, p1) {
                None => None,
                Some((a, p2)) => Some((Some(a), p2)),
            }
        },
    }
}

pub proof fn lemma_parse_opt_address_sound(s: Seq<u8>, pos: int)
    requires
        parse_opt_address(s, pos) is Some,
    ensures
        ({
            let (o, p2) = parse_opt_address(s, pos).unwrap();
            &&& pos <= p2 <= s.len()
            &&& wf_opt_address_enc(o)
            &&& enc_opt_address(o) == s.subrange(pos, p2)
        }),
{
    let (tag, p1) = parse_bool(s, pos).unwrap();
    if !tag {
        assert(enc_opt_address(None) =~= s.subrange(pos, p1));
    } else {
        let (a, p2) = parse_address(s, p1).unwrap();
        lemma_parse_address_sound(s, p1);
        lemma_subrange_glue(s, pos, p1, p2);
        assert(enc_bool(true) =~= s.subrange(pos, p1));
    }
}

/// A request on the wire: inherit flag, optional timeout, body,
/// optional metadata, capability list.
pub open spec fn enc_request(q: RequestView) -> Seq<u8> {
    enc_bool(q.inherit) + enc_opt_u64(q.expects_response) + enc_bytes(q.body) + enc_opt_bytes(
        q.metadata,
    ) + enc_caps(q.capabilities)
}

pub open spec fn wf_request_enc(q: RequestView) -> bool {
    wf_bytes(q.body) && wf_opt_bytes_enc(q.metadata) && wf_caps_enc(q.capabilities)
}

pub open spec fn parse_request(s: Seq<u8>, pos: int) -> Option<(RequestView, int)> {
    match parse_bool(s, pos) {
        None => None,
        Some((inherit, p1)) => match parse_opt_u64(s, p1) {
            None => None,
            Some((expects_response, p2)) => match parse_bytes(s, p2) {
                None => None,
                Some((body, p3)) => match parse_opt_bytes(s, p3) {
                    None => None,
                    Some((metadata, p4)) => match parse_caps(s, p4) {
                        None => None,
                        Some((capabilities, p5)) => Some(
                            (
                                RequestView {
                                    inherit,
                                    expects_response,
                                    body,
                                    metadata,
                                    capabilities,
                                },
                                p5,
                            ),
                        ),
                    },
                },
            },
        },
    }
}

pub proof fn lemma_parse_request_sound(s: Seq<u8>, pos: int)
    requires
        parse_request(s, pos) is Some,
    ensures
        ({
            let (q, p5) = parse_request(s, pos).unwrap();
            &&& pos <= p5 <= s.len()
            &&& wf_request_enc(q)
            &&& enc_request(q) == s.subrange(pos, p5)
        }),
{
    let (inherit, p1) = parse_bool(s, pos).unwrap();
    let (expects_response, p2) = parse_opt_u64(s, p1).unwrap();
    let (body, p3) = parse_bytes(s, p2).unwrap();
    let (metadata, p4) = parse_opt_bytes(s, p3).unwrap();
    let (capabilities, p5) = parse_caps(s, p4).unwrap();
    lemma_parse_opt_u64_sound(s, p1);
    lemma_parse_bytes_sound(s, p2);
    lemma_parse_opt_bytes_sound(s, p3);
    lemma_parse_caps_sound(s, p4);
    assert(enc_bool(inherit) =~= s.subrange(pos, p1));
    lemma_subrange_glue(s, pos, p1, p2);
    lemma_subrange_glue(s, pos, p2, p3);
    lemma_subrange_glue(s, pos, p3, p4);
    lemma_subrange_glue(s, pos, p4, p5);
}

/// A response on the wire: inherit flag, body, optional metadata,
/// capability list.
pub open spec fn enc_response(p: ResponseView) -> Seq<u8> {
    enc_bool(p.inherit) + enc_bytes(p.body) + enc_opt_bytes(p.metadata) + enc_caps(p.capabilities)
}

pub open spec fn wf_response_enc(p: ResponseView) -> bool {
    wf_bytes(p.body) && wf_opt_bytes_enc(p.metadata) && wf_caps_enc(p.capabilities)
}

pub open spec fn parse_response(s: Seq<u8>, pos: int) -> Option<(ResponseView, int)> {
    match parse_bool(s, pos) {
        None => None,
        Some((inherit, p1)) => match parse_bytes(s, p1) {
            None => None,
            Some((body, p2)) => match parse_opt_bytes(s, p2) {
                None => None,
                Some((metadata, p3)) => match parse_caps(s, p3) {
                    None => None,
                    Some((capabilities, p4)) => Some(
                        (ResponseView { inherit, body, metadata, capabilities }, p4),
                    ),
                },
            },
        },
    }
}

pub proof fn lemma_parse_response_sound(s: Seq<u8>, pos: int)
    requires
        parse_response(s, pos) is Some,
    ensures
        ({
            let (p, p4) = parse_response(s, pos).unwrap();
            &&& pos <= p4 <= s.len()
            &&& wf_response_enc(p)
            &&& enc_response(p) == s.subrange(pos, p4)
        }),
{
    let (inherit, p1) = parse_bool(s, pos).unwrap();
    let (body, p2) = parse_bytes(s, p1).unwrap();
    let (metadata, p3) = parse_opt_bytes(s, p2).unwrap();
    let (capabilities, p4) = parse_caps(s, p3).unwrap();
    lemma_parse_bytes_sound(s, p1);
    lemma_parse_opt_bytes_sound(s, p2);
    lemma_parse_caps_sound(s, p3);
    assert(enc_bool(inherit) =~= s.subrange(pos, p1));
    lemma_subrange_glue(s, pos, p1, p2);
    lemma_subrange_glue(s, pos, p2, p3);
    lemma_subrange_glue(s, pos, p3, p4);
}

/// A message on the wire: a variant tag, then the request or response.
pub open spec fn enc_message(m: MessageView) -> Seq<u8> {
    match m {
        MessageView::Request(q) => seq![0u8] + enc_request(q),
        MessageView::Response(p) => seq![1u8] + enc_response(p),
    }
}

pub open spec fn wf_message_enc(m: MessageView) -> bool {
    match m {
        MessageView::Request(q) => wf_request_enc(q),
        MessageView::Response(p) => wf_response_enc(p),
    }
}

pub open spec fn parse_message(s: Seq<u8>, pos: int) -> Option<(MessageView, int)> {
    if 0 <= pos && pos < s.len() && s[pos] == 0 {
        match parse_request(s, pos + 1) {
            None => None,
            Some((q, p2)) => Some((MessageView::Request(q), p2)),
        }
    } else if 0 <= pos && pos < s.len() && s[pos] == 1 {
        match parse_response(s, pos + 1) {
            None => None,
            Some((p, p2)) => Some((MessageView::Response(p), p2)),
        }
    } else {
        None
    }
}

pub proof fn lemma_parse_message_sound(s: Seq<u8>, pos: int)
    requires
        parse_message(s, pos) is Some,
    ensures
        ({
            let (m, p2) = parse_message(s, pos).unwrap();
            &&& pos <= p2 <= s.len()
            &&& wf_message_enc(m)
            &&& enc_message(m) == s.subrange(pos, p2)
        }),
{
    if s[pos] == 0 {
        let (q, p2) = parse_request(s, pos + 1).unwrap();
        lemma_parse_request_sound(s, pos + 1);
        lemma_subrange_glue(s, pos, pos + 1, p2);
        assert(seq![0u8] =~= s.subrange(pos, pos + 1));
    } else {
        let (p, p2) = parse_response(s, pos + 1).unwrap();
        lemma_parse_response_sound(s, pos + 1);
        lemma_subrange_glue(s, pos, pos + 1, p2);
        assert(seq![1u8] =~= s.subrange(pos, pos + 1));
    }
}

/// A blob on the wire: optional mime, then the bytes.
pub open spec fn enc_blob(b: BlobView) -> Seq<u8> {
    enc_opt_bytes(b.mime) + enc_bytes(b.bytes)
}

pub open spec fn wf_blob_enc(b: BlobView) -> bool {
    wf_opt_bytes_enc(b.mime) && wf_bytes(b.bytes)
}

pub open spec fn parse_blob(s: Seq<u8>, pos: int) -> Option<(BlobView, int)> {
    match parse_opt_bytes(s, pos) {
        None => None,
        Some((mime, p1)) => match parse_bytes(s, p1) {
            None => None,
            Some((bytes, p2)) => Some((BlobView { mime, bytes }, p2)),
        },
    }
}

pub proof fn lemma_parse_blob_sound(s: Seq<u8>, pos: int)
    requires
        parse_blob(s, pos) is Some,
    ensures
        ({
            let (b, p2) = parse_blob(s, pos).unwrap();
            &&& pos <= p2 <= s.len()
            &&& wf_blob_enc(b)
            &&& enc_blob(b) == s.subrange(pos, p2)
        }),
{
    let (mime, p1) = parse_opt_bytes(s, pos).unwrap();
    let (bytes, p2) = parse_bytes(s, p1).unwrap();
    lemma_parse_opt_bytes_sound(s, pos);
    lemma_parse_bytes_sound(s, p1);
    lemma_subrange_glue(s, pos, p1, p2);
}

/// An optional blob, tagged the same way as the other options.
pub open spec fn enc_opt_blob(o: Option<BlobView>) -> Seq<u8> {
    match o {
        None => enc_bool(false),
        Some(b) => enc_bool(true) + enc_blob(b),
    }
}

pub open spec fn wf_opt_blob_enc(o: Option<BlobView>) -> bool {
    match o {
        None => true,
        Some(b) => wf_blob_enc(b),
    }
}

pub open spec fn parse_opt_blob(s: Seq<u8>, pos: int) -> Option<(Option<BlobView>, int)> {
    match parse_bool(s, pos) {
        None => None,
        Some((tag, p1)) => if !tag {
            Some((None, p1))
        } else {
            match parse_blob(s, p1) {
                None => None,
                Some((b, p2)) => Some((Some(b), p2)),
            }
        },
    }
}

pub proof fn lemma_parse_opt_blob_sound(s: Seq<u8>, pos: int)
    requires
        parse_opt_blob(s, pos) is Some,
    ensures
        ({
            let (o, p2) = parse_opt_blob(s, pos).unwrap();
            &&& pos <= p2 <= s.len()
            &&& wf_opt_blob_enc(o)
            &&& enc_opt_blob(o) == s.subrange(pos, p2)
        }),
{
    let (tag, p1) = parse_bool(s, pos).unwrap();
    if !tag {
        assert(enc_opt_blob(None) =~= s.subrange(pos, p1));
    } else {
        let (b, p2) = parse_blob(s, p1).unwrap();
        lemma_parse_blob_sound(s, p1);
        lemma_subrange_glue(s, pos, p1, p2);
        assert(enc_bool(true) =~= s.subrange(pos, p1));
    }
}

/// An envelope on the wire: id, source, target, optional rsvp, the
/// message, and an optional blob.
pub open spec fn enc_km(e: KernelMessageView) -> Seq<u8> {
    enc_u64(e.id) + enc_address(e.source) + enc_address(e.target) + enc_opt_address(e.rsvp)
        + enc_message(e.message) + enc_opt_blob(e.blob)
}

pub open spec fn wf_km_enc(e: KernelMessageView) -> bool {
    wf_address_enc(e.source) && wf_address_enc(e.target) && wf_opt_address_enc(e.rsvp)
        && wf_message_enc(e.message) && wf_opt_blob_enc(e.blob)
}

pub open spec fn parse_km(s: Seq<u8>, pos: int) -> Option<(KernelMessageView, int)> {
    match parse_u64(s, pos) {
        None => None,
        Some((id, p1)) => match parse_address(s, p1) {
            None => None,
            Some((source, p2)) => match parse_address(s, p2) {
                None => None,
                Some((target, p3)) => match parse_opt_address(s, p3) {
                    None => None,
                    Some((rsvp, p4)) => match parse_message(s, p4) {
                        None => None,
                        Some((message, p5)) => match parse_opt_blob(s, p5) {
                            None => None,
                            Some((blob, p6)) => Some(
                                (
                                    KernelMessageView { id, source, target, rsvp, message, blob },
                                    p6,
                                ),
                            ),
                        },
                    },
                },
            },
        },
    }
}

pub proof fn lemma_parse_km_sound(s: Seq<u8>, pos: int)
    requires
        parse_km(s, pos) is Some,
    ensures
        ({
            let (e, p6) = parse_km(s, pos).unwrap();
            &&& pos <= p6 <= s.len()
            &&& wf_km_enc(e)
            &&& enc_km(e) == s.subrange(pos, p6)
        }),
{
    let (id, p1) = parse_u64(s, pos).unwrap();
    let (source, p2) = parse_address(s, p1).unwrap();
    let (target, p3) = parse_address(s, p2).unwrap();
    let (rsvp, p4) = parse_opt_address(s, p3).unwrap();
    let (message, p5) = parse_message(s, p4).unwrap();
    let (blob, p6) = parse_opt_blob(s, p5).unwrap();
    lemma_parse_u64_sound(s, pos);
    lemma_parse_address_sound(s, p1);
    lemma_parse_address_sound(s, p2);
    lemma_parse_opt_address_sound(s, p3);
    lemma_parse_message_sound(s, p4);
    lemma_parse_opt_blob_sound(s, p5);
    lemma_subrange_glue(s, pos, p1, p2);
    lemma_subrange_glue(s, pos, p2, p3);
    lemma_subrange_glue(s, pos, p3, p4);
    lemma_subrange_glue(s, pos, p4, p5);
    lemma_subrange_glue(s, pos, p5, p6);
}

proof fn lemma_enc_caps_items_snoc(pre: Seq<SignedCapView>, c: SignedCapView)
    ensures
        enc_caps_items(pre.push(c)) == enc_caps_items(pre) + enc_signed_cap(c),
    decreases pre.len(),
{
    if pre.len() == 0 {
        assert(pre.push(c)[0] == c);
        assert(pre.push(c).drop_first() =~= pre);
        assert(enc_caps_items(pre.push(c)) =~= enc_caps_items(pre) + enc_signed_cap(c));
    } else {
        assert(pre.push(c)[0] == pre[0]);
        assert(pre.push(c).drop_first() =~= pre.drop_first().push(c));
        lemma_enc_caps_items_snoc(pre.drop_first(), c);
        assert(enc_caps_items(pre.push(c)) =~= enc_caps_items(pre) + enc_signed_cap(c));
    }
}

/// Append the encoding of a capability list.
pub fn put_caps(out: &mut Vec<u8>, v: &Vec<SignedCapability>)
    ensures
        final(out)@ == old(out)@ + enc_caps(caps_view(v@)),
{
    put_u64(out, v.len() as u64);
    let n: usize = v.len();
    let mut i: usize = 0;
    while i < n
        invariant
            n == v@.len(),
            i <= n,
            out@ =~= old(out)@ + enc_u64(v@.len() as u64) + enc_caps_items(
                caps_view(v@).subrange(0, i as int),
            ),
        decreases n - i,
    {
        put_signed_cap(out, &v[i]);
        proof {
            assert(caps_view(v@).subrange(0, i + 1) =~= caps_view(v@).subrange(0, i as int).push(
                v@[i as int]@,
            ));
            lemma_enc_caps_items_snoc(caps_view(v@).subrange(0, i as int), v@[i as int]@);
        }
        i += 1;
    }
    proof {
        assert(caps_view(v@).subrange(0, n as int) =~= caps_view(v@));
        assert(out@ =~= old(out)@ + enc_caps(caps_view(v@)));
    }
}

/// Read a capability list; mirrors `parse_caps`.
pub fn take_caps(b: &Vec<u8>, pos: usize) -> (r: Option<(Vec<SignedCapability>, usize)>)
    ensures
        match r {
            Some((v, p2)) => parse_caps(b@, pos as int) == Some((caps_view(v@), p2 as int)) && p2
                <= b@.len(),
            None => parse_caps(b@, pos as int) is None,
        },
{
    let (n, p1) = match take_u64(b, pos) {
        None => {
            return None;
        },
        Some(x) => x,
    };
    let mut items: Vec<SignedCapability> = Vec::new();
    let mut cur: usize = p1;
    let mut i: u64 = 0;
    while i < n
        invariant
            i <= n,
            cur <= b@.len(),
            caps_view(items@).len() == i,
            parse_u64(b@, pos as int) == Some((n, p1 as int)),
            parse_caps_items(b@, p1 as int, n as nat) == (match parse_caps_items(
                b@,
                cur as int,
                (n - i) as nat,
            ) {
                None => None::<(Seq<SignedCapView>, int)>,
                Some((rest, p)) => Some((caps_view(items@) + rest, p)),
            }),
        decreases n - i,
    {
        match take_signed_cap(b, cur) {
            None => {
                return None;
            },
            Some((c, p2)) => {
                proof {
                    let ghost k = (n - i) as nat;
                    let ghost items_old = items@;
                    if parse_caps_items(b@, p2 as int, (k - 1) as nat) is Some {
                        let (rest, pp) = parse_caps_items(b@, p2 as int, (k - 1) as nat).unwrap();
                        crate::message::lemma_caps_view_push(items_old, c);
                        assert(caps_view(items_old) + (seq![c@] + rest) =~= caps_view(
                            items_old.push(c),
                        ) + rest);
                    }
                }
                items.push(c);
                cur = p2;
                i = i + 1;
            },
        }
    }
    proof {
        assert(parse_caps_items(b@, cur as int, 0) == Some((Seq::<SignedCapView>::empty(), cur as int)));
        assert(caps_view(items@) + Seq::<SignedCapView>::empty() =~= caps_view(items@));
    }
    Some((items, cur))
}

/// Append the encoding of an optional word.
pub fn put_opt_u64(out: &mut Vec<u8>, o: &Option<u64>)
    ensures
        final(out)@ == old(out)@ + enc_opt_u64(*o),
{
    match o {
        None => put_bool(out, false),
        Some(v) => {
            put_bool(out, true);
            put_u64(out, *v);
            proof {
                assert(out@ =~= old(out)@ + enc_opt_u64(*o));
            }
        },
    }
}

/// The model of an optional byte vector.
pub open spec fn view_opt_bytes(o: Option<Vec<u8>>) -> Option<Seq<u8>> {
    match o {
        None => None,
        Some(v) => Some(v@),
    }
}

/// Append the encoding of an optional byte string.
pub fn put_opt_bytes(out: &mut Vec<u8>, o: &Option<Vec<u8>>)
    ensures
        final(out)@ == old(out)@ + enc_opt_bytes(view_opt_bytes(*o)),
{
    match o {
        None => put_bool(out, false),
        Some(v) => {
            put_bool(out, true);
            put_bytes(out, v);
            proof {
                assert(out@ =~= old(out)@ + enc_opt_bytes(view_opt_bytes(*o)));
            }
        },
    }
}

/// The model of an optional address.
pub open spec fn view_opt_address(o: Option<Address>) -> Option<AddressView> {
    match o {
        None => None,
        Some(a) => Some(a@),
    }
}

/// Append the encoding of an optional address.
pub fn put_opt_address(out: &mut Vec<u8>, o: &Option<Address>)
    ensures
        final(out)@ == old(out)@ + enc_opt_address(view_opt_address(*o)),
{
    match o {
        None => put_bool(out, false),
        Some(a) => {
            put_bool(out, true);
            put_address(out, a);
            proof {
                assert(out@ =~= old(out)@ + enc_opt_address(view_opt_address(*o)));
            }
        },
    }
}

/// Read an optional word; mirrors `parse_opt_u64`.
pub fn take_opt_u64(b: &Vec<u8>, pos: usize) -> (r: Option<(Option<u64>, usize)>)
    ensures
        match r {
            Some((o, p2)) => parse_opt_u64(b@, pos as int) == Some((o, p2 as int)) && p2
                <= b@.len(),
            None => parse_opt_u64(b@, pos as int) is None,
        },
{
    let (tag, p1) = match take_bool(b, pos) {
        None => {
            return None;
        },
        Some(x) => x,
    };
    if !tag {
        Some((None, p1))
    } else {
        match take_u64(b, p1) {
            None => None,
            Some((v, p2)) => Some((Some(v), p2)),
        }
    }
}

/// Read an optional byte string; mirrors `parse_opt_bytes`.
pub fn take_opt_bytes(b: &Vec<u8>, pos: usize) -> (r: Option<(Option<Vec<u8>>, usize)>)
    ensures
        match r {
            Some((o, p2)) => parse_opt_bytes(b@, pos as int) == Some((view_opt_bytes(o), p2 as int))
                && p2 <= b@.len(),
            None => parse_opt_bytes(b@, pos as int) is None,
        },
{
    let (tag, p1) = match take_bool(b, pos) {
        None => {
            return None;
        },
        Some(x) => x,
    };
    if !tag {
        Some((None, p1))
    } else {
        match take_bytes(b, p1) {
            None => None,
            Some((v, p2)) => Some((Some(v), p2)),
        }
    }
}

/// Read an optional address; mirrors `parse_opt_address`.
pub fn take_opt_address(b: &Vec<u8>, pos: usize) -> (r: Option<(Option<Address>, usize)>)
    ensures
        match r {
            Some((o, p2)) => parse_opt_address(b@, pos as int) == Some(
                (view_opt_address(o), p2 as int),
            ) && p2 <= b@.len(),
            None => parse_opt_address(b@, pos as int) is None,
        },
{
    let (tag, p1) = match take_bool(b, pos) {
        None => {
            return None;
        },
        Some(x) => x,
    };
    if !tag {
        Some((None, p1))
    } else {
        match take_address(b, p1) {
            None => None,
            Some((a, p2)) => Some((Some(a), p2)),
        }
    }
}

/// Append the encoding of a request.
pub fn put_request(out: &mut Vec<u8>, q: &Request)
    ensures
        final(out)@ == old(out)@ + enc_request(q@),
{
    put_bool(out, q.inherit);
    put_opt_u64(out, &q.expects_response);
    put_bytes(out, &q.body);
    put_opt_bytes(out, &q.metadata);
    put_caps(out, &q.capabilities);
    proof {
        assert(out@ =~= old(out)@ + enc_request(q@));
    }
}

/// Append the encoding of a response.
pub fn put_response(out: &mut Vec<u8>, p: &Response)
    ensures
        final(out)@ == old(out)@ + enc_response(p@),
{
    put_bool(out, p.inherit);
    put_bytes(out, &p.body);
    put_opt_bytes(out, &p.metadata);
    put_caps(out, &p.capabilities);
    proof {
        assert(out@ =~= old(out)@ + enc_response(p@));
    }
}

/// Append the encoding of a message.
pub fn put_message(out: &mut Vec<u8>, m: &Message)
    ensures
        final(out)@ == old(out)@ + enc_message(m@),
{
    match m {
        Message::Request(q) => {
            out.push(0);
            put_request(out, q);
        },
        Message::Response(p) => {
            out.push(1);
            put_response(out, p);
        },
    }
    proof {
        assert(out@ =~= old(out)@ + enc_message(m@));
    }
}

/// Read a request; mirrors `parse_request`.
pub fn take_request(b: &Vec<u8>, pos: usize) -> (r: Option<(Request, usize)>)
    ensures
        match r {
            Some((q, p2)) => parse_request(b@, pos as int) == Some((q@, p2 as int)) && p2
                <= b@.len(),
            None => parse_request(b@, pos as int) is None,
        },
{
    let (inherit, p1) = match take_bool(b, pos) {
        None => {
            return None;
        },
        Some(x) => x,
    };
    let (expects_response, p2) = match take_opt_u64(b, p1) {
        None => {
            return None;
        },
        Some(x) => x,
    };
    let (body, p3) = match take_bytes(b, p2) {
        None => {
            return None;
        },
        Some(x) => x,
    };
    let (metadata, p4) = match take_opt_bytes(b, p3) {
        None => {
            return None;
        },
        Some(x) => x,
    };
    let (capabilities, p5) = match take_caps(b, p4) {
        None => {
            return None;
        },
        Some(x) => x,
    };
    let q = Request { inherit, expects_response, body, metadata, capabilities };
    proof {
        assert(parse_request(b@, pos as int).unwrap().0 =~= q@);
    }
    Some((q, p5))
}

/// Read a response; mirrors `parse_response`.
pub fn take_response(b: &Vec<u8>, pos: usize) -> (r: Option<(Response, usize)>)
    ensures
        match r {
            Some((p, p2)) => parse_response(b@, pos as int) == Some((p@, p2 as int)) && p2
                <= b@.len(),
            None => parse_response(b@, pos as int) is None,
        },
{
    let (inherit, p1) = match take_bool(b, pos) {
        None => {
            return None;
        },
        Some(x) => x,
    };
    let (body, p2) = match take_bytes(b, p1) {
        None => {
            return None;
        },
        Some(x) => x,
    };
    let (metadata, p3) = match take_opt_bytes(b, p2) {
        None => {
            return None;
        },
        Some(x) => x,
    };
    let (capabilities, p4) = match take_caps(b, p3) {
        None => {
            return None;
        },
        Some(x) => x,
    };
    let p = Response { inherit, body, metadata, capabilities };
    proof {
        assert(parse_response(b@, pos as int).unwrap().0 =~= p@);
    }
    Some((p, p4))
}

/// Read a message; mirrors `parse_message`.
pub fn take_message(b: &Vec<u8>, pos: usize) -> (r: Option<(Message, usize)>)
    ensures
        match r {
            Some((m, p2)) => parse_message(b@, pos as int) == Some((m@, p2 as int)) && p2
                <= b@.len(),
            None => parse_message(b@, pos as int) is None,
        },
{
    if pos >= b.len() {
        return None;
    }
    let tag = b[pos];
    if tag == 0 {
        match take_request(b, pos + 1) {
            None => None,
            Some((q, p2)) => Some((Message::Request(q), p2)),
        }
    } else if tag == 1 {
        match take_response(b, pos + 1) {
            None => None,
            Some((p, p2)) => Some((Message::Response(p), p2)),
        }
    } else {
        None
    }
}

/// The model of an optional blob.
pub open spec fn view_opt_blob(o: Option<LazyLoadBlob>) -> Option<BlobView> {
    match o {
        None => None,
        Some(b) => Some(b@),
    }
}

/// Append the encoding of an optional blob.
pub fn put_opt_blob(out: &mut Vec<u8>, o: &Option<LazyLoadBlob>)
    ensures
        final(out)@ == old(out)@ + enc_opt_blob(view_opt_blob(*o)),
{
    match o {
        None => put_bool(out, false),
        Some(bl) => {
            put_bool(out, true);
            put_opt_bytes(out, &bl.mime);
            put_bytes(out, &bl.bytes);
            proof {
                assert(out@ =~= old(out)@ + enc_opt_blob(view_opt_blob(*o)));
            }
        },
    }
}

/// Read an optional blob; mirrors `parse_opt_blob`.
pub fn take_opt_blob(b: &Vec<u8>, pos: usize) -> (r: Option<(Option<LazyLoadBlob>, usize)>)
    ensures
        match r {
            Some((o, p2)) => parse_opt_blob(b@, pos as int) == Some((view_opt_blob(o), p2 as int))
                && p2 <= b@.len(),
            None => parse_opt_blob(b@, pos as int) is None,
        },
{
    let (tag, p1) = match take_bool(b, pos) {
        None => {
            return None;
        },
        Some(x) => x,
    };
    if !tag {
        return Some((None, p1));
    }
    let (mime, p2) = match take_opt_bytes(b, p1) {
        None => {
            return None;
        },
        Some(x) => x,
    };
    let (bytes, p3) = match take_bytes(b, p2) {
        None => {
            return None;
        },
        Some(x) => x,
    };
    let bl = LazyLoadBlob { mime, bytes };
    proof {
        assert(parse_opt_blob(b@, pos as int).unwrap().0.unwrap() =~= bl@);
    }
    Some((Some(bl), p3))
}

/// Serialize an envelope into its canonical wire bytes.
pub fn serialize_envelope(e: &KernelMessage) -> (r: Vec<u8>)
    ensures
        r@ == enc_km(e@),
{
    let mut out: Vec<u8> = Vec::new();
    put_u64(&mut out, e.id);
    put_address(&mut out, &e.source);
    put_address(&mut out, &e.target);
    put_opt_address(&mut out, &e.rsvp);
    put_message(&mut out, &e.message);
    put_opt_blob(&mut out, &e.blob);
    proof {
        assert(out@ =~= enc_km(e@));
    }
    out
}

/// Deserialize an envelope from its wire bytes. Succeeds exactly when
/// the bytes parse as one envelope with nothing left over, and then
/// serializing the result gives back the input bytes.
pub fn deserialize_envelope(b: &Vec<u8>) -> (r: Option<KernelMessage>)
    ensures
        match r {
            Some(e) => parse_km(b@, 0) == Some((e@, b@.len() as int)) && enc_km(e@) == b@,
            None => forall|e: KernelMessageView|
                parse_km(b@, 0) != Some((e, b@.len() as int)),
        },
{
    let (id, p1) = match take_u64(b, 0) {
        None => {
            return None;
        },
        Some(x) => x,
    };
    let (source, p2) = match take_address(b, p1) {
        None => {
            return None;
        },
        Some(x) => x,
    };
    let (target, p3) = match take_address(b, p2) {
        None => {
            return None;
        },
        Some(x) => x,
    };
    let (rsvp, p4) = match take_opt_address(b, p3) {
        None => {
            return None;
        },
        Some(x) => x,
    };
    let (message, p5) = match take_message(b, p4) {
        None => {
            return None;
        },
        Some(x) => x,
    };
    let (blob, p6) = match take_opt_blob(b, p5) {
        None => {
            return None;
        },
        Some(x) => x,
    };
    if p6 != b.len() {
        return None;
    }
    let e = KernelMessage { id, source, target, rsvp, message, blob };
    proof {
        assert(parse_km(b@, 0).unwrap().0 =~= e@);
        lemma_wire_round_trip(b@, e@);
    }
    Some(e)
}

proof fn lemma_parse_bool_complete(s: Seq<u8>, pos: int, b: bool)
    requires
        0 <= pos,
        pos + 1 <= s.len(),
        s.subrange(pos, pos + 1) == enc_bool(b),
    ensures
        parse_bool(s, pos) == Some((b, pos + 1)),
{
    assert(s[pos] == enc_bool(b)[0]) by {
        assert(s.subrange(pos, pos + 1)[0] == s[pos]);
    }
}

pub proof fn lemma_parse_caps_items_complete(s: Seq<u8>, pos: int, items: Seq<SignedCapView>)
    requires
        0 <= pos,
        forall|i: int| 0 <= i < items.len() ==> wf_signed_cap_enc(#[trigger] items[i]),
        pos + enc_caps_items(items).len() <= s.len(),
        s.subrange(pos, pos + enc_caps_items(items).len()) == enc_caps_items(items),
    ensures
        parse_caps_items(s, pos, items.len()) == Some((items, pos + enc_caps_items(items).len())),
    decreases items.len(),
{
    if items.len() == 0 {
        assert(parse_caps_items(s, pos, 0) == Some((Seq::<SignedCapView>::empty(), pos)));
        assert(Seq::<SignedCapView>::empty() =~= items);
    } else {
        let e1 = enc_signed_cap(items[0]);
        let e2 = enc_caps_items(items.drop_first());
        assert(enc_caps_items(items) =~= e1 + e2);
        lemma_prefix_split(s, pos, e1, e2);
        lemma_parse_signed_cap_complete(s, pos, items[0]);
        assert forall|i: int| 0 <= i < items.drop_first().len() implies wf_signed_cap_enc(
            #[trigger] items.drop_first()[i],
        ) by {
            assert(items.drop_first()[i] == items[i + 1]);
        }
        lemma_parse_caps_items_complete(s, pos + e1.len(), items.drop_first());
        assert(seq![items[0]] + items.drop_first() =~= items);
    }
}

pub proof fn lemma_parse_caps_complete(s: Seq<u8>, pos: int, items: Seq<SignedCapView>)
    requires
        0 <= pos,
        wf_caps_enc(items),
        pos + enc_caps(items).len() <= s.len(),
        s.subrange(pos, pos + enc_caps(items).len()) == enc_caps(items),
    ensures
        parse_caps(s, pos) == Some((items, pos + enc_caps(items).len())),
{
    let e1 = enc_u64(items.len() as u64);
    let e2 = enc_caps_items(items);
    assert(enc_caps(items) =~= e1 + e2);
    lemma_prefix_split(s, pos, e1, e2);
    lemma_parse_u64_complete(s, pos, items.len() as u64);
    lemma_parse_caps_items_complete(s, pos + 8, items);
}

pub proof fn lemma_parse_opt_u64_complete(s: Seq<u8>, pos: int, o: Option<u64>)
    requires
        0 <= pos,
        pos + enc_opt_u64(o).len() <= s.len(),
        s.subrange(pos, pos + enc_opt_u64(o).len()) == enc_opt_u64(o),
    ensures
        parse_opt_u64(s, pos) == Some((o, pos + enc_opt_u64(o).len())),
{
    match o {
        None => {
            lemma_parse_bool_complete(s, pos, false);
        },
        Some(v) => {
            assert(enc_opt_u64(o) =~= enc_bool(true) + enc_u64(v));
            lemma_prefix_split(s, pos, enc_bool(true), enc_u64(v));
            lemma_parse_bool_complete(s, pos, true);
            lemma_parse_u64_complete(s, pos + 1, v);
        },
    }
}

pub proof fn lemma_parse_opt_bytes_complete(s: Seq<u8>, pos: int, o: Option<Seq<u8>>)
    requires
        0 <= pos,
        wf_opt_bytes_enc(o),
        pos + enc_opt_bytes(o).len() <= s.len(),
        s.subrange(pos, pos + enc_opt_bytes(o).len()) == enc_opt_bytes(o),
    ensures
        parse_opt_bytes(s, pos) == Some((o, pos + enc_opt_bytes(o).len())),
{
    match o {
        None => {
            lemma_parse_bool_complete(s, pos, false);
        },
        Some(v) => {
            assert(enc_opt_bytes(o) =~= enc_bool(true) + enc_bytes(v));
            lemma_prefix_split(s, pos, enc_bool(true), enc_bytes(v));
            lemma_parse_bool_complete(s, pos, true);
            lemma_parse_bytes_complete(s, pos + 1, v);
        },
    }
}

pub proof fn lemma_parse_opt_address_complete(s: Seq<u8>, pos: int, o: Option<AddressView>)
    requires
        0 <= pos,
        wf_opt_address_enc(o),
        pos + enc_opt_address(o).len() <= s.len(),
        s.subrange(pos, pos + enc_opt_address(o).len()) == enc_opt_address(o),
    ensures
        parse_opt_address(s, pos) == Some((o, pos + enc_opt_address(o).len())),
{
    match o {
        None => {
            lemma_parse_bool_complete(s, pos, false);
        },
        Some(a) => {
            assert(enc_opt_address(o) =~= enc_bool(true) + enc_address(a));
            lemma_prefix_split(s, pos, enc_bool(true), enc_address(a));
            lemma_parse_bool_complete(s, pos, true);
            lemma_parse_address_complete(s, pos + 1, a);
        },
    }
}

pub proof fn lemma_parse_request_complete(s: Seq<u8>, pos: int, q: RequestView)
    requires
        0 <= pos,
        wf_request_enc(q),
        pos + enc_request(q).len() <= s.len(),
        s.subrange(pos, pos + enc_request(q).len()) == enc_request(q),
    ensures
        parse_request(s, pos) == Some((q, pos + enc_request(q).len())),
{
    let e1 = enc_bool(q.inherit);
    let e2 = enc_opt_u64(q.expects_response);
    let e3 = enc_bytes(q.body);
    let e4 = enc_opt_bytes(q.metadata);
    let e5 = enc_caps(q.capabilities);
    assert(enc_request(q) =~= e1 + (e2 + (e3 + (e4 + e5))));
    lemma_prefix_split(s, pos, e1, e2 + (e3 + (e4 + e5)));
    let p1 = pos + e1.len();
    lemma_prefix_split(s, p1, e2, e3 + (e4 + e5));
    let p2 = p1 + e2.len();
    lemma_prefix_split(s, p2, e3, e4 + e5);
    let p3 = p2 + e3.len();
    lemma_prefix_split(s, p3, e4, e5);
    let p4 = p3 + e4.len();
    lemma_parse_bool_complete(s, pos, q.inherit);
    lemma_parse_opt_u64_complete(s, p1, q.expects_response);
    lemma_parse_bytes_complete(s, p2, q.body);
    lemma_parse_opt_bytes_complete(s, p3, q.metadata);
    lemma_parse_caps_complete(s, p4, q.capabilities);
    assert(parse_request(s, pos).unwrap().0 =~= q);
}

pub proof fn lemma_parse_response_complete(s: Seq<u8>, pos: int, p: ResponseView)
    requires
        0 <= pos,
        wf_response_enc(p),
        pos + enc_response(p).len() <= s.len(),
        s.subrange(pos, pos + enc_response(p).len()) == enc_response(p),
    ensures
        parse_response(s, pos) == Some((p, pos + enc_response(p).len())),
{
    let e1 = enc_bool(p.inherit);
    let e2 = enc_bytes(p.body);
    let e3 = enc_opt_bytes(p.metadata);
    let e4 = enc_caps(p.capabilities);
    assert(enc_response(p) =~= e1 + (e2 + (e3 + e4)));
    lemma_prefix_split(s, pos, e1, e2 + (e3 + e4));
    let p1 = pos + e1.len();
    lemma_prefix_split(s, p1, e2, e3 + e4);
    let p2 = p1 + e2.len();
    lemma_prefix_split(s, p2, e3, e4);
    let p3 = p2 + e3.len();
    lemma_parse_bool_complete(s, pos, p.inherit);
    lemma_parse_bytes_complete(s, p1, p.body);
    lemma_parse_opt_bytes_complete(s, p2, p.metadata);
    lemma_parse_caps_complete(s, p3, p.capabilities);
    assert(parse_response(s, pos).unwrap().0 =~= p);
}

pub proof fn lemma_parse_message_complete(s: Seq<u8>, pos: int, m: MessageView)
    requires
        0 <= pos,
        wf_message_enc(m),
        pos + enc_message(m).len() <= s.len(),
        s.subrange(pos, pos + enc_message(m).len()) == enc_message(m),
    ensures
        parse_message(s, pos) == Some((m, pos + enc_message(m).len())),
{
    match m {
        MessageView::Request(q) => {
            assert(enc_message(m) =~= seq![0u8] + enc_request(q));
            lemma_prefix_split(s, pos, seq![0u8], enc_request(q));
            assert(s[pos] == 0) by {
                assert(s.subrange(pos, pos + 1)[0] == s[pos]);
            }
            lemma_parse_request_complete(s, pos + 1, q);
        },
        MessageView::Response(p) => {
            assert(enc_message(m) =~= seq![1u8] + enc_response(p));
            lemma_prefix_split(s, pos, seq![1u8], enc_response(p));
            assert(s[pos] == 1) by {
                assert(s.subrange(pos, pos + 1)[0] == s[pos]);
            }
            lemma_parse_response_complete(s, pos + 1, p);
        },
    }
}

pub proof fn lemma_parse_blob_complete(s: Seq<u8>, pos: int, b: BlobView)
    requires
        0 <= pos,
        wf_blob_enc(b),
        pos + enc_blob(b).len() <= s.len(),
        s.subrange(pos, pos + enc_blob(b).len()) == enc_blob(b),
    ensures
        parse_blob(s, pos) == Some((b, pos + enc_blob(b).len())),
{
    let e1 = enc_opt_bytes(b.mime);
    let e2 = enc_bytes(b.bytes);
    lemma_prefix_split(s, pos, e1, e2);
    lemma_parse_opt_bytes_complete(s, pos, b.mime);
    lemma_parse_bytes_complete(s, pos + e1.len(), b.bytes);
    assert(parse_blob(s, pos).unwrap().0 =~= b);
}

pub proof fn lemma_parse_opt_blob_complete(s: Seq<u8>, pos: int, o: Option<BlobView>)
    requires
        0 <= pos,
        wf_opt_blob_enc(o),
        pos + enc_opt_blob(o).len() <= s.len(),
        s.subrange(pos, pos + enc_opt_blob(o).len()) == enc_opt_blob(o),
    ensures
        parse_opt_blob(s, pos) == Some((o, pos + enc_opt_blob(o).len())),
{
    match o {
        None => {
            lemma_parse_bool_complete(s, pos, false);
        },
        Some(b) => {
            assert(enc_opt_blob(o) =~= enc_bool(true) + enc_blob(b));
            lemma_prefix_split(s, pos, enc_bool(true), enc_blob(b));
            lemma_parse_bool_complete(s, pos, true);
            lemma_parse_blob_complete(s, pos + 1, b);
        },
    }
}

/// The other direction of the round trip: an envelope's wire bytes
/// parse back to the very envelope, consuming them all.
#[verifier::rlimit(60)]
pub proof fn lemma_wire_complete(e: KernelMessageView)
    requires
        wf_km_enc(e),
    ensures
        parse_km(enc_km(e), 0) == Some((e, enc_km(e).len() as int)),
{
    let s = enc_km(e);
    let e1 = enc_u64(e.id);
    let e2 = enc_address(e.source);
    let e3 = enc_address(e.target);
    let e4 = enc_opt_address(e.rsvp);
    let e5 = enc_message(e.message);
    let e6 = enc_opt_blob(e.blob);
    assert(s.subrange(0, s.len() as int) =~= s);
    assert(s =~= e1 + (e2 + (e3 + (e4 + (e5 + e6)))));
    lemma_prefix_split(s, 0, e1, e2 + (e3 + (e4 + (e5 + e6))));
    let p1 = e1.len() as int;
    lemma_prefix_split(s, p1, e2, e3 + (e4 + (e5 + e6)));
    let p2 = p1 + e2.len();
    lemma_prefix_split(s, p2, e3, e4 + (e5 + e6));
    let p3 = p2 + e3.len();
    lemma_prefix_split(s, p3, e4, e5 + e6);
    let p4 = p3 + e4.len();
    lemma_prefix_split(s, p4, e5, e6);
    let p5 = p4 + e5.len();
    lemma_parse_u64_complete(s, 0, e.id);
    lemma_parse_address_complete(s, p1, e.source);
    lemma_parse_address_complete(s, p2, e.target);
    lemma_parse_opt_address_complete(s, p3, e.rsvp);
    lemma_parse_message_complete(s, p4, e.message);
    lemma_parse_opt_blob_complete(s, p5, e.blob);
    assert(parse_km(s, 0).unwrap().0 =~= e);
}

/// Serializing what an envelope deserialized to yields the very bytes
/// that came in: the wire format round-trips, and an envelope read
/// off the wire has exactly one byte form.
pub proof fn lemma_wire_round_trip(s: Seq<u8>, e: KernelMessageView)
    requires
        parse_km(s, 0) == Some((e, s.len() as int)),
    ensures
        enc_km(e) == s,
{
    lemma_parse_km_sound(s, 0);
    assert(s.subrange(0, s.len() as int) =~= s);
}

} // verus!
