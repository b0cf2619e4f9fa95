//! The persisted form of the process map: the kernel's own record,
//! stored under its well-known key and read back on boot. The same
//! length-prefixed wire primitives carry records, capability sets
//! and exit policies.

use vstd::prelude::*;
use crate::codec::{
    enc_address, enc_bool, enc_bytes, enc_cap, enc_opt_blob, enc_pid, enc_request, enc_u64,
    parse_address, parse_bool, parse_bytes, parse_cap, parse_opt_blob, parse_pid, parse_request,
    parse_u64, put_address, put_bool, put_bytes, put_cap, put_opt_blob, put_pid, put_request,
    put_u64, take_address, take_bool, take_bytes, take_cap, take_opt_blob, take_pid, take_request,
    take_u64, view_opt_blob,
};
use crate::ids::{AddressView, ProcessId, ProcessIdView};
use crate::message::{BlobView, Capability, CapabilityView, LazyLoadBlob, Request, RequestView};
use crate::oracle::plain_caps_view;
use crate::process::{OnExit, OnExitRequest};
use crate::state_service::{MapEntry, ProcessMap, ProcessRecord};

verus! {

pub proof fn lemma_plain_caps_view_push(s: Seq<Capability>, c: Capability)
    ensures
        plain_caps_view(s.push(c)) == plain_caps_view(s).push(c@),
{
    assert forall|j: int| 0 <= j < s.len() + 1 implies plain_caps_view(s.push(c))[j]
        == plain_caps_view(s).push(c@)[j] by {
        assert(plain_caps_view(s.push(c))[j] == s.push(c)[j]@);
        if j < s.len() {
            assert(plain_caps_view(s)[j] == s[j]@);
        }
    }
    assert(plain_caps_view(s.push(c)) =~= plain_caps_view(s).push(c@));
}

/// A bare capability set on the wire: a count, then each capability.
pub open spec fn enc_plain_cap_items(items: Seq<CapabilityView>) -> Seq<u8>
    decreases items.len(),
{
    if items.len() == 0 {
        Seq::empty()
    } else {
        enc_cap(items[0]) + enc_plain_cap_items(items.drop_first())
    }
}

pub open spec fn enc_plain_caps(items: Seq<CapabilityView>) -> Seq<u8> {
    enc_u64(items.len() as u64) + enc_plain_cap_items(items)
}

pub open spec fn parse_plain_cap_items(s: Seq<u8>, pos: int, n: nat) -> Option<
    (Seq<CapabilityView>, int),
>
    decreases n,
{
    if n == 0 {
        if 0 <= pos <= s.len() {
            Some((Seq::empty(), pos))
        } else {
            None
        }
    } else {
        match parse_cap(s, pos) {
            None => None,
            Some((c, p1)) => match parse_plain_cap_items(s, p1, (n - 1) as nat) {
                None => None,
                Some((rest, p2)) => Some((seq![c] + rest, p2)),
            },
        }
    }
}

pub open spec fn parse_plain_caps(s: Seq<u8>, pos: int) -> Option<(Seq<CapabilityView>, int)> {
    match parse_u64(s, pos) {
        None => None,
        Some((n, p1)) => parse_plain_cap_items(s, p1, n as nat),
    }
}

proof fn lemma_enc_plain_cap_items_snoc(pre: Seq<CapabilityView>, c: CapabilityView)
    ensures
        enc_plain_cap_items(pre.push(c)) == enc_plain_cap_items(pre) + enc_cap(c),
    decreases pre.len(),
{
    if pre.len() == 0 {
        assert(pre.push(c)[0] == c);
        assert(pre.push(c).drop_first() =~= pre);
        assert(enc_plain_cap_items(pre.push(c)) =~= enc_plain_cap_items(pre) + enc_cap(c));
    } else {
        assert(pre.push(c)[0] == pre[0]);
        assert(pre.push(c).drop_first() =~= pre.drop_first().push(c));
        lemma_enc_plain_cap_items_snoc(pre.drop_first(), c);
        assert(enc_plain_cap_items(pre.push(c)) =~= enc_plain_cap_items(pre) + enc_cap(c));
    }
}

/// Append the encoding of a bare capability set.
pub fn put_plain_caps(out: &mut Vec<u8>, v: &Vec<Capability>)
    ensures
        final(out)@ == old(out)@ + enc_plain_caps(plain_caps_view(v@)),
{
    put_u64(out, v.len() as u64);
    let n: usize = v.len();
    let mut i: usize = 0;
    while i < n
        invariant
            n == v@.len(),
            i <= n,
            out@ =~= old(out)@ + enc_u64(v@.len() as u64) + enc_plain_cap_items(
                plain_caps_view(v@).subrange(0, i as int),
            ),
        decreases n - i,
    {
        put_cap(out, &v[i]);
        proof {
            assert(plain_caps_view(v@).subrange(0, i + 1) =~= plain_caps_view(v@).subrange(
                0,
                i as int,
            ).push(v@[i as int]@));
            lemma_enc_plain_cap_items_snoc(
                plain_caps_view(v@).subrange(0, i as int),
                v@[i as int]@,
            );
        }
        i += 1;
    }
    proof {
        assert(plain_caps_view(v@).subrange(0, n as int) =~= plain_caps_view(v@));
        assert(out@ =~= old(out)@ + enc_plain_caps(plain_caps_view(v@)));
    }
}

/// Read a bare capability set; mirrors `parse_plain_caps`.
pub fn take_plain_caps(b: &Vec<u8>, pos: usize) -> (r: Option<(Vec<Capability>, usize)>)
    ensures
        match r {
            Some((v, p2)) => parse_plain_caps(b@, pos as int) == Some(
                (plain_caps_view(v@), p2 as int),
            ) && p2 <= b@.len(),
            None => parse_plain_caps(b@, pos as int) is None,
        },
{
    let (n, p1) = match take_u64(b, pos) {
        None => {
            return None;
        },
        Some(x) => x,
    };
    let mut items: Vec<Capability> = Vec::new();
    let mut cur: usize = p1;
    let mut i: u64 = 0;
    while i < n
        invariant
            i <= n,
            cur <= b@.len(),
            plain_caps_view(items@).len() == i,
            parse_u64(b@, pos as int) == Some((n, p1 as int)),
            parse_plain_cap_items(b@, p1 as int, n as nat) == (match parse_plain_cap_items(
                b@,
                cur as int,
                (n - i) as nat,
            ) {
                None => None::<(Seq<CapabilityView>, int)>,
                Some((rest, p)) => Some((plain_caps_view(items@) + rest, p)),
            }),
        decreases n - i,
    {
        match take_cap(b, cur) {
            None => {
                return None;
            },
            Some((c, p2)) => {
                proof {
                    let k = (n - i) as nat;
                    let items_old = items@;
                    if parse_plain_cap_items(b@, p2 as int, (k - 1) as nat) is Some {
                        let (rest, pp) = parse_plain_cap_items(
                            b@,
                            p2 as int,
                            (k - 1) as nat,
                        ).unwrap();
                        lemma_plain_caps_view_push(items_old, c);
                        assert(plain_caps_view(items_old) + (seq![c@] + rest) =~= plain_caps_view(
                            items_old.push(c),
                        ) + rest);
                    }
                }
                items.push(c);
                cur = p2;
                i = i + 1;
            },
        }
    }
    proof {
        assert(parse_plain_cap_items(b@, cur as int, 0) == Some(
            (Seq::<CapabilityView>::empty(), cur as int),
        ));
        assert(plain_caps_view(items@) + Seq::<CapabilityView>::empty() =~= plain_caps_view(
            items@,
        ));
    }
    Some((items, cur))
}

/// The model of a farewell request: target, request, optional blob.
pub open spec fn exit_req_view(r: OnExitRequest) -> (AddressView, RequestView, Option<BlobView>) {
    (r.target@, r.request@, view_opt_blob(r.blob))
}

pub open spec fn exit_reqs_view(s: Seq<OnExitRequest>) -> Seq<
    (AddressView, RequestView, Option<BlobView>),
> {
    s.map_values(|r: OnExitRequest| exit_req_view(r))
}

proof fn lemma_exit_reqs_view_push(s: Seq<OnExitRequest>, r: OnExitRequest)
    ensures
        exit_reqs_view(s.push(r)) == exit_reqs_view(s).push(exit_req_view(r)),
{
    assert forall|j: int| 0 <= j < s.len() + 1 implies exit_reqs_view(s.push(r))[j]
        == exit_reqs_view(s).push(exit_req_view(r))[j] by {
        assert(exit_reqs_view(s.push(r))[j] == exit_req_view(s.push(r)[j]));
        if j < s.len() {
            assert(exit_reqs_view(s)[j] == exit_req_view(s[j]));
        }
    }
    assert(exit_reqs_view(s.push(r)) =~= exit_reqs_view(s).push(exit_req_view(r)));
}

/// A farewell request on the wire.
pub open spec fn enc_exit_req(t: (AddressView, RequestView, Option<BlobView>)) -> Seq<u8> {
    enc_address(t.0) + enc_request(t.1) + enc_opt_blob(t.2)
}

pub open spec fn parse_exit_req(s: Seq<u8>, pos: int) -> Option<
    ((AddressView, RequestView, Option<BlobView>), int),
> {
    match parse_address(s, pos) {
        None => None,
        Some((a, p1)) => match parse_request(s, p1) {
            None => None,
            Some((q, p2)) => match parse_opt_blob(s, p2) {
                None => None,
                Some((bl, p3)) => Some(((a, q, bl), p3)),
            },
        },
    }
}

/// Append the encoding of a farewell request.
pub fn put_exit_req(out: &mut Vec<u8>, r: &OnExitRequest)
    ensures
        final(out)@ == old(out)@ + enc_exit_req(exit_req_view(*r)),
{
    put_address(out, &r.target);
    put_request(out, &r.request);
    put_opt_blob(out, &r.blob);
    proof {
        assert(out@ =~= old(out)@ + enc_exit_req(exit_req_view(*r)));
    }
}

/// Read a farewell request; mirrors `parse_exit_req`.
pub fn take_exit_req(b: &Vec<u8>, pos: usize) -> (r: Option<(OnExitRequest, usize)>)
    ensures
        match r {
            Some((x, p2)) => parse_exit_req(b@, pos as int) == Some(
                (exit_req_view(x), p2 as int),
            ) && p2 <= b@.len(),
            None => parse_exit_req(b@, pos as int) is None,
        },
{
    let (target, p1) = match take_address(b, pos) {
        None => {
            return None;
        },
        Some(x) => x,
    };
    let (request, p2) = match take_request(b, p1) {
        None => {
            return None;
        },
        Some(x) => x,
    };
    let (blob, p3) = match take_opt_blob(b, p2) {
        None => {
            return None;
        },
        Some(x) => x,
    };
    let x = OnExitRequest { target, request, blob };
    proof {
        assert(parse_exit_req(b@, pos as int).unwrap().0 =~= exit_req_view(x));
    }
    Some((x, p3))
}

/// The model of an exit policy.
#[verifier::ext_equal]
pub enum OnExitView {
    Quit,
    Restart,
    Requests(Seq<(AddressView, RequestView, Option<BlobView>)>),
}

pub open spec fn on_exit_view(e: OnExit) -> OnExitView {
    match e {
        OnExit::Quit => OnExitView::Quit,
        OnExit::Restart => OnExitView::Restart,
        OnExit::Requests(v) => OnExitView::Requests(exit_reqs_view(v@)),
    }
}

pub open spec fn enc_exit_req_items(
    items: Seq<(AddressView, RequestView, Option<BlobView>)>,
) -> Seq<u8>
    decreases items.len(),
{
    if items.len() == 0 {
        Seq::empty()
    } else {
        enc_exit_req(items[0]) + enc_exit_req_items(items.drop_first())
    }
}

pub open spec fn parse_exit_req_items(s: Seq<u8>, pos: int, n: nat) -> Option<
    (Seq<(AddressView, RequestView, Option<BlobView>)>, int),
>
    decreases n,
{
    if n == 0 {
        if 0 <= pos <= s.len() {
            Some((Seq::empty(), pos))
        } else {
            None
        }
    } else {
        match parse_exit_req(s, pos) {
            None => None,
            Some((x, p1)) => match parse_exit_req_items(s, p1, (n - 1) as nat) {
                None => None,
                Some((rest, p2)) => Some((seq![x] + rest, p2)),
            },
        }
    }
}

/// An exit policy on the wire: a variant tag, and for farewell
/// requests a count and the requests themselves.
pub open spec fn enc_on_exit(e: OnExitView) -> Seq<u8> {
    match e {
        OnExitView::Quit => seq![0u8],
        OnExitView::Restart => seq![1u8],
        OnExitView::Requests(items) => seq![2u8] + enc_u64(items.len() as u64)
            + enc_exit_req_items(items),
    }
}

pub open spec fn parse_on_exit(s: Seq<u8>, pos: int) -> Option<(OnExitView, int)> {
    if 0 <= pos && pos < s.len() && s[pos] == 0 {
        Some((OnExitView::Quit, pos + 1))
    } else if 0 <= pos && pos < s.len() && s[pos] == 1 {
        Some((OnExitView::Restart, pos + 1))
    } else if 0 <= pos && pos < s.len() && s[pos] == 2 {
        match parse_u64(s, pos + 1) {
            None => None,
            Some((n, p1)) => match parse_exit_req_items(s, p1, n as nat) {
                None => None,
                Some((items, p2)) => Some((OnExitView::Requests(items), p2)),
            },
        }
    } else {
        None
    }
}

proof fn lemma_enc_exit_req_items_snoc(
    pre: Seq<(AddressView, RequestView, Option<BlobView>)>,
    x: (AddressView, RequestView, Option<BlobView>),
)
    ensures
        enc_exit_req_items(pre.push(x)) == enc_exit_req_items(pre) + enc_exit_req(x),
    decreases pre.len(),
{
    if pre.len() == 0 {
        assert(pre.push(x)[0] == x);
        assert(pre.push(x).drop_first() =~= pre);
        assert(enc_exit_req_items(pre.push(x)) =~= enc_exit_req_items(pre) + enc_exit_req(x));
    } else {
        assert(pre.push(x)[0] == pre[0]);
        assert(pre.push(x).drop_first() =~= pre.drop_first().push(x));
        lemma_enc_exit_req_items_snoc(pre.drop_first(), x);
        assert(enc_exit_req_items(pre.push(x)) =~= enc_exit_req_items(pre) + enc_exit_req(x));
    }
}

/// Append the encoding of an exit policy.
pub fn put_on_exit(out: &mut Vec<u8>, e: &OnExit)
    ensures
        final(out)@ == old(out)@ + enc_on_exit(on_exit_view(*e)),
{
    match e {
        OnExit::Quit => {
            out.push(0);
        },
        OnExit::Restart => {
            out.push(1);
        },
        OnExit::Requests(v) => {
            out.push(2);
            put_u64(out, v.len() as u64);
            let ghost base = out@;
            let n: usize = v.len();
            let mut i: usize = 0;
            while i < n
                invariant
                    n == v@.len(),
                    i <= n,
                    out@ =~= base + enc_exit_req_items(exit_reqs_view(v@).subrange(0, i as int)),
                decreases n - i,
            {
                put_exit_req(out, &v[i]);
                proof {
                    assert(exit_reqs_view(v@).subrange(0, i + 1) =~= exit_reqs_view(v@).subrange(
                        0,
                        i as int,
                    ).push(exit_req_view(v@[i as int])));
                    lemma_enc_exit_req_items_snoc(
                        exit_reqs_view(v@).subrange(0, i as int),
                        exit_req_view(v@[i as int]),
                    );
                }
                i += 1;
            }
            proof {
                assert(exit_reqs_view(v@).subrange(0, n as int) =~= exit_reqs_view(v@));
            }
        },
    }
    proof {
        assert(out@ =~= old(out)@ + enc_on_exit(on_exit_view(*e)));
    }
}

/// Read an exit policy; mirrors `parse_on_exit`.
pub fn take_on_exit(b: &Vec<u8>, pos: usize) -> (r: Option<(OnExit, usize)>)
    ensures
        match r {
            Some((e, p2)) => parse_on_exit(b@, pos as int) == Some(
                (on_exit_view(e), p2 as int),
            ) && p2 <= b@.len(),
            None => parse_on_exit(b@, pos as int) is None,
        },
{
    if pos >= b.len() {
        return None;
    }
    let tag = b[pos];
    if tag == 0 {
        Some((OnExit::Quit, pos + 1))
    } else if tag == 1 {
        Some((OnExit::Restart, pos + 1))
    } else if tag == 2 {
        let (n, p1) = match take_u64(b, pos + 1) {
            None => {
                return None;
            },
            Some(x) => x,
        };
        let mut items: Vec<OnExitRequest> = Vec::new();
        let mut cur: usize = p1;
        let mut i: u64 = 0;
        while i < n
            invariant
                i <= n,
                cur <= b@.len(),
                exit_reqs_view(items@).len() == i,
                pos < b@.len(),
                b@[pos as int] == 2,
                parse_u64(b@, pos + 1) == Some((n, p1 as int)),
                parse_exit_req_items(b@, p1 as int, n as nat) == (match parse_exit_req_items(
                    b@,
                    cur as int,
                    (n - i) as nat,
                ) {
                    None => None::<(Seq<(AddressView, RequestView, Option<BlobView>)>, int)>,
                    Some((rest, p)) => Some((exit_reqs_view(items@) + rest, p)),
                }),
            decreases n - i,
        {
            match take_exit_req(b, cur) {
                None => {
                    return None;
                },
                Some((x, p2)) => {
                    proof {
                        let k = (n - i) as nat;
                        let items_old = items@;
                        if parse_exit_req_items(b@, p2 as int, (k - 1) as nat) is Some {
                            let (rest, pp) = parse_exit_req_items(
                                b@,
                                p2 as int,
                                (k - 1) as nat,
                            ).unwrap();
                            lemma_exit_reqs_view_push(items_old, x);
                            assert(exit_reqs_view(items_old) + (seq![exit_req_view(x)] + rest)
                                =~= exit_reqs_view(items_old.push(x)) + rest);
                        }
                    }
                    items.push(x);
                    cur = p2;
                    i = i + 1;
                },
            }
        }
        proof {
            assert(parse_exit_req_items(b@, cur as int, 0) == Some(
                (Seq::<(AddressView, RequestView, Option<BlobView>)>::empty(), cur as int),
            ));
            assert(exit_reqs_view(items@) + Seq::<
                (AddressView, RequestView, Option<BlobView>),
            >::empty() =~= exit_reqs_view(items@));
        }
        Some((OnExit::Requests(items), cur))
    } else {
        None
    }
}

/// The model of a persisted process record.
#[verifier::ext_equal]
pub struct RecordView {
    pub wasm_bytes_handle: Seq<u8>,
    pub on_exit: OnExitView,
    pub capabilities: Seq<CapabilityView>,
    pub public: bool,
    pub wit_version: u32,
}

pub open spec fn record_view(r: ProcessRecord) -> RecordView {
    RecordView {
        wasm_bytes_handle: r.wasm_bytes_handle@,
        on_exit: on_exit_view(r.on_exit),
        capabilities: plain_caps_view(r.capabilities@),
        public: r.public,
        wit_version: r.wit_version,
    }
}

/// A record on the wire: component path, exit policy, capability
/// set, visibility, interface version.
pub open spec fn enc_record(r: RecordView) -> Seq<u8> {
    enc_bytes(r.wasm_bytes_handle) + enc_on_exit(r.on_exit) + enc_plain_caps(r.capabilities)
        + enc_bool(r.public) + enc_u64(r.wit_version as u64)
}

pub open spec fn parse_record(s: Seq<u8>, pos: int) -> Option<(RecordView, int)> {
    match parse_bytes(s, pos) {
        None => None,
        Some((handle, p1)) => match parse_on_exit(s, p1) {
            None => None,
            Some((on_exit, p2)) => match parse_plain_caps(s, p2) {
                None => None,
                Some((caps, p3)) => match parse_bool(s, p3) {
                    None => None,
                    Some((public, p4)) => match parse_u64(s, p4) {
                        None => None,
                        Some((w, p5)) => if w <= u32::MAX {
                            Some(
                                (
                                    RecordView {
                                        wasm_bytes_handle: handle,
                                        on_exit,
                                        capabilities: caps,
                                        public,
                                        wit_version: w as u32,
                                    },
                                    p5,
                                ),
                            )
                        } else {
                            None
                        },
                    },
                },
            },
        },
    }
}

/// Append the encoding of a record.
pub fn put_record(out: &mut Vec<u8>, r: &ProcessRecord)
    ensures
        final(out)@ == old(out)@ + enc_record(record_view(*r)),
{
    put_bytes(out, &r.wasm_bytes_handle);
    put_on_exit(out, &r.on_exit);
    put_plain_caps(out, &r.capabilities);
    put_bool(out, r.public);
    put_u64(out, r.wit_version as u64);
    proof {
        assert(out@ =~= old(out)@ + enc_record(record_view(*r)));
    }
}

/// Read a record; mirrors `parse_record`.
pub fn take_record(b: &Vec<u8>, pos: usize) -> (r: Option<(ProcessRecord, usize)>)
    ensures
        match r {
            Some((x, p2)) => parse_record(b@, pos as int) == Some((record_view(x), p2 as int))
                && p2 <= b@.len(),
            None => parse_record(b@, pos as int) is None,
        },
{
    let (wasm_bytes_handle, p1) = match take_bytes(b, pos) {
        None => {
            return None;
        },
        Some(x) => x,
    };
    let (on_exit, p2) = match take_on_exit(b, p1) {
        None => {
            return None;
        },
        Some(x) => x,
    };
    let (capabilities, p3) = match take_plain_caps(b, p2) {
        None => {
            return None;
        },
        Some(x) => x,
    };
    let (public, p4) = match take_bool(b, p3) {
        None => {
            return None;
        },
        Some(x) => x,
    };
    let (w, p5) = match take_u64(b, p4) {
        None => {
            return None;
        },
        Some(x) => x,
    };
    if w > 0xffff_ffffu64 {
        return None;
    }
    let x = ProcessRecord {
        wasm_bytes_handle,
        on_exit,
        capabilities,
        public,
        wit_version: w as u32,
    };
    proof {
        assert(parse_record(b@, pos as int).unwrap().0 =~= record_view(x));
    }
    Some((x, p5))
}

/// The model of the persisted map: each process and its record, in
/// stored order.
pub open spec fn map_view(s: Seq<MapEntry>) -> Seq<(ProcessIdView, RecordView)> {
    s.map_values(|e: MapEntry| (e.pid@, record_view(e.record)))
}

proof fn lemma_map_view_push(s: Seq<MapEntry>, e: MapEntry)
    ensures
        map_view(s.push(e)) == map_view(s).push((e.pid@, record_view(e.record))),
{
    assert forall|j: int| 0 <= j < s.len() + 1 implies map_view(s.push(e))[j] == map_view(s).push(
        (e.pid@, record_view(e.record)),
    )[j] by {
        assert(map_view(s.push(e))[j] == (s.push(e)[j].pid@, record_view(s.push(e)[j].record)));
        if j < s.len() {
            assert(map_view(s)[j] == (s[j].pid@, record_view(s[j].record)));
        }
    }
    assert(map_view(s.push(e)) =~= map_view(s).push((e.pid@, record_view(e.record))));
}

pub open spec fn enc_map_items(items: Seq<(ProcessIdView, RecordView)>) -> Seq<u8>
    decreases items.len(),
{
    if items.len() == 0 {
        Seq::empty()
    } else {
        enc_pid(items[0].0) + enc_record(items[0].1) + enc_map_items(items.drop_first())
    }
}

/// The process map on the wire: a count, then each process and its
/// record.
pub open spec fn enc_process_map(items: Seq<(ProcessIdView, RecordView)>) -> Seq<u8> {
    enc_u64(items.len() as u64) + enc_map_items(items)
}

pub open spec fn parse_map_items(s: Seq<u8>, pos: int, n: nat) -> Option<
    (Seq<(ProcessIdView, RecordView)>, int),
>
    decreases n,
{
    if n == 0 {
        if 0 <= pos <= s.len() {
            Some((Seq::empty(), pos))
        } else {
            None
        }
    } else {
        match parse_pid(s, pos) {
            None => None,
            Some((p, p1)) => match parse_record(s, p1) {
                None => None,
                Some((rec, p2)) => match parse_map_items(s, p2, (n - 1) as nat) {
                    None => None,
                    Some((rest, p3)) => Some((seq![(p, rec)] + rest, p3)),
                },
            },
        }
    }
}

pub open spec fn parse_process_map(s: Seq<u8>, pos: int) -> Option<
    (Seq<(ProcessIdView, RecordView)>, int),
> {
    match parse_u64(s, pos) {
        None => None,
        Some((n, p1)) => parse_map_items(s, p1, n as nat),
    }
}

proof fn lemma_enc_map_items_snoc(
    pre: Seq<(ProcessIdView, RecordView)>,
    x: (ProcessIdView, RecordView),
)
    ensures
        enc_map_items(pre.push(x)) == enc_map_items(pre) + (enc_pid(x.0) + enc_record(x.1)),
    decreases pre.len(),
{
    if pre.len() == 0 {
        assert(pre.push(x)[0] == x);
        assert(pre.push(x).drop_first() =~= pre);
        assert(enc_map_items(pre.push(x)) =~= enc_map_items(pre) + (enc_pid(x.0) + enc_record(
            x.1,
        )));
    } else {
        assert(pre.push(x)[0] == pre[0]);
        assert(pre.push(x).drop_first() =~= pre.drop_first().push(x));
        lemma_enc_map_items_snoc(pre.drop_first(), x);
        assert(enc_map_items(pre.push(x)) =~= enc_map_items(pre) + (enc_pid(x.0) + enc_record(
            x.1,
        )));
    }
}

/// Serialize the process map into its persisted bytes.
pub fn encode_process_map(m: &ProcessMap) -> (r: Vec<u8>)
    ensures
        r@ == enc_process_map(map_view(m.entries@)),
{
    let mut out: Vec<u8> = Vec::new();
    put_u64(&mut out, m.entries.len() as u64);
    let ghost base = out@;
    let n: usize = m.entries.len();
    let mut i: usize = 0;
    while i < n
        invariant
            n == m.entries@.len(),
            i <= n,
            out@ =~= base + enc_map_items(map_view(m.entries@).subrange(0, i as int)),
        decreases n - i,
    {
        put_pid(&mut out, &m.entries[i].pid);
        put_record(&mut out, &m.entries[i].record);
        proof {
            assert(map_view(m.entries@).subrange(0, i + 1) =~= map_view(m.entries@).subrange(
                0,
                i as int,
            ).push((m.entries@[i as int].pid@, record_view(m.entries@[i as int].record))));
            lemma_enc_map_items_snoc(
                map_view(m.entries@).subrange(0, i as int),
                (m.entries@[i as int].pid@, record_view(m.entries@[i as int].record)),
            );
        }
        i += 1;
    }
    proof {
        assert(map_view(m.entries@).subrange(0, n as int) =~= map_view(m.entries@));
        assert(out@ =~= enc_process_map(map_view(m.entries@)));
    }
    out
}

/// Deserialize the process map from its persisted bytes. Succeeds
/// exactly when the bytes parse as one map with nothing left over.
pub fn decode_process_map(b: &Vec<u8>) -> (r: Option<ProcessMap>)
    ensures
        match r {
            Some(m) => parse_process_map(b@, 0) == Some((map_view(m.entries@), b@.len() as int)),
            None => forall|items: Seq<(ProcessIdView, RecordView)>|
                parse_process_map(b@, 0) != Some((items, b@.len() as int)),
        },
{
    let (n, p1) = match take_u64(b, 0) {
        None => {
            return None;
        },
        Some(x) => x,
    };
    let mut entries: Vec<MapEntry> = Vec::new();
    let mut cur: usize = p1;
    let mut i: u64 = 0;
    while i < n
        invariant
            i <= n,
            cur <= b@.len(),
            map_view(entries@).len() == i,
            parse_u64(b@, 0) == Some((n, p1 as int)),
            parse_map_items(b@, p1 as int, n as nat) == (match parse_map_items(
                b@,
                cur as int,
                (n - i) as nat,
            ) {
                None => None::<(Seq<(ProcessIdView, RecordView)>, int)>,
                Some((rest, p)) => Some((map_view(entries@) + rest, p)),
            }),
        decreases n - i,
    {
        let (pid, pcur) = match take_pid(b, cur) {
            None => {
                return None;
            },
            Some(x) => x,
        };
        let (record, p2) = match take_record(b, pcur) {
            None => {
                return None;
            },
            Some(x) => x,
        };
        proof {
            let k = (n - i) as nat;
            let entries_old = entries@;
            if parse_map_items(b@, p2 as int, (k - 1) as nat) is Some {
                let (rest, pp) = parse_map_items(b@, p2 as int, (k - 1) as nat).unwrap();
                lemma_map_view_push(entries_old, MapEntry { pid: pid, record: record });
                assert(map_view(entries_old) + (seq![(pid@, record_view(record))] + rest)
                    =~= map_view(entries_old.push(MapEntry { pid: pid, record: record })) + rest);
            }
        }
        entries.push(MapEntry { pid, record });
        cur = p2;
        i = i + 1;
    }
    proof {
        assert(parse_map_items(b@, cur as int, 0) == Some(
            (Seq::<(ProcessIdView, RecordView)>::empty(), cur as int),
        ));
        assert(map_view(entries@) + Seq::<(ProcessIdView, RecordView)>::empty() =~= map_view(
            entries@,
        ));
    }
    if cur != b.len() {
        return None;
    }
    Some(ProcessMap { entries })
}

} // verus!
