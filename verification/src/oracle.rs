//! The capability oracle: the authoritative ledger of which process
//! holds which capability, with the node's signing keypair. Every
//! cap-gated decision in the kernel consults it.

use vstd::prelude::*;
use crate::ids::{ProcessId, ProcessIdView};
use crate::message::{caps_view, Capability, CapabilityView, SignedCapability, SignedCapView};
use crate::codec::cap_signing_bytes;
use crate::crypto::{ed25519_public_key, ed25519_sign};

verus! {

/// One ledger line: a subject process and a capability it holds, with
/// the signature kept on file for handing out in transit.
pub struct LedgerItem {
    pub subject: ProcessId,
    pub signed: SignedCapability,
}

pub open spec fn entry_is(it: LedgerItem, on: ProcessIdView, c: CapabilityView) -> bool {
    it.subject@ == on && it.signed@.cap == c
}

pub open spec fn entry_is_signed(
    it: LedgerItem,
    on: ProcessIdView,
    c: CapabilityView,
    s: Seq<u8>,
) -> bool {
    it.subject@ == on && it.signed@.cap == c && it.signed@.sig == s
}

/// The subject holds the capability somewhere in the ledger.
pub open spec fn ledger_holds(items: Seq<LedgerItem>, on: ProcessIdView, c: CapabilityView) -> bool {
    exists|i: int| 0 <= i < items.len() && entry_is(#[trigger] items[i], on, c)
}

/// The subject holds the capability with this very signature on file.
pub open spec fn ledger_holds_signed(
    items: Seq<LedgerItem>,
    on: ProcessIdView,
    c: CapabilityView,
    s: Seq<u8>,
) -> bool {
    exists|i: int| 0 <= i < items.len() && entry_is_signed(#[trigger] items[i], on, c, s)
}

pub proof fn lemma_holds_push(
    items: Seq<LedgerItem>,
    it: LedgerItem,
    on: ProcessIdView,
    c: CapabilityView,
)
    ensures
        ledger_holds(items.push(it), on, c) <==> (ledger_holds(items, on, c) || entry_is(
            it,
            on,
            c,
        )),
{
    if ledger_holds(items.push(it), on, c) {
        let i = choose|i: int| 0 <= i < items.push(it).len() && entry_is(
            #[trigger] items.push(it)[i],
            on,
            c,
        );
        if i < items.len() {
            assert(entry_is(items[i], on, c));
        } else {
            assert(items.push(it)[i] == it);
        }
    }
    if ledger_holds(items, on, c) {
        let i = choose|i: int| 0 <= i < items.len() && entry_is(#[trigger] items[i], on, c);
        assert(entry_is(items.push(it)[i], on, c));
    }
    if entry_is(it, on, c) {
        assert(entry_is(items.push(it)[items.len() as int], on, c));
    }
}

pub proof fn lemma_holds_signed_push(
    items: Seq<LedgerItem>,
    it: LedgerItem,
    on: ProcessIdView,
    c: CapabilityView,
    s: Seq<u8>,
)
    ensures
        ledger_holds_signed(items.push(it), on, c, s) <==> (ledger_holds_signed(items, on, c, s)
            || entry_is_signed(it, on, c, s)),
{
    if ledger_holds_signed(items.push(it), on, c, s) {
        let i = choose|i: int| 0 <= i < items.push(it).len() && entry_is_signed(
            #[trigger] items.push(it)[i],
            on,
            c,
            s,
        );
        if i < items.len() {
            assert(entry_is_signed(items[i], on, c, s));
        } else {
            assert(items.push(it)[i] == it);
        }
    }
    if ledger_holds_signed(items, on, c, s) {
        let i = choose|i: int| 0 <= i < items.len() && entry_is_signed(
            #[trigger] items[i],
            on,
            c,
            s,
        );
        assert(entry_is_signed(items.push(it)[i], on, c, s));
    }
    if entry_is_signed(it, on, c, s) {
        assert(entry_is_signed(items.push(it)[items.len() as int], on, c, s));
    }
}

/// The signature on file for the first ledger line matching the
/// subject and capability, if any.
pub open spec fn first_sig(items: Seq<LedgerItem>, on: ProcessIdView, c: CapabilityView) -> Option<
    Seq<u8>,
>
    decreases items.len(),
{
    if items.len() == 0 {
        None
    } else if entry_is(items[0], on, c) {
        Some(items[0].signed@.sig)
    } else {
        first_sig(items.drop_first(), on, c)
    }
}

/// All capabilities of one subject, in ledger order, with their
/// signatures on file.
pub open spec fn all_of(items: Seq<LedgerItem>, on: ProcessIdView) -> Seq<SignedCapView>
    decreases items.len(),
{
    if items.len() == 0 {
        Seq::empty()
    } else {
        (if items[0].subject@ == on {
            seq![items[0].signed@]
        } else {
            Seq::empty()
        }) + all_of(items.drop_first(), on)
    }
}

/// Of the capabilities offered, those the subject holds, in offer
/// order, each with the signature on file.
pub open spec fn filter_caps_spec(
    items: Seq<LedgerItem>,
    on: ProcessIdView,
    offered: Seq<CapabilityView>,
) -> Seq<SignedCapView>
    decreases offered.len(),
{
    if offered.len() == 0 {
        Seq::empty()
    } else {
        (match first_sig(items, on, offered[0]) {
            Some(s) => seq![SignedCapView { cap: offered[0], sig: s }],
            None => Seq::empty(),
        }) + filter_caps_spec(items, on, offered.drop_first())
    }
}

/// The models of a vector of bare capabilities.
pub open spec fn plain_caps_view(s: Seq<Capability>) -> Seq<CapabilityView> {
    s.map_values(|c: Capability| c@)
}

/// The authoritative ledger plus the node's signing identity.
pub struct CapOracle {
    pub our_node: Vec<u8>,
    pub keypair: ring::signature::Ed25519KeyPair,
    pub public_key: Vec<u8>,
    pub items: Vec<LedgerItem>,
}

impl CapOracle {
    pub open spec fn holds(&self, on: ProcessIdView, c: CapabilityView) -> bool {
        ledger_holds(self.items@, on, c)
    }

    pub open spec fn holds_signed(&self, on: ProcessIdView, c: CapabilityView, s: Seq<u8>) -> bool {
        ledger_holds_signed(self.items@, on, c, s)
    }

    /// A fresh oracle for this node: an empty ledger, and the
    /// verifying key taken from the keypair.
    pub fn new(our_node: Vec<u8>, keypair: ring::signature::Ed25519KeyPair) -> (r: CapOracle)
        ensures
            r.items@.len() == 0,
            forall|on: ProcessIdView, c: CapabilityView| !r.holds(on, c),
            r.our_node@ == our_node@,
            r.public_key@.len() == 32,
    {
        let public_key = ed25519_public_key(&keypair);
        CapOracle { our_node, keypair, public_key, items: Vec::new() }
    }

    /// Exact-match lookup: does the subject hold this capability?
    pub fn has(&self, on: &ProcessId, cap: &Capability) -> (r: bool)
        ensures
            r == self.holds(on@, cap@),
    {
        let n: usize = self.items.len();
        let mut i: usize = 0;
        while i < n
            invariant
                n == self.items@.len(),
                i <= n,
                forall|j: int| 0 <= j < i ==> !entry_is(#[trigger] self.items@[j], on@, cap@),
            decreases n - i,
        {
            let it = &self.items[i];
            if it.subject.eq_pid(on) && it.signed.cap.eq_cap(cap) {
                assert(entry_is(self.items@[i as int], on@, cap@));
                return true;
            }
            i += 1;
        }
        false
    }

    /// Insert a capability with the given transit signature;
    /// idempotent on the capability: a second insert changes nothing.
    pub fn add_signed(&mut self, on: &ProcessId, sc: SignedCapability)
        ensures
            final(self).our_node@ == old(self).our_node@,
            final(self).public_key@ == old(self).public_key@,
            forall|o: ProcessIdView, c: CapabilityView|
                final(self).holds(o, c) <==> (old(self).holds(o, c) || (o == on@ && c == sc.cap@)),
            forall|o: ProcessIdView, c: CapabilityView, s: Seq<u8>|
                old(self).holds_signed(o, c, s) ==> final(self).holds_signed(o, c, s),
            forall|o: ProcessIdView, c: CapabilityView, s: Seq<u8>|
                final(self).holds_signed(o, c, s) ==> (old(self).holds_signed(o, c, s) || (o == on@
                    && c == sc.cap@ && s == sc.sig@)),
    {
        let already = self.has(on, &sc.cap);
        if !already {
            let ghost items0 = self.items@;
            let it = LedgerItem { subject: on.clone_pid(), signed: sc };
            let ghost itg = it;
            self.items.push(it);
            proof {
                assert forall|o: ProcessIdView, c: CapabilityView|
                    final(self).holds(o, c) <==> (old(self).holds(o, c) || (o == on@ && c
                        == sc.cap@)) by {
                    lemma_holds_push(items0, itg, o, c);
                }
                assert forall|o: ProcessIdView, c: CapabilityView, s: Seq<u8>|
                    #![auto]
                    (old(self).holds_signed(o, c, s) ==> final(self).holds_signed(o, c, s)) && (
                    final(self).holds_signed(o, c, s) ==> (old(self).holds_signed(o, c, s) || (o
                        == on@ && c == sc.cap@ && s == sc.sig@))) by {
                    lemma_holds_signed_push(items0, itg, o, c, s);
                }
            }
        }
    }

    /// Grant a capability issued on this node: sign its canonical
    /// form with the node key and insert it.
    pub fn add_local(&mut self, on: &ProcessId, cap: &Capability)
        ensures
            final(self).our_node@ == old(self).our_node@,
            final(self).public_key@ == old(self).public_key@,
            forall|o: ProcessIdView, c: CapabilityView|
                final(self).holds(o, c) <==> (old(self).holds(o, c) || (o == on@ && c == cap@)),
            forall|o: ProcessIdView, c: CapabilityView, s: Seq<u8>|
                old(self).holds_signed(o, c, s) ==> final(self).holds_signed(o, c, s),
            forall|o: ProcessIdView, c: CapabilityView, s: Seq<u8>|
                final(self).holds_signed(o, c, s) ==> (old(self).holds_signed(o, c, s) || (o == on@
                    && c == cap@)),
    {
        let msg = cap_signing_bytes(cap);
        let sig = ed25519_sign(&self.keypair, &msg);
        self.add_signed(on, SignedCapability { cap: cap.clone_cap(), sig });
    }

    /// Remove a capability from a subject; idempotent. Every signature
    /// on file for that (subject, capability) pair goes with it.
    pub fn drop_cap(&mut self, on: &ProcessId, cap: &Capability)
        ensures
            final(self).our_node@ == old(self).our_node@,
            final(self).public_key@ == old(self).public_key@,
            forall|o: ProcessIdView, c: CapabilityView|
                final(self).holds(o, c) <==> (old(self).holds(o, c) && !(o == on@ && c == cap@)),
            forall|o: ProcessIdView, c: CapabilityView, s: Seq<u8>|
                #![auto]
                final(self).holds_signed(o, c, s) <==> (old(self).holds_signed(o, c, s) && !(o
                    == on@ && c == cap@)),
    {
        let mut kept: Vec<LedgerItem> = Vec::new();
        let n: usize = self.items.len();
        let mut i: usize = 0;
        while i < n
            invariant
                n == self.items@.len(),
                i <= n,
                forall|o: ProcessIdView, c: CapabilityView|
                    ledger_holds(kept@, o, c) <==> (ledger_holds(
                        self.items@.subrange(0, i as int),
                        o,
                        c,
                    ) && !(o == on@ && c == cap@)),
                forall|o: ProcessIdView, c: CapabilityView, s: Seq<u8>|
                    #![auto]
                    ledger_holds_signed(kept@, o, c, s) <==> (ledger_holds_signed(
                        self.items@.subrange(0, i as int),
                        o,
                        c,
                        s,
                    ) && !(o == on@ && c == cap@)),
            decreases n - i,
        {
            let it = &self.items[i];
            let ghost pre = self.items@.subrange(0, i as int);
            let ghost itg = self.items@[i as int];
            let ghost kept0 = kept@;
            let matches_drop = it.subject.eq_pid(on) && it.signed.cap.eq_cap(cap);
            if !matches_drop {
                kept.push(LedgerItem {
                    subject: it.subject.clone_pid(),
                    signed: it.signed.clone_signed(),
                });
            }
            proof {
                assert(self.items@.subrange(0, i + 1) =~= pre.push(itg));
                let kit = if !matches_drop {
                    kept@[kept@.len() - 1]
                } else {
                    itg
                };
                assert forall|o: ProcessIdView, c: CapabilityView|
                    ledger_holds(kept@, o, c) <==> (ledger_holds(
                        self.items@.subrange(0, i + 1),
                        o,
                        c,
                    ) && !(o == on@ && c == cap@)) by {
                    lemma_holds_push(pre, itg, o, c);
                    if !matches_drop {
                        assert(kept@ =~= kept0.push(kit));
                        lemma_holds_push(kept0, kit, o, c);
                    }
                }
                assert forall|o: ProcessIdView, c: CapabilityView, s: Seq<u8>|
                    #![auto]
                    ledger_holds_signed(kept@, o, c, s) <==> (ledger_holds_signed(
                        self.items@.subrange(0, i + 1),
                        o,
                        c,
                        s,
                    ) && !(o == on@ && c == cap@)) by {
                    lemma_holds_signed_push(pre, itg, o, c, s);
                    if !matches_drop {
                        assert(kept@ =~= kept0.push(kit));
                        lemma_holds_signed_push(kept0, kit, o, c, s);
                    }
                }
            }
            i += 1;
        }
        proof {
            assert(self.items@.subrange(0, n as int) =~= self.items@);
        }
        self.items = kept;
    }

    /// Remove every capability whose subject or whose issuing process
    /// is the given process: enacted when a process is killed.
    pub fn revoke_all(&mut self, p: &ProcessId)
        ensures
            final(self).our_node@ == old(self).our_node@,
            final(self).public_key@ == old(self).public_key@,
            forall|o: ProcessIdView, c: CapabilityView|
                final(self).holds(o, c) <==> (old(self).holds(o, c) && !(o == p@ || c.issuer.process
                    == p@)),
            forall|o: ProcessIdView, c: CapabilityView, s: Seq<u8>|
                #![auto]
                final(self).holds_signed(o, c, s) <==> (old(self).holds_signed(o, c, s) && !(o
                    == p@ || c.issuer.process == p@)),
    {
        let mut kept: Vec<LedgerItem> = Vec::new();
        let n: usize = self.items.len();
        let mut i: usize = 0;
        while i < n
            invariant
                n == self.items@.len(),
                i <= n,
                forall|o: ProcessIdView, c: CapabilityView|
                    ledger_holds(kept@, o, c) <==> (ledger_holds(
                        self.items@.subrange(0, i as int),
                        o,
                        c,
                    ) && !(o == p@ || c.issuer.process == p@)),
                forall|o: ProcessIdView, c: CapabilityView, s: Seq<u8>|
                    #![auto]
                    ledger_holds_signed(kept@, o, c, s) <==> (ledger_holds_signed(
                        self.items@.subrange(0, i as int),
                        o,
                        c,
                        s,
                    ) && !(o == p@ || c.issuer.process == p@)),
            decreases n - i,
        {
            let it = &self.items[i];
            let ghost pre = self.items@.subrange(0, i as int);
            let ghost itg = self.items@[i as int];
            let ghost kept0 = kept@;
            let matches_drop = it.subject.eq_pid(p) || it.signed.cap.issuer.process.eq_pid(p);
            if !matches_drop {
                kept.push(LedgerItem {
                    subject: it.subject.clone_pid(),
                    signed: it.signed.clone_signed(),
                });
            }
            proof {
                assert(self.items@.subrange(0, i + 1) =~= pre.push(itg));
                let kit = if !matches_drop {
                    kept@[kept@.len() - 1]
                } else {
                    itg
                };
                assert forall|o: ProcessIdView, c: CapabilityView|
                    ledger_holds(kept@, o, c) <==> (ledger_holds(
                        self.items@.subrange(0, i + 1),
                        o,
                        c,
                    ) && !(o == p@ || c.issuer.process == p@)) by {
                    lemma_holds_push(pre, itg, o, c);
                    if !matches_drop {
                        assert(kept@ =~= kept0.push(kit));
                        lemma_holds_push(kept0, kit, o, c);
                    }
                }
                assert forall|o: ProcessIdView, c: CapabilityView, s: Seq<u8>|
                    #![auto]
                    ledger_holds_signed(kept@, o, c, s) <==> (ledger_holds_signed(
                        self.items@.subrange(0, i + 1),
                        o,
                        c,
                        s,
                    ) && !(o == p@ || c.issuer.process == p@)) by {
                    lemma_holds_signed_push(pre, itg, o, c, s);
                    if !matches_drop {
                        assert(kept@ =~= kept0.push(kit));
                        lemma_holds_signed_push(kept0, kit, o, c, s);
                    }
                }
            }
            i += 1;
        }
        proof {
            assert(self.items@.subrange(0, n as int) =~= self.items@);
        }
        self.items = kept;
    }

    /// All capabilities of a subject, in ledger order, with their
    /// signatures on file.
    pub fn get_all(&self, on: &ProcessId) -> (r: Vec<SignedCapability>)
        ensures
            caps_view(r@) == all_of(self.items@, on@),
    {
        let mut out: Vec<SignedCapability> = Vec::new();
        let n: usize = self.items.len();
        let mut i: usize = 0;
        proof {
            assert(self.items@.skip(0) =~= self.items@);
            assert(caps_view(out@) =~= Seq::<SignedCapView>::empty());
            assert(caps_view(out@) + all_of(self.items@, on@) =~= all_of(self.items@, on@));
        }
        while i < n
            invariant
                n == self.items@.len(),
                i <= n,
                all_of(self.items@, on@) == caps_view(out@) + all_of(
                    self.items@.skip(i as int),
                    on@,
                ),
            decreases n - i,
        {
            let it = &self.items[i];
            let ghost out0 = out@;
            let ghost tail = self.items@.skip(i as int);
            let hit = it.subject.eq_pid(on);
            if hit {
                out.push(it.signed.clone_signed());
            }
            proof {
                assert(tail[0] == self.items@[i as int]);
                assert(tail.drop_first() =~= self.items@.skip(i + 1));
                if hit {
                    crate::message::lemma_caps_view_push(out0, out@[out@.len() - 1]);
                    assert(caps_view(out0) + (seq![self.items@[i as int].signed@] + all_of(
                        self.items@.skip(i + 1),
                        on@,
                    )) =~= caps_view(out@) + all_of(self.items@.skip(i + 1), on@));
                } else {
                    assert(caps_view(out0) + (Seq::<SignedCapView>::empty() + all_of(
                        self.items@.skip(i + 1),
                        on@,
                    )) =~= caps_view(out@) + all_of(self.items@.skip(i + 1), on@));
                }
            }
            i += 1;
        }
        proof {
            assert(self.items@.skip(n as int) =~= Seq::<LedgerItem>::empty());
            assert(caps_view(out@) + Seq::<SignedCapView>::empty() =~= caps_view(out@));
        }
        out
    }

    /// The signature on file for the first ledger line matching this
    /// subject and capability.
    fn find_sig(&self, on: &ProcessId, cap: &Capability) -> (r: Option<Vec<u8>>)
        ensures
            match r {
                Some(s) => first_sig(self.items@, on@, cap@) == Some(s@),
                None => first_sig(self.items@, on@, cap@) is None,
            },
    {
        let n: usize = self.items.len();
        let mut i: usize = 0;
        proof {
            assert(self.items@.skip(0) =~= self.items@);
        }
        while i < n
            invariant
                n == self.items@.len(),
                i <= n,
                first_sig(self.items@, on@, cap@) == first_sig(
                    self.items@.skip(i as int),
                    on@,
                    cap@,
                ),
            decreases n - i,
        {
            let it = &self.items[i];
            proof {
                assert(self.items@.skip(i as int)[0] == self.items@[i as int]);
                assert(self.items@.skip(i as int).drop_first() =~= self.items@.skip(i + 1));
            }
            if it.subject.eq_pid(on) && it.signed.cap.eq_cap(cap) {
                return Some(crate::ids::clone_bytes(&it.signed.sig));
            }
            i += 1;
        }
        proof {
            assert(self.items@.skip(n as int) =~= Seq::<LedgerItem>::empty());
        }
        None
    }

    /// Of the capabilities offered, keep exactly those the subject
    /// holds, in offer order, pairing each with the signature on
    /// file; the rest are dropped.
    pub fn filter_caps(&self, on: &ProcessId, offered: &Vec<Capability>) -> (r: Vec<
        SignedCapability,
    >)
        ensures
            caps_view(r@) == filter_caps_spec(self.items@, on@, plain_caps_view(offered@)),
    {
        let mut out: Vec<SignedCapability> = Vec::new();
        let n: usize = offered.len();
        let mut i: usize = 0;
        proof {
            assert(plain_caps_view(offered@).skip(0) =~= plain_caps_view(offered@));
            assert(caps_view(out@) =~= Seq::<SignedCapView>::empty());
            assert(caps_view(out@) + filter_caps_spec(
                self.items@,
                on@,
                plain_caps_view(offered@),
            ) =~= filter_caps_spec(self.items@, on@, plain_caps_view(offered@)));
        }
        while i < n
            invariant
                n == offered@.len(),
                i <= n,
                filter_caps_spec(self.items@, on@, plain_caps_view(offered@)) == caps_view(out@)
                    + filter_caps_spec(
                    self.items@,
                    on@,
                    plain_caps_view(offered@).skip(i as int),
                ),
            decreases n - i,
        {
            let cap = &offered[i];
            let ghost out0 = out@;
            let ghost tail = plain_caps_view(offered@).skip(i as int);
            proof {
                assert(tail[0] == offered@[i as int]@);
                assert(tail.drop_first() =~= plain_caps_view(offered@).skip(i + 1));
            }
            match self.find_sig(on, cap) {
                Some(sig) => {
                    out.push(SignedCapability { cap: cap.clone_cap(), sig });
                    proof {
                        crate::message::lemma_caps_view_push(out0, out@[out@.len() - 1]);
                        assert(caps_view(out0) + (seq![
                            SignedCapView {
                                cap: offered@[i as int]@,
                                sig: first_sig(
                                    self.items@,
                                    on@,
                                    offered@[i as int]@,
                                ).unwrap(),
                            },
                        ] + filter_caps_spec(
                            self.items@,
                            on@,
                            plain_caps_view(offered@).skip(i + 1),
                        )) =~= caps_view(out@) + filter_caps_spec(
                            self.items@,
                            on@,
                            plain_caps_view(offered@).skip(i + 1),
                        ));
                    }
                },
                None => {
                    proof {
                        assert(caps_view(out0) + (Seq::<SignedCapView>::empty() + filter_caps_spec(
                            self.items@,
                            on@,
                            plain_caps_view(offered@).skip(i + 1),
                        )) =~= caps_view(out@) + filter_caps_spec(
                            self.items@,
                            on@,
                            plain_caps_view(offered@).skip(i + 1),
                        ));
                    }
                },
            }
            i += 1;
        }
        proof {
            assert(plain_caps_view(offered@).skip(n as int) =~= Seq::<CapabilityView>::empty());
            assert(caps_view(out@) + Seq::<SignedCapView>::empty() =~= caps_view(out@));
        }
        out
    }
}

/// Everything filter_caps keeps was held by the subject: an envelope
/// that leaves an instance carries no capability its sender did not
/// hold at that moment.
pub proof fn lemma_filter_caps_only_held(
    items: Seq<LedgerItem>,
    on: ProcessIdView,
    offered: Seq<CapabilityView>,
)
    ensures
        forall|j: int|
            0 <= j < filter_caps_spec(items, on, offered).len() ==> ledger_holds(
                items,
                on,
                #[trigger] filter_caps_spec(items, on, offered)[j].cap,
            ),
    decreases offered.len(),
{
    if offered.len() > 0 {
        lemma_filter_caps_only_held(items, on, offered.drop_first());
        lemma_first_sig_holds(items, on, offered[0]);
        let f = filter_caps_spec(items, on, offered);
        let rest = filter_caps_spec(items, on, offered.drop_first());
        match first_sig(items, on, offered[0]) {
            Some(s) => {
                assert forall|j: int| 0 <= j < f.len() implies ledger_holds(
                    items,
                    on,
                    #[trigger] f[j].cap,
                ) by {
                    if j == 0 {
                        assert(f[0].cap == offered[0]);
                    } else {
                        assert(f[j] == rest[j - 1]);
                        assert(ledger_holds(items, on, rest[j - 1].cap));
                    }
                }
            },
            None => {
                assert forall|j: int| 0 <= j < f.len() implies ledger_holds(
                    items,
                    on,
                    #[trigger] f[j].cap,
                ) by {
                    assert(f[j] == rest[j]);
                    assert(ledger_holds(items, on, rest[j].cap));
                }
            },
        }
    }
}

/// A signature is on file for a capability exactly when the subject
/// holds it.
pub proof fn lemma_first_sig_holds(items: Seq<LedgerItem>, on: ProcessIdView, c: CapabilityView)
    ensures
        first_sig(items, on, c) is Some <==> ledger_holds(items, on, c),
    decreases items.len(),
{
    if items.len() > 0 {
        lemma_first_sig_holds(items.drop_first(), on, c);
        if entry_is(items[0], on, c) {
        } else {
            assert forall|i: int| 0 <= i < items.len() && entry_is(#[trigger] items[i], on, c)
                implies ledger_holds(items.drop_first(), on, c) by {
                assert(items.drop_first()[i - 1] == items[i]);
                assert(entry_is(items.drop_first()[i - 1], on, c));
            }
            assert forall|i: int|
                0 <= i < items.drop_first().len() && entry_is(
                    #[trigger] items.drop_first()[i],
                    on,
                    c,
                ) implies ledger_holds(items, on, c) by {
                assert(items[i + 1] == items.drop_first()[i]);
                assert(entry_is(items[i + 1], on, c));
            }
        }
    }
}

} // verus!
