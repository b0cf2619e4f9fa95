//! The terminal's command grammar and script-launching rules: a line
//! is `<alias-or-process-id> <args>`, optionally piped as
//! `...|<seconds> <target>`; a launched script is granted and
//! requests capabilities according to its scripts entry.

use vstd::prelude::*;
use crate::caps::{make_messaging_params, make_network_params, messaging_params, network_params};
use crate::ids::{clone_bytes, copy_range, Address, AddressView, ProcessId, ProcessIdView};
use crate::message::{Capability, CapabilityView};

verus! {

/// A decimal digit byte.
pub open spec fn is_digit(b: u8) -> bool {
    48 <= b <= 57
}

/// The number a digit string denotes.
pub open spec fn dec_value(s: Seq<u8>) -> nat
    decreases s.len(),
{
    if s.len() == 0 {
        0
    } else {
        dec_value(s.drop_last()) * 10 + (if is_digit(s.last()) {
            (s.last() - 48) as nat
        } else {
            0
        })
    }
}

/// A parsed command line: the command head, its arguments, and the
/// pipe tail when the line asks for one.
pub struct ParsedCommand {
    pub head: Vec<u8>,
    pub args: Vec<u8>,
    pub pipe: Option<(Vec<u8>, u64)>,
}

/// First position of a pipe bar immediately followed by a digit.
fn find_pipe(v: &Vec<u8>, from: usize) -> (r: Option<usize>)
    requires
        from <= v@.len(),
    ensures
        match r {
            Some(i) => from <= i && i + 1 < v@.len() && v@[i as int] == 124 && is_digit(
                v@[i + 1],
            ) && (forall|j: int|
                from <= j < i ==> !((#[trigger] v@[j]) == 124 && j + 1 < v@.len() && is_digit(
                    v@[j + 1],
                ))),
            None => forall|j: int|
                from <= j < v@.len() ==> !((#[trigger] v@[j]) == 124 && j + 1 < v@.len()
                    && is_digit(v@[j + 1])),
        },
{
    let n: usize = v.len();
    let mut i: usize = from;
    while i < n
        invariant
            from <= i <= n,
            n == v@.len(),
            forall|j: int|
                from <= j < i ==> !((#[trigger] v@[j]) == 124 && j + 1 < v@.len() && is_digit(
                    v@[j + 1],
                )),
        decreases n - i,
    {
        if v[i] == 124 && i + 1 < n {
            let d = v[i + 1];
            if 48 <= d && d <= 57 {
                return Some(i);
            }
        }
        i += 1;
    }
    None
}

/// Parse a run of digits left to right; a value too large for the
/// timeout comes back as zero.
fn parse_decimal(v: &Vec<u8>, from: usize, to: usize) -> (r: u64)
    requires
        from <= to <= v@.len(),
        forall|j: int| from <= j < to ==> is_digit(v@[j]),
    ensures
        dec_value(v@.subrange(from as int, to as int)) <= u64::MAX ==> r == dec_value(
            v@.subrange(from as int, to as int),
        ),
        dec_value(v@.subrange(from as int, to as int)) > u64::MAX ==> r == 0,
{
    let mut acc: u64 = 0;
    let mut over: bool = false;
    let mut i: usize = from;
    while i < to
        invariant
            from <= i <= to <= v@.len(),
            forall|j: int| from <= j < to ==> is_digit(v@[j]),
            !over ==> acc == dec_value(v@.subrange(from as int, i as int)),
            over <==> dec_value(v@.subrange(from as int, i as int)) > u64::MAX,
        decreases to - i,
    {
        let d = v[i];
        proof {
            assert(v@.subrange(from as int, i + 1).drop_last() =~= v@.subrange(
                from as int,
                i as int,
            ));
            assert(v@.subrange(from as int, i + 1).last() == v@[i as int]);
        }
        if over {
        } else if acc > 0xffff_ffff_ffff_ffffu64 / 10 || (acc == 0xffff_ffff_ffff_ffffu64 / 10 && d
            > 53) {
            over = true;
        } else {
            acc = acc * 10 + ((d - 48) as u64);
        }
        i += 1;
    }
    if over {
        0
    } else {
        acc
    }
}

/// Parse one terminal line: split the head at the first space, then
/// look for a pipe bar followed by a timeout in seconds; the piped
/// arguments lose their trailing spaces and the pipe target its
/// leading ones.
pub fn parse_command_line(line: &Vec<u8>) -> (r: ParsedCommand)
    ensures
        r.head@ == head_of(line@),
        (match r.pipe {
            Some((ref target, secs)) => exists|i: int, e: int, k: int|
                #![trigger tail_after_head(line@).subrange(i + 1, e), tail_after_head(
                    line@,
                ).subrange(k, tail_after_head(line@).len() as int)]
                {
                    let tail = tail_after_head(line@);
                    &&& 0 <= i && i + 1 < tail.len()
                    &&& tail[i] == 124 && is_digit(tail[i + 1])
                    &&& (forall|j: int|
                        0 <= j < i ==> !((#[trigger] tail[j]) == 124 && j + 1 < tail.len()
                            && is_digit(tail[j + 1])))
                    &&& i < e <= tail.len()
                    &&& (forall|j: int| i + 1 <= j < e ==> is_digit(tail[j]))
                    &&& (e < tail.len() ==> !is_digit(tail[e]))
                    &&& e <= k <= tail.len()
                    &&& (forall|j: int| e <= j < k ==> tail[j] == 32)
                    &&& (k < tail.len() ==> tail[k] != 32)
                    &&& target@ == tail.subrange(k, tail.len() as int)
                    &&& (dec_value(tail.subrange(i + 1, e)) <= u64::MAX ==> secs == dec_value(
                        tail.subrange(i + 1, e),
                    ))
                    &&& r.args@ == trimmed_end(tail.subrange(0, i))
                },
            None => {
                let tail = tail_after_head(line@);
                &&& (forall|j: int|
                    0 <= j < tail.len() ==> !((#[trigger] tail[j]) == 124 && j + 1 < tail.len()
                        && is_digit(tail[j + 1])))
                &&& r.args@ == tail
            },
        }),
{
    let n: usize = line.len();
    let sp = match crate::vfs::find_byte(line, 0, 32) {
        Some(i) => i,
        None => n,
    };
    let head = copy_range(line, 0, sp);
    let tail_from = if sp < n {
        sp + 1
    } else {
        n
    };
    let tail = copy_range(line, tail_from, n);
    proof {
        lemma_tail_from(line@, 0, sp as int);
        lemma_head_from(line@, 0, sp as int);
        assert(tail@ =~= tail_after_head(line@));
        assert(head@ =~= head_of(line@));
    }
    let tn: usize = tail.len();
    match find_pipe(&tail, 0) {
        None => ParsedCommand { head, args: tail, pipe: None },
        Some(i) => {
            let mut e: usize = i + 1;
            while e < tn && tail[e] >= 48 && tail[e] <= 57
                invariant
                    i + 1 <= e <= tn,
                    tn == tail@.len(),
                    forall|j: int| i + 1 <= j < e ==> is_digit(tail@[j]),
                decreases tn - e,
            {
                e += 1;
            }
            let secs = parse_decimal(&tail, i + 1, e);
            let mut k: usize = e;
            while k < tn && tail[k] == 32
                invariant
                    e <= k <= tn,
                    tn == tail@.len(),
                    forall|j: int| e <= j < k ==> tail@[j] == 32,
                decreases tn - k,
            {
                k += 1;
            }
            let target = copy_range(&tail, k, tn);
            let mut t: usize = i;
            while t > 0 && tail[t - 1] == 32
                invariant
                    0 <= t <= i < tail@.len(),
                    forall|j: int| t <= j < i ==> tail@[j] == 32,
                decreases t,
            {
                t -= 1;
            }
            let args = copy_range(&tail, 0, t);
            proof {
                assert(args@ =~= trimmed_end(tail@.subrange(0, i as int))) by {
                    lemma_trimmed_end(tail@.subrange(0, i as int), t as int);
                }
            }
            ParsedCommand { head, args, pipe: Some((target, secs)) }
        },
    }
}

/// What follows the head: everything after the first space, or
/// nothing when there is none.
pub open spec fn tail_after_head(s: Seq<u8>) -> Seq<u8> {
    tail_after_head_from(s, 0)
}

pub open spec fn tail_after_head_from(s: Seq<u8>, i: int) -> Seq<u8>
    decreases s.len() - i when 0 <= i <= s.len()
{
    if i >= s.len() {
        Seq::empty()
    } else if s[i] == 32 {
        s.subrange(i + 1, s.len() as int)
    } else {
        tail_after_head_from(s, i + 1)
    }
}

/// The command head: everything before the first space, or the
/// whole line when there is none.
pub open spec fn head_of(s: Seq<u8>) -> Seq<u8> {
    head_of_from(s, 0)
}

pub open spec fn head_of_from(s: Seq<u8>, i: int) -> Seq<u8>
    decreases s.len() - i when 0 <= i <= s.len()
{
    if i >= s.len() {
        s
    } else if s[i] == 32 {
        s.subrange(0, i)
    } else {
        head_of_from(s, i + 1)
    }
}

/// The first-space characterization determines the head.
proof fn lemma_head_from(s: Seq<u8>, i: int, sp: int)
    requires
        0 <= i <= sp <= s.len(),
        sp == s.len() || s[sp] == 32,
        forall|j: int| i <= j < sp ==> s[j] != 32,
    ensures
        head_of_from(s, i) == (if sp == s.len() {
            s
        } else {
            s.subrange(0, sp)
        }),
    decreases sp - i,
{
    if i >= s.len() {
    } else if i == sp {
    } else {
        assert(s[i] != 32);
        lemma_head_from(s, i + 1, sp);
    }
}

/// The first-space characterization determines the tail.
proof fn lemma_tail_from(s: Seq<u8>, i: int, sp: int)
    requires
        0 <= i <= sp <= s.len(),
        sp == s.len() || s[sp] == 32,
        forall|j: int| i <= j < sp ==> s[j] != 32,
    ensures
        tail_after_head_from(s, i) == (if sp == s.len() {
            Seq::<u8>::empty()
        } else {
            s.subrange(sp + 1, s.len() as int)
        }),
    decreases sp - i,
{
    if i >= s.len() {
    } else if i == sp {
    } else {
        assert(s[i] != 32);
        lemma_tail_from(s, i + 1, sp);
    }
}

/// A byte string with its trailing spaces removed.
pub open spec fn trimmed_end(s: Seq<u8>) -> Seq<u8>
    decreases s.len(),
{
    if s.len() == 0 {
        s
    } else if s.last() == 32 {
        trimmed_end(s.drop_last())
    } else {
        s
    }
}

/// The cut point of trailing spaces gives the trimmed string.
proof fn lemma_trimmed_end(s: Seq<u8>, t: int)
    requires
        0 <= t <= s.len(),
        forall|j: int| t <= j < s.len() ==> s[j] == 32,
        t > 0 ==> s[t - 1] != 32,
    ensures
        trimmed_end(s) == s.subrange(0, t),
    decreases s.len(),
{
    if s.len() == 0 {
        assert(s.subrange(0, 0) =~= s);
    } else if t == s.len() {
        assert(s.last() != 32);
        assert(s.subrange(0, t) =~= s);
    } else {
        assert(s.last() == 32);
        assert(s.drop_last() =~= s.subrange(0, s.len() - 1));
        lemma_trimmed_end(s.drop_last(), t);
        assert(s.drop_last().subrange(0, t) =~= s.subrange(0, t));
    }
}

/// An alias table line: a short name for a process id.
pub struct AliasEntry {
    pub alias: Vec<u8>,
    pub pid: ProcessId,
}

/// The process an alias names, if any.
pub open spec fn alias_lookup(entries: Seq<AliasEntry>, name: Seq<u8>) -> Option<ProcessIdView>
    decreases entries.len(),
{
    if entries.len() == 0 {
        None
    } else if entries[0].alias@ == name {
        Some(entries[0].pid@)
    } else {
        alias_lookup(entries.drop_first(), name)
    }
}

/// The terminal's alias table.
pub struct AliasTable {
    pub entries: Vec<AliasEntry>,
}

/// A name with no table line names nothing.
proof fn lemma_alias_lookup_absent(entries: Seq<AliasEntry>, name: Seq<u8>)
    requires
        forall|j: int| 0 <= j < entries.len() ==> (#[trigger] entries[j]).alias@ != name,
    ensures
        alias_lookup(entries, name) is None,
    decreases entries.len(),
{
    if entries.len() > 0 {
        assert(entries[0].alias@ != name);
        assert forall|j: int| 0 <= j < entries.drop_first().len() implies (
        #[trigger] entries.drop_first()[j]).alias@ != name by {
            assert(entries.drop_first()[j] == entries[j + 1]);
        }
        lemma_alias_lookup_absent(entries.drop_first(), name);
    }
}

/// Appending a line resolves a name only when nothing earlier did.
proof fn lemma_alias_lookup_push(entries: Seq<AliasEntry>, e: AliasEntry, name: Seq<u8>)
    ensures
        alias_lookup(entries.push(e), name) == (match alias_lookup(entries, name) {
            Some(p) => Some(p),
            None => if e.alias@ == name {
                Some(e.pid@)
            } else {
                None
            },
        }),
    decreases entries.len(),
{
    if entries.len() == 0 {
        assert(entries.push(e)[0] == e);
        if e.alias@ != name {
            assert(entries.push(e).drop_first() =~= entries);
        }
    } else {
        assert(entries.push(e)[0] == entries[0]);
        assert(entries.push(e).drop_first() =~= entries.drop_first().push(e));
        lemma_alias_lookup_push(entries.drop_first(), e, name);
    }
}

impl AliasTable {
    /// Make an alias name a process, or forget it: with a process the
    /// alias now names it; without one the alias is removed. Other
    /// aliases keep their meaning.
    pub fn edit(&mut self, alias: Vec<u8>, process: Option<ProcessId>)
        ensures
            (match process {
                Some(ref p) => alias_lookup(final(self).entries@, alias@) == Some(p@),
                None => alias_lookup(final(self).entries@, alias@) is None,
            }),
            forall|n: Seq<u8>|
                n != alias@ ==> alias_lookup(final(self).entries@, n) == alias_lookup(
                    old(self).entries@,
                    n,
                ),
    {
        let mut src: Vec<AliasEntry> = Vec::new();
        core::mem::swap(&mut src, &mut self.entries);
        let ghost all = src@;
        let ghost mut taken: int = 0;
        proof {
            assert forall|n: Seq<u8>|
                alias_lookup(self.entries@, n) == (if n == alias@ {
                    None::<ProcessIdView>
                } else {
                    alias_lookup(all.subrange(0, 0), n)
                }) by {
                lemma_alias_lookup_absent(self.entries@, n);
                lemma_alias_lookup_absent(all.subrange(0, 0), n);
            }
        }
        while src.len() > 0
            invariant
                0 <= taken <= all.len(),
                src@ == all.skip(taken),
                forall|n: Seq<u8>|
                    alias_lookup(self.entries@, n) == (if n == alias@ {
                        None::<ProcessIdView>
                    } else {
                        alias_lookup(all.subrange(0, taken), n)
                    }),
            decreases src@.len(),
        {
            let it = src.remove(0);
            let ghost pre = all.subrange(0, taken);
            let ghost itg = it;
            let ghost kept0 = self.entries@;
            proof {
                assert(all.skip(taken)[0] == all[taken]);
                assert(src@ =~= all.skip(taken + 1));
            }
            let matches_alias = crate::bytes_eq(&it.alias, &alias);
            if !matches_alias {
                self.entries.push(it);
            }
            proof {
                assert(all.subrange(0, taken + 1) =~= pre.push(itg));
                assert forall|n: Seq<u8>|
                    alias_lookup(self.entries@, n) == (if n == alias@ {
                        None::<ProcessIdView>
                    } else {
                        alias_lookup(all.subrange(0, taken + 1), n)
                    }) by {
                    lemma_alias_lookup_push(pre, itg, n);
                    if !matches_alias {
                        assert(self.entries@ =~= kept0.push(itg));
                        lemma_alias_lookup_push(kept0, itg, n);
                    }
                }
                taken = taken + 1;
            }
        }
        proof {
            assert(all.subrange(0, taken) =~= all);
        }
        match process {
            None => {},
            Some(p) => {
                let ghost kept_final = self.entries@;
                self.entries.push(AliasEntry { alias, pid: p });
                proof {
                    assert forall|n: Seq<u8>|
                        alias_lookup(self.entries@, n) == (if n == alias@ {
                            Some(self.entries@[self.entries@.len() - 1].pid@)
                        } else {
                            alias_lookup(old(self).entries@, n)
                        }) by {
                        lemma_alias_lookup_push(
                            kept_final,
                            self.entries@[self.entries@.len() - 1],
                            n,
                        );
                    }
                }
            },
        }
    }

    /// Find what a command head names: an alias when the table knows
    /// it, else the head parsed as a process id.
    pub fn resolve(&self, head: &Vec<u8>) -> (r: Option<ProcessId>)
        ensures
            match alias_lookup(self.entries@, head@) {
                Some(p) => r is Some && r.unwrap()@ == p,
                None => match r {
                    Some(p) => crate::ids::valid_pid(p@) && crate::ids::pid_bytes(p@) == head@,
                    None => forall|p: ProcessIdView|
                        crate::ids::valid_pid(p) ==> crate::ids::pid_bytes(p) != head@,
                },
            },
    {
        let n: usize = self.entries.len();
        let mut i: usize = 0;
        proof {
            assert(self.entries@.skip(0) =~= self.entries@);
        }
        while i < n
            invariant
                n == self.entries@.len(),
                i <= n,
                alias_lookup(self.entries@, head@) == alias_lookup(
                    self.entries@.skip(i as int),
                    head@,
                ),
            decreases n - i,
        {
            proof {
                assert(self.entries@.skip(i as int)[0] == self.entries@[i as int]);
                assert(self.entries@.skip(i as int).drop_first() =~= self.entries@.skip(i + 1));
            }
            if crate::bytes_eq(&self.entries[i].alias, head) {
                return Some(self.entries[i].pid.clone_pid());
            }
            i += 1;
        }
        proof {
            assert(self.entries@.skip(n as int) =~= Seq::<AliasEntry>::empty());
        }
        match crate::ids::parse_process_id(head) {
            Ok(p) => Some(p),
            Err(_) => None,
        }
    }
}

/// What the terminal does with an incoming message: its own requests
/// are command lines; requests from its package are alias edits;
/// responses are printed; everything else is ignored.
pub enum TerminalEvent {
    /// Parse and run the body as a command line.
    RunLine(Vec<u8>),
    /// Treat the body as an alias-edit action.
    EditAction(Vec<u8>),
    /// Print the body.
    Print(Vec<u8>),
    /// Drop the message.
    Ignore,
}

/// Classify an incoming terminal message by its sender.
pub fn terminal_step(our: &Address, source: &Address, message: crate::message::Message) -> (r:
    TerminalEvent)
    ensures
        message matches crate::message::Message::Request(ref q) ==> {
            &&& (source@ == our@ ==> (r matches TerminalEvent::RunLine(b) && b@ == q.body@))
            &&& (source@ != our@ && source@.node == our@.node && source@.process.package
                == our@.process.package ==> (r matches TerminalEvent::EditAction(b) && b@
                == q.body@))
            &&& (!(source@ == our@) && !(source@.node == our@.node && source@.process.package
                == our@.process.package) ==> r is Ignore)
        },
        message matches crate::message::Message::Response(ref p) ==> (r matches
            TerminalEvent::Print(b) && b@ == p.body@),
{
    match message {
        crate::message::Message::Request(q) => {
            if source.eq_address(our) {
                TerminalEvent::RunLine(q.body)
            } else if crate::bytes_eq(&source.node, &our.node) && crate::bytes_eq(
                &source.process.package,
                &our.process.package,
            ) {
                TerminalEvent::EditAction(q.body)
            } else {
                TerminalEvent::Ignore
            }
        },
        crate::message::Message::Response(p) => TerminalEvent::Print(p.body),
    }
}

/// How a scripts entry asks for one capability.
pub enum CapRequest {
    /// A messaging token of the named process.
    Messaging(ProcessId),
    /// A token of the named process with explicit parameter bytes.
    Custom { process: ProcessId, params: Vec<u8> },
}

/// The capabilities a fresh script process grants to others: each
/// request becomes a token issued by the new process's own address.
pub fn granted_caps(our_node: &Vec<u8>, new_pid: &ProcessId, grants: &Vec<CapRequest>) -> (r: Vec<
    (ProcessId, Capability),
>)
    ensures
        r@.len() == grants@.len(),
        forall|j: int|
            0 <= j < grants@.len() ==> match #[trigger] grants@[j] {
                CapRequest::Messaging(ref p) => r@[j].0@ == p@ && r@[j].1@ == (CapabilityView {
                    issuer: AddressView { node: our_node@, process: new_pid@ },
                    params: messaging_params(),
                }),
                CapRequest::Custom { ref process, ref params } => r@[j].0@ == process@ && r@[j].1@
                    == (CapabilityView {
                    issuer: AddressView { node: our_node@, process: new_pid@ },
                    params: params@,
                }),
            },
{
    let mut out: Vec<(ProcessId, Capability)> = Vec::new();
    let n: usize = grants.len();
    let mut i: usize = 0;
    while i < n
        invariant
            n == grants@.len(),
            i <= n,
            out@.len() == i,
            forall|j: int|
                0 <= j < i ==> match #[trigger] grants@[j] {
                    CapRequest::Messaging(ref p) => out@[j].0@ == p@ && out@[j].1@
                        == (CapabilityView {
                        issuer: AddressView { node: our_node@, process: new_pid@ },
                        params: messaging_params(),
                    }),
                    CapRequest::Custom { ref process, ref params } => out@[j].0@ == process@
                        && out@[j].1@ == (CapabilityView {
                        issuer: AddressView { node: our_node@, process: new_pid@ },
                        params: params@,
                    }),
                },
        decreases n - i,
    {
        let issuer = Address { node: clone_bytes(our_node), process: new_pid.clone_pid() };
        match &grants[i] {
            CapRequest::Messaging(p) => {
                out.push(
                    (
                        p.clone_pid(),
                        Capability { issuer, params: make_messaging_params() },
                    ),
                );
            },
            CapRequest::Custom { process, params } => {
                out.push(
                    (process.clone_pid(), Capability { issuer, params: clone_bytes(params) }),
                );
            },
        }
        proof {
            assert(out@[i as int].1@ =~= (match grants@[i as int] {
                CapRequest::Messaging(_) => CapabilityView {
                    issuer: AddressView { node: our_node@, process: new_pid@ },
                    params: messaging_params(),
                },
                CapRequest::Custom { params, .. } => CapabilityView {
                    issuer: AddressView { node: our_node@, process: new_pid@ },
                    params: params@,
                },
            }));
        }
        i += 1;
    }
    out
}

/// The capabilities a fresh script process itself receives: each
/// request, a messaging token back to the terminal, and the network
/// token when the entry asks for it.
pub fn requested_caps(
    our: &Address,
    kernel_pid: &ProcessId,
    requests: &Vec<CapRequest>,
    networking: bool,
) -> (r: Vec<Capability>)
    ensures
        r@.len() == requests@.len() + 1 + (if networking {
            1int
        } else {
            0int
        }),
        forall|j: int|
            0 <= j < requests@.len() ==> match #[trigger] requests@[j] {
                CapRequest::Messaging(ref p) => r@[j]@ == (CapabilityView {
                    issuer: AddressView { node: our@.node, process: p@ },
                    params: messaging_params(),
                }),
                CapRequest::Custom { ref process, ref params } => r@[j]@ == (CapabilityView {
                    issuer: AddressView { node: our@.node, process: process@ },
                    params: params@,
                }),
            },
        r@[requests@.len() as int]@ == (CapabilityView {
            issuer: our@,
            params: messaging_params(),
        }),
        networking ==> r@[requests@.len() + 1 as int]@ == (CapabilityView {
            issuer: AddressView { node: our@.node, process: kernel_pid@ },
            params: network_params(),
        }),
{
    let mut out: Vec<Capability> = Vec::new();
    let n: usize = requests.len();
    let mut i: usize = 0;
    while i < n
        invariant
            n == requests@.len(),
            i <= n,
            out@.len() == i,
            forall|j: int|
                0 <= j < i ==> match #[trigger] requests@[j] {
                    CapRequest::Messaging(ref p) => out@[j]@ == (CapabilityView {
                        issuer: AddressView { node: our@.node, process: p@ },
                        params: messaging_params(),
                    }),
                    CapRequest::Custom { ref process, ref params } => out@[j]@ == (CapabilityView {
                        issuer: AddressView { node: our@.node, process: process@ },
                        params: params@,
                    }),
                },
        decreases n - i,
    {
        match &requests[i] {
            CapRequest::Messaging(p) => {
                let c = Capability {
                    issuer: Address { node: clone_bytes(&our.node), process: p.clone_pid() },
                    params: make_messaging_params(),
                };
                proof {
                    assert(c@ =~= (CapabilityView {
                        issuer: AddressView { node: our@.node, process: requests@[i as int]->Messaging_0@ },
                        params: messaging_params(),
                    }));
                }
                out.push(c);
            },
            CapRequest::Custom { process, params } => {
                let c = Capability {
                    issuer: Address { node: clone_bytes(&our.node), process: process.clone_pid() },
                    params: clone_bytes(params),
                };
                proof {
                    assert(c@ =~= (CapabilityView {
                        issuer: AddressView {
                            node: our@.node,
                            process: requests@[i as int]->Custom_process@,
                        },
                        params: requests@[i as int]->Custom_params@,
                    }));
                }
                out.push(c);
            },
        }
        i += 1;
    }
    let back = Capability { issuer: our.clone_address(), params: make_messaging_params() };
    proof {
        assert(back@ =~= (CapabilityView { issuer: our@, params: messaging_params() }));
    }
    out.push(back);
    if networking {
        let net = Capability {
            issuer: Address { node: clone_bytes(&our.node), process: kernel_pid.clone_pid() },
            params: make_network_params(),
        };
        proof {
            assert(net@ =~= (CapabilityView {
                issuer: AddressView { node: our@.node, process: kernel_pid@ },
                params: network_params(),
            }));
        }
        out.push(net);
    }
    out
}

} // verus!
