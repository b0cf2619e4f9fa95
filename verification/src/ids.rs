//! Canonical naming of nodes and processes: `ProcessId` triples, package
//! identifiers, and node-qualified addresses, with the string form
//! `name:package:publisher` kept as byte vectors.

use vstd::prelude::*;
use crate::bytes_eq;

verus! {

/// The ASCII colon that separates the three segments of a process id.
pub const SEGMENT_SEP: u8 = 58;

/// A process identifier: the triple (name, package, publisher).
/// Each segment is non-empty and made of lowercase ASCII letters,
/// digits, dash and underscore.
pub struct ProcessId {
    pub name: Vec<u8>,
    pub package: Vec<u8>,
    pub publisher: Vec<u8>,
}

/// Mathematical model of a `ProcessId`.
#[verifier::ext_equal]
pub struct ProcessIdView {
    pub name: Seq<u8>,
    pub package: Seq<u8>,
    pub publisher: Seq<u8>,
}

impl View for ProcessId {
    type V = ProcessIdView;

    open spec fn view(&self) -> ProcessIdView {
        ProcessIdView { name: self.name@, package: self.package@, publisher: self.publisher@ }
    }
}

/// A package identifier: the pair (package, publisher) that owns drives.
pub struct PackageId {
    pub package: Vec<u8>,
    pub publisher: Vec<u8>,
}

/// Mathematical model of a `PackageId`.
#[verifier::ext_equal]
pub struct PackageIdView {
    pub package: Seq<u8>,
    pub publisher: Seq<u8>,
}

impl View for PackageId {
    type V = PackageIdView;

    open spec fn view(&self) -> PackageIdView {
        PackageIdView { package: self.package@, publisher: self.publisher@ }
    }
}

/// An address: a node identifier paired with a process on that node.
pub struct Address {
    pub node: Vec<u8>,
    pub process: ProcessId,
}

/// Mathematical model of an `Address`.
#[verifier::ext_equal]
pub struct AddressView {
    pub node: Seq<u8>,
    pub process: ProcessIdView,
}

impl View for Address {
    type V = AddressView;

    open spec fn view(&self) -> AddressView {
        AddressView { node: self.node@, process: self.process@ }
    }
}

/// Bytes allowed inside a segment: lowercase ASCII letters, digits,
/// dash and underscore. The separator colon is not among them.
pub open spec fn valid_segment_byte(c: u8) -> bool {
    (97 <= c && c <= 122) || (48 <= c && c <= 57) || c == 45 || c == 95
}

/// A segment is non-empty and made of valid bytes only.
pub open spec fn valid_segment(s: Seq<u8>) -> bool {
    s.len() > 0 && forall|i: int| 0 <= i < s.len() ==> valid_segment_byte(s[i])
}

/// A well-formed process id: all three segments valid.
pub open spec fn valid_pid(p: ProcessIdView) -> bool {
    valid_segment(p.name) && valid_segment(p.package) && valid_segment(p.publisher)
}

/// The canonical string form of a process id, as bytes:
/// `name:package:publisher`.
pub open spec fn pid_bytes(p: ProcessIdView) -> Seq<u8> {
    p.name + seq![SEGMENT_SEP] + p.package + seq![SEGMENT_SEP] + p.publisher
}

/// Number of separator colons in a byte string.
pub open spec fn colon_count(s: Seq<u8>) -> nat
    decreases s.len(),
{
    if s.len() == 0 {
        0
    } else {
        (if s[0] == SEGMENT_SEP { 1nat } else { 0nat }) + colon_count(s.subrange(1, s.len() as int))
    }
}

/// No byte of `s` is the separator colon.
pub open spec fn colon_free(s: Seq<u8>) -> bool {
    forall|i: int| 0 <= i < s.len() ==> s[i] != SEGMENT_SEP
}

pub proof fn lemma_colon_count_add(a: Seq<u8>, b: Seq<u8>)
    ensures
        colon_count(a + b) == colon_count(a) + colon_count(b),
    decreases a.len(),
{
    if a.len() == 0 {
        assert(a + b =~= b);
    } else {
        assert((a + b).subrange(1, (a + b).len() as int) =~= a.subrange(1, a.len() as int) + b);
        lemma_colon_count_add(a.subrange(1, a.len() as int), b);
    }
}

pub proof fn lemma_colon_free_count(a: Seq<u8>)
    requires
        colon_free(a),
    ensures
        colon_count(a) == 0,
    decreases a.len(),
{
    if a.len() > 0 {
        assert(colon_free(a.subrange(1, a.len() as int)));
        lemma_colon_free_count(a.subrange(1, a.len() as int));
    }
}

pub proof fn lemma_colon_count_single(c: u8)
    ensures
        colon_count(seq![c]) == (if c == SEGMENT_SEP {
            1nat
        } else {
            0nat
        }),
{
    assert(colon_count(Seq::<u8>::empty()) == 0);
    assert(seq![c].subrange(1, 1) =~= Seq::<u8>::empty());
}

pub proof fn lemma_colon_count_step(s: Seq<u8>, i: int)
    requires
        0 <= i < s.len(),
    ensures
        colon_count(s.subrange(0, i + 1)) == colon_count(s.subrange(0, i)) + (
        if s[i] == SEGMENT_SEP {
            1nat
        } else {
            0nat
        }),
{
    assert(s.subrange(0, i + 1) =~= s.subrange(0, i) + seq![s[i]]);
    lemma_colon_count_add(s.subrange(0, i), seq![s[i]]);
    lemma_colon_count_single(s[i]);
}

/// A valid segment never holds the separator.
pub proof fn lemma_valid_segment_colon_free(s: Seq<u8>)
    requires
        valid_segment(s),
    ensures
        colon_free(s),
{
    assert forall|i: int| 0 <= i < s.len() implies s[i] != SEGMENT_SEP by {
        assert(valid_segment_byte(s[i]));
    }
}

/// Shape of the canonical form: length, the two separator positions,
/// the fact that no other byte is a separator, and how the three
/// segments sit inside it.
pub proof fn lemma_pid_bytes_shape(p: ProcessIdView)
    requires
        valid_pid(p),
    ensures
        pid_bytes(p).len() == p.name.len() + p.package.len() + p.publisher.len() + 2,
        pid_bytes(p)[p.name.len() as int] == SEGMENT_SEP,
        pid_bytes(p)[p.name.len() + p.package.len() + 1 as int] == SEGMENT_SEP,
        forall|k: int|
            0 <= k < pid_bytes(p).len() && pid_bytes(p)[k] == SEGMENT_SEP ==> k == p.name.len()
                || k == p.name.len() + p.package.len() + 1,
        p.name == pid_bytes(p).subrange(0, p.name.len() as int),
        p.package == pid_bytes(p).subrange(
            p.name.len() + 1 as int,
            p.name.len() + p.package.len() + 1 as int,
        ),
        p.publisher == pid_bytes(p).subrange(
            p.name.len() + p.package.len() + 2 as int,
            pid_bytes(p).len() as int,
        ),
{
    let s = pid_bytes(p);
    let i = p.name.len() as int;
    let j = i + 1 + p.package.len();
    lemma_valid_segment_colon_free(p.name);
    lemma_valid_segment_colon_free(p.package);
    lemma_valid_segment_colon_free(p.publisher);
    assert forall|k: int| 0 <= k < s.len() && s[k] == SEGMENT_SEP implies k == i || k == j by {
        if k < i {
            assert(s[k] == p.name[k]);
        } else if i < k < j {
            assert(s[k] == p.package[k - i - 1]);
        } else if k > j {
            assert(s[k] == p.publisher[k - j - 1]);
        }
    }
    assert(p.name =~= s.subrange(0, i));
    assert(p.package =~= s.subrange(i + 1, j));
    assert(p.publisher =~= s.subrange(j + 1, s.len() as int));
}

/// The canonical form of a valid id holds exactly two separators.
pub proof fn lemma_pid_bytes_two_colons(p: ProcessIdView)
    requires
        valid_pid(p),
    ensures
        colon_count(pid_bytes(p)) == 2,
{
    lemma_valid_segment_colon_free(p.name);
    lemma_valid_segment_colon_free(p.package);
    lemma_valid_segment_colon_free(p.publisher);
    lemma_colon_free_count(p.name);
    lemma_colon_free_count(p.package);
    lemma_colon_free_count(p.publisher);
    let sep = seq![SEGMENT_SEP];
    lemma_colon_count_single(SEGMENT_SEP);
    lemma_colon_count_add(p.name, sep);
    lemma_colon_count_add(p.name + sep, p.package);
    lemma_colon_count_add(p.name + sep + p.package, sep);
    lemma_colon_count_add(p.name + sep + p.package + sep, p.publisher);
}

/// The canonical string form is injective on valid ids: parsing the
/// formatted form of a valid id can yield nothing but that id.
pub proof fn lemma_pid_bytes_injective(p: ProcessIdView, q: ProcessIdView)
    requires
        valid_pid(p),
        valid_pid(q),
        pid_bytes(p) == pid_bytes(q),
    ensures
        p == q,
{
    let s = pid_bytes(p);
    let ip = p.name.len() as int;
    let jp = ip + 1 + p.package.len();
    let iq = q.name.len() as int;
    let jq = iq + 1 + q.package.len();
    lemma_pid_bytes_shape(p);
    lemma_pid_bytes_shape(q);
    assert(ip == iq) by {
        if ip < iq {
            assert(s[ip] == SEGMENT_SEP);
            assert(ip == jq);
        } else if iq < ip {
            assert(s[iq] == SEGMENT_SEP);
            assert(iq == jp);
        }
    }
    assert(jp == jq);
    assert(p =~= q);
}

/// Why a byte string fails to parse as a process id.
#[derive(PartialEq, Eq, Structural, Debug)]
pub enum PidParseError {
    /// The string does not hold exactly two separator colons.
    WrongArity,
    /// A segment is empty or holds a byte outside the allowed set.
    BadSegment,
}

/// Copy of the byte range `[from, to)` of `v`.
pub fn copy_range(v: &Vec<u8>, from: usize, to: usize) -> (r: Vec<u8>)
    requires
        from <= to <= v@.len(),
    ensures
        r@ == v@.subrange(from as int, to as int),
{
    let mut out: Vec<u8> = Vec::new();
    let mut i: usize = from;
    while i < to
        invariant
            from <= i <= to <= v@.len(),
            out@ =~= v@.subrange(from as int, i as int),
        decreases to - i,
    {
        out.push(v[i]);
        proof {
            assert(out@ =~= v@.subrange(from as int, i + 1));
        }
        i += 1;
    }
    out
}

/// Whether `v` is a well-formed segment.
pub fn check_segment(v: &Vec<u8>) -> (r: bool)
    ensures
        r == valid_segment(v@),
{
    if v.len() == 0 {
        return false;
    }
    let n: usize = v.len();
    let mut i: usize = 0;
    while i < n
        invariant
            n == v@.len(),
            i <= n,
            forall|j: int| 0 <= j < i ==> valid_segment_byte(v@[j]),
        decreases n - i,
    {
        let c = v[i];
        if !((97 <= c && c <= 122) || (48 <= c && c <= 57) || c == 45 || c == 95) {
            assert(!valid_segment_byte(v@[i as int]));
            return false;
        }
        i += 1;
    }
    true
}

/// Parse the canonical string form `name:package:publisher`.
///
/// Succeeds exactly on the canonical form of a well-formed id, and then
/// returns the one id whose form the input is. `WrongArity` comes iff
/// the input does not hold exactly two colons; `BadSegment` iff it does
/// but one of the three segments is empty or holds a foreign byte.
pub fn parse_process_id(s: &Vec<u8>) -> (r: Result<ProcessId, PidParseError>)
    ensures
        match r {
            Ok(p) => valid_pid(p@) && pid_bytes(p@) == s@,
            Err(e) => (forall|p: ProcessIdView| valid_pid(p) ==> pid_bytes(p) != s@) && (e
                is WrongArity <==> colon_count(s@) != 2),
        },
{
    let n: usize = s.len();
    let mut i: usize = 0;
    let mut count: usize = 0;
    let mut k1: usize = 0;
    let mut k2: usize = 0;
    while i < n
        invariant
            n == s@.len(),
            i <= n,
            count <= 3,
            count == 3 ==> colon_count(s@.subrange(0, i as int)) >= 3,
            count < 3 ==> count == colon_count(s@.subrange(0, i as int)),
            count >= 1 ==> k1 < i && s@[k1 as int] == SEGMENT_SEP,
            count >= 2 ==> k1 < k2 < i && s@[k2 as int] == SEGMENT_SEP,
            count <= 2 ==> forall|m: int|
                0 <= m < i && s@[m] == SEGMENT_SEP ==> (count >= 1 && m == k1) || (count == 2 && m
                    == k2),
        decreases n - i,
    {
        proof {
            lemma_colon_count_step(s@, i as int);
        }
        if s[i] == SEGMENT_SEP {
            if count == 0 {
                k1 = i;
            } else if count == 1 {
                k2 = i;
            }
            if count < 3 {
                count += 1;
            }
        }
        i += 1;
    }
    proof {
        assert(s@.subrange(0, n as int) =~= s@);
    }
    if count != 2 {
        proof {
            assert forall|p: ProcessIdView| valid_pid(p) implies pid_bytes(p) != s@ by {
                lemma_pid_bytes_two_colons(p);
            }
        }
        return Err(PidParseError::WrongArity);
    }
    let name = copy_range(s, 0, k1);
    let package = copy_range(s, k1 + 1, k2);
    let publisher = copy_range(s, k2 + 1, n);
    let ok = check_segment(&name) && check_segment(&package) && check_segment(&publisher);
    if !ok {
        proof {
            assert forall|p: ProcessIdView| valid_pid(p) implies pid_bytes(p) != s@ by {
                if pid_bytes(p) == s@ {
                    lemma_pid_bytes_shape(p);
                    let ip = p.name.len() as int;
                    let jp = ip + 1 + p.package.len();
                    assert(s@[ip] == SEGMENT_SEP);
                    assert(s@[jp] == SEGMENT_SEP);
                    assert(ip == k1 as int && jp == k2 as int) by {
                        if ip == k2 as int {
                            assert(jp == k1 as int || jp == k2 as int);
                        }
                    }
                    assert(p.name == name@);
                    assert(p.package == package@);
                    assert(p.publisher == publisher@);
                }
            }
            assert(colon_count(s@) == 2);
        }
        return Err(PidParseError::BadSegment);
    }
    let p = ProcessId { name, package, publisher };
    proof {
        let pv = p@;
        lemma_pid_bytes_shape(pv);
        assert(pid_bytes(pv) =~= s@) by {
            assert(pv.name == s@.subrange(0, k1 as int));
            assert(pv.package == s@.subrange(k1 + 1, k2 as int));
            assert(pv.publisher == s@.subrange(k2 + 1, n as int));
        }
    }
    Ok(p)
}

/// Format a process id into its canonical string form.
pub fn format_process_id(p: &ProcessId) -> (r: Vec<u8>)
    ensures
        r@ == pid_bytes(p@),
{
    let mut out: Vec<u8> = Vec::new();
    push_bytes(&mut out, &p.name);
    out.push(SEGMENT_SEP);
    push_bytes(&mut out, &p.package);
    out.push(SEGMENT_SEP);
    push_bytes(&mut out, &p.publisher);
    proof {
        assert(out@ =~= pid_bytes(p@));
    }
    out
}

/// Append all bytes of `v` to `out`.
pub fn push_bytes(out: &mut Vec<u8>, v: &Vec<u8>) -> (u: ())
    ensures
        final(out)@ == old(out)@ + v@,
{
    let n: usize = v.len();
    let mut i: usize = 0;
    while i < n
        invariant
            n == v@.len(),
            i <= n,
            out@ =~= old(out)@ + v@.subrange(0, i as int),
        decreases n - i,
    {
        out.push(v[i]);
        proof {
            assert(old(out)@ + v@.subrange(0, i + 1) =~= (old(out)@ + v@.subrange(0, i as int)).push(
                v@[i as int],
            ));
        }
        i += 1;
    }
    proof {
        assert(out@ =~= old(out)@ + v@);
    }
}

impl ProcessId {
    /// Field-wise equality; agrees with equality of the models.
    pub fn eq_pid(&self, other: &ProcessId) -> (r: bool)
        ensures
            r == (self@ == other@),
    {
        let r = bytes_eq(&self.name, &other.name) && bytes_eq(&self.package, &other.package)
            && bytes_eq(&self.publisher, &other.publisher);
        proof {
            if r {
                assert(self@ =~= other@);
            }
        }
        r
    }

    pub fn clone_pid(&self) -> (r: ProcessId)
        ensures
            r@ == self@,
    {
        let r = ProcessId {
            name: clone_bytes(&self.name),
            package: clone_bytes(&self.package),
            publisher: clone_bytes(&self.publisher),
        };
        proof {
            assert(r@ =~= self@);
        }
        r
    }

    /// The (package, publisher) pair that owns this process's package.
    pub fn package_id(&self) -> (r: PackageId)
        ensures
            r@.package == self@.package,
            r@.publisher == self@.publisher,
    {
        PackageId { package: clone_bytes(&self.package), publisher: clone_bytes(&self.publisher) }
    }
}

impl PackageId {
    pub fn eq_package(&self, other: &PackageId) -> (r: bool)
        ensures
            r == (self@ == other@),
    {
        let r = bytes_eq(&self.package, &other.package) && bytes_eq(
            &self.publisher,
            &other.publisher,
        );
        proof {
            if r {
                assert(self@ =~= other@);
            }
        }
        r
    }
}

impl Address {
    /// Field-wise equality; two addresses are equal iff node and
    /// process both are.
    pub fn eq_address(&self, other: &Address) -> (r: bool)
        ensures
            r == (self@ == other@),
    {
        let r = bytes_eq(&self.node, &other.node) && self.process.eq_pid(&other.process);
        proof {
            if r {
                assert(self@ =~= other@);
            }
        }
        r
    }

    pub fn clone_address(&self) -> (r: Address)
        ensures
            r@ == self@,
    {
        let r = Address { node: clone_bytes(&self.node), process: self.process.clone_pid() };
        proof {
            assert(r@ =~= self@);
        }
        r
    }
}

/// The string form of an address: `node@name:package:publisher`.
pub open spec fn address_bytes(a: AddressView) -> Seq<u8> {
    a.node + seq![64u8] + pid_bytes(a.process)
}

/// Format an address into its canonical string form.
pub fn format_address(a: &Address) -> (r: Vec<u8>)
    ensures
        r@ == address_bytes(a@),
{
    let mut out: Vec<u8> = Vec::new();
    push_bytes(&mut out, &a.node);
    out.push(64);
    let pid = format_process_id(&a.process);
    push_bytes(&mut out, &pid);
    proof {
        assert(out@ =~= address_bytes(a@));
    }
    out
}

/// Copy of a byte vector, equal view.
pub fn clone_bytes(v: &Vec<u8>) -> (r: Vec<u8>)
    ensures
        r@ == v@,
{
    let mut out: Vec<u8> = Vec::new();
    let n: usize = v.len();
    let mut i: usize = 0;
    while i < n
        invariant
            n == v@.len(),
            i <= n,
            out@ =~= v@.subrange(0, i as int),
        decreases n - i,
    {
        out.push(v[i]);
        proof {
            assert(out@ =~= v@.subrange(0, i + 1));
        }
        i += 1;
    }
    proof {
        assert(out@ =~= v@);
    }
    out
}

} // verus!
