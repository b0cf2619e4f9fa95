//! The virtual file system service: capability-checked file
//! operations on per-package drives, per-source operation queues,
//! archive unpacking plans and content hashing. The syscalls and the
//! open-file cache live behind the host; parsing, capability
//! decisions, plans and replies are verified.

use vstd::prelude::*;
use crate::caps::{
    drive_path, make_kind_drive_params, make_root_params, read_params, root_params, write_params,
};
use crate::codec::{enc_bytes, enc_u64, parse_bytes, parse_u64, put_bytes, put_u64, take_bytes, take_u64};
use crate::crypto::{blake3_of, hash_bytes};
use crate::ids::{
    clone_bytes, copy_range, push_bytes, valid_segment, valid_segment_byte, Address, AddressView,
    PackageId, PackageIdView, ProcessId, ProcessIdView,
};
use crate::message::{Capability, CapabilityView, KernelMessage, LazyLoadBlob};
use crate::oracle::CapOracle;
use crate::state_service::vfs_cap_of;

verus! {

/// Where to move a file cursor.
pub enum SeekSpec {
    Start(u64),
    End(i64),
    Current(i64),
}

/// Everything a process may ask of the file system.
pub enum VfsAction {
    CreateDrive,
    CreateDir,
    CreateDirAll,
    CreateFile,
    OpenFile,
    CloseFile,
    WriteAll,
    Write,
    ReWrite,
    WriteAt(u64),
    Append,
    SyncAll,
    Read,
    ReadDir,
    ReadExact(u64),
    ReadToEnd,
    ReadToString,
    Seek(SeekSpec),
    RemoveFile,
    RemoveDir,
    RemoveDirAll,
    Rename(Vec<u8>),
    Metadata,
    Len,
    SetLen(u64),
    Hash,
    AddZip,
}

/// A request to the file system: a path `/package:publisher/drive/...`
/// and the action to take there.
pub struct VfsRequest {
    pub path: Vec<u8>,
    pub action: VfsAction,
}

/// What kind of thing a directory entry is.
#[derive(PartialEq, Eq, Structural, Clone, Copy)]
pub enum FileType {
    File,
    Directory,
    Symlink,
    Other,
}

pub struct DirEntry {
    pub path: Vec<u8>,
    pub file_type: FileType,
}

pub struct FileMetadata {
    pub len: u64,
    pub file_type: FileType,
}

/// The file system's successful answers.
pub enum VfsResponse {
    Done,
    Read,
    ReadDir(Vec<DirEntry>),
    ReadToString(Vec<u8>),
    Metadata(FileMetadata),
    Len(u64),
    Hash(Vec<u8>),
}

/// The file system's errors.
#[derive(Debug)]
pub enum VfsError {
    /// The sender lacks the capability the action needs.
    NoCap,
    /// The envelope was not a request, or its payload is unusable.
    BadRequest,
    /// The request body did not parse.
    BadJson,
    /// The path or an archive did not parse.
    ParseError,
    /// A file operation failed in the host's words.
    IOError { error: Vec<u8> },
    /// A directory could not be made, or an archive entry was
    /// neither file nor directory.
    CreateDirError,
    /// The capability oracle could not be reached.
    CapChannelFail,
}

/// The model of a file system action: the one variant with owned
/// bytes carries their sequence.
#[verifier::ext_equal]
pub enum VfsActionView {
    CreateDrive,
    CreateDir,
    CreateDirAll,
    CreateFile,
    OpenFile,
    CloseFile,
    WriteAll,
    Write,
    ReWrite,
    WriteAt(u64),
    Append,
    SyncAll,
    Read,
    ReadDir,
    ReadExact(u64),
    ReadToEnd,
    ReadToString,
    Seek(SeekSpec),
    RemoveFile,
    RemoveDir,
    RemoveDirAll,
    Rename(Seq<u8>),
    Metadata,
    Len,
    SetLen(u64),
    Hash,
    AddZip,
}

impl View for VfsAction {
    type V = VfsActionView;

    open spec fn view(&self) -> VfsActionView {
        match self {
            VfsAction::CreateDrive => VfsActionView::CreateDrive,
            VfsAction::CreateDir => VfsActionView::CreateDir,
            VfsAction::CreateDirAll => VfsActionView::CreateDirAll,
            VfsAction::CreateFile => VfsActionView::CreateFile,
            VfsAction::OpenFile => VfsActionView::OpenFile,
            VfsAction::CloseFile => VfsActionView::CloseFile,
            VfsAction::WriteAll => VfsActionView::WriteAll,
            VfsAction::Write => VfsActionView::Write,
            VfsAction::ReWrite => VfsActionView::ReWrite,
            VfsAction::WriteAt(o) => VfsActionView::WriteAt(*o),
            VfsAction::Append => VfsActionView::Append,
            VfsAction::SyncAll => VfsActionView::SyncAll,
            VfsAction::Read => VfsActionView::Read,
            VfsAction::ReadDir => VfsActionView::ReadDir,
            VfsAction::ReadExact(l) => VfsActionView::ReadExact(*l),
            VfsAction::ReadToEnd => VfsActionView::ReadToEnd,
            VfsAction::ReadToString => VfsActionView::ReadToString,
            VfsAction::Seek(sp) => VfsActionView::Seek(*sp),
            VfsAction::RemoveFile => VfsActionView::RemoveFile,
            VfsAction::RemoveDir => VfsActionView::RemoveDir,
            VfsAction::RemoveDirAll => VfsActionView::RemoveDirAll,
            VfsAction::Rename(p) => VfsActionView::Rename(p@),
            VfsAction::Metadata => VfsActionView::Metadata,
            VfsAction::Len => VfsActionView::Len,
            VfsAction::SetLen(l) => VfsActionView::SetLen(*l),
            VfsAction::Hash => VfsActionView::Hash,
            VfsAction::AddZip => VfsActionView::AddZip,
        }
    }
}

/// A cursor move on the wire: a subtag, then the offset; signed
/// offsets travel as their two's-complement word.
pub open spec fn enc_seek(sp: SeekSpec) -> Seq<u8> {
    match sp {
        SeekSpec::Start(o) => seq![0u8] + enc_u64(o),
        SeekSpec::End(o) => seq![1u8] + enc_u64(o as u64),
        SeekSpec::Current(o) => seq![2u8] + enc_u64(o as u64),
    }
}

pub open spec fn parse_seek(s: Seq<u8>, pos: int) -> Option<(SeekSpec, int)> {
    if 0 <= pos && pos < s.len() && s[pos] <= 2 {
        match parse_u64(s, pos + 1) {
            None => None,
            Some((w, p2)) => if s[pos] == 0 {
                Some((SeekSpec::Start(w), p2))
            } else if s[pos] == 1 {
                Some((SeekSpec::End(w as i64), p2))
            } else {
                Some((SeekSpec::Current(w as i64), p2))
            },
        }
    } else {
        None
    }
}

/// An action on the wire: a variant tag, then its payload.
pub open spec fn enc_vfs_action(a: VfsActionView) -> Seq<u8> {
    match a {
        VfsActionView::CreateDrive => seq![0u8],
        VfsActionView::CreateDir => seq![1u8],
        VfsActionView::CreateDirAll => seq![2u8],
        VfsActionView::CreateFile => seq![3u8],
        VfsActionView::OpenFile => seq![4u8],
        VfsActionView::CloseFile => seq![5u8],
        VfsActionView::WriteAll => seq![6u8],
        VfsActionView::Write => seq![7u8],
        VfsActionView::ReWrite => seq![8u8],
        VfsActionView::WriteAt(o) => seq![9u8] + enc_u64(o),
        VfsActionView::Append => seq![10u8],
        VfsActionView::SyncAll => seq![11u8],
        VfsActionView::Read => seq![12u8],
        VfsActionView::ReadDir => seq![13u8],
        VfsActionView::ReadExact(l) => seq![14u8] + enc_u64(l),
        VfsActionView::ReadToEnd => seq![15u8],
        VfsActionView::ReadToString => seq![16u8],
        VfsActionView::Seek(sp) => seq![17u8] + enc_seek(sp),
        VfsActionView::RemoveFile => seq![18u8],
        VfsActionView::RemoveDir => seq![19u8],
        VfsActionView::RemoveDirAll => seq![20u8],
        VfsActionView::Rename(p) => seq![21u8] + enc_bytes(p),
        VfsActionView::Metadata => seq![22u8],
        VfsActionView::Len => seq![23u8],
        VfsActionView::SetLen(l) => seq![24u8] + enc_u64(l),
        VfsActionView::Hash => seq![25u8],
        VfsActionView::AddZip => seq![26u8],
    }
}

pub open spec fn plain_vfs_action(tag: u8) -> Option<VfsActionView> {
    if tag == 0 {
        Some(VfsActionView::CreateDrive)
    } else if tag == 1 {
        Some(VfsActionView::CreateDir)
    } else if tag == 2 {
        Some(VfsActionView::CreateDirAll)
    } else if tag == 3 {
        Some(VfsActionView::CreateFile)
    } else if tag == 4 {
        Some(VfsActionView::OpenFile)
    } else if tag == 5 {
        Some(VfsActionView::CloseFile)
    } else if tag == 6 {
        Some(VfsActionView::WriteAll)
    } else if tag == 7 {
        Some(VfsActionView::Write)
    } else if tag == 8 {
        Some(VfsActionView::ReWrite)
    } else if tag == 10 {
        Some(VfsActionView::Append)
    } else if tag == 11 {
        Some(VfsActionView::SyncAll)
    } else if tag == 12 {
        Some(VfsActionView::Read)
    } else if tag == 13 {
        Some(VfsActionView::ReadDir)
    } else if tag == 15 {
        Some(VfsActionView::ReadToEnd)
    } else if tag == 16 {
        Some(VfsActionView::ReadToString)
    } else if tag == 18 {
        Some(VfsActionView::RemoveFile)
    } else if tag == 19 {
        Some(VfsActionView::RemoveDir)
    } else if tag == 20 {
        Some(VfsActionView::RemoveDirAll)
    } else if tag == 22 {
        Some(VfsActionView::Metadata)
    } else if tag == 23 {
        Some(VfsActionView::Len)
    } else if tag == 25 {
        Some(VfsActionView::Hash)
    } else if tag == 26 {
        Some(VfsActionView::AddZip)
    } else {
        None
    }
}

pub open spec fn parse_vfs_action(s: Seq<u8>, pos: int) -> Option<(VfsActionView, int)> {
    if !(0 <= pos && pos < s.len()) {
        None
    } else {
        let tag = s[pos];
        match plain_vfs_action(tag) {
            Some(a) => Some((a, pos + 1)),
            None => if tag == 9 || tag == 14 || tag == 24 {
                match parse_u64(s, pos + 1) {
                    None => None,
                    Some((w, p2)) => if tag == 9 {
                        Some((VfsActionView::WriteAt(w), p2))
                    } else if tag == 14 {
                        Some((VfsActionView::ReadExact(w), p2))
                    } else {
                        Some((VfsActionView::SetLen(w), p2))
                    },
                }
            } else if tag == 17 {
                match parse_seek(s, pos + 1) {
                    None => None,
                    Some((sp, p2)) => Some((VfsActionView::Seek(sp), p2)),
                }
            } else if tag == 21 {
                match parse_bytes(s, pos + 1) {
                    None => None,
                    Some((p, p2)) => Some((VfsActionView::Rename(p), p2)),
                }
            } else {
                None
            },
        }
    }
}

/// A file system request on the wire: the path, then the action; the
/// whole body must be consumed.
pub open spec fn enc_vfs_request(path: Seq<u8>, a: VfsActionView) -> Seq<u8> {
    enc_bytes(path) + enc_vfs_action(a)
}

pub open spec fn parse_vfs_request(s: Seq<u8>) -> Option<(Seq<u8>, VfsActionView)> {
    match parse_bytes(s, 0) {
        None => None,
        Some((path, p1)) => match parse_vfs_action(s, p1) {
            None => None,
            Some((a, p2)) => if p2 == s.len() {
                Some((path, a))
            } else {
                None
            },
        },
    }
}

/// Encode a file system request body.
pub fn put_vfs_request(out: &mut Vec<u8>, r: &VfsRequest)
    ensures
        final(out)@ == old(out)@ + enc_vfs_request(r.path@, r.action@),
{
    put_bytes(out, &r.path);
    match &r.action {
        VfsAction::CreateDrive => out.push(0),
        VfsAction::CreateDir => out.push(1),
        VfsAction::CreateDirAll => out.push(2),
        VfsAction::CreateFile => out.push(3),
        VfsAction::OpenFile => out.push(4),
        VfsAction::CloseFile => out.push(5),
        VfsAction::WriteAll => out.push(6),
        VfsAction::Write => out.push(7),
        VfsAction::ReWrite => out.push(8),
        VfsAction::WriteAt(o) => {
            out.push(9);
            put_u64(out, *o);
        },
        VfsAction::Append => out.push(10),
        VfsAction::SyncAll => out.push(11),
        VfsAction::Read => out.push(12),
        VfsAction::ReadDir => out.push(13),
        VfsAction::ReadExact(l) => {
            out.push(14);
            put_u64(out, *l);
        },
        VfsAction::ReadToEnd => out.push(15),
        VfsAction::ReadToString => out.push(16),
        VfsAction::Seek(sp) => {
            out.push(17);
            match sp {
                SeekSpec::Start(o) => {
                    out.push(0);
                    put_u64(out, *o);
                },
                SeekSpec::End(o) => {
                    out.push(1);
                    put_u64(out, #[verifier::truncate] (*o as u64));
                },
                SeekSpec::Current(o) => {
                    out.push(2);
                    put_u64(out, #[verifier::truncate] (*o as u64));
                },
            }
        },
        VfsAction::RemoveFile => out.push(18),
        VfsAction::RemoveDir => out.push(19),
        VfsAction::RemoveDirAll => out.push(20),
        VfsAction::Rename(p) => {
            out.push(21);
            put_bytes(out, p);
        },
        VfsAction::Metadata => out.push(22),
        VfsAction::Len => out.push(23),
        VfsAction::SetLen(l) => {
            out.push(24);
            put_u64(out, *l);
        },
        VfsAction::Hash => out.push(25),
        VfsAction::AddZip => out.push(26),
    }
    proof {
        assert(out@ =~= old(out)@ + enc_vfs_request(r.path@, r.action@));
    }
}

/// Decode a file system request body; mirrors `parse_vfs_request`.
pub fn take_vfs_request(b: &Vec<u8>) -> (r: Option<VfsRequest>)
    ensures
        match r {
            Some(x) => parse_vfs_request(b@) == Some((x.path@, x.action@)),
            None => parse_vfs_request(b@) is None,
        },
{
    let (path, p1) = match take_bytes(b, 0) {
        None => {
            return None;
        },
        Some(x) => x,
    };
    if p1 >= b.len() {
        return None;
    }
    let tag = b[p1];
    let (action, p2): (VfsAction, usize) = if tag == 0 {
        (VfsAction::CreateDrive, p1 + 1)
    } else if tag == 1 {
        (VfsAction::CreateDir, p1 + 1)
    } else if tag == 2 {
        (VfsAction::CreateDirAll, p1 + 1)
    } else if tag == 3 {
        (VfsAction::CreateFile, p1 + 1)
    } else if tag == 4 {
        (VfsAction::OpenFile, p1 + 1)
    } else if tag == 5 {
        (VfsAction::CloseFile, p1 + 1)
    } else if tag == 6 {
        (VfsAction::WriteAll, p1 + 1)
    } else if tag == 7 {
        (VfsAction::Write, p1 + 1)
    } else if tag == 8 {
        (VfsAction::ReWrite, p1 + 1)
    } else if tag == 10 {
        (VfsAction::Append, p1 + 1)
    } else if tag == 11 {
        (VfsAction::SyncAll, p1 + 1)
    } else if tag == 12 {
        (VfsAction::Read, p1 + 1)
    } else if tag == 13 {
        (VfsAction::ReadDir, p1 + 1)
    } else if tag == 15 {
        (VfsAction::ReadToEnd, p1 + 1)
    } else if tag == 16 {
        (VfsAction::ReadToString, p1 + 1)
    } else if tag == 18 {
        (VfsAction::RemoveFile, p1 + 1)
    } else if tag == 19 {
        (VfsAction::RemoveDir, p1 + 1)
    } else if tag == 20 {
        (VfsAction::RemoveDirAll, p1 + 1)
    } else if tag == 22 {
        (VfsAction::Metadata, p1 + 1)
    } else if tag == 23 {
        (VfsAction::Len, p1 + 1)
    } else if tag == 25 {
        (VfsAction::Hash, p1 + 1)
    } else if tag == 26 {
        (VfsAction::AddZip, p1 + 1)
    } else if tag == 9 || tag == 14 || tag == 24 {
        match take_u64(b, p1 + 1) {
            None => {
                return None;
            },
            Some((w, p2)) => {
                if tag == 9 {
                    (VfsAction::WriteAt(w), p2)
                } else if tag == 14 {
                    (VfsAction::ReadExact(w), p2)
                } else {
                    (VfsAction::SetLen(w), p2)
                }
            },
        }
    } else if tag == 17 {
        if p1 + 1 >= b.len() {
            return None;
        }
        let sub = b[p1 + 1];
        if sub > 2 {
            return None;
        }
        match take_u64(b, p1 + 2) {
            None => {
                return None;
            },
            Some((w, p2)) => {
                let sp = if sub == 0 {
                    SeekSpec::Start(w)
                } else if sub == 1 {
                    SeekSpec::End(#[verifier::truncate] (w as i64))
                } else {
                    SeekSpec::Current(#[verifier::truncate] (w as i64))
                };
                (VfsAction::Seek(sp), p2)
            },
        }
    } else if tag == 21 {
        match take_bytes(b, p1 + 1) {
            None => {
                return None;
            },
            Some((p, p2)) => (VfsAction::Rename(p), p2),
        }
    } else {
        return None;
    };
    if p2 != b.len() {
        return None;
    }
    Some(VfsRequest { path, action })
}

/// Take a file system request apart at the envelope: reject
/// non-requests, and parse the body into a path and an action.
pub fn vfs_request_parse(km: &KernelMessage) -> (r: Result<VfsRequest, VfsError>)
    ensures
        km.message is Response ==> (r matches Err(e) && e is BadRequest),
        km.message matches crate::message::Message::Request(ref q) ==> (match parse_vfs_request(
            q.body@,
        ) {
            None => (r matches Err(e) && e is BadJson),
            Some((path, a)) => (r matches Ok(x) && x.path@ == path && x.action@ == a),
        }),
{
    let q = match &km.message {
        crate::message::Message::Response(_) => {
            return Err(VfsError::BadRequest);
        },
        crate::message::Message::Request(q) => q,
    };
    match take_vfs_request(&q.body) {
        None => Err(VfsError::BadJson),
        Some(x) => Ok(x),
    }
}

/// No byte of `s` is a path separator.
pub open spec fn slash_free(s: Seq<u8>) -> bool {
    forall|i: int| 0 <= i < s.len() ==> s[i] != 47
}

/// The canonical shape of a file system path: a slash, the owning
/// package id, a slash, the drive, and optionally a slash and the
/// rest of the path.
pub open spec fn pkg_drive_form(pkg: PackageIdView, drive: Seq<u8>, rest: Option<Seq<u8>>) -> Seq<
    u8,
> {
    seq![47u8] + pkg.package + seq![58u8] + pkg.publisher + seq![47u8] + drive + (match rest {
        Some(r) => seq![47u8] + r,
        None => Seq::empty(),
    })
}

/// A well-formed path head: valid package segments and a drive name
/// without separators.
pub open spec fn wf_pkg_drive(pkg: PackageIdView, drive: Seq<u8>) -> bool {
    valid_segment(pkg.package) && valid_segment(pkg.publisher) && slash_free(drive)
}

/// Positions of the separators in a canonical path.
pub proof fn lemma_pkg_drive_shape(pkg: PackageIdView, drive: Seq<u8>, rest: Option<Seq<u8>>)
    requires
        wf_pkg_drive(pkg, drive),
    ensures
        ({
            let s = pkg_drive_form(pkg, drive, rest);
            let c = 1 + pkg.package.len();
            let d = c + 1 + pkg.publisher.len();
            let e = d + 1 + drive.len();
            &&& s.len() == e + (match rest {
                Some(r) => 1 + r.len(),
                None => 0,
            })
            &&& s[0] == 47
            &&& s[c as int] == 58
            &&& s[d as int] == 47
            &&& (forall|k: int| 0 < k < c ==> s[k] != 58 && s[k] != 47)
            &&& (forall|k: int| c < k < d ==> s[k] != 58 && s[k] != 47)
            &&& (forall|k: int| d < k < e ==> s[k] != 47)
            &&& (rest is Some ==> s[e as int] == 47)
            &&& pkg.package == s.subrange(1, c as int)
            &&& pkg.publisher == s.subrange(c + 1 as int, d as int)
            &&& drive == s.subrange(d + 1 as int, e as int)
            &&& (match rest {
                Some(r) => r == s.subrange(e + 1 as int, s.len() as int),
                None => true,
            })
        }),
{
    let s = pkg_drive_form(pkg, drive, rest);
    let c = 1 + pkg.package.len() as int;
    let d = c + 1 + pkg.publisher.len() as int;
    let e = d + 1 + drive.len() as int;
    assert forall|k: int| 0 < k < c implies s[k] != 58 && s[k] != 47 by {
        assert(s[k] == pkg.package[k - 1]);
        assert(valid_segment_byte(pkg.package[k - 1]));
    }
    assert forall|k: int| c < k < d implies s[k] != 58 && s[k] != 47 by {
        assert(s[k] == pkg.publisher[k - c - 1]);
        assert(valid_segment_byte(pkg.publisher[k - c - 1]));
    }
    assert forall|k: int| d < k < e implies s[k] != 47 by {
        assert(s[k] == drive[k - d - 1]);
    }
    assert(pkg.package =~= s.subrange(1, c));
    assert(pkg.publisher =~= s.subrange(c + 1, d));
    assert(drive =~= s.subrange(d + 1, e));
    match rest {
        Some(r) => {
            assert(r =~= s.subrange(e + 1, s.len() as int));
        },
        None => {},
    }
}

/// First index of `b` in `v` at or after `from`.
pub fn find_byte(v: &Vec<u8>, from: usize, b: u8) -> (r: Option<usize>)
    requires
        from <= v@.len(),
    ensures
        match r {
            Some(i) => from <= i < v@.len() && v@[i as int] == b && (forall|j: int|
                from <= j < i ==> v@[j] != b),
            None => forall|j: int| from <= j < v@.len() ==> v@[j] != b,
        },
{
    let n: usize = v.len();
    let mut i: usize = from;
    while i < n
        invariant
            from <= i <= n,
            n == v@.len(),
            forall|j: int| from <= j < i ==> v@[j] != b,
        decreases n - i,
    {
        if v[i] == b {
            return Some(i);
        }
        i += 1;
    }
    None
}

/// Split a path into its owning package, its drive, and the rest.
///
/// Succeeds exactly on the canonical shape; the rest comes back
/// without its leading slash, or empty when the path stops at the
/// drive.
pub fn parse_package_and_drive(path: &Vec<u8>) -> (r: Result<
    (PackageId, Vec<u8>, Vec<u8>),
    VfsError,
>)
    ensures
        match r {
            Ok((pkg, drive, rest)) => wf_pkg_drive(pkg@, drive@) && (path@ == pkg_drive_form(
                pkg@,
                drive@,
                Some(rest@),
            ) || (rest@.len() == 0 && path@ == pkg_drive_form(pkg@, drive@, None))),
            Err(e) => e is ParseError && (forall|pkg: PackageIdView, drive: Seq<u8>|
                wf_pkg_drive(pkg, drive) ==> (forall|rest: Seq<u8>|
                    path@ != pkg_drive_form(pkg, drive, Some(rest))) && path@ != pkg_drive_form(
                    pkg,
                    drive,
                    None,
                )),
        },
{
    let n: usize = path.len();
    let bad = Err(VfsError::ParseError);
    if n == 0 || { let b0 = path[0]; b0 != 47 } {
        proof {
            assert forall|pkg: PackageIdView, drive: Seq<u8>| wf_pkg_drive(pkg, drive) implies (
            forall|rest: Seq<u8>| path@ != pkg_drive_form(pkg, drive, Some(rest))) && path@
                != pkg_drive_form(pkg, drive, None) by {
                assert forall|rest: Seq<u8>| path@ != pkg_drive_form(pkg, drive, Some(rest)) by {
                    lemma_pkg_drive_shape(pkg, drive, Some(rest));
                }
                lemma_pkg_drive_shape(pkg, drive, None);
            }
        }
        return bad;
    }
    let colon = match find_byte(path, 1, 58) {
        Some(i) => i,
        None => {
            proof {
                assert forall|pkg: PackageIdView, drive: Seq<u8>| wf_pkg_drive(pkg, drive) implies (
                forall|rest: Seq<u8>| path@ != pkg_drive_form(pkg, drive, Some(rest))) && path@
                    != pkg_drive_form(pkg, drive, None) by {
                    assert forall|rest: Seq<u8>|
                        path@ != pkg_drive_form(pkg, drive, Some(rest)) by {
                        lemma_pkg_drive_shape(pkg, drive, Some(rest));
                        if path@ == pkg_drive_form(pkg, drive, Some(rest)) {
                            assert(path@[1 + pkg.package.len() as int] == 58);
                        }
                    }
                    lemma_pkg_drive_shape(pkg, drive, None);
                    if path@ == pkg_drive_form(pkg, drive, None) {
                        assert(path@[1 + pkg.package.len() as int] == 58);
                    }
                }
            }
            return bad;
        },
    };
    let slash1 = match find_byte(path, 1, 47) {
        Some(i) => i,
        None => {
            proof {
                assert forall|pkg: PackageIdView, drive: Seq<u8>| wf_pkg_drive(pkg, drive) implies (
                forall|rest: Seq<u8>| path@ != pkg_drive_form(pkg, drive, Some(rest))) && path@
                    != pkg_drive_form(pkg, drive, None) by {
                    assert forall|rest: Seq<u8>|
                        path@ != pkg_drive_form(pkg, drive, Some(rest)) by {
                        lemma_pkg_drive_shape(pkg, drive, Some(rest));
                        if path@ == pkg_drive_form(pkg, drive, Some(rest)) {
                            assert(path@[2 + pkg.package.len() + pkg.publisher.len() as int] == 47);
                        }
                    }
                    lemma_pkg_drive_shape(pkg, drive, None);
                    if path@ == pkg_drive_form(pkg, drive, None) {
                        assert(path@[2 + pkg.package.len() + pkg.publisher.len() as int] == 47);
                    }
                }
            }
            return bad;
        },
    };
    if colon >= slash1 {
        proof {
            assert forall|pkg: PackageIdView, drive: Seq<u8>| wf_pkg_drive(pkg, drive) implies (
            forall|rest: Seq<u8>| path@ != pkg_drive_form(pkg, drive, Some(rest))) && path@
                != pkg_drive_form(pkg, drive, None) by {
                assert forall|rest: Seq<u8>| path@ != pkg_drive_form(pkg, drive, Some(rest)) by {
                    lemma_pkg_drive_shape(pkg, drive, Some(rest));
                    if path@ == pkg_drive_form(pkg, drive, Some(rest)) {
                        assert(path@[1 + pkg.package.len() as int] == 58);
                        assert(path@[2 + pkg.package.len() + pkg.publisher.len() as int] == 47);
                    }
                }
                lemma_pkg_drive_shape(pkg, drive, None);
                if path@ == pkg_drive_form(pkg, drive, None) {
                    assert(path@[1 + pkg.package.len() as int] == 58);
                    assert(path@[2 + pkg.package.len() + pkg.publisher.len() as int] == 47);
                }
            }
        }
        return bad;
    }
    let package = copy_range(path, 1, colon);
    let publisher = copy_range(path, colon + 1, slash1);
    let ok_pkg = crate::ids::check_segment(&package) && crate::ids::check_segment(&publisher);
    let pkg = PackageId { package, publisher };
    if !ok_pkg {
        proof {
            assert forall|p2: PackageIdView, d2: Seq<u8>| wf_pkg_drive(p2, d2) implies (forall|
                rest2: Seq<u8>,
            |
                path@ != pkg_drive_form(p2, d2, Some(rest2))) && path@ != pkg_drive_form(
                p2,
                d2,
                None,
            ) by {
                assert forall|rest2: Seq<u8>| path@ != pkg_drive_form(p2, d2, Some(rest2)) by {
                    lemma_pkg_drive_shape(p2, d2, Some(rest2));
                    if path@ == pkg_drive_form(p2, d2, Some(rest2)) {
                        assert(path@[1 + p2.package.len() as int] == 58);
                        assert(path@[2 + p2.package.len() + p2.publisher.len() as int] == 47);
                        assert(1 + p2.package.len() == colon as int);
                        assert(2 + p2.package.len() + p2.publisher.len() == slash1 as int);
                        assert(p2.package =~= pkg@.package);
                        assert(p2.publisher =~= pkg@.publisher);
                    }
                }
                lemma_pkg_drive_shape(p2, d2, None);
                if path@ == pkg_drive_form(p2, d2, None) {
                    assert(path@[1 + p2.package.len() as int] == 58);
                    assert(path@[2 + p2.package.len() + p2.publisher.len() as int] == 47);
                    assert(1 + p2.package.len() == colon as int);
                    assert(2 + p2.package.len() + p2.publisher.len() == slash1 as int);
                    assert(p2.package =~= pkg@.package);
                    assert(p2.publisher =~= pkg@.publisher);
                }
            }
        }
        return bad;
    }
    match find_byte(path, slash1 + 1, 47) {
        Some(slash2) => {
            let drive = copy_range(path, slash1 + 1, slash2);
            let rest = copy_range(path, slash2 + 1, n);
            proof {
                assert(slash_free(drive@)) by {
                    assert forall|k: int| 0 <= k < drive@.len() implies drive@[k] != 47 by {
                        assert(drive@[k] == path@[slash1 + 1 + k]);
                    }
                }
                assert(path@ =~= pkg_drive_form(pkg@, drive@, Some(rest@)));
            }
            Ok((pkg, drive, rest))
        },
        None => {
            let drive = copy_range(path, slash1 + 1, n);
            proof {
                assert(slash_free(drive@)) by {
                    assert forall|k: int| 0 <= k < drive@.len() implies drive@[k] != 47 by {
                        assert(drive@[k] == path@[slash1 + 1 + k]);
                    }
                }
                assert(path@ =~= pkg_drive_form(pkg@, drive@, None));
            }
            Ok((pkg, drive, Vec::new()))
        },
    }
}

/// Actions that write to a drive and need its write token.
pub open spec fn needs_write(a: VfsAction) -> bool {
    match a {
        VfsAction::CreateDir => true,
        VfsAction::CreateDirAll => true,
        VfsAction::CreateFile => true,
        VfsAction::OpenFile => true,
        VfsAction::CloseFile => true,
        VfsAction::WriteAll => true,
        VfsAction::Write => true,
        VfsAction::ReWrite => true,
        VfsAction::WriteAt(_) => true,
        VfsAction::Append => true,
        VfsAction::SyncAll => true,
        VfsAction::RemoveFile => true,
        VfsAction::RemoveDir => true,
        VfsAction::RemoveDirAll => true,
        VfsAction::Rename(_) => true,
        VfsAction::AddZip => true,
        VfsAction::SetLen(_) => true,
        _ => false,
    }
}

/// Actions that read from a drive and need its read token.
pub open spec fn needs_read(a: VfsAction) -> bool {
    match a {
        VfsAction::Read => true,
        VfsAction::ReadDir => true,
        VfsAction::ReadExact(_) => true,
        VfsAction::ReadToEnd => true,
        VfsAction::ReadToString => true,
        VfsAction::Seek(_) => true,
        VfsAction::Hash => true,
        VfsAction::Metadata => true,
        VfsAction::Len => true,
        _ => false,
    }
}

/// A source whose package and publisher own the drive bypasses the
/// capability check.
pub open spec fn owns_drive(source: AddressView, pkg: PackageIdView) -> bool {
    source.process.package == pkg.package && source.process.publisher == pkg.publisher
}

fn action_needs_write(a: &VfsAction) -> (r: bool)
    ensures
        r == needs_write(*a),
{
    match a {
        VfsAction::CreateDir => true,
        VfsAction::CreateDirAll => true,
        VfsAction::CreateFile => true,
        VfsAction::OpenFile => true,
        VfsAction::CloseFile => true,
        VfsAction::WriteAll => true,
        VfsAction::Write => true,
        VfsAction::ReWrite => true,
        VfsAction::WriteAt(_) => true,
        VfsAction::Append => true,
        VfsAction::SyncAll => true,
        VfsAction::RemoveFile => true,
        VfsAction::RemoveDir => true,
        VfsAction::RemoveDirAll => true,
        VfsAction::Rename(_) => true,
        VfsAction::AddZip => true,
        VfsAction::SetLen(_) => true,
        _ => false,
    }
}

fn action_needs_read(a: &VfsAction) -> (r: bool)
    ensures
        r == needs_read(*a),
{
    match a {
        VfsAction::Read => true,
        VfsAction::ReadDir => true,
        VfsAction::ReadExact(_) => true,
        VfsAction::ReadToEnd => true,
        VfsAction::ReadToString => true,
        VfsAction::Seek(_) => true,
        VfsAction::Hash => true,
        VfsAction::Metadata => true,
        VfsAction::Len => true,
        _ => false,
    }
}

/// Enforce the capability an action requires on a drive. A source
/// owning the drive bypasses the check. Creating a drive outside
/// one's own package needs the root token, and a created drive's
/// read and write tokens are granted to the creator.
pub fn vfs_check_caps(
    oracle: &mut CapOracle,
    source: &Address,
    our_node: &Vec<u8>,
    vfs_pid: &ProcessId,
    action: &VfsAction,
    pkg: &PackageId,
    full_drive: &Vec<u8>,
) -> (r: Result<(), VfsError>)
    ensures
        needs_write(*action) ==> final(oracle).items@ == old(oracle).items@ && (r is Ok <==> (
        owns_drive(source@, pkg@) || old(oracle).holds(
            source@.process,
            vfs_cap_of(our_node@, vfs_pid@, write_params(full_drive@)),
        ))),
        needs_read(*action) ==> final(oracle).items@ == old(oracle).items@ && (r is Ok <==> (
        owns_drive(source@, pkg@) || old(oracle).holds(
            source@.process,
            vfs_cap_of(our_node@, vfs_pid@, read_params(full_drive@)),
        ))),
        action is CreateDrive ==> ((r is Ok <==> (owns_drive(source@, pkg@) || old(oracle).holds(
            source@.process,
            vfs_cap_of(our_node@, vfs_pid@, root_params()),
        ))) && (r is Ok ==> forall|o: ProcessIdView, c: CapabilityView|
            final(oracle).holds(o, c) <==> (old(oracle).holds(o, c) || (o == source@.process && (c
                == vfs_cap_of(our_node@, vfs_pid@, read_params(full_drive@)) || c == vfs_cap_of(
                our_node@,
                vfs_pid@,
                write_params(full_drive@),
            ))))) && (r is Err ==> final(oracle).items@ == old(oracle).items@)),
        r is Err ==> r->Err_0 is NoCap,
{
    let bypass = crate::bytes_eq(&source.process.package, &pkg.package) && crate::bytes_eq(
        &source.process.publisher,
        &pkg.publisher,
    );
    if action_needs_write(action) {
        if bypass {
            return Ok(());
        }
        let cap = Capability {
            issuer: Address { node: clone_bytes(our_node), process: vfs_pid.clone_pid() },
            params: make_kind_drive_params(true, full_drive),
        };
        proof {
            assert(cap@ =~= vfs_cap_of(our_node@, vfs_pid@, write_params(full_drive@)));
        }
        if oracle.has(&source.process, &cap) {
            Ok(())
        } else {
            Err(VfsError::NoCap)
        }
    } else if action_needs_read(action) {
        if bypass {
            return Ok(());
        }
        let cap = Capability {
            issuer: Address { node: clone_bytes(our_node), process: vfs_pid.clone_pid() },
            params: make_kind_drive_params(false, full_drive),
        };
        proof {
            assert(cap@ =~= vfs_cap_of(our_node@, vfs_pid@, read_params(full_drive@)));
        }
        if oracle.has(&source.process, &cap) {
            Ok(())
        } else {
            Err(VfsError::NoCap)
        }
    } else {
        let allowed = if bypass {
            true
        } else {
            let root = Capability {
                issuer: Address { node: clone_bytes(our_node), process: vfs_pid.clone_pid() },
                params: make_root_params(),
            };
            proof {
                assert(root@ =~= vfs_cap_of(our_node@, vfs_pid@, root_params()));
            }
            oracle.has(&source.process, &root)
        };
        if !allowed {
            return Err(VfsError::NoCap);
        }
        let read_cap = Capability {
            issuer: Address { node: clone_bytes(our_node), process: vfs_pid.clone_pid() },
            params: make_kind_drive_params(false, full_drive),
        };
        proof {
            assert(read_cap@ =~= vfs_cap_of(our_node@, vfs_pid@, read_params(full_drive@)));
        }
        oracle.add_local(&source.process, &read_cap);
        let write_cap = Capability {
            issuer: Address { node: clone_bytes(our_node), process: vfs_pid.clone_pid() },
            params: make_kind_drive_params(true, full_drive),
        };
        proof {
            assert(write_cap@ =~= vfs_cap_of(our_node@, vfs_pid@, write_params(full_drive@)));
        }
        oracle.add_local(&source.process, &write_cap);
        Ok(())
    }
}

/// What the host's file operation came back with.
pub enum FsOutcome {
    /// The operation completed with nothing to return.
    Completed,
    /// The operation produced these bytes.
    Bytes(Vec<u8>),
    /// A directory listing.
    Entries(Vec<DirEntry>),
    /// File metadata.
    Meta(FileMetadata),
    /// A length.
    Length(u64),
    /// The operation failed in the host's words.
    Failed(Vec<u8>),
}

/// Turn the host's outcome into the file system's reply. A hash
/// answer is the BLAKE3 digest of the file's bytes read from the
/// start; read answers ride back as the response payload.
pub fn vfs_reply_of(action: &VfsAction, outcome: FsOutcome) -> (r: Result<
    (VfsResponse, Option<Vec<u8>>),
    VfsError,
>)
    ensures
        match outcome {
            FsOutcome::Failed(e) => r == Result::<(VfsResponse, Option<Vec<u8>>), VfsError>::Err(
                VfsError::IOError { error: e },
            ),
            FsOutcome::Bytes(b) => match *action {
                VfsAction::Hash => r is Ok && r->Ok_0.1 is None && r->Ok_0.0 is Hash
                    && r->Ok_0.0->Hash_0@ == blake3_of(b@),
                VfsAction::Read | VfsAction::ReadExact(_) | VfsAction::ReadToEnd => r
                    == Result::<(VfsResponse, Option<Vec<u8>>), VfsError>::Ok(
                    (VfsResponse::Read, Some(b)),
                ),
                VfsAction::ReadToString => r == Result::<
                    (VfsResponse, Option<Vec<u8>>),
                    VfsError,
                >::Ok((VfsResponse::ReadToString(b), None)),
                _ => r == Result::<(VfsResponse, Option<Vec<u8>>), VfsError>::Err(
                    VfsError::BadRequest,
                ),
            },
            FsOutcome::Entries(es) => match *action {
                VfsAction::ReadDir => r == Result::<(VfsResponse, Option<Vec<u8>>), VfsError>::Ok(
                    (VfsResponse::ReadDir(es), None),
                ),
                _ => r == Result::<(VfsResponse, Option<Vec<u8>>), VfsError>::Err(
                    VfsError::BadRequest,
                ),
            },
            FsOutcome::Meta(m) => match *action {
                VfsAction::Metadata => r == Result::<(VfsResponse, Option<Vec<u8>>), VfsError>::Ok(
                    (VfsResponse::Metadata(m), None),
                ),
                _ => r == Result::<(VfsResponse, Option<Vec<u8>>), VfsError>::Err(
                    VfsError::BadRequest,
                ),
            },
            FsOutcome::Length(l) => match *action {
                VfsAction::Len => r == Result::<(VfsResponse, Option<Vec<u8>>), VfsError>::Ok(
                    (VfsResponse::Len(l), None),
                ),
                _ => r == Result::<(VfsResponse, Option<Vec<u8>>), VfsError>::Err(
                    VfsError::BadRequest,
                ),
            },
            FsOutcome::Completed => if needs_read(*action) {
                r == Result::<(VfsResponse, Option<Vec<u8>>), VfsError>::Err(VfsError::BadRequest)
                    || (action matches VfsAction::Seek(_) && r == Result::<
                    (VfsResponse, Option<Vec<u8>>),
                    VfsError,
                >::Ok((VfsResponse::Done, None)))
            } else {
                r == Result::<(VfsResponse, Option<Vec<u8>>), VfsError>::Ok(
                    (VfsResponse::Done, None),
                )
            },
        },
{
    match outcome {
        FsOutcome::Failed(e) => Err(VfsError::IOError { error: e }),
        FsOutcome::Bytes(b) => match action {
            VfsAction::Hash => {
                let digest = hash_bytes(&b);
                Ok((VfsResponse::Hash(digest), None))
            },
            VfsAction::Read => Ok((VfsResponse::Read, Some(b))),
            VfsAction::ReadExact(_) => Ok((VfsResponse::Read, Some(b))),
            VfsAction::ReadToEnd => Ok((VfsResponse::Read, Some(b))),
            VfsAction::ReadToString => Ok((VfsResponse::ReadToString(b), None)),
            _ => Err(VfsError::BadRequest),
        },
        FsOutcome::Entries(es) => match action {
            VfsAction::ReadDir => Ok((VfsResponse::ReadDir(es), None)),
            _ => Err(VfsError::BadRequest),
        },
        FsOutcome::Meta(m) => match action {
            VfsAction::Metadata => Ok((VfsResponse::Metadata(m), None)),
            _ => Err(VfsError::BadRequest),
        },
        FsOutcome::Length(l) => match action {
            VfsAction::Len => Ok((VfsResponse::Len(l), None)),
            _ => Err(VfsError::BadRequest),
        },
        FsOutcome::Completed => match action {
            VfsAction::Seek(_) => Ok((VfsResponse::Done, None)),
            _ => {
                if action_needs_read(action) {
                    Err(VfsError::BadRequest)
                } else {
                    Ok((VfsResponse::Done, None))
                }
            },
        },
    }
}

/// One entry pulled out of a zip archive: its name inside the
/// archive, what it is, and its bytes when it is a file.
pub struct ZipEntry {
    pub name: Vec<u8>,
    pub is_file: bool,
    pub is_dir: bool,
    pub data: Vec<u8>,
}

/// The model of one archive entry.
pub open spec fn zip_entry_view(e: ZipEntry) -> (Seq<u8>, bool, bool, Seq<u8>) {
    (e.name@, e.is_file, e.is_dir, e.data@)
}

/// The models of a vector of archive entries.
pub open spec fn zip_entries_view(s: Seq<ZipEntry>) -> Seq<(Seq<u8>, bool, bool, Seq<u8>)> {
    s.map_values(|e: ZipEntry| zip_entry_view(e))
}

/// What the zip crate reads out of an archive's bytes: the entries in
/// archive order, or nothing when the bytes are not an archive; a
/// function of the bytes alone.
pub uninterp spec fn zip_entries_of(bytes: Seq<u8>) -> Option<Seq<(Seq<u8>, bool, bool, Seq<u8>)>>;

/// Relies on zip's ZipArchive: reading an archive from bytes and
/// walking its entries by index yields each entry's name, kind and
/// contents, all determined by the bytes alone.
#[verifier::external_body]
fn read_zip_archive(bytes: &Vec<u8>) -> (r: Option<Vec<ZipEntry>>)
    ensures
        r is Some <==> zip_entries_of(bytes@) is Some,
        r is Some ==> zip_entries_view(r.unwrap()@) == zip_entries_of(bytes@).unwrap(),
{
    let cursor = std::io::Cursor::new(bytes.as_slice());
    let mut archive = zip::ZipArchive::new(cursor).ok()?;
    let mut out = Vec::new();
    for i in 0..archive.len() {
        let mut f = archive.by_index(i).ok()?;
        let name = f.name().as_bytes().to_vec();
        let is_file = f.is_file();
        let is_dir = f.is_dir();
        let mut data = Vec::new();
        if is_file {
            std::io::Read::read_to_end(&mut f, &mut data).ok()?;
        }
        out.push(ZipEntry { name, is_file, is_dir, data });
    }
    Some(out)
}

/// One planned step of unpacking an archive under a root path.
pub enum ZipFileOp {
    MakeDir(Vec<u8>),
    WriteFile { path: Vec<u8>, data: Vec<u8> },
}

/// A root path joined with an entry name.
pub open spec fn joined_path(root: Seq<u8>, name: Seq<u8>) -> Seq<u8> {
    root + seq![47u8] + name
}

fn join_path(root: &Vec<u8>, name: &Vec<u8>) -> (r: Vec<u8>)
    ensures
        r@ == joined_path(root@, name@),
{
    let mut out = clone_bytes(root);
    out.push(47);
    push_bytes(&mut out, name);
    proof {
        assert(out@ =~= joined_path(root@, name@));
    }
    out
}

/// Plan the unpacking of a zip payload under a root path: one write
/// per file entry, one directory per directory entry, in archive
/// order. The payload must say it is a zip; entries that are neither
/// file nor directory reject the archive.
pub fn plan_zip_extract(root: &Vec<u8>, payload: &LazyLoadBlob) -> (r: Result<
    Vec<ZipFileOp>,
    VfsError,
>)
    ensures
        (match payload.mime {
            Some(ref m) => m@ != zip_mime(),
            None => true,
        }) ==> r == Result::<Vec<ZipFileOp>, VfsError>::Err(VfsError::BadRequest),
        (match payload.mime {
            Some(ref m) => m@ == zip_mime(),
            None => false,
        }) ==> (match zip_entries_of(payload.bytes@) {
            None => r == Result::<Vec<ZipFileOp>, VfsError>::Err(VfsError::ParseError),
            Some(es) => {
                &&& (r is Ok <==> (forall|j: int|
                    0 <= j < es.len() ==> (#[trigger] es[j]).1 || es[j].2))
                &&& (r is Err && !(forall|j: int| 0 <= j < es.len() ==> (#[trigger] es[j]).1
                    || es[j].2) ==> r->Err_0 is CreateDirError)
                &&& (r is Ok ==> r->Ok_0@.len() == es.len() && (forall|j: int|
                    0 <= j < es.len() ==> ((#[trigger] es[j]).1 ==> r->Ok_0@[j] is WriteFile
                        && r->Ok_0@[j]->WriteFile_path@ == joined_path(root@, es[j].0)
                        && r->Ok_0@[j]->WriteFile_data@ == es[j].3) && (!es[j].1 && es[j].2
                        ==> r->Ok_0@[j] is MakeDir && r->Ok_0@[j]->MakeDir_0@ == joined_path(
                        root@,
                        es[j].0,
                    ))))
            },
        }),
{
    let mime_ok = match &payload.mime {
        Some(m) => is_zip_mime(m),
        None => false,
    };
    if !mime_ok {
        return Err(VfsError::BadRequest);
    }
    let entries = match read_zip_archive(&payload.bytes) {
        Some(es) => es,
        None => {
            return Err(VfsError::ParseError);
        },
    };
    proof {
        assert(zip_entries_of(payload.bytes@).unwrap() =~= zip_entries_view(entries@));
    }
    plan_zip_entries(root, &entries)
}

/// Plan the steps for already-read archive entries, in order.
fn plan_zip_entries(root: &Vec<u8>, entries: &Vec<ZipEntry>) -> (r: Result<Vec<ZipFileOp>, VfsError>)
    ensures
        ({
            let es = zip_entries_view(entries@);
            &&& (r is Ok <==> (forall|j: int|
                0 <= j < es.len() ==> (#[trigger] es[j]).1 || es[j].2))
            &&& (r is Err ==> r->Err_0 is CreateDirError)
            &&& (r is Ok ==> r->Ok_0@.len() == es.len() && (forall|j: int|
                0 <= j < es.len() ==> ((#[trigger] es[j]).1 ==> r->Ok_0@[j] is WriteFile
                    && r->Ok_0@[j]->WriteFile_path@ == joined_path(root@, es[j].0)
                    && r->Ok_0@[j]->WriteFile_data@ == es[j].3) && (!es[j].1 && es[j].2
                    ==> r->Ok_0@[j] is MakeDir && r->Ok_0@[j]->MakeDir_0@ == joined_path(
                    root@,
                    es[j].0,
                ))))
        }),
{
    let ghost es = zip_entries_view(entries@);
    let mut out: Vec<ZipFileOp> = Vec::new();
    let n: usize = entries.len();
    let mut i: usize = 0;
    while i < n
        invariant
            n == entries@.len(),
            i <= n,
            es == zip_entries_view(entries@),
            es.len() == n,
            out@.len() == i,
            forall|j: int| 0 <= j < i ==> (#[trigger] es[j]).1 || es[j].2,
            forall|j: int|
                0 <= j < i ==> ((#[trigger] es[j]).1 ==> out@[j] is WriteFile
                    && out@[j]->WriteFile_path@ == joined_path(root@, es[j].0)
                    && out@[j]->WriteFile_data@ == es[j].3) && (!es[j].1 && es[j].2 ==> out@[j]
                    is MakeDir && out@[j]->MakeDir_0@ == joined_path(root@, es[j].0)),
        decreases n - i,
    {
        let entry = &entries[i];
        proof {
            assert(es[i as int] == zip_entry_view(entries@[i as int]));
        }
        if entry.is_file {
            let path = join_path(root, &entry.name);
            out.push(ZipFileOp::WriteFile { path, data: clone_bytes(&entry.data) });
        } else if entry.is_dir {
            out.push(ZipFileOp::MakeDir(join_path(root, &entry.name)));
        } else {
            proof {
                assert(!(forall|j: int|
                    0 <= j < es.len() ==> (#[trigger] es[j]).1 || es[j].2)) by {
                    assert(!(es[i as int].1 || es[i as int].2));
                }
            }
            return Err(VfsError::CreateDirError);
        }
        i += 1;
    }
    Ok(out)
}

/// The bytes of `application/zip`.
pub open spec fn zip_mime() -> Seq<u8> {
    seq![
        97u8,
        112u8,
        112u8,
        108u8,
        105u8,
        99u8,
        97u8,
        116u8,
        105u8,
        111u8,
        110u8,
        47u8,
        122u8,
        105u8,
        112u8,
    ]
}

fn is_zip_mime(m: &Vec<u8>) -> (r: bool)
    ensures
        r == (m@ == zip_mime()),
{
    let mut expect: Vec<u8> = Vec::new();
    expect.push(97);
    expect.push(112);
    expect.push(112);
    expect.push(108);
    expect.push(105);
    expect.push(99);
    expect.push(97);
    expect.push(116);
    expect.push(105);
    expect.push(111);
    expect.push(110);
    expect.push(47);
    expect.push(122);
    expect.push(105);
    expect.push(112);
    proof {
        assert(expect@ =~= zip_mime());
    }
    crate::bytes_eq(m, &expect)
}

/// One source's pending operations, oldest first.
pub struct SourceQueue {
    pub source: ProcessId,
    pub items: Vec<KernelMessage>,
}

/// Per-source operation queues: one source's operations are worked
/// in the order it issued them, so it observes each response before
/// the next operation's.
pub struct VfsQueues {
    pub queues: Vec<SourceQueue>,
}

/// The pending operations of one source, oldest first.
pub open spec fn queue_of(qs: Seq<SourceQueue>, pid: ProcessIdView) -> Seq<KernelMessage>
    decreases qs.len(),
{
    if qs.len() == 0 {
        Seq::empty()
    } else if qs[0].source@ == pid {
        qs[0].items@
    } else {
        queue_of(qs.drop_first(), pid)
    }
}

/// One queue per source.
pub open spec fn queues_wf(qs: Seq<SourceQueue>) -> bool {
    forall|i: int, j: int|
        0 <= i < j < qs.len() ==> (#[trigger] qs[i]).source@ != (#[trigger] qs[j]).source@
}

impl VfsQueues {
    pub open spec fn wf(&self) -> bool {
        queues_wf(self.queues@)
    }

    pub fn new() -> (r: VfsQueues)
        ensures
            r.wf(),
            forall|p: ProcessIdView| queue_of(r.queues@, p) == Seq::<KernelMessage>::empty(),
    {
        VfsQueues { queues: Vec::new() }
    }

    /// Enqueue an arriving operation behind its source's earlier
    /// ones; no other source's queue moves.
    pub fn push_km(&mut self, km: KernelMessage)
        requires
            old(self).wf(),
        ensures
            final(self).wf(),
            queue_of(final(self).queues@, km.source@.process) == queue_of(
                old(self).queues@,
                km.source@.process,
            ).push(km),
            forall|p: ProcessIdView|
                p != km.source@.process ==> queue_of(final(self).queues@, p) == queue_of(
                    old(self).queues@,
                    p,
                ),
    {
        let n: usize = self.queues.len();
        let mut i: usize = 0;
        while i < n
            invariant
                *self == *old(self),
                old(self).wf(),
                n == self.queues@.len(),
                i <= n,
                forall|j: int| 0 <= j < i ==> (#[trigger] self.queues@[j]).source@ != km.source@.process,
            decreases n - i,
        {
            let hit = self.queues[i].source.eq_pid(&km.source.process);
            if hit {
                let ghost before = self.queues@;
                let mut q = self.queues.remove(i);
                q.items.push(km);
                let ghost qg = q;
                self.queues.insert(i, q);
                proof {
                    assert(self.queues@ =~= before.update(i as int, qg));
                    lemma_queue_of_at(before, i as int, km.source@.process);
                    lemma_queue_of_update(before, i as int, qg, km.source@.process);
                    assert forall|p: ProcessIdView|
                        p != km.source@.process implies queue_of(self.queues@, p) == queue_of(
                        before,
                        p,
                    ) by {
                        lemma_queue_of_update_other(before, i as int, qg, p);
                    }
                    assert forall|a: int, b: int|
                        0 <= a < b < self.queues@.len() implies (
                    #[trigger] self.queues@[a]).source@ != (#[trigger] self.queues@[b]).source@ by {
                        assert(before[a].source@ != before[b].source@);
                    }
                }
                return ;
            }
            i += 1;
        }
        let ghost before = self.queues@;
        let ghost pid = km.source@.process;
        let q = SourceQueue { source: km.source.process.clone_pid(), items: {
            let mut v: Vec<KernelMessage> = Vec::new();
            v.push(km);
            v
        } };
        let ghost qg = q;
        self.queues.push(q);
        proof {
            lemma_queue_of_absent(before, pid);
            lemma_queue_of_push_new(before, qg, pid);
            assert(queue_of(self.queues@, pid) =~= queue_of(before, pid).push(km));
            assert forall|p: ProcessIdView| p != pid implies queue_of(self.queues@, p) == queue_of(
                before,
                p,
            ) by {
                lemma_queue_of_push_other(before, qg, p);
            }
            assert forall|a: int, b: int| 0 <= a < b < self.queues@.len() implies (
            #[trigger] self.queues@[a]).source@ != (#[trigger] self.queues@[b]).source@ by {
                if b < before.len() {
                    assert(before[a].source@ != before[b].source@);
                } else {
                    assert(self.queues@[b].source@ == pid);
                    assert(before[a].source@ != pid);
                }
            }
        }
    }

    /// Take the oldest pending operation of a source, if any.
    pub fn pop_km(&mut self, source: &ProcessId) -> (r: Option<KernelMessage>)
        requires
            old(self).wf(),
        ensures
            final(self).wf(),
            match r {
                None => queue_of(old(self).queues@, source@).len() == 0 && final(self).queues@
                    == old(self).queues@,
                Some(km) => queue_of(old(self).queues@, source@).len() > 0 && km == queue_of(
                    old(self).queues@,
                    source@,
                )[0] && queue_of(final(self).queues@, source@) == queue_of(
                    old(self).queues@,
                    source@,
                ).drop_first() && (forall|p: ProcessIdView|
                    p != source@ ==> queue_of(final(self).queues@, p) == queue_of(
                        old(self).queues@,
                        p,
                    )),
            },
    {
        let n: usize = self.queues.len();
        let mut i: usize = 0;
        while i < n
            invariant
                *self == *old(self),
                old(self).wf(),
                n == self.queues@.len(),
                i <= n,
                forall|j: int| 0 <= j < i ==> (#[trigger] self.queues@[j]).source@ != source@,
            decreases n - i,
        {
            let hit = self.queues[i].source.eq_pid(source);
            if hit {
                proof {
                    lemma_queue_of_at(self.queues@, i as int, source@);
                }
                if self.queues[i].items.len() == 0 {
                    return None;
                }
                let ghost before = self.queues@;
                let mut q = self.queues.remove(i);
                let km = q.items.remove(0);
                let ghost qg = q;
                self.queues.insert(i, q);
                proof {
                    assert(self.queues@ =~= before.update(i as int, qg));
                    assert(qg.items@ =~= before[i as int].items@.drop_first());
                    lemma_queue_of_update(before, i as int, qg, source@);
                    assert forall|p: ProcessIdView| p != source@ implies queue_of(
                        self.queues@,
                        p,
                    ) == queue_of(before, p) by {
                        lemma_queue_of_update_other(before, i as int, qg, p);
                    }
                    assert forall|a: int, b: int|
                        0 <= a < b < self.queues@.len() implies (
                    #[trigger] self.queues@[a]).source@ != (#[trigger] self.queues@[b]).source@ by {
                        assert(before[a].source@ != before[b].source@);
                    }
                }
                return Some(km);
            }
            i += 1;
        }
        proof {
            lemma_queue_of_absent(self.queues@, source@);
        }
        None
    }
}

/// With one queue per source, the queue at an index is the lookup
/// result for its source.
proof fn lemma_queue_of_at(qs: Seq<SourceQueue>, i: int, pid: ProcessIdView)
    requires
        queues_wf(qs),
        0 <= i < qs.len(),
        qs[i].source@ == pid,
    ensures
        queue_of(qs, pid) == qs[i].items@,
    decreases qs.len(),
{
    if i == 0 {
    } else {
        assert(qs[0].source@ != qs[i].source@);
        assert(queues_wf(qs.drop_first())) by {
            assert forall|a: int, b: int| 0 <= a < b < qs.drop_first().len() implies (
            #[trigger] qs.drop_first()[a]).source@ != (#[trigger] qs.drop_first()[b]).source@ by {
                assert(qs.drop_first()[a] == qs[a + 1]);
                assert(qs.drop_first()[b] == qs[b + 1]);
            }
        }
        assert(qs.drop_first()[i - 1] == qs[i]);
        lemma_queue_of_at(qs.drop_first(), i - 1, pid);
    }
}

/// A source with no queue line has an empty queue.
proof fn lemma_queue_of_absent(qs: Seq<SourceQueue>, pid: ProcessIdView)
    requires
        forall|j: int| 0 <= j < qs.len() ==> (#[trigger] qs[j]).source@ != pid,
    ensures
        queue_of(qs, pid) == Seq::<KernelMessage>::empty(),
    decreases qs.len(),
{
    if qs.len() > 0 {
        assert(qs[0].source@ != pid);
        assert forall|j: int| 0 <= j < qs.drop_first().len() implies (
        #[trigger] qs.drop_first()[j]).source@ != pid by {
            assert(qs.drop_first()[j] == qs[j + 1]);
        }
        lemma_queue_of_absent(qs.drop_first(), pid);
    }
}

/// Updating the line at an index sets its source's queue.
proof fn lemma_queue_of_update(qs: Seq<SourceQueue>, i: int, q: SourceQueue, pid: ProcessIdView)
    requires
        queues_wf(qs),
        0 <= i < qs.len(),
        qs[i].source@ == pid,
        q.source@ == pid,
    ensures
        queue_of(qs.update(i, q), pid) == q.items@,
    decreases qs.len(),
{
    if i == 0 {
        assert(qs.update(0, q)[0] == q);
    } else {
        assert(qs[0].source@ != qs[i].source@);
        assert(qs.update(i, q)[0] == qs[0]);
        assert(qs.update(i, q).drop_first() =~= qs.drop_first().update(i - 1, q));
        assert(queues_wf(qs.drop_first())) by {
            assert forall|a: int, b: int| 0 <= a < b < qs.drop_first().len() implies (
            #[trigger] qs.drop_first()[a]).source@ != (#[trigger] qs.drop_first()[b]).source@ by {
                assert(qs.drop_first()[a] == qs[a + 1]);
                assert(qs.drop_first()[b] == qs[b + 1]);
            }
        }
        assert(qs.drop_first()[i - 1] == qs[i]);
        lemma_queue_of_update(qs.drop_first(), i - 1, q, pid);
    }
}

/// Updating one line leaves every other source's queue alone.
proof fn lemma_queue_of_update_other(qs: Seq<SourceQueue>, i: int, q: SourceQueue, p: ProcessIdView)
    requires
        0 <= i < qs.len(),
        qs[i].source@ == q.source@,
        p != q.source@,
    ensures
        queue_of(qs.update(i, q), p) == queue_of(qs, p),
    decreases qs.len(),
{
    if qs.len() > 0 {
        if i == 0 {
            assert(qs.update(0, q)[0] == q);
            assert(qs.update(0, q).drop_first() =~= qs.drop_first());
        } else {
            assert(qs.update(i, q)[0] == qs[0]);
            assert(qs.update(i, q).drop_first() =~= qs.drop_first().update(i - 1, q));
            assert(qs.drop_first()[i - 1] == qs[i]);
            lemma_queue_of_update_other(qs.drop_first(), i - 1, q, p);
        }
    }
}

/// Appending a new line for a source sets that source's queue.
proof fn lemma_queue_of_push_new(qs: Seq<SourceQueue>, q: SourceQueue, pid: ProcessIdView)
    requires
        q.source@ == pid,
        forall|j: int| 0 <= j < qs.len() ==> (#[trigger] qs[j]).source@ != pid,
    ensures
        queue_of(qs.push(q), pid) == q.items@,
    decreases qs.len(),
{
    if qs.len() == 0 {
        assert(qs.push(q)[0] == q);
    } else {
        assert(qs.push(q)[0] == qs[0]);
        assert(qs[0].source@ != pid);
        assert(qs.push(q).drop_first() =~= qs.drop_first().push(q));
        assert forall|j: int| 0 <= j < qs.drop_first().len() implies (
        #[trigger] qs.drop_first()[j]).source@ != pid by {
            assert(qs.drop_first()[j] == qs[j + 1]);
        }
        lemma_queue_of_push_new(qs.drop_first(), q, pid);
    }
}

/// Appending a line leaves every other source's queue alone.
proof fn lemma_queue_of_push_other(qs: Seq<SourceQueue>, q: SourceQueue, p: ProcessIdView)
    requires
        p != q.source@,
    ensures
        queue_of(qs.push(q), p) == queue_of(qs, p),
    decreases qs.len(),
{
    if qs.len() == 0 {
        assert(qs.push(q)[0] == q);
        assert(qs.push(q).drop_first() =~= Seq::<SourceQueue>::empty());
        assert(queue_of(Seq::<SourceQueue>::empty(), p) == Seq::<KernelMessage>::empty());
    } else {
        assert(qs.push(q)[0] == qs[0]);
        assert(qs.push(q).drop_first() =~= qs.drop_first().push(q));
        lemma_queue_of_push_other(qs.drop_first(), q, p);
    }
}

} // verus!
