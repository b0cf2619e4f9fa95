//! The conventional capability parameter strings: messaging and
//! network tokens, and the per-drive read/write/root tokens of the
//! virtual file system, compared byte-for-byte everywhere.

use vstd::prelude::*;
use crate::ids::{push_bytes, PackageIdView, PackageId};

verus! {

/// The bytes of `"messaging"`, quotes included.
pub open spec fn messaging_params() -> Seq<u8> {
    seq![34u8, 109u8, 101u8, 115u8, 115u8, 97u8, 103u8, 105u8, 110u8, 103u8, 34u8]
}

/// The bytes of `"network"`, quotes included.
pub open spec fn network_params() -> Seq<u8> {
    seq![34u8, 110u8, 101u8, 116u8, 119u8, 111u8, 114u8, 107u8, 34u8]
}

/// The bytes of `{"root":true}`.
pub open spec fn root_params() -> Seq<u8> {
    seq![
        123u8,
        34u8,
        114u8,
        111u8,
        111u8,
        116u8,
        34u8,
        58u8,
        116u8,
        114u8,
        117u8,
        101u8,
        125u8,
    ]
}

/// A drive path: `/package:publisher/drive`.
pub open spec fn drive_path(owner: PackageIdView, drive: Seq<u8>) -> Seq<u8> {
    seq![47u8] + owner.package + seq![58u8] + owner.publisher + seq![47u8] + drive
}

/// The bytes of `{"kind":"` then the kind, then `","drive":"` then
/// the drive path, then `"}`.
pub open spec fn kind_drive_params(kind: Seq<u8>, drive: Seq<u8>) -> Seq<u8> {
    seq![123u8, 34u8, 107u8, 105u8, 110u8, 100u8, 34u8, 58u8, 34u8] + kind + seq![
        34u8,
        44u8,
        34u8,
        100u8,
        114u8,
        105u8,
        118u8,
        101u8,
        34u8,
        58u8,
        34u8,
    ] + drive + seq![34u8, 125u8]
}

/// The bytes of `read`.
pub open spec fn read_kind() -> Seq<u8> {
    seq![114u8, 101u8, 97u8, 100u8]
}

/// The bytes of `write`.
pub open spec fn write_kind() -> Seq<u8> {
    seq![119u8, 114u8, 105u8, 116u8, 101u8]
}

/// The read capability params for a drive.
pub open spec fn read_params(drive: Seq<u8>) -> Seq<u8> {
    kind_drive_params(read_kind(), drive)
}

/// The write capability params for a drive.
pub open spec fn write_params(drive: Seq<u8>) -> Seq<u8> {
    kind_drive_params(write_kind(), drive)
}

pub fn make_messaging_params() -> (r: Vec<u8>)
    ensures
        r@ == messaging_params(),
{
    let mut out: Vec<u8> = Vec::new();
    out.push(34);
    out.push(109);
    out.push(101);
    out.push(115);
    out.push(115);
    out.push(97);
    out.push(103);
    out.push(105);
    out.push(110);
    out.push(103);
    out.push(34);
    proof {
        assert(out@ =~= messaging_params());
    }
    out
}

pub fn make_network_params() -> (r: Vec<u8>)
    ensures
        r@ == network_params(),
{
    let mut out: Vec<u8> = Vec::new();
    out.push(34);
    out.push(110);
    out.push(101);
    out.push(116);
    out.push(119);
    out.push(111);
    out.push(114);
    out.push(107);
    out.push(34);
    proof {
        assert(out@ =~= network_params());
    }
    out
}

pub fn make_root_params() -> (r: Vec<u8>)
    ensures
        r@ == root_params(),
{
    let mut out: Vec<u8> = Vec::new();
    out.push(123);
    out.push(34);
    out.push(114);
    out.push(111);
    out.push(111);
    out.push(116);
    out.push(34);
    out.push(58);
    out.push(116);
    out.push(114);
    out.push(117);
    out.push(101);
    out.push(125);
    proof {
        assert(out@ =~= root_params());
    }
    out
}

/// Build `/package:publisher/drive` for a drive owner.
pub fn make_drive_path(owner: &PackageId, drive: &Vec<u8>) -> (r: Vec<u8>)
    ensures
        r@ == drive_path(owner@, drive@),
{
    let mut out: Vec<u8> = Vec::new();
    out.push(47);
    push_bytes(&mut out, &owner.package);
    out.push(58);
    push_bytes(&mut out, &owner.publisher);
    out.push(47);
    push_bytes(&mut out, drive);
    proof {
        assert(out@ =~= drive_path(owner@, drive@));
    }
    out
}

fn push_kind_drive_prefix(out: &mut Vec<u8>)
    ensures
        final(out)@ == old(out)@ + seq![
            123u8,
            34u8,
            107u8,
            105u8,
            110u8,
            100u8,
            34u8,
            58u8,
            34u8,
        ],
{
    out.push(123);
    out.push(34);
    out.push(107);
    out.push(105);
    out.push(110);
    out.push(100);
    out.push(34);
    out.push(58);
    out.push(34);
    proof {
        assert(out@ =~= old(out)@ + seq![123u8, 34u8, 107u8, 105u8, 110u8, 100u8, 34u8, 58u8, 34u8]);
    }
}

fn push_drive_key(out: &mut Vec<u8>)
    ensures
        final(out)@ == old(out)@ + seq![
            34u8,
            44u8,
            34u8,
            100u8,
            114u8,
            105u8,
            118u8,
            101u8,
            34u8,
            58u8,
            34u8,
        ],
{
    out.push(34);
    out.push(44);
    out.push(34);
    out.push(100);
    out.push(114);
    out.push(105);
    out.push(118);
    out.push(101);
    out.push(34);
    out.push(58);
    out.push(34);
    proof {
        assert(out@ =~= old(out)@ + seq![
            34u8,
            44u8,
            34u8,
            100u8,
            114u8,
            105u8,
            118u8,
            101u8,
            34u8,
            58u8,
            34u8,
        ]);
    }
}

/// Build the read or write params for a drive path.
pub fn make_kind_drive_params(write: bool, drive: &Vec<u8>) -> (r: Vec<u8>)
    ensures
        write ==> r@ == write_params(drive@),
        !write ==> r@ == read_params(drive@),
{
    let mut out: Vec<u8> = Vec::new();
    push_kind_drive_prefix(&mut out);
    if write {
        out.push(119);
        out.push(114);
        out.push(105);
        out.push(116);
        out.push(101);
    } else {
        out.push(114);
        out.push(101);
        out.push(97);
        out.push(100);
    }
    push_drive_key(&mut out);
    push_bytes(&mut out, drive);
    out.push(34);
    out.push(125);
    proof {
        if write {
            assert(out@ =~= write_params(drive@));
        } else {
            assert(out@ =~= read_params(drive@));
        }
    }
    out
}

} // verus!
