//! Core of a process kernel for sandboxed components: canonical process
//! addressing, a capability ledger with signed tokens, typed message
//! envelopes with a binary wire codec, the per-process instance state
//! machine, the dispatch admission rule, and the decision logic of the
//! persistent-state and virtual-file-system services.

use vstd::prelude::*;

pub mod caps;
pub mod codec;
pub mod crypto;
pub mod dispatch;
pub mod ids;
pub mod message;
pub mod oracle;
pub mod persist;
pub mod process;
pub mod state_service;
pub mod terminal;
pub mod vfs;

verus! {

/// Byte-for-byte equality of two byte vectors.
pub fn bytes_eq(a: &Vec<u8>, b: &Vec<u8>) -> (r: bool)
    ensures
        r == (a@ == b@),
{
    if a.len() != b.len() {
        assert(a@.len() != b@.len());
        return false;
    }
    let n: usize = a.len();
    let mut i: usize = 0;
    while i < n
        invariant
            n == a@.len(),
            n == b@.len(),
            i <= n,
            forall|j: int| 0 <= j < i ==> a@[j] == b@[j],
        decreases n - i,
    {
        if a[i] != b[i] {
            return false;
        }
        i += 1;
    }
    proof {
        assert(a@ =~= b@);
    }
    true
}

} // verus!
