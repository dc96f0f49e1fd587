//! The mount probe: an ordered snapshot of mount points, and the test that a
//! path is covered by an existing mount (the precondition for moving a mount
//! over it).

use vstd::prelude::*;

use crate::path::{AbsPath, is_canonical_bytes, is_path_prefix, path_bytes, path_wf};

verus! {

/// The errors of the mount probe.
#[derive(Clone, Copy, PartialEq, Eq, Structural, Debug)]
pub enum MountError {
    /// A mount-table entry's mount point was not a canonical absolute path.
    BadMountPoint,
}

/// An ordered snapshot of the mount table: one entry per mount, each reduced
/// to its mount point.
pub struct MountsInfo {
    mounts: Vec<AbsPath>,
}

impl View for MountsInfo {
    type V = Seq<Seq<Seq<u8>>>;

    closed spec fn view(&self) -> Seq<Seq<Seq<u8>>> {
        self.mounts@.map_values(|p: AbsPath| p@)
    }
}

impl MountsInfo {
    pub open spec fn wf(&self) -> bool {
        forall|i: int| 0 <= i < self@.len() ==> path_wf(#[trigger] self@[i])
    }

    /// Build the snapshot from the raw mount-point strings of the mount
    /// table, one per entry, in table order. Fails exactly when some entry is
    /// not a canonical absolute path.
    pub fn parse_mounts(raw: &Vec<Vec<u8>>) -> (r: Result<MountsInfo, MountError>)
        ensures
            r is Ok <==> (forall|i: int| 0 <= i < raw@.len() ==> is_canonical_bytes(#[trigger] raw@[i]@)),
            r matches Ok(m) ==> {
                &&& m.wf()
                &&& m@.len() == raw@.len()
                &&& forall|i: int| 0 <= i < raw@.len() ==> path_bytes(#[trigger] m@[i]) == raw@[i]@
            },
            r is Err ==> r == Result::<MountsInfo, MountError>::Err(MountError::BadMountPoint),
    {
        let mut mounts: Vec<AbsPath> = Vec::new();
        let n = raw.len();
        let mut i: usize = 0;
        while i < n
            invariant
                n == raw@.len(),
                0 <= i <= n,
                mounts@.len() == i,
                forall|j: int| 0 <= j < i ==> is_canonical_bytes(#[trigger] raw@[j]@),
                forall|j: int| 0 <= j < i
                    ==> path_bytes(#[trigger] mounts@[j]@) == raw@[j]@ && path_wf(mounts@[j]@),
            decreases n - i,
        {
            match AbsPath::from_bytes(&raw[i]) {
                Some(p) => {
                    mounts.push(p);
                }
                None => {
                    return Err(MountError::BadMountPoint);
                }
            }
            i += 1;
        }
        let m = MountsInfo { mounts };
        proof {
            assert(forall|j: int| 0 <= j < n ==> m@[j] == mounts@[j]@);
        }
        Ok(m)
    }

    /// How many mounts the snapshot holds.
    pub fn len(&self) -> (r: usize)
        ensures
            r == self@.len(),
    {
        self.mounts.len()
    }

    /// True iff some mount point in the snapshot covers `path`: the target
    /// may lie at the mount point itself or below it.
    pub fn non_root(&self, path: &AbsPath) -> (r: bool)
        ensures
            r == exists|i: int| 0 <= i < self@.len() && is_path_prefix(#[trigger] self@[i], path@),
    {
        let n = self.mounts.len();
        let mut i: usize = 0;
        while i < n
            invariant
                n == self.mounts.len(),
                self@.len() == n,
                0 <= i <= n,
                forall|j: int| 0 <= j < i ==> !is_path_prefix(#[trigger] self@[j], path@),
            decreases n - i,
        {
            if path.starts_with(&self.mounts[i]) {
                proof {
                    assert(is_path_prefix(self@[i as int], path@));
                }
                return true;
            }
            i += 1;
        }
        false
    }
}

} // verus!
