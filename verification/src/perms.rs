//! Ownership and permission decisions.
//!
//! The hard invariant of the whole tool lives here: permissions and
//! ownership passed on the command line are applied only to files and
//! directories this tool itself creates, never to anything that already
//! exists on disk.

use vstd::prelude::*;

verus! {

/// Optional numeric ownership, resolved from names before the library is
/// called; the library only ever sees numeric ids.
#[derive(Clone, Copy, Debug, PartialEq, Eq)]
pub struct Ownership {
    pub uid: Option<u32>,
    pub gid: Option<u32>,
}

/// What to apply to the destination if (and only if) it does not exist yet.
#[derive(Clone, Copy, Debug, PartialEq, Eq)]
pub struct PendingPermissions {
    pub uid: Option<u32>,
    pub gid: Option<u32>,
    pub mode: Option<u32>,
}

/// The metadata a file or directory carries on disk.
#[derive(Clone, Copy, Debug, PartialEq, Eq, Structural)]
pub struct FileMeta {
    pub mode: u32,
    pub uid: u32,
    pub gid: u32,
}

/// Mode every directory created by the walk receives.
pub const CREATED_DIR_MODE: u32 = 0o755;

/// What to do with one segment of the directory walk.
#[derive(Clone, Copy, Debug, PartialEq, Eq)]
pub enum SegmentAction {
    /// The segment already exists: leave it entirely alone.
    Skip,
    /// Create the segment, set `mode`, then apply the ids that are present.
    Create { mode: u32, uid: Option<u32>, gid: Option<u32> },
}

/// The decision for one segment of the directory walk: an existing segment
/// is skipped outright (its permissions and ownership stay untouched); a
/// missing one is created with mode `0755` and the requested ownership.
pub fn segment_action(exists: bool, own: &Ownership) -> (r: SegmentAction)
    ensures
        exists ==> r == SegmentAction::Skip,
        !exists ==> r == (SegmentAction::Create { mode: CREATED_DIR_MODE, uid: own.uid, gid: own.gid }),
{
    if exists {
        SegmentAction::Skip
    } else {
        SegmentAction::Create { mode: CREATED_DIR_MODE, uid: own.uid, gid: own.gid }
    }
}

/// What `metadata_to_apply` decides, as a spec-level function.
pub open spec fn decided_metadata(existing: Option<FileMeta>, pending: PendingPermissions) -> PendingPermissions {
    match existing {
        Some(m) => PendingPermissions { uid: Some(m.uid), gid: Some(m.gid), mode: Some(m.mode) },
        None => pending,
    }
}

/// The effect of applying a set of optional fields on top of the metadata a
/// freshly created file starts with.
pub open spec fn apply_pending(fresh: FileMeta, p: PendingPermissions) -> FileMeta {
    FileMeta {
        mode: if p.mode is Some { p.mode->0 } else { fresh.mode },
        uid: if p.uid is Some { p.uid->0 } else { fresh.uid },
        gid: if p.gid is Some { p.gid->0 } else { fresh.gid },
    }
}

/// The metadata the destination must carry after a successful write:
/// exactly its old metadata when it already existed, and otherwise the
/// pending fields over the creation defaults.
pub open spec fn resulting_meta(existing: Option<FileMeta>, pending: PendingPermissions, fresh: FileMeta) -> FileMeta {
    match existing {
        Some(m) => m,
        None => apply_pending(fresh, pending),
    }
}

/// What to set on the temporary file before the rename.  When the
/// destination already exists its current metadata is re-applied so the
/// rename preserves it; only for a new destination are the command-line
/// permissions used.
pub fn metadata_to_apply(existing: Option<FileMeta>, pending: &PendingPermissions) -> (r: PendingPermissions)
    ensures
        r == decided_metadata(existing, *pending),
{
    match existing {
        Some(m) => PendingPermissions { uid: Some(m.uid), gid: Some(m.gid), mode: Some(m.mode) },
        None => *pending,
    }
}

/// Applying the decided fields to a fresh temporary file yields exactly the
/// promised destination metadata: the old metadata unchanged when the
/// destination pre-existed, the pending fields over creation defaults when
/// it did not.
pub proof fn lemma_metadata_decision(existing: Option<FileMeta>, pending: PendingPermissions, fresh: FileMeta)
    ensures
        apply_pending(fresh, decided_metadata(existing, pending)) == resulting_meta(existing, pending, fresh),
{
}

} // verus!
