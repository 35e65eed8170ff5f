//! A model of the filesystem slice this tool touches, and the laws the
//! write protocol obeys over it.
//!
//! The model maps each absolute path to the node stored there.  The spec
//! functions below give the net effect of the directory walk and of the
//! temp-file/rename protocol when every step succeeds, and of the cleanup
//! path when writing the temporary file fails; the proof functions state
//! the guarantees the tool gives in terms of them.

use vstd::prelude::*;

use crate::perms::{apply_pending, resulting_meta, FileMeta, Ownership, PendingPermissions, CREATED_DIR_MODE};

verus! {

/// One node on disk: a directory, or a regular file with its content.
pub enum FsNode {
    Dir { meta: FileMeta },
    File { meta: FileMeta, content: Seq<u8> },
}

/// The metadata a directory created by the walk ends up with: mode `0755`,
/// and the requested ownership over the creating process's own ids.
pub open spec fn created_dir_meta(own: Ownership, proc_uid: u32, proc_gid: u32) -> FileMeta {
    FileMeta {
        mode: CREATED_DIR_MODE,
        uid: if own.uid is Some { own.uid->0 } else { proc_uid },
        gid: if own.gid is Some { own.gid->0 } else { proc_gid },
    }
}

/// One step of the directory walk: an existing segment is left alone, a
/// missing one is created.
pub open spec fn mkdir_step(
    fs: Map<Seq<char>, FsNode>,
    seg: Seq<char>,
    own: Ownership,
    proc_uid: u32,
    proc_gid: u32,
) -> Map<Seq<char>, FsNode> {
    if fs.contains_key(seg) {
        fs
    } else {
        fs.insert(seg, FsNode::Dir { meta: created_dir_meta(own, proc_uid, proc_gid) })
    }
}

/// The walk over all prefixes of the target directory, root first.
pub open spec fn mkdirs(
    fs: Map<Seq<char>, FsNode>,
    prefixes: Seq<Seq<char>>,
    own: Ownership,
    proc_uid: u32,
    proc_gid: u32,
) -> Map<Seq<char>, FsNode>
    decreases prefixes.len(),
{
    if prefixes.len() == 0 {
        fs
    } else {
        mkdir_step(mkdirs(fs, prefixes.drop_last(), own, proc_uid, proc_gid), prefixes.last(), own, proc_uid, proc_gid)
    }
}

/// The metadata of the node at `p`, if a file is there.
pub open spec fn existing_file_meta(fs: Map<Seq<char>, FsNode>, p: Seq<char>) -> Option<FileMeta> {
    if fs.contains_key(p) && fs[p] is File {
        Some(fs[p]->File_meta)
    } else {
        None
    }
}

/// The net effect of a successful atomic write: the destination holds
/// exactly the supplied content, with its old metadata when it existed
/// before and the pending fields over creation defaults when it did not.
/// `fresh` is the metadata the temporary file started with.
pub open spec fn atomic_write(
    fs: Map<Seq<char>, FsNode>,
    dest: Seq<char>,
    content: Seq<u8>,
    pending: PendingPermissions,
    fresh: FileMeta,
) -> Map<Seq<char>, FsNode> {
    fs.insert(
        dest,
        FsNode::File { meta: resulting_meta(existing_file_meta(fs, dest), pending, fresh), content },
    )
}

/// The filesystem while the temporary file is being filled: the temporary
/// holds whatever part of the stream has arrived so far, nothing else has
/// moved.
pub open spec fn during_temp_write(
    fs: Map<Seq<char>, FsNode>,
    tmp: Seq<char>,
    partial: Seq<u8>,
    fresh: FileMeta,
) -> Map<Seq<char>, FsNode> {
    fs.insert(tmp, FsNode::File { meta: fresh, content: partial })
}

/// The cleanup step of the failure path: the temporary file is removed.
pub open spec fn remove_temp(fs: Map<Seq<char>, FsNode>, tmp: Seq<char>) -> Map<Seq<char>, FsNode> {
    fs.remove(tmp)
}

/// Writing the same content with the same request twice yields the same
/// filesystem as writing it once: the second write finds the destination
/// present and re-applies its metadata, so content and metadata alike are
/// unchanged, whatever defaults the second temporary file started with.
pub proof fn lemma_write_idempotent(
    fs: Map<Seq<char>, FsNode>,
    dest: Seq<char>,
    content: Seq<u8>,
    pending: PendingPermissions,
    fresh1: FileMeta,
    fresh2: FileMeta,
)
    requires
        fs.contains_key(dest) ==> fs[dest] is File,
    ensures
        atomic_write(atomic_write(fs, dest, content, pending, fresh1), dest, content, pending, fresh2)
            == atomic_write(fs, dest, content, pending, fresh1),
{
    let once = atomic_write(fs, dest, content, pending, fresh1);
    let twice = atomic_write(once, dest, content, pending, fresh2);
    assert(existing_file_meta(once, dest) == Some(resulting_meta(existing_file_meta(fs, dest), pending, fresh1)));
    assert(twice =~= once);
}

/// A pre-existing destination keeps its owner and mode: the write only
/// replaces the content.
pub proof fn lemma_write_preserves_existing_meta(
    fs: Map<Seq<char>, FsNode>,
    dest: Seq<char>,
    content: Seq<u8>,
    pending: PendingPermissions,
    fresh: FileMeta,
)
    requires
        fs.contains_key(dest),
        fs[dest] is File,
    ensures
        atomic_write(fs, dest, content, pending, fresh)[dest]
            == (FsNode::File { meta: fs[dest]->File_meta, content }),
{
}

/// A destination that did not exist gets the pending mode and ownership
/// where given, and the creation defaults where not.
pub proof fn lemma_write_applies_pending_meta(
    fs: Map<Seq<char>, FsNode>,
    dest: Seq<char>,
    content: Seq<u8>,
    pending: PendingPermissions,
    fresh: FileMeta,
)
    requires
        !fs.contains_key(dest),
    ensures
        atomic_write(fs, dest, content, pending, fresh)[dest]
            == (FsNode::File { meta: apply_pending(fresh, pending), content }),
{
}

/// A write touches nothing but the destination.
pub proof fn lemma_write_touches_only_dest(
    fs: Map<Seq<char>, FsNode>,
    dest: Seq<char>,
    content: Seq<u8>,
    pending: PendingPermissions,
    fresh: FileMeta,
    other: Seq<char>,
)
    requires
        other != dest,
    ensures
        atomic_write(fs, dest, content, pending, fresh).contains_key(other) == fs.contains_key(other),
        fs.contains_key(other) ==> atomic_write(fs, dest, content, pending, fresh)[other] == fs[other],
{
}

/// If filling the temporary file is interrupted part-way, removing it
/// restores the filesystem exactly: the destination keeps its prior state
/// and no temporary file remains.
pub proof fn lemma_aborted_write_restores(
    fs: Map<Seq<char>, FsNode>,
    tmp: Seq<char>,
    partial: Seq<u8>,
    fresh: FileMeta,
)
    requires
        !fs.contains_key(tmp),
    ensures
        remove_temp(during_temp_write(fs, tmp, partial, fresh), tmp) == fs,
        !remove_temp(during_temp_write(fs, tmp, partial, fresh), tmp).contains_key(tmp),
{
    assert(remove_temp(during_temp_write(fs, tmp, partial, fresh), tmp) =~= fs);
}

/// The directory walk never changes anything that already exists: every
/// node present before keeps its exact state, mode and ownership included.
pub proof fn lemma_mkdirs_preserves_existing(
    fs: Map<Seq<char>, FsNode>,
    prefixes: Seq<Seq<char>>,
    own: Ownership,
    proc_uid: u32,
    proc_gid: u32,
    p: Seq<char>,
)
    requires
        fs.contains_key(p),
    ensures
        mkdirs(fs, prefixes, own, proc_uid, proc_gid).contains_key(p),
        mkdirs(fs, prefixes, own, proc_uid, proc_gid)[p] == fs[p],
    decreases prefixes.len(),
{
    if prefixes.len() > 0 {
        lemma_mkdirs_preserves_existing(fs, prefixes.drop_last(), own, proc_uid, proc_gid, p);
    }
}

/// Every missing segment of the walk is created as a directory with mode
/// `0755` and the requested ownership.
pub proof fn lemma_mkdirs_creates_missing(
    fs: Map<Seq<char>, FsNode>,
    prefixes: Seq<Seq<char>>,
    own: Ownership,
    proc_uid: u32,
    proc_gid: u32,
    p: Seq<char>,
)
    requires
        prefixes.contains(p),
        !fs.contains_key(p),
    ensures
        mkdirs(fs, prefixes, own, proc_uid, proc_gid).contains_key(p),
        mkdirs(fs, prefixes, own, proc_uid, proc_gid)[p]
            == (FsNode::Dir { meta: created_dir_meta(own, proc_uid, proc_gid) }),
    decreases prefixes.len(),
{
    let rest = prefixes.drop_last();
    let before = mkdirs(fs, rest, own, proc_uid, proc_gid);
    if prefixes.last() == p {
        if before.contains_key(p) {
            lemma_mkdirs_only_creates(fs, rest, own, proc_uid, proc_gid, p);
        }
    } else {
        assert(rest.contains(p)) by {
            let i = choose|i: int| 0 <= i < prefixes.len() && prefixes[i] == p;
            assert(rest[i] == p);
        }
        lemma_mkdirs_creates_missing(fs, rest, own, proc_uid, proc_gid, p);
    }
}

/// The filesystem after one whole successful invocation: the directory
/// walk over the ancestors of the destination's directory, then the atomic
/// write of the destination itself.
pub open spec fn run_effect(
    fs: Map<Seq<char>, FsNode>,
    prefixes: Seq<Seq<char>>,
    own: Ownership,
    proc_uid: u32,
    proc_gid: u32,
    dest: Seq<char>,
    content: Seq<u8>,
    pending: PendingPermissions,
    fresh: FileMeta,
) -> Map<Seq<char>, FsNode> {
    atomic_write(mkdirs(fs, prefixes, own, proc_uid, proc_gid), dest, content, pending, fresh)
}

/// The outward contract of a successful invocation, in one statement: the
/// destination ends up holding exactly the supplied content, with its old
/// metadata if it pre-existed and the pending fields over creation
/// defaults if not; every other pre-existing node keeps its exact state;
/// and nothing new appears anywhere but the walked directory segments.
/// (The walked segments are ancestors of the destination's directory, so
/// they never include the destination itself.)
pub proof fn lemma_run_effect(
    fs: Map<Seq<char>, FsNode>,
    prefixes: Seq<Seq<char>>,
    own: Ownership,
    proc_uid: u32,
    proc_gid: u32,
    dest: Seq<char>,
    content: Seq<u8>,
    pending: PendingPermissions,
    fresh: FileMeta,
)
    requires
        !prefixes.contains(dest),
        fs.contains_key(dest) ==> fs[dest] is File,
    ensures
        run_effect(fs, prefixes, own, proc_uid, proc_gid, dest, content, pending, fresh)[dest]
            == (FsNode::File {
            meta: resulting_meta(existing_file_meta(fs, dest), pending, fresh),
            content,
        }),
        forall|q: Seq<char>| q != dest && fs.contains_key(q)
            ==> #[trigger] run_effect(fs, prefixes, own, proc_uid, proc_gid, dest, content, pending, fresh).contains_key(q)
                && run_effect(fs, prefixes, own, proc_uid, proc_gid, dest, content, pending, fresh)[q] == fs[q],
        forall|q: Seq<char>| q != dest && !fs.contains_key(q) && !prefixes.contains(q)
            ==> !#[trigger] run_effect(fs, prefixes, own, proc_uid, proc_gid, dest, content, pending, fresh).contains_key(q),
{
    let mid = mkdirs(fs, prefixes, own, proc_uid, proc_gid);
    assert(existing_file_meta(mid, dest) == existing_file_meta(fs, dest)) by {
        if fs.contains_key(dest) {
            lemma_mkdirs_preserves_existing(fs, prefixes, own, proc_uid, proc_gid, dest);
        } else {
            lemma_mkdirs_only_creates(fs, prefixes, own, proc_uid, proc_gid, dest);
        }
    }
    assert forall|q: Seq<char>| q != dest && fs.contains_key(q)
        implies #[trigger] run_effect(fs, prefixes, own, proc_uid, proc_gid, dest, content, pending, fresh).contains_key(q)
            && run_effect(fs, prefixes, own, proc_uid, proc_gid, dest, content, pending, fresh)[q] == fs[q] by {
        lemma_mkdirs_preserves_existing(fs, prefixes, own, proc_uid, proc_gid, q);
    }
    assert forall|q: Seq<char>| q != dest && !fs.contains_key(q) && !prefixes.contains(q)
        implies !#[trigger] run_effect(fs, prefixes, own, proc_uid, proc_gid, dest, content, pending, fresh).contains_key(q) by {
        lemma_mkdirs_only_creates(fs, prefixes, own, proc_uid, proc_gid, q);
    }
}

/// The walk adds directory segments and does nothing else: any path it
/// holds afterwards was either there before, or is one of the walked
/// prefixes newly created with the fixed metadata.
pub proof fn lemma_mkdirs_only_creates(
    fs: Map<Seq<char>, FsNode>,
    prefixes: Seq<Seq<char>>,
    own: Ownership,
    proc_uid: u32,
    proc_gid: u32,
    p: Seq<char>,
)
    requires
        !fs.contains_key(p),
    ensures
        mkdirs(fs, prefixes, own, proc_uid, proc_gid).contains_key(p) ==> prefixes.contains(p)
            && mkdirs(fs, prefixes, own, proc_uid, proc_gid)[p]
            == (FsNode::Dir { meta: created_dir_meta(own, proc_uid, proc_gid) }),
    decreases prefixes.len(),
{
    if prefixes.len() > 0 {
        let rest = prefixes.drop_last();
        lemma_mkdirs_only_creates(fs, rest, own, proc_uid, proc_gid, p);
        if mkdirs(fs, prefixes, own, proc_uid, proc_gid).contains_key(p) {
            if mkdirs(fs, rest, own, proc_uid, proc_gid).contains_key(p) {
                assert(rest.contains(p) ==> prefixes.contains(p)) by {
                    if rest.contains(p) {
                        let i = choose|i: int| 0 <= i < rest.len() && rest[i] == p;
                        assert(prefixes[i] == p);
                    }
                }
            } else {
                assert(prefixes.last() == p);
                assert(prefixes.contains(p)) by {
                    assert(prefixes[prefixes.len() - 1] == p);
                }
            }
        }
    }
}

} // verus!
