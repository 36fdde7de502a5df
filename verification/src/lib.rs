//! A filesystem integrity snapshotting library: fingerprints of regular
//! files are collected into immutable snapshots, two snapshots are
//! diffed into created / deleted / changed path lists, and a snapshot
//! round-trips exactly through a self-describing document format.

use vstd::prelude::*;

pub mod codec;
pub mod digits;
pub mod hasher;
pub mod snapshot;

use crate::snapshot::{
    changed_paths, compare_hashes, compare_hashes_and_modify_date, missing_paths, spec_summary,
    views_of_strings, Snapshot, SnapshotChangeType, SnapshotCompareResult,
};

verus! {

/// Diff two snapshots by checksum alone: which paths were created,
/// deleted, or changed in content between `left` and `right`.
pub fn compare_snapshots(left: Snapshot, right: Snapshot) -> (r: Option<
    (SnapshotChangeType, SnapshotCompareResult),
>)
    requires
        left.wf(),
        right.wf(),
    ensures
        r is Some,
        views_of_strings(r.unwrap().1.created@) == missing_paths(right@.entries, left@.entries),
        views_of_strings(r.unwrap().1.deleted@) == missing_paths(left@.entries, right@.entries),
        views_of_strings(r.unwrap().1.changed@) == changed_paths(
            left@.entries,
            right@.entries,
            false,
        ),
        r.unwrap().0 == spec_summary(
            missing_paths(right@.entries, left@.entries),
            missing_paths(left@.entries, right@.entries),
            changed_paths(left@.entries, right@.entries, false),
        ),
{
    compare_hashes(left, right)
}

/// Diff two snapshots under the combined policy: a path also counts as
/// changed when its modification or inode-change time differs, even with
/// matching checksums.
pub fn compare_snapshots_including_modify_date(left: Snapshot, right: Snapshot) -> (r: Option<
    (SnapshotChangeType, SnapshotCompareResult),
>)
    requires
        left.wf(),
        right.wf(),
    ensures
        r is Some,
        views_of_strings(r.unwrap().1.created@) == missing_paths(right@.entries, left@.entries),
        views_of_strings(r.unwrap().1.deleted@) == missing_paths(left@.entries, right@.entries),
        views_of_strings(r.unwrap().1.changed@) == changed_paths(
            left@.entries,
            right@.entries,
            true,
        ),
        r.unwrap().0 == spec_summary(
            missing_paths(right@.entries, left@.entries),
            missing_paths(left@.entries, right@.entries),
            changed_paths(left@.entries, right@.entries, true),
        ),
{
    compare_hashes_and_modify_date(left, right)
}

} // verus!
