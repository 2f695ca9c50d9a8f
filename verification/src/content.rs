//! Making a content file present in the local store: it may be there already,
//! in the optional local snapshot, or on the catalyst.
use vstd::prelude::*;

verus! {

/// Where fetching one content file stands; each stage but the last two is
/// an outside step whose success decides the next stage.
#[derive(PartialEq, Eq, Structural, Debug, Clone, Copy)]
pub enum ContentStage {
    /// Check whether the store already holds the file.
    Check,
    /// Read it from the local snapshot.
    TryLocal,
    /// Download it from the catalyst.
    TryRemote,
    /// Write the snapshot's bytes to the store.
    StoreLocal,
    /// Write the downloaded bytes to the store.
    StoreRemote,
    /// The file is in the store.
    Present,
    /// The download or the write failed.
    Failed,
}

/// The stage after `stage` ended with `ok`, given whether there is a local
/// snapshot. The store check succeeds when the file is there.
pub open spec fn next_content_stage(stage: ContentStage, ok: bool, has_local: bool) -> ContentStage {
    match stage {
        ContentStage::Check => if ok {
            ContentStage::Present
        } else if has_local {
            ContentStage::TryLocal
        } else {
            ContentStage::TryRemote
        },
        ContentStage::TryLocal => if ok {
            ContentStage::StoreLocal
        } else {
            ContentStage::TryRemote
        },
        ContentStage::TryRemote => if ok {
            ContentStage::StoreRemote
        } else {
            ContentStage::Failed
        },
        ContentStage::StoreLocal | ContentStage::StoreRemote => if ok {
            ContentStage::Present
        } else {
            ContentStage::Failed
        },
        ContentStage::Present => ContentStage::Present,
        ContentStage::Failed => ContentStage::Failed,
    }
}

/// The stage that follows `stage` after it ended with `ok`.
pub fn content_step(stage: ContentStage, ok: bool, has_local: bool) -> (next: ContentStage)
    requires
        stage != ContentStage::Present && stage != ContentStage::Failed,
    ensures
        next == next_content_stage(stage, ok, has_local),
{
    match stage {
        ContentStage::Check => if ok {
            ContentStage::Present
        } else if has_local {
            ContentStage::TryLocal
        } else {
            ContentStage::TryRemote
        },
        ContentStage::TryLocal => if ok {
            ContentStage::StoreLocal
        } else {
            ContentStage::TryRemote
        },
        ContentStage::TryRemote => if ok {
            ContentStage::StoreRemote
        } else {
            ContentStage::Failed
        },
        ContentStage::StoreLocal | ContentStage::StoreRemote => if ok {
            ContentStage::Present
        } else {
            ContentStage::Failed
        },
        ContentStage::Present => ContentStage::Present,
        ContentStage::Failed => ContentStage::Failed,
    }
}

/// Rank of a stage: every step from a working stage lowers it, so fetching
/// a file ends after at most four outside steps.
pub open spec fn content_rank(stage: ContentStage) -> nat {
    match stage {
        ContentStage::Check => 4,
        ContentStage::TryLocal => 3,
        ContentStage::TryRemote => 2,
        ContentStage::StoreLocal | ContentStage::StoreRemote => 1,
        ContentStage::Present | ContentStage::Failed => 0,
    }
}

/// Fetching a content file always ends: each outside step lowers the rank,
/// and only a stored or already-present file ends `Present`. The snapshot is
/// tried before the catalyst, and the catalyst only when the snapshot fails
/// or is absent.
pub proof fn lemma_content_fetch_ends(stage: ContentStage, ok: bool, has_local: bool)
    requires
        stage != ContentStage::Present && stage != ContentStage::Failed,
    ensures
        content_rank(next_content_stage(stage, ok, has_local)) < content_rank(stage),
        next_content_stage(stage, ok, has_local) == ContentStage::Present ==> ok && (stage
            == ContentStage::Check || stage == ContentStage::StoreLocal || stage
            == ContentStage::StoreRemote),
        next_content_stage(stage, ok, has_local) == ContentStage::TryRemote ==> (stage
            == ContentStage::Check && !has_local && !ok) || (stage == ContentStage::TryLocal && !ok),
{
}

/// A step that succeeded never makes the fetch fail: a failure comes only
/// from a failed download or a failed write. A successful download goes on
/// to store the downloaded bytes, a successful snapshot read to store the
/// snapshot's bytes.
pub proof fn lemma_success_never_fails(stage: ContentStage, ok: bool, has_local: bool)
    requires
        stage != ContentStage::Present && stage != ContentStage::Failed,
    ensures
        ok ==> next_content_stage(stage, ok, has_local) != ContentStage::Failed,
        next_content_stage(stage, ok, has_local) == ContentStage::Failed ==> !ok && (stage
            == ContentStage::TryRemote || stage == ContentStage::StoreLocal || stage
            == ContentStage::StoreRemote),
        ok && stage == ContentStage::TryRemote ==> next_content_stage(stage, ok, has_local)
            == ContentStage::StoreRemote,
        ok && stage == ContentStage::TryLocal ==> next_content_stage(stage, ok, has_local)
            == ContentStage::StoreLocal,
{
}

} // verus!
