use vstd::prelude::*;
use crate::mirror::{MirrorView, without_user};
use crate::scan::{ScanError, ScanStart, resume_spec};
use crate::store::{Hash32, WalletStore};

verus! {

/// What to do after a scan invocation failed.
#[derive(Debug, Clone, Copy, PartialEq, Eq, Structural)]
pub enum RetryDecision {
    /// Discard the embedded store, clear the account's mirrored rows,
    /// bootstrap the account again at the same birthday and scan once more.
    RebuildAndRescan,
    /// Report the failure.
    Fail,
}

/// A checkpoint conflict is recovered from by a full rebuild, once; any
/// other failure, or a conflict after the rebuild, is reported.
pub fn decide_after_failure(err: ScanError, already_rebuilt: bool) -> (r: RetryDecision)
    ensures
        r == RetryDecision::RebuildAndRescan <==> (err is CheckpointConflict && !already_rebuilt),
{
    match err {
        ScanError::CheckpointConflict { .. } => {
            if already_rebuilt {
                RetryDecision::Fail
            } else {
                RetryDecision::RebuildAndRescan
            }
        },
        _ => RetryDecision::Fail,
    }
}

/// After recovery from a conflict, the next scan resumes from the account's
/// birthday, not from the conflicting height, and the relational store keeps
/// no row of the user from before the rebuild.
pub proof fn lemma_recovery_restarts_from_birthday(
    conflicted: WalletStore,
    rebuilt: WalletStore,
    prior_frontier: Hash32,
    m: MirrorView,
    user: u128,
    tip: u64,
)
    requires
        rebuilt.birthday == conflicted.birthday,
        rebuilt.cursor is None,
        conflicted.birthday <= tip,
    ensures
        resume_spec(rebuilt.birthday, rebuilt.cursor, tip) == Ok::<ScanStart, ScanError>(
            ScanStart::From(conflicted.birthday),
        ),
        forall|i: int|
            0 <= i < without_user(m, user).0.len() ==> (#[trigger] without_user(m, user).0[i]).user
                != user,
        forall|i: int|
            0 <= i < without_user(m, user).1.len() ==> (#[trigger] without_user(m, user).1[i]).user
                != user,
        forall|i: int|
            0 <= i < without_user(m, user).2.len() ==> (#[trigger] without_user(m, user).2[i]).user
                != user,
{
    broadcast use vstd::seq_lib::group_filter_ensures;

}

} // verus!
