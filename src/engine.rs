use vstd::prelude::*;
use crate::scan::{ScanError, ScanSession, min_int};
use crate::store::{ScannedBlock, WalletStore, batch_persisted, conflicts, contiguous_from};

verus! {

/// Number of notes the blocks received.
pub open spec fn received_count(bs: Seq<ScannedBlock>) -> int
    decreases bs.len(),
{
    if bs.len() == 0 {
        0
    } else {
        received_count(bs.drop_last()) + bs.last().received@.len()
    }
}

fn count_received(blocks: &Vec<ScannedBlock>) -> (r: usize)
    ensures
        r as int == min_int(received_count(blocks@), usize::MAX as int),
{
    let mut total: usize = 0;
    let mut i: usize = 0;
    while i < blocks.len()
        invariant
            0 <= i <= blocks@.len(),
            total as int == min_int(received_count(blocks@.take(i as int)), usize::MAX as int),
        decreases blocks.len() - i,
    {
        assert(blocks@.take(i + 1).drop_last() =~= blocks@.take(i as int));
        total = total.saturating_add(blocks[i].received.len());
        i = i + 1;
    }
    assert(blocks@.take(i as int) =~= blocks@);
    total
}

/// The blocks span exactly the heights `start..=end`, in order.
pub open spec fn spans(bs: Seq<ScannedBlock>, start: int, end: int) -> bool {
    bs.len() > 0 && bs[0].height == start && bs.last().height == end
}

/// Persists the blocks of the session's current batch and, only once they
/// are stored, moves the session to the next batch. Blocks that do not span
/// the batch are refused; the store refuses blocks that do not continue its
/// cursor or that meet a conflicting checkpoint. On any error neither the
/// store nor the session changes.
pub fn persist_batch(
    session: &mut ScanSession,
    store: &mut WalletStore,
    blocks: &Vec<ScannedBlock>,
) -> (r: Result<(), ScanError>)
    requires
        old(session).wf(),
        old(session).remaining().len() > 0,
    ensures
        !spans(blocks@, old(session).remaining()[0].0, old(session).remaining()[0].1) ==> r
            == Err::<(), ScanError>(
            ScanError::BatchMismatch {
                start: old(session).remaining()[0].0 as u64,
                end: old(session).remaining()[0].1 as u64,
            },
        ),
        spans(blocks@, old(session).remaining()[0].0, old(session).remaining()[0].1) ==> (r is Ok
            <==> (contiguous_from(blocks@, old(store).next_height()) && !conflicts(
            old(store).checkpoints@,
            blocks@.last().height,
            blocks@.last().frontier,
        ))),
        spans(blocks@, old(session).remaining()[0].0, old(session).remaining()[0].1)
            && contiguous_from(blocks@, old(store).next_height()) && conflicts(
            old(store).checkpoints@,
            blocks@.last().height,
            blocks@.last().frontier,
        ) ==> r == Err::<(), ScanError>(
            ScanError::CheckpointConflict { height: blocks@.last().height },
        ),
        r is Err ==> *final(store) == *old(store) && *final(session) == *old(session),
        r is Ok ==> {
            &&& batch_persisted(*old(store), blocks@, *final(store))
            &&& final(session).wf()
            &&& final(session).remaining() == old(session).remaining().drop_first()
            &&& final(session).blocks_scanned as int == min_int(
                old(session).blocks_scanned + blocks@.len(),
                usize::MAX as int,
            )
            &&& final(session).notes_discovered as int == min_int(
                old(session).notes_discovered + min_int(
                    received_count(blocks@),
                    usize::MAX as int,
                ),
                usize::MAX as int,
            )
        },
{
    let next = match session.next_action() {
        crate::scan::ScanAction::Download(b) => b,
        crate::scan::ScanAction::Finished(_) => {
            return Err(ScanError::BatchMismatch { start: 0, end: 0 });
        },
    };
    let n = blocks.len();
    if n == 0 || blocks[0].height != next.start || blocks[n - 1].height != next.end {
        return Err(ScanError::BatchMismatch { start: next.start, end: next.end });
    }
    let notes = count_received(blocks);
    match store.apply_batch(blocks) {
        Err(e) => Err(e),
        Ok(()) => {
            session.batch_done(n, notes);
            Ok(())
        },
    }
}

} // verus!
