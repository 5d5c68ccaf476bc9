use vstd::prelude::*;

verus! {

/// Largest number of blocks downloaded and persisted in one pass, unless
/// configured otherwise.
pub const DEFAULT_BATCH_SIZE: u64 = 50_000;

/// An inclusive range of block heights.
#[derive(Debug, Clone, Copy, PartialEq, Eq, Structural)]
pub struct BlockRange {
    pub start: u64,
    pub end: u64,
}

/// Where a scan invocation starts.
#[derive(Debug, Clone, Copy, PartialEq, Eq, Structural)]
pub enum ScanStart {
    /// The cursor already sits at the chain tip: nothing to download.
    CaughtUp,
    /// Scanning starts at this height.
    From(u64),
}

/// Failures of the scanning engine.
#[derive(Debug, Clone, Copy, PartialEq, Eq, Structural)]
pub enum ScanError {
    /// The chain tip lies below the account's birthday.
    TipBeforeBirthday { tip: u64, birthday: u64 },
    /// A batch does not continue exactly where the cursor stands.
    NotContiguous { height: u64 },
    /// A checkpoint for a different tree state already exists at this height.
    CheckpointConflict { height: u64 },
    /// The blocks handed over do not span the batch that was asked for.
    BatchMismatch { start: u64, end: u64 },
}

pub open spec fn range_pair(r: BlockRange) -> (int, int) {
    (r.start as int, r.end as int)
}

pub open spec fn min_int(a: int, b: int) -> int {
    if a <= b {
        a
    } else {
        b
    }
}

/// The batches that cover heights `start..=tip` in order, each spanning
/// `size` blocks except possibly the last.
pub open spec fn batch_plan(start: int, tip: int, size: int) -> Seq<(int, int)>
    decreases tip - start + 1,
{
    if size <= 0 || start > tip {
        Seq::empty()
    } else {
        let end = min_int(start + size - 1, tip);
        seq![(start, end)] + batch_plan(end + 1, tip, size)
    }
}

/// Where scanning resumes: from the birthday on a first scan, from the block
/// after the cursor otherwise, or nowhere when the cursor is at the tip.
pub open spec fn resume_spec(birthday: u64, last_scanned: Option<u64>, tip: u64) -> Result<
    ScanStart,
    ScanError,
> {
    if tip < birthday {
        Err(ScanError::TipBeforeBirthday { tip, birthday })
    } else {
        match last_scanned {
            None => Ok(ScanStart::From(birthday)),
            Some(h) => if h + 1 > tip {
                Ok(ScanStart::CaughtUp)
            } else {
                Ok(ScanStart::From((h + 1) as u64))
            },
        }
    }
}

/// The batches one scan invocation downloads, in order.
pub open spec fn scan_plan(birthday: u64, last_scanned: Option<u64>, tip: u64, size: u64) -> Seq<
    (int, int),
> {
    match resume_spec(birthday, last_scanned, tip) {
        Ok(ScanStart::From(s)) => batch_plan(s as int, tip as int, size as int),
        _ => Seq::empty(),
    }
}

/// Decides where a scan invocation starts.
pub fn resume_point(birthday: u64, last_scanned: Option<u64>, tip: u64) -> (r: Result<
    ScanStart,
    ScanError,
>)
    ensures
        r == resume_spec(birthday, last_scanned, tip),
{
    if tip < birthday {
        return Err(ScanError::TipBeforeBirthday { tip, birthday });
    }
    match last_scanned {
        None => Ok(ScanStart::From(birthday)),
        Some(h) => {
            if h >= tip {
                Ok(ScanStart::CaughtUp)
            } else {
                Ok(ScanStart::From(h + 1))
            }
        },
    }
}

/// The end of the batch that starts at `start`.
fn batch_end(start: u64, tip: u64, batch_size: u64) -> (r: u64)
    requires
        batch_size > 0,
        start <= tip,
    ensures
        r as int == min_int(start + batch_size - 1, tip as int),
{
    if tip - start >= batch_size - 1 {
        start + (batch_size - 1)
    } else {
        tip
    }
}

proof fn lemma_plan_step(start: int, tip: int, size: int)
    requires
        size > 0,
        start <= tip,
    ensures
        batch_plan(start, tip, size) == seq![(start, min_int(start + size - 1, tip))] + batch_plan(
            min_int(start + size - 1, tip) + 1,
            tip,
            size,
        ),
{
}

/// Splits heights `start..=tip` into contiguous batches of at most
/// `batch_size` blocks.
pub fn plan_batches(start: u64, tip: u64, batch_size: u64) -> (r: Vec<BlockRange>)
    requires
        batch_size > 0,
        tip < u64::MAX,
    ensures
        r@.map_values(|b: BlockRange| range_pair(b)) == batch_plan(
            start as int,
            tip as int,
            batch_size as int,
        ),
{
    let mut out: Vec<BlockRange> = Vec::new();
    let mut cur: u64 = start;
    while cur <= tip
        invariant
            batch_size > 0,
            tip < u64::MAX,
            out@.map_values(|b: BlockRange| range_pair(b)) + batch_plan(
                cur as int,
                tip as int,
                batch_size as int,
            ) == batch_plan(start as int, tip as int, batch_size as int),
        decreases tip - cur + 1,
    {
        let end = batch_end(cur, tip, batch_size);
        proof {
            lemma_plan_step(cur as int, tip as int, batch_size as int);
        }
        let ghost before = out@;
        out.push(BlockRange { start: cur, end });
        proof {
            assert(out@.map_values(|b: BlockRange| range_pair(b)) =~= before.map_values(
                |b: BlockRange| range_pair(b),
            ).push((cur as int, end as int)));
            assert(out@.map_values(|b: BlockRange| range_pair(b)) + batch_plan(
                end + 1,
                tip as int,
                batch_size as int,
            ) =~= before.map_values(|b: BlockRange| range_pair(b)) + batch_plan(
                cur as int,
                tip as int,
                batch_size as int,
            ));
        }
        cur = end + 1;
    }
    proof {
        assert(out@.map_values(|b: BlockRange| range_pair(b)) =~= out@.map_values(
            |b: BlockRange| range_pair(b),
        ) + batch_plan(cur as int, tip as int, batch_size as int));
    }
    out
}

/// What one scan invocation reports.
#[derive(Debug, Clone, Copy, PartialEq, Eq, Structural)]
pub struct ScanSummary {
    pub start_height: u64,
    pub end_height: u64,
    pub blocks_scanned: usize,
    pub notes_discovered: usize,
}

/// The next step a driver of a scan performs.
#[derive(Debug, Clone, Copy, PartialEq, Eq, Structural)]
pub enum ScanAction {
    /// Download, decrypt and persist this range, then report it with
    /// `batch_done`.
    Download(BlockRange),
    /// The scan is over.
    Finished(ScanSummary),
}

/// The decisions of one scan invocation: which batch comes next and when the
/// scan is over. The chain tip is read once, when the session begins.
#[derive(Debug, Clone, Copy, PartialEq, Eq, Structural)]
pub struct ScanSession {
    pub start: u64,
    pub tip: u64,
    pub next: u64,
    pub batch_size: u64,
    pub caught_up: bool,
    pub blocks_scanned: usize,
    pub notes_discovered: usize,
}

impl ScanSession {
    pub open spec fn wf(&self) -> bool {
        &&& self.batch_size > 0
        &&& self.tip < u64::MAX
        &&& self.caught_up ==> self.next > self.tip
        &&& !self.caught_up ==> self.start <= self.next <= self.tip + 1
    }

    /// The batches still to come.
    pub open spec fn remaining(&self) -> Seq<(int, int)> {
        if self.caught_up {
            Seq::empty()
        } else {
            batch_plan(self.next as int, self.tip as int, self.batch_size as int)
        }
    }

    /// Starts a scan for an account with this birthday, whose cursor is
    /// `last_scanned`, against a chain whose tip is `tip`.
    pub fn begin(birthday: u64, last_scanned: Option<u64>, tip: u64, batch_size: u64) -> (r: Result<
        ScanSession,
        ScanError,
    >)
        requires
            batch_size > 0,
            tip < u64::MAX,
        ensures
            match resume_spec(birthday, last_scanned, tip) {
                Err(e) => r == Err::<ScanSession, ScanError>(e),
                Ok(ScanStart::CaughtUp) => r matches Ok(s) && s.wf() && s.caught_up && s.start
                    == tip && s.tip == tip && s.blocks_scanned == 0 && s.notes_discovered == 0,
                Ok(ScanStart::From(h)) => r matches Ok(s) && s.wf() && !s.caught_up && s.start == h
                    && s.next == h && s.tip == tip && s.batch_size == batch_size && s.blocks_scanned
                    == 0 && s.notes_discovered == 0,
            },
            r matches Ok(s) ==> s.remaining() == scan_plan(birthday, last_scanned, tip, batch_size),
    {
        match resume_point(birthday, last_scanned, tip) {
            Err(e) => Err(e),
            Ok(ScanStart::CaughtUp) => Ok(
                ScanSession {
                    start: tip,
                    tip,
                    next: tip + 1,
                    batch_size,
                    caught_up: true,
                    blocks_scanned: 0,
                    notes_discovered: 0,
                },
            ),
            Ok(ScanStart::From(h)) => Ok(
                ScanSession {
                    start: h,
                    tip,
                    next: h,
                    batch_size,
                    caught_up: false,
                    blocks_scanned: 0,
                    notes_discovered: 0,
                },
            ),
        }
    }

    /// The next step: the first remaining batch, or the summary once none is
    /// left.
    pub fn next_action(&self) -> (r: ScanAction)
        requires
            self.wf(),
        ensures
            self.remaining().len() == 0 <==> r is Finished,
            r matches ScanAction::Download(b) ==> range_pair(b) == self.remaining()[0],
            r == ScanAction::Finished(
                ScanSummary {
                    start_height: self.start,
                    end_height: self.tip,
                    blocks_scanned: self.blocks_scanned,
                    notes_discovered: self.notes_discovered,
                },
            ) <==> r is Finished,
    {
        if self.caught_up || self.next > self.tip {
            ScanAction::Finished(
                ScanSummary {
                    start_height: self.start,
                    end_height: self.tip,
                    blocks_scanned: self.blocks_scanned,
                    notes_discovered: self.notes_discovered,
                },
            )
        } else {
            proof {
                lemma_plan_step(self.next as int, self.tip as int, self.batch_size as int);
            }
            let end = batch_end(self.next, self.tip, self.batch_size);
            ScanAction::Download(BlockRange { start: self.next, end })
        }
    }

    /// Records that the current batch was persisted, with the number of
    /// blocks and notes it held; the session moves to the following batch.
    pub fn batch_done(&mut self, blocks: usize, notes: usize)
        requires
            old(self).wf(),
            old(self).remaining().len() > 0,
        ensures
            final(self).wf(),
            final(self).remaining() == old(self).remaining().drop_first(),
            final(self).start == old(self).start,
            final(self).tip == old(self).tip,
            final(self).batch_size == old(self).batch_size,
            final(self).caught_up == old(self).caught_up,
            final(self).next == old(self).remaining()[0].1 + 1,
            final(self).blocks_scanned as int == min_int(
                old(self).blocks_scanned + blocks,
                usize::MAX as int,
            ),
            final(self).notes_discovered as int == min_int(
                old(self).notes_discovered + notes,
                usize::MAX as int,
            ),
    {
        proof {
            lemma_plan_step(self.next as int, self.tip as int, self.batch_size as int);
        }
        let end = batch_end(self.next, self.tip, self.batch_size);
        self.next = end + 1;
        self.blocks_scanned = self.blocks_scanned.saturating_add(blocks);
        self.notes_discovered = self.notes_discovered.saturating_add(notes);
        proof {
            assert(self.remaining() =~= old(self).remaining().drop_first());
        }
    }
}

/// A scan that starts with the cursor at the chain tip downloads nothing.
pub proof fn lemma_caught_up_scans_nothing(birthday: u64, tip: u64, batch_size: u64)
    requires
        birthday <= tip,
    ensures
        resume_spec(birthday, Some(tip), tip) == Ok::<ScanStart, ScanError>(ScanStart::CaughtUp),
        scan_plan(birthday, Some(tip), tip, batch_size).len() == 0,
{
}

} // verus!
