use vstd::prelude::*;
use crate::scan::ScanError;

verus! {

/// A 32-byte value (a transaction id or a tree frontier digest), as four
/// little-endian 64-bit words.
#[derive(Debug, Clone, Copy, PartialEq, Eq, Structural)]
pub struct Hash32 {
    pub w0: u64,
    pub w1: u64,
    pub w2: u64,
    pub w3: u64,
}

/// The two generations of shielded pool.
#[derive(Debug, Clone, Copy, PartialEq, Eq, Structural)]
pub enum Pool {
    Sapling,
    Orchard,
}

/// A chain transaction that touches the account.
#[derive(Debug, Clone, Copy, PartialEq, Eq, Structural)]
pub struct TxRecord {
    pub txid: Hash32,
    pub mined_height: Option<u64>,
    pub tx_index: Option<u32>,
    pub fee: Option<u64>,
}

/// A shielded output that decrypted as belonging to the account.
#[derive(Debug, Clone, Copy, PartialEq, Eq, Structural)]
pub struct ReceivedNote {
    pub txid: Hash32,
    pub output_index: u32,
    pub value: u64,
    pub pool: Pool,
    pub is_change: bool,
    pub spent_in: Option<Hash32>,
}

/// The spend of a previously received note by a later transaction.
#[derive(Debug, Clone, Copy, PartialEq, Eq, Structural)]
pub struct NoteSpend {
    pub txid: Hash32,
    pub output_index: u32,
    pub spending_txid: Hash32,
}

/// An outgoing payment of a transaction the account authored.
#[derive(Debug, Clone, Copy, PartialEq, Eq, Structural)]
pub struct SentNote {
    pub txid: Hash32,
    pub output_index: u32,
    pub value: u64,
}

/// The note-commitment tree state at the end of a block.
#[derive(Debug, Clone, Copy, PartialEq, Eq, Structural)]
pub struct TreeCheckpoint {
    pub height: u64,
    pub frontier: Hash32,
}

/// What trial decryption found in one block.
#[derive(Debug, Clone)]
pub struct ScannedBlock {
    pub height: u64,
    /// Tree frontier at the end of this block.
    pub frontier: Hash32,
    pub transactions: Vec<TxRecord>,
    pub received: Vec<ReceivedNote>,
    pub spends: Vec<NoteSpend>,
    pub sent: Vec<SentNote>,
}

/// Transactions, received notes and sent notes of an account.
pub type Ledger = (Seq<TxRecord>, Seq<ReceivedNote>, Seq<SentNote>);

pub open spec fn has_txid(txs: Seq<TxRecord>, id: Hash32) -> bool {
    exists|i: int| 0 <= i < txs.len() && txs[i].txid == id
}

/// Inserts a transaction, or replaces the one with the same id.
pub open spec fn upsert_tx_spec(txs: Seq<TxRecord>, t: TxRecord) -> Seq<TxRecord> {
    if has_txid(txs, t.txid) {
        txs.map_values(|x: TxRecord| if x.txid == t.txid { t } else { x })
    } else {
        txs.push(t)
    }
}

pub open spec fn upsert_all(txs: Seq<TxRecord>, ts: Seq<TxRecord>) -> Seq<TxRecord>
    decreases ts.len(),
{
    if ts.len() == 0 {
        txs
    } else {
        upsert_tx_spec(upsert_all(txs, ts.drop_last()), ts.last())
    }
}

pub open spec fn spends_note(n: ReceivedNote, sp: NoteSpend) -> bool {
    n.txid == sp.txid && n.output_index == sp.output_index && n.spent_in is None
}

/// Marks the note that `sp` consumes as spent; a note already spent stays as
/// it was.
pub open spec fn mark_spent_spec(notes: Seq<ReceivedNote>, sp: NoteSpend) -> Seq<ReceivedNote> {
    notes.map_values(
        |n: ReceivedNote|
            if spends_note(n, sp) {
                ReceivedNote { spent_in: Some(sp.spending_txid), ..n }
            } else {
                n
            },
    )
}

pub open spec fn mark_all(notes: Seq<ReceivedNote>, sps: Seq<NoteSpend>) -> Seq<ReceivedNote>
    decreases sps.len(),
{
    if sps.len() == 0 {
        notes
    } else {
        mark_spent_spec(mark_all(notes, sps.drop_last()), sps.last())
    }
}

/// The ledger after one block: its transactions are upserted, its received
/// notes appended, then its spends marked, then its sent notes appended.
pub open spec fn apply_block_spec(l: Ledger, b: ScannedBlock) -> Ledger {
    (
        upsert_all(l.0, b.transactions@),
        mark_all(l.1 + b.received@, b.spends@),
        l.2 + b.sent@,
    )
}

/// The ledger after a sequence of blocks, in order.
pub open spec fn apply_blocks(l: Ledger, bs: Seq<ScannedBlock>) -> Ledger
    decreases bs.len(),
{
    if bs.len() == 0 {
        l
    } else {
        apply_block_spec(apply_blocks(l, bs.drop_last()), bs.last())
    }
}

/// Sum of the values of the notes not yet spent, over both pools.
pub open spec fn unspent_total(notes: Seq<ReceivedNote>) -> int
    decreases notes.len(),
{
    if notes.len() == 0 {
        0
    } else {
        unspent_total(notes.drop_last()) + if notes.last().spent_in is None {
            notes.last().value as int
        } else {
            0
        }
    }
}

pub open spec fn has_checkpoint_at(cps: Seq<TreeCheckpoint>, h: u64) -> bool {
    exists|i: int| 0 <= i < cps.len() && cps[i].height == h
}

/// A checkpoint at `h` records a tree state other than `f`.
pub open spec fn conflicts(cps: Seq<TreeCheckpoint>, h: u64, f: Hash32) -> bool {
    exists|i: int| 0 <= i < cps.len() && cps[i].height == h && cps[i].frontier != f
}

/// The checkpoints after recording `f` at `h`: unchanged where one is there
/// already.
pub open spec fn record_checkpoint(cps: Seq<TreeCheckpoint>, h: u64, f: Hash32) -> Seq<
    TreeCheckpoint,
> {
    if has_checkpoint_at(cps, h) {
        cps
    } else {
        cps.push(TreeCheckpoint { height: h, frontier: f })
    }
}

/// The height whose tree state anchors an account born at `birthday`: the
/// end of the block before it, or 0 for a birthday of 0.
pub open spec fn anchor_of(birthday: u64) -> u64 {
    if birthday == 0 {
        0
    } else {
        (birthday - 1) as u64
    }
}

/// Heights of `bs` run on by one from `first`.
pub open spec fn contiguous_from(bs: Seq<ScannedBlock>, first: int) -> bool {
    forall|k: int| 0 <= k < bs.len() ==> #[trigger] bs[k].height == first + k
}

/// `new` is `old` after a successful write of the non-empty batch `bs`: the
/// batch continued the cursor and met no conflicting checkpoint, its records
/// entered the ledger in order, its last frontier was checkpointed and the
/// cursor moved to its last block.
pub open spec fn batch_persisted(old: WalletStore, bs: Seq<ScannedBlock>, new: WalletStore) -> bool {
    &&& bs.len() > 0
    &&& contiguous_from(bs, old.next_height())
    &&& !conflicts(old.checkpoints@, bs.last().height, bs.last().frontier)
    &&& new.ledger() == apply_blocks(old.ledger(), bs)
    &&& new.cursor == Some(bs.last().height)
    &&& new.checkpoints@ == record_checkpoint(old.checkpoints@, bs.last().height, bs.last().frontier)
    &&& new.birthday == old.birthday
}

/// The checkpoints hold `f` at height `h`, and no other state there.
pub open spec fn holds_checkpoint(cps: Seq<TreeCheckpoint>, h: u64, f: Hash32) -> bool {
    has_checkpoint_at(cps, h) && !conflicts(cps, h, f)
}

/// The cursor never moves back: a later cursor is at least the earlier one.
pub open spec fn cursor_not_behind(before: Option<u64>, after: Option<u64>) -> bool {
    match before {
        None => true,
        Some(c) => after matches Some(d) && c <= d,
    }
}

/// The embedded per-account store: the account's birthday, the scan cursor
/// (last fully scanned height), tree checkpoints and the ledger.
#[derive(Debug, Clone)]
pub struct WalletStore {
    pub birthday: u64,
    pub cursor: Option<u64>,
    pub checkpoints: Vec<TreeCheckpoint>,
    pub transactions: Vec<TxRecord>,
    pub notes: Vec<ReceivedNote>,
    pub sent: Vec<SentNote>,
}

/// Inserts a transaction into `txs`, or replaces the one with its id.
fn upsert_tx(txs: &mut Vec<TxRecord>, t: TxRecord)
    ensures
        final(txs)@ == upsert_tx_spec(old(txs)@, t),
{
    let ghost orig = txs@;
    let mut found = false;
    let mut i: usize = 0;
    while i < txs.len()
        invariant
            0 <= i <= txs@.len(),
            txs@.len() == orig.len(),
            forall|j: int|
                0 <= j < i ==> #[trigger] txs@[j] == (if orig[j].txid == t.txid {
                    t
                } else {
                    orig[j]
                }),
            forall|j: int| i <= j < txs@.len() ==> #[trigger] txs@[j] == orig[j],
            found <==> exists|j: int| 0 <= j < i && orig[j].txid == t.txid,
        decreases txs.len() - i,
    {
        if txs[i].txid == t.txid {
            txs.set(i, t);
            found = true;
        }
        i = i + 1;
    }
    if !found {
        txs.push(t);
        assert(txs@ =~= orig.push(t));
    } else {
        assert(txs@ =~= orig.map_values(|x: TxRecord| if x.txid == t.txid { t } else { x }));
    }
}

fn mark_spent(notes: &mut Vec<ReceivedNote>, sp: NoteSpend)
    ensures
        final(notes)@ == mark_spent_spec(old(notes)@, sp),
{
    let ghost orig = notes@;
    let mut i: usize = 0;
    while i < notes.len()
        invariant
            0 <= i <= notes@.len(),
            notes@.len() == orig.len(),
            forall|j: int|
                0 <= j < i ==> #[trigger] notes@[j] == (if spends_note(orig[j], sp) {
                    ReceivedNote { spent_in: Some(sp.spending_txid), ..orig[j] }
                } else {
                    orig[j]
                }),
            forall|j: int| i <= j < notes@.len() ==> #[trigger] notes@[j] == orig[j],
        decreases notes.len() - i,
    {
        let n = notes[i];
        if n.txid == sp.txid && n.output_index == sp.output_index && n.spent_in.is_none() {
            notes.set(i, ReceivedNote { spent_in: Some(sp.spending_txid), ..n });
        }
        i = i + 1;
    }
    assert(notes@ =~= mark_spent_spec(orig, sp));
}

fn apply_block(
    txs: &mut Vec<TxRecord>,
    notes: &mut Vec<ReceivedNote>,
    sent: &mut Vec<SentNote>,
    b: &ScannedBlock,
)
    ensures
        (final(txs)@, final(notes)@, final(sent)@) == apply_block_spec(
            (old(txs)@, old(notes)@, old(sent)@),
            *b,
        ),
{
    let ghost txs0 = txs@;
    let mut i: usize = 0;
    while i < b.transactions.len()
        invariant
            0 <= i <= b.transactions@.len(),
            txs@ == upsert_all(txs0, b.transactions@.take(i as int)),
        decreases b.transactions.len() - i,
    {
        upsert_tx(txs, b.transactions[i]);
        assert(b.transactions@.take(i + 1).drop_last() =~= b.transactions@.take(i as int));
        i = i + 1;
    }
    assert(b.transactions@.take(i as int) =~= b.transactions@);
    let ghost notes0 = notes@;
    let mut k: usize = 0;
    while k < b.received.len()
        invariant
            0 <= k <= b.received@.len(),
            notes@ == notes0 + b.received@.take(k as int),
        decreases b.received.len() - k,
    {
        notes.push(b.received[k]);
        assert(notes0 + b.received@.take(k + 1) =~= (notes0 + b.received@.take(k as int)).push(
            b.received@[k as int],
        ));
        k = k + 1;
    }
    assert(b.received@.take(k as int) =~= b.received@);
    let ghost notes1 = notes@;
    let mut s: usize = 0;
    while s < b.spends.len()
        invariant
            0 <= s <= b.spends@.len(),
            notes@ == mark_all(notes1, b.spends@.take(s as int)),
        decreases b.spends.len() - s,
    {
        mark_spent(notes, b.spends[s]);
        assert(b.spends@.take(s + 1).drop_last() =~= b.spends@.take(s as int));
        s = s + 1;
    }
    assert(b.spends@.take(s as int) =~= b.spends@);
    let ghost sent0 = sent@;
    let mut m: usize = 0;
    while m < b.sent.len()
        invariant
            0 <= m <= b.sent@.len(),
            sent@ == sent0 + b.sent@.take(m as int),
        decreases b.sent.len() - m,
    {
        sent.push(b.sent[m]);
        assert(sent0 + b.sent@.take(m + 1) =~= (sent0 + b.sent@.take(m as int)).push(
            b.sent@[m as int],
        ));
        m = m + 1;
    }
    assert(b.sent@.take(m as int) =~= b.sent@);
}

impl WalletStore {
    pub open spec fn ledger(&self) -> Ledger {
        (self.transactions@, self.notes@, self.sent@)
    }

    /// The first height not yet scanned.
    pub open spec fn next_height(&self) -> int {
        match self.cursor {
            None => self.birthday as int,
            Some(h) => h + 1,
        }
    }

    /// A fresh store for an account with this birthday, anchored by the tree
    /// frontier as of the end of the block before it.
    pub fn bootstrap(birthday: u64, prior_frontier: Hash32) -> (r: WalletStore)
        ensures
            r.birthday == birthday,
            r.cursor is None,
            r.checkpoints@ == seq![
                TreeCheckpoint { height: anchor_of(birthday), frontier: prior_frontier },
            ],
            r.transactions@.len() == 0,
            r.notes@.len() == 0,
            r.sent@.len() == 0,
    {
        let mut store = WalletStore {
            birthday,
            cursor: None,
            checkpoints: Vec::new(),
            transactions: Vec::new(),
            notes: Vec::new(),
            sent: Vec::new(),
        };
        let anchor = if birthday == 0 {
            0
        } else {
            birthday - 1
        };
        store.install_anchor(anchor, prior_frontier);
        store
    }

    /// Clears every checkpoint, then records `frontier` at `h`: a stale
    /// checkpoint left from before cannot collide with the new anchor.
    pub fn install_anchor(&mut self, h: u64, frontier: Hash32)
        ensures
            final(self).checkpoints@ == seq![TreeCheckpoint { height: h, frontier }],
            final(self).birthday == old(self).birthday,
            final(self).cursor == old(self).cursor,
            final(self).ledger() == old(self).ledger(),
    {
        let mut cps: Vec<TreeCheckpoint> = Vec::new();
        cps.push(TreeCheckpoint { height: h, frontier });
        self.checkpoints = cps;
        assert(self.checkpoints@ =~= seq![TreeCheckpoint { height: h, frontier }]);
    }

    /// Whether some checkpoint sits at height `h`.
    fn has_checkpoint(&self, h: u64) -> (r: bool)
        ensures
            r == has_checkpoint_at(self.checkpoints@, h),
    {
        let mut i: usize = 0;
        while i < self.checkpoints.len()
            invariant
                0 <= i <= self.checkpoints@.len(),
                forall|j: int| 0 <= j < i ==> #[trigger] self.checkpoints@[j].height != h,
            decreases self.checkpoints.len() - i,
        {
            if self.checkpoints[i].height == h {
                return true;
            }
            i = i + 1;
        }
        false
    }

    /// Whether some checkpoint at `h` records a state other than `f`.
    fn has_conflict(&self, h: u64, f: Hash32) -> (r: bool)
        ensures
            r == conflicts(self.checkpoints@, h, f),
    {
        let mut i: usize = 0;
        while i < self.checkpoints.len()
            invariant
                0 <= i <= self.checkpoints@.len(),
                forall|j: int|
                    0 <= j < i ==> !(#[trigger] self.checkpoints@[j].height == h
                        && self.checkpoints@[j].frontier != f),
            decreases self.checkpoints.len() - i,
        {
            if self.checkpoints[i].height == h && self.checkpoints[i].frontier != f {
                return true;
            }
            i = i + 1;
        }
        false
    }

    /// Whether the heights of `blocks` continue the cursor one by one.
    fn continues_cursor(&self, blocks: &Vec<ScannedBlock>) -> (r: bool)
        ensures
            r == contiguous_from(blocks@, self.next_height()),
    {
        let mut k: usize = 0;
        while k < blocks.len()
            invariant
                0 <= k <= blocks@.len(),
                contiguous_from(blocks@.take(k as int), self.next_height()),
            decreases blocks.len() - k,
        {
            let h = blocks[k].height;
            if k > 0 {
                assert(blocks@.take(k as int)[k - 1] == blocks@[k - 1]);
            }
            let ok = if k == 0 {
                match self.cursor {
                    None => h == self.birthday,
                    Some(c) => h > 0 && h - 1 == c,
                }
            } else {
                h > 0 && h - 1 == blocks[k - 1].height
            };
            if !ok {
                assert(!(blocks@[k as int].height == self.next_height() + k));
                return false;
            }
            assert(contiguous_from(blocks@.take(k + 1), self.next_height())) by {
                assert forall|j: int| 0 <= j < k + 1 implies #[trigger] blocks@.take(
                    k + 1,
                )[j].height == self.next_height() + j by {
                    if j < k {
                        assert(blocks@.take(k as int)[j] == blocks@.take(k + 1)[j]);
                    } else if k > 0 {
                        assert(blocks@.take(k as int)[k - 1] == blocks@[k - 1]);
                    }
                }
            }
            k = k + 1;
        }
        assert(blocks@.take(k as int) =~= blocks@);
        true
    }

    /// Persists one batch of scanned blocks. The batch must continue the
    /// cursor; a checkpoint already at its last height for another tree state
    /// is a conflict. On either error nothing is written. Otherwise the
    /// blocks' records enter the ledger in order, the last block's frontier is
    /// checkpointed and the cursor moves to the last block.
    pub fn apply_batch(&mut self, blocks: &Vec<ScannedBlock>) -> (r: Result<(), ScanError>)
        ensures
            blocks@.len() == 0 ==> r is Ok && *final(self) == *old(self),
            blocks@.len() > 0 && !contiguous_from(blocks@, old(self).next_height()) ==> r matches Err(
                ScanError::NotContiguous { .. },
            ),
            blocks@.len() > 0 && contiguous_from(blocks@, old(self).next_height()) && conflicts(
                old(self).checkpoints@,
                blocks@.last().height,
                blocks@.last().frontier,
            ) ==> r == Err::<(), ScanError>(
                ScanError::CheckpointConflict { height: blocks@.last().height },
            ),
            r is Err ==> *final(self) == *old(self),
            (blocks@.len() > 0 && r is Ok) <==> (blocks@.len() > 0 && contiguous_from(
                blocks@,
                old(self).next_height(),
            ) && !conflicts(
                old(self).checkpoints@,
                blocks@.last().height,
                blocks@.last().frontier,
            )),
            blocks@.len() > 0 && r is Ok ==> batch_persisted(*old(self), blocks@, *final(self)),
    {
        let n = blocks.len();
        if n == 0 {
            return Ok(());
        }
        if !self.continues_cursor(blocks) {
            let mut k: usize = 0;
            while k < n
                invariant
                    n == blocks@.len(),
                    0 <= k <= n,
                    forall|j: int|
                        0 <= j < k ==> #[trigger] blocks@[j].height == old(self).next_height() + j,
                decreases n - k,
            {
                let h = blocks[k].height;
                let ok = if k == 0 {
                    match self.cursor {
                        None => h == self.birthday,
                        Some(c) => h > 0 && h - 1 == c,
                    }
                } else {
                    h > 0 && h - 1 == blocks[k - 1].height
                };
                if !ok {
                    return Err(ScanError::NotContiguous { height: h });
                }
                k = k + 1;
            }
            return Err(ScanError::NotContiguous { height: blocks[n - 1].height });
        }
        let last_height = blocks[n - 1].height;
        let last_frontier = blocks[n - 1].frontier;
        if self.has_conflict(last_height, last_frontier) {
            return Err(ScanError::CheckpointConflict { height: last_height });
        }
        let ghost l0 = self.ledger();
        let mut i: usize = 0;
        while i < n
            invariant
                n == blocks@.len(),
                0 <= i <= n,
                self.ledger() == apply_blocks(l0, blocks@.take(i as int)),
                self.birthday == old(self).birthday,
                self.cursor == old(self).cursor,
                self.checkpoints@ == old(self).checkpoints@,
            decreases n - i,
        {
            apply_block(&mut self.transactions, &mut self.notes, &mut self.sent, &blocks[i]);
            assert(blocks@.take(i + 1).drop_last() =~= blocks@.take(i as int));
            i = i + 1;
        }
        assert(blocks@.take(n as int) =~= blocks@);
        if !self.has_checkpoint(last_height) {
            self.checkpoints.push(TreeCheckpoint { height: last_height, frontier: last_frontier });
        }
        self.cursor = Some(last_height);
        Ok(())
    }

    /// The account's balance: the sum of the values of all received notes,
    /// in both pools, that are not marked spent.
    pub fn balance(&self) -> (r: u128)
        ensures
            r as int == unspent_total(self.notes@),
    {
        let mut total: u128 = 0;
        let mut i: usize = 0;
        while i < self.notes.len()
            invariant
                0 <= i <= self.notes@.len(),
                total as int == unspent_total(self.notes@.take(i as int)),
                total as int <= i * (u64::MAX as int),
            decreases self.notes.len() - i,
        {
            let n = self.notes[i];
            assert(self.notes@.take(i + 1).drop_last() =~= self.notes@.take(i as int));
            assert((i + 1) * (u64::MAX as int) == i * (u64::MAX as int) + u64::MAX) by (
            nonlinear_arith);
            assert(i * (u64::MAX as int) <= usize::MAX * (u64::MAX as int)) by (nonlinear_arith)
                requires
                    i <= usize::MAX,
            ;
            if n.spent_in.is_none() {
                total = total + n.value as u128;
            }
            i = i + 1;
        }
        assert(self.notes@.take(i as int) =~= self.notes@);
        total
    }

    /// The store that replaces this one after a checkpoint conflict: a fresh
    /// account at the same birthday, anchored by `prior_frontier`, whose
    /// scan starts over from the birthday.
    pub fn rebuilt(&self, prior_frontier: Hash32) -> (r: WalletStore)
        ensures
            r.birthday == self.birthday,
            r.cursor is None,
            r.checkpoints@ == seq![
                TreeCheckpoint { height: anchor_of(self.birthday), frontier: prior_frontier },
            ],
            r.ledger() == (Seq::<TxRecord>::empty(), Seq::<ReceivedNote>::empty(), Seq::<
                SentNote,
            >::empty()),
    {
        let r = WalletStore::bootstrap(self.birthday, prior_frontier);
        assert(r.transactions@ =~= Seq::<TxRecord>::empty());
        assert(r.notes@ =~= Seq::<ReceivedNote>::empty());
        assert(r.sent@ =~= Seq::<SentNote>::empty());
        r
    }
}

/// Applying blocks in two consecutive runs gives the ledger that one run over
/// all of them gives.
pub proof fn lemma_apply_blocks_split(l: Ledger, a: Seq<ScannedBlock>, b: Seq<ScannedBlock>)
    ensures
        apply_blocks(apply_blocks(l, a), b) == apply_blocks(l, a + b),
    decreases b.len(),
{
    if b.len() == 0 {
        assert(a + b =~= a);
    } else {
        lemma_apply_blocks_split(l, a, b.drop_last());
        assert((a + b).drop_last() =~= a + b.drop_last());
        assert((a + b).last() == b.last());
    }
}

proof fn lemma_record_holds(cps: Seq<TreeCheckpoint>, h: u64, f: Hash32)
    requires
        !conflicts(cps, h, f),
    ensures
        holds_checkpoint(record_checkpoint(cps, h, f), h, f),
{
    if !has_checkpoint_at(cps, h) {
        let r = cps.push(TreeCheckpoint { height: h, frontier: f });
        assert(r[cps.len() as int].height == h);
        assert forall|i: int| 0 <= i < r.len() && r[i].height == h implies r[i].frontier == f by {
            if i < cps.len() {
                assert(r[i] == cps[i]);
            }
        }
    }
}

/// Resuming is idempotent: scanning a range as one batch, or as a first
/// batch followed by one that continues it, ends with the same transactions,
/// notes and sent notes, the same cursor, and the same tree state
/// checkpointed at the last height.
pub proof fn lemma_split_scan_matches_single_scan(
    s0: WalletStore,
    a: Seq<ScannedBlock>,
    b: Seq<ScannedBlock>,
    s1: WalletStore,
    s2: WalletStore,
    single: WalletStore,
)
    requires
        batch_persisted(s0, a, s1),
        batch_persisted(s1, b, s2),
        batch_persisted(s0, a + b, single),
    ensures
        s2.ledger() == single.ledger(),
        s2.cursor == single.cursor,
        holds_checkpoint(s2.checkpoints@, b.last().height, b.last().frontier),
        holds_checkpoint(single.checkpoints@, b.last().height, b.last().frontier),
{
    lemma_apply_blocks_split(s0.ledger(), a, b);
    assert((a + b).last() == b.last());
    lemma_record_holds(s1.checkpoints@, b.last().height, b.last().frontier);
    lemma_record_holds(s0.checkpoints@, b.last().height, b.last().frontier);
}

/// A successful write never moves the cursor back.
pub proof fn lemma_cursor_monotone(old: WalletStore, bs: Seq<ScannedBlock>, new: WalletStore)
    requires
        batch_persisted(old, bs, new),
    ensures
        cursor_not_behind(old.cursor, new.cursor),
        new.next_height() > old.next_height(),
{
    assert(bs[bs.len() - 1].height == old.next_height() + bs.len() - 1);
}

} // verus!
