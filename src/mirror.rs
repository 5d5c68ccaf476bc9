use vstd::prelude::*;
use crate::store::{Hash32, ReceivedNote, SentNote, TxRecord};

verus! {

/// A transaction row of the shared relational store.
#[derive(Debug, Clone, Copy, PartialEq, Eq, Structural)]
pub struct MirrorTx {
    pub id: u64,
    pub user: u128,
    pub txid: Hash32,
    pub block_height: Option<u64>,
    pub tx_index: Option<u32>,
    pub fee: Option<u64>,
}

/// A received-note row of the shared relational store.
#[derive(Debug, Clone, Copy, PartialEq, Eq, Structural)]
pub struct MirrorNote {
    pub user: u128,
    pub txid: Hash32,
    pub transaction_id: u64,
    pub note_index: u32,
    pub value: u64,
    pub is_change: bool,
    pub spent_in_tx_id: Option<u64>,
}

/// A sent-note row of the shared relational store.
#[derive(Debug, Clone, Copy, PartialEq, Eq, Structural)]
pub struct MirrorSent {
    pub user: u128,
    pub txid: Hash32,
    pub transaction_id: u64,
    pub output_index: u32,
    pub value: u64,
}

/// What the read phase takes out of an account's embedded store.
#[derive(Debug, Clone)]
pub struct AccountSnapshot {
    pub transactions: Vec<TxRecord>,
    pub notes: Vec<ReceivedNote>,
    pub sent: Vec<SentNote>,
}

/// The shared relational store's projection of every user's records.
/// `next_id` is the id the next new transaction row receives.
#[derive(Debug, Clone)]
pub struct MirrorStore {
    pub transactions: Vec<MirrorTx>,
    pub notes: Vec<MirrorNote>,
    pub sent: Vec<MirrorSent>,
    pub next_id: u64,
}

pub type TxTable = (Seq<MirrorTx>, u64);

pub type MirrorView = (Seq<MirrorTx>, Seq<MirrorNote>, Seq<MirrorSent>, u64);

pub type SnapshotView = (Seq<TxRecord>, Seq<ReceivedNote>, Seq<SentNote>);

pub open spec fn succ_sat(n: u64) -> u64 {
    if n < u64::MAX {
        (n + 1) as u64
    } else {
        n
    }
}

pub open spec fn tx_key(r: MirrorTx, user: u128, txid: Hash32) -> bool {
    r.user == user && r.txid == txid
}

/// The id of the first transaction row of `user` for `txid`.
pub open spec fn find_tx_id(rows: Seq<MirrorTx>, user: u128, txid: Hash32) -> Option<u64>
    decreases rows.len(),
{
    if rows.len() == 0 {
        None
    } else if tx_key(rows[0], user, txid) {
        Some(rows[0].id)
    } else {
        find_tx_id(rows.drop_first(), user, txid)
    }
}

pub open spec fn has_tx_row(rows: Seq<MirrorTx>, user: u128, txid: Hash32) -> bool {
    exists|i: int| 0 <= i < rows.len() && tx_key(rows[i], user, txid)
}

/// The row `t` becomes, keeping the id `id`.
pub open spec fn tx_row(id: u64, user: u128, t: TxRecord) -> MirrorTx {
    MirrorTx {
        id,
        user,
        txid: t.txid,
        block_height: t.mined_height,
        tx_index: t.tx_index,
        fee: t.fee,
    }
}

/// Upsert keyed by (user, txid): rows with that key take the new values
/// and keep their ids; with none, a row is added under `next_id`.
pub open spec fn upsert_tx_row(tab: TxTable, user: u128, t: TxRecord) -> TxTable {
    if has_tx_row(tab.0, user, t.txid) {
        (
            tab.0.map_values(
                |r: MirrorTx| if tx_key(r, user, t.txid) { tx_row(r.id, user, t) } else { r },
            ),
            tab.1,
        )
    } else {
        (tab.0.push(tx_row(tab.1, user, t)), succ_sat(tab.1))
    }
}

pub open spec fn tx_phase(tab: TxTable, user: u128, ts: Seq<TxRecord>) -> TxTable
    decreases ts.len(),
{
    if ts.len() == 0 {
        tab
    } else {
        upsert_tx_row(tx_phase(tab, user, ts.drop_last()), user, ts.last())
    }
}

/// The row a received note becomes, once its transaction is mirrored; its
/// spend resolves to the spending transaction's row where that is mirrored.
pub open spec fn note_row(rows: Seq<MirrorTx>, user: u128, n: ReceivedNote) -> Option<MirrorNote> {
    match find_tx_id(rows, user, n.txid) {
        None => None,
        Some(tid) => Some(
            MirrorNote {
                user,
                txid: n.txid,
                transaction_id: tid,
                note_index: n.output_index,
                value: n.value,
                is_change: n.is_change,
                spent_in_tx_id: match n.spent_in {
                    None => None,
                    Some(s) => find_tx_id(rows, user, s),
                },
            },
        ),
    }
}

pub open spec fn note_key(a: MirrorNote, b: MirrorNote) -> bool {
    a.user == b.user && a.txid == b.txid && a.note_index == b.note_index
}

pub open spec fn has_note_row(notes: Seq<MirrorNote>, r: MirrorNote) -> bool {
    exists|i: int| 0 <= i < notes.len() && note_key(notes[i], r)
}

/// Upsert keyed by (user, transaction, note index).
pub open spec fn upsert_note_row(notes: Seq<MirrorNote>, r: MirrorNote) -> Seq<MirrorNote> {
    if has_note_row(notes, r) {
        notes.map_values(|x: MirrorNote| if note_key(x, r) { r } else { x })
    } else {
        notes.push(r)
    }
}

pub open spec fn note_phase(
    notes: Seq<MirrorNote>,
    rows: Seq<MirrorTx>,
    user: u128,
    ns: Seq<ReceivedNote>,
) -> Seq<MirrorNote>
    decreases ns.len(),
{
    if ns.len() == 0 {
        notes
    } else {
        let prev = note_phase(notes, rows, user, ns.drop_last());
        match note_row(rows, user, ns.last()) {
            None => prev,
            Some(r) => upsert_note_row(prev, r),
        }
    }
}

pub open spec fn sent_row(rows: Seq<MirrorTx>, user: u128, s: SentNote) -> Option<MirrorSent> {
    match find_tx_id(rows, user, s.txid) {
        None => None,
        Some(tid) => Some(
            MirrorSent {
                user,
                txid: s.txid,
                transaction_id: tid,
                output_index: s.output_index,
                value: s.value,
            },
        ),
    }
}

pub open spec fn sent_key(a: MirrorSent, b: MirrorSent) -> bool {
    a.user == b.user && a.txid == b.txid && a.output_index == b.output_index
}

pub open spec fn has_sent_row(sent: Seq<MirrorSent>, r: MirrorSent) -> bool {
    exists|i: int| 0 <= i < sent.len() && sent_key(sent[i], r)
}

/// Insert keyed by (user, transaction, output index); an existing row is
/// left as it is.
pub open spec fn insert_sent_row(sent: Seq<MirrorSent>, r: MirrorSent) -> Seq<MirrorSent> {
    if has_sent_row(sent, r) {
        sent
    } else {
        sent.push(r)
    }
}

pub open spec fn sent_phase(
    sent: Seq<MirrorSent>,
    rows: Seq<MirrorTx>,
    user: u128,
    ss: Seq<SentNote>,
) -> Seq<MirrorSent>
    decreases ss.len(),
{
    if ss.len() == 0 {
        sent
    } else {
        let prev = sent_phase(sent, rows, user, ss.drop_last());
        match sent_row(rows, user, ss.last()) {
            None => prev,
            Some(r) => insert_sent_row(prev, r),
        }
    }
}

/// The relational store after projecting one account's snapshot: all
/// transactions first, then the received notes, then the sent notes.
pub open spec fn sync_spec(m: MirrorView, user: u128, snap: SnapshotView) -> MirrorView {
    let tab = tx_phase((m.0, m.3), user, snap.0);
    (tab.0, note_phase(m.1, tab.0, user, snap.1), sent_phase(m.2, tab.0, user, snap.2), tab.1)
}

/// The relational store with every row of `user` removed.
pub open spec fn without_user(m: MirrorView, user: u128) -> MirrorView {
    (
        m.0.filter(|r: MirrorTx| r.user != user),
        m.1.filter(|r: MirrorNote| r.user != user),
        m.2.filter(|r: MirrorSent| r.user != user),
        m.3,
    )
}

impl AccountSnapshot {
    pub open spec fn view(&self) -> SnapshotView {
        (self.transactions@, self.notes@, self.sent@)
    }
}

impl MirrorStore {
    pub open spec fn view(&self) -> MirrorView {
        (self.transactions@, self.notes@, self.sent@, self.next_id)
    }

    /// An empty relational store whose first transaction row gets id 1.
    pub fn new() -> (r: MirrorStore)
        ensures
            r.view() == (Seq::<MirrorTx>::empty(), Seq::<MirrorNote>::empty(), Seq::<
                MirrorSent,
            >::empty(), 1u64),
    {
        let r = MirrorStore {
            transactions: Vec::new(),
            notes: Vec::new(),
            sent: Vec::new(),
            next_id: 1,
        };
        assert(r.transactions@ =~= Seq::<MirrorTx>::empty());
        assert(r.notes@ =~= Seq::<MirrorNote>::empty());
        assert(r.sent@ =~= Seq::<MirrorSent>::empty());
        r
    }

    /// The id of `user`'s transaction row for `txid`, if mirrored.
    pub fn transaction_id(&self, user: u128, txid: Hash32) -> (r: Option<u64>)
        ensures
            r == find_tx_id(self.transactions@, user, txid),
    {
        let mut i: usize = 0;
        assert(self.transactions@.subrange(0, self.transactions@.len() as int)
            =~= self.transactions@);
        while i < self.transactions.len()
            invariant
                0 <= i <= self.transactions@.len(),
                find_tx_id(self.transactions@, user, txid) == find_tx_id(
                    self.transactions@.subrange(i as int, self.transactions@.len() as int),
                    user,
                    txid,
                ),
            decreases self.transactions.len() - i,
        {
            let ghost rest = self.transactions@.subrange(i as int, self.transactions@.len() as int);
            assert(rest.drop_first() =~= self.transactions@.subrange(
                i + 1,
                self.transactions@.len() as int,
            ));
            assert(rest[0] == self.transactions@[i as int]);
            let r = self.transactions[i];
            if r.user == user && r.txid == txid {
                return Some(r.id);
            }
            i = i + 1;
        }
        None
    }

    fn upsert_transaction(&mut self, user: u128, t: TxRecord)
        ensures
            (final(self).transactions@, final(self).next_id) == upsert_tx_row(
                (old(self).transactions@, old(self).next_id),
                user,
                t,
            ),
            final(self).notes@ == old(self).notes@,
            final(self).sent@ == old(self).sent@,
    {
        let ghost orig = self.transactions@;
        let mut found = false;
        let mut i: usize = 0;
        while i < self.transactions.len()
            invariant
                0 <= i <= self.transactions@.len(),
                self.transactions@.len() == orig.len(),
                self.next_id == old(self).next_id,
                self.notes@ == old(self).notes@,
                self.sent@ == old(self).sent@,
                orig == old(self).transactions@,
                forall|j: int|
                    0 <= j < i ==> #[trigger] self.transactions@[j] == (if tx_key(
                        orig[j],
                        user,
                        t.txid,
                    ) {
                        tx_row(orig[j].id, user, t)
                    } else {
                        orig[j]
                    }),
                forall|j: int| i <= j < self.transactions@.len() ==> #[trigger] self.transactions@[j] == orig[j],
                found <==> exists|j: int| 0 <= j < i && tx_key(orig[j], user, t.txid),
            decreases self.transactions.len() - i,
        {
            let r = self.transactions[i];
            if r.user == user && r.txid == t.txid {
                let row = MirrorTx {
                    id: r.id,
                    user,
                    txid: t.txid,
                    block_height: t.mined_height,
                    tx_index: t.tx_index,
                    fee: t.fee,
                };
                if row != r {
                    self.transactions.set(i, row);
                }
                found = true;
            }
            i = i + 1;
        }
        if !found {
            let id = self.next_id;
            self.transactions.push(
                MirrorTx {
                    id,
                    user,
                    txid: t.txid,
                    block_height: t.mined_height,
                    tx_index: t.tx_index,
                    fee: t.fee,
                },
            );
            self.next_id = if id < u64::MAX {
                id + 1
            } else {
                id
            };
            assert(self.transactions@ =~= orig.push(tx_row(id, user, t)));
        } else {
            assert(self.transactions@ =~= orig.map_values(
                |r: MirrorTx| if tx_key(r, user, t.txid) { tx_row(r.id, user, t) } else { r },
            ));
        }
    }

    fn upsert_note(&mut self, row: MirrorNote)
        ensures
            final(self).notes@ == upsert_note_row(old(self).notes@, row),
            final(self).transactions@ == old(self).transactions@,
            final(self).sent@ == old(self).sent@,
            final(self).next_id == old(self).next_id,
    {
        let ghost orig = self.notes@;
        let mut found = false;
        let mut i: usize = 0;
        while i < self.notes.len()
            invariant
                0 <= i <= self.notes@.len(),
                self.notes@.len() == orig.len(),
                orig == old(self).notes@,
                self.transactions@ == old(self).transactions@,
                self.sent@ == old(self).sent@,
                self.next_id == old(self).next_id,
                forall|j: int|
                    0 <= j < i ==> #[trigger] self.notes@[j] == (if note_key(orig[j], row) {
                        row
                    } else {
                        orig[j]
                    }),
                forall|j: int| i <= j < self.notes@.len() ==> #[trigger] self.notes@[j] == orig[j],
                found <==> exists|j: int| 0 <= j < i && note_key(orig[j], row),
            decreases self.notes.len() - i,
        {
            let r = self.notes[i];
            if r.user == row.user && r.txid == row.txid && r.note_index == row.note_index {
                if r != row {
                    self.notes.set(i, row);
                }
                found = true;
            }
            i = i + 1;
        }
        if !found {
            self.notes.push(row);
            assert(self.notes@ =~= orig.push(row));
        } else {
            assert(self.notes@ =~= orig.map_values(
                |x: MirrorNote| if note_key(x, row) { row } else { x },
            ));
        }
    }

    fn insert_sent(&mut self, row: MirrorSent)
        ensures
            final(self).sent@ == insert_sent_row(old(self).sent@, row),
            final(self).transactions@ == old(self).transactions@,
            final(self).notes@ == old(self).notes@,
            final(self).next_id == old(self).next_id,
    {
        let mut i: usize = 0;
        while i < self.sent.len()
            invariant
                0 <= i <= self.sent@.len(),
                forall|j: int| 0 <= j < i ==> !sent_key(#[trigger] self.sent@[j], row),
            decreases self.sent.len() - i,
        {
            let r = self.sent[i];
            if r.user == row.user && r.txid == row.txid && r.output_index == row.output_index {
                return;
            }
            i = i + 1;
        }
        self.sent.push(row);
    }

    /// Removes every row of `user` from the three tables.
    pub fn clear_user(&mut self, user: u128)
        ensures
            final(self).view() == without_user(old(self).view(), user),
    {
        let ghost t0 = self.transactions@;
        let mut txs: Vec<MirrorTx> = Vec::new();
        let mut i: usize = 0;
        while i < self.transactions.len()
            invariant
                0 <= i <= t0.len(),
                self.transactions@ == t0,
                txs@ == t0.take(i as int).filter(|r: MirrorTx| r.user != user),
            decreases self.transactions.len() - i,
        {
            let r = self.transactions[i];
            proof {
                assert(t0.take(i + 1).drop_last() =~= t0.take(i as int));
                reveal(Seq::filter);
            }
            if r.user != user {
                txs.push(r);
            }
            i = i + 1;
        }
        assert(t0.take(i as int) =~= t0);
        let ghost n0 = self.notes@;
        let mut notes: Vec<MirrorNote> = Vec::new();
        let mut k: usize = 0;
        while k < self.notes.len()
            invariant
                0 <= k <= n0.len(),
                self.notes@ == n0,
                notes@ == n0.take(k as int).filter(|r: MirrorNote| r.user != user),
            decreases self.notes.len() - k,
        {
            let r = self.notes[k];
            proof {
                assert(n0.take(k + 1).drop_last() =~= n0.take(k as int));
                reveal(Seq::filter);
            }
            if r.user != user {
                notes.push(r);
            }
            k = k + 1;
        }
        assert(n0.take(k as int) =~= n0);
        let ghost s0 = self.sent@;
        let mut sent: Vec<MirrorSent> = Vec::new();
        let mut j: usize = 0;
        while j < self.sent.len()
            invariant
                0 <= j <= s0.len(),
                self.sent@ == s0,
                sent@ == s0.take(j as int).filter(|r: MirrorSent| r.user != user),
            decreases self.sent.len() - j,
        {
            let r = self.sent[j];
            proof {
                assert(s0.take(j + 1).drop_last() =~= s0.take(j as int));
                reveal(Seq::filter);
            }
            if r.user != user {
                sent.push(r);
            }
            j = j + 1;
        }
        assert(s0.take(j as int) =~= s0);
        self.transactions = txs;
        self.notes = notes;
        self.sent = sent;
    }

    /// Projects one account's snapshot into the store: every transaction is
    /// upserted by (user, txid); then every received note whose transaction
    /// is mirrored is upserted by (user, txid, note index), its spend
    /// resolved to the spending transaction's row id where that is mirrored;
    /// then every sent note whose transaction is mirrored is inserted unless
    /// present. The embedded store is not touched.
    pub fn sync_account(&mut self, user: u128, snap: &AccountSnapshot)
        ensures
            final(self).view() == sync_spec(old(self).view(), user, snap.view()),
    {
        let ghost m0 = self.view();
        let mut i: usize = 0;
        while i < snap.transactions.len()
            invariant
                0 <= i <= snap.transactions@.len(),
                (self.transactions@, self.next_id) == tx_phase(
                    (m0.0, m0.3),
                    user,
                    snap.transactions@.take(i as int),
                ),
                self.notes@ == m0.1,
                self.sent@ == m0.2,
            decreases snap.transactions.len() - i,
        {
            self.upsert_transaction(user, snap.transactions[i]);
            assert(snap.transactions@.take(i + 1).drop_last() =~= snap.transactions@.take(
                i as int,
            ));
            i = i + 1;
        }
        assert(snap.transactions@.take(i as int) =~= snap.transactions@);
        let ghost rows = self.transactions@;
        let mut k: usize = 0;
        while k < snap.notes.len()
            invariant
                0 <= k <= snap.notes@.len(),
                self.transactions@ == rows,
                self.notes@ == note_phase(m0.1, rows, user, snap.notes@.take(k as int)),
                self.sent@ == m0.2,
                (rows, self.next_id) == tx_phase((m0.0, m0.3), user, snap.transactions@),
            decreases snap.notes.len() - k,
        {
            let n = snap.notes[k];
            assert(snap.notes@.take(k + 1).drop_last() =~= snap.notes@.take(k as int));
            match self.transaction_id(user, n.txid) {
                None => {},
                Some(tid) => {
                    let spent = match n.spent_in {
                        None => None,
                        Some(s) => self.transaction_id(user, s),
                    };
                    self.upsert_note(
                        MirrorNote {
                            user,
                            txid: n.txid,
                            transaction_id: tid,
                            note_index: n.output_index,
                            value: n.value,
                            is_change: n.is_change,
                            spent_in_tx_id: spent,
                        },
                    );
                },
            }
            k = k + 1;
        }
        assert(snap.notes@.take(k as int) =~= snap.notes@);
        let mut s: usize = 0;
        while s < snap.sent.len()
            invariant
                0 <= s <= snap.sent@.len(),
                self.transactions@ == rows,
                self.notes@ == note_phase(m0.1, rows, user, snap.notes@),
                self.sent@ == sent_phase(m0.2, rows, user, snap.sent@.take(s as int)),
                (rows, self.next_id) == tx_phase((m0.0, m0.3), user, snap.transactions@),
            decreases snap.sent.len() - s,
        {
            let e = snap.sent[s];
            assert(snap.sent@.take(s + 1).drop_last() =~= snap.sent@.take(s as int));
            match self.transaction_id(user, e.txid) {
                None => {},
                Some(tid) => {
                    self.insert_sent(
                        MirrorSent {
                            user,
                            txid: e.txid,
                            transaction_id: tid,
                            output_index: e.output_index,
                            value: e.value,
                        },
                    );
                },
            }
            s = s + 1;
        }
        assert(snap.sent@.take(s as int) =~= snap.sent@);
    }
}

/// The rows of `user` for `t`'s txid exist and all carry `t`'s values.
pub open spec fn tx_current(rows: Seq<MirrorTx>, user: u128, t: TxRecord) -> bool {
    &&& has_tx_row(rows, user, t.txid)
    &&& forall|i: int|
        0 <= i < rows.len() && tx_key(#[trigger] rows[i], user, t.txid) ==> rows[i] == tx_row(
            rows[i].id,
            user,
            t,
        )
}

/// The rows keyed like `r` exist and all equal `r`.
pub open spec fn note_current(notes: Seq<MirrorNote>, r: MirrorNote) -> bool {
    &&& has_note_row(notes, r)
    &&& forall|i: int| 0 <= i < notes.len() && note_key(#[trigger] notes[i], r) ==> notes[i] == r
}

pub open spec fn unique_txids(ts: Seq<TxRecord>) -> bool {
    forall|i: int, j: int| 0 <= i < j < ts.len() ==> #[trigger] ts[i].txid != #[trigger] ts[j].txid
}

pub open spec fn unique_note_keys(ns: Seq<ReceivedNote>) -> bool {
    forall|i: int, j: int|
        0 <= i < j < ns.len() ==> !(#[trigger] ns[i].txid == #[trigger] ns[j].txid
            && ns[i].output_index == ns[j].output_index)
}

/// What the embedded store guarantees of its records: one transaction per
/// txid, one note per (txid, output index).
pub open spec fn snapshot_keys_unique(snap: SnapshotView) -> bool {
    unique_txids(snap.0) && unique_note_keys(snap.1)
}

proof fn lemma_upsert_tx_current(tab: TxTable, user: u128, t: TxRecord, o: TxRecord)
    requires
        o == t || (tx_current(tab.0, user, o) && o.txid != t.txid),
    ensures
        tx_current(upsert_tx_row(tab, user, t).0, user, o),
{
    let rows = tab.0;
    let out = upsert_tx_row(tab, user, t).0;
    if has_tx_row(rows, user, t.txid) {
        assert(out.len() == rows.len());
        let w = choose|i: int| 0 <= i < rows.len() && tx_key(rows[i], user, o.txid);
        if o == t {
            let wt = choose|i: int| 0 <= i < rows.len() && tx_key(rows[i], user, t.txid);
            assert(tx_key(out[wt], user, o.txid));
        } else {
            assert(tx_key(out[w], user, o.txid));
        }
    } else {
        assert(out[rows.len() as int] == tx_row(tab.1, user, t));
        if o == t {
            assert(tx_key(out[rows.len() as int], user, o.txid));
        } else {
            let w = choose|i: int| 0 <= i < rows.len() && tx_key(rows[i], user, o.txid);
            assert(out[w] == rows[w]);
        }
        assert forall|i: int| 0 <= i < out.len() && tx_key(#[trigger] out[i], user, o.txid) implies out[i]
            == tx_row(out[i].id, user, o) by {
            if i < rows.len() {
                assert(out[i] == rows[i]);
            }
        }
    }
}

proof fn lemma_tx_phase_current(tab: TxTable, user: u128, ts: Seq<TxRecord>)
    requires
        unique_txids(ts),
    ensures
        forall|k: int| 0 <= k < ts.len() ==> tx_current(tx_phase(tab, user, ts).0, user, #[trigger] ts[k]),
    decreases ts.len(),
{
    if ts.len() > 0 {
        let init = ts.drop_last();
        lemma_tx_phase_current(tab, user, init);
        let prev = tx_phase(tab, user, init);
        assert forall|k: int| 0 <= k < ts.len() implies tx_current(
            tx_phase(tab, user, ts).0,
            user,
            #[trigger] ts[k],
        ) by {
            if k < ts.len() - 1 {
                assert(init[k] == ts[k]);
                assert(ts[k].txid != ts[ts.len() - 1].txid);
            }
            lemma_upsert_tx_current(prev, user, ts.last(), ts[k]);
        }
    }
}

proof fn lemma_tx_phase_noop(tab: TxTable, user: u128, ts: Seq<TxRecord>)
    requires
        forall|k: int| 0 <= k < ts.len() ==> tx_current(tab.0, user, #[trigger] ts[k]),
    ensures
        tx_phase(tab, user, ts) == tab,
    decreases ts.len(),
{
    if ts.len() > 0 {
        let init = ts.drop_last();
        assert forall|k: int| 0 <= k < init.len() implies tx_current(tab.0, user, #[trigger] init[k]) by {
            assert(init[k] == ts[k]);
        }
        lemma_tx_phase_noop(tab, user, init);
        let t = ts.last();
        assert(tx_current(tab.0, user, ts[ts.len() - 1]));
        assert(tab.0.map_values(
            |r: MirrorTx| if tx_key(r, user, t.txid) { tx_row(r.id, user, t) } else { r },
        ) =~= tab.0);
    }
}

proof fn lemma_upsert_note_current(notes: Seq<MirrorNote>, r: MirrorNote, o: MirrorNote)
    requires
        o == r || (note_current(notes, o) && !note_key(o, r)),
    ensures
        note_current(upsert_note_row(notes, r), o),
{
    let out = upsert_note_row(notes, r);
    if has_note_row(notes, r) {
        if o == r {
            let w = choose|i: int| 0 <= i < notes.len() && note_key(notes[i], r);
            assert(note_key(out[w], o));
        } else {
            let w = choose|i: int| 0 <= i < notes.len() && note_key(notes[i], o);
            assert(note_key(out[w], o));
        }
    } else {
        if o == r {
            assert(note_key(out[notes.len() as int], o));
        } else {
            let w = choose|i: int| 0 <= i < notes.len() && note_key(notes[i], o);
            assert(out[w] == notes[w]);
        }
        assert forall|i: int| 0 <= i < out.len() && note_key(#[trigger] out[i], o) implies out[i]
            == o by {
            if i < notes.len() {
                assert(out[i] == notes[i]);
            }
        }
    }
}

proof fn lemma_note_phase_current(
    notes: Seq<MirrorNote>,
    rows: Seq<MirrorTx>,
    user: u128,
    ns: Seq<ReceivedNote>,
)
    requires
        unique_note_keys(ns),
    ensures
        forall|k: int|
            0 <= k < ns.len() ==> (#[trigger] note_row(rows, user, ns[k]) matches Some(r)
                ==> note_current(note_phase(notes, rows, user, ns), r)),
    decreases ns.len(),
{
    if ns.len() > 0 {
        let init = ns.drop_last();
        lemma_note_phase_current(notes, rows, user, init);
        let prev = note_phase(notes, rows, user, init);
        assert forall|k: int| 0 <= k < ns.len() implies (#[trigger] note_row(
            rows,
            user,
            ns[k],
        ) matches Some(r) ==> note_current(note_phase(notes, rows, user, ns), r)) by {
            if k < ns.len() - 1 {
                assert(init[k] == ns[k]);
            }
            if let Some(r) = note_row(rows, user, ns[k]) {
                if let Some(last) = note_row(rows, user, ns.last()) {
                    if k < ns.len() - 1 {
                        assert(!(ns[k].txid == ns[ns.len() - 1].txid && ns[k].output_index
                            == ns[ns.len() - 1].output_index));
                    }
                    lemma_upsert_note_current(prev, last, r);
                }
            }
        }
    }
}

proof fn lemma_note_phase_noop(
    notes: Seq<MirrorNote>,
    rows: Seq<MirrorTx>,
    user: u128,
    ns: Seq<ReceivedNote>,
)
    requires
        forall|k: int|
            0 <= k < ns.len() ==> (#[trigger] note_row(rows, user, ns[k]) matches Some(r)
                ==> note_current(notes, r)),
    ensures
        note_phase(notes, rows, user, ns) == notes,
    decreases ns.len(),
{
    if ns.len() > 0 {
        let init = ns.drop_last();
        assert forall|k: int| 0 <= k < init.len() implies (#[trigger] note_row(
            rows,
            user,
            init[k],
        ) matches Some(r) ==> note_current(notes, r)) by {
            assert(init[k] == ns[k]);
        }
        lemma_note_phase_noop(notes, rows, user, init);
        assert(note_row(rows, user, ns[ns.len() - 1]) == note_row(rows, user, ns.last()));
        if let Some(r) = note_row(rows, user, ns.last()) {
            assert(notes.map_values(|x: MirrorNote| if note_key(x, r) { r } else { x }) =~= notes);
        }
    }
}

proof fn lemma_sent_phase_present(
    sent: Seq<MirrorSent>,
    rows: Seq<MirrorTx>,
    user: u128,
    ss: Seq<SentNote>,
)
    ensures
        forall|k: int|
            0 <= k < ss.len() ==> (#[trigger] sent_row(rows, user, ss[k]) matches Some(r)
                ==> has_sent_row(sent_phase(sent, rows, user, ss), r)),
    decreases ss.len(),
{
    if ss.len() > 0 {
        let init = ss.drop_last();
        lemma_sent_phase_present(sent, rows, user, init);
        let prev = sent_phase(sent, rows, user, init);
        assert forall|k: int| 0 <= k < ss.len() implies (#[trigger] sent_row(
            rows,
            user,
            ss[k],
        ) matches Some(r) ==> has_sent_row(sent_phase(sent, rows, user, ss), r)) by {
            if k < ss.len() - 1 {
                assert(init[k] == ss[k]);
            }
            if let Some(r) = sent_row(rows, user, ss[k]) {
                if let Some(last) = sent_row(rows, user, ss.last()) {
                    if !has_sent_row(prev, last) {
                        let out = prev.push(last);
                        if k < ss.len() - 1 {
                            let w = choose|i: int| 0 <= i < prev.len() && sent_key(prev[i], r);
                            assert(out[w] == prev[w]);
                        } else {
                            assert(sent_key(out[prev.len() as int], r));
                        }
                    }
                }
            }
        }
    }
}

proof fn lemma_sent_phase_noop(
    sent: Seq<MirrorSent>,
    rows: Seq<MirrorTx>,
    user: u128,
    ss: Seq<SentNote>,
)
    requires
        forall|k: int|
            0 <= k < ss.len() ==> (#[trigger] sent_row(rows, user, ss[k]) matches Some(r)
                ==> has_sent_row(sent, r)),
    ensures
        sent_phase(sent, rows, user, ss) == sent,
    decreases ss.len(),
{
    if ss.len() > 0 {
        let init = ss.drop_last();
        assert forall|k: int| 0 <= k < init.len() implies (#[trigger] sent_row(
            rows,
            user,
            init[k],
        ) matches Some(r) ==> has_sent_row(sent, r)) by {
            assert(init[k] == ss[k]);
        }
        lemma_sent_phase_noop(sent, rows, user, init);
        assert(sent_row(rows, user, ss[ss.len() - 1]) == sent_row(rows, user, ss.last()));
    }
}

/// Mirroring is idempotent: syncing an account a second time from the same
/// snapshot adds no row and changes no value.
pub proof fn lemma_sync_idempotent(m: MirrorView, user: u128, snap: SnapshotView)
    requires
        snapshot_keys_unique(snap),
    ensures
        sync_spec(sync_spec(m, user, snap), user, snap) == sync_spec(m, user, snap),
{
    let m1 = sync_spec(m, user, snap);
    let tab = tx_phase((m.0, m.3), user, snap.0);
    lemma_tx_phase_current((m.0, m.3), user, snap.0);
    lemma_tx_phase_noop(tab, user, snap.0);
    assert((m1.0, m1.3) == tab);
    lemma_note_phase_current(m.1, tab.0, user, snap.1);
    lemma_note_phase_noop(m1.1, tab.0, user, snap.1);
    lemma_sent_phase_present(m.2, tab.0, user, snap.2);
    lemma_sent_phase_noop(m1.2, tab.0, user, snap.2);
}

} // verus!
