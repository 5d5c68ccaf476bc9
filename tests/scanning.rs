use wallet_sync::config::{default_birthday, Network};
use wallet_sync::engine::persist_batch;
use wallet_sync::recovery::{decide_after_failure, RetryDecision};
use wallet_sync::scan::{
    plan_batches, resume_point, BlockRange, ScanAction, ScanError, ScanSession, ScanStart,
};
use wallet_sync::store::{
    Hash32, NoteSpend, Pool, ReceivedNote, ScannedBlock, TreeCheckpoint, TxRecord, WalletStore,
};

fn h(n: u64) -> Hash32 {
    Hash32 { w0: n, w1: 0, w2: 0, w3: 0 }
}

fn frontier(height: u64) -> Hash32 {
    Hash32 { w0: height, w1: 7, w2: 7, w3: 7 }
}

/// Block 1075 pays the account 25,000; block `spend_at`, if any, spends it.
fn block(height: u64, spend_at: Option<u64>) -> ScannedBlock {
    let mut b = ScannedBlock {
        height,
        frontier: frontier(height),
        transactions: Vec::new(),
        received: Vec::new(),
        spends: Vec::new(),
        sent: Vec::new(),
    };
    if height == 1075 {
        b.transactions.push(TxRecord {
            txid: h(1075),
            mined_height: Some(1075),
            tx_index: Some(0),
            fee: None,
        });
        b.received.push(ReceivedNote {
            txid: h(1075),
            output_index: 0,
            value: 25_000,
            pool: Pool::Orchard,
            is_change: false,
            spent_in: None,
        });
    }
    if spend_at == Some(height) {
        b.transactions.push(TxRecord {
            txid: h(height),
            mined_height: Some(height),
            tx_index: Some(1),
            fee: Some(10_000),
        });
        b.spends.push(NoteSpend { txid: h(1075), output_index: 0, spending_txid: h(height) });
    }
    b
}

fn blocks(start: u64, end: u64, spend_at: Option<u64>) -> Vec<ScannedBlock> {
    (start..=end).map(|x| block(x, spend_at)).collect()
}

/// Runs one scan invocation to the tip; returns the batches it downloaded.
fn run_scan(store: &mut WalletStore, tip: u64, size: u64, spend_at: Option<u64>) -> Vec<BlockRange> {
    let mut session = ScanSession::begin(store.birthday, store.cursor, tip, size).unwrap();
    let mut ranges = Vec::new();
    loop {
        match session.next_action() {
            ScanAction::Download(r) => {
                ranges.push(r);
                persist_batch(&mut session, store, &blocks(r.start, r.end, spend_at)).unwrap();
            }
            ScanAction::Finished(_) => return ranges,
        }
    }
}

#[test]
fn test_birthday_heights() {
    assert_eq!(default_birthday(Network::Testnet), 280_000);
    assert_eq!(default_birthday(Network::Mainnet), 419_200);
}

#[test]
fn batches_of_the_concrete_scenario() {
    let plan = plan_batches(1000, 1120, 50);
    assert_eq!(
        plan,
        vec![
            BlockRange { start: 1000, end: 1049 },
            BlockRange { start: 1050, end: 1099 },
            BlockRange { start: 1100, end: 1120 },
        ]
    );
}

#[test]
fn full_scan_of_the_concrete_scenario() {
    let mut store = WalletStore::bootstrap(1000, frontier(999));
    let ranges = run_scan(&mut store, 1120, 50, None);
    assert_eq!(ranges.len(), 3);
    assert_eq!(ranges[2], BlockRange { start: 1100, end: 1120 });
    assert_eq!(store.cursor, Some(1120));
    assert_eq!(store.balance(), 25_000);
}

#[test]
fn spend_later_in_the_range_lowers_the_balance() {
    let mut store = WalletStore::bootstrap(1000, frontier(999));
    run_scan(&mut store, 1120, 50, Some(1110));
    assert_eq!(store.balance(), 0);
    assert_eq!(store.notes[0].spent_in, Some(h(1110)));
    assert_eq!(store.transactions.len(), 2);
}

#[test]
fn split_scan_equals_single_scan() {
    let mut single = WalletStore::bootstrap(1000, frontier(999));
    single.apply_batch(&blocks(1000, 1120, Some(1110))).unwrap();
    let mut split = WalletStore::bootstrap(1000, frontier(999));
    split.apply_batch(&blocks(1000, 1080, Some(1110))).unwrap();
    split.apply_batch(&blocks(1081, 1120, Some(1110))).unwrap();
    assert_eq!(single.notes, split.notes);
    assert_eq!(single.transactions, split.transactions);
    assert_eq!(single.sent, split.sent);
    assert_eq!(single.cursor, split.cursor);
    assert!(split.checkpoints.contains(&TreeCheckpoint { height: 1120, frontier: frontier(1120) }));
    assert!(single.checkpoints.contains(&TreeCheckpoint { height: 1120, frontier: frontier(1120) }));
}

#[test]
fn caught_up_scan_downloads_nothing() {
    let mut store = WalletStore::bootstrap(1000, frontier(999));
    run_scan(&mut store, 1120, 50, None);
    let before = store.clone();
    let ranges = run_scan(&mut store, 1120, 50, None);
    assert!(ranges.is_empty());
    assert_eq!(store.notes, before.notes);
    assert_eq!(store.checkpoints, before.checkpoints);
    assert_eq!(store.cursor, before.cursor);
    let session = ScanSession::begin(1000, Some(1120), 1120, 50).unwrap();
    match session.next_action() {
        ScanAction::Finished(s) => {
            assert_eq!(s.blocks_scanned, 0);
            assert_eq!(s.start_height, 1120);
            assert_eq!(s.end_height, 1120);
        }
        ScanAction::Download(_) => panic!("a caught-up scan downloaded"),
    }
}

#[test]
fn resume_point_cases() {
    assert_eq!(resume_point(1000, None, 1120), Ok(ScanStart::From(1000)));
    assert_eq!(resume_point(1000, Some(1049), 1120), Ok(ScanStart::From(1050)));
    assert_eq!(resume_point(1000, Some(1120), 1120), Ok(ScanStart::CaughtUp));
    assert_eq!(
        resume_point(1000, None, 999),
        Err(ScanError::TipBeforeBirthday { tip: 999, birthday: 1000 })
    );
}

#[test]
fn cursor_only_moves_forward() {
    let mut store = WalletStore::bootstrap(1000, frontier(999));
    run_scan(&mut store, 1060, 50, None);
    assert_eq!(store.cursor, Some(1060));
    run_scan(&mut store, 1120, 50, None);
    assert_eq!(store.cursor, Some(1120));
    let before = store.clone();
    assert_eq!(
        store.apply_batch(&blocks(1050, 1060, None)),
        Err(ScanError::NotContiguous { height: 1050 })
    );
    assert_eq!(store.cursor, before.cursor);
    assert_eq!(store.notes, before.notes);
}

#[test]
fn batch_that_misses_its_range_is_refused() {
    let mut store = WalletStore::bootstrap(1000, frontier(999));
    let mut session = ScanSession::begin(1000, None, 1120, 50).unwrap();
    let r = persist_batch(&mut session, &mut store, &blocks(1000, 1040, None));
    assert_eq!(r, Err(ScanError::BatchMismatch { start: 1000, end: 1049 }));
    assert_eq!(store.cursor, None);
    assert_eq!(session.next, 1000);
}

#[test]
fn conflict_leads_to_a_rebuild_from_birthday() {
    let mut store = WalletStore::bootstrap(1000, frontier(999));
    store.checkpoints.push(TreeCheckpoint { height: 1049, frontier: h(1) });
    let mut session = ScanSession::begin(1000, None, 1120, 50).unwrap();
    let r = persist_batch(&mut session, &mut store, &blocks(1000, 1049, None));
    assert_eq!(r, Err(ScanError::CheckpointConflict { height: 1049 }));
    assert_eq!(store.cursor, None);
    let err = r.unwrap_err();
    assert_eq!(decide_after_failure(err, false), RetryDecision::RebuildAndRescan);
    assert_eq!(decide_after_failure(err, true), RetryDecision::Fail);
    assert_eq!(
        decide_after_failure(ScanError::NotContiguous { height: 5 }, false),
        RetryDecision::Fail
    );
    let mut rebuilt = store.rebuilt(frontier(999));
    assert_eq!(rebuilt.cursor, None);
    assert_eq!(rebuilt.checkpoints, vec![TreeCheckpoint { height: 999, frontier: frontier(999) }]);
    assert_eq!(resume_point(rebuilt.birthday, rebuilt.cursor, 1120), Ok(ScanStart::From(1000)));
    let ranges = run_scan(&mut rebuilt, 1120, 50, None);
    assert_eq!(ranges[0], BlockRange { start: 1000, end: 1049 });
    assert_eq!(rebuilt.balance(), 25_000);
}

#[test]
fn anchor_replaces_stale_checkpoints() {
    let mut store = WalletStore::bootstrap(1000, frontier(999));
    store.checkpoints.push(TreeCheckpoint { height: 1200, frontier: h(3) });
    store.checkpoints.push(TreeCheckpoint { height: 999, frontier: h(4) });
    store.install_anchor(999, h(9));
    assert_eq!(store.checkpoints, vec![TreeCheckpoint { height: 999, frontier: h(9) }]);
    let zero = WalletStore::bootstrap(0, h(5));
    assert_eq!(zero.checkpoints, vec![TreeCheckpoint { height: 0, frontier: h(5) }]);
}

#[test]
fn balance_sums_unspent_notes_of_both_pools() {
    let mut store = WalletStore::bootstrap(1, frontier(0));
    assert_eq!(store.balance(), 0);
    let mut b = block(1, None);
    for (i, (v, pool, spent)) in [(5u64, Pool::Sapling, false), (7, Pool::Orchard, false), (11, Pool::Sapling, true)]
        .iter()
        .enumerate()
    {
        b.received.push(ReceivedNote {
            txid: h(1),
            output_index: i as u32,
            value: *v,
            pool: *pool,
            is_change: false,
            spent_in: if *spent { Some(h(2)) } else { None },
        });
    }
    store.apply_batch(&vec![b]).unwrap();
    assert_eq!(store.balance(), 12);
    let big = WalletStore {
        birthday: 1,
        cursor: None,
        checkpoints: Vec::new(),
        transactions: Vec::new(),
        notes: vec![
            ReceivedNote {
                txid: h(1),
                output_index: 0,
                value: u64::MAX,
                pool: Pool::Orchard,
                is_change: false,
                spent_in: None,
            };
            2
        ],
        sent: Vec::new(),
    };
    assert_eq!(big.balance(), 2 * (u64::MAX as u128));
}
