use wallet_sync::mirror::{AccountSnapshot, MirrorStore};
use wallet_sync::store::{Hash32, Pool, ReceivedNote, SentNote, TxRecord};

fn h(n: u64) -> Hash32 {
    Hash32 { w0: n, w1: 1, w2: 2, w3: 3 }
}

fn tx(n: u64, fee: Option<u64>) -> TxRecord {
    TxRecord { txid: h(n), mined_height: Some(n), tx_index: Some(0), fee }
}

fn note(n: u64, index: u32, value: u64, spent_in: Option<u64>) -> ReceivedNote {
    ReceivedNote {
        txid: h(n),
        output_index: index,
        value,
        pool: Pool::Sapling,
        is_change: false,
        spent_in: spent_in.map(h),
    }
}

fn snapshot() -> AccountSnapshot {
    AccountSnapshot {
        transactions: vec![tx(10, None), tx(20, Some(1000))],
        notes: vec![note(10, 0, 500, Some(20)), note(10, 1, 700, None)],
        sent: vec![SentNote { txid: h(20), output_index: 0, value: 400 }],
    }
}

#[test]
fn second_sync_changes_nothing() {
    let mut m = MirrorStore::new();
    m.sync_account(7, &snapshot());
    assert_eq!(m.transactions.len(), 2);
    assert_eq!(m.notes.len(), 2);
    assert_eq!(m.sent.len(), 1);
    let first = m.clone();
    m.sync_account(7, &snapshot());
    assert_eq!(m.transactions, first.transactions);
    assert_eq!(m.notes, first.notes);
    assert_eq!(m.sent, first.sent);
    assert_eq!(m.next_id, first.next_id);
}

#[test]
fn spend_reference_resolves_to_the_spending_row() {
    let mut m = MirrorStore::new();
    m.sync_account(7, &snapshot());
    let spender = m.transaction_id(7, h(20)).unwrap();
    assert_eq!(spender, 2);
    assert_eq!(m.notes[0].spent_in_tx_id, Some(spender));
    assert_eq!(m.notes[0].transaction_id, 1);
    assert_eq!(m.notes[1].spent_in_tx_id, None);
}

#[test]
fn unresolved_spend_is_corrected_by_a_later_sync() {
    let mut m = MirrorStore::new();
    let early = AccountSnapshot {
        transactions: vec![tx(10, None)],
        notes: vec![note(10, 0, 500, Some(20))],
        sent: Vec::new(),
    };
    m.sync_account(7, &early);
    assert_eq!(m.notes[0].spent_in_tx_id, None);
    m.sync_account(7, &snapshot());
    assert_eq!(m.notes.len(), 2);
    assert_eq!(m.notes[0].spent_in_tx_id, Some(2));
}

#[test]
fn upsert_updates_values_in_place() {
    let mut m = MirrorStore::new();
    m.sync_account(7, &snapshot());
    let mut changed = snapshot();
    changed.transactions[0].fee = Some(55);
    changed.notes[1].value = 701;
    m.sync_account(7, &changed);
    assert_eq!(m.transactions.len(), 2);
    assert_eq!(m.transactions[0].fee, Some(55));
    assert_eq!(m.transactions[0].id, 1);
    assert_eq!(m.notes[1].value, 701);
}

#[test]
fn notes_of_unmirrored_transactions_wait() {
    let mut m = MirrorStore::new();
    let orphan = AccountSnapshot {
        transactions: Vec::new(),
        notes: vec![note(10, 0, 500, None)],
        sent: vec![SentNote { txid: h(10), output_index: 0, value: 1 }],
    };
    m.sync_account(7, &orphan);
    assert!(m.notes.is_empty());
    assert!(m.sent.is_empty());
}

#[test]
fn users_are_kept_apart_and_cleared_alone() {
    let mut m = MirrorStore::new();
    m.sync_account(7, &snapshot());
    m.sync_account(8, &snapshot());
    assert_eq!(m.transactions.len(), 4);
    assert_eq!(m.transaction_id(8, h(10)), Some(3));
    m.clear_user(7);
    assert_eq!(m.transactions.len(), 2);
    assert!(m.transactions.iter().all(|r| r.user == 8));
    assert!(m.notes.iter().all(|r| r.user == 8));
    assert!(m.sent.iter().all(|r| r.user == 8));
    assert_eq!(m.transaction_id(7, h(10)), None);
}
