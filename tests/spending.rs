use wallet_sync::broadcast::{interpret_broadcast, BroadcastOutcome};
use wallet_sync::selection::{select_notes, spendable_notes, SelectedNote, SelectionError};
use wallet_sync::store::{Hash32, Pool, ReceivedNote, WalletStore};

fn n(value: u64, note_id: u64) -> SelectedNote {
    SelectedNote { value, note_id }
}

#[test]
fn selection_takes_largest_first() {
    let cands = vec![n(100, 0), n(5_000, 1), n(20_000, 2), n(700, 3)];
    let r = select_notes(&cands, 21_000, 1_000).unwrap();
    assert_eq!(r.selected_notes, vec![n(20_000, 2), n(5_000, 1)]);
    assert_eq!(r.total_selected, 25_000);
    assert_eq!(r.change_amount, 3_000);
}

#[test]
fn selection_stops_as_soon_as_covered() {
    let cands = vec![n(100, 0), n(5_000, 1), n(20_000, 2)];
    let r = select_notes(&cands, 10_000, 10_000).unwrap();
    assert_eq!(r.selected_notes, vec![n(20_000, 2)]);
    assert_eq!(r.change_amount, 0);
}

#[test]
fn selection_reports_insufficient_funds() {
    let r = select_notes(&Vec::new(), 100_000, 10_000);
    assert_eq!(
        r.unwrap_err(),
        SelectionError::InsufficientFunds { required: 110_000, available: 0 }
    );
    let cands = vec![n(50_000, 0), n(59_999, 1)];
    assert!(matches!(
        select_notes(&cands, 100_000, 10_000),
        Err(SelectionError::InsufficientFunds { required: 110_000, available: 109_999 })
    ));
}

#[test]
fn selection_reports_overflow() {
    let cands = vec![n(u64::MAX, 0), n(1, 1)];
    assert!(matches!(select_notes(&cands, 1, 0), Err(SelectionError::ValueOverflow)));
}

#[test]
fn nothing_is_selected_for_nothing() {
    let r = select_notes(&vec![n(3, 0)], 0, 0).unwrap();
    assert!(r.selected_notes.is_empty());
    assert_eq!(r.total_selected, 0);
}

#[test]
fn spendable_notes_skip_spent_ones() {
    let h = Hash32 { w0: 1, w1: 0, w2: 0, w3: 0 };
    let mk = |value: u64, spent: bool| ReceivedNote {
        txid: h,
        output_index: 0,
        value,
        pool: Pool::Sapling,
        is_change: false,
        spent_in: if spent { Some(h) } else { None },
    };
    let store = WalletStore {
        birthday: 1,
        cursor: None,
        checkpoints: Vec::new(),
        transactions: Vec::new(),
        notes: vec![mk(4, false), mk(9, true), mk(6, false)],
        sent: Vec::new(),
    };
    assert_eq!(spendable_notes(&store), vec![n(4, 0), n(6, 2)]);
    assert_eq!(store.balance(), 10);
}

#[test]
fn accepted_broadcast_carries_the_txid() {
    match interpret_broadcast(0, "abcd".to_string()) {
        BroadcastOutcome::Accepted { txid } => assert_eq!(txid, "abcd"),
        other => panic!("unexpected {:?}", other),
    }
}

#[test]
fn hex_rejection_reason_is_decoded() {
    match interpret_broadcast(-26, "6261642d74786e73".to_string()) {
        BroadcastOutcome::Rejected { reason, code } => {
            assert_eq!(reason, "bad-txns");
            assert_eq!(code, -26);
        }
        other => panic!("unexpected {:?}", other),
    }
    match interpret_broadcast(1, "4F4B".to_string()) {
        BroadcastOutcome::Rejected { reason, .. } => assert_eq!(reason, "OK"),
        other => panic!("unexpected {:?}", other),
    }
}

#[test]
fn plain_rejection_reason_is_kept() {
    for msg in ["bad-txns-inputs-spent", "abc", "ff", ""] {
        match interpret_broadcast(18, msg.to_string()) {
            BroadcastOutcome::Rejected { reason, code } => {
                assert_eq!(code, 18);
                if msg == "" {
                    assert_eq!(reason, "");
                } else {
                    assert_eq!(reason, msg);
                }
            }
            other => panic!("unexpected {:?}", other),
        }
    }
}
