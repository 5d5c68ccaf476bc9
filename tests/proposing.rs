use wallet_sync::config::Network;
use wallet_sync::proposal::{format_memo, propose_transfer, SendError, MAX_MONEY};
use wallet_sync::selection::SelectedNote;

fn notes() -> Vec<SelectedNote> {
    vec![
        SelectedNote { value: 30_000, note_id: 0 },
        SelectedNote { value: 80_000, note_id: 1 },
        SelectedNote { value: 10_000, note_id: 2 },
    ]
}

#[test]
fn proposal_selects_and_keeps_the_memo() {
    let p = propose_transfer(
        &notes(),
        Network::Testnet,
        Some(Network::Testnet),
        90_000,
        10_000,
        Some("hi"),
    )
    .unwrap();
    assert_eq!(p.amount, 90_000);
    assert_eq!(p.fee, 10_000);
    assert_eq!(
        p.selection.selected_notes,
        vec![SelectedNote { value: 80_000, note_id: 1 }, SelectedNote { value: 30_000, note_id: 0 }]
    );
    assert_eq!(p.selection.change_amount, 10_000);
    let memo = p.memo.unwrap();
    assert_eq!(memo.len(), 512);
    assert_eq!(&memo[..3], &[0xF4, b'h', b'i']);
    assert!(memo[3..].iter().all(|b| *b == 0));
}

#[test]
fn address_of_another_network_fails_first() {
    let r = propose_transfer(&Vec::new(), Network::Mainnet, Some(Network::Testnet), u64::MAX, 0, None);
    assert_eq!(r.unwrap_err(), SendError::AddressMismatch);
    let r = propose_transfer(&notes(), Network::Mainnet, None, 1, 0, None);
    assert_eq!(r.unwrap_err(), SendError::AddressMismatch);
}

#[test]
fn amount_above_supply_is_refused() {
    let r = propose_transfer(&notes(), Network::Testnet, Some(Network::Testnet), MAX_MONEY + 1, 0, None);
    assert_eq!(r.unwrap_err(), SendError::InvalidAmount { amount: MAX_MONEY + 1 });
    let r = propose_transfer(&notes(), Network::Testnet, Some(Network::Testnet), MAX_MONEY, 0, None);
    assert!(matches!(r, Err(SendError::InsufficientFunds { .. })));
}

#[test]
fn memo_over_511_bytes_is_refused() {
    let long = "x".repeat(512);
    assert_eq!(format_memo(&long).unwrap_err(), SendError::MemoTooLong { len: 512 });
    let full = "y".repeat(511);
    let f = format_memo(&full).unwrap();
    assert_eq!(f.len(), 512);
    assert_eq!(f[511], b'y');
    let r = propose_transfer(&notes(), Network::Testnet, Some(Network::Testnet), 1, 0, Some(&long));
    assert_eq!(r.unwrap_err(), SendError::MemoTooLong { len: 512 });
}

#[test]
fn shortfall_is_its_own_error() {
    let r = propose_transfer(&notes(), Network::Testnet, Some(Network::Testnet), 115_000, 10_000, None);
    assert_eq!(
        r.unwrap_err(),
        SendError::InsufficientFunds { required: 125_000, available: 120_000 }
    );
}
