use vstd::prelude::*;
use vstd::string::StringSliceAdditionalSpecFns;
use crate::config::Network;
use crate::selection::{
    NoteSelectionResult, SelectedNote, SelectionError, is_greedy_selection, select_notes,
    total_value,
};

verus! {

/// Largest amount of zatoshis that can exist: 21 million coins of 10^8.
pub const MAX_MONEY: u64 = 2_100_000_000_000_000;

/// Longest memo text, in bytes.
pub const MAX_MEMO_TEXT: usize = 511;

/// Why a payment could not be proposed.
#[derive(Debug, Clone, Copy, PartialEq, Eq, Structural)]
pub enum SendError {
    /// The recipient address is unreadable or belongs to another network.
    AddressMismatch,
    /// The amount exceeds the money supply.
    InvalidAmount { amount: u64 },
    /// The memo text is longer than a memo holds.
    MemoTooLong { len: usize },
    /// The spendable notes do not cover the amount and the fee.
    InsufficientFunds { required: u128, available: u128 },
    /// The spendable notes are worth more than a 64-bit amount can hold.
    ValueOverflow,
}

/// A payment ready to be proven and signed.
#[derive(Debug, Clone)]
pub struct Proposal {
    pub amount: u64,
    pub fee: u64,
    pub selection: NoteSelectionResult,
    /// The 512-byte memo field, if a memo was given.
    pub memo: Option<Vec<u8>>,
}

/// Relies on zcash_protocol::value::Zatoshis::from_u64: it accepts exactly
/// the amounts from 0 to MAX_MONEY.
#[verifier::external_body]
fn is_valid_amount(amount: u64) -> (r: bool)
    ensures
        r == (amount <= MAX_MONEY),
{
    zcash_protocol::value::Zatoshis::from_u64(amount).is_ok()
}

/// A text memo's field: the text marker 0xF4, the text, then zeros up to
/// 512 bytes.
pub open spec fn memo_field(text: Seq<u8>) -> Seq<u8> {
    seq![0xF4u8] + text + Seq::new((511 - text.len()) as nat, |i: int| 0u8)
}

/// A memo is given and its text is longer than a memo holds.
pub open spec fn memo_too_long(memo: Option<&str>) -> bool {
    match memo {
        Some(t) => t.spec_bytes().len() > MAX_MEMO_TEXT,
        None => false,
    }
}

/// Lays a memo text out in its 512-byte field; a text over 511 bytes is
/// refused.
pub fn format_memo(text: &str) -> (r: Result<Vec<u8>, SendError>)
    ensures
        text.spec_bytes().len() > MAX_MEMO_TEXT <==> (r is Err),
        r matches Err(e) ==> e == (SendError::MemoTooLong { len: text.spec_bytes().len() as usize }),
        r matches Ok(f) ==> f@ == memo_field(text.spec_bytes()) && f@.len() == 512,
{
    let bytes = text.as_bytes();
    let n = bytes.len();
    if n > MAX_MEMO_TEXT {
        return Err(SendError::MemoTooLong { len: n });
    }
    let mut field: Vec<u8> = Vec::new();
    field.push(0xF4u8);
    let mut i: usize = 0;
    while i < n
        invariant
            n == bytes@.len(),
            n <= 511,
            0 <= i <= n,
            field@ == seq![0xF4u8] + bytes@.take(i as int),
        decreases n - i,
    {
        field.push(bytes[i]);
        assert(bytes@.take(i + 1) =~= bytes@.take(i as int).push(bytes@[i as int]));
        assert(seq![0xF4u8] + bytes@.take(i + 1) =~= (seq![0xF4u8] + bytes@.take(i as int)).push(
            bytes@[i as int],
        ));
        i = i + 1;
    }
    assert(bytes@.take(n as int) =~= bytes@);
    let mut j: usize = n;
    while j < 511
        invariant
            n == bytes@.len(),
            n <= j <= 511,
            field@ == seq![0xF4u8] + bytes@ + Seq::new((j - n) as nat, |k: int| 0u8),
        decreases 511 - j,
    {
        field.push(0u8);
        assert(seq![0xF4u8] + bytes@ + Seq::new((j + 1 - n) as nat, |k: int| 0u8) =~= (seq![0xF4u8]
            + bytes@ + Seq::new((j - n) as nat, |k: int| 0u8)).push(0u8));
        j = j + 1;
    }
    Ok(field)
}

/// Proposes a payment of `amount` with the fee the fee rule set. The
/// recipient's network is checked first, before any other work; then the
/// amount, then the memo; then notes are selected largest first.
pub fn propose_transfer(
    spendable: &Vec<SelectedNote>,
    wallet_network: Network,
    recipient_network: Option<Network>,
    amount: u64,
    fee: u64,
    memo: Option<&str>,
) -> (r: Result<Proposal, SendError>)
    ensures
        recipient_network != Some(wallet_network) ==> r == Err::<Proposal, SendError>(
            SendError::AddressMismatch,
        ),
        recipient_network == Some(wallet_network) && amount > MAX_MONEY ==> r == Err::<
            Proposal,
            SendError,
        >(SendError::InvalidAmount { amount }),
        recipient_network == Some(wallet_network) && amount <= MAX_MONEY && memo_too_long(memo)
            ==> r == Err::<Proposal, SendError>(
            SendError::MemoTooLong { len: memo.unwrap().spec_bytes().len() as usize },
        ),
        recipient_network == Some(wallet_network) && amount <= MAX_MONEY && !memo_too_long(memo)
            ==> {
            &&& (total_value(spendable@) < amount + fee <==> r matches Err(
                SendError::InsufficientFunds { .. },
            ))
            &&& r matches Err(SendError::InsufficientFunds { required, available }) ==> required
                == amount + fee && available == total_value(spendable@)
            &&& r matches Err(SendError::ValueOverflow) ==> total_value(spendable@) > u64::MAX
            &&& r is Err ==> r matches Err(SendError::InsufficientFunds { .. }) || r matches Err(
                SendError::ValueOverflow,
            )
        },
        r matches Ok(p) ==> {
            &&& p.amount == amount
            &&& p.fee == fee
            &&& is_greedy_selection(spendable@, p.selection.selected_notes@, amount + fee)
            &&& p.selection.total_selected == total_value(p.selection.selected_notes@)
            &&& p.selection.change_amount == p.selection.total_selected - amount - fee
            &&& match memo {
                None => p.memo is None,
                Some(t) => p.memo matches Some(f) && f@ == memo_field(t.spec_bytes()),
            }
        },
{
    match recipient_network {
        Some(n) => {
            if n != wallet_network {
                return Err(SendError::AddressMismatch);
            }
        },
        None => {
            return Err(SendError::AddressMismatch);
        },
    }
    if !is_valid_amount(amount) {
        return Err(SendError::InvalidAmount { amount });
    }
    let field = match memo {
        None => None,
        Some(t) => match format_memo(t) {
            Ok(f) => Some(f),
            Err(e) => {
                return Err(e);
            },
        },
    };
    match select_notes(spendable, amount, fee) {
        Ok(selection) => Ok(Proposal { amount, fee, selection, memo: field }),
        Err(SelectionError::InsufficientFunds { required, available }) => Err(
            SendError::InsufficientFunds { required, available },
        ),
        Err(SelectionError::ValueOverflow) => Err(SendError::ValueOverflow),
    }
}

} // verus!
