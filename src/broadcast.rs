use vstd::prelude::*;
use vstd::string::StringSliceAdditionalSpecFns;
use vstd::utf8::{decode_utf8, encode_utf8, valid_utf8};

verus! {

/// The remote service's answer to a broadcast, read by its status code.
#[derive(Debug, Clone)]
pub enum BroadcastOutcome {
    /// Status 0: the message field holds the transaction id.
    Accepted { txid: String },
    /// Any other status: the message field holds the reason.
    Rejected { reason: String, code: i32 },
}

pub open spec fn is_hex_digit(b: u8) -> bool {
    (0x30 <= b <= 0x39) || (0x41 <= b <= 0x46) || (0x61 <= b <= 0x66)
}

pub open spec fn hex_val(b: u8) -> int {
    if b <= 0x39 {
        b - 0x30
    } else if b <= 0x46 {
        b - 0x41 + 10
    } else {
        b - 0x61 + 10
    }
}

/// An even number of hex digits, either case.
pub open spec fn is_hex_text(s: Seq<u8>) -> bool {
    &&& s.len() % 2 == 0
    &&& forall|i: int| 0 <= i < s.len() ==> is_hex_digit(#[trigger] s[i])
}

/// The bytes that pairs of hex digits spell, high digit first.
pub open spec fn hex_decoded(s: Seq<u8>) -> Seq<u8> {
    Seq::new(
        (s.len() / 2) as nat,
        |i: int| (hex_val(s[2 * i]) * 16 + hex_val(s[2 * i + 1])) as u8,
    )
}

/// A rejection reason as the service may send it: hex-encoded UTF-8 text is
/// decoded, anything else is kept as it came.
pub open spec fn rejection_reason(msg: Seq<char>) -> Seq<char> {
    let bytes = encode_utf8(msg);
    if is_hex_text(bytes) && valid_utf8(hex_decoded(bytes)) {
        decode_utf8(hex_decoded(bytes))
    } else {
        msg
    }
}

/// Relies on hex::decode: it succeeds exactly on an even number of hex
/// digits of either case, and then yields the byte of each pair, high digit
/// first.
#[verifier::external_body]
fn decode_hex(s: &str) -> (r: Option<Vec<u8>>)
    ensures
        r is Some <==> is_hex_text(s.spec_bytes()),
        r matches Some(b) ==> b@ == hex_decoded(s.spec_bytes()),
{
    hex::decode(s).ok()
}

/// Relies on String::from_utf8: it succeeds exactly on valid UTF-8, and the
/// string holds the characters the bytes encode.
#[verifier::external_body]
fn utf8_text(b: Vec<u8>) -> (r: Option<String>)
    ensures
        r is Some <==> valid_utf8(b@),
        r matches Some(s) ==> s@ == decode_utf8(b@),
{
    String::from_utf8(b).ok()
}

/// Reads a broadcast answer by its status code, never by the shape of its
/// message: status 0 is acceptance and the message is the transaction id;
/// otherwise the message is the rejection reason.
pub fn interpret_broadcast(error_code: i32, error_message: String) -> (r: BroadcastOutcome)
    ensures
        error_code == 0 <==> r is Accepted,
        r matches BroadcastOutcome::Accepted { txid } ==> txid@ == error_message@,
        r matches BroadcastOutcome::Rejected { reason, code } ==> code == error_code && reason@
            == rejection_reason(error_message@),
{
    if error_code == 0 {
        return BroadcastOutcome::Accepted { txid: error_message };
    }
    let decoded = decode_hex(error_message.as_str());
    match decoded {
        Some(bytes) => match utf8_text(bytes) {
            Some(text) => BroadcastOutcome::Rejected { reason: text, code: error_code },
            None => BroadcastOutcome::Rejected { reason: error_message, code: error_code },
        },
        None => BroadcastOutcome::Rejected { reason: error_message, code: error_code },
    }
}

} // verus!
