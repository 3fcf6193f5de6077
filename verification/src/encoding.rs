//! Base58 text encoding of byte strings.

use vstd::prelude::*;

verus! {

/// The characters of the Bitcoin base58 alphabet, in digit order.
pub open spec fn base58_alphabet() -> Seq<char> {
    seq!['1', '2', '3', '4', '5', '6', '7', '8', '9',
        'A', 'B', 'C', 'D', 'E', 'F', 'G', 'H', 'J', 'K', 'L', 'M', 'N', 'P', 'Q', 'R', 'S', 'T', 'U', 'V', 'W', 'X', 'Y', 'Z',
        'a', 'b', 'c', 'd', 'e', 'f', 'g', 'h', 'i', 'j', 'k', 'm', 'n', 'o', 'p', 'q', 'r', 's', 't', 'u', 'v', 'w', 'x', 'y', 'z']
}

/// The base58 text (Bitcoin alphabet) of `bytes`.
pub uninterp spec fn base58_text(bytes: Seq<u8>) -> Seq<char>;

/// `bs58::encode(bytes).into_string()`: the base58 text of `bytes` in the
/// default (Bitcoin) alphabet, a function of the bytes alone; every
/// character it writes is taken from that alphabet, and there are at least
/// as many characters as bytes (a leading zero byte gives one `1`, and 58
/// digits hold less than a byte each).
#[verifier::external_body]
pub(crate) fn base58_encode(bytes: &[u8]) -> (r: String)
    ensures
        r@ == base58_text(bytes@),
        r@.len() >= bytes@.len(),
        forall|i: int| 0 <= i < r@.len() ==> base58_alphabet().contains(#[trigger] r@[i]),
{
    bs58::encode(bytes).into_string()
}

} // verus!
