//! The wire format of what the relay itself encodes: one Candid text.

use vstd::prelude::*;
use vstd::utf8::encode_utf8;

verus! {

/// The error of candid's encoder.
#[verifier::external_type_specification]
#[verifier::external_body]
pub struct ExCandidError(candid::Error);

/// A number in base 128, least significant digit first, each digit but the last
/// one marked by its high bit.
pub open spec fn leb128(n: nat) -> Seq<u8>
    decreases n,
{
    if n < 128 {
        seq![n as u8]
    } else {
        seq![(n % 128 + 128) as u8] + leb128(n / 128)
    }
}

/// The Candid message that holds one text: the magic word `DIDL`, no type
/// definitions, one value, its type `text`, then the length of the text and the
/// text in UTF-8.
pub open spec fn candid_text(text: Seq<char>) -> Seq<u8> {
    seq![0x44u8, 0x49u8, 0x44u8, 0x4cu8, 0u8, 1u8, 0x71u8] + leb128(encode_utf8(text).len())
        + encode_utf8(text)
}

/// A number is written in its digits to base 128, the least significant one first,
/// and every digit but the last is marked.
pub proof fn a_length_is_written_in_digits(n: nat)
    ensures
        leb128(n).len() > 0,
        leb128(n)[0] % 128 == n % 128,
        n < 128 <==> leb128(n)[0] < 128,
        n < 128 ==> leb128(n).len() == 1,
        n >= 128 ==> leb128(n).skip(1) == leb128(n / 128),
{
    if n >= 128 {
        assert(leb128(n).skip(1) =~= leb128(n / 128));
    }
}

/// The message of a text holds the whole text, behind its length.
pub proof fn a_message_holds_its_text(text: Seq<char>)
    ensures
        ({
            let utf8 = encode_utf8(text);
            let length = leb128(utf8.len());
            let message = candid_text(text);
            &&& message.len() == 7 + length.len() + utf8.len()
            &&& message.take(7) == seq![0x44u8, 0x49u8, 0x44u8, 0x4cu8, 0u8, 1u8, 0x71u8]
            &&& message.subrange(7, 7 + length.len() as int) == length
            &&& message.skip(7 + length.len() as int) == utf8
        }),
{
}

/// Calls `candid::encode_one` on a text. Claimed: it succeeds on every text, and
/// returns the Candid message that holds the text. Its steps can fail only on a
/// type that is not a text, or on a writer that refuses bytes, and it writes into
/// a vector.
#[verifier::external_body]
pub(crate) fn encode_text(text: &str) -> (r: Result<Vec<u8>, candid::Error>)
    ensures
        r is Ok,
        r->Ok_0@ == candid_text(text@),
{
    candid::encode_one(text)
}

} // verus!
