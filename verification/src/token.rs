//! API tokens: `tks_` and thirty-two characters drawn from letters and digits.

use vstd::prelude::*;
use vstd::string::{StrSliceExecFns, StringExecFns};

verus! {

/// Calls `random` of `rand::rng()` for thirty-two bytes. The bytes are random, so nothing is
/// claimed of them.
#[verifier::external_body]
fn random_bytes() -> (r: [u8; 32]) {
    rand::Rng::random(&mut rand::rng())
}

/// The characters that a token is drawn from.
pub open spec fn alphabet() -> Seq<char> {
    "ABCDEFGHIJKLMNOPQRSTUVWXYZabcdefghijklmnopqrstuvwxyz0123456789"@
}

/// The character that stands for a byte: the one at the byte's place in the alphabet, counted
/// round.
pub open spec fn token_char(byte: u8) -> char {
    alphabet()[(byte % 62) as int]
}

/// The token made of the bytes.
pub open spec fn token_text(bytes: Seq<u8>) -> Seq<char> {
    "tks_"@ + bytes.map_values(|byte: u8| token_char(byte))
}

/// The token made of thirty-two bytes.
pub fn token_from_bytes(bytes: &[u8; 32]) -> (r: String)
    ensures
        r@ == token_text(bytes@),
{
    let letters = "ABCDEFGHIJKLMNOPQRSTUVWXYZabcdefghijklmnopqrstuvwxyz0123456789";
    proof {
        reveal_strlit("ABCDEFGHIJKLMNOPQRSTUVWXYZabcdefghijklmnopqrstuvwxyz0123456789");
    }
    let mut text = "tks_".to_owned();
    let mut i: usize = 0;
    assert(text@ =~= "tks_"@ + bytes@.take(0).map_values(|byte: u8| token_char(byte)));
    while i < 32
        invariant
            i <= 32,
            bytes@.len() == 32,
            letters@ == alphabet(),
            letters@.len() == 62,
            text@ == "tks_"@ + bytes@.take(i as int).map_values(|byte: u8| token_char(byte)),
        decreases 32 - i,
    {
        let place: usize = (bytes[i] % 62) as usize;
        let letter = letters.substring_char(place, place + 1);
        assert(letter@ =~= seq![token_char(bytes@[i as int])]);
        let ghost before = text@;
        text.append(letter);
        assert(text@ =~= "tks_"@ + bytes@.take(i + 1).map_values(|byte: u8| token_char(byte)));
        i += 1;
    }
    assert(bytes@.take(32) =~= bytes@);
    text
}

/// A fresh token: the token made of thirty-two random bytes.
pub fn generate_token() -> (r: String)
    ensures
        exists|bytes: Seq<u8>| bytes.len() == 32 && r@ == #[trigger] token_text(bytes),
{
    let bytes = random_bytes();
    let text = token_from_bytes(&bytes);
    assert(bytes@.len() == 32 && text@ == token_text(bytes@));
    text
}

} // verus!
