//! The code policy: random five-character alphanumeric codes. The codes
//! are a collision-avoidance mechanism, not security tokens; uniqueness
//! is enforced by the store, never here.

use vstd::prelude::*;

use crate::text::{bytes_to_string, lemma_ascii_decode};

verus! {

/// An ASCII letter or digit, as a byte.
pub open spec fn is_code_byte(b: u8) -> bool {
    (48 <= b <= 57) || (65 <= b <= 90) || (97 <= b <= 122)
}

/// An ASCII letter or digit, as a character.
pub open spec fn is_code_char(c: char) -> bool {
    (48 <= c as u32 <= 57) || (65 <= c as u32 <= 90) || (97 <= c as u32 <= 122)
}

/// A string the code generator can produce: five alphanumeric
/// characters.
pub open spec fn generated_code(code: Seq<char>) -> bool {
    code.len() == 5 && (forall|i: int| 0 <= i < code.len() ==> is_code_char(code[i]))
}

/// Relies on rand's `Alphanumeric` distribution: every sample is drawn
/// from the ASCII letters and digits.
#[verifier::external_body]
fn sample_code_byte() -> (b: u8)
    ensures
        is_code_byte(b),
{
    rand::Rng::sample(&mut rand::thread_rng(), rand::distributions::Alphanumeric)
}

/// Draws a fresh five-character alphanumeric code from a pseudorandom
/// source.
pub fn generate_code() -> (code: String)
    ensures
        generated_code(code@),
{
    let mut bytes: Vec<u8> = Vec::new();
    let mut i: usize = 0;
    while i < 5
        invariant
            i <= 5,
            bytes@.len() == i,
            forall|k: int| 0 <= k < i ==> is_code_byte(#[trigger] bytes@[k]),
        decreases 5 - i,
    {
        bytes.push(sample_code_byte());
        i = i + 1;
    }
    proof {
        lemma_ascii_decode(bytes@);
    }
    match bytes_to_string(bytes) {
        Some(s) => s,
        None => vstd::pervasive::unreached(),
    }
}

} // verus!
