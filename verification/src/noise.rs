//! Random hexadecimal characters, for the schemes that tell identifiers apart by
//! chance.

use crate::radix::{digit_str, is_numeral, lemma_digit_char};
use rand::Rng;
use vstd::prelude::*;
use vstd::string::*;

verus! {

/// The handle to the random number generator that `rand` keeps for each thread.
#[verifier::external_type_specification]
#[verifier::external_body]
pub struct ExThreadRng(rand::rngs::ThreadRng);

/// `rand::rng` hands out the handle to the calling thread's generator. Nothing
/// is known of the numbers it will give.
pub assume_specification[ rand::rng ]() -> (rng: rand::rngs::ThreadRng)
;

/// A number from 0 up to, and not including, `bound`.
///
/// This is `Rng::random_range` on the range `0..bound`, which refuses an empty
/// range. Which number comes out is left open.
#[verifier::external_body]
fn random_below(rng: &mut rand::rngs::ThreadRng, bound: usize) -> (n: usize)
    requires
        bound > 0,
    ensures
        n < bound,
{
    rng.random_range(0..bound)
}

/// `len` hexadecimal digits, each drawn at random.
pub fn random_hex(len: usize) -> (s: String)
    ensures
        s@.len() == len,
        is_numeral(s@, 16),
{
    let mut rng = rand::rng();
    let mut s = String::new();
    let mut i: usize = 0;
    while i < len
        invariant
            i <= len,
            s@.len() == i,
            is_numeral(s@, 16),
        decreases len - i,
    {
        let d = random_below(&mut rng, 16);
        proof {
            lemma_digit_char(d as nat);
        }
        s.append(digit_str(d as u32));
        i = i + 1;
    }
    s
}

} // verus!
