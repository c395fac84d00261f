//! Object ids of the legacy format: twenty-four hexadecimal characters, eight
//! for the time in seconds and sixteen drawn at random.
//!
//! The time is kept to the second: the milliseconds within the second are not
//! written, and reading an identifier gives the start of its second.

use crate::error::IdError;
use crate::field::{has_form, lemma_text_of_layout, pad_zeros, prefix_value, read_prefix};
use crate::noise::random_hex;
use crate::numeral::{
    digits, lemma_low_digits, lemma_low_digits_when_fitting, lemma_radix_pow_step,
    lemma_value_order, low_digits, radix_pow, zero_padded,
};
use crate::order::{lemma_text_precedes, precedes};
use crate::radix::{encode, is_numeral, lemma_digits_of_text, numeral_value, text_of};
use vstd::prelude::*;
use vstd::string::*;

verus! {

/// Characters in the time field.
pub const TIME_LENGTH: usize = 8;

/// Characters drawn at random.
pub const NOISE_LENGTH: usize = 16;

/// How many time fields there are: 16 to the power 8. A time of this many
/// seconds or more no longer fits the field.
pub const SECONDS_SPAN: u64 = 0x1_0000_0000;

/// The whole seconds in `time` milliseconds.
pub open spec fn seconds(time: u64) -> nat {
    (time / 1000) as nat
}

/// The time field of an identifier made at `time`: the seconds since the Unix
/// epoch in hexadecimal, with zeros in front of fewer than eight digits. A time
/// of `SECONDS_SPAN` seconds or more takes nine characters or more.
pub open spec fn time_field(time: u64) -> Seq<char> {
    text_of(zero_padded(digits(seconds(time), 16), 8))
}

/// `noise` can serve as the random part: sixteen hexadecimal digits.
pub open spec fn is_noise(noise: Seq<char>) -> bool {
    noise.len() == 16 && is_numeral(noise, 16)
}

/// The identifier made at `time` with the random part `noise`.
pub open spec fn id_text(time: u64, noise: Seq<char>) -> Seq<char> {
    time_field(time) + noise
}

/// The time that an identifier holds, in milliseconds: a thousand times what its
/// first eight characters denote in hexadecimal. An identifier with fewer
/// characters, or with one among those eight that is not of `0-9` or `a-f`,
/// holds none.
pub open spec fn time_of(id: Seq<char>) -> Result<u64, IdError> {
    match prefix_value(id, 8, 16) {
        Some(v) => Ok((v * 1000) as u64),
        None => Err(IdError::MalformedTimeField),
    }
}

/// `id` has the form of an object id: twenty-four characters, each of `0-9` or
/// `a-f`.
pub open spec fn is_object_id(id: Seq<char>) -> bool {
    id.len() == 24 && is_numeral(id, 16)
}

/// 16 to the power 8.
pub proof fn lemma_seconds_span()
    ensures
        radix_pow(16, 8) == SECONDS_SPAN,
{
    lemma_radix_pow_step(16, 0);
    lemma_radix_pow_step(16, 1);
    lemma_radix_pow_step(16, 2);
    lemma_radix_pow_step(16, 3);
    lemma_radix_pow_step(16, 4);
    lemma_radix_pow_step(16, 5);
    lemma_radix_pow_step(16, 6);
    lemma_radix_pow_step(16, 7);
}

/// For a time whose seconds fit, the time field has eight hexadecimal digits and
/// denotes the seconds.
pub proof fn lemma_time_field(time: u64)
    requires
        seconds(time) < SECONDS_SPAN,
    ensures
        time_field(time) == text_of(low_digits(seconds(time), 16, 8)),
        time_field(time).len() == 8,
        is_numeral(time_field(time), 16),
        numeral_value(time_field(time), 16) == seconds(time),
{
    lemma_seconds_span();
    lemma_low_digits_when_fitting(seconds(time), 16, 8);
    lemma_low_digits(seconds(time), 16, 8);
    lemma_digits_of_text(low_digits(seconds(time), 16, 8), 16);
}

/// An identifier made at a time whose seconds fit has the form of an object id.
pub proof fn lemma_shape(time: u64, noise: Seq<char>)
    requires
        seconds(time) < SECONDS_SPAN,
        is_noise(noise),
    ensures
        is_object_id(id_text(time, noise)),
{
    lemma_time_field(time);
}

/// Reading an identifier gives back the start of the second it was made in, for
/// every time whose seconds fit, whatever the random part: the time rounded down
/// to a multiple of 1000, and so the time itself where it is such a multiple.
pub proof fn lemma_round_trip(time: u64, noise: Seq<char>)
    requires
        seconds(time) < SECONDS_SPAN,
    ensures
        time_of(id_text(time, noise)) == Ok::<u64, IdError>((time - time % 1000) as u64),
        time % 1000 == 0 ==> time_of(id_text(time, noise)) == Ok::<u64, IdError>(time),
{
    lemma_time_field(time);
    assert(id_text(time, noise).subrange(0, 8) =~= time_field(time));
}

/// Identifiers sort as their seconds do: of two times in different seconds that
/// fit, the earlier gives the identifier that comes first, whatever the random
/// parts are.
pub proof fn lemma_time_order(earlier: u64, later: u64, noise_a: Seq<char>, noise_b: Seq<char>)
    requires
        seconds(earlier) < seconds(later) < SECONDS_SPAN,
    ensures
        precedes(id_text(earlier, noise_a), id_text(later, noise_b)),
{
    lemma_time_field(earlier);
    lemma_time_field(later);
    lemma_seconds_span();
    let a = low_digits(seconds(earlier), 16, 8);
    let b = low_digits(seconds(later), 16, 8);
    lemma_low_digits(seconds(earlier), 16, 8);
    lemma_low_digits(seconds(later), 16, 8);
    let k = lemma_value_order(a, b, 16);
    lemma_text_precedes(a, b, k, noise_a, noise_b);
}

/// The time field for `time`.
pub fn get_time(time: u64) -> (s: String)
    ensures
        s@ == time_field(time),
{
    let time_sec: u64 = time / 1000;
    let numeral = encode(time_sec as u128, 16);
    proof {
        lemma_text_of_layout(digits(time_sec as nat, 16), 8);
    }
    pad_zeros(numeral.as_str(), TIME_LENGTH)
}

/// Sixteen hexadecimal digits, each drawn at random.
pub fn get_random() -> (s: String)
    ensures
        is_noise(s@),
{
    random_hex(NOISE_LENGTH)
}

/// The identifier for `time` with the given random part.
pub fn with_noise(time: u64, noise: &str) -> (id: String)
    ensures
        id@ == id_text(time, noise@),
{
    let mut id = get_time(time);
    id.append(noise);
    id
}

/// Makes an identifier for the time `t`, with a random part drawn anew. For a
/// time whose seconds fit it has the form of an object id and is read back as
/// the start of its second.
pub fn gen_object_id(t: u64) -> (id: String)
    ensures
        exists|noise: Seq<char>| is_noise(noise) && id@ == #[trigger] id_text(t, noise),
        seconds(t) < SECONDS_SPAN ==> is_object_id(id@) && time_of(id@) == Ok::<u64, IdError>(
            (t - t % 1000) as u64,
        ),
{
    let noise = get_random();
    proof {
        if seconds(t) < SECONDS_SPAN {
            lemma_shape(t, noise@);
            lemma_round_trip(t, noise@);
        }
    }
    with_noise(t, noise.as_str())
}

/// Whether `id` has the form of an object id: what the pattern
/// `^[0-9a-f]{24}$` accepts.
pub fn is_match(id: &str) -> (b: bool)
    ensures
        b == is_object_id(id@),
{
    has_form(id, 24, 16)
}

/// Reads the time out of an identifier, in milliseconds since the Unix epoch.
/// Only the first eight characters are read.
pub fn parse_object_id(id: &str) -> (r: Result<u64, IdError>)
    ensures
        r == time_of(id@),
{
    proof {
        lemma_seconds_span();
    }
    match read_prefix(id, TIME_LENGTH, 16) {
        Some(v) => Ok(v * 1000),
        None => Err(IdError::MalformedTimeField),
    }
}

} // verus!
