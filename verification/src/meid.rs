//! MEID: twenty-four hexadecimal characters, twelve for the time and twelve
//! drawn at random.
//!
//! The time field is the time in milliseconds since the Unix epoch plus a fixed
//! bias, so that every time field of twelve digits begins with `8` or more.
//!
//! The time 0 is written as the single character `0`, not as twelve. Such an
//! identifier has thirteen characters, and reading it fails: see
//! `lemma_zero_time_is_not_read_back`.

use crate::error::IdError;
use crate::field::{
    has_form, lemma_digits_of_numeral, lemma_text_of_layout, pad_zeros, prefix_value,
    read_prefix,
};
use crate::noise::random_hex;
use crate::numeral::{
    digits, lemma_low_digits, lemma_low_digits_when_fitting, lemma_radix_pow_step,
    lemma_value_bound, lemma_value_leading, lemma_value_order, low_digits, radix_pow,
    zero_padded,
};
use crate::order::{char_less_at, lemma_text_precedes, precedes};
use crate::radix::{
    digits_of, encode, is_digit_char, is_numeral, lemma_digit_char, lemma_digits_of_text,
    numeral_value, text_of,
};
use vstd::prelude::*;
use vstd::string::*;

verus! {

/// What is added to the time before it is written: 2 to the power 47.
pub const BIAS: u64 = 0x800000000000;

/// Characters in the time field.
pub const TIME_LENGTH: usize = 12;

/// Characters drawn at random.
pub const NOISE_LENGTH: usize = 12;

/// The time field of an identifier made at `time`: for the time 0 the single
/// character `0`; for any other the time plus `BIAS` in hexadecimal, with zeros
/// in front of fewer than twelve digits. A time of `BIAS` or more takes thirteen
/// characters or more.
pub open spec fn time_field(time: u64) -> Seq<char> {
    if time == 0 {
        seq!['0']
    } else {
        text_of(zero_padded(digits((time + BIAS) as nat, 16), 12))
    }
}

/// `noise` can serve as the random part: twelve hexadecimal digits.
pub open spec fn is_noise(noise: Seq<char>) -> bool {
    noise.len() == 12 && is_numeral(noise, 16)
}

/// The identifier made at `time` with the random part `noise`.
pub open spec fn id_text(time: u64, noise: Seq<char>) -> Seq<char> {
    time_field(time) + noise
}

/// The time that an identifier holds: what its first twelve characters denote in
/// hexadecimal, less `BIAS`. An identifier with fewer characters, or with one
/// among those twelve that is not of `0-9` or `a-f`, holds none; nor does one
/// whose time field denotes less than `BIAS`.
pub open spec fn time_of(id: Seq<char>) -> Result<u64, IdError> {
    match prefix_value(id, 12, 16) {
        Some(v) => if v < BIAS {
            Err(IdError::ArithmeticUnderflow)
        } else {
            Ok((v - BIAS) as u64)
        },
        None => Err(IdError::MalformedTimeField),
    }
}

/// `id` has the form of a MEID: twenty-four characters, each of `0-9` or `a-f`.
pub open spec fn is_meid(id: Seq<char>) -> bool {
    id.len() == 24 && is_numeral(id, 16)
}

/// 16 to the powers 11 and 12.
pub proof fn lemma_hex_spans()
    ensures
        radix_pow(16, 11) == 0x1000_0000_0000,
        radix_pow(16, 12) == 0x1_0000_0000_0000,
        radix_pow(16, 12) == 2 * BIAS,
{
    lemma_radix_pow_step(16, 0);
    lemma_radix_pow_step(16, 1);
    lemma_radix_pow_step(16, 2);
    lemma_radix_pow_step(16, 3);
    lemma_radix_pow_step(16, 4);
    lemma_radix_pow_step(16, 5);
    lemma_radix_pow_step(16, 6);
    lemma_radix_pow_step(16, 7);
    lemma_radix_pow_step(16, 8);
    lemma_radix_pow_step(16, 9);
    lemma_radix_pow_step(16, 10);
    lemma_radix_pow_step(16, 11);
}

/// For a time after 0 and below `BIAS`, the time field has twelve hexadecimal
/// digits, begins with one of `8-9` and `a-f`, and denotes the time plus
/// `BIAS`.
pub proof fn lemma_time_field(time: u64)
    requires
        0 < time < BIAS,
    ensures
        time_field(time) == text_of(low_digits((time + BIAS) as nat, 16, 12)),
        time_field(time).len() == 12,
        is_numeral(time_field(time), 16),
        numeral_value(time_field(time), 16) == time + BIAS,
        time_field(time)[0] as int >= 56,
{
    let n = (time + BIAS) as nat;
    let ds = low_digits(n, 16, 12);
    lemma_hex_spans();
    lemma_low_digits_when_fitting(n, 16, 12);
    lemma_low_digits(n, 16, 12);
    lemma_digits_of_text(ds, 16);
    lemma_value_leading(ds, 16);
    lemma_value_bound(ds.subrange(1, 12), 16);
    let p = radix_pow(16, 11);
    assert(ds[0] >= 8) by (nonlinear_arith)
        requires
            ds[0] * p + p > 8 * p,
    ;
    lemma_digit_char(8);
}

/// An identifier made after the time 0 and before `BIAS` has the form of a MEID.
pub proof fn lemma_shape(time: u64, noise: Seq<char>)
    requires
        0 < time < BIAS,
        is_noise(noise),
    ensures
        is_meid(id_text(time, noise)),
{
    lemma_time_field(time);
}

/// Reading an identifier gives back the time it was made at, for every time
/// after 0 and below `BIAS`, whatever the random part.
pub proof fn lemma_round_trip(time: u64, noise: Seq<char>)
    requires
        0 < time < BIAS,
    ensures
        time_of(id_text(time, noise)) == Ok::<u64, IdError>(time),
{
    lemma_time_field(time);
    assert(id_text(time, noise).subrange(0, 12) =~= time_field(time));
}

/// The identifier made at the time 0 has thirteen characters and is not read
/// back: its first twelve characters denote less than `BIAS`.
pub proof fn lemma_zero_time_is_not_read_back(noise: Seq<char>)
    requires
        is_noise(noise),
    ensures
        id_text(0, noise).len() == 13,
        !is_meid(id_text(0, noise)),
        time_of(id_text(0, noise)) == Err::<u64, IdError>(IdError::ArithmeticUnderflow),
{
    let field = id_text(0, noise).subrange(0, 12);
    assert forall|i: int| 0 <= i < field.len() implies is_digit_char(#[trigger] field[i], 16) by {
        if i > 0 {
            assert(field[i] == noise[i - 1]);
        }
    }
    let ds = digits_of(field);
    assert(ds[0] == 0);
    lemma_digits_of_numeral(field, 16);
    lemma_value_leading(ds, 16);
    lemma_value_bound(ds.subrange(1, 12), 16);
    lemma_hex_spans();
}

/// Identifiers sort as their times do: of two times below `BIAS`, the earlier
/// gives the identifier that comes first, whatever the random parts are.
pub proof fn lemma_time_order(earlier: u64, later: u64, noise_a: Seq<char>, noise_b: Seq<char>)
    requires
        earlier < later < BIAS,
    ensures
        precedes(id_text(earlier, noise_a), id_text(later, noise_b)),
{
    lemma_time_field(later);
    if earlier == 0 {
        assert(char_less_at(id_text(earlier, noise_a), id_text(later, noise_b), 0));
    } else {
        lemma_time_field(earlier);
        lemma_hex_spans();
        let a = low_digits((earlier + BIAS) as nat, 16, 12);
        let b = low_digits((later + BIAS) as nat, 16, 12);
        lemma_low_digits((earlier + BIAS) as nat, 16, 12);
        lemma_low_digits((later + BIAS) as nat, 16, 12);
        let k = lemma_value_order(a, b, 16);
        lemma_text_precedes(a, b, k, noise_a, noise_b);
    }
}

/// The time field for `time`.
pub fn get_time(time: u64) -> (s: String)
    ensures
        s@ == time_field(time),
{
    if time == 0 {
        proof {
            reveal_strlit("0");
        }
        assert("0"@ =~= seq!['0']);
        return String::from_str("0");
    }
    let biased: u128 = time as u128 + BIAS as u128;
    let numeral = encode(biased, 16);
    proof {
        lemma_text_of_layout(digits(biased as nat, 16), 12);
    }
    pad_zeros(numeral.as_str(), TIME_LENGTH)
}

/// Twelve hexadecimal digits, each drawn at random.
pub fn get_random() -> (s: String)
    ensures
        is_noise(s@),
{
    random_hex(NOISE_LENGTH)
}

/// The identifier for `time` with the given random part.
pub fn with_noise(time: u64, noise: &str) -> (id: String)
    ensures
        id@ == id_text(time, noise@),
{
    let mut id = get_time(time);
    id.append(noise);
    id
}

/// Makes an identifier for `time`, with a random part drawn anew. For a time
/// after 0 and below `BIAS` it has the form of a MEID and is read back as
/// `time`.
pub fn gen(time: u64) -> (id: String)
    ensures
        exists|noise: Seq<char>| is_noise(noise) && id@ == #[trigger] id_text(time, noise),
        0 < time < BIAS ==> is_meid(id@) && time_of(id@) == Ok::<u64, IdError>(time),
{
    let noise = get_random();
    proof {
        if 0 < time < BIAS {
            lemma_shape(time, noise@);
            lemma_round_trip(time, noise@);
        }
    }
    with_noise(time, noise.as_str())
}

/// Whether `id` has the form of a MEID: what the pattern `^[0-9a-f]{24}$`
/// accepts.
pub fn is_match(id: &str) -> (b: bool)
    ensures
        b == is_meid(id@),
{
    has_form(id, 24, 16)
}

/// Reads the time out of an identifier, in milliseconds since the Unix epoch.
/// Only the first twelve characters are read.
pub fn parse(id: &str) -> (r: Result<u64, IdError>)
    ensures
        r == time_of(id@),
{
    proof {
        lemma_hex_spans();
    }
    match read_prefix(id, TIME_LENGTH, 16) {
        Some(v) => if v < BIAS {
            Err(IdError::ArithmeticUnderflow)
        } else {
            Ok(v - BIAS)
        },
        None => Err(IdError::MalformedTimeField),
    }
}

} // verus!
