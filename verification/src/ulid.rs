//! ULID: ten characters for the time in milliseconds and sixteen for eighty
//! random bits, in Crockford's base 32.
//!
//! The identifiers are made and read by the `ulid` crate. This module gives them
//! the same surface as the other schemes, and states what a ULID string is, so
//! that the laws of the other schemes can be proved of it too.

use crate::error::{DecodeFailure, IdError};
use crate::numeral::{
    lemma_low_digits, lemma_radix_pow_step, lemma_value_bound, lemma_value_injective,
    lemma_value_leading, lemma_value_order, low_digits, radix_pow, value,
};
use vstd::string::*;
use crate::order::{char_less_at, precedes};
use vstd::arithmetic::div_mod::lemma_small_mod;
use vstd::prelude::*;
use vstd::utf8::{encode_utf8, is_ascii_chars, is_ascii_chars_encode_utf8};

verus! {

/// Characters in a ULID.
pub const ULID_LENGTH: usize = 26;

/// The symbols of Crockford's base 32 in the order of their values.
pub const SYMBOLS: &'static str = "0123456789ABCDEFGHJKMNPQRSTVWXYZ";

/// How many times there are: 2 to the power 48.
pub const TIME_SPAN: u64 = 0x1_0000_0000_0000;

/// What the time is multiplied by in the number that a ULID stands for: 2 to the
/// power 80, the number of random parts.
pub const RANDOM_SPAN: u128 = 0x1_0000_0000_0000_0000_0000;

/// The character of the digit value `d` in Crockford's base 32: the digits
/// `0-9`, then the capital letters without `I`, `L`, `O` and `U`.
pub open spec fn symbol(d: nat) -> char {
    if d < 10 {
        (d + 48) as char
    } else if d < 18 {
        (d + 55) as char
    } else if d < 20 {
        (d + 56) as char
    } else if d < 22 {
        (d + 57) as char
    } else if d < 27 {
        (d + 58) as char
    } else {
        (d + 59) as char
    }
}

/// The digit value for which `c` stands when a ULID is read: that of the symbol
/// `c`, or of the capital of the small letter `c`.
pub open spec fn symbol_value(c: char) -> Option<nat> {
    let code = if 97 <= c as int <= 122 {
        c as int - 32
    } else {
        c as int
    };
    if 48 <= code <= 57 {
        Some((code - 48) as nat)
    } else if 65 <= code <= 72 {
        Some((code - 55) as nat)
    } else if 74 <= code <= 75 {
        Some((code - 56) as nat)
    } else if 77 <= code <= 78 {
        Some((code - 57) as nat)
    } else if 80 <= code <= 84 {
        Some((code - 58) as nat)
    } else if 86 <= code <= 90 {
        Some((code - 59) as nat)
    } else {
        None
    }
}

/// The digits of `ds` written out in Crockford's symbols.
pub open spec fn symbols_of(ds: Seq<nat>) -> Seq<char> {
    Seq::new(ds.len(), |i: int| symbol(ds[i]))
}

/// The digit values of the characters of `s`, with 0 for a character that is no
/// symbol.
pub open spec fn values_of(s: Seq<char>) -> Seq<nat> {
    Seq::new(
        s.len(),
        |i: int|
            match symbol_value(s[i]) {
                Some(d) => d,
                None => 0,
            },
    )
}

/// The string of the ULID that stands for `number`: its twenty-six digits in
/// base 32, most significant first.
pub open spec fn ulid_text(number: u128) -> Seq<char> {
    symbols_of(low_digits(number as nat, 32, 26))
}

/// The number for which the string `s` stands, as the decoder reads it. A string
/// that does not take twenty-six bytes is of the wrong length; one of that
/// length that holds anything but symbols and their small letters has a wrong
/// character. Of the one hundred and thirty bits of twenty-six symbols, the
/// upper two are dropped.
pub open spec fn decoded(s: Seq<char>) -> Result<u128, DecodeFailure> {
    if encode_utf8(s).len() != 26 {
        Err(DecodeFailure::InvalidLength)
    } else if exists|i: int| 0 <= i < s.len() && symbol_value(#[trigger] s[i]) is None {
        Err(DecodeFailure::InvalidChar)
    } else {
        Ok((value(values_of(s), 32) % (u128::MAX + 1) as nat) as u128)
    }
}

/// The time that an identifier holds: the number it stands for, without its
/// eighty random bits. A string that the decoder refuses holds none.
pub open spec fn time_of(id: Seq<char>) -> Result<u64, IdError> {
    match decoded(id) {
        Ok(v) => Ok((v / RANDOM_SPAN) as u64),
        Err(e) => Err(IdError::ExternalDecodeFailure(e)),
    }
}

/// `c` is one of the thirty-two symbols.
pub open spec fn is_symbol(c: char) -> bool {
    match symbol_value(c) {
        Some(d) => c == symbol(d),
        None => false,
    }
}

/// `id` has the form in which ULIDs are written: twenty-six symbols, the first
/// of them one of `0-7`, so that the number fits 128 bits.
pub open spec fn is_ulid(id: Seq<char>) -> bool {
    &&& id.len() == 26
    &&& forall|i: int| 0 <= i < id.len() ==> is_symbol(#[trigger] id[i])
    &&& 48 <= id[0] as int <= 55
}

/// `symbol` spells out `SYMBOLS`.
pub proof fn lemma_symbols()
    ensures
        SYMBOLS@.len() == 32,
        forall|d: nat| d < 32 ==> SYMBOLS@[d as int] == symbol(d),
{
    reveal_strlit("0123456789ABCDEFGHJKMNPQRSTVWXYZ");
}

/// The symbols stand for their digit values, are ordered as their values, and
/// are plain ASCII.
pub proof fn lemma_symbol(d: nat)
    requires
        d < 32,
    ensures
        symbol_value(symbol(d)) == Some(d),
        (symbol(d) as int) < 128,
        forall|e: nat| d < e < 32 ==> (symbol(d) as int) < (symbol(e) as int),
{
}

/// 32 to the power 26 is 2 to the power 130: every number of 128 bits has
/// twenty-six digits.
pub proof fn lemma_digits_suffice()
    ensures
        radix_pow(32, 26) == 4 * (u128::MAX + 1),
{
    lemma_radix_pow_step(32, 0);
    lemma_radix_pow_step(32, 1);
    lemma_radix_pow_step(32, 2);
    lemma_radix_pow_step(32, 3);
    lemma_radix_pow_step(32, 4);
    lemma_radix_pow_step(32, 5);
    lemma_radix_pow_step(32, 6);
    lemma_radix_pow_step(32, 7);
    lemma_radix_pow_step(32, 8);
    lemma_radix_pow_step(32, 9);
    lemma_radix_pow_step(32, 10);
    lemma_radix_pow_step(32, 11);
    lemma_radix_pow_step(32, 12);
    lemma_radix_pow_step(32, 13);
    lemma_radix_pow_step(32, 14);
    lemma_radix_pow_step(32, 15);
    lemma_radix_pow_step(32, 16);
    lemma_radix_pow_step(32, 17);
    lemma_radix_pow_step(32, 18);
    lemma_radix_pow_step(32, 19);
    lemma_radix_pow_step(32, 20);
    lemma_radix_pow_step(32, 21);
    lemma_radix_pow_step(32, 22);
    lemma_radix_pow_step(32, 23);
    lemma_radix_pow_step(32, 24);
    lemma_radix_pow_step(32, 25);
}

/// Every ULID string has the form of one.
pub proof fn lemma_shape(number: u128)
    ensures
        is_ulid(ulid_text(number)),
{
    let ds = low_digits(number as nat, 32, 26);
    lemma_low_digits(number as nat, 32, 26);
    lemma_digits_suffice();
    assert forall|i: int| 0 <= i < 26 implies is_symbol(#[trigger] ulid_text(number)[i]) by {
        lemma_symbol(ds[i]);
    }
    assert(ds[0] < 8) by {
        lemma_value_leading(ds, 32);
        lemma_radix_pow_step(32, 25);
        let p = radix_pow(32, 25);
        assert(ds[0] < 8) by (nonlinear_arith)
            requires
                ds[0] * p <= number,
                number < 8 * p,
        ;
    }
}

/// Every string of the form of a ULID is the ULID string of the number that the
/// decoder reads from it.
pub proof fn lemma_written_as_read(id: Seq<char>)
    requires
        is_ulid(id),
    ensures
        decoded(id) is Ok,
        ulid_text(decoded(id).unwrap()) == id,
{
    let ds = values_of(id);
    assert forall|i: int| 0 <= i < id.len() implies ds[i] < 32 && symbol(ds[i]) == id[i]
        && '\0' <= #[trigger] id[i] <= '\u{7f}' by {
        assert(is_symbol(id[i]));
    }
    assert(is_ascii_chars(id));
    is_ascii_chars_encode_utf8(id);
    lemma_digits_suffice();
    lemma_radix_pow_step(32, 25);
    lemma_value_leading(ds, 32);
    lemma_value_bound(ds.subrange(1, 26), 32);
    let p = radix_pow(32, 25);
    assert(ds[0] * p <= 7 * p) by (nonlinear_arith)
        requires
            ds[0] <= 7,
    ;
    let number = value(ds, 32);
    lemma_small_mod(number, (u128::MAX + 1) as nat);
    lemma_low_digits(number, 32, 26);
    lemma_value_injective(ds, low_digits(number, 32, 26), 32);
    assert(symbols_of(ds) =~= id);
}

/// The decoder reads every ULID string as the number it was written from.
pub proof fn lemma_decoded(number: u128)
    ensures
        decoded(ulid_text(number)) == Ok::<u128, DecodeFailure>(number),
{
    let ds = low_digits(number as nat, 32, 26);
    let text = ulid_text(number);
    lemma_low_digits(number as nat, 32, 26);
    lemma_digits_suffice();
    assert forall|i: int| 0 <= i < text.len() implies symbol_value(#[trigger] text[i]) == Some(
        ds[i],
    ) && '\0' <= text[i] <= '\u{7f}' by {
        lemma_symbol(ds[i]);
    }
    assert(values_of(text) =~= ds);
    assert(is_ascii_chars(text));
    is_ascii_chars_encode_utf8(text);
    lemma_small_mod(number as nat, (u128::MAX + 1) as nat);
}

/// Reading an identifier gives back the time it was made at, whatever the random
/// bits.
pub proof fn lemma_round_trip(number: u128)
    ensures
        time_of(ulid_text(number)) == Ok::<u64, IdError>((number / RANDOM_SPAN) as u64),
{
    lemma_decoded(number);
}

/// Identifiers sort as their times do: the ULID of the earlier time comes first,
/// whatever the random bits are.
pub proof fn lemma_time_order(earlier: u128, later: u128)
    requires
        earlier / RANDOM_SPAN < later / RANDOM_SPAN,
    ensures
        precedes(ulid_text(earlier), ulid_text(later)),
{
    let a = low_digits(earlier as nat, 32, 26);
    let b = low_digits(later as nat, 32, 26);
    lemma_low_digits(earlier as nat, 32, 26);
    lemma_low_digits(later as nat, 32, 26);
    lemma_digits_suffice();
    let k = lemma_value_order(a, b, 32);
    lemma_symbol(a[k]);
    assert(char_less_at(ulid_text(earlier), ulid_text(later), k));
}

/// The number of a new ULID for the time `time_ms`.
///
/// This is `ulid::Generator::generate_from_datetime` on a generator made for the
/// call, at `time_ms` milliseconds after the Unix epoch. Such a generator has
/// handed out nothing yet, so it does not fail: for the time 0 it gives the
/// number 1, for any other the time followed by eighty random bits. Which bits
/// is left open.
#[verifier::external_body]
fn fresh_value(time_ms: u64) -> (v: u128)
    requires
        time_ms < TIME_SPAN,
    ensures
        v / RANDOM_SPAN == time_ms,
{
    let at = std::time::SystemTime::UNIX_EPOCH + std::time::Duration::from_millis(time_ms);
    let mut source = ::ulid::Generator::new();
    source.generate_from_datetime(at).unwrap().0
}

/// The string of the ULID that stands for `number`: `ulid::Ulid::to_string`,
/// which writes the twenty-six digits of the number in base 32, from the most
/// significant down, each as its symbol.
#[verifier::external_body]
fn to_text(number: u128) -> (s: String)
    ensures
        s@ == ulid_text(number),
{
    ::ulid::Ulid(number).to_string()
}

/// The number for which a string stands, or why it stands for none:
/// `ulid::Ulid::from_string`, with the decoder's two errors under their names.
/// The decoder first asks for twenty-six bytes, then looks each byte up among
/// the symbols and their small letters, and shifts the digits into 128 bits,
/// most significant first.
#[verifier::external_body]
fn from_text(s: &str) -> (r: Result<u128, DecodeFailure>)
    ensures
        r == decoded(s@),
{
    match ::ulid::Ulid::from_string(s) {
        Ok(id) => Ok(id.0),
        Err(::ulid::DecodeError::InvalidLength) => Err(DecodeFailure::InvalidLength),
        Err(::ulid::DecodeError::InvalidChar) => Err(DecodeFailure::InvalidChar),
    }
}

/// Makes an identifier for `time`, with random bits drawn anew. Forty-eight bits
/// of time fit: a larger time is taken modulo `TIME_SPAN`. The identifier has the
/// form of a ULID and is read back as that time.
pub fn gen_ulid(time: u64) -> (id: String)
    ensures
        exists|v: u128| v / RANDOM_SPAN == time % TIME_SPAN && id@ == #[trigger] ulid_text(v),
        is_ulid(id@),
        time_of(id@) == Ok::<u64, IdError>(time % TIME_SPAN),
{
    let v = fresh_value(time % TIME_SPAN);
    proof {
        lemma_shape(v);
        lemma_round_trip(v);
    }
    to_text(v)
}

/// Whether `id` has the form of a ULID: what the pattern
/// `^[0-7][0-9A-HJKMNP-TV-Z]{25}$` accepts.
pub fn is_match(id: &str) -> (b: bool)
    ensures
        b == is_ulid(id@),
{
    if id.unicode_len() != ULID_LENGTH {
        return false;
    }
    let mut i: usize = 0;
    while i < ULID_LENGTH
        invariant
            i <= ULID_LENGTH == id@.len(),
            forall|j: int| 0 <= j < i ==> is_symbol(#[trigger] id@[j]),
            i > 0 ==> 48 <= id@[0] as int <= 55,
        decreases ULID_LENGTH - i,
    {
        let code: u32 = id.get_char(i) as u32;
        let known = (48 <= code && code <= 57) || (65 <= code && code <= 72) || code == 74
            || code == 75 || code == 77 || code == 78 || (80 <= code && code <= 84) || (86
            <= code && code <= 90);
        if !known || (i == 0 && code > 55) {
            return false;
        }
        i = i + 1;
    }
    true
}

/// Reads the time out of an identifier, in milliseconds since the Unix epoch.
pub fn parse(id: &str) -> (r: Result<u64, IdError>)
    ensures
        r == time_of(id@),
{
    match from_text(id) {
        Ok(v) => {
            assert(v / RANDOM_SPAN <= u64::MAX) by (bit_vector)
                requires
                    RANDOM_SPAN == 0x1_0000_0000_0000_0000_0000u128,
            ;
            Ok((v / RANDOM_SPAN) as u64)
        },
        Err(e) => Err(IdError::ExternalDecodeFailure(e)),
    }
}

} // verus!
