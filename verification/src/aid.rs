//! AID: ten characters, eight for the time and two for a counter.
//!
//! The time field counts the milliseconds since the start of the year 2000 in
//! base 36. The counter field tells apart the identifiers that one generator
//! makes within a millisecond.

use crate::calendar::{format_utc, utc_text_at};
use crate::error::IdError;
use crate::field::{
    has_form, last_chars, lemma_prefix_value_bound, lemma_text_of_layout, pad_zeros,
    prefix_value, read_prefix,
};
use crate::numeral::{
    digits, lemma_digits_len, lemma_digits_shape, lemma_low_digits, lemma_low_digits_by_padding,
    lemma_radix_pow_step, lemma_value_of_digits, lemma_value_order, lemma_value_zero_padded,
    low_digits, radix_pow, zero_padded,
};
use crate::order::{lemma_text_precedes, precedes};
use crate::radix::{encode, is_numeral, lemma_digits_of_text, numeral_value, text_of};
use vstd::prelude::*;
use vstd::string::*;

verus! {

/// The start of the year 2000 (UTC) in milliseconds since the Unix epoch: the
/// instant from which the time field counts.
pub const TIME2000: u64 = 946684800000;

/// How many time fields there are: 36 to the power 8. A time that lies this many
/// milliseconds or more after `TIME2000` no longer fits the field.
pub const TIME_SPAN: u64 = 2821109907456;

/// The state of one source of identifiers: the counter that the next identifier
/// will carry.
pub struct Generator {
    pub counter: u16,
}

/// The milliseconds from `TIME2000` to `time`, and 0 for a time before it.
pub open spec fn elapsed(time: u64) -> nat {
    if time >= TIME2000 {
        (time - TIME2000) as nat
    } else {
        0
    }
}

/// The time field of an identifier made at `time`: the eight low-order base-36
/// digits of the elapsed milliseconds, with zeros in the places they do not
/// reach.
pub open spec fn time_field(time: u64) -> Seq<char> {
    text_of(low_digits(elapsed(time), 36, 8))
}

/// The counter field: the counter in base 36, with a zero in front of a single
/// digit. A counter of 1296 or more takes three or four characters.
pub open spec fn counter_field(counter: u16) -> Seq<char> {
    text_of(zero_padded(digits(counter as nat, 36), 2))
}

/// The identifier made at `time` by a generator whose counter is `counter`.
pub open spec fn id_text(time: u64, counter: u16) -> Seq<char> {
    time_field(time) + counter_field(counter)
}

/// The counter after `counter`: one more, and 0 after 65535.
pub open spec fn following(counter: u16) -> u16 {
    if counter == u16::MAX {
        0
    } else {
        (counter + 1) as u16
    }
}

/// The time that an identifier holds: what its first eight characters denote in
/// base 36, counted from `TIME2000`. An identifier with fewer characters, or
/// with one among those eight that is not of `0-9` or `a-z`, holds none.
pub open spec fn time_of(id: Seq<char>) -> Result<u64, IdError> {
    match prefix_value(id, 8, 36) {
        Some(v) => Ok((v + TIME2000) as u64),
        None => Err(IdError::MalformedTimeField),
    }
}

/// `id` has the form of an AID: ten characters, each of `0-9` or `a-z`.
pub open spec fn is_aid(id: Seq<char>) -> bool {
    id.len() == 10 && is_numeral(id, 36)
}

/// 36 to the power 8.
pub proof fn lemma_time_span()
    ensures
        radix_pow(36, 8) == TIME_SPAN,
{
    lemma_radix_pow_step(36, 0);
    lemma_radix_pow_step(36, 1);
    lemma_radix_pow_step(36, 2);
    lemma_radix_pow_step(36, 3);
    lemma_radix_pow_step(36, 4);
    lemma_radix_pow_step(36, 5);
    lemma_radix_pow_step(36, 6);
    lemma_radix_pow_step(36, 7);
}

/// The counter that a generator which starts at `start` holds after `calls`
/// identifiers.
pub open spec fn counter_after(start: u16, calls: nat) -> u16 {
    ((start + calls) % 65536) as u16
}

/// The time field has eight characters of `0-9` and `a-z`, and denotes the
/// elapsed milliseconds modulo `TIME_SPAN`.
pub proof fn lemma_time_field(time: u64)
    ensures
        time_field(time).len() == 8,
        is_numeral(time_field(time), 36),
        numeral_value(time_field(time), 36) == elapsed(time) % (TIME_SPAN as nat),
{
    lemma_time_span();
    lemma_low_digits(elapsed(time), 36, 8);
    lemma_digits_of_text(low_digits(elapsed(time), 36, 8), 36);
}

/// The counter field is made of `0-9` and `a-z`, denotes the counter, and has
/// two characters for a counter below 1296, and three or four for any other.
pub proof fn lemma_counter_field(counter: u16)
    ensures
        is_numeral(counter_field(counter), 36),
        numeral_value(counter_field(counter), 36) == counter,
        counter < 1296 ==> counter_field(counter).len() == 2,
        counter >= 1296 ==> 3 <= counter_field(counter).len() <= 4,
{
    let shortest = digits(counter as nat, 36);
    let filled = zero_padded(shortest, 2);
    lemma_digits_shape(counter as nat, 36);
    lemma_value_of_digits(counter as nat, 36);
    lemma_value_zero_padded(shortest, 36, 2);
    lemma_digits_of_text(filled, 36);
    lemma_radix_pow_step(36, 0);
    lemma_radix_pow_step(36, 1);
    lemma_radix_pow_step(36, 2);
    lemma_radix_pow_step(36, 3);
    lemma_digits_len(counter as nat, 36, 2);
    lemma_digits_len(counter as nat, 36, 4);
}

/// Every identifier is made of `0-9` and `a-z` and has at least ten characters.
/// It has exactly ten, the form of an AID, where the counter is below 1296.
pub proof fn lemma_shape(time: u64, counter: u16)
    ensures
        is_numeral(id_text(time, counter), 36),
        id_text(time, counter).len() >= 10,
        counter < 1296 ==> is_aid(id_text(time, counter)),
{
    lemma_time_field(time);
    lemma_counter_field(counter);
}

/// Reading an identifier gives back the time it was made at, for every time from
/// `TIME2000` on that fits the time field. For any time at all it gives
/// `TIME2000` plus the elapsed milliseconds modulo `TIME_SPAN`, so a time before
/// `TIME2000` reads as `TIME2000`.
pub proof fn lemma_round_trip(time: u64, counter: u16)
    ensures
        time_of(id_text(time, counter)) == Ok::<u64, IdError>(
            (TIME2000 + elapsed(time) % (TIME_SPAN as nat)) as u64,
        ),
        TIME2000 <= time < TIME2000 + TIME_SPAN ==> time_of(id_text(time, counter)) == Ok::<
            u64,
            IdError,
        >(time),
{
    lemma_time_field(time);
    assert(id_text(time, counter).subrange(0, 8) =~= time_field(time));
}

/// Time fields sort as their times do: of two times from `TIME2000` on that fit
/// the time field, the earlier gives the time field that comes first, and so
/// does whatever begins with it.
pub proof fn lemma_time_field_order(earlier: u64, later: u64, rest_a: Seq<char>, rest_b: Seq<char>)
    requires
        TIME2000 <= earlier < later,
        later < TIME2000 + TIME_SPAN,
    ensures
        precedes(time_field(earlier) + rest_a, time_field(later) + rest_b),
{
    lemma_time_span();
    let a = low_digits(elapsed(earlier), 36, 8);
    let b = low_digits(elapsed(later), 36, 8);
    lemma_low_digits(elapsed(earlier), 36, 8);
    lemma_low_digits(elapsed(later), 36, 8);
    let k = lemma_value_order(a, b, 36);
    lemma_text_precedes(a, b, k, rest_a, rest_b);
}

/// Identifiers sort as their times do: of two times from `TIME2000` on that fit
/// the time field, the earlier gives the identifier that comes first, whatever
/// the counters are.
pub proof fn lemma_time_order(earlier: u64, later: u64, counter_a: u16, counter_b: u16)
    requires
        TIME2000 <= earlier < later,
        later < TIME2000 + TIME_SPAN,
    ensures
        precedes(id_text(earlier, counter_a), id_text(later, counter_b)),
{
    lemma_time_field_order(earlier, later, counter_field(counter_a), counter_field(counter_b));
}

/// Within one millisecond, generators with different counters make different
/// identifiers.
pub proof fn lemma_counters_distinct(time: u64, counter_a: u16, counter_b: u16)
    requires
        counter_a != counter_b,
    ensures
        id_text(time, counter_a) != id_text(time, counter_b),
{
    lemma_time_field(time);
    lemma_counter_field(counter_a);
    lemma_counter_field(counter_b);
    let (a, b) = (id_text(time, counter_a), id_text(time, counter_b));
    assert(a.subrange(8, a.len() as int) =~= counter_field(counter_a));
    assert(b.subrange(8, b.len() as int) =~= counter_field(counter_b));
}

/// The counter moves on by one with each identifier.
pub proof fn lemma_counter_after(start: u16, calls: nat)
    ensures
        counter_after(start, 0) == start,
        counter_after(start, calls + 1) == following(counter_after(start, calls)),
{
}

/// One generator makes 65536 different identifiers in a row within one
/// millisecond: the identifiers after `i` and after `j` earlier ones differ
/// wherever `i` and `j` are less than 65536 apart.
pub proof fn lemma_unique_within_millisecond(time: u64, start: u16, i: nat, j: nat)
    requires
        i < j < i + 65536,
    ensures
        id_text(time, counter_after(start, i)) != id_text(time, counter_after(start, j)),
{
    assert(counter_after(start, i) != counter_after(start, j)) by {
        let (x, y) = ((start + i) as int, (start + j) as int);
        assert(x % 65536 != y % 65536) by (nonlinear_arith)
            requires
                0 <= x < y < x + 65536,
        ;
    }
    lemma_counters_distinct(time, counter_after(start, i), counter_after(start, j));
}

impl Generator {
    /// A generator that starts counting at 0.
    pub fn new() -> (g: Self)
        ensures
            g.counter == 0,
    {
        Generator { counter: 0 }
    }
}

/// The time field for `time`. A time before `TIME2000` counts as `TIME2000`; of a
/// number too large for eight digits the low-order eight are kept.
pub fn get_time(time: u64) -> (s: String)
    ensures
        s@ == time_field(time),
{
    let since: u64 = time.saturating_sub(TIME2000);
    let numeral = encode(since as u128, 36);
    let filled = pad_zeros(numeral.as_str(), 8);
    let field = last_chars(filled.as_str(), 8);
    proof {
        lemma_low_digits_by_padding(since as nat, 36, 8);
        lemma_text_of_layout(digits(since as nat, 36), 8);
        lemma_text_of_layout(zero_padded(digits(since as nat, 36), 8), 8);
    }
    String::from_str(field)
}

/// The counter field for the generator's counter, which then moves on by one,
/// from 65535 to 0.
pub fn get_noise(generator: &mut Generator) -> (s: String)
    ensures
        s@ == counter_field(old(generator).counter),
        final(generator).counter == following(old(generator).counter),
{
    let current: u16 = generator.counter;
    generator.counter = current.wrapping_add(1);
    let numeral = encode(current as u128, 36);
    proof {
        lemma_text_of_layout(digits(current as nat, 36), 2);
    }
    pad_zeros(numeral.as_str(), 2)
}

/// Makes the identifier for `time` and moves the generator's counter on.
/// This never fails. The identifier has the form of an AID where the counter is
/// below 1296, and is read back as `time` where `time` is one from `TIME2000` on
/// that fits the time field.
pub fn gen(time: u64, generator: &mut Generator) -> (r: Result<String, &'static str>)
    ensures
        match r {
            Ok(id) => {
                &&& id@ == id_text(time, old(generator).counter)
                &&& old(generator).counter < 1296 ==> is_aid(id@)
                &&& TIME2000 <= time < TIME2000 + TIME_SPAN ==> time_of(id@) == Ok::<
                    u64,
                    IdError,
                >(time)
            },
            Err(_) => false,
        },
        final(generator).counter == following(old(generator).counter),
{
    proof {
        lemma_shape(time, generator.counter);
        lemma_round_trip(time, generator.counter);
    }
    let mut id = get_time(time);
    let noise = get_noise(generator);
    id.append(noise.as_str());
    Ok(id)
}

/// Whether `id` has the form of an AID: what the pattern `^[0-9a-z]{10}$`
/// accepts.
pub fn is_match(id: &str) -> (b: bool)
    ensures
        b == is_aid(id@),
{
    has_form(id, 10, 36)
}

/// Reads the time out of an identifier, in milliseconds since the Unix epoch.
/// Only the first eight characters are read.
pub fn parse(id: &str) -> (r: Result<u64, IdError>)
    ensures
        r == time_of(id@),
{
    proof {
        lemma_time_span();
    }
    match read_prefix(id, 8, 36) {
        Some(v) => Ok(v + TIME2000),
        None => Err(IdError::MalformedTimeField),
    }
}

/// The time that an identifier holds, as a date and time in UTC in the format
/// of RFC 3339.
pub fn parse_into_utc(id: &str) -> (r: Result<String, IdError>)
    ensures
        match r {
            Ok(s) => time_of(id@) is Ok && s@ == utc_text_at(time_of(id@).unwrap()),
            Err(e) => time_of(id@) == Err::<u64, IdError>(e),
        },
{
    let time = match parse(id) {
        Ok(time) => time,
        Err(e) => {
            return Err(e);
        },
    };
    proof {
        lemma_time_span();
        lemma_prefix_value_bound(id@, 8, 36);
    }
    Ok(format_utc(time).unwrap())
}

} // verus!
