//! Fields of a fixed width: numerals filled up with zeros, cut down to their
//! last digits, and read from the front of a string.

use crate::numeral::{
    is_digits, lemma_radix_pow_increases, lemma_value_bound, lemma_value_push, padded, radix_pow,
    repeated, tail,
};
use crate::radix::{
    digit_value, digits_of, is_digit_char, is_numeral, numeral_value, text_of,
};
use vstd::prelude::*;
use vstd::string::*;

verus! {

/// What the first `width` characters of `s` denote in base `radix`; nothing
/// where `s` is shorter or one of them is no digit of that base.
pub open spec fn prefix_value(s: Seq<char>, width: nat, radix: nat) -> Option<nat> {
    if s.len() >= width && is_numeral(s.subrange(0, width as int), radix) {
        Some(numeral_value(s.subrange(0, width as int), radix))
    } else {
        None
    }
}

/// The digits of a text of digits are digits of the same base.
pub proof fn lemma_digits_of_numeral(s: Seq<char>, radix: nat)
    requires
        is_numeral(s, radix),
    ensures
        is_digits(digits_of(s), radix),
{
    assert forall|i: int| 0 <= i < s.len() implies digits_of(s)[i] < radix by {
        assert(is_digit_char(s[i], radix));
    }
}

/// What a prefix of `width` characters denotes is below the radix to the power
/// `width`.
pub proof fn lemma_prefix_value_bound(s: Seq<char>, width: nat, radix: nat)
    requires
        radix >= 2,
    ensures
        match prefix_value(s, width, radix) {
            Some(v) => v < radix_pow(radix, width),
            None => true,
        },
{
    if prefix_value(s, width, radix) is Some {
        lemma_digits_of_numeral(s.subrange(0, width as int), radix);
        lemma_value_bound(digits_of(s.subrange(0, width as int)), radix);
    }
}

/// Writing out commutes with filling up with zeros and with cutting down to the
/// last digits.
pub proof fn lemma_text_of_layout(ds: Seq<nat>, width: nat)
    ensures
        text_of(padded(ds, width, 0nat)) == padded(text_of(ds), width, '0'),
        text_of(tail(ds, width)) == tail(text_of(ds), width),
{
    assert(text_of(padded(ds, width, 0nat)) =~= padded(text_of(ds), width, '0'));
    assert(text_of(tail(ds, width)) =~= tail(text_of(ds), width));
}

/// `s` with `'0'` put in front of it until it has `width` characters.
pub fn pad_zeros(s: &str, width: usize) -> (r: String)
    ensures
        r@ == padded(s@, width as nat, '0'),
{
    let len = s.unicode_len();
    let mut r = String::new();
    let mut have: usize = len;
    while have < width
        invariant
            len == s@.len(),
            len <= have,
            have <= width || have == len,
            r@ =~= repeated('0', (have - len) as nat),
        decreases width - have,
    {
        proof {
            reveal_strlit("0");
        }
        r.append("0");
        have = have + 1;
    }
    r.append(s);
    assert(r@ =~= padded(s@, width as nat, '0'));
    r
}

/// The last `width` characters of `s`, or all of `s` where it has no more.
pub fn last_chars(s: &str, width: usize) -> (r: &str)
    ensures
        r@ == tail(s@, width as nat),
{
    let len = s.unicode_len();
    if len <= width {
        s
    } else {
        s.substring_char(len - width, len)
    }
}

/// Whether `s` is a numeral of exactly `len` characters in base `radix`.
pub fn has_form(s: &str, len: usize, radix: u32) -> (b: bool)
    ensures
        b == (s@.len() == len && is_numeral(s@, radix as nat)),
{
    if s.unicode_len() != len {
        return false;
    }
    let mut i: usize = 0;
    while i < len
        invariant
            i <= len == s@.len(),
            is_numeral(s@.subrange(0, i as int), radix as nat),
        decreases len - i,
    {
        if digit_value(s.get_char(i), radix).is_none() {
            return false;
        }
        assert forall|j: int| 0 <= j < i + 1 implies is_digit_char(
            #[trigger] s@.subrange(0, i + 1)[j],
            radix as nat,
        ) by {
            if j < i {
                assert(s@.subrange(0, i + 1)[j] == s@.subrange(0, i as int)[j]);
            }
        }
        i = i + 1;
    }
    assert(s@.subrange(0, len as int) =~= s@);
    true
}

/// Reads the first `width` characters of `s` as a numeral in base `radix`. The
/// numerals of that width must fit the result.
pub fn read_prefix(s: &str, width: usize, radix: u32) -> (r: Option<u64>)
    requires
        2 <= radix <= 36,
        radix_pow(radix as nat, width as nat) <= u64::MAX,
    ensures
        match r {
            Some(v) => prefix_value(s@, width as nat, radix as nat) == Some(v as nat) && v
                < radix_pow(radix as nat, width as nat),
            None => prefix_value(s@, width as nat, radix as nat) is None,
        },
{
    if s.unicode_len() < width {
        return None;
    }
    let ghost field = s@.subrange(0, width as int);
    let ghost base: nat = radix as nat;
    let mut acc: u64 = 0;
    let mut i: usize = 0;
    while i < width
        invariant
            i <= width <= s@.len(),
            field == s@.subrange(0, width as int),
            base == radix,
            2 <= radix <= 36,
            radix_pow(base, width as nat) <= u64::MAX,
            is_numeral(field.subrange(0, i as int), base),
            acc == numeral_value(field.subrange(0, i as int), base),
        decreases width - i,
    {
        let ghost seen = field.subrange(0, i as int);
        let ghost next = field.subrange(0, i + 1);
        match digit_value(s.get_char(i), radix) {
            None => {
                assert(!is_digit_char(field[i as int], base));
                return None;
            },
            Some(d) => {
                proof {
                    assert forall|j: int| 0 <= j < next.len() implies is_digit_char(
                        #[trigger] next[j],
                        base,
                    ) by {
                        if j < i {
                            assert(next[j] == seen[j]);
                        }
                    }
                    assert(digits_of(next) =~= digits_of(seen).push(d as nat));
                    lemma_value_push(digits_of(seen), d as nat, base);
                    lemma_digits_of_numeral(next, base);
                    lemma_value_bound(digits_of(next), base);
                    lemma_radix_pow_increases(base, (i + 1) as nat, width as nat);
                    assert(acc * radix <= acc * radix + d <= u64::MAX);
                }
                acc = acc * (radix as u64) + (d as u64);
                i = i + 1;
            },
        }
    }
    proof {
        assert(field.subrange(0, width as int) =~= field);
        lemma_digits_of_numeral(field, base);
        lemma_value_bound(digits_of(field), base);
    }
    Some(acc)
}

} // verus!
