//! Numbers written out in a radix from 2 to 36, with the digits `0-9` and then
//! `a-z`, and such texts read back.

use crate::error::IdError;
use crate::numeral::{
    digits, is_digits, lemma_digits_shape, lemma_digits_step, lemma_digits_unique,
    lemma_value_of_digits, value,
};
use vstd::prelude::*;
use vstd::string::*;

verus! {

/// The digits in the order of their values.
pub const DIGITS: &'static str = "0123456789abcdefghijklmnopqrstuvwxyz";

/// The character that stands for the digit value `d`: `'0'` to `'9'` for 0 to 9,
/// `'a'` to `'z'` for 10 to 35.
pub open spec fn digit_char(d: nat) -> char {
    if d < 10 {
        (d + 48) as char
    } else {
        (d + 87) as char
    }
}

/// The digit value for which `c` stands, if `c` is one of `0-9` or `a-z`.
pub open spec fn digit_of(c: char) -> Option<nat> {
    if 48 <= c as int <= 57 {
        Some((c as int - 48) as nat)
    } else if 97 <= c as int <= 122 {
        Some((c as int - 87) as nat)
    } else {
        None
    }
}

/// `c` stands for a digit of base `radix`.
pub open spec fn is_digit_char(c: char, radix: nat) -> bool {
    match digit_of(c) {
        Some(d) => d < radix,
        None => false,
    }
}

/// The digits of `ds` written out, one character each.
pub open spec fn text_of(ds: Seq<nat>) -> Seq<char> {
    Seq::new(ds.len(), |i: int| digit_char(ds[i]))
}

/// The digit values of the characters of `s`, with 0 for a character that is no
/// digit.
pub open spec fn digits_of(s: Seq<char>) -> Seq<nat> {
    Seq::new(
        s.len(),
        |i: int|
            match digit_of(s[i]) {
                Some(d) => d,
                None => 0,
            },
    )
}

/// Every character of `s` stands for a digit of base `radix`.
pub open spec fn is_numeral(s: Seq<char>, radix: nat) -> bool {
    forall|i: int| 0 <= i < s.len() ==> is_digit_char(#[trigger] s[i], radix)
}

/// `n` written in base `radix`, most significant digit first, without leading
/// zeros.
pub open spec fn radix_text(n: nat, radix: nat) -> Seq<char> {
    text_of(digits(n, radix))
}

/// The number that the text `s` denotes in base `radix`.
pub open spec fn numeral_value(s: Seq<char>, radix: nat) -> nat {
    value(digits_of(s), radix)
}

/// The characters and the digit values stand for each other, one for one, and
/// the characters are ordered as the values.
pub proof fn lemma_digit_char(d: nat)
    requires
        d < 36,
    ensures
        digit_of(digit_char(d)) == Some(d),
        digit_char(d) == '0' <==> d == 0,
        forall|e: nat| d < e < 36 ==> (digit_char(d) as int) < (digit_char(e) as int),
{
}

/// A numeral written out has a character for each digit, is a text of the base
/// that its digits belong to, and is read back as it was.
pub proof fn lemma_digits_of_text(ds: Seq<nat>, radix: nat)
    requires
        radix <= 36,
        is_digits(ds, radix),
    ensures
        text_of(ds).len() == ds.len(),
        is_numeral(text_of(ds), radix),
        digits_of(text_of(ds)) == ds,
{
    assert forall|i: int| 0 <= i < ds.len() implies digit_of(#[trigger] text_of(ds)[i]) == Some(
        ds[i],
    ) by {
        lemma_digit_char(ds[i]);
    }
    assert(digits_of(text_of(ds)) =~= ds);
}

/// What makes `radix_text(n, radix)` the numeral of `n`: it is made of digits of
/// the radix, it denotes `n`, and it does not begin with `0` unless `n` is zero,
/// which is written `0`. By `lemma_radix_text_unique` no other text is so.
pub proof fn lemma_radix_text(n: nat, radix: nat)
    requires
        2 <= radix <= 36,
    ensures
        radix_text(n, radix).len() >= 1,
        is_numeral(radix_text(n, radix), radix),
        numeral_value(radix_text(n, radix), radix) == n,
        radix_text(n, radix)[0] == '0' <==> n == 0,
        n == 0 ==> radix_text(n, radix) == seq!['0'],
{
    let ds = digits(n, radix);
    lemma_digits_shape(n, radix);
    lemma_digits_step(n, radix);
    lemma_value_of_digits(n, radix);
    lemma_digits_of_text(ds, radix);
    lemma_digit_char(ds[0]);
    if n == 0 {
        assert(radix_text(n, radix) =~= seq!['0']);
    }
}

/// A text of digits of the radix that does not begin with `0`, or is the single
/// character `0`, is the numeral of the number it denotes.
pub proof fn lemma_radix_text_unique(s: Seq<char>, radix: nat)
    requires
        2 <= radix <= 36,
        is_numeral(s, radix),
        s.len() >= 1,
        s[0] != '0' || s.len() == 1,
    ensures
        s == radix_text(numeral_value(s, radix), radix),
{
    let ds = digits_of(s);
    assert forall|i: int| 0 <= i < s.len() implies ds[i] < radix && digit_char(ds[i]) == s[i] by {
        assert(is_digit_char(s[i], radix));
    }
    lemma_digits_unique(ds, radix);
    assert(text_of(ds) =~= s);
}

/// The one-character string of the digit `d`.
pub fn digit_str(d: u32) -> (g: &'static str)
    requires
        d < 36,
    ensures
        g@ == seq![digit_char(d as nat)],
{
    proof {
        reveal_strlit("0123456789abcdefghijklmnopqrstuvwxyz");
    }
    let at: usize = d as usize;
    let g = DIGITS.substring_char(at, at + 1);
    assert(g@ =~= seq![digit_char(d as nat)]);
    g
}

/// The digit value of `c`, if it stands for a digit of base `radix`.
pub fn digit_value(c: char, radix: u32) -> (r: Option<u32>)
    ensures
        match r {
            Some(d) => digit_of(c) == Some(d as nat) && d < radix,
            None => !is_digit_char(c, radix as nat),
        },
{
    let code: u32 = c as u32;
    let d: u32 = if 48 <= code && code <= 57 {
        code - 48
    } else if 97 <= code && code <= 122 {
        code - 87
    } else {
        return None;
    };
    if d < radix {
        Some(d)
    } else {
        None
    }
}

/// Writes `value` in base `radix`.
pub fn encode(value: u128, radix: u32) -> (s: String)
    requires
        2 <= radix <= 36,
    ensures
        s@ == radix_text(value as nat, radix as nat),
{
    let base: u128 = radix as u128;
    let mut rest: u128 = value / base;
    let mut s: String = String::from_str(digit_str((value % base) as u32));
    proof {
        lemma_digits_step(value as nat, radix as nat);
        assert(radix_text(value as nat, radix as nat) =~= if rest > 0 {
            radix_text(rest as nat, radix as nat) + s@
        } else {
            s@
        });
    }
    while rest > 0
        invariant
            base == radix,
            2 <= radix <= 36,
            radix_text(value as nat, radix as nat) == if rest > 0 {
                radix_text(rest as nat, radix as nat) + s@
            } else {
                s@
            },
        decreases rest,
    {
        let ghost whole: nat = rest as nat;
        let ghost written = s@;
        s = String::from_str(digit_str((rest % base) as u32)).concat(s.as_str());
        rest = rest / base;
        proof {
            lemma_digits_step(whole, radix as nat);
            assert(radix_text(whole, radix as nat) + written =~= if rest > 0 {
                radix_text(rest as nat, radix as nat) + s@
            } else {
                s@
            });
        }
    }
    s
}

/// Encodes `num` in the given radix: the digits `0-9` and `a-z`, most significant
/// first, no leading zeros, `"0"` for zero. The radix must be one of 2 to 36;
/// any other is refused, whatever the number.
pub fn radix_encode(num: i64, radix: u32) -> (r: Result<String, IdError>)
    requires
        num >= 0,
    ensures
        match r {
            Ok(s) => {
                &&& 2 <= radix <= 36
                &&& s@ == radix_text(num as nat, radix as nat)
                &&& is_numeral(s@, radix as nat)
                &&& numeral_value(s@, radix as nat) == num
                &&& num == 0 ==> s@ == seq!['0']
                &&& num > 0 ==> s@[0] != '0'
            },
            Err(e) => !(2 <= radix <= 36) && e == IdError::InvalidRadix,
        },
{
    if radix < 2 || radix > 36 {
        return Err(IdError::InvalidRadix);
    }
    proof {
        lemma_radix_text(num as nat, radix as nat);
    }
    Ok(encode(num as u128, radix))
}

} // verus!
