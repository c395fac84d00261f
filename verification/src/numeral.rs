//! Positional notation on digit sequences.
//!
//! A numeral is a sequence of digit values, most significant first. This module
//! says which numeral denotes which number, and proves what the identifier
//! schemes rest on: writing and reading are inverse, a number has one numeral
//! without a leading zero, and the numerals of one width are ordered as the
//! numbers they denote.

use vstd::arithmetic::div_mod::{lemma_breakdown, lemma_small_mod};
use vstd::arithmetic::power::{lemma_pow0, lemma_pow_increases, lemma_pow_positive, pow};
use vstd::prelude::*;

verus! {

/// Every entry of `ds` is a digit of base `radix`.
pub open spec fn is_digits(ds: Seq<nat>, radix: nat) -> bool {
    forall|i: int| 0 <= i < ds.len() ==> ds[i] < radix
}

/// The number that `ds` denotes in base `radix`.
pub open spec fn value(ds: Seq<nat>, radix: nat) -> nat
    decreases ds.len(),
{
    if ds.len() == 0 {
        0
    } else {
        value(ds.drop_last(), radix) * radix + ds.last()
    }
}

/// The shortest numeral of `n` in base `radix`: it has no leading zero, and zero
/// is the single digit 0.
pub open spec fn digits(n: nat, radix: nat) -> Seq<nat>
    decreases n,
{
    if radix < 2 || n < radix {
        seq![n]
    } else {
        proof {
            assert(n / radix < n) by (nonlinear_arith)
                requires
                    radix >= 2,
                    n >= radix,
            ;
        }
        digits(n / radix, radix).push(n % radix)
    }
}

/// The `width` low-order digits of `n` in base `radix`, with zeros in the places
/// that `n` does not reach.
pub open spec fn low_digits(n: nat, radix: nat, width: nat) -> Seq<nat>
    decreases width,
{
    if width == 0 {
        Seq::empty()
    } else {
        low_digits(n / radix, radix, (width - 1) as nat).push(n % radix)
    }
}

/// `len` times `fill`.
pub open spec fn repeated<T>(fill: T, len: nat) -> Seq<T> {
    Seq::new(len, |i: int| fill)
}

/// `s` with `fill` in front of it until it has `width` entries. A sequence that
/// is already that long stays as it is.
pub open spec fn padded<T>(s: Seq<T>, width: nat, fill: T) -> Seq<T> {
    if s.len() >= width {
        s
    } else {
        repeated(fill, (width - s.len()) as nat) + s
    }
}

/// `ds` with zeros in front of it until it has `width` digits.
pub open spec fn zero_padded(ds: Seq<nat>, width: nat) -> Seq<nat> {
    padded(ds, width, 0nat)
}

/// The last `width` entries of `s`, or all of `s` where it has no more.
pub open spec fn tail<T>(s: Seq<T>, width: nat) -> Seq<T> {
    if s.len() <= width {
        s
    } else {
        s.subrange(s.len() - width, s.len() as int)
    }
}

/// `radix` to the power `width`: how many numerals of that width there are.
pub open spec fn radix_pow(radix: nat, width: nat) -> nat {
    pow(radix as int, width) as nat
}

/// `a` and `b` agree before position `k`, and there `a` holds the smaller digit.
pub open spec fn less_at(a: Seq<nat>, b: Seq<nat>, k: int) -> bool {
    &&& 0 <= k < a.len()
    &&& k < b.len()
    &&& forall|j: int| 0 <= j < k ==> a[j] == b[j]
    &&& a[k] < b[k]
}

/// A power of the radix is positive, and the next power is the radix times it.
pub proof fn lemma_radix_pow_step(radix: nat, width: nat)
    requires
        radix >= 1,
    ensures
        radix_pow(radix, width) >= 1,
        radix_pow(radix, 0) == 1,
        radix_pow(radix, width + 1) == radix * radix_pow(radix, width),
{
    lemma_pow0(radix as int);
    lemma_pow_positive(radix as int, width);
    lemma_pow_positive(radix as int, width + 1);
    reveal(pow);
}

/// A higher power of the radix is no smaller.
pub proof fn lemma_radix_pow_increases(radix: nat, low: nat, high: nat)
    requires
        radix >= 1,
        low <= high,
    ensures
        radix_pow(radix, low) <= radix_pow(radix, high),
{
    lemma_pow_positive(radix as int, low);
    lemma_pow_positive(radix as int, high);
    lemma_pow_increases(radix, low, high);
}

/// How `digits` takes a number apart: a number below the radix is its own single
/// digit; any other is the numeral of its quotient followed by its remainder.
pub proof fn lemma_digits_step(n: nat, radix: nat)
    requires
        radix >= 2,
    ensures
        n < radix ==> n / radix == 0 && n % radix == n && digits(n, radix) == seq![n],
        n >= radix ==> 0 < n / radix < n && digits(n, radix) == digits(n / radix, radix).push(
            n % radix,
        ),
        n % radix < radix,
{
    assert(n < radix ==> n / radix == 0 && n % radix == n) by (nonlinear_arith)
        requires
            radix >= 2,
    ;
    assert(n >= radix ==> 0 < n / radix < n) by (nonlinear_arith)
        requires
            radix >= 2,
    ;
    assert(n % radix < radix) by (nonlinear_arith)
        requires
            radix >= 2,
    ;
}

/// The shortest numeral of a number is made of digits of the radix, is not
/// empty, and begins with a zero only where the number is zero.
pub proof fn lemma_digits_shape(n: nat, radix: nat)
    requires
        radix >= 2,
    ensures
        digits(n, radix).len() >= 1,
        is_digits(digits(n, radix), radix),
        digits(n, radix)[0] == 0 <==> n == 0,
    decreases n,
{
    lemma_digits_step(n, radix);
    if n >= radix {
        lemma_digits_shape(n / radix, radix);
    }
}

/// How long the shortest numeral is: a number below the radix to the power
/// `width` takes at most `width` digits, any other takes more.
pub proof fn lemma_digits_len(n: nat, radix: nat, width: nat)
    requires
        radix >= 2,
        width >= 1,
    ensures
        n < radix_pow(radix, width) ==> digits(n, radix).len() <= width,
        n >= radix_pow(radix, width) ==> digits(n, radix).len() > width,
    decreases width,
{
    lemma_digits_step(n, radix);
    lemma_digits_shape(n, radix);
    lemma_radix_pow_step(radix, 0);
    lemma_radix_pow_step(radix, (width - 1) as nat);
    let p = radix_pow(radix, (width - 1) as nat);
    if n < radix {
        assert(n < radix * p) by (nonlinear_arith)
            requires
                n < radix,
                p >= 1,
        ;
    } else if width > 1 {
        lemma_digits_len(n / radix, radix, (width - 1) as nat);
        assert(n < radix * p <==> n / radix < p) by (nonlinear_arith)
            requires
                radix >= 2,
        ;
    } else {
        lemma_digits_shape(n / radix, radix);
    }
}

/// The value of a numeral with one more digit at its end.
pub proof fn lemma_value_push(ds: Seq<nat>, d: nat, radix: nat)
    ensures
        value(ds.push(d), radix) == value(ds, radix) * radix + d,
{
    assert(ds.push(d).drop_last() =~= ds);
}

/// The value of a numeral of one digit is the digit.
pub proof fn lemma_value_single(d: nat, radix: nat)
    ensures
        value(seq![d], radix) == d,
{
    lemma_value_push(Seq::empty(), d, radix);
    assert(Seq::<nat>::empty().push(d) =~= seq![d]);
    assert(value(Seq::<nat>::empty(), radix) * radix == 0) by (nonlinear_arith)
        requires
            value(Seq::<nat>::empty(), radix) == 0,
    ;
}

/// Reading the shortest numeral of a number gives the number back.
pub proof fn lemma_value_of_digits(n: nat, radix: nat)
    requires
        radix >= 2,
    ensures
        value(digits(n, radix), radix) == n,
    decreases n,
{
    lemma_digits_step(n, radix);
    if n >= radix {
        lemma_value_of_digits(n / radix, radix);
        lemma_value_push(digits(n / radix, radix), n % radix, radix);
        assert((n / radix) * radix + n % radix == n) by (nonlinear_arith)
            requires
                radix >= 2,
        ;
    } else {
        lemma_value_single(n, radix);
    }
}

/// A numeral of `ds.len()` digits denotes a number below the radix to that
/// power.
pub proof fn lemma_value_bound(ds: Seq<nat>, radix: nat)
    requires
        radix >= 2,
        is_digits(ds, radix),
    ensures
        value(ds, radix) < radix_pow(radix, ds.len()),
    decreases ds.len(),
{
    lemma_radix_pow_step(radix, 0);
    if ds.len() > 0 {
        let front = ds.drop_last();
        lemma_value_bound(front, radix);
        lemma_radix_pow_step(radix, front.len());
        let v = value(front, radix);
        let p = radix_pow(radix, front.len());
        let d = ds.last();
        assert(v * radix + d < radix * p) by (nonlinear_arith)
            requires
                v < p,
                d < radix,
        ;
    }
}

/// The value of a numeral by its first digit: the digit times the radix to the
/// power of the number of digits that follow, plus what those denote.
pub proof fn lemma_value_leading(ds: Seq<nat>, radix: nat)
    requires
        radix >= 1,
        ds.len() >= 1,
    ensures
        value(ds, radix) == ds[0] * radix_pow(radix, (ds.len() - 1) as nat) + value(
            ds.subrange(1, ds.len() as int),
            radix,
        ),
    decreases ds.len(),
{
    let rest = ds.subrange(1, ds.len() as int);
    lemma_radix_pow_step(radix, 0);
    if ds.len() == 1 {
        assert(ds =~= seq![ds[0]]);
        lemma_value_single(ds[0], radix);
        assert(ds[0] * 1 == ds[0]) by (nonlinear_arith);
    } else {
        let front = ds.drop_last();
        lemma_value_leading(front, radix);
        assert(front.subrange(1, front.len() as int) =~= rest.drop_last());
        lemma_radix_pow_step(radix, (front.len() - 1) as nat);
        let p = radix_pow(radix, (front.len() - 1) as nat);
        let (lead, tail_value) = (ds[0], value(rest.drop_last(), radix));
        assert((lead * p + tail_value) * radix == lead * (radix * p) + tail_value * radix)
            by (nonlinear_arith);
    }
}

/// A numeral that begins with a digit other than zero denotes at least the radix
/// to the power of the number of digits that follow the first.
pub proof fn lemma_value_lower_bound(ds: Seq<nat>, radix: nat)
    requires
        radix >= 2,
        ds.len() >= 1,
        ds[0] >= 1,
    ensures
        value(ds, radix) >= radix_pow(radix, (ds.len() - 1) as nat),
{
    lemma_value_leading(ds, radix);
    let p = radix_pow(radix, (ds.len() - 1) as nat);
    assert(ds[0] * p >= p) by (nonlinear_arith)
        requires
            ds[0] >= 1,
    ;
}

/// Two numerals of one length that denote the same number are the same numeral.
pub proof fn lemma_value_injective(a: Seq<nat>, b: Seq<nat>, radix: nat)
    requires
        radix >= 2,
        a.len() == b.len(),
        is_digits(a, radix),
        is_digits(b, radix),
        value(a, radix) == value(b, radix),
    ensures
        a == b,
    decreases a.len(),
{
    if a.len() > 0 {
        let (x, y) = (value(a.drop_last(), radix), value(b.drop_last(), radix));
        let (d, e) = (a.last(), b.last());
        assert(x == y && d == e) by (nonlinear_arith)
            requires
                x * radix + d == y * radix + e,
                d < radix,
                e < radix,
        ;
        lemma_value_injective(a.drop_last(), b.drop_last(), radix);
        assert(a =~= a.drop_last().push(a.last()));
        assert(b =~= b.drop_last().push(b.last()));
    } else {
        assert(a =~= b);
    }
}

/// A numeral without a leading zero is the shortest numeral of the number it
/// denotes: no number has two such numerals.
pub proof fn lemma_digits_unique(ds: Seq<nat>, radix: nat)
    requires
        radix >= 2,
        is_digits(ds, radix),
        ds.len() >= 1,
        ds[0] != 0 || ds.len() == 1,
    ensures
        ds == digits(value(ds, radix), radix),
{
    let n = value(ds, radix);
    lemma_digits_shape(n, radix);
    lemma_value_of_digits(n, radix);
    lemma_value_bound(ds, radix);
    lemma_digits_len(n, radix, ds.len());
    if ds.len() == 1 {
        lemma_radix_pow_step(radix, 0);
    } else {
        lemma_value_lower_bound(ds, radix);
        lemma_digits_len(n, radix, (ds.len() - 1) as nat);
    }
    lemma_value_injective(ds, digits(n, radix), radix);
}

/// Numerals of one length are ordered as the numbers they denote: where `a`
/// denotes less than `b`, they differ, and the first digit in which they do is
/// smaller in `a`. The lemma gives the place of that digit.
pub proof fn lemma_value_order(a: Seq<nat>, b: Seq<nat>, radix: nat) -> (k: int)
    requires
        radix >= 2,
        a.len() == b.len(),
        is_digits(a, radix),
        is_digits(b, radix),
        value(a, radix) < value(b, radix),
    ensures
        less_at(a, b, k),
    decreases a.len(),
{
    let (x, y) = (value(a.drop_last(), radix), value(b.drop_last(), radix));
    let (d, e) = (a.last(), b.last());
    assert(x < y || (x == y && d < e)) by (nonlinear_arith)
        requires
            x * radix + d < y * radix + e,
            d < radix,
            e < radix,
    ;
    if x < y {
        let k = lemma_value_order(a.drop_last(), b.drop_last(), radix);
        assert forall|j: int| 0 <= j <= k implies a[j] == a.drop_last()[j] && b[j]
            == b.drop_last()[j] by {}
        k
    } else {
        lemma_value_injective(a.drop_last(), b.drop_last(), radix);
        assert forall|j: int| 0 <= j < a.len() - 1 implies a[j] == b[j] by {
            assert(a[j] == a.drop_last()[j]);
            assert(b[j] == b.drop_last()[j]);
        }
        a.len() - 1
    }
}

/// A numeral of zeros denotes zero.
pub proof fn lemma_value_of_zeros(len: nat, radix: nat)
    ensures
        value(repeated(0nat, len), radix) == 0,
    decreases len,
{
    if len > 0 {
        lemma_value_of_zeros((len - 1) as nat, radix);
        lemma_value_push(repeated(0nat, (len - 1) as nat), 0, radix);
        assert(repeated(0nat, (len - 1) as nat).push(0) =~= repeated(0nat, len));
        assert(0 * radix == 0) by (nonlinear_arith);
    }
}

/// Zeros in front of a numeral do not change the number it denotes.
pub proof fn lemma_value_zero_padded(ds: Seq<nat>, radix: nat, width: nat)
    ensures
        value(zero_padded(ds, width), radix) == value(ds, radix),
    decreases ds.len(),
{
    if ds.len() < width {
        if ds.len() == 0 {
            assert(zero_padded(ds, width) =~= repeated(0nat, width));
            lemma_value_of_zeros(width, radix);
        } else {
            lemma_value_zero_padded(ds.drop_last(), radix, (width - 1) as nat);
            assert(zero_padded(ds, width).drop_last() =~= zero_padded(
                ds.drop_last(),
                (width - 1) as nat,
            ));
        }
    }
}

/// The low digits of a number are `width` digits of the radix, and they denote
/// the number modulo the radix to the power `width`: the number itself where it
/// is below that power.
pub proof fn lemma_low_digits(n: nat, radix: nat, width: nat)
    requires
        radix >= 2,
    ensures
        low_digits(n, radix, width).len() == width,
        is_digits(low_digits(n, radix, width), radix),
        value(low_digits(n, radix, width), radix) == n % radix_pow(radix, width),
        n < radix_pow(radix, width) ==> value(low_digits(n, radix, width), radix) == n,
    decreases width,
{
    lemma_radix_pow_step(radix, width);
    if width > 0 {
        let w = (width - 1) as nat;
        let p = radix_pow(radix, w);
        lemma_low_digits(n / radix, radix, w);
        lemma_radix_pow_step(radix, w);
        lemma_digits_step(n, radix);
        lemma_value_push(low_digits(n / radix, radix, w), n % radix, radix);
        lemma_breakdown(n as int, radix as int, p as int);
        assert(((n / radix) % p) * radix == radix * ((n / radix) % p)) by (nonlinear_arith);
    }
    if n < radix_pow(radix, width) {
        lemma_small_mod(n, radix_pow(radix, width));
    }
}

/// The low digits of a number are its shortest numeral, filled with zeros in
/// front to the width and then cut down to its last `width` digits.
pub proof fn lemma_low_digits_by_padding(n: nat, radix: nat, width: nat)
    requires
        radix >= 2,
    ensures
        low_digits(n, radix, width) == tail(zero_padded(digits(n, radix), width), width),
    decreases width,
{
    lemma_digits_step(n, radix);
    lemma_digits_step(0, radix);
    let cut = tail(zero_padded(digits(n, radix), width), width);
    if width == 0 {
        assert(low_digits(n, radix, width) =~= cut);
    } else {
        let w = (width - 1) as nat;
        let front = digits(n / radix, radix);
        lemma_low_digits_by_padding(n / radix, radix, w);
        if n < radix {
            assert(tail(zero_padded(front, w), w) =~= repeated(0nat, w));
            assert(low_digits(n, radix, width) =~= cut);
        } else {
            assert(zero_padded(front.push(n % radix), width) =~= zero_padded(front, w).push(
                n % radix,
            ));
            assert(cut =~= tail(zero_padded(front, w), w).push(n % radix));
        }
    }
}

/// For a number that fits `width` digits, the low digits are the shortest
/// numeral filled up with zeros: nothing is cut off.
pub proof fn lemma_low_digits_when_fitting(n: nat, radix: nat, width: nat)
    requires
        radix >= 2,
        width >= 1,
        n < radix_pow(radix, width),
    ensures
        low_digits(n, radix, width) == zero_padded(digits(n, radix), width),
{
    lemma_low_digits_by_padding(n, radix, width);
    lemma_digits_len(n, radix, width);
}

} // verus!
