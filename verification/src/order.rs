//! The order of strings, and why identifiers of later times come later in it.

use crate::numeral::{is_digits, less_at};
use crate::radix::{lemma_digit_char, text_of};
use vstd::prelude::*;

verus! {

/// `a` and `b` agree before position `k`, and there `a` holds the smaller
/// character.
pub open spec fn char_less_at(a: Seq<char>, b: Seq<char>, k: int) -> bool {
    &&& 0 <= k < a.len()
    &&& k < b.len()
    &&& forall|j: int| 0 <= j < k ==> a[j] == b[j]
    &&& (a[k] as int) < (b[k] as int)
}

/// `a` comes before `b` in the order of strings: character by character, a
/// proper prefix before what it is a prefix of.
pub open spec fn precedes(a: Seq<char>, b: Seq<char>) -> bool {
    ||| a.len() < b.len() && b.subrange(0, a.len() as int) == a
    ||| exists|k: int| char_less_at(a, b, k)
}

/// Two numerals of which the first is smaller at their first difference are
/// written out, whatever follows them, as two strings of which the first comes
/// first.
pub proof fn lemma_text_precedes(a: Seq<nat>, b: Seq<nat>, k: int, x: Seq<char>, y: Seq<char>)
    requires
        is_digits(a, 36),
        is_digits(b, 36),
        less_at(a, b, k),
    ensures
        precedes(text_of(a) + x, text_of(b) + y),
{
    lemma_digit_char(a[k]);
    assert(char_less_at(text_of(a) + x, text_of(b) + y, k));
}

} // verus!
