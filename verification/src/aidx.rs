//! AIDX: sixteen characters, eight for the time, four for the node and four for
//! a counter.
//!
//! The time field is that of an AID. The node tag is drawn at random when a
//! generator is made and stays with it, so that generators which run side by
//! side make different identifiers in the same millisecond. The counter is
//! written in hexadecimal.

use crate::aid::{lemma_time_field, lemma_time_field_order, time_field, TIME2000, TIME_SPAN};
use crate::error::IdError;
use crate::field::{has_form, lemma_text_of_layout, pad_zeros};
use crate::numeral::{
    digits, lemma_digits_len, lemma_digits_shape, lemma_radix_pow_step, lemma_value_of_digits,
    lemma_value_zero_padded, zero_padded,
};
use crate::order::precedes;
use crate::radix::{
    encode, is_digit_char, is_numeral, lemma_digit_char, lemma_digits_of_text, numeral_value,
    text_of, DIGITS,
};
use vstd::prelude::*;
use vstd::string::*;

verus! {

/// Characters in a node tag.
pub const NODE_LENGTH: usize = 4;

/// Fewest characters in the counter field.
pub const NOISE_LENGTH: usize = 4;

/// One source of identifiers: its node tag, and the counter that the next
/// identifier will carry.
pub struct Generator {
    node: String,
    counter: u32,
}

/// `tag` can serve as a node tag: four characters, each of `0-9` or `a-z`.
pub open spec fn is_node_tag(tag: Seq<char>) -> bool {
    tag.len() == 4 && is_numeral(tag, 36)
}

/// The counter field: the counter in hexadecimal, with zeros in front of fewer
/// than four digits. A counter of 65536 or more takes five to eight characters.
pub open spec fn counter_field(counter: u32) -> Seq<char> {
    text_of(zero_padded(digits(counter as nat, 16), 4))
}

/// The identifier made at `time` by the generator of node `node` whose counter
/// is `counter`.
pub open spec fn id_text(time: u64, node: Seq<char>, counter: u32) -> Seq<char> {
    time_field(time) + node + counter_field(counter)
}

/// The counter after `counter`: one more, and 0 after the largest.
pub open spec fn following(counter: u32) -> u32 {
    if counter == u32::MAX {
        0
    } else {
        (counter + 1) as u32
    }
}

/// The time that an identifier holds, read as that of an AID is.
pub open spec fn time_of(id: Seq<char>) -> Result<u64, IdError> {
    crate::aid::time_of(id)
}

/// `id` has the form of an AIDX: sixteen characters, each of `0-9` or `a-z`.
pub open spec fn is_aidx(id: Seq<char>) -> bool {
    id.len() == 16 && is_numeral(id, 36)
}

/// The counter that a generator which starts at `start` holds after `calls`
/// identifiers.
pub open spec fn counter_after(start: u32, calls: nat) -> u32 {
    ((start + calls) % 0x1_0000_0000) as u32
}

/// The counter field is made of hexadecimal digits, denotes the counter, and has
/// four characters for a counter below 65536, and five to eight for any other.
pub proof fn lemma_counter_field(counter: u32)
    ensures
        is_numeral(counter_field(counter), 16),
        is_numeral(counter_field(counter), 36),
        numeral_value(counter_field(counter), 16) == counter,
        counter < 65536 ==> counter_field(counter).len() == 4,
        counter >= 65536 ==> 5 <= counter_field(counter).len() <= 8,
{
    let shortest = digits(counter as nat, 16);
    let filled = zero_padded(shortest, 4);
    lemma_digits_shape(counter as nat, 16);
    lemma_value_of_digits(counter as nat, 16);
    lemma_value_zero_padded(shortest, 16, 4);
    lemma_digits_of_text(filled, 16);
    lemma_radix_pow_step(16, 0);
    lemma_radix_pow_step(16, 1);
    lemma_radix_pow_step(16, 2);
    lemma_radix_pow_step(16, 3);
    lemma_radix_pow_step(16, 4);
    lemma_radix_pow_step(16, 5);
    lemma_radix_pow_step(16, 6);
    lemma_radix_pow_step(16, 7);
    lemma_digits_len(counter as nat, 16, 4);
    lemma_digits_len(counter as nat, 16, 8);
}

/// Every identifier of a generator is made of `0-9` and `a-z` and has at least
/// sixteen characters. It has exactly sixteen, the form of an AIDX, where the
/// counter is below 65536.
pub proof fn lemma_shape(time: u64, node: Seq<char>, counter: u32)
    requires
        is_node_tag(node),
    ensures
        is_numeral(id_text(time, node, counter), 36),
        id_text(time, node, counter).len() >= 16,
        counter < 65536 ==> is_aidx(id_text(time, node, counter)),
{
    lemma_time_field(time);
    lemma_counter_field(counter);
}

/// Reading an identifier gives back the time it was made at, for every time from
/// `TIME2000` on that fits the time field, whatever the node tag and the
/// counter.
pub proof fn lemma_round_trip(time: u64, node: Seq<char>, counter: u32)
    requires
        TIME2000 <= time < TIME2000 + TIME_SPAN,
    ensures
        time_of(id_text(time, node, counter)) == Ok::<u64, IdError>(time),
{
    lemma_time_field(time);
    assert(id_text(time, node, counter).subrange(0, 8) =~= time_field(time));
}

/// Identifiers sort as their times do: of two times from `TIME2000` on that fit
/// the time field, the earlier gives the identifier that comes first, whatever
/// the node tags and the counters are.
pub proof fn lemma_time_order(
    earlier: u64,
    later: u64,
    node_a: Seq<char>,
    counter_a: u32,
    node_b: Seq<char>,
    counter_b: u32,
)
    requires
        TIME2000 <= earlier < later,
        later < TIME2000 + TIME_SPAN,
    ensures
        precedes(id_text(earlier, node_a, counter_a), id_text(later, node_b, counter_b)),
{
    let (rest_a, rest_b) = (node_a + counter_field(counter_a), node_b + counter_field(counter_b));
    lemma_time_field_order(earlier, later, rest_a, rest_b);
    assert(id_text(earlier, node_a, counter_a) =~= time_field(earlier) + rest_a);
    assert(id_text(later, node_b, counter_b) =~= time_field(later) + rest_b);
}

/// Within one millisecond, one node makes different identifiers from different
/// counters.
pub proof fn lemma_counters_distinct(time: u64, node: Seq<char>, counter_a: u32, counter_b: u32)
    requires
        counter_a != counter_b,
    ensures
        id_text(time, node, counter_a) != id_text(time, node, counter_b),
{
    lemma_time_field(time);
    lemma_counter_field(counter_a);
    lemma_counter_field(counter_b);
    let (a, b) = (id_text(time, node, counter_a), id_text(time, node, counter_b));
    assert(a.subrange(8 + node.len() as int, a.len() as int) =~= counter_field(counter_a));
    assert(b.subrange(8 + node.len() as int, b.len() as int) =~= counter_field(counter_b));
}

/// The counter moves on by one with each identifier.
pub proof fn lemma_counter_after(start: u32, calls: nat)
    ensures
        counter_after(start, 0) == start,
        counter_after(start, calls + 1) == following(counter_after(start, calls)),
{
}

/// One generator makes 4294967296 different identifiers in a row within one
/// millisecond: the identifiers after `i` and after `j` earlier ones differ
/// wherever `i` and `j` are less than that apart.
pub proof fn lemma_unique_within_millisecond(
    time: u64,
    node: Seq<char>,
    start: u32,
    i: nat,
    j: nat,
)
    requires
        i < j < i + 0x1_0000_0000,
    ensures
        id_text(time, node, counter_after(start, i)) != id_text(
            time,
            node,
            counter_after(start, j),
        ),
{
    assert(counter_after(start, i) != counter_after(start, j)) by {
        let (x, y) = ((start + i) as int, (start + j) as int);
        assert(x % 0x1_0000_0000 != y % 0x1_0000_0000) by (nonlinear_arith)
            requires
                0 <= x < y < x + 0x1_0000_0000,
        ;
    }
    lemma_counters_distinct(time, node, counter_after(start, i), counter_after(start, j));
}

/// A string of `size` characters, each drawn from `alphabet`.
///
/// This is `nanoid::format` with the crate's default source of random bytes. It
/// keeps drawing until it has `size` bytes of text, so the alphabet must be
/// ASCII for it to stop at `size` characters, and neither the alphabet nor the
/// size may be empty; it refuses an alphabet of more than 255 symbols. Which
/// characters come out is left open.
#[verifier::external_body]
fn random_text(alphabet: &str, size: usize) -> (text: String)
    requires
        1 <= alphabet@.len() <= 255,
        forall|i: int| 0 <= i < alphabet@.len() ==> (alphabet@[i] as int) < 128,
        1 <= size <= usize::MAX / 8,
    ensures
        text@.len() == size,
        forall|i: int| 0 <= i < text@.len() ==> alphabet@.contains(#[trigger] text@[i]),
{
    let symbols: Vec<char> = alphabet.chars().collect();
    nanoid::format(nanoid::rngs::default, &symbols, size)
}

impl Generator {
    /// What every generator keeps to: its node tag is one.
    #[verifier::type_invariant]
    spec fn well_formed(&self) -> bool {
        is_node_tag(self.node@)
    }

    /// The node tag.
    pub closed spec fn node(&self) -> Seq<char> {
        self.node@
    }

    /// The counter that the next identifier will carry.
    pub closed spec fn counter(&self) -> u32 {
        self.counter
    }

    /// A generator with a node tag drawn at random, which starts counting at 0.
    pub fn new() -> (g: Self)
        ensures
            is_node_tag(g.node()),
            g.counter() == 0,
    {
        proof {
            reveal_strlit("0123456789abcdefghijklmnopqrstuvwxyz");
        }
        let node = random_text(DIGITS, NODE_LENGTH);
        assert forall|i: int| 0 <= i < node@.len() implies is_digit_char(
            #[trigger] node@[i],
            36,
        ) by {
            let at = choose|at: int| 0 <= at < DIGITS@.len() && DIGITS@[at] == node@[i];
            lemma_digit_char(at as nat);
        }
        Generator { node, counter: 0 }
    }

    /// A generator with the given node tag and counter, if the tag is one.
    pub fn with_node(node: &str, counter: u32) -> (r: Option<Self>)
        ensures
            match r {
                Some(g) => is_node_tag(node@) && g.node() == node@ && g.counter() == counter,
                None => !is_node_tag(node@),
            },
    {
        if has_form(node, NODE_LENGTH, 36) {
            Some(Generator { node: String::from_str(node), counter })
        } else {
            None
        }
    }

    /// The node tag.
    pub fn node_id(&self) -> (tag: &str)
        ensures
            tag@ == self.node(),
            is_node_tag(tag@),
    {
        proof {
            use_type_invariant(self);
        }
        self.node.as_str()
    }

    /// The counter that the next identifier will carry.
    pub fn count(&self) -> (c: u32)
        ensures
            c == self.counter(),
    {
        self.counter
    }
}

/// The time field for `time`, as in an AID.
pub fn get_time(time: u64) -> (s: String)
    ensures
        s@ == time_field(time),
{
    crate::aid::get_time(time)
}

/// The counter field for the generator's counter, which then moves on by one,
/// from the largest to 0.
pub fn get_noise(generator: &mut Generator) -> (s: String)
    ensures
        s@ == counter_field(old(generator).counter()),
        final(generator).counter() == following(old(generator).counter()),
        final(generator).node() == old(generator).node(),
{
    proof {
        use_type_invariant(&*generator);
    }
    let current: u32 = generator.counter;
    generator.counter = current.wrapping_add(1);
    let numeral = encode(current as u128, 16);
    proof {
        lemma_text_of_layout(digits(current as nat, 16), 4);
    }
    pad_zeros(numeral.as_str(), NOISE_LENGTH)
}

/// Makes the identifier for `time` and moves the generator's counter on.
/// This never fails. The identifier has the form of an AIDX where the counter is
/// below 65536, and is read back as `time` where `time` is one from `TIME2000`
/// on that fits the time field.
pub fn gen_aidx(time: u64, generator: &mut Generator) -> (r: Result<String, &'static str>)
    ensures
        match r {
            Ok(id) => {
                &&& id@ == id_text(time, old(generator).node(), old(generator).counter())
                &&& old(generator).counter() < 65536 ==> is_aidx(id@)
                &&& TIME2000 <= time < TIME2000 + TIME_SPAN ==> time_of(id@) == Ok::<
                    u64,
                    IdError,
                >(time)
            },
            Err(_) => false,
        },
        final(generator).counter() == following(old(generator).counter()),
        final(generator).node() == old(generator).node(),
        is_node_tag(old(generator).node()),
{
    proof {
        use_type_invariant(&*generator);
        lemma_shape(time, generator.node(), generator.counter());
        if TIME2000 <= time < TIME2000 + TIME_SPAN {
            lemma_round_trip(time, generator.node(), generator.counter());
        }
    }
    let mut id = get_time(time);
    id.append(generator.node.as_str());
    let noise = get_noise(generator);
    id.append(noise.as_str());
    Ok(id)
}

/// Whether `id` has the form of an AIDX: what the pattern `^[0-9a-z]{16}$`
/// accepts.
pub fn is_match(id: &str) -> (b: bool)
    ensures
        b == is_aidx(id@),
{
    has_form(id, 16, 36)
}

/// Reads the time out of an identifier, in milliseconds since the Unix epoch.
/// Only the first eight characters are read.
pub fn parse(id: &str) -> (r: Result<u64, IdError>)
    ensures
        r == time_of(id@),
{
    crate::aid::parse(id)
}

} // verus!
