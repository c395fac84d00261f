//! Time-ordered identifiers of fixed format.
//!
//! Each scheme derives a short printable string from a creation time in
//! milliseconds since the Unix epoch, so that identifiers sort as their times do,
//! and reads the time back out of an identifier. What tells apart identifiers of
//! one millisecond is a counter, a node tag or random characters, depending on
//! the scheme.
//!
//! The schemes keep no hidden state: the counter schemes take their generator as
//! an argument, so that every result is a function of what the caller passes in
//! and of the random characters drawn.

pub mod aid;
pub mod aidx;
pub mod calendar;
pub mod error;
pub mod field;
pub mod meid;
pub mod noise;
pub mod numeral;
pub mod objectid;
pub mod order;
pub mod radix;
pub mod ulid;
