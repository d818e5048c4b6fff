//! Identifiers: 128-bit, time-sortable tokens minted by `rusty_ulid`.
use vstd::prelude::*;

verus! {

/// Relies on rusty_ulid::Ulid::generate: a new identifier from the clock and a
/// random source; nothing is known of its value. It panics only once the clock
/// passes the year 10889.
#[verifier::external_body]
pub(crate) fn generate_id() -> (r: u128) {
    u128::from(rusty_ulid::Ulid::generate())
}

/// Relies on rusty_ulid::Ulid::next_monotonic: within the same millisecond
/// as `previous` the result is the next value; otherwise it is drawn anew
/// from the clock and a random source, so nothing is known of its value. It
/// panics only once the clock passes the year 10889.
#[verifier::external_body]
pub(crate) fn next_id_after(previous: u128) -> (r: u128) {
    u128::from(rusty_ulid::Ulid::next_monotonic(rusty_ulid::Ulid::from(previous)))
}

} // verus!
