//! The random draws of the registry: lobby-code digits, session-token characters,
//! and the symbol of a lobby's first occupant.
use vstd::prelude::*;
use rand::Rng;

verus! {

/// `c` is an ASCII decimal digit.
pub open spec fn is_digit(c: char) -> bool {
    '0' <= c <= '9'
}

/// `c` is an ASCII letter or an ASCII decimal digit.
pub open spec fn is_alphanumeric(c: char) -> bool {
    ('A' <= c <= 'Z') || ('a' <= c <= 'z') || is_digit(c)
}

/// Relies on `rand::Rng::gen_range` over `thread_rng`: a value drawn from the
/// half-open range `0..10`.
#[verifier::external_body]
pub(crate) fn random_digit() -> (d: u8)
    ensures
        d < 10,
{
    rand::thread_rng().gen_range(0..10u8)
}

/// Relies on `rand::Rng::gen::<bool>` over `thread_rng`: a fair coin.
#[verifier::external_body]
pub(crate) fn random_coin() -> (b: bool) {
    rand::thread_rng().gen::<bool>()
}

/// Relies on sampling `rand::distributions::Alphanumeric` from `thread_rng`: one
/// byte of `A-Z`, `a-z` or `0-9`, returned as a one-character string.
#[verifier::external_body]
pub(crate) fn random_alphanumeric() -> (s: String)
    ensures
        s@.len() == 1,
        is_alphanumeric(s@[0]),
{
    char::from(rand::thread_rng().sample(rand::distributions::Alphanumeric)).to_string()
}

} // verus!
