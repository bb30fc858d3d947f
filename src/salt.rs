//! Random salts.
use rand::distr::Alphanumeric;
use rand::Rng;
use vstd::prelude::*;

verus! {

/// The number of characters of a generated salt.
pub const SALT_LEN: usize = 32;

/// Whether `c` is an ASCII letter or digit.
pub open spec fn is_ascii_alphanumeric(c: char) -> bool {
    ('a' <= c && c <= 'z') || ('A' <= c && c <= 'Z') || ('0' <= c && c <= '9')
}

/// Relies on rand's `Alphanumeric` distribution, drawn through the thread's
/// generator (`rand::rng`, `Rng::sample_iter`): each draw is a byte of
/// `A-Z`, `a-z` or `0-9`, and `len` draws are taken.
#[verifier::external_body]
fn random_alphanumeric(len: usize) -> (r: String)
    ensures
        r@.len() == len,
        forall|i: int| 0 <= i < r@.len() ==> is_ascii_alphanumeric(#[trigger] r@[i]),
{
    rand::rng().sample_iter(&Alphanumeric).take(len).map(char::from).collect()
}

/// Generates a random salt of `SALT_LEN` ASCII letters and digits.
pub fn generate_salt() -> (r: String)
    ensures
        r@.len() == SALT_LEN,
        forall|i: int| 0 <= i < r@.len() ==> is_ascii_alphanumeric(#[trigger] r@[i]),
{
    random_alphanumeric(SALT_LEN)
}

} // verus!
