//! The secret number and where it comes from.

use rand::Rng;
use vstd::prelude::*;

verus! {

/// The smallest secret.
pub const SECRET_MIN: u32 = 1;

/// One more than the largest secret.
pub const SECRET_END: u32 = 101;

/// The numbers that can be a secret.
pub open spec fn valid_secret(n: u32) -> bool {
    SECRET_MIN <= n < SECRET_END
}

/// Calls `rand::Rng::gen_range` on `rand::thread_rng()` with the half-open
/// range `low..high`. Trusted, not proved: for a range that is not empty the
/// call returns a number inside it. Which number is left open, so nothing is
/// said of two calls giving the same one. An empty range would make the call
/// panic and is excluded. The generator seeds itself from the operating
/// system and panics if that source is not there.
#[verifier::external_body]
fn random_in_range(low: u32, high: u32) -> (n: u32)
    requires
        low < high,
    ensures
        low <= n < high,
{
    rand::thread_rng().gen_range(low..high)
}

/// Whether `n` can be a secret.
pub fn is_valid_secret(n: u32) -> (r: bool)
    ensures
        r == valid_secret(n),
{
    SECRET_MIN <= n && n < SECRET_END
}

/// Draws a secret at random.
pub fn draw_secret() -> (n: u32)
    ensures
        valid_secret(n),
{
    random_in_range(SECRET_MIN, SECRET_END)
}

} // verus!
