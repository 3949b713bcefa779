//! Random draws from the thread-local generator of `rand`.

use vstd::prelude::*;
use rand::Rng;
use rand::rngs::ThreadRng;

verus! {

/// The thread-local random generator of `rand`.
#[verifier::external_type_specification]
#[verifier::external_body]
pub struct ExThreadRng(ThreadRng);

/// A handle to the thread-local random generator.
///
/// Trusted: calls `rand::thread_rng`; nothing is stated of the handle.
#[verifier::external_body]
fn thread_rng() -> ThreadRng {
    rand::thread_rng()
}

/// Draws `true` with probability `numerator / denominator`.
///
/// Trusted: calls `rand::Rng::gen_ratio`. Its source returns `true` always
/// when `numerator == denominator` and `false` always when `numerator == 0`,
/// and panics when `denominator == 0` or `numerator > denominator`, which
/// `requires` rules out. Which value comes back otherwise rests on chance
/// and is not stated.
#[verifier::external_body]
fn gen_ratio(rng: &mut ThreadRng, numerator: u32, denominator: u32) -> (res: bool)
    requires
        0 < denominator,
        numerator <= denominator,
    ensures
        numerator == 0 ==> !res,
        numerator == denominator ==> res,
{
    rng.gen_ratio(numerator, denominator)
}

/// Draws `true` with probability `numerator / denominator`: never when
/// `numerator` is 0, always when it equals `denominator`.
pub fn chance(numerator: u32, denominator: u32) -> (res: bool)
    requires
        0 < denominator,
        numerator <= denominator,
    ensures
        numerator == 0 ==> !res,
        numerator == denominator ==> res,
{
    let mut rng = thread_rng();
    gen_ratio(&mut rng, numerator, denominator)
}

} // verus!
