//! The crate's only source of randomness: a seedable generator from `rand`,
//! passed explicitly into generation and AI so that a fixed seed reproduces
//! the whole run. Every draw goes through the one wrapper below.
use vstd::prelude::*;

verus! {

#[verifier::external_type_specification]
#[verifier::external_body]
pub struct ExStdRng(rand::rngs::StdRng);

/// Relies on `rand::Rng::gen_range` over `lo..hi`: it panics only on an empty
/// range, and otherwise returns a value of that half-open range.
#[verifier::external_body]
pub(crate) fn rng_range(rng: &mut rand::rngs::StdRng, lo: i32, hi: i32) -> (v: i32)
    requires
        lo < hi,
    ensures
        lo <= v < hi,
{
    <rand::rngs::StdRng as rand::Rng>::gen_range(rng, lo..hi)
}

} // verus!
