use vstd::prelude::*;

verus! {

/// Relies on rand::random, which draws a byte from the thread-local
/// generator.  Nothing is assumed about which byte comes back: callers
/// must hold for every possible value.
#[verifier::external_body]
pub(crate) fn random_byte() -> (b: u8) {
    rand::random::<u8>()
}

} // verus!
