//! The random bytes that fill the upper coefficients of the polynomials.

use rand::RngCore;
use vstd::prelude::*;

verus! {

/// `rand::rngs::ThreadRng`, the handle to the generator of a thread. It is
/// carried from where it is made to where it is used; nothing is known of
/// what it holds.
#[verifier::external_type_specification]
#[verifier::external_body]
pub struct ExThreadRng(rand::rngs::ThreadRng);

/// `rand::thread_rng` hands out a handle to the generator of the calling
/// thread, which the operating system seeds. Nothing is claimed of the
/// handle. It panics where the operating system gives no seed.
pub assume_specification[ rand::thread_rng ]() -> (rng: rand::rngs::ThreadRng);

/// `RngCore::fill_bytes` of the thread's generator overwrites the whole of
/// `dest` with random bytes. The buffer keeps its length; what it then holds
/// differs from call to call, so nothing is claimed of it.
#[verifier::external_body]
pub(crate) fn fill_bytes(rng: &mut rand::rngs::ThreadRng, dest: &mut Vec<u8>)
    ensures
        final(dest)@.len() == old(dest)@.len(),
{
    rng.fill_bytes(dest.as_mut_slice());
}

} // verus!
