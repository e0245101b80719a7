//! A connectionless network-layer protocol engine: wire-format encoding and
//! decoding of CLNP protocol data units, network-service-access-point
//! addressing, a bounded inter-layer channel, and the echo request/response
//! correlation machinery.
use vstd::prelude::*;

pub mod channel;
pub mod dl;
pub mod n;

verus! {

/// Sum of two machine words; the inputs must not overflow.
pub fn add(left: usize, right: usize) -> (r: usize)
    requires
        left + right <= usize::MAX,
    ensures
        r == left + right,
{
    left + right
}

} // verus!
