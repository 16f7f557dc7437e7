//! Identifiers of producers, consumers and cluster nodes.

use uuid::Uuid;
use vstd::prelude::*;

verus! {

/// The bits of an identifier that hold its version and its variant.
pub const VERSION_AND_VARIANT_BITS: u128 = 0x0000_0000_0000_f000_c000_0000_0000_0000;

/// Version 4 (random) in the version bits, the standard variant in the
/// variant bits.
pub const RANDOM_VERSION_AND_VARIANT: u128 = 0x0000_0000_0000_4000_8000_0000_0000_0000;

/// Whether `identifier` has the shape of a random (version 4) identifier.
pub open spec fn is_random_identifier(identifier: u128) -> bool {
    identifier & VERSION_AND_VARIANT_BITS == RANDOM_VERSION_AND_VARIANT
}

/// Calls `uuid::Uuid::new_v4` and gives the new identifier as the integer
/// into which `Uuid::as_u128` packs its sixteen bytes. The identifier is
/// drawn at random, so the contract states only what holds of every draw:
/// the version and variant bits that `new_v4` always sets. The call does not
/// return when the operating system has no random bytes to give.
#[verifier::external_body]
pub(crate) fn random_identifier() -> (identifier: u128)
    ensures
        is_random_identifier(identifier),
{
    Uuid::new_v4().as_u128()
}

/// The low 64 bits of an identifier.
pub open spec fn low_half(identifier: u128) -> u64 {
    (identifier % 0x1_0000_0000_0000_0000) as u64
}

/// Computes [`low_half`].
pub fn low_half_of(identifier: u128) -> (low: u64)
    ensures
        low == low_half(identifier),
{
    (identifier % 0x1_0000_0000_0000_0000u128) as u64
}

} // verus!
