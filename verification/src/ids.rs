use vstd::prelude::*;

verus! {

/// The identifier has the layout of a random (version 4) UUID: version nibble
/// 4 and variant bits `10`.
pub open spec fn is_v4_id(id: u128) -> bool {
    id & 0x0000_0000_0000_F000_C000_0000_0000_0000u128 == 0x0000_0000_0000_4000_8000_0000_0000_0000u128
}

/// Draws a fresh random identifier, as `uuid::Uuid::new_v4` does, and hands
/// it out as the 128-bit integer that `Uuid::as_u128` gives.
///
/// The value comes from the random number generator, so nothing is claimed of
/// it beyond the two fields that version-4 identifiers fix: the version nibble
/// is 4 and the variant bits are `10`.
#[verifier::external_body]
pub(crate) fn fresh_id() -> (id: u128)
    ensures
        is_v4_id(id),
{
    uuid::Uuid::new_v4().as_u128()
}

} // verus!
