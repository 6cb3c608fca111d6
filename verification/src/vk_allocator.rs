//! Choosing the Vulkan memory type to allocate from.

use vstd::prelude::*;
use ash::vk::MemoryPropertyFlags;
use crate::vk_util::{memory_property_bits, memory_property_flags_contains};

verus! {

/// The memory type filter allows type `i` when bit `i` of the mask is set.
pub open spec fn memory_type_allowed(i: u32, filter_mask: u32) -> bool {
    (1u32 << i) & filter_mask != 0
}

/// Memory type `i` is allowed and has every property of `wanted`.
pub open spec fn memory_type_acceptable(
    flags: MemoryPropertyFlags,
    i: u32,
    filter_mask: u32,
    wanted: MemoryPropertyFlags,
) -> bool {
    &&& memory_type_allowed(i, filter_mask)
    &&& memory_property_bits(flags) & memory_property_bits(wanted) == memory_property_bits(wanted)
}

/// The index of the first memory type (given by the property flags of each type of the physical
/// device) that the filter mask allows and that has all of `memory_properties`, or `None` when
/// there is none.
pub fn find_memory_type(
    memory_type_flags: &[MemoryPropertyFlags],
    filter_mask: u32,
    memory_properties: MemoryPropertyFlags,
) -> (r: Option<u32>)
    requires
        memory_type_flags@.len() <= 32,
    ensures
        match r {
            Some(i) => {
                &&& i < memory_type_flags@.len()
                &&& memory_type_acceptable(
                    memory_type_flags@[i as int],
                    i,
                    filter_mask,
                    memory_properties,
                )
                &&& forall|j: u32|
                    j < i ==> !memory_type_acceptable(
                        #[trigger] memory_type_flags@[j as int],
                        j,
                        filter_mask,
                        memory_properties,
                    )
            },
            None => forall|j: u32|
                j < memory_type_flags@.len() ==> !memory_type_acceptable(
                    #[trigger] memory_type_flags@[j as int],
                    j,
                    filter_mask,
                    memory_properties,
                ),
        },
{
    let count = memory_type_flags.len() as u32;
    let mut i: u32 = 0;
    while i < count
        invariant
            i <= count,
            count == memory_type_flags@.len(),
            count <= 32,
            forall|j: u32|
                j < i ==> !memory_type_acceptable(
                    #[trigger] memory_type_flags@[j as int],
                    j,
                    filter_mask,
                    memory_properties,
                ),
        decreases count - i,
    {
        if (1u32 << i) & filter_mask != 0 && memory_property_flags_contains(
            memory_type_flags[i as usize],
            memory_properties,
        ) {
            return Some(i);
        }
        i += 1;
    }
    None
}

/// The filter allows memory type `i` exactly when bit `i` of the mask is set.
pub proof fn lemma_memory_type_allowed_is_mask_bit(i: u32, filter_mask: u32)
    requires
        i < 32,
    ensures
        memory_type_allowed(i, filter_mask) <==> (filter_mask >> i) & 1 == 1,
{
    assert(((1u32 << i) & filter_mask != 0) <==> ((filter_mask >> i) & 1 == 1)) by (bit_vector)
        requires
            i < 32,
    ;
}

} // verus!
