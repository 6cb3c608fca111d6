//! Choosing the descriptor pool to allocate a descriptor set from.

use vstd::prelude::*;

verus! {

/// The index of the first pool from which fewer than `pool_size` sets have been allocated, or
/// `None` when every pool is full and a new one has to be added (it is then the last pool).
pub fn pool_with_room(pool_counts: &[u32], pool_size: u32) -> (r: Option<usize>)
    ensures
        match r {
            Some(i) => i < pool_counts@.len() && pool_counts@[i as int] < pool_size && forall|j: int|
                0 <= j < i ==> #[trigger] pool_counts@[j] >= pool_size,
            None => forall|j: int| 0 <= j < pool_counts@.len() ==> #[trigger] pool_counts@[j] >= pool_size,
        },
{
    let mut i: usize = 0;
    while i < pool_counts.len()
        invariant
            i <= pool_counts@.len(),
            forall|j: int| 0 <= j < i ==> #[trigger] pool_counts@[j] >= pool_size,
        decreases pool_counts@.len() - i,
    {
        if pool_counts[i] < pool_size {
            return Some(i);
        }
        i += 1;
    }
    None
}

} // verus!
