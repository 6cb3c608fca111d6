//! NUL-terminated UTF-16 strings for the Windows API.

use vstd::prelude::*;
use crate::small_vecs::{
    wide_buffer_as_slice, wide_buffer_items, wide_buffer_len, wide_buffer_new, wide_buffer_push,
    WideBuffer,
};

verus! {

/// `units` with each NUL code unit replaced by `?`.
pub open spec fn without_nul_units(units: Seq<u16>) -> Seq<u16> {
    units.map_values(|c: u16| if c == 0 { 63u16 } else { c })
}

/// A UTF-16 string with a NUL terminator and no other NUL, to pass to the Windows API.
pub struct WideFfiString {
    buffer: WideBuffer,
}

impl Clone for WideFfiString {
    fn clone(&self) -> (r: Self)
        ensures
            r.units() == self.units(),
    {
        proof {
            use_type_invariant(self);
        }
        WideFfiString { buffer: self.buffer.clone() }
    }
}

impl WideFfiString {
    /// The code units, the terminator included.
    pub closed spec fn units(self) -> Seq<u16> {
        wide_buffer_items(self.buffer)
    }

    #[verifier::type_invariant]
    closed spec fn terminated(self) -> bool {
        &&& self.units().len() > 0
        &&& self.units().last() == 0
        &&& forall|i: int| 0 <= i < self.units().len() - 1 ==> #[trigger] self.units()[i] != 0
    }

    /// The string with UTF-16 code units `units` (as `OsStr::encode_wide` gives them), any NUL
    /// among them replaced by `?`, and a NUL terminator.
    pub fn new(units: &[u16]) -> (r: Self)
        ensures
            r.units() == without_nul_units(units@).push(0u16),
    {
        let mut buffer = wide_buffer_new();
        let mut i: usize = 0;
        while i < units.len()
            invariant
                i <= units@.len(),
                wide_buffer_items(buffer) == without_nul_units(units@).take(i as int),
            decreases units@.len() - i,
        {
            let c = units[i];
            wide_buffer_push(
                &mut buffer,
                if c == 0 {
                    63u16
                } else {
                    c
                },
            );
            i += 1;
            assert(without_nul_units(units@).take(i as int) =~= without_nul_units(units@).take(
                i - 1,
            ).push(if c == 0 { 63u16 } else { c }));
        }
        wide_buffer_push(&mut buffer, 0);
        assert(without_nul_units(units@).take(units@.len() as int) =~= without_nul_units(units@));
        WideFfiString { buffer }
    }

    /// The number of code units, not counting the terminator.
    pub fn len(&self) -> (r: usize)
        ensures
            r == self.units().len() - 1,
    {
        proof {
            use_type_invariant(self);
        }
        wide_buffer_len(&self.buffer) - 1
    }

    /// The code units, the terminator included.
    pub fn as_slice(&self) -> (r: &[u16])
        ensures
            r@ == self.units(),
    {
        wide_buffer_as_slice(&self.buffer)
    }
}

/// A wide string made from any code units ends with its only NUL, and holds those code units
/// with NUL replaced by `?`; its length leaves the terminator out.
pub proof fn lemma_wide_string_terminated(units: Seq<u16>)
    ensures
        without_nul_units(units).push(0u16).len() == units.len() + 1,
        without_nul_units(units).push(0u16).last() == 0,
        forall|i: int|
            0 <= i < units.len() ==> #[trigger] without_nul_units(units).push(0u16)[i] != 0 && (
            units[i] != 0 ==> without_nul_units(units).push(0u16)[i] == units[i]),
{
}

} // verus!
