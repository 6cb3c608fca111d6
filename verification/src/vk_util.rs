//! The choices made while setting up Vulkan: which queue families and physical device to use,
//! how to pass strings to the C API, and which memory type, descriptor pool and swapchain
//! settings to use.

use vstd::prelude::*;
use ash::vk::{ColorSpaceKHR, Extent2D, Format, MemoryPropertyFlags, QueueFlags, SurfaceFormatKHR};
use vstd::string::StringSliceAdditionalSpecFns;
use crate::small_vecs::{byte_buffer_grow, byte_buffer_items, byte_buffer_push, ByteBuffer};

verus! {

#[verifier::external_type_specification]
#[verifier::external_body]
pub struct ExQueueFlags(QueueFlags);

#[verifier::external_type_specification]
#[verifier::external_body]
pub struct ExMemoryPropertyFlags(MemoryPropertyFlags);

#[verifier::external_type_specification]
#[verifier::external_body]
pub struct ExFormat(Format);

#[verifier::external_type_specification]
#[verifier::external_body]
pub struct ExColorSpaceKHR(ColorSpaceKHR);

#[verifier::external_type_specification]
pub struct ExSurfaceFormatKHR(SurfaceFormatKHR);

#[verifier::external_type_specification]
pub struct ExExtent2D(Extent2D);

/// The bits of a set of queue flags (`QueueFlags::as_raw`).
pub uninterp spec fn queue_flags_bits(flags: QueueFlags) -> u32;

/// The bits of a set of memory property flags (`MemoryPropertyFlags::as_raw`).
pub uninterp spec fn memory_property_bits(flags: MemoryPropertyFlags) -> u32;

/// The raw value of a format (`Format::as_raw`).
pub uninterp spec fn format_value(format: Format) -> i32;

/// The raw value of a color space (`ColorSpaceKHR::as_raw`).
pub uninterp spec fn color_space_value(color_space: ColorSpaceKHR) -> i32;

/// `QueueFlags::contains`: whether every bit of `other` is set in `flags`.
#[verifier::external_body]
fn queue_flags_contains(flags: QueueFlags, other: QueueFlags) -> (r: bool)
    ensures
        r == (queue_flags_bits(flags) & queue_flags_bits(other) == queue_flags_bits(other)),
{
    flags.contains(other)
}

/// `QueueFlags::GRAPHICS`: the queue supports graphics operations (bit 0).
#[verifier::external_body]
fn queue_flags_graphics() -> (r: QueueFlags)
    ensures
        queue_flags_bits(r) == 1,
{
    QueueFlags::GRAPHICS
}

/// `QueueFlags::TRANSFER`: the queue supports transfer operations (bit 2).
#[verifier::external_body]
fn queue_flags_transfer() -> (r: QueueFlags)
    ensures
        queue_flags_bits(r) == 4,
{
    QueueFlags::TRANSFER
}

/// `MemoryPropertyFlags::contains`: whether every bit of `other` is set in `flags`.
#[verifier::external_body]
pub(crate) fn memory_property_flags_contains(flags: MemoryPropertyFlags, other: MemoryPropertyFlags) -> (r:
    bool)
    ensures
        r == (memory_property_bits(flags) & memory_property_bits(other) == memory_property_bits(
            other,
        )),
{
    flags.contains(other)
}

/// `Format::as_raw`: the format's raw value.
#[verifier::external_body]
pub(crate) fn format_as_raw(format: Format) -> (r: i32)
    ensures
        r == format_value(format),
{
    format.as_raw()
}

/// `ColorSpaceKHR::as_raw`: the color space's raw value.
#[verifier::external_body]
pub(crate) fn color_space_as_raw(color_space: ColorSpaceKHR) -> (r: i32)
    ensures
        r == color_space_value(color_space),
{
    color_space.as_raw()
}

/// Whether the slice holds `x`.
pub(crate) fn slice_contains_u32(s: &[u32], x: &u32) -> (r: bool)
    ensures
        r == s@.contains(*x),
{
    let mut i: usize = 0;
    while i < s.len()
        invariant
            i <= s@.len(),
            forall|j: int| 0 <= j < i ==> s@[j] != *x,
        decreases s@.len() - i,
    {
        if s[i] == *x {
            assert(s@[i as int] == *x);
            return true;
        }
        i += 1;
    }
    false
}

/// The raw value of `Format::R8G8B8A8_SRGB`.
pub open spec fn format_r8g8b8a8_srgb() -> i32 {
    43
}

/// The raw value of `Format::B8G8R8A8_SRGB`.
pub open spec fn format_b8g8r8a8_srgb() -> i32 {
    50
}

/// The raw value of `ColorSpaceKHR::SRGB_NONLINEAR`.
pub open spec fn color_space_srgb_nonlinear() -> i32 {
    0
}

/// `Format::R8G8B8A8_SRGB.as_raw()`.
#[verifier::external_body]
pub(crate) fn r8g8b8a8_srgb_raw() -> (r: i32)
    ensures
        r == format_r8g8b8a8_srgb(),
{
    Format::R8G8B8A8_SRGB.as_raw()
}

/// `Format::B8G8R8A8_SRGB.as_raw()`.
#[verifier::external_body]
pub(crate) fn b8g8r8a8_srgb_raw() -> (r: i32)
    ensures
        r == format_b8g8r8a8_srgb(),
{
    Format::B8G8R8A8_SRGB.as_raw()
}

/// `ColorSpaceKHR::SRGB_NONLINEAR.as_raw()`.
#[verifier::external_body]
pub(crate) fn srgb_nonlinear_raw() -> (r: i32)
    ensures
        r == color_space_srgb_nonlinear(),
{
    ColorSpaceKHR::SRGB_NONLINEAR.as_raw()
}

/// The queue families to create queues from.
#[derive(Copy, Clone, Debug)]
pub struct QueueFamilyIndices {
    pub graphics: u32,
    pub present: u32,
    pub transfer: u32,
}

impl QueueFamilyIndices {
    /// The distinct queue families, in the order graphics, present, transfer.
    pub open spec fn unique_indices(self) -> Seq<u32> {
        let s = seq![self.graphics];
        let s = if s.contains(self.present) {
            s
        } else {
            s.push(self.present)
        };
        if s.contains(self.transfer) {
            s
        } else {
            s.push(self.transfer)
        }
    }

    pub fn new(graphics: u32, present: u32, transfer: u32) -> (r: QueueFamilyIndices)
        ensures
            r.graphics == graphics,
            r.present == present,
            r.transfer == transfer,
    {
        Self { graphics, present, transfer }
    }

    /// The distinct queue families, each once, in the order graphics, present, transfer.
    pub fn get_unique_indices(&self) -> (r: Vec<u32>)
        ensures
            r@ == self.unique_indices(),
    {
        let mut indices = Vec::with_capacity(3);
        indices.push(self.graphics);
        if !slice_contains_u32(indices.as_slice(), &self.present) {
            indices.push(self.present);
        }
        if !slice_contains_u32(indices.as_slice(), &self.transfer) {
            indices.push(self.transfer);
        }
        indices
    }
}

/// The unique queue families are the three families, each once.
pub proof fn lemma_unique_indices(q: QueueFamilyIndices)
    ensures
        q.unique_indices().no_duplicates(),
        q.unique_indices().contains(q.graphics),
        q.unique_indices().contains(q.present),
        q.unique_indices().contains(q.transfer),
        forall|i: u32| #[trigger] q.unique_indices().contains(i) ==> i == q.graphics || i
            == q.present || i == q.transfer,
        1 <= q.unique_indices().len() <= 3,
{
    let s = seq![q.graphics];
    assert(s[0] == q.graphics);
    let s2 = if s.contains(q.present) {
        s
    } else {
        s.push(q.present)
    };
    assert(s2.contains(q.present)) by {
        if !s.contains(q.present) {
            assert(s2[1] == q.present);
        }
    }
    let u = q.unique_indices();
    assert(u.contains(q.transfer)) by {
        if !s2.contains(q.transfer) {
            assert(u[u.len() - 1] == q.transfer);
        }
    }
    assert(u.contains(q.present)) by {
        let j = choose|j: int| 0 <= j < s2.len() && s2[j] == q.present;
        assert(u[j] == q.present);
    }
    assert(u.contains(q.graphics)) by {
        assert(u[0] == q.graphics);
    }
}

/// The queue family supports graphics operations.
pub open spec fn supports_graphics(flags: QueueFlags) -> bool {
    queue_flags_bits(flags) & 1 == 1
}

/// The queue family supports transfers and not graphics, so it can use the GPU's copy engine.
pub open spec fn supports_transfer_only(flags: QueueFlags) -> bool {
    queue_flags_bits(flags) & 4 == 4 && queue_flags_bits(flags) & 1 != 1
}

/// `i` is the first index of `s` at which `p` holds.
pub open spec fn is_first_where<T>(s: Seq<T>, i: int, p: spec_fn(T) -> bool) -> bool {
    &&& 0 <= i < s.len()
    &&& p(s[i])
    &&& forall|j: int| 0 <= j < i ==> !p(#[trigger] s[j])
}

/// Finds the first index of `flags` at which `graphics` (else transfer-only) support holds.
fn position_of_family(flags: &[QueueFlags], graphics: bool) -> (r: Option<usize>)
    ensures
        ({
            let p = if graphics {
                |f: QueueFlags| supports_graphics(f)
            } else {
                |f: QueueFlags| supports_transfer_only(f)
            };
            match r {
                Some(i) => is_first_where(flags@, i as int, p),
                None => forall|j: int| 0 <= j < flags@.len() ==> !p(#[trigger] flags@[j]),
            }
        }),
{
    let graphics_flag = queue_flags_graphics();
    let transfer_flag = queue_flags_transfer();
    let mut i: usize = 0;
    while i < flags.len()
        invariant
            i <= flags@.len(),
            queue_flags_bits(graphics_flag) == 1,
            queue_flags_bits(transfer_flag) == 4,
            forall|j: int|
                0 <= j < i ==> !(if graphics {
                    supports_graphics(#[trigger] flags@[j])
                } else {
                    supports_transfer_only(flags@[j])
                }),
        decreases flags@.len() - i,
    {
        let f = flags[i];
        let found = if graphics {
            queue_flags_contains(f, graphics_flag)
        } else {
            queue_flags_contains(f, transfer_flag) && !queue_flags_contains(f, graphics_flag)
        };
        if found {
            return Some(i);
        }
        i += 1;
    }
    None
}

/// The index of the first `true` in `s`.
fn first_true(s: &[bool]) -> (r: Option<usize>)
    ensures
        match r {
            Some(i) => is_first_where(s@, i as int, |b: bool| b),
            None => forall|j: int| 0 <= j < s@.len() ==> !#[trigger] s@[j],
        },
{
    let mut i: usize = 0;
    while i < s.len()
        invariant
            i <= s@.len(),
            forall|j: int| 0 <= j < i ==> !#[trigger] s@[j],
        decreases s@.len() - i,
    {
        if s[i] {
            return Some(i);
        }
        i += 1;
    }
    None
}

/// The queue families to use on a physical device with the given queue family flags and
/// presentation support: the first family that supports graphics; the first that supports
/// presentation; and for transfers the first family that supports transfers without graphics
/// (to use the GPU's copy engine), or else the graphics family. `None` when no family supports
/// graphics or none supports presentation.
pub fn find_queue_family_indices(queue_flags: &[QueueFlags], present_support: &[bool]) -> (r:
    Option<QueueFamilyIndices>)
    requires
        queue_flags@.len() <= u32::MAX,
        present_support@.len() <= u32::MAX,
    ensures
        r is Some <==> (exists|i: int|
            0 <= i < queue_flags@.len() && supports_graphics(#[trigger] queue_flags@[i])) && (exists|
            i: int,
        |
            0 <= i < present_support@.len() && #[trigger] present_support@[i]),
        r matches Some(q) ==> {
            &&& is_first_where(queue_flags@, q.graphics as int, |f: QueueFlags| supports_graphics(f))
            &&& is_first_where(present_support@, q.present as int, |b: bool| b)
            &&& if exists|i: int|
                0 <= i < queue_flags@.len() && supports_transfer_only(#[trigger] queue_flags@[i]) {
                is_first_where(
                    queue_flags@,
                    q.transfer as int,
                    |f: QueueFlags| supports_transfer_only(f),
                )
            } else {
                q.transfer == q.graphics
            }
        },
{
    let graphics_index = position_of_family(queue_flags, true);
    let transfer_index = position_of_family(queue_flags, false);
    // Don't require a separate transfer queue.
    let transfer_index = match transfer_index {
        Some(t) => Some(t),
        None => graphics_index,
    };
    // Find any queue that supports presentation.
    let present_index = first_true(present_support);
    match (graphics_index, present_index, transfer_index) {
        (Some(g), Some(p), Some(t)) => Some(
            QueueFamilyIndices { graphics: g as u32, present: p as u32, transfer: t as u32 },
        ),
        _ => None,
    }
}

/// The physical device to use, given each device's queue families (`None` when it lacks a
/// needed one) and whether it is a discrete GPU: the first usable discrete GPU, or else the first
/// usable device.
pub fn choose_physical_device(
    queue_families: &[Option<QueueFamilyIndices>],
    is_discrete: &[bool],
) -> (r: Option<usize>)
    requires
        queue_families@.len() == is_discrete@.len(),
    ensures
        if exists|i: int|
            0 <= i < queue_families@.len() && (#[trigger] queue_families@[i]) is Some
                && is_discrete@[i] {
            r matches Some(d) && is_first_where(
                Seq::new(queue_families@.len(), |i: int| queue_families@[i] is Some && is_discrete@[i]),
                d as int,
                |b: bool| b,
            )
        } else if exists|i: int| 0 <= i < queue_families@.len() && (#[trigger] queue_families@[i]) is Some {
            r matches Some(d) && is_first_where(
                queue_families@,
                d as int,
                |q: Option<QueueFamilyIndices>| q is Some,
            )
        } else {
            r is None
        },
{
    let ghost usable_discrete = Seq::new(
        queue_families@.len(),
        |i: int| queue_families@[i] is Some && is_discrete@[i],
    );
    let mut i: usize = 0;
    while i < queue_families.len()
        invariant
            i <= queue_families@.len(),
            queue_families@.len() == is_discrete@.len(),
            usable_discrete == Seq::new(
                queue_families@.len(),
                |i: int| queue_families@[i] is Some && is_discrete@[i],
            ),
            forall|j: int| 0 <= j < i ==> !#[trigger] usable_discrete[j],
        decreases queue_families@.len() - i,
    {
        if queue_families[i].is_some() && is_discrete[i] {
            proof {
                assert(usable_discrete[i as int]);
                assert(0 <= i < queue_families@.len() && (queue_families@[i as int]) is Some
                    && is_discrete@[i as int]);
            }
            return Some(i);
        }
        i += 1;
    }
    proof {
        assert forall|j: int| 0 <= j < queue_families@.len() implies !((#[trigger] queue_families@[j]) is Some
            && is_discrete@[j]) by {
            assert(!usable_discrete[j]);
        }
    }
    let mut i: usize = 0;
    while i < queue_families.len()
        invariant
            i <= queue_families@.len(),
            queue_families@.len() == is_discrete@.len(),
            forall|j: int|
                0 <= j < queue_families@.len() ==> !((#[trigger] queue_families@[j]) is Some
                    && is_discrete@[j]),
            forall|j: int| 0 <= j < i ==> (#[trigger] queue_families@[j]) is None,
        decreases queue_families@.len() - i,
    {
        if queue_families[i].is_some() {
            proof {
                assert((queue_families@[i as int]) is Some);
            }
            return Some(i);
        }
        i += 1;
    }
    None
}

/// `bytes` already is a C string: its only NUL byte is its last byte.
pub open spec fn is_c_string(bytes: Seq<u8>) -> bool {
    &&& bytes.len() > 0
    &&& bytes.last() == 0
    &&& forall|i: int| 0 <= i < bytes.len() - 1 ==> #[trigger] bytes[i] != 0
}

/// `bytes` with each NUL byte replaced by `?`.
pub open spec fn without_nul(bytes: Seq<u8>) -> Seq<u8> {
    bytes.map_values(|c: u8| if c == 0 { 63u8 } else { c })
}

/// Whether `bytes` ends with its only NUL byte.
fn is_c_string_bytes(bytes: &[u8]) -> (r: bool)
    ensures
        r == is_c_string(bytes@),
{
    let n = bytes.len();
    if n == 0 || bytes[n - 1] != 0 {
        return false;
    }
    let mut i: usize = 0;
    while i < n - 1
        invariant
            n == bytes@.len(),
            n > 0,
            bytes@[n - 1] == 0,
            i <= n - 1,
            forall|j: int| 0 <= j < i ==> #[trigger] bytes@[j] != 0,
        decreases n - 1 - i,
    {
        if bytes[i] == 0 {
            return false;
        }
        i += 1;
    }
    true
}

/// Prepares `s` for a C function: returns `true` when `s` already ends with its only NUL byte and
/// can be passed as it is (string literals can carry their NUL and skip the copy). Otherwise it
/// appends to `buf` the bytes of `s`, with any NUL byte replaced by `?`, and a terminating NUL,
/// and returns `false`; the caller passes the buffer.
pub fn str_to_c_vec(s: &str, buf: &mut ByteBuffer) -> (r: bool)
    requires
        s.spec_bytes().len() + 1 <= isize::MAX,
    ensures
        r == is_c_string(s.spec_bytes()),
        r ==> byte_buffer_items(*final(buf)) == byte_buffer_items(*old(buf)),
        !r ==> byte_buffer_items(*final(buf)) == byte_buffer_items(*old(buf)) + without_nul(
            s.spec_bytes(),
        ).push(0u8),
{
    let bytes = s.as_bytes();
    let n = bytes.len();
    if is_c_string_bytes(bytes) {
        return true;
    }
    let ghost start = byte_buffer_items(*buf);
    byte_buffer_grow(buf, n + 1);
    let mut i: usize = 0;
    while i < n
        invariant
            n == bytes@.len(),
            i <= n,
            byte_buffer_items(*buf) == start + without_nul(bytes@).take(i as int),
        decreases n - i,
    {
        let c = bytes[i];
        byte_buffer_push(
            buf,
            if c == 0 {
                63u8
            } else {
                c
            },
        );
        i += 1;
        assert(without_nul(bytes@).take(i as int) =~= without_nul(bytes@).take(i - 1).push(
            if c == 0 { 63u8 } else { c },
        ));
    }
    byte_buffer_push(buf, 0);
    assert(without_nul(bytes@).take(n as int) =~= without_nul(bytes@));
    false
}

} // verus!
