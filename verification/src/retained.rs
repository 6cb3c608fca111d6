//! The settings chosen for a window's swapchain.

use vstd::prelude::*;
use ash::vk::{Extent2D, SurfaceFormatKHR};
use crate::vk_util::{
    b8g8r8a8_srgb_raw, color_space_as_raw, color_space_srgb_nonlinear, color_space_value,
    format_as_raw, format_b8g8r8a8_srgb, format_r8g8b8a8_srgb, format_value, r8g8b8a8_srgb_raw,
    srgb_nonlinear_raw,
};

verus! {

/// An sRGB format with 8 bits per channel in the sRGB non-linear color space: B8G8R8A8_SRGB is
/// common on desktops and R8G8B8A8_SRGB on mobile.
pub open spec fn is_preferred_surface_format(format: SurfaceFormatKHR) -> bool {
    &&& (format_value(format.format) == format_r8g8b8a8_srgb() || format_value(format.format)
        == format_b8g8r8a8_srgb())
    &&& color_space_value(format.color_space) == color_space_srgb_nonlinear()
}

/// The index of the surface format to create the swapchain with: the first preferred one, or
/// else the first one.
pub fn best_surface_format(formats: &[SurfaceFormatKHR]) -> (r: usize)
    requires
        formats@.len() > 0,
    ensures
        r < formats@.len(),
        is_preferred_surface_format(formats@[r as int]) || (r == 0 && forall|j: int|
            0 <= j < formats@.len() ==> !is_preferred_surface_format(#[trigger] formats@[j])),
        forall|j: int| 0 <= j < r ==> !is_preferred_surface_format(#[trigger] formats@[j]),
{
    let rgba = r8g8b8a8_srgb_raw();
    let bgra = b8g8r8a8_srgb_raw();
    let nonlinear = srgb_nonlinear_raw();
    let mut i: usize = 0;
    while i < formats.len()
        invariant
            i <= formats@.len(),
            rgba == format_r8g8b8a8_srgb(),
            bgra == format_b8g8r8a8_srgb(),
            nonlinear == color_space_srgb_nonlinear(),
            forall|j: int| 0 <= j < i ==> !is_preferred_surface_format(#[trigger] formats@[j]),
        decreases formats@.len() - i,
    {
        let format = format_as_raw(formats[i].format);
        if (format == rgba || format == bgra) && color_space_as_raw(formats[i].color_space)
            == nonlinear {
            return i;
        }
        i += 1;
    }
    0
}

/// The number of swapchain images to ask for: one more than the minimum, limited to the maximum
/// unless the maximum is 0 (no limit).
pub fn swapchain_image_count(min_image_count: u32, max_image_count: u32) -> (r: u32)
    requires
        min_image_count < u32::MAX,
    ensures
        r == if max_image_count == 0 || min_image_count + 1 <= max_image_count {
            min_image_count + 1
        } else {
            max_image_count as int
        },
{
    if max_image_count == 0 {
        min_image_count + 1
    } else if min_image_count + 1 <= max_image_count {
        min_image_count + 1
    } else {
        max_image_count
    }
}

/// The extent to create the swapchain with: the surface's current extent, or `None` when the
/// surface leaves it to the swapchain (reporting `u32::MAX` by `u32::MAX`) and the window's
/// size has to be asked for instead.
pub fn swapchain_image_extent(current_extent: Extent2D) -> (r: Option<Extent2D>)
    ensures
        r == if current_extent.width == u32::MAX && current_extent.height == u32::MAX {
            None
        } else {
            Some(current_extent)
        },
{
    if current_extent.width == u32::MAX && current_extent.height == u32::MAX {
        None
    } else {
        Some(current_extent)
    }
}

} // verus!
