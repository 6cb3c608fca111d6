//! Groups of images that share descriptor sets.

use vstd::prelude::*;

verus! {

/// The number of images in a group.
pub const IMAGE_GROUP_SIZE: u32 = 4;

/// A group of images drawn with one descriptor set.
pub struct ImageGroup {}

impl ImageGroup {
    pub fn new() -> (r: Self) {
        Self {  }
    }

    /// Adds an image to the group. Groups hold no images yet, so nothing changes.
    pub fn add_image(&self) {
    }
}

} // verus!
