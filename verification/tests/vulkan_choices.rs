use ash::vk::{ColorSpaceKHR, Extent2D, Format, MemoryPropertyFlags, QueueFlags, SurfaceFormatKHR};

use zaffre::retained::{best_surface_format, swapchain_image_count, swapchain_image_extent};
use zaffre::small_vecs::ByteBuffer;
use zaffre::vk_allocator::find_memory_type;
use zaffre::vk_descriptor_set_allocator::pool_with_room;
use zaffre::vk_util::{
    choose_physical_device, find_queue_family_indices, str_to_c_vec, QueueFamilyIndices,
};

#[test]
fn unique_indices_keep_first_occurrences() {
    assert_eq!(QueueFamilyIndices::new(0, 0, 0).get_unique_indices(), vec![0]);
    assert_eq!(QueueFamilyIndices::new(0, 1, 0).get_unique_indices(), vec![0, 1]);
    assert_eq!(QueueFamilyIndices::new(2, 2, 1).get_unique_indices(), vec![2, 1]);
    assert_eq!(QueueFamilyIndices::new(0, 1, 2).get_unique_indices(), vec![0, 1, 2]);
    assert_eq!(QueueFamilyIndices::new(3, 1, 1).get_unique_indices(), vec![3, 1]);
}

#[test]
fn queue_families_prefer_a_separate_transfer_family() {
    let flags = [
        QueueFlags::COMPUTE,
        QueueFlags::GRAPHICS | QueueFlags::COMPUTE | QueueFlags::TRANSFER,
        QueueFlags::TRANSFER | QueueFlags::SPARSE_BINDING,
    ];
    let q = find_queue_family_indices(&flags, &[false, true, true]).unwrap();
    assert_eq!((q.graphics, q.present, q.transfer), (1, 1, 2));
}

#[test]
fn queue_families_fall_back_to_graphics_for_transfers() {
    let flags = [QueueFlags::GRAPHICS | QueueFlags::TRANSFER, QueueFlags::COMPUTE];
    let q = find_queue_family_indices(&flags, &[false, true]).unwrap();
    assert_eq!((q.graphics, q.present, q.transfer), (0, 1, 0));
}

#[test]
fn queue_families_need_graphics_and_presentation() {
    let flags = [QueueFlags::COMPUTE | QueueFlags::TRANSFER];
    assert!(find_queue_family_indices(&flags, &[true]).is_none());
    let flags = [QueueFlags::GRAPHICS];
    assert!(find_queue_family_indices(&flags, &[false]).is_none());
    assert!(find_queue_family_indices(&[], &[]).is_none());
}

#[test]
fn physical_device_prefers_a_usable_discrete_gpu() {
    let q = Some(QueueFamilyIndices::new(0, 0, 0));
    assert_eq!(choose_physical_device(&[None, q, q], &[true, false, true]), Some(2));
    assert_eq!(choose_physical_device(&[None, q, q], &[true, false, false]), Some(1));
    assert_eq!(choose_physical_device(&[None, None], &[true, true]), None);
    assert_eq!(choose_physical_device(&[], &[]), None);
}

#[test]
fn str_to_c_vec_uses_nul_terminated_strings_as_they_are() {
    let mut buf = ByteBuffer::new();
    assert!(str_to_c_vec("main\0", &mut buf));
    assert!(buf.as_slice().is_empty());
}

#[test]
fn str_to_c_vec_copies_and_terminates_other_strings() {
    let mut buf = ByteBuffer::new();
    assert!(!str_to_c_vec("Zaffre", &mut buf));
    assert_eq!(buf.as_slice(), b"Zaffre\0");
    let mut buf = ByteBuffer::new();
    assert!(!str_to_c_vec("a\0b\0", &mut buf));
    assert_eq!(buf.as_slice(), b"a?b?\0");
    let mut buf = ByteBuffer::new();
    assert!(!str_to_c_vec("", &mut buf));
    assert_eq!(buf.as_slice(), b"\0");
}

#[test]
fn memory_type_filter_follows_mask_bits() {
    let types = [
        MemoryPropertyFlags::DEVICE_LOCAL,
        MemoryPropertyFlags::HOST_VISIBLE | MemoryPropertyFlags::HOST_COHERENT,
        MemoryPropertyFlags::DEVICE_LOCAL | MemoryPropertyFlags::HOST_VISIBLE,
    ];
    assert_eq!(find_memory_type(&types, 0b111, MemoryPropertyFlags::DEVICE_LOCAL), Some(0));
    assert_eq!(find_memory_type(&types, 0b111, MemoryPropertyFlags::HOST_VISIBLE), Some(1));
    assert_eq!(find_memory_type(&types, 0b10, MemoryPropertyFlags::HOST_VISIBLE), Some(1));
    assert_eq!(find_memory_type(&types, 0b110, MemoryPropertyFlags::DEVICE_LOCAL), Some(2));
    assert_eq!(find_memory_type(&types, 0b010, MemoryPropertyFlags::DEVICE_LOCAL), None);
    assert_eq!(find_memory_type(&types, 0, MemoryPropertyFlags::empty()), None);
    assert_eq!(find_memory_type(&[], 1, MemoryPropertyFlags::empty()), None);
}

fn surface_format(format: Format, color_space: ColorSpaceKHR) -> SurfaceFormatKHR {
    SurfaceFormatKHR { format, color_space }
}

#[test]
fn surface_format_prefers_srgb() {
    let formats = [
        surface_format(Format::B8G8R8A8_UNORM, ColorSpaceKHR::SRGB_NONLINEAR),
        surface_format(Format::B8G8R8A8_SRGB, ColorSpaceKHR::EXTENDED_SRGB_LINEAR_EXT),
        surface_format(Format::B8G8R8A8_SRGB, ColorSpaceKHR::SRGB_NONLINEAR),
        surface_format(Format::R8G8B8A8_SRGB, ColorSpaceKHR::SRGB_NONLINEAR),
    ];
    assert_eq!(best_surface_format(&formats), 2);
    assert_eq!(best_surface_format(&formats[3..]), 0);
    assert_eq!(best_surface_format(&formats[..2]), 0);
}

#[test]
fn swapchain_asks_for_one_more_image_than_the_minimum() {
    assert_eq!(swapchain_image_count(2, 0), 3);
    assert_eq!(swapchain_image_count(2, 8), 3);
    assert_eq!(swapchain_image_count(3, 3), 3);
}

#[test]
fn swapchain_extent_falls_back_when_the_surface_leaves_it_open() {
    let open = Extent2D { width: u32::MAX, height: u32::MAX };
    assert!(swapchain_image_extent(open).is_none());
    let fixed = Extent2D { width: 640, height: 480 };
    assert_eq!(swapchain_image_extent(fixed), Some(fixed));
    let half = Extent2D { width: u32::MAX, height: 480 };
    assert_eq!(swapchain_image_extent(half), Some(half));
}

#[test]
fn descriptor_sets_come_from_the_first_pool_with_room() {
    assert_eq!(pool_with_room(&[16, 3, 0], 16), Some(1));
    assert_eq!(pool_with_room(&[16, 16], 16), None);
    assert_eq!(pool_with_room(&[], 16), None);
}
