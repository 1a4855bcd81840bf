use bloksel::render::vulkan::{
    check_device_extensions, check_required_features, device_extensions, find_memory_type,
    is_device_extension_supported, plan_swapchain, score_device, select_physical_device, DeviceReport,
    Extent2D, MemoryHeapInfo, QueueFamilyInfo, SurfaceCapabilities, SurfaceFormat, VulkanError, VulkanSettings,
    DEVICE_TYPE_DISCRETE_GPU, DEVICE_TYPE_INTEGRATED_GPU, FEATURE_COUNT, PRESENT_MODE_FIFO, PRESENT_MODE_MAILBOX,
};

fn names(list: &[&str]) -> Vec<String> {
    list.iter().map(|s| s.to_string()).collect()
}

fn device(device_type: i32, extensions: &[&str], samplers: u32) -> DeviceReport {
    DeviceReport {
        extensions: names(extensions),
        queue_families: vec![QueueFamilyInfo { queue_count: 1, graphics: true, compute: true, transfer: true }],
        surface_support: Some(vec![true]),
        swapchain_supported: true,
        features: vec![0; FEATURE_COUNT],
        device_type,
        memory_heaps: vec![
            MemoryHeapInfo { size: 8 * 1024 * 1024 * 1024, device_local: true },
            MemoryHeapInfo { size: 4 * 1024 * 1024 * 1024, device_local: false },
        ],
        memory_type_heaps: vec![0, 1],
        max_image_dimension2_d: 16384,
        max_descriptor_set_samplers: samplers,
    }
}

#[test]
fn test_find_memory_type() {
    let types = vec![0b0001, 0b0110, 0b0111];
    assert_eq!(find_memory_type(&types, 0b110, 0b0110), Some(1));
    assert_eq!(find_memory_type(&types, 0b001, 0b0110), None);
    assert_eq!(find_memory_type(&types, 0b111, 0b0001), Some(0));
    assert_eq!(find_memory_type(&types, 0b111, 0b1000), None);
}

#[test]
fn test_check_required_features() {
    assert!(check_required_features(&vec![1, 0, 1], &vec![0, 0, 1]));
    assert!(!check_required_features(&vec![1, 0, 1], &vec![0, 1, 0]));
    assert!(check_required_features(&vec![0, 0, 0], &vec![0, 0, 0]));
}

#[test]
fn test_extension_support() {
    let available = names(&["VK_KHR_swapchain", "VK_EXT_debug"]);
    assert_eq!(is_device_extension_supported(&available, "VK_KHR_swapchain"), Ok(true));
    assert_eq!(is_device_extension_supported(&available, "VK_EXT_other"), Ok(false));
    assert_eq!(is_device_extension_supported(&available, "bad\0name"), Err(VulkanError::InvalidExtensionName));
}

#[test]
fn test_check_device_extensions() {
    let available = names(&["b", "a"]);
    assert_eq!(check_device_extensions(&available, &names(&["a", "b"])), Ok(true));
    assert_eq!(check_device_extensions(&available, &names(&["a", "x\0", "c"])), Err(VulkanError::InvalidExtensionName));
    assert_eq!(check_device_extensions(&available, &names(&["z", "x\0"])), Ok(false));
    assert_eq!(check_device_extensions(&available, &names(&[])), Ok(true));
}

#[test]
fn test_default_settings() {
    let s = VulkanSettings::default_for(true);
    assert_eq!(s.application_name, "Vulkan Application");
    assert_eq!(s.engine_name, "Vulkan Engine");
    assert!(s.enable_validation);
    assert_eq!(s.required_device_extensions, vec!["VK_KHR_swapchain".to_string()]);
    assert_eq!(s.required_features.len(), FEATURE_COUNT);
    assert_eq!(s.preferred_device_types, vec![2, 1, 3]);
    assert_eq!(s.concurrent_resources, 3);
    assert_eq!(s.max_frames_in_flight, 2);
    assert!(!VulkanSettings::default_for(false).enable_debug_markers);
}

#[test]
fn test_score_device() {
    let prefer = vec![2, 1, 3];
    // 1000 for the preferred type, 8192 MiB of device memory, 16384 / 1024, 1048576 / 16.
    assert_eq!(score_device(&device(DEVICE_TYPE_DISCRETE_GPU, &[], 1048576), &prefer), 1000 + 8192 + 16 + 65536);
    assert_eq!(score_device(&device(DEVICE_TYPE_INTEGRATED_GPU, &[], 1048576), &prefer), 900 + 8192 + 16 + 65536);
    // A sampler limit past 31 bits reads as -1, which over 16 is 0.
    assert_eq!(score_device(&device(7, &[], u32::MAX), &prefer), 8192 + 16);
}

#[test]
fn test_select_physical_device() {
    let settings = VulkanSettings::default_for(false);
    let devices = vec![
        device(DEVICE_TYPE_INTEGRATED_GPU, &["VK_KHR_swapchain"], 1024),
        device(DEVICE_TYPE_DISCRETE_GPU, &["VK_KHR_swapchain"], 1024),
        device(DEVICE_TYPE_DISCRETE_GPU, &[], 1 << 30),
    ];
    let (index, families) = select_physical_device(&devices, &settings).unwrap();
    assert_eq!(index, 1);
    assert_eq!(families.graphics, Some(0));
    assert_eq!(families.present, Some(0));
    // Equal scores: the earlier device wins.
    let twins = vec![
        device(DEVICE_TYPE_DISCRETE_GPU, &["VK_KHR_swapchain"], 1024),
        device(DEVICE_TYPE_DISCRETE_GPU, &["VK_KHR_swapchain"], 1024),
    ];
    assert_eq!(select_physical_device(&twins, &settings).unwrap().0, 0);
    // Without a surface there is no presentation family, so no device is suitable.
    let mut headless = device(DEVICE_TYPE_DISCRETE_GPU, &["VK_KHR_swapchain"], 1024);
    headless.surface_support = None;
    assert_eq!(select_physical_device(&vec![headless], &settings), Err(VulkanError::NoSuitableGpu));
    assert_eq!(select_physical_device(&vec![], &settings), Err(VulkanError::NoSuitableGpu));
}

fn caps(current: (u32, u32), min_count: u32, max_count: u32) -> SurfaceCapabilities {
    SurfaceCapabilities {
        min_image_count: min_count,
        max_image_count: max_count,
        current_extent: Extent2D { width: current.0, height: current.1 },
        min_image_extent: Extent2D { width: 1, height: 1 },
        max_image_extent: Extent2D { width: 4096, height: 4096 },
    }
}

#[test]
fn test_plan_swapchain() {
    let formats = vec![SurfaceFormat { format: 44, color_space: 0 }, SurfaceFormat { format: 50, color_space: 0 }];
    let plan = plan_swapchain(caps((800, 600), 2, 3), &formats, &vec![PRESENT_MODE_FIFO, PRESENT_MODE_MAILBOX], 1, 1, 0, 1).unwrap();
    assert_eq!(plan.format, SurfaceFormat { format: 50, color_space: 0 });
    assert_eq!(plan.present_mode, PRESENT_MODE_MAILBOX);
    assert_eq!(plan.extent, Extent2D { width: 800, height: 600 });
    assert_eq!(plan.image_count, 3);
    assert!(plan.concurrent_sharing);

    let other = vec![SurfaceFormat { format: 44, color_space: 0 }];
    let plan = plan_swapchain(caps((u32::MAX, u32::MAX), 3, 3), &other, &vec![0, PRESENT_MODE_FIFO], 5000, 10, 2, 2).unwrap();
    assert_eq!(plan.format, SurfaceFormat { format: 44, color_space: 0 });
    assert_eq!(plan.present_mode, PRESENT_MODE_FIFO);
    assert_eq!(plan.extent, Extent2D { width: 4096, height: 10 });
    assert_eq!(plan.image_count, 3);
    assert!(!plan.concurrent_sharing);
    assert_eq!(plan_swapchain(caps((9, 9), 2, 0), &other, &vec![PRESENT_MODE_FIFO], 1, 1, 0, 0).unwrap().image_count, 3);

    assert_eq!(plan_swapchain(caps((9, 9), 2, 0), &vec![], &vec![PRESENT_MODE_FIFO], 1, 1, 0, 0), Err(VulkanError::NoSuitableSurfaceFormat));
    assert_eq!(plan_swapchain(caps((9, 9), 2, 0), &other, &vec![0], 1, 1, 0, 0), Err(VulkanError::NoSuitablePresentMode));
}

#[test]
fn test_device_extensions() {
    let mut settings = VulkanSettings::default_for(false);
    settings.optional_device_extensions = names(&["A", "B"]);
    let available = names(&["B", "VK_KHR_swapchain"]);
    assert_eq!(device_extensions(&settings, &available), Ok(names(&["VK_KHR_swapchain", "B"])));
    settings.optional_device_extensions = names(&["A\0"]);
    assert_eq!(device_extensions(&settings, &available), Err(VulkanError::InvalidExtensionName));
}
