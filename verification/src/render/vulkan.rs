//! The choices made when the renderer sets up a graphics device: which
//! queue family serves graphics, presentation, transfers and compute work,
//! which memory type takes an allocation, whether a device has the features
//! and extensions asked for, which device is picked and how its swapchain
//! is shaped. The device's own reports come in as plain values.
use vstd::prelude::*;
use crate::assoc::str_eq;
use crate::text::chars_of;

verus! {

/// What a queue family of the device offers.
#[derive(Debug, Clone, Copy, PartialEq, Eq, Structural)]
pub struct QueueFamilyInfo {
    pub queue_count: u32,
    pub graphics: bool,
    pub compute: bool,
    pub transfer: bool,
}

/// The chosen queue families, by index.
#[derive(Debug, Clone, Copy, PartialEq, Eq, Structural)]
pub struct QueueFamilies {
    pub graphics: Option<u32>,
    pub present: Option<u32>,
    pub transfer: Option<u32>,
    pub compute: Option<u32>,
}

impl QueueFamilies {
    /// None chosen.
    pub fn new() -> (r: Self)
        ensures
            r == (QueueFamilies { graphics: None, present: None, transfer: None, compute: None }),
    {
        QueueFamilies { graphics: None, present: None, transfer: None, compute: None }
    }
}

/// The first index below `n` that `p` accepts, if any.
pub open spec fn first_index(p: spec_fn(int) -> bool, n: int) -> Option<u32>
    decreases n,
{
    if n <= 0 {
        None
    } else {
        match first_index(p, n - 1) {
            Some(i) => Some(i),
            None => if p(n - 1) {
                Some((n - 1) as u32)
            } else {
                None
            },
        }
    }
}

/// When no index below `k` is accepted and `k` is, `k` is the first index
/// accepted below any bound past it.
proof fn lemma_first_index_at(p: spec_fn(int) -> bool, k: int, n: int)
    requires
        0 <= k < n,
        first_index(p, k) is None,
        p(k),
    ensures
        first_index(p, n) == Some(k as u32),
    decreases n,
{
    if n > k + 1 {
        lemma_first_index_at(p, k, n - 1);
    }
}

/// The last index below `n` that `p` accepts, if any.
pub open spec fn last_index(p: spec_fn(int) -> bool, n: int) -> Option<u32>
    decreases n,
{
    if n <= 0 {
        None
    } else if p(n - 1) {
        Some((n - 1) as u32)
    } else {
        last_index(p, n - 1)
    }
}

/// The families of the device, for a surface whose support each family
/// reports in `support` (`None` without a surface): the first family with
/// queues and graphics for graphics, likewise for compute; the last family
/// with queues that does transfers but neither graphics nor compute for
/// transfers; the first family with queues that supports the surface for
/// presentation. A missing transfer or compute family falls back to the
/// graphics family, as does presentation when there is a surface.
pub open spec fn chosen_families(props: Seq<QueueFamilyInfo>, support: Option<Seq<bool>>) -> QueueFamilies {
    let n = props.len() as int;
    let graphics = first_index(|i: int| props[i].queue_count > 0 && props[i].graphics, n);
    let compute = first_index(|i: int| props[i].queue_count > 0 && props[i].compute, n);
    let transfer = last_index(
        |i: int| props[i].queue_count > 0 && props[i].transfer && !props[i].graphics && !props[i].compute,
        n,
    );
    let present = match support {
        Some(s) => first_index(|i: int| props[i].queue_count > 0 && s[i], n),
        None => None,
    };
    QueueFamilies {
        graphics,
        present: if support is Some && present is None {
            graphics
        } else {
            present
        },
        transfer: if transfer is None {
            graphics
        } else {
            transfer
        },
        compute: if compute is None {
            graphics
        } else {
            compute
        },
    }
}

/// Chooses the queue families (see `chosen_families`).
pub fn find_queue_families(props: &Vec<QueueFamilyInfo>, support: Option<&Vec<bool>>) -> (r: QueueFamilies)
    requires
        props@.len() <= u32::MAX,
        support matches Some(s) ==> s@.len() == props@.len(),
    ensures
        r == chosen_families(
            props@,
            match support {
                Some(s) => Some(s@),
                None => None,
            },
        ),
{
    let ghost n = props@.len() as int;
    let ghost sup = match support {
        Some(s) => Some(s@),
        None => None,
    };
    let ghost pg = |i: int| props@[i].queue_count > 0 && props@[i].graphics;
    let ghost pc = |i: int| props@[i].queue_count > 0 && props@[i].compute;
    let ghost pt = |i: int| props@[i].queue_count > 0 && props@[i].transfer && !props@[i].graphics && !props@[i].compute;
    let ghost pp = |i: int| props@[i].queue_count > 0 && sup.unwrap()[i];
    let mut families = QueueFamilies::new();
    let mut index: usize = 0;
    while index < props.len()
        invariant
            index <= props@.len(),
            props@.len() <= u32::MAX,
            n == props@.len(),
            sup == match support {
                Some(s) => Some(s@),
                None => None,
            },
            support matches Some(s) ==> s@.len() == props@.len(),
            pg == (|i: int| props@[i].queue_count > 0 && props@[i].graphics),
            pc == (|i: int| props@[i].queue_count > 0 && props@[i].compute),
            pt == (|i: int| props@[i].queue_count > 0 && props@[i].transfer && !props@[i].graphics && !props@[i].compute),
            pp == (|i: int| props@[i].queue_count > 0 && sup.unwrap()[i]),
            families.graphics == first_index(pg, index as int),
            families.compute == first_index(pc, index as int),
            families.transfer == last_index(pt, index as int),
            families.present == if support is Some {
                first_index(pp, index as int)
            } else {
                None
            },
        decreases props@.len() - index,
    {
        let p = props[index];
        let i = index as u32;
        if p.queue_count > 0 {
            if p.graphics {
                if families.graphics.is_none() {
                    families.graphics = Some(i);
                }
            }
            if p.compute {
                if families.compute.is_none() {
                    families.compute = Some(i);
                }
            }
            if p.transfer && !p.graphics && !p.compute {
                families.transfer = Some(i);
            }
            match support {
                Some(s) => {
                    if s[index] && families.present.is_none() {
                        families.present = Some(i);
                    }
                },
                None => {},
            }
        }
        index = index + 1;
    }
    if families.transfer.is_none() {
        families.transfer = families.graphics;
    }
    if families.compute.is_none() {
        families.compute = families.graphics;
    }
    if support.is_some() && families.present.is_none() {
        families.present = families.graphics;
    }
    families
}

/// Errors of the device setup.
#[derive(Debug, Clone, Copy, PartialEq, Eq, Structural)]
pub enum VulkanError {
    /// An extension name holds a NUL character, so it cannot be handed to the driver.
    InvalidExtensionName,
    /// The surface offers no format.
    NoSuitableSurfaceFormat,
    /// The surface offers neither mailbox nor FIFO presentation.
    NoSuitablePresentMode,
    /// No device meets the requirements.
    NoSuitableGpu,
}

/// Whether memory type `i` is allowed by `type_filter` (bit `i`) and has
/// every property flag in `properties`.
pub open spec fn memory_type_fits(flags: Seq<u32>, type_filter: u32, properties: u32, i: int) -> bool {
    &&& (type_filter & (1u32 << (i as u32))) != 0u32
    &&& (flags[i] & properties) == properties
}

/// The index of the first memory type that fits (see `memory_type_fits`).
/// `memory_types` holds the property flags of each memory type of the
/// device, in order.
pub fn find_memory_type(memory_types: &Vec<u32>, type_filter: u32, properties: u32) -> (r: Option<u32>)
    requires
        memory_types@.len() <= 32,
    ensures
        r == first_index(|i: int| memory_type_fits(memory_types@, type_filter, properties, i), memory_types@.len() as int),
{
    let ghost p = |i: int| memory_type_fits(memory_types@, type_filter, properties, i);
    let mut index: usize = 0;
    while index < memory_types.len()
        invariant
            index <= memory_types@.len() <= 32,
            p == (|i: int| memory_type_fits(memory_types@, type_filter, properties, i)),
            first_index(p, index as int) is None,
        decreases memory_types@.len() - index,
    {
        let bit: u32 = 1u32 << (index as u32);
        if (type_filter & bit) != 0 && (memory_types[index] & properties) == properties {
            proof {
                lemma_first_index_at(p, index as int, memory_types@.len() as int);
            }
            return Some(index as u32);
        }
        index = index + 1;
    }
    None
}

/// Whether every feature that `required` asks for (a non-zero flag) is
/// offered by `available` (a non-zero flag at the same position).
pub open spec fn features_met(available: Seq<u32>, required: Seq<u32>) -> bool {
    forall|i: int| 0 <= i < required.len() ==> (required[i] == 0 || available[i] != 0)
}

/// Checks the required device features against those the device offers;
/// both are given as the feature flags in the driver's order.
pub fn check_required_features(available: &Vec<u32>, required: &Vec<u32>) -> (r: bool)
    requires
        available@.len() == required@.len(),
    ensures
        r == features_met(available@, required@),
{
    let mut i: usize = 0;
    while i < required.len()
        invariant
            available@.len() == required@.len(),
            i <= required@.len(),
            forall|j: int| 0 <= j < i ==> (required@[j] == 0 || available@[j] != 0),
        decreases required@.len() - i,
    {
        if required[i] != 0 && available[i] == 0 {
            return false;
        }
        i = i + 1;
    }
    true
}

/// Whether `name` holds a NUL character.
pub open spec fn has_nul(name: Seq<char>) -> bool {
    name.contains('\0')
}

/// Whether the device offers an extension of this name.
pub open spec fn offers(available: Seq<String>, name: Seq<char>) -> bool {
    exists|i: int| 0 <= i < available.len() && (#[trigger] available[i])@ == name
}

fn contains_nul(name: &str) -> (r: bool)
    ensures
        r == has_nul(name@),
{
    let cs = chars_of(name);
    let mut i: usize = 0;
    while i < cs.len()
        invariant
            cs@ == name@,
            i <= cs@.len(),
            forall|j: int| 0 <= j < i ==> cs@[j] != '\0',
        decreases cs@.len() - i,
    {
        if cs[i] == '\0' {
            assert(name@[i as int] == '\0');
            return true;
        }
        i = i + 1;
    }
    false
}

fn offered(available: &Vec<String>, name: &str) -> (r: bool)
    ensures
        r == offers(available@, name@),
{
    let mut i: usize = 0;
    while i < available.len()
        invariant
            i <= available@.len(),
            forall|j: int| 0 <= j < i ==> (#[trigger] available@[j])@ != name@,
        decreases available@.len() - i,
    {
        if str_eq(available[i].as_str(), name) {
            return true;
        }
        i = i + 1;
    }
    false
}

/// Whether the device, which offers the extensions `available`, supports
/// `extension`; an error when the name holds a NUL character.
pub fn is_device_extension_supported(available: &Vec<String>, extension: &str) -> (r: Result<bool, VulkanError>)
    ensures
        has_nul(extension@) ==> r == Err::<bool, VulkanError>(VulkanError::InvalidExtensionName),
        !has_nul(extension@) ==> r == Ok::<bool, VulkanError>(offers(available@, extension@)),
{
    if contains_nul(extension) {
        return Err(VulkanError::InvalidExtensionName);
    }
    Ok(offered(available, extension))
}

/// The outcome of checking the required extensions in order: the first one
/// that holds a NUL character is an error, the first one missing gives
/// `false`, and `true` when all are offered.
pub open spec fn extensions_check(available: Seq<String>, required: Seq<String>) -> Result<bool, VulkanError>
    decreases required.len(),
{
    if required.len() == 0 {
        Ok(true)
    } else if has_nul(required[0]@) {
        Err(VulkanError::InvalidExtensionName)
    } else if !offers(available, required[0]@) {
        Ok(false)
    } else {
        extensions_check(available, required.drop_first())
    }
}

/// Checks that the device, which offers the extensions `available`, has
/// every extension of `required` (see `extensions_check`).
pub fn check_device_extensions(available: &Vec<String>, required: &Vec<String>) -> (r: Result<bool, VulkanError>)
    ensures
        r == extensions_check(available@, required@),
{
    let mut i: usize = 0;
    assert(required@.skip(0) =~= required@);
    while i < required.len()
        invariant
            i <= required@.len(),
            extensions_check(available@, required@) == extensions_check(available@, required@.skip(i as int)),
        decreases required@.len() - i,
    {
        assert(required@.skip(i as int).drop_first() =~= required@.skip(i as int + 1));
        assert(required@.skip(i as int)[0] == required@[i as int]);
        if contains_nul(required[i].as_str()) {
            return Err(VulkanError::InvalidExtensionName);
        }
        if !offered(available, required[i].as_str()) {
            return Ok(false);
        }
        i = i + 1;
    }
    assert(required@.skip(i as int).len() == 0);
    Ok(true)
}

/// The device type codes of the driver that the default settings prefer.
pub const DEVICE_TYPE_INTEGRATED_GPU: i32 = 1;
pub const DEVICE_TYPE_DISCRETE_GPU: i32 = 2;
pub const DEVICE_TYPE_VIRTUAL_GPU: i32 = 3;

/// The number of feature flags that a device reports.
pub const FEATURE_COUNT: usize = 55;

/// The settings of the device setup. Features are the driver's feature
/// flags in order; device types are the driver's type codes.
#[derive(Debug, Clone)]
pub struct VulkanSettings {
    pub application_name: String,
    pub engine_name: String,
    pub enable_validation: bool,
    pub required_device_extensions: Vec<String>,
    pub optional_device_extensions: Vec<String>,
    pub required_features: Vec<u32>,
    pub preferred_device_types: Vec<i32>,
    pub dedicated_allocations: bool,
    pub buffer_device_address: bool,
    pub ray_tracing: bool,
    pub mesh_shading: bool,
    pub concurrent_resources: usize,
    pub max_frames_in_flight: usize,
    pub enable_debug_markers: bool,
    pub gpu_memory_budget_mb: Option<u32>,
}

impl VulkanSettings {
    /// The default settings of a build with (`debug_assertions`) or without
    /// debug assertions: validation and debug markers follow the build, the
    /// swapchain extension is required, no feature is, and discrete, then
    /// integrated, then virtual devices are preferred.
    pub fn default_for(debug_assertions: bool) -> (r: Self)
        ensures
            r.application_name@ == "Vulkan Application"@,
            r.engine_name@ == "Vulkan Engine"@,
            r.enable_validation == debug_assertions,
            r.required_device_extensions@.len() == 1,
            r.required_device_extensions@[0]@ == "VK_KHR_swapchain"@,
            r.optional_device_extensions@.len() == 0,
            r.required_features@ == Seq::new(FEATURE_COUNT as nat, |i: int| 0u32),
            r.preferred_device_types@ == seq![DEVICE_TYPE_DISCRETE_GPU, DEVICE_TYPE_INTEGRATED_GPU, DEVICE_TYPE_VIRTUAL_GPU],
            !r.dedicated_allocations,
            !r.buffer_device_address,
            !r.ray_tracing,
            !r.mesh_shading,
            r.concurrent_resources == 3,
            r.max_frames_in_flight == 2,
            r.enable_debug_markers == debug_assertions,
            r.gpu_memory_budget_mb is None,
    {
        let mut required_device_extensions: Vec<String> = Vec::new();
        required_device_extensions.push(String::from_str("VK_KHR_swapchain"));
        let mut required_features: Vec<u32> = Vec::new();
        let mut i: usize = 0;
        while i < FEATURE_COUNT
            invariant
                i <= FEATURE_COUNT,
                required_features@ == Seq::new(i as nat, |k: int| 0u32),
            decreases FEATURE_COUNT - i,
        {
            required_features.push(0);
            i = i + 1;
        }
        let mut preferred_device_types: Vec<i32> = Vec::new();
        preferred_device_types.push(DEVICE_TYPE_DISCRETE_GPU);
        preferred_device_types.push(DEVICE_TYPE_INTEGRATED_GPU);
        preferred_device_types.push(DEVICE_TYPE_VIRTUAL_GPU);
        VulkanSettings {
            application_name: String::from_str("Vulkan Application"),
            engine_name: String::from_str("Vulkan Engine"),
            enable_validation: debug_assertions,
            required_device_extensions,
            optional_device_extensions: Vec::new(),
            required_features,
            preferred_device_types,
            dedicated_allocations: false,
            buffer_device_address: false,
            ray_tracing: false,
            mesh_shading: false,
            concurrent_resources: 3,
            max_frames_in_flight: 2,
            enable_debug_markers: debug_assertions,
            gpu_memory_budget_mb: None,
        }
    }
}

/// A memory heap of a device: its size in bytes and whether it is local to
/// the device.
#[derive(Debug, Clone, Copy, PartialEq, Eq, Structural)]
pub struct MemoryHeapInfo {
    pub size: u64,
    pub device_local: bool,
}

/// What a device reports about itself, as plain values: its extensions,
/// queue families, support of the surface by each family (`None` without a
/// surface), whether it supports a swapchain, its feature flags, its type
/// code, its memory heaps, the heap of each memory type, and two limits.
#[derive(Debug, Clone)]
pub struct DeviceReport {
    pub extensions: Vec<String>,
    pub queue_families: Vec<QueueFamilyInfo>,
    pub surface_support: Option<Vec<bool>>,
    pub swapchain_supported: bool,
    pub features: Vec<u32>,
    pub device_type: i32,
    pub memory_heaps: Vec<MemoryHeapInfo>,
    pub memory_type_heaps: Vec<u32>,
    pub max_image_dimension2_d: u32,
    pub max_descriptor_set_samplers: u32,
}

/// The surface support of a device, as a sequence.
pub open spec fn support_view(d: DeviceReport) -> Option<Seq<bool>> {
    match d.surface_support {
        Some(s) => Some(s@),
        None => None,
    }
}

/// The queue families chosen for a device.
pub open spec fn device_families(d: DeviceReport) -> QueueFamilies {
    chosen_families(d.queue_families@, support_view(d))
}

/// Whether the report is well formed: the surface support covers each
/// family and the feature flags match the required ones in number.
pub open spec fn report_ok(d: DeviceReport, settings: VulkanSettings) -> bool {
    &&& d.queue_families@.len() <= u32::MAX
    &&& (d.surface_support matches Some(s) ==> s@.len() == d.queue_families@.len())
    &&& d.features@.len() == settings.required_features@.len()
    &&& d.memory_heaps@.len() <= u32::MAX
}

/// Whether a device can be used: it has the required extensions (a name
/// that cannot be handed to the driver rules it out), graphics and
/// presentation queue families, swapchain support and the required
/// features.
pub open spec fn device_suitable(d: DeviceReport, settings: VulkanSettings) -> bool {
    &&& extensions_check(d.extensions@, settings.required_device_extensions@) == Ok::<bool, VulkanError>(true)
    &&& device_families(d).graphics is Some
    &&& device_families(d).present is Some
    &&& d.swapchain_supported
    &&& features_met(d.features@, settings.required_features@)
}

/// Whether heap `i` counts as device memory: it is local to the device and
/// some memory type lives in it.
pub open spec fn heap_counted(heaps: Seq<MemoryHeapInfo>, type_heaps: Seq<u32>, i: int) -> bool {
    heaps[i].device_local && exists|j: int| 0 <= j < type_heaps.len() && type_heaps[j] == i
}

/// The bytes of the first `n` heaps that count as device memory.
pub open spec fn local_memory(heaps: Seq<MemoryHeapInfo>, type_heaps: Seq<u32>, n: int) -> int
    decreases n,
{
    if n <= 0 {
        0
    } else {
        local_memory(heaps, type_heaps, n - 1) + if heap_counted(heaps, type_heaps, n - 1) {
            heaps[n - 1].size as int
        } else {
            0
        }
    }
}

proof fn lemma_local_memory_mono(heaps: Seq<MemoryHeapInfo>, type_heaps: Seq<u32>, a: int, b: int)
    requires
        0 <= a <= b,
    ensures
        local_memory(heaps, type_heaps, a) <= local_memory(heaps, type_heaps, b),
    decreases b,
{
    if b > a {
        lemma_local_memory_mono(heaps, type_heaps, a, b - 1);
    }
}

/// A value taken to a 32-bit signed integer by dropping the high bits.
pub open spec fn wrap_i32(x: int) -> int {
    let r = x % 0x1_0000_0000;
    if r >= 0x8000_0000 {
        r - 0x1_0000_0000
    } else {
        r
    }
}

/// Division that rounds toward zero.
pub open spec fn div_toward_zero(x: int, d: int) -> int {
    if x >= 0 {
        x / d
    } else {
        -((-x) / d)
    }
}

/// The bonus of a device type: 1000 for the first preferred type, 100 less
/// for each later place, nothing for a type not preferred.
pub open spec fn type_bonus(preferred: Seq<i32>, t: i32) -> int {
    match first_position(preferred, t, preferred.len() as int) {
        Some(p) => 1000 - 100 * p,
        None => 0,
    }
}

/// The first position below `n` at which `s` holds `t`, if any.
pub open spec fn first_position(s: Seq<i32>, t: i32, n: int) -> Option<int>
    decreases n,
{
    if n <= 0 {
        None
    } else {
        match first_position(s, t, n - 1) {
            Some(p) => Some(p),
            None => if s[n - 1] == t {
                Some(n - 1)
            } else {
                None
            },
        }
    }
}

proof fn lemma_first_position_at(s: Seq<i32>, t: i32, k: int, n: int)
    requires
        0 <= k < n,
        first_position(s, t, k) is None,
        s[k] == t,
    ensures
        first_position(s, t, n) == Some(k),
    decreases n,
{
    if n > k + 1 {
        lemma_first_position_at(s, t, k, n - 1);
    }
}

/// The running score of a device after each of its four terms: the type
/// bonus, the device memory in MiB (taken to 32 bits), the largest 2D image
/// size over 1024, and the descriptor-set sampler limit (taken to 32 bits)
/// over 16.
pub open spec fn score_steps(d: DeviceReport, preferred: Seq<i32>) -> (int, int, int, int) {
    let s1 = type_bonus(preferred, d.device_type);
    let mem = local_memory(d.memory_heaps@, d.memory_type_heaps@, d.memory_heaps@.len() as int);
    let s2 = s1 + wrap_i32(mem / 1024 / 1024);
    let s3 = s2 + d.max_image_dimension2_d / 1024;
    let s4 = s3 + div_toward_zero(wrap_i32(d.max_descriptor_set_samplers as int), 16);
    (s1, s2, s3, s4)
}

/// The score of a device.
pub open spec fn device_score(d: DeviceReport, preferred: Seq<i32>) -> int {
    score_steps(d, preferred).3
}

/// Whether the score of a device can be summed: its device memory fits in
/// 64 bits and each running score in 32 bits.
pub open spec fn score_fits(d: DeviceReport, preferred: Seq<i32>) -> bool {
    let st = score_steps(d, preferred);
    &&& local_memory(d.memory_heaps@, d.memory_type_heaps@, d.memory_heaps@.len() as int) <= u64::MAX
    &&& i32::MIN <= st.1 <= i32::MAX
    &&& i32::MIN <= st.2 <= i32::MAX
    &&& i32::MIN <= st.3 <= i32::MAX
}

fn heap_has_type(type_heaps: &Vec<u32>, i: u32) -> (r: bool)
    ensures
        r == exists|j: int| 0 <= j < type_heaps@.len() && type_heaps@[j] == i,
{
    let mut j: usize = 0;
    while j < type_heaps.len()
        invariant
            j <= type_heaps@.len(),
            forall|k: int| 0 <= k < j ==> type_heaps@[k] != i,
        decreases type_heaps@.len() - j,
    {
        if type_heaps[j] == i {
            return true;
        }
        j = j + 1;
    }
    false
}

fn local_memory_of(d: &DeviceReport) -> (r: u64)
    requires
        d.memory_heaps@.len() <= u32::MAX,
        local_memory(d.memory_heaps@, d.memory_type_heaps@, d.memory_heaps@.len() as int) <= u64::MAX,
    ensures
        r == local_memory(d.memory_heaps@, d.memory_type_heaps@, d.memory_heaps@.len() as int),
{
    let ghost heaps = d.memory_heaps@;
    let ghost th = d.memory_type_heaps@;
    let mut sum: u64 = 0;
    let mut i: usize = 0;
    while i < d.memory_heaps.len()
        invariant
            heaps == d.memory_heaps@,
            th == d.memory_type_heaps@,
            heaps.len() <= u32::MAX,
            i <= heaps.len(),
            local_memory(heaps, th, heaps.len() as int) <= u64::MAX,
            sum == local_memory(heaps, th, i as int),
        decreases heaps.len() - i,
    {
        proof {
            lemma_local_memory_mono(heaps, th, i as int + 1, heaps.len() as int);
        }
        let heap = d.memory_heaps[i];
        if heap.device_local && heap_has_type(&d.memory_type_heaps, i as u32) {
            sum = sum + heap.size;
        }
        i = i + 1;
    }
    sum
}

fn position_of(preferred: &Vec<i32>, t: i32) -> (r: Option<usize>)
    ensures
        r matches Some(p) ==> first_position(preferred@, t, preferred@.len() as int) == Some(p as int),
        r is None ==> first_position(preferred@, t, preferred@.len() as int) is None,
        r matches Some(p) ==> p < preferred@.len(),
{
    let mut i: usize = 0;
    while i < preferred.len()
        invariant
            i <= preferred@.len(),
            first_position(preferred@, t, i as int) is None,
        decreases preferred@.len() - i,
    {
        if preferred[i] == t {
            proof {
                lemma_first_position_at(preferred@, t, i as int, preferred@.len() as int);
            }
            return Some(i);
        }
        i = i + 1;
    }
    None
}

/// The score of a device (see `score_steps`).
pub fn score_device(d: &DeviceReport, preferred: &Vec<i32>) -> (r: i32)
    requires
        d.memory_heaps@.len() <= u32::MAX,
        preferred@.len() * 100 <= i32::MAX,
        score_fits(*d, preferred@),
    ensures
        r == device_score(*d, preferred@),
{
    let ghost st = score_steps(*d, preferred@);
    let mut score: i64 = 0;
    match position_of(preferred, d.device_type) {
        Some(pos) => {
            score = 1000 - (pos as i64) * 100;
        },
        None => {},
    }
    assert(score == st.0);
    let mem = local_memory_of(d) / 1024 / 1024;
    let low = mem % 0x1_0000_0000;
    let mem_term: i64 = if low >= 0x8000_0000 {
        low as i64 - 0x1_0000_0000
    } else {
        low as i64
    };
    assert(mem_term == wrap_i32(mem as int));
    score = score + mem_term;
    assert(score == st.1);
    score = score + (d.max_image_dimension2_d / 1024) as i64;
    assert(score == st.2);
    let samplers: i64 = d.max_descriptor_set_samplers as i64;
    proof {
        vstd::arithmetic::div_mod::lemma_small_mod(samplers as nat, 0x1_0000_0000nat);
    }
    let wrapped: i64 = if samplers >= 0x8000_0000 {
        samplers - 0x1_0000_0000
    } else {
        samplers
    };
    assert(wrapped == wrap_i32(d.max_descriptor_set_samplers as int));
    let sampler_term: i64 = if wrapped >= 0 {
        ((wrapped as u64) / 16) as i64
    } else {
        -((((-wrapped) as u64) / 16) as i64)
    };
    assert(sampler_term == div_toward_zero(wrapped as int, 16));
    score = score + sampler_term;
    assert(score == st.3);
    score as i32
}

/// Picks the device to use among `devices`: the suitable one with the
/// highest score, the earliest of those with that score; its index and
/// queue families. No suitable device is an error.
pub fn select_physical_device(devices: &Vec<DeviceReport>, settings: &VulkanSettings) -> (r: Result<(usize, QueueFamilies), VulkanError>)
    requires
        settings.preferred_device_types@.len() * 100 <= i32::MAX,
        forall|i: int| 0 <= i < devices@.len() ==> report_ok(#[trigger] devices@[i], *settings),
        forall|i: int| 0 <= i < devices@.len() && device_suitable(#[trigger] devices@[i], *settings)
            ==> score_fits(devices@[i], settings.preferred_device_types@),
    ensures
        r matches Ok((i, f)) ==> {
            &&& i < devices@.len()
            &&& device_suitable(devices@[i as int], *settings)
            &&& f == device_families(devices@[i as int])
            &&& forall|j: int| 0 <= j < devices@.len() && device_suitable(#[trigger] devices@[j], *settings)
                ==> device_score(devices@[j], settings.preferred_device_types@)
                    <= device_score(devices@[i as int], settings.preferred_device_types@)
            &&& forall|j: int| 0 <= j < i && device_suitable(#[trigger] devices@[j], *settings)
                ==> device_score(devices@[j], settings.preferred_device_types@)
                    < device_score(devices@[i as int], settings.preferred_device_types@)
        },
        r is Err ==> r == Err::<(usize, QueueFamilies), VulkanError>(VulkanError::NoSuitableGpu),
        r is Err <==> forall|j: int| 0 <= j < devices@.len() ==> !device_suitable(#[trigger] devices@[j], *settings),
{
    let ghost pref = settings.preferred_device_types@;
    let mut best: Option<(usize, QueueFamilies, i32)> = None;
    let mut i: usize = 0;
    while i < devices.len()
        invariant
            i <= devices@.len(),
            pref == settings.preferred_device_types@,
            pref.len() * 100 <= i32::MAX,
            forall|k: int| 0 <= k < devices@.len() ==> report_ok(#[trigger] devices@[k], *settings),
            forall|k: int| 0 <= k < devices@.len() && device_suitable(#[trigger] devices@[k], *settings)
                ==> score_fits(devices@[k], pref),
            best is None ==> forall|k: int| 0 <= k < i ==> !device_suitable(#[trigger] devices@[k], *settings),
            best matches Some((b, f, s)) ==> {
                &&& b < i
                &&& device_suitable(devices@[b as int], *settings)
                &&& f == device_families(devices@[b as int])
                &&& s == device_score(devices@[b as int], pref)
                &&& forall|k: int| 0 <= k < i && device_suitable(#[trigger] devices@[k], *settings)
                    ==> device_score(devices@[k], pref) <= s
                &&& forall|k: int| 0 <= k < b && device_suitable(#[trigger] devices@[k], *settings)
                    ==> device_score(devices@[k], pref) < s
            },
        decreases devices@.len() - i,
    {
        let d = &devices[i];
        assert(report_ok(devices@[i as int], *settings));
        let ext = check_device_extensions(&d.extensions, &settings.required_device_extensions);
        let ext_ok = match ext {
            Ok(b) => b,
            Err(_) => false,
        };
        if ext_ok {
            let support: Option<&Vec<bool>> = match &d.surface_support {
                Some(s) => Some(s),
                None => None,
            };
            let families = find_queue_families(&d.queue_families, support);
            assert(families == device_families(devices@[i as int]));
            if families.graphics.is_some() && families.present.is_some() && d.swapchain_supported
                && check_required_features(&d.features, &settings.required_features) {
                assert(device_suitable(devices@[i as int], *settings));
                let score = score_device(d, &settings.preferred_device_types);
                let better = match best {
                    None => true,
                    Some((_, _, s)) => score > s,
                };
                if better {
                    best = Some((i, families, score));
                }
            }
        }
        i = i + 1;
    }
    match best {
        Some((b, f, _)) => Ok((b, f)),
        None => Err(VulkanError::NoSuitableGpu),
    }
}

/// The driver's code of the 8-bit BGRA sRGB surface format.
pub const FORMAT_B8G8R8A8_SRGB: i32 = 50;
/// The driver's code of the non-linear sRGB colour space.
pub const COLOR_SPACE_SRGB_NONLINEAR: i32 = 0;
/// The driver's code of mailbox presentation.
pub const PRESENT_MODE_MAILBOX: i32 = 1;
/// The driver's code of FIFO presentation.
pub const PRESENT_MODE_FIFO: i32 = 2;

/// A format that a surface offers: the pixel format and colour space codes.
#[derive(Debug, Clone, Copy, PartialEq, Eq, Structural)]
pub struct SurfaceFormat {
    pub format: i32,
    pub color_space: i32,
}

/// A size in pixels.
#[derive(Debug, Clone, Copy, PartialEq, Eq, Structural)]
pub struct Extent2D {
    pub width: u32,
    pub height: u32,
}

/// What a surface allows a swapchain: image counts (a maximum of 0 is no
/// maximum) and sizes (a current width of `u32::MAX` leaves the size to
/// the swapchain).
#[derive(Debug, Clone, Copy, PartialEq, Eq, Structural)]
pub struct SurfaceCapabilities {
    pub min_image_count: u32,
    pub max_image_count: u32,
    pub current_extent: Extent2D,
    pub min_image_extent: Extent2D,
    pub max_image_extent: Extent2D,
}

/// The shape of a swapchain: its format, presentation mode, size, number of
/// images, and whether its images are shared between two queue families.
#[derive(Debug, Clone, Copy, PartialEq, Eq, Structural)]
pub struct SwapchainPlan {
    pub format: SurfaceFormat,
    pub present_mode: i32,
    pub extent: Extent2D,
    pub image_count: u32,
    pub concurrent_sharing: bool,
}

/// Whether a format is the preferred one: 8-bit BGRA sRGB in the
/// non-linear sRGB colour space.
pub open spec fn preferred_format(f: SurfaceFormat) -> bool {
    f.format == FORMAT_B8G8R8A8_SRGB && f.color_space == COLOR_SPACE_SRGB_NONLINEAR
}

/// The format taken from those a surface offers: the preferred one when
/// offered, else the first.
pub open spec fn chosen_format(formats: Seq<SurfaceFormat>) -> SurfaceFormat {
    if exists|i: int| 0 <= i < formats.len() && preferred_format(#[trigger] formats[i]) {
        SurfaceFormat { format: FORMAT_B8G8R8A8_SRGB, color_space: COLOR_SPACE_SRGB_NONLINEAR }
    } else {
        formats[0]
    }
}

/// `value` kept within `lo ..= hi`.
pub open spec fn clamp_u32(value: u32, lo: u32, hi: u32) -> u32 {
    if value < lo {
        lo
    } else if value > hi {
        hi
    } else {
        value
    }
}

/// The size of the swapchain: the surface's current size, or, when the
/// surface leaves it open, the window size kept within the surface's limits.
pub open spec fn chosen_extent(caps: SurfaceCapabilities, width: u32, height: u32) -> Extent2D {
    if caps.current_extent.width != u32::MAX {
        caps.current_extent
    } else {
        Extent2D {
            width: clamp_u32(width, caps.min_image_extent.width, caps.max_image_extent.width),
            height: clamp_u32(height, caps.min_image_extent.height, caps.max_image_extent.height),
        }
    }
}

/// The number of swapchain images: one more than the minimum, but not past
/// the maximum when there is one.
pub open spec fn chosen_image_count(caps: SurfaceCapabilities) -> u32 {
    if caps.max_image_count > 0 && caps.min_image_count + 1 > caps.max_image_count {
        caps.max_image_count
    } else {
        (caps.min_image_count + 1) as u32
    }
}

fn clamp(value: u32, lo: u32, hi: u32) -> (r: u32)
    requires
        lo <= hi,
    ensures
        r == clamp_u32(value, lo, hi),
{
    if value < lo {
        lo
    } else if value > hi {
        hi
    } else {
        value
    }
}

/// Shapes the swapchain for a surface with capabilities `caps` that offers
/// `formats` and `present_modes`, for a window of `width` by `height`, with
/// the given graphics and presentation queue families. Mailbox presentation
/// is preferred, then FIFO. No format, or neither presentation mode, is an
/// error, checked in that order.
pub fn plan_swapchain(
    caps: SurfaceCapabilities,
    formats: &Vec<SurfaceFormat>,
    present_modes: &Vec<i32>,
    width: u32,
    height: u32,
    graphics_family: u32,
    present_family: u32,
) -> (r: Result<SwapchainPlan, VulkanError>)
    requires
        caps.current_extent.width == u32::MAX ==> caps.min_image_extent.width <= caps.max_image_extent.width,
        caps.current_extent.width == u32::MAX ==> caps.min_image_extent.height <= caps.max_image_extent.height,
        caps.min_image_count < u32::MAX,
    ensures
        formats@.len() == 0 ==> r == Err::<SwapchainPlan, VulkanError>(VulkanError::NoSuitableSurfaceFormat),
        formats@.len() > 0 && !present_modes@.contains(PRESENT_MODE_MAILBOX) && !present_modes@.contains(PRESENT_MODE_FIFO)
            ==> r == Err::<SwapchainPlan, VulkanError>(VulkanError::NoSuitablePresentMode),
        formats@.len() > 0 && (present_modes@.contains(PRESENT_MODE_MAILBOX) || present_modes@.contains(PRESENT_MODE_FIFO))
            ==> r == Ok::<SwapchainPlan, VulkanError>(SwapchainPlan {
                format: chosen_format(formats@),
                present_mode: if present_modes@.contains(PRESENT_MODE_MAILBOX) {
                    PRESENT_MODE_MAILBOX
                } else {
                    PRESENT_MODE_FIFO
                },
                extent: chosen_extent(caps, width, height),
                image_count: chosen_image_count(caps),
                concurrent_sharing: graphics_family != present_family,
            }),
{
    if formats.len() == 0 {
        return Err(VulkanError::NoSuitableSurfaceFormat);
    }
    let mut format = formats[0];
    let mut found = false;
    let ghost mut at: int = 0;
    let mut i: usize = 0;
    while i < formats.len() && !found
        invariant
            0 < formats@.len(),
            i <= formats@.len(),
            found ==> 0 <= at < formats@.len() && preferred_format(formats@[at]) && format == formats@[at],
            !found ==> format == formats@[0],
            !found ==> forall|j: int| 0 <= j < i ==> !preferred_format(#[trigger] formats@[j]),
        decreases formats@.len() - i,
    {
        let f = formats[i];
        if f.format == FORMAT_B8G8R8A8_SRGB && f.color_space == COLOR_SPACE_SRGB_NONLINEAR {
            format = f;
            found = true;
            proof {
                at = i as int;
            }
        }
        i = i + 1;
    }
    assert(format == chosen_format(formats@));
    let mut has_mailbox = false;
    let mut has_fifo = false;
    let mut k: usize = 0;
    while k < present_modes.len()
        invariant
            k <= present_modes@.len(),
            has_mailbox == exists|j: int| 0 <= j < k && present_modes@[j] == PRESENT_MODE_MAILBOX,
            has_fifo == exists|j: int| 0 <= j < k && present_modes@[j] == PRESENT_MODE_FIFO,
        decreases present_modes@.len() - k,
    {
        if present_modes[k] == PRESENT_MODE_MAILBOX {
            has_mailbox = true;
        }
        if present_modes[k] == PRESENT_MODE_FIFO {
            has_fifo = true;
        }
        k = k + 1;
    }
    assert(has_mailbox == present_modes@.contains(PRESENT_MODE_MAILBOX));
    assert(has_fifo == present_modes@.contains(PRESENT_MODE_FIFO));
    let present_mode = if has_mailbox {
        PRESENT_MODE_MAILBOX
    } else if has_fifo {
        PRESENT_MODE_FIFO
    } else {
        return Err(VulkanError::NoSuitablePresentMode);
    };
    let extent = if caps.current_extent.width != u32::MAX {
        caps.current_extent
    } else {
        Extent2D {
            width: clamp(width, caps.min_image_extent.width, caps.max_image_extent.width),
            height: clamp(height, caps.min_image_extent.height, caps.max_image_extent.height),
        }
    };
    let mut image_count = caps.min_image_count + 1;
    if caps.max_image_count > 0 && image_count > caps.max_image_count {
        image_count = caps.max_image_count;
    }
    Ok(SwapchainPlan {
        format,
        present_mode,
        extent,
        image_count,
        concurrent_sharing: graphics_family != present_family,
    })
}

/// The extensions that the logical device is created with: every required
/// one, then each optional one the device offers, in order. An optional
/// name holding a NUL character is an error.
pub open spec fn device_extension_list(
    required: Seq<String>,
    optional: Seq<String>,
    available: Seq<String>,
) -> Result<Seq<Seq<char>>, VulkanError>
    decreases optional.len(),
{
    if optional.len() == 0 {
        Ok(required.map_values(|e: String| e@))
    } else {
        match device_extension_list(required, optional.drop_last(), available) {
            Err(e) => Err(e),
            Ok(list) => if has_nul(optional.last()@) {
                Err(VulkanError::InvalidExtensionName)
            } else if offers(available, optional.last()@) {
                Ok(list.push(optional.last()@))
            } else {
                Ok(list)
            },
        }
    }
}

/// The extensions to enable on the chosen device (see
/// `device_extension_list`), which offers `available`.
pub fn device_extensions(settings: &VulkanSettings, available: &Vec<String>) -> (r: Result<Vec<String>, VulkanError>)
    requires
        forall|i: int| 0 <= i < settings.required_device_extensions@.len()
            ==> !has_nul((#[trigger] settings.required_device_extensions@[i])@),
    ensures
        match (r, device_extension_list(settings.required_device_extensions@, settings.optional_device_extensions@, available@)) {
            (Ok(v), Ok(l)) => v@.map_values(|e: String| e@) == l,
            (Err(e1), Err(e2)) => e1 == e2,
            _ => false,
        },
{
    let required = &settings.required_device_extensions;
    let optional = &settings.optional_device_extensions;
    let mut list: Vec<String> = Vec::new();
    let mut i: usize = 0;
    while i < required.len()
        invariant
            i <= required@.len(),
            list@.map_values(|e: String| e@) == required@.take(i as int).map_values(|e: String| e@),
        decreases required@.len() - i,
    {
        let ghost before = list@;
        let name = required[i].clone();
        list.push(name);
        proof {
            assert(list@ == before.push(required@[i as int]));
            assert(required@.take(i as int + 1) =~= required@.take(i as int).push(required@[i as int]));
            lemma_map_push(before, required@[i as int]);
            lemma_map_push(required@.take(i as int), required@[i as int]);
        }
        i = i + 1;
    }
    assert(required@.take(i as int) =~= required@);
    let mut k: usize = 0;
    while k < optional.len()
        invariant
            k <= optional@.len(),
            required@ == settings.required_device_extensions@,
            optional@ == settings.optional_device_extensions@,
            device_extension_list(required@, optional@.take(k as int), available@)
                == Ok::<Seq<Seq<char>>, VulkanError>(list@.map_values(|e: String| e@)),
        decreases optional@.len() - k,
    {
        assert(optional@.take(k as int + 1).drop_last() =~= optional@.take(k as int));
        assert(optional@.take(k as int + 1).last() == optional@[k as int]);
        match is_device_extension_supported(available, optional[k].as_str()) {
            Err(e) => {
                proof {
                    assert(has_nul(optional@[k as int]@));
                    assert(device_extension_list(required@, optional@.take(k as int + 1), available@)
                        == Err::<Seq<Seq<char>>, VulkanError>(VulkanError::InvalidExtensionName));
                    lemma_extension_list_err(required@, optional@, available@, k as int + 1);
                }
                return Err(e);
            },
            Ok(true) => {
                let ghost before = list@;
                let name = optional[k].clone();
                list.push(name);
                proof {
                    assert(list@ == before.push(optional@[k as int]));
                    lemma_map_push(before, optional@[k as int]);
                }
            },
            Ok(false) => {},
        }
        k = k + 1;
    }
    assert(optional@.take(k as int) =~= optional@);
    Ok(list)
}

proof fn lemma_map_push(s: Seq<String>, x: String)
    ensures
        s.push(x).map_values(|e: String| e@) == s.map_values(|e: String| e@).push(x@),
{
    assert(s.push(x).map_values(|e: String| e@) =~= s.map_values(|e: String| e@).push(x@));
}

proof fn lemma_extension_list_err(required: Seq<String>, optional: Seq<String>, available: Seq<String>, k: int)
    requires
        0 <= k <= optional.len(),
        device_extension_list(required, optional.take(k), available) is Err,
    ensures
        device_extension_list(required, optional, available)
            == device_extension_list(required, optional.take(k), available),
    decreases optional.len() - k,
{
    if k < optional.len() {
        assert(optional.take(k + 1).drop_last() =~= optional.take(k));
        lemma_extension_list_err(required, optional, available, k + 1);
    } else {
        assert(optional.take(k) =~= optional);
    }
}

} // verus!
