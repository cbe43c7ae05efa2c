use vstd::prelude::*;

verus! {

/// Vulkan memory property bits (`VkMemoryPropertyFlagBits`).
pub const MEMORY_DEVICE_LOCAL: u32 = 1;
pub const MEMORY_HOST_VISIBLE: u32 = 2;
pub const MEMORY_HOST_COHERENT: u32 = 4;

/// The `TRANSFER_DST` usage bit, the same for buffers and images.
pub const USAGE_TRANSFER_DST: u32 = 2;

/// Vulkan image aspect bits (`VkImageAspectFlagBits`).
pub const ASPECT_COLOR: u32 = 1;
pub const ASPECT_DEPTH: u32 = 2;
pub const ASPECT_STENCIL: u32 = 4;

/// Depth and depth-stencil format codes (`VkFormat`).
pub const FORMAT_D16_UNORM: i32 = 124;
pub const FORMAT_D32_SFLOAT: i32 = 126;
pub const FORMAT_D16_UNORM_S8_UINT: i32 = 128;
pub const FORMAT_D24_UNORM_S8_UINT: i32 = 129;
pub const FORMAT_D32_SFLOAT_S8_UINT: i32 = 130;

/// Calibrated-timestamp time domains (`VkTimeDomainEXT`).
pub const TIME_DOMAIN_DEVICE: i32 = 0;
pub const TIME_DOMAIN_CLOCK_MONOTONIC: i32 = 1;

/// Renderer settings chosen by the application.
pub struct VulkanRenderConfig {
    pub msaa_samples: Option<u32>,
}

/// The sample-count bit (`VkSampleCountFlagBits`) for a requested sample count: the count itself
/// when it is a power of two up to 64, one sample otherwise.
pub open spec fn sample_count_flag(n: u32) -> u32 {
    if n == 1 || n == 2 || n == 4 || n == 8 || n == 16 || n == 32 || n == 64 {
        n
    } else {
        1
    }
}

impl VulkanRenderConfig {
    /// The sample-count bit for multisampling, if multisampling is asked for.
    pub fn get_msaa_samples(&self) -> (r: Option<u32>)
        ensures
            r == match self.msaa_samples {
                Some(n) => Some(sample_count_flag(n)),
                None => None,
            },
    {
        match self.msaa_samples {
            Some(n) => {
                let flag = if n == 1 || n == 2 || n == 4 || n == 8 || n == 16 || n == 32 || n == 64 {
                    n
                } else {
                    1
                };
                Some(flag)
            },
            None => None,
        }
    }
}

/// The aspects of an image of the given format: depth for depth formats, depth and stencil for
/// depth-stencil formats, colour otherwise.
pub open spec fn aspect_mask_spec(format: i32) -> u32 {
    if format == FORMAT_D16_UNORM || format == FORMAT_D32_SFLOAT {
        ASPECT_DEPTH
    } else if format == FORMAT_D16_UNORM_S8_UINT || format == FORMAT_D24_UNORM_S8_UINT || format
        == FORMAT_D32_SFLOAT_S8_UINT {
        ASPECT_DEPTH | ASPECT_STENCIL
    } else {
        ASPECT_COLOR
    }
}

/// The image aspect bits (`VkImageAspectFlags`) of an image of the given format.
pub fn get_aspect_mask(format: i32) -> (m: u32)
    ensures
        m == aspect_mask_spec(format),
{
    if format == FORMAT_D16_UNORM || format == FORMAT_D32_SFLOAT {
        ASPECT_DEPTH
    } else if format == FORMAT_D16_UNORM_S8_UINT || format == FORMAT_D24_UNORM_S8_UINT || format
        == FORMAT_D32_SFLOAT_S8_UINT {
        ASPECT_DEPTH | ASPECT_STENCIL
    } else {
        ASPECT_COLOR
    }
}

/// Memory type `i` is allowed by the requirement bits.
pub open spec fn type_allowed(memory_type_bits: u32, i: int) -> bool {
    memory_type_bits & (1u32 << (i as u32)) != 0
}

/// The preference for memory type `i` when placing a buffer: allowed by the requirements
/// first, then device-local, then host-coherent and host-visible.
pub open spec fn buffer_memory_score(memory_type_bits: u32, flags: u32, i: int) -> int {
    (if type_allowed(memory_type_bits, i) { 100int } else { 0int }) + (if flags
        & MEMORY_DEVICE_LOCAL != 0 {
        10int
    } else {
        0int
    }) + (if flags & MEMORY_HOST_COHERENT != 0 {
        1int
    } else {
        0int
    }) + (if flags & MEMORY_HOST_VISIBLE != 0 {
        1int
    } else {
        0int
    })
}

/// The preference for memory type `i` when placing a buffer.
fn buffer_score(memory_type_bits: u32, flags: u32, i: usize) -> (s: u32)
    requires
        i < 32,
    ensures
        s == buffer_memory_score(memory_type_bits, flags, i as int),
{
    let mut r: u32 = 0;
    if memory_type_bits & (1u32 << (i as u32)) != 0 {
        r = r + 100;
    }
    if flags & MEMORY_DEVICE_LOCAL != 0 {
        r = r + 10;
    }
    if flags & MEMORY_HOST_COHERENT != 0 {
        r = r + 1;
    }
    if flags & MEMORY_HOST_VISIBLE != 0 {
        r = r + 1;
    }
    r
}

/// The memory type for a buffer: the one with the highest preference, the last of them on a
/// tie. `property_flags[i]` are the property bits of memory type `i`.
pub fn pick_buffer_memory_type(memory_type_bits: u32, property_flags: &[u32]) -> (m: usize)
    requires
        0 < property_flags@.len() <= 32,
    ensures
        is_best_buffer_memory_type(memory_type_bits, property_flags@, m as int),
        m < property_flags@.len(),
        forall|j: int|
            0 <= j < property_flags@.len() ==> buffer_memory_score(
                memory_type_bits,
                property_flags@[j],
                j,
            ) <= buffer_memory_score(memory_type_bits, property_flags@[m as int], m as int),
        forall|j: int|
            m < j < property_flags@.len() ==> buffer_memory_score(
                memory_type_bits,
                property_flags@[j],
                j,
            ) < buffer_memory_score(memory_type_bits, property_flags@[m as int], m as int),
{
    let mut best: usize = 0;
    let mut best_score = buffer_score(memory_type_bits, property_flags[0], 0);
    let mut i: usize = 1;
    while i < property_flags.len()
        invariant
            0 < property_flags@.len() <= 32,
            1 <= i <= property_flags@.len(),
            best < i,
            best_score == buffer_memory_score(memory_type_bits, property_flags@[best as int], best as int),
            forall|j: int|
                0 <= j < i ==> buffer_memory_score(memory_type_bits, property_flags@[j], j)
                    <= best_score,
            forall|j: int|
                best < j < i ==> buffer_memory_score(memory_type_bits, property_flags@[j], j)
                    < best_score,
        decreases property_flags@.len() - i,
    {
        let s = buffer_score(memory_type_bits, property_flags[i], i);
        if s >= best_score {
            best = i;
            best_score = s;
        }
        i = i + 1;
    }
    best
}

/// Memory type `m` is a best one for a buffer: none scores higher, and none after it scores as
/// high.
pub open spec fn is_best_buffer_memory_type(memory_type_bits: u32, flags: Seq<u32>, m: int) -> bool {
    &&& 0 <= m < flags.len()
    &&& forall|j: int|
        0 <= j < flags.len() ==> buffer_memory_score(memory_type_bits, flags[j], j)
            <= buffer_memory_score(memory_type_bits, flags[m], m)
    &&& forall|j: int|
        m < j < flags.len() ==> buffer_memory_score(memory_type_bits, flags[j], j)
            < buffer_memory_score(memory_type_bits, flags[m], m)
}

/// The memory type recorded for `key` in a list of records, the latest record first.
pub open spec fn recorded_type(s: Seq<((u32, u32), u32)>, key: (u32, u32)) -> Option<u32>
    decreases s.len(),
{
    if s.len() == 0 {
        None
    } else if s.last().0 == key {
        Some(s.last().1)
    } else {
        recorded_type(s.drop_last(), key)
    }
}

/// The memory types already found for buffers, by (usage bits, create-flag bits), so that each
/// kind of buffer is looked up once.
pub struct BufferMemoryTypes {
    found: Vec<((u32, u32), u32)>,
}

impl BufferMemoryTypes {
    /// The memory type found for buffers of the given (usage bits, create-flag bits), if any.
    pub closed spec fn memory_type(&self, key: (u32, u32)) -> Option<u32> {
        recorded_type(self.found@, key)
    }

    /// Nothing found yet.
    pub fn new() -> (c: Self)
        ensures
            forall|key: (u32, u32)| #[trigger] c.memory_type(key) is None,
    {
        BufferMemoryTypes { found: Vec::new() }
    }

    /// The memory type found for `key`, if any.
    pub fn get(&self, key: (u32, u32)) -> (r: Option<u32>)
        ensures
            r == self.memory_type(key),
    {
        let ghost s = self.found@;
        let mut i: usize = self.found.len();
        assert(s.take(i as int) =~= s);
        while i > 0
            invariant
                i <= s.len(),
                s == self.found@,
                recorded_type(s.take(i as int), key) == recorded_type(s, key),
            decreases i,
        {
            let (k, t) = self.found[i - 1];
            assert(s.take(i as int).last() == s[i - 1]);
            assert(s.take(i as int).drop_last() =~= s.take(i - 1));
            if k.0 == key.0 && k.1 == key.1 {
                return Some(t);
            }
            i = i - 1;
        }
        assert(s.take(0) =~= Seq::<((u32, u32), u32)>::empty());
        None
    }

    /// The memory type for buffers of kind `key`: the one found before for that kind, or else
    /// the best one for `memory_type_bits` (the requirement bits of such a buffer), which is
    /// then recorded. `property_flags[i]` are the property bits of memory type `i`.
    pub fn get_or_pick(&mut self, key: (u32, u32), memory_type_bits: u32, property_flags: &[u32]) -> (m: u32)
        requires
            0 < property_flags@.len() <= 32,
        ensures
            old(self).memory_type(key) matches Some(t) ==> m == t && *final(self) == *old(self),
            old(self).memory_type(key) is None ==> is_best_buffer_memory_type(
                memory_type_bits,
                property_flags@,
                m as int,
            ) && final(self).memory_type(key) == Some(m) && forall|other: (u32, u32)|
                other != key ==> #[trigger] final(self).memory_type(other) == old(self).memory_type(
                    other,
                ),
    {
        match self.get(key) {
            Some(t) => t,
            None => {
                let m = pick_buffer_memory_type(memory_type_bits, property_flags) as u32;
                let ghost before = self.found@;
                self.found.push((key, m));
                assert(self.found@.drop_last() =~= before);
                m
            },
        }
    }
}

/// The memory type for an image: the first one allowed by the requirements that is
/// device-local; `None` if there is none.
pub fn pick_image_memory_type(memory_type_bits: u32, property_flags: &[u32]) -> (m: Option<usize>)
    requires
        property_flags@.len() <= 32,
    ensures
        match m {
            Some(i) => i < property_flags@.len() && type_allowed(memory_type_bits, i as int)
                && property_flags@[i as int] & MEMORY_DEVICE_LOCAL != 0 && forall|j: int|
                0 <= j < i ==> !(type_allowed(memory_type_bits, j) && property_flags@[j]
                    & MEMORY_DEVICE_LOCAL != 0),
            None => forall|j: int|
                0 <= j < property_flags@.len() ==> !(type_allowed(memory_type_bits, j)
                    && property_flags@[j] & MEMORY_DEVICE_LOCAL != 0),
        },
{
    let mut i: usize = 0;
    while i < property_flags.len()
        invariant
            property_flags@.len() <= 32,
            i <= property_flags@.len(),
            forall|j: int|
                0 <= j < i ==> !(type_allowed(memory_type_bits, j) && property_flags@[j]
                    & MEMORY_DEVICE_LOCAL != 0),
        decreases property_flags@.len() - i,
    {
        if memory_type_bits & (1u32 << (i as u32)) != 0 && property_flags[i] & MEMORY_DEVICE_LOCAL != 0 {
            return Some(i);
        }
        i = i + 1;
    }
    None
}

/// The usage bits of a resource placed in memory with the given property bits: memory the host
/// cannot see is filled by a transfer, so it also needs `TRANSFER_DST`.
pub fn upload_usage(usage: u32, memory_flags: u32) -> (u: u32)
    ensures
        u == if memory_flags & MEMORY_HOST_VISIBLE == 0 {
            usage | USAGE_TRANSFER_DST
        } else {
            usage
        },
{
    if memory_flags & MEMORY_HOST_VISIBLE == 0 {
        usage | USAGE_TRANSFER_DST
    } else {
        usage
    }
}

/// How the initial contents of a new buffer reach it.
#[derive(Debug, Copy, Clone, PartialEq, Eq, Structural)]
pub enum FillStrategy {
    /// Map the memory and write; no flush is needed.
    MapCoherent,
    /// Map the memory, write, then flush the written range.
    MapAndFlush,
    /// Write into the staging buffer and record a copy.
    Staging,
}

/// The way to fill a buffer whose memory has the given property bits.
pub fn fill_strategy(memory_flags: u32) -> (s: FillStrategy)
    ensures
        s == if memory_flags & MEMORY_HOST_VISIBLE != 0 {
            if memory_flags & MEMORY_HOST_COHERENT != 0 {
                FillStrategy::MapCoherent
            } else {
                FillStrategy::MapAndFlush
            }
        } else {
            FillStrategy::Staging
        },
{
    if memory_flags & MEMORY_HOST_VISIBLE != 0 {
        if memory_flags & MEMORY_HOST_COHERENT != 0 {
            FillStrategy::MapCoherent
        } else {
            FillStrategy::MapAndFlush
        }
    } else {
        FillStrategy::Staging
    }
}

/// The image-view type (`VkImageViewType`) for an image of the given type (`VkImageType`): 1D,
/// 2D and 3D images get views of the same dimension; other types are not handled.
pub fn image_view_type(image_type: i32) -> (v: Option<i32>)
    ensures
        v == if 0 <= image_type <= 2 {
            Some(image_type)
        } else {
            None::<i32>
        },
{
    if image_type == 1 {
        Some(1)
    } else if image_type == 2 {
        Some(2)
    } else if image_type == 0 {
        Some(0)
    } else {
        None
    }
}

/// The timestamp of the last sample taken in time domain `domain`, if any.
pub open spec fn last_timestamp(samples: Seq<(i32, u64)>, domain: i32) -> Option<u64>
    decreases samples.len(),
{
    if samples.len() == 0 {
        None
    } else if samples.last().0 == domain {
        Some(samples.last().1)
    } else {
        last_timestamp(samples.drop_last(), domain)
    }
}

/// From calibrated timestamps, the pair (device time, host monotonic time); `None` unless both
/// domains were sampled. A later sample of a domain replaces an earlier one.
pub fn get_timestamps_pair(samples: &[(i32, u64)]) -> (r: Option<(u64, u64)>)
    ensures
        r == match (
            last_timestamp(samples@, TIME_DOMAIN_DEVICE),
            last_timestamp(samples@, TIME_DOMAIN_CLOCK_MONOTONIC),
        ) {
            (Some(gpu), Some(host)) => Some((gpu, host)),
            _ => None,
        },
{
    let mut gpu_tm: Option<u64> = None;
    let mut host_tm: Option<u64> = None;
    let mut i: usize = 0;
    while i < samples.len()
        invariant
            i <= samples@.len(),
            gpu_tm == last_timestamp(samples@.take(i as int), TIME_DOMAIN_DEVICE),
            host_tm == last_timestamp(samples@.take(i as int), TIME_DOMAIN_CLOCK_MONOTONIC),
        decreases samples@.len() - i,
    {
        let (source, tm) = samples[i];
        assert(samples@.take(i + 1).drop_last() =~= samples@.take(i as int));
        assert(samples@.take(i + 1).last() == samples@[i as int]);
        if source == TIME_DOMAIN_CLOCK_MONOTONIC {
            host_tm = Some(tm);
        } else if source == TIME_DOMAIN_DEVICE {
            gpu_tm = Some(tm);
        }
        i = i + 1;
    }
    assert(samples@.take(i as int) =~= samples@);
    match (gpu_tm, host_tm) {
        (Some(gpu), Some(host)) => Some((gpu, host)),
        _ => None,
    }
}

} // verus!
