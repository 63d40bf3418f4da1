//! Hardware decoding.
//!
//! Nothing is hard-coded: the codec is asked which hardware it supports, the
//! kinds are tried in order of how well they work, and the CPU is what is
//! left. A player that refuses to start because one kind is broken is worse
//! than one that uses the CPU.

use vstd::prelude::*;

use crate::order;
use crate::order::TextKey;
use crate::text;

verus! {

#[derive(Debug, Clone, Copy, PartialEq, Eq, Structural)]
pub enum DeviceType {
    VAAPI,
    CUDA,
    VDPAU,
    VULKAN,
    DRM,
    Other(i32),
}

#[derive(Debug, Clone, Copy, PartialEq, Eq, Structural)]
pub struct HwAccel {
    pub kind: DeviceType,
    /// The pixel format of frames while they are on the GPU.
    pub pixel_format: i32,
}

pub open spec fn device_label(kind: DeviceType) -> Seq<char> {
    match kind {
        DeviceType::VAAPI => "VA-API"@,
        DeviceType::CUDA => "NVDEC"@,
        DeviceType::VDPAU => "VDPAU"@,
        DeviceType::VULKAN => "Vulkan"@,
        DeviceType::DRM => "DRM"@,
        DeviceType::Other(_) => "hardware"@,
    }
}

impl HwAccel {
    pub fn name(&self) -> (r: &'static str)
        ensures
            r@ == device_label(self.kind),
    {
        match self.kind {
            DeviceType::VAAPI => "VA-API",
            DeviceType::CUDA => "NVDEC",
            DeviceType::VDPAU => "VDPAU",
            DeviceType::VULKAN => "Vulkan",
            DeviceType::DRM => "DRM",
            DeviceType::Other(_) => "hardware",
        }
    }
}

/// One hardware configuration of a codec.
#[derive(Debug, Clone, Copy)]
pub struct HwConfig {
    /// Whether it works through a device that is handed to the decoder.
    pub by_device: bool,
    pub kind: DeviceType,
    pub pixel_format: i32,
}

/// The pixel format of the first configuration of this kind that works
/// through a device.
pub open spec fn format_for(configs: Seq<HwConfig>, kind: DeviceType) -> Option<i32>
    decreases configs.len(),
{
    if configs.len() == 0 {
        None
    } else if configs[0].by_device && configs[0].kind == kind {
        Some(configs[0].pixel_format)
    } else {
        format_for(configs.drop_first(), kind)
    }
}

/// Whether the codec supports `kind`, and in which pixel format.
pub fn hw_pixel_format(configs: &[HwConfig], kind: DeviceType) -> (r: Option<i32>)
    ensures
        r == format_for(configs@, kind),
{
    let mut i: usize = 0;
    assert(configs@.skip(0) =~= configs@);
    while i < configs.len()
        invariant
            i <= configs@.len(),
            format_for(configs@, kind) == format_for(configs@.skip(i as int), kind),
        decreases configs@.len() - i,
    {
        assert(configs@.skip(i as int).drop_first() =~= configs@.skip(i + 1));
        if configs[i].by_device && configs[i].kind == kind {
            return Some(configs[i].pixel_format);
        }
        i = i + 1;
    }
    None
}

/// The kinds in the order in which they are tried. VA-API comes first
/// because it works on the open drivers of both vendors, NVDEC next because
/// it is the only choice on the proprietary one, and Vulkan last because it
/// is the newest.
pub open spec fn candidate(i: int) -> DeviceType {
    if i == 0 {
        DeviceType::VAAPI
    } else if i == 1 {
        DeviceType::CUDA
    } else if i == 2 {
        DeviceType::VDPAU
    } else {
        DeviceType::VULKAN
    }
}

pub const CANDIDATES: usize = 4;

/// The next kind from position `i` on that the codec supports, and its
/// position.
pub open spec fn supported_from(configs: Seq<HwConfig>, i: int) -> Option<int>
    decreases CANDIDATES - i,
{
    if i >= CANDIDATES {
        None
    } else if format_for(configs, candidate(i)) is Some {
        Some(i)
    } else {
        supported_from(configs, i + 1)
    }
}

/// The next accelerator to try from position `from` on, and the position to
/// go on from if its device does not open. `None` means to decode on the
/// CPU, as does `disabled`.
pub fn next_accelerator(configs: &[HwConfig], from: usize, disabled: bool) -> (r: Option<
    (HwAccel, usize),
>)
    ensures
        r is None <==> disabled || supported_from(configs@, from as int) is None,
        r matches Some((accel, next)) ==> {
            let i = supported_from(configs@, from as int)->0;
            &&& accel.kind == candidate(i)
            &&& Some(accel.pixel_format) == format_for(configs@, candidate(i))
            &&& next == i + 1
        },
{
    if disabled {
        return None;
    }
    let mut i: usize = from;
    while i < CANDIDATES
        invariant
            supported_from(configs@, from as int) == supported_from(configs@, i as int),
            !disabled,
        decreases CANDIDATES - i,
    {
        let kind: DeviceType = match i {
            0 => DeviceType::VAAPI,
            1 => DeviceType::CUDA,
            2 => DeviceType::VDPAU,
            _ => DeviceType::VULKAN,
        };
        if let Some(format) = hw_pixel_format(configs, kind) {
            return Some((HwAccel { kind: kind, pixel_format: format }, i + 1));
        }
        i = i + 1;
    }
    None
}

/// Whether a device of this kind is addressed through a render node.
pub open spec fn uses_render_node(kind: DeviceType) -> bool {
    kind is VAAPI || kind is DRM
}

/// Whether a directory entry is a render node.
pub open spec fn is_render_node(name: Seq<char>) -> bool {
    text::has_prefix(name, "renderD"@)
}

/// How many of the entries are render nodes.
pub open spec fn render_nodes(entries: Seq<String>) -> nat
    decreases entries.len(),
{
    if entries.len() == 0 {
        0
    } else {
        render_nodes(entries.drop_last()) + if is_render_node(entries.last()@) {
            1nat
        } else {
            0
        }
    }
}

/// Whether `names` lists what to open a device of this kind by: first
/// nothing, for the default; then, for the kinds that are addressed through
/// one, every render node among the entries, in order of their names. The
/// default is routinely the discrete card of a hybrid machine, which may not
/// decode at all.
pub open spec fn opens_by(
    kind: DeviceType,
    entries: Seq<String>,
    names: Seq<Option<String>>,
) -> bool {
    &&& names.len() > 0
    &&& names[0] is None
    &&& !uses_render_node(kind) ==> names.len() == 1
    &&& uses_render_node(kind) ==> names.len() == 1 + render_nodes(entries)
    &&& forall|a: int|
        1 <= a < names.len() ==> (#[trigger] names[a]) is Some && is_render_node(names[a]->0@)
            && text::texts(entries).contains(names[a]->0@)
    &&& forall|a: int, b: int|
        #![trigger names[a], names[b]]
        1 <= a < b < names.len() ==> order::text_at_most(names[a]->0@, names[b]->0@)
    &&& uses_render_node(kind) ==> forall|i: int|
        0 <= i < entries.len() && is_render_node((#[trigger] entries[i])@) ==> named(
            names,
            entries[i]@,
        )
}

/// Whether `name` is in the list.
pub open spec fn named(names: Seq<Option<String>>, name: Seq<char>) -> bool {
    exists|a: int| 1 <= a < names.len() && (#[trigger] names[a])->0@ == name
}

/// What to open a device of this kind by, in order, given the entries of the
/// directory of render nodes.
pub fn device_names(kind: DeviceType, entries: &Vec<String>) -> (names: Vec<Option<String>>)
    ensures
        opens_by(kind, entries@, names@),
{
    let mut names: Vec<Option<String>> = Vec::new();
    names.push(None);
    let uses: bool = match kind {
        DeviceType::VAAPI | DeviceType::DRM => true,
        _ => false,
    };
    if !uses {
        return names;
    }
    let mut keys: Vec<TextKey> = Vec::new();
    let mut i: usize = 0;
    while i < entries.len()
        invariant
            i <= entries@.len(),
            keys@.len() == render_nodes(entries@.take(i as int)),
            forall|k: int|
                0 <= k < keys@.len() ==> is_render_node((#[trigger] keys@[k]).text@) && text::texts(
                    entries@,
                ).contains(keys@[k].text@),
            forall|e: int|
                0 <= e < i && is_render_node((#[trigger] entries@[e])@) ==> has_key(
                    keys@,
                    entries@[e]@,
                ),
        decreases entries@.len() - i,
    {
        let name = text::chars_of(entries[i].as_str());
        let ghost before = keys@;
        assert(entries@.take(i + 1).drop_last() =~= entries@.take(i as int));
        if text::starts_with(&name, "renderD") {
            keys.push(TextKey { text: name });
            proof {
                assert(text::texts(entries@)[i as int] == entries@[i as int]@);
                assert(keys@[before.len() as int].text@ == entries@[i as int]@);
                assert forall|e: int| 0 <= e < i && is_render_node(
                    (#[trigger] entries@[e])@,
                ) implies has_key(keys@, entries@[e]@) by {
                    assert(has_key(before, entries@[e]@));
                    let w = choose|w: int|
                        0 <= w < before.len() && (#[trigger] before[w]).text@ == entries@[e]@;
                    assert(keys@[w].text@ == entries@[e]@);
                }
            }
        }
        i = i + 1;
    }
    assert(entries@.take(i as int) =~= entries@);
    let sorted = order::stable_order(&keys);
    let mut n: usize = 0;
    while n < sorted.len()
        invariant
            n <= sorted@.len(),
            order::sorts(keys@, sorted@, 0, keys@.len() as int),
            names@.len() == n + 1,
            names@[0] is None,
            forall|a: int|
                1 <= a <= n ==> (#[trigger] names@[a]) is Some && names@[a]->0@
                    == keys@[sorted@[a - 1] as int].text@,
        decreases sorted@.len() - n,
    {
        let name = text::string_of(&keys[sorted[n]].text);
        names.push(Some(name));
        n = n + 1;
    }
    proof {
        assert forall|a: int, b: int|
            #![trigger names@[a], names@[b]]
            1 <= a < b < names@.len() implies order::text_at_most(
            names@[a]->0@,
            names@[b]->0@,
        ) by {
            assert(order::goes_first(keys@, sorted@[a - 1] as int, sorted@[b - 1] as int));
        }
        assert forall|e: int| 0 <= e < entries@.len() && is_render_node(
            (#[trigger] entries@[e])@,
        ) implies named(names@, entries@[e]@) by {
            assert(has_key(keys@, entries@[e]@));
            let k = choose|k: int|
                0 <= k < keys@.len() && (#[trigger] keys@[k]).text@ == entries@[e]@;
            assert(order::listed(sorted@, k));
            let w = choose|w: int| 0 <= w < sorted@.len() && #[trigger] sorted@[w] == k;
            assert(names@[w + 1]->0@ == entries@[e]@);
        }
    }
    names
}

spec fn has_key(keys: Seq<TextKey>, name: Seq<char>) -> bool {
    exists|k: int| 0 <= k < keys.len() && (#[trigger] keys[k]).text@ == name
}

/// A format that a decoder can emit.
#[derive(Debug, Clone, Copy)]
pub struct OfferedFormat {
    pub format: i32,
    pub on_gpu: bool,
}

/// The first software format on offer.
pub open spec fn first_software(offered: Seq<OfferedFormat>) -> Option<i32>
    decreases offered.len(),
{
    if offered.len() == 0 {
        None
    } else if !offered[0].on_gpu {
        Some(offered[0].format)
    } else {
        first_software(offered.drop_first())
    }
}

/// The format to decode to: the hardware format wanted if it is on offer;
/// else the first software format, because another hardware format would
/// fail against a device of the wrong kind; else the first of all.
pub open spec fn format_choice(offered: Seq<OfferedFormat>, wanted: i32) -> Option<i32> {
    if exists|i: int| 0 <= i < offered.len() && (#[trigger] offered[i]).format == wanted {
        Some(wanted)
    } else {
        match first_software(offered) {
            Some(f) => Some(f),
            None => if offered.len() > 0 {
                Some(offered[0].format)
            } else {
                None
            },
        }
    }
}

/// Chooses the format to decode to.
pub fn pick_format(offered: &[OfferedFormat], wanted: i32) -> (r: Option<i32>)
    ensures
        r == format_choice(offered@, wanted),
{
    let mut i: usize = 0;
    while i < offered.len()
        invariant
            i <= offered@.len(),
            forall|k: int| 0 <= k < i ==> (#[trigger] offered@[k]).format != wanted,
        decreases offered@.len() - i,
    {
        if offered[i].format == wanted {
            assert(offered@[i as int].format == wanted);
            return Some(wanted);
        }
        i = i + 1;
    }
    let mut n: usize = 0;
    assert(offered@.skip(0) =~= offered@);
    while n < offered.len()
        invariant
            n <= offered@.len(),
            forall|k: int| 0 <= k < offered@.len() ==> (#[trigger] offered@[k]).format != wanted,
            first_software(offered@) == first_software(offered@.skip(n as int)),
        decreases offered@.len() - n,
    {
        assert(offered@.skip(n as int).drop_first() =~= offered@.skip(n + 1));
        if !offered[n].on_gpu {
            return Some(offered[n].format);
        }
        n = n + 1;
    }
    if offered.len() > 0 {
        Some(offered[0].format)
    } else {
        None
    }
}

// ── Laws ────────────────────────────────────────────────────────────────

proof fn software_is_found(offered: Seq<OfferedFormat>)
    ensures
        first_software(offered) matches Some(f) ==> exists|i: int|
            0 <= i < offered.len() && (#[trigger] offered[i]).format == f && !offered[i].on_gpu,
        first_software(offered) is None ==> forall|i: int|
            0 <= i < offered.len() ==> (#[trigger] offered[i]).on_gpu,
    decreases offered.len(),
{
    if offered.len() > 0 && offered[0].on_gpu {
        let rest = offered.drop_first();
        software_is_found(rest);
        if let Some(f) = first_software(rest) {
            let w = choose|w: int|
                0 <= w < rest.len() && (#[trigger] rest[w]).format == f && !rest[w].on_gpu;
            assert(offered[w + 1] == rest[w]);
        } else {
            assert forall|i: int| 0 <= i < offered.len() implies (#[trigger] offered[i]).on_gpu by {
                if i > 0 {
                    assert(offered[i] == rest[i - 1]);
                }
            }
        }
    }
}

/// When the wanted format is not on offer, decoding falls back on the CPU
/// rather than on other hardware, wherever the decoder can.
pub proof fn falling_back_means_the_cpu(offered: Seq<OfferedFormat>, wanted: i32)
    requires
        forall|i: int| 0 <= i < offered.len() ==> (#[trigger] offered[i]).format != wanted,
        exists|i: int| 0 <= i < offered.len() && !(#[trigger] offered[i]).on_gpu,
    ensures
        exists|i: int|
            0 <= i < offered.len() && !(#[trigger] offered[i]).on_gpu && Some(offered[i].format)
                == format_choice(offered, wanted),
{
    software_is_found(offered);
    let f = first_software(offered)->0;
    let w = choose|w: int|
        0 <= w < offered.len() && (#[trigger] offered[w]).format == f && !offered[w].on_gpu;
    assert(Some(offered[w].format) == format_choice(offered, wanted));
}

/// The kinds are tried in their order, and none twice.
pub proof fn kinds_are_tried_in_order(configs: Seq<HwConfig>, from: int)
    requires
        0 <= from,
    ensures
        supported_from(configs, from) matches Some(i) ==> {
            &&& from <= i < CANDIDATES
            &&& format_for(configs, candidate(i)) is Some
            &&& forall|k: int|
                from <= k < i ==> format_for(configs, #[trigger] candidate(k)) is None
        },
        supported_from(configs, from) is None ==> forall|k: int|
            from <= k < CANDIDATES ==> format_for(configs, #[trigger] candidate(k)) is None,
    decreases CANDIDATES - from,
{
    if from < CANDIDATES && format_for(configs, candidate(from)) is None {
        kinds_are_tried_in_order(configs, from + 1);
    }
}

/// The format of a kind is that of the first configuration that works through
/// a device of the kind.
pub proof fn the_first_fitting_configuration_counts(configs: Seq<HwConfig>, kind: DeviceType)
    ensures
        match format_for(configs, kind) {
            Some(f) => exists|i: int|
                0 <= i < configs.len() && (#[trigger] configs[i]).by_device && configs[i].kind
                    == kind && configs[i].pixel_format == f && forall|j: int|
                    0 <= j < i ==> !((#[trigger] configs[j]).by_device && configs[j].kind == kind),
            None => forall|i: int|
                0 <= i < configs.len() ==> !((#[trigger] configs[i]).by_device && configs[i].kind
                    == kind),
        },
    decreases configs.len(),
{
    if configs.len() > 0 {
        let rest = configs.drop_first();
        the_first_fitting_configuration_counts(rest, kind);
        if configs[0].by_device && configs[0].kind == kind {
        } else if format_for(rest, kind) is Some {
            let f = format_for(rest, kind)->0;
            let i = choose|i: int|
                0 <= i < rest.len() && (#[trigger] rest[i]).by_device && rest[i].kind == kind
                    && rest[i].pixel_format == f && forall|j: int|
                    0 <= j < i ==> !((#[trigger] rest[j]).by_device && rest[j].kind == kind);
            assert(configs[i + 1] == rest[i]);
            assert forall|j: int| 0 <= j < i + 1 implies !((#[trigger] configs[j]).by_device
                && configs[j].kind == kind) by {
                if j > 0 {
                    assert(configs[j] == rest[j - 1]);
                }
            }
        } else {
            assert forall|i: int| 0 <= i < configs.len() implies !((
            #[trigger] configs[i]).by_device && configs[i].kind == kind) by {
                if i > 0 {
                    assert(configs[i] == rest[i - 1]);
                }
            }
        }
    }
}

/// VA-API is tried before NVDEC, that before VDPAU, and Vulkan last; no other
/// kind is tried.
pub proof fn the_open_drivers_go_first(configs: Seq<HwConfig>)
    ensures
        ({
            let works = |kind: DeviceType| format_for(configs, kind) is Some;
            let first = supported_from(configs, 0);
            &&& works(DeviceType::VAAPI) ==> (first matches Some(i) && candidate(i) is VAAPI)
            &&& !works(DeviceType::VAAPI) && works(DeviceType::CUDA) ==> (first matches Some(i) && candidate(i) is CUDA)
            &&& !works(DeviceType::VAAPI) && !works(DeviceType::CUDA) && works(DeviceType::VDPAU)
                ==> (first matches Some(i) && candidate(i) is VDPAU)
            &&& !works(DeviceType::VAAPI) && !works(DeviceType::CUDA) && !works(DeviceType::VDPAU) && works(
                DeviceType::VULKAN,
            ) ==> (first matches Some(i) && candidate(i) is VULKAN)
            &&& first is None <==> !works(DeviceType::VAAPI) && !works(DeviceType::CUDA) && !works(
                DeviceType::VDPAU,
            ) && !works(DeviceType::VULKAN)
        }),
{
    reveal_with_fuel(supported_from, 6);
}

/// The hardware format is decoded to wherever it is on offer.
pub proof fn hardware_is_used_when_offered(offered: Seq<OfferedFormat>, wanted: i32, i: int)
    requires
        0 <= i < offered.len(),
        offered[i].format == wanted,
    ensures
        format_choice(offered, wanted) == Some(wanted),
{
}

/// With nothing but foreign hardware formats on offer the first is taken, and
/// with nothing on offer nothing is.
pub proof fn something_is_chosen(offered: Seq<OfferedFormat>, wanted: i32)
    ensures
        format_choice(offered, wanted) is Some <==> offered.len() > 0,
        format_choice(offered, wanted) matches Some(f) ==> exists|i: int|
            0 <= i < offered.len() && (#[trigger] offered[i]).format == f,
{
    first_software_is_offered(offered);
}

proof fn first_software_is_offered(offered: Seq<OfferedFormat>)
    ensures
        first_software(offered) matches Some(f) ==> exists|i: int|
            0 <= i < offered.len() && (#[trigger] offered[i]).format == f && !offered[i].on_gpu
                && forall|j: int| 0 <= j < i ==> (#[trigger] offered[j]).on_gpu,
    decreases offered.len(),
{
    if offered.len() > 0 && offered[0].on_gpu {
        let rest = offered.drop_first();
        first_software_is_offered(rest);
        if let Some(f) = first_software(rest) {
            let i = choose|i: int|
                0 <= i < rest.len() && (#[trigger] rest[i]).format == f && !rest[i].on_gpu
                    && forall|j: int| 0 <= j < i ==> (#[trigger] rest[j]).on_gpu;
            assert(offered[i + 1] == rest[i]);
            assert forall|j: int| 0 <= j < i + 1 implies (#[trigger] offered[j]).on_gpu by {
                if j > 0 {
                    assert(offered[j] == rest[j - 1]);
                }
            }
        }
    }
}

} // verus!
