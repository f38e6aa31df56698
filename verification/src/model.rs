//! The descriptor-side data model: memory declarations, processor kinds and
//! algorithm references of one device, as plain values, together with
//! memory-region selection and core-type mapping.

use vstd::prelude::*;
use vstd::multiset::Multiset;
use crate::names::{lex_le, lemma_lex_refl, lemma_lex_total, lemma_lex_trans, str_lex_le};

verus! {

/// Access permissions of one declared memory region.
#[derive(Clone, Copy, Debug, PartialEq, Eq, Structural)]
pub struct MemoryAccess {
    pub read: bool,
    pub write: bool,
    pub execute: bool,
}

/// One memory region declared by a device descriptor.
#[derive(Clone, Copy, Debug, PartialEq, Eq, Structural)]
pub struct MemoryInfo {
    /// First address of the region.
    pub start: u32,
    /// Length of the region in bytes.
    pub size: u32,
    pub access: MemoryAccess,
    /// The descriptor marks this region as the primary one of its kind.
    pub is_default: bool,
    /// The device boots from this region.
    pub is_startup: bool,
}

/// The core kinds the mapping table knows; everything else is `Other`.
#[derive(Clone, Copy, Debug, PartialEq, Eq, Structural)]
pub enum CoreKind {
    CortexM0,
    CortexM0Plus,
    CortexM3,
    CortexM4,
    CortexM7,
    CortexM33,
    Other,
}

/// The processor declaration of a device.
#[derive(Clone, Copy, Debug, PartialEq, Eq, Structural)]
pub enum ProcessorInfo {
    Symmetric(CoreKind),
    Asymmetric,
}

/// One flash-algorithm reference on a device.
#[derive(Clone, Debug)]
pub struct AlgorithmRef {
    /// Path of the algorithm binary inside the pack.
    pub file_name: String,
    /// The descriptor marks this algorithm as the default one.
    pub is_default: bool,
}

/// One device taken from a parsed descriptor, as plain values.
#[derive(Clone, Debug)]
pub struct DeviceInfo {
    pub name: String,
    /// Name of the family the device belongs to.
    pub family: String,
    /// Declared memory regions, in the descriptor's (name-sorted) order.
    pub memories: Vec<MemoryInfo>,
    /// Flash-algorithm references of the device.
    pub algorithms: Vec<AlgorithmRef>,
    pub processor: ProcessorInfo,
}

/// The device list is in name-sorted order.
pub open spec fn devices_sorted(s: Seq<DeviceInfo>) -> bool {
    forall|k: int, l: int|
        0 <= k < l < s.len() ==> lex_le(#[trigger] s[k].name@, #[trigger] s[l].name@)
}

/// Sorts a device list by device name, lexicographically by code point: the
/// order in which a pack's devices are processed, fixed for reproducibility.
/// The result holds exactly the devices given.
pub fn sort_devices_by_name(devices: Vec<DeviceInfo>) -> (r: Vec<DeviceInfo>)
    ensures
        r@.to_multiset() == devices@.to_multiset(),
        devices_sorted(r@),
{
    let ghost devices0 = devices@.to_multiset();
    let mut rest = devices;
    let mut out: Vec<DeviceInfo> = Vec::new();
    proof {
        out@.to_multiset_ensures();
        vstd::multiset::lemma_multiset_empty_len(out@.to_multiset());
        assert(out@.to_multiset() =~= Multiset::<DeviceInfo>::empty());
        assert(out@.to_multiset().add(rest@.to_multiset()) =~= rest@.to_multiset());
    }
    while rest.len() > 0
        invariant
            out@.to_multiset().add(rest@.to_multiset()) == devices0,
            devices_sorted(out@),
            forall|k: int, l: int|
                0 <= k < out@.len() && 0 <= l < rest@.len() ==> lex_le(
                    #[trigger] out@[k].name@,
                    #[trigger] rest@[l].name@,
                ),
        decreases rest@.len(),
    {
        let mut mi: usize = 0;
        let mut j: usize = 1;
        proof {
            lemma_lex_refl(rest@[0].name@);
        }
        while j < rest.len()
            invariant
                rest@.len() > 0,
                mi < rest@.len(),
                1 <= j <= rest@.len(),
                forall|k: int| 0 <= k < j ==> lex_le(rest@[mi as int].name@, #[trigger] rest@[k].name@),
            decreases rest@.len() - j,
        {
            if !str_lex_le(rest[mi].name.as_str(), rest[j].name.as_str()) {
                proof {
                    lemma_lex_refl(rest@[j as int].name@);
                    lemma_lex_total(rest@[mi as int].name@, rest@[j as int].name@);
                    assert forall|k: int| 0 <= k < j implies lex_le(
                        rest@[j as int].name@,
                        #[trigger] rest@[k].name@,
                    ) by {
                        lemma_lex_trans(
                            rest@[j as int].name@,
                            rest@[mi as int].name@,
                            rest@[k].name@,
                        );
                    }
                }
                mi = j;
            }
            j = j + 1;
        }
        let ghost rest_before = rest@;
        let ghost out_before = out@;
        let d = rest.remove(mi);
        proof {
            rest_before.to_multiset_ensures();
            out_before.to_multiset_ensures();
            assert(rest_before.contains(rest_before[mi as int]));
            assert(rest@.to_multiset() =~= rest_before.to_multiset().remove(d));
            assert(out_before.push(d).to_multiset() =~= out_before.to_multiset().insert(d));
            assert(out_before.to_multiset().insert(d).add(
                rest_before.to_multiset().remove(d),
            ) =~= out_before.to_multiset().add(rest_before.to_multiset()));
            assert forall|l: int| 0 <= l < rest@.len() implies lex_le(
                d.name@,
                #[trigger] rest@[l].name@,
            ) by {
                if l < mi {
                    assert(rest@[l] == rest_before[l]);
                } else {
                    assert(rest@[l] == rest_before[l + 1]);
                }
            }
        }
        out.push(d);
    }
    proof {
        rest@.to_multiset_ensures();
        vstd::multiset::lemma_multiset_empty_len(rest@.to_multiset());
        assert(rest@.to_multiset() =~= Multiset::<DeviceInfo>::empty());
        assert(out@.to_multiset().add(Multiset::<DeviceInfo>::empty()) =~= out@.to_multiset());
    }
    out
}

/// The identifier the fixed core-mapping table yields for a processor
/// declaration; unmapped or asymmetric processors yield the empty identifier.
pub open spec fn spec_core_name(p: ProcessorInfo) -> Seq<char> {
    match p {
        ProcessorInfo::Symmetric(k) => match k {
            CoreKind::CortexM0 => "M0"@,
            CoreKind::CortexM0Plus => "M0"@,
            CoreKind::CortexM3 => "M3"@,
            CoreKind::CortexM4 => "M4"@,
            CoreKind::CortexM7 => "M7"@,
            CoreKind::CortexM33 => "M33"@,
            CoreKind::Other => ""@,
        },
        ProcessorInfo::Asymmetric => ""@,
    }
}

/// Maps a processor declaration through the fixed core table. An unmapped
/// core or an asymmetric processor is not an error: it yields the empty
/// identifier and processing continues.
pub fn core_name(p: &ProcessorInfo) -> (r: String)
    ensures
        r@ == spec_core_name(*p),
{
    match p {
        ProcessorInfo::Symmetric(k) => match k {
            CoreKind::CortexM0 => "M0".to_owned(),
            CoreKind::CortexM0Plus => "M0".to_owned(),
            CoreKind::CortexM3 => "M3".to_owned(),
            CoreKind::CortexM4 => "M4".to_owned(),
            CoreKind::CortexM7 => "M7".to_owned(),
            CoreKind::CortexM33 => "M33".to_owned(),
            CoreKind::Other => "".to_owned(),
        },
        ProcessorInfo::Asymmetric => "".to_owned(),
    }
}

/// A selected RAM region: a half-open address interval.
#[derive(Clone, Copy, Debug, PartialEq, Eq, Structural)]
pub struct RamRegion {
    pub start: u32,
    pub end: u32,
    pub is_boot: bool,
}

/// A selected Flash region: a half-open address interval plus programming
/// geometry.
#[derive(Clone, Copy, Debug, PartialEq, Eq, Structural)]
pub struct FlashRegion {
    pub start: u32,
    pub end: u32,
    pub is_boot: bool,
    pub page_size: u32,
    pub sector_size: u32,
    pub erased_byte_value: u8,
}

/// One entry of a chip's memory map.
#[derive(Clone, Copy, Debug, PartialEq, Eq, Structural)]
pub enum MemoryRegion {
    Ram(RamRegion),
    Flash(FlashRegion),
}

/// A region qualifies for the RAM slot: marked default, readable and
/// writable, and not executable.
pub open spec fn ram_candidate(m: MemoryInfo) -> bool {
    m.is_default && m.access.read && m.access.write && !m.access.execute
}

/// A region qualifies for the Flash slot: marked default, readable and
/// executable, and not writable.
pub open spec fn flash_candidate(m: MemoryInfo) -> bool {
    m.is_default && m.access.read && m.access.execute && !m.access.write
}

/// All regions of the list fit the 32-bit address space.
pub open spec fn memories_bounded(s: Seq<MemoryInfo>) -> bool {
    forall|i: int| 0 <= i < s.len() ==> #[trigger] s[i].start + s[i].size <= u32::MAX
}

/// The RAM region built from a declared memory region.
pub open spec fn ram_region_of(m: MemoryInfo) -> RamRegion {
    RamRegion { start: m.start, end: (m.start + m.size) as u32, is_boot: m.is_startup }
}

/// The first RAM candidate of the list, if any.
pub open spec fn spec_select_ram(s: Seq<MemoryInfo>) -> Option<RamRegion>
    decreases s.len(),
{
    if s.len() == 0 {
        None
    } else if ram_candidate(s[0]) {
        Some(ram_region_of(s[0]))
    } else {
        spec_select_ram(s.skip(1))
    }
}

/// The first Flash candidate of the list, if any (geometry still unset).
pub open spec fn spec_select_flash_bounds(s: Seq<MemoryInfo>) -> Option<MemoryInfo>
    decreases s.len(),
{
    if s.len() == 0 {
        None
    } else if flash_candidate(s[0]) {
        Some(s[0])
    } else {
        spec_select_flash_bounds(s.skip(1))
    }
}

/// Selects the RAM region of a device: the first declared region marked
/// default with read and write but not execute permission. Absence of a
/// candidate is not an error: the slot is simply left empty.
pub fn select_ram(memories: &Vec<MemoryInfo>) -> (r: Option<RamRegion>)
    requires
        memories_bounded(memories@),
    ensures
        r == spec_select_ram(memories@),
{
    let n: usize = memories.len();
    let mut i: usize = 0;
    proof {
        assert(memories@.skip(0) =~= memories@);
    }
    while i < n
        invariant
            memories_bounded(memories@),
            n == memories@.len(),
            i <= n,
            spec_select_ram(memories@) == spec_select_ram(memories@.skip(i as int)),
        decreases n - i,
    {
        let m = memories[i];
        proof {
            assert(memories@.skip(i as int)[0] == memories@[i as int]);
            assert(memories@.skip(i as int).skip(1) =~= memories@.skip(i + 1 as int));
        }
        if m.is_default && m.access.read && m.access.write && !m.access.execute {
            return Some(RamRegion { start: m.start, end: m.start + m.size, is_boot: m.is_startup });
        }
        i = i + 1;
    }
    None
}

/// Selects the Flash candidate of a device: the first declared region marked
/// default with read and execute but not write permission. The caller fills
/// in the programming geometry taken from the extracted algorithm. Absence of
/// a candidate is not an error: the slot is simply left empty.
pub fn select_flash_bounds(memories: &Vec<MemoryInfo>) -> (r: Option<MemoryInfo>)
    ensures
        r == spec_select_flash_bounds(memories@),
{
    let n: usize = memories.len();
    let mut i: usize = 0;
    proof {
        assert(memories@.skip(0) =~= memories@);
    }
    while i < n
        invariant
            n == memories@.len(),
            i <= n,
            spec_select_flash_bounds(memories@) == spec_select_flash_bounds(
                memories@.skip(i as int),
            ),
        decreases n - i,
    {
        let m = memories[i];
        proof {
            assert(memories@.skip(i as int)[0] == memories@[i as int]);
            assert(memories@.skip(i as int).skip(1) =~= memories@.skip(i + 1 as int));
        }
        if m.is_default && m.access.read && m.access.execute && !m.access.write {
            return Some(m);
        }
        i = i + 1;
    }
    None
}

/// The selected RAM region of a device never has execute permission, and the
/// selected Flash candidate never has write permission; a device with no
/// candidate for a slot yields no region for it rather than failing.
pub proof fn lemma_region_selection_sound(s: Seq<MemoryInfo>)
    ensures
        spec_select_ram(s) is Some ==> exists|i: int|
            0 <= i < s.len() && #[trigger] ram_candidate(s[i]) && spec_select_ram(s) == Some(
                ram_region_of(s[i]),
            ),
        spec_select_flash_bounds(s) matches Some(m) ==> !m.access.write && m.access.read
            && m.access.execute && m.is_default,
        (forall|i: int| 0 <= i < s.len() ==> !#[trigger] ram_candidate(s[i])) ==> spec_select_ram(s)
            is None,
        (forall|i: int| 0 <= i < s.len() ==> !#[trigger] flash_candidate(s[i]))
            ==> spec_select_flash_bounds(s) is None,
    decreases s.len(),
{
    if s.len() > 0 {
        lemma_region_selection_sound(s.skip(1));
        assert forall|i: int| 0 <= i < s.skip(1).len() implies s.skip(1)[i] == s[i + 1] by {}
        if !ram_candidate(s[0]) && spec_select_ram(s.skip(1)) is Some {
            let j = choose|j: int|
                0 <= j < s.skip(1).len() && #[trigger] ram_candidate(s.skip(1)[j])
                    && spec_select_ram(s.skip(1)) == Some(ram_region_of(s.skip(1)[j]));
            assert(ram_candidate(s[j + 1]));
        }
    }
}

/// The selected Flash candidate is one of the declared regions.
pub proof fn lemma_selected_flash_is_element(s: Seq<MemoryInfo>)
    ensures
        spec_select_flash_bounds(s) matches Some(m) ==> exists|i: int|
            0 <= i < s.len() && #[trigger] s[i] == m,
    decreases s.len(),
{
    if s.len() > 0 {
        lemma_selected_flash_is_element(s.skip(1));
        if flash_candidate(s[0]) {
            assert(s[0] == spec_select_flash_bounds(s)->Some_0);
        } else if spec_select_flash_bounds(s.skip(1)) is Some {
            let m = spec_select_flash_bounds(s.skip(1))->Some_0;
            let i = choose|i: int| 0 <= i < s.skip(1).len() && #[trigger] s.skip(1)[i] == m;
            assert(s[i + 1] == m);
        }
    }
}

} // verus!
