use target_gen::algorithm::{FlashAlgorithm, FlashGeometry, FunctionTable};
use target_gen::catalog::{descriptor_paths, resolve_location};
use target_gen::family::{add_device_record, merge_algorithms, ChipFamily};
use target_gen::model::{
    core_name, select_flash_bounds, select_ram, sort_devices_by_name, AlgorithmRef, CoreKind,
    DeviceInfo, MemoryAccess, MemoryInfo, MemoryRegion, ProcessorInfo,
};
use target_gen::names::{
    algorithm_name_of, ascii_lower, extension_is, is_safe_member_name, lower_eq, str_eq,
    str_lex_le,
};

#[test]
fn lowercases_ascii_letters_only() {
    assert_eq!(ascii_lower("AbC.FLM"), "abc.flm");
    assert_eq!(ascii_lower("already_lower-123"), "already_lower-123");
    assert_eq!(ascii_lower(""), "");
}

#[test]
fn algorithm_names_are_lowercased_stems() {
    assert_eq!(algorithm_name_of("Algo.FLM"), "algo");
    assert_eq!(algorithm_name_of("Flash/STM32F4.FLM"), "stm32f4");
    assert_eq!(algorithm_name_of("noext"), "noext");
    assert_eq!(algorithm_name_of(".hidden"), ".hidden");
    assert_eq!(algorithm_name_of("a/b/Two.Dots.flm"), "two.dots");
}

#[test]
fn extension_checks() {
    assert!(extension_is("pack/Vendor.Family.pdsc", "pdsc"));
    assert!(extension_is("a.pdsc", "pdsc"));
    assert!(!extension_is("a.PDSC", "pdsc"));
    assert!(!extension_is(".pdsc", "pdsc"));
    assert!(!extension_is("apdsc", "pdsc"));
    assert!(extension_is("f.pack", "pack"));
}

#[test]
fn member_name_sanitization() {
    assert!(is_safe_member_name("a/b.flm"));
    assert!(is_safe_member_name("plain.pdsc"));
    assert!(is_safe_member_name("a..b/c"));
    assert!(!is_safe_member_name("/absolute.pdsc"));
    assert!(!is_safe_member_name("../escape.pdsc"));
    assert!(!is_safe_member_name("a/../b.pdsc"));
    assert!(!is_safe_member_name("a/.."));
    assert!(!is_safe_member_name("back\\slash"));
    assert!(!is_safe_member_name(""));
}

#[test]
fn string_comparisons() {
    assert!(str_eq("same", "same"));
    assert!(!str_eq("same", "sam"));
    assert!(lower_eq("Algo", "ALGO"));
    assert!(!lower_eq("Algo", "Algos"));
    assert!(str_lex_le("D1", "D2"));
    assert!(str_lex_le("D1", "D1"));
    assert!(!str_lex_le("D2", "D1"));
    assert!(str_lex_le("D", "D1"));
}

#[test]
fn core_mapping_table() {
    assert_eq!(core_name(&ProcessorInfo::Symmetric(CoreKind::CortexM0)), "M0");
    assert_eq!(core_name(&ProcessorInfo::Symmetric(CoreKind::CortexM0Plus)), "M0");
    assert_eq!(core_name(&ProcessorInfo::Symmetric(CoreKind::CortexM3)), "M3");
    assert_eq!(core_name(&ProcessorInfo::Symmetric(CoreKind::CortexM4)), "M4");
    assert_eq!(core_name(&ProcessorInfo::Symmetric(CoreKind::CortexM7)), "M7");
    assert_eq!(core_name(&ProcessorInfo::Symmetric(CoreKind::CortexM33)), "M33");
    // unmapped and asymmetric processors are non-fatal and yield no identifier
    assert_eq!(core_name(&ProcessorInfo::Symmetric(CoreKind::Other)), "");
    assert_eq!(core_name(&ProcessorInfo::Asymmetric), "");
}

fn mem(start: u32, size: u32, read: bool, write: bool, execute: bool, default: bool) -> MemoryInfo {
    MemoryInfo {
        start,
        size,
        access: MemoryAccess { read, write, execute },
        is_default: default,
        is_startup: false,
    }
}

#[test]
fn region_selection_takes_first_default_candidate() {
    let memories = vec![
        mem(0x1000_0000, 0x100, true, true, false, false), // not default
        mem(0x2000_0000, 0x1000, true, true, false, true), // the RAM pick
        mem(0x3000_0000, 0x1000, true, true, false, true), // later candidate loses
        mem(0x0800_0000, 0x1_0000, true, false, true, true), // the Flash pick
    ];
    let ram = select_ram(&memories).unwrap();
    assert_eq!(ram.start, 0x2000_0000);
    assert_eq!(ram.end, 0x2000_1000);
    let flash = select_flash_bounds(&memories).unwrap();
    assert_eq!(flash.start, 0x0800_0000);
    assert!(!flash.access.write);
}

#[test]
fn region_selection_never_takes_wrong_permissions() {
    // an executable default region is not RAM; a writable one is not Flash
    let memories = vec![
        mem(0x2000_0000, 0x1000, true, true, true, true),
        mem(0x0800_0000, 0x1000, true, true, true, true),
    ];
    assert!(select_ram(&memories).is_none());
    assert!(select_flash_bounds(&memories).is_none());
}

#[test]
fn absent_slots_are_omitted_not_fatal() {
    let mut families: Vec<ChipFamily> = Vec::new();
    // a device with no default RAM region: the map simply lacks a Ram entry
    let memories = vec![mem(0x0800_0000, 0x1_0000, true, false, true, true)];
    add_device_record(
        &mut families,
        "D1".to_string(),
        "F".to_string(),
        "M0".to_string(),
        {
            let flash = select_flash_bounds(&memories).unwrap();
            vec![MemoryRegion::Flash(target_gen::model::FlashRegion {
                start: flash.start,
                end: flash.start + flash.size,
                is_boot: flash.is_startup,
                page_size: 0,
                sector_size: 0,
                erased_byte_value: 0xFF,
            })]
        },
        Vec::new(),
    );
    assert_eq!(families.len(), 1);
    assert_eq!(families[0].variants[0].memory_map.len(), 1);
    assert!(matches!(families[0].variants[0].memory_map[0], MemoryRegion::Flash(_)));
}

fn plain_algo(name: &str, marker: u8) -> FlashAlgorithm {
    FlashAlgorithm {
        name: name.to_string(),
        is_default: false,
        code_blob: vec![marker],
        data_section_offset: 1,
        ram_usage: 513,
        function_table: FunctionTable {
            init: 0,
            uninit: 0,
            erase_chip: 0,
            erase_sector: 0,
            program_page: 0,
            verify: None,
            blank_check: None,
        },
        geometry: FlashGeometry {
            page_size: 256,
            sectors: Vec::new(),
            erase_timeout: 0,
            program_timeout: 0,
            erased_byte_value: 0xFF,
        },
        flash_base: 0,
        flash_size: 0,
    }
}

#[test]
fn merge_deduplicates_by_normalized_name_first_wins() {
    let cur = vec![plain_algo("alpha", 1)];
    let add = vec![plain_algo("ALPHA", 2), plain_algo("beta", 3), plain_algo("Beta", 4)];
    let merged = merge_algorithms(cur, add);
    assert_eq!(merged.len(), 2);
    assert_eq!(merged[0].name, "alpha");
    assert_eq!(merged[0].code_blob, vec![1]); // the first record won
    assert_eq!(merged[1].name, "beta");
    assert_eq!(merged[1].code_blob, vec![3]);
}

#[test]
fn registry_keeps_family_names_unique() {
    let mut families: Vec<ChipFamily> = Vec::new();
    add_device_record(
        &mut families,
        "D1".to_string(),
        "F".to_string(),
        "M4".to_string(),
        Vec::new(),
        vec![plain_algo("one", 1)],
    );
    add_device_record(
        &mut families,
        "D2".to_string(),
        "F".to_string(),
        "M3".to_string(),
        Vec::new(),
        vec![plain_algo("one", 9), plain_algo("two", 2)],
    );
    assert_eq!(families.len(), 1);
    let family = &families[0];
    assert_eq!(family.name, "F");
    // the family keeps the core of the first device that created it
    assert_eq!(family.core, "M4");
    assert_eq!(family.variants.len(), 2);
    assert_eq!(family.variants[0].name, "D1");
    assert_eq!(family.variants[1].name, "D2");
    assert_eq!(family.flash_algorithms.len(), 2);
    assert_eq!(family.flash_algorithms[0].code_blob, vec![1]);
    // the second device's record references the shared algorithm by name
    assert_eq!(family.variants[1].flash_algorithm_refs, vec![
        "one".to_string(),
        "two".to_string()
    ]);
}

fn tiny_device(name: &str) -> DeviceInfo {
    DeviceInfo {
        name: name.to_string(),
        family: "F".to_string(),
        memories: Vec::new(),
        algorithms: Vec::<AlgorithmRef>::new(),
        processor: ProcessorInfo::Asymmetric,
    }
}

#[test]
fn aggregation_order_does_not_change_the_family_content() {
    // two devices of one family, whose algorithm lists agree on shared
    // normalized names, merged in either order
    let d1_algos = || vec![plain_algo("one", 1), plain_algo("shared", 5)];
    let d2_algos = || vec![plain_algo("two", 2), plain_algo("shared", 5)];
    let add = |families: &mut Vec<ChipFamily>, name: &str, algos: Vec<FlashAlgorithm>| {
        add_device_record(
            families,
            name.to_string(),
            "F".to_string(),
            "M4".to_string(),
            Vec::new(),
            algos,
        );
    };
    let mut forward: Vec<ChipFamily> = Vec::new();
    add(&mut forward, "D1", d1_algos());
    add(&mut forward, "D2", d2_algos());
    let mut backward: Vec<ChipFamily> = Vec::new();
    add(&mut backward, "D2", d2_algos());
    add(&mut backward, "D1", d1_algos());

    let names = |families: &Vec<ChipFamily>, pick: fn(&ChipFamily) -> Vec<String>| {
        let mut v = pick(&families[0]);
        v.sort();
        v
    };
    let algo_names =
        |f: &ChipFamily| f.flash_algorithms.iter().map(|a| a.name.clone()).collect::<Vec<_>>();
    let variant_names =
        |f: &ChipFamily| f.variants.iter().map(|c| c.name.clone()).collect::<Vec<_>>();
    assert_eq!(forward.len(), 1);
    assert_eq!(backward.len(), 1);
    assert_eq!(names(&forward, algo_names), names(&backward, algo_names));
    assert_eq!(names(&forward, algo_names), vec!["one", "shared", "two"]);
    assert_eq!(names(&forward, variant_names), names(&backward, variant_names));
}

#[test]
fn device_sorting_is_by_name() {
    let sorted = sort_devices_by_name(vec![
        tiny_device("STM32F429"),
        tiny_device("STM32F405"),
        tiny_device("LPC1768"),
    ]);
    let names: Vec<&str> = sorted.iter().map(|d| d.name.as_str()).collect();
    assert_eq!(names, vec!["LPC1768", "STM32F405", "STM32F429"]);
}

#[test]
fn locations_resolve_against_the_download_base() {
    let base = "https://packs.example.com/pack/";
    assert_eq!(
        resolve_location(base, "Vendor.Pack.1.0.0.pack"),
        "https://packs.example.com/pack/Vendor.Pack.1.0.0.pack"
    );
    assert_eq!(
        resolve_location(base, "https://mirror.example.org/x.pack"),
        "https://mirror.example.org/x.pack"
    );
    assert_eq!(resolve_location(base, "http://plain.example.org/y.pack"), "http://plain.example.org/y.pack");
}

#[test]
fn descriptor_paths_keep_exactly_the_descriptors() {
    let paths = vec![
        "a/readme.txt".to_string(),
        "a/Vendor.One.pdsc".to_string(),
        "a/b/deep/Vendor.Two.pdsc".to_string(),
        "a/b/algo.flm".to_string(),
        "c/Vendor.Three.pdsc".to_string(),
    ];
    let descriptors = descriptor_paths(paths);
    assert_eq!(descriptors, vec![
        "a/Vendor.One.pdsc".to_string(),
        "a/b/deep/Vendor.Two.pdsc".to_string(),
        "c/Vendor.Three.pdsc".to_string(),
    ]);
}
