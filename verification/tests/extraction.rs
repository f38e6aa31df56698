use target_gen::algorithm::extract_flash_algo;
use target_gen::error::ExtractionError;
use target_gen::family::ChipFamily;
use target_gen::model::{
    AlgorithmRef, CoreKind, DeviceInfo, MemoryAccess, MemoryInfo, MemoryRegion, ProcessorInfo,
};
use target_gen::source::{run_batch, process_pack, PackContents, PackInput, PackOutcome};

fn p16(v: &mut Vec<u8>, x: u16) {
    v.extend_from_slice(&x.to_le_bytes());
}

fn p32(v: &mut Vec<u8>, x: u32) {
    v.extend_from_slice(&x.to_le_bytes());
}

struct FlmSpec {
    code_name_off: u32,
    flash_device_name_off: u32,
    sector_size: u32,
    page_size: u32,
    flash_size: u32,
}

impl FlmSpec {
    fn good() -> FlmSpec {
        FlmSpec {
            code_name_off: 1,
            flash_device_name_off: 54,
            sector_size: 2048,
            page_size: 1024,
            flash_size: 0x1_0000,
        }
    }
}

/// Builds a little 32-bit little-endian flash-loader image with `PrgCode`,
/// `PrgData` and `DevDscr` sections, a symbol table and both string tables.
fn build_flm(spec: &FlmSpec) -> Vec<u8> {
    let code: Vec<u8> = (0u8..32).collect();
    let data: Vec<u8> = vec![0xAA; 8];

    // descriptor: 160 fixed bytes, then the sector table.
    let mut desc = Vec::new();
    p16(&mut desc, 0x0101); // format version
    desc.extend_from_slice(&[0u8; 128]); // device name
    p16(&mut desc, 1); // device type
    p32(&mut desc, 0x0800_0000); // flash base
    p32(&mut desc, spec.flash_size); // flash size
    p32(&mut desc, spec.page_size); // page size
    p32(&mut desc, 0); // reserved
    desc.push(0xFF); // erased byte value
    desc.extend_from_slice(&[0u8; 3]); // padding
    p32(&mut desc, 100); // program timeout
    p32(&mut desc, 3000); // erase timeout
    p32(&mut desc, spec.sector_size);
    p32(&mut desc, 0);
    p32(&mut desc, 0xFFFF_FFFF);
    p32(&mut desc, 0xFFFF_FFFF);

    // symbol string table
    let mut symstr = vec![0u8];
    for name in ["Init", "UnInit", "EraseChip", "EraseSector", "ProgramPage", "Verify", "FlashDevice"] {
        symstr.extend_from_slice(name.as_bytes());
        symstr.push(0);
    }
    // name offsets: Init 1, UnInit 6, EraseChip 13, EraseSector 23,
    // ProgramPage 35, Verify 47, FlashDevice 54
    let mut symtab = Vec::new();
    let syms: [(u32, u32); 7] = [
        (1, 1),
        (6, 5),
        (13, 9),
        (23, 13),
        (35, 17),
        (47, 21),
        (spec.flash_device_name_off, 0x1000),
    ];
    for (name_off, value) in syms {
        p32(&mut symtab, name_off);
        p32(&mut symtab, value);
        p32(&mut symtab, 0);
        p32(&mut symtab, 0);
    }

    // section name table: PrgCode 1, PrgData 9, DevDscr 17, .symtab 25,
    // .strtab 33, .shstrtab 41
    let mut shstr = vec![0u8];
    for name in ["PrgCode", "PrgData", "DevDscr", ".symtab", ".strtab", ".shstrtab"] {
        shstr.extend_from_slice(name.as_bytes());
        shstr.push(0);
    }

    let code_off = 52u32;
    let data_off = code_off + code.len() as u32;
    let desc_off = data_off + data.len() as u32;
    let symtab_off = desc_off + desc.len() as u32;
    let symstr_off = symtab_off + symtab.len() as u32;
    let shstr_off = symstr_off + symstr.len() as u32;
    let shoff = shstr_off + shstr.len() as u32;

    let mut img = Vec::new();
    img.extend_from_slice(&[0x7f, 0x45, 0x4c, 0x46, 1, 1, 1, 0]);
    img.extend_from_slice(&[0u8; 8]); // identification padding
    p16(&mut img, 2); // object type
    p16(&mut img, 40); // machine
    p32(&mut img, 1); // version
    p32(&mut img, 0); // entry
    p32(&mut img, 0); // program-header offset
    p32(&mut img, shoff);
    p32(&mut img, 0); // flags
    p16(&mut img, 52); // header size
    p16(&mut img, 0); // program-header entry size
    p16(&mut img, 0); // program-header count
    p16(&mut img, 40); // section-header entry size
    p16(&mut img, 7); // section count
    p16(&mut img, 6); // section-name table index
    assert_eq!(img.len(), 52);

    img.extend_from_slice(&code);
    img.extend_from_slice(&data);
    img.extend_from_slice(&desc);
    img.extend_from_slice(&symtab);
    img.extend_from_slice(&symstr);
    img.extend_from_slice(&shstr);

    // (name_off, kind, addr, offset, size, link)
    let sections: [(u32, u32, u32, u32, u32, u32); 7] = [
        (0, 0, 0, 0, 0, 0),
        (spec.code_name_off, 1, 0, code_off, code.len() as u32, 0),
        (9, 1, 32, data_off, data.len() as u32, 0),
        (17, 1, 0x1000, desc_off, desc.len() as u32, 0),
        (25, 2, 0, symtab_off, symtab.len() as u32, 5),
        (33, 3, 0, symstr_off, symstr.len() as u32, 0),
        (41, 3, 0, shstr_off, shstr.len() as u32, 0),
    ];
    for (name_off, kind, addr, offset, size, link) in sections {
        p32(&mut img, name_off);
        p32(&mut img, kind);
        p32(&mut img, 0); // flags
        p32(&mut img, addr);
        p32(&mut img, offset);
        p32(&mut img, size);
        p32(&mut img, link);
        p32(&mut img, 0); // info
        p32(&mut img, 0); // alignment
        p32(&mut img, 0); // entry size
    }
    img
}

#[test]
fn extracts_well_formed_image() {
    let img = build_flm(&FlmSpec::good());
    let algo = extract_flash_algo(&img, "Algo.FLM", true).unwrap();
    assert_eq!(algo.name, "algo");
    assert!(algo.is_default);
    let mut expected_blob: Vec<u8> = (0u8..32).collect();
    expected_blob.extend_from_slice(&[0xAA; 8]);
    assert_eq!(algo.code_blob, expected_blob);
    assert_eq!(algo.data_section_offset, 32);
    assert_eq!(algo.ram_usage, 40 + 512 + 1024);
    assert_eq!(algo.function_table.init, 1);
    assert_eq!(algo.function_table.uninit, 5);
    assert_eq!(algo.function_table.erase_chip, 9);
    assert_eq!(algo.function_table.erase_sector, 13);
    assert_eq!(algo.function_table.program_page, 17);
    assert_eq!(algo.function_table.verify, Some(21));
    assert_eq!(algo.function_table.blank_check, None);
    assert_eq!(algo.geometry.page_size, 1024);
    assert_eq!(algo.geometry.sectors.len(), 1);
    assert_eq!(algo.geometry.sectors[0].size, 2048);
    assert_eq!(algo.geometry.sectors[0].address, 0);
    assert_eq!(algo.geometry.program_timeout, 100);
    assert_eq!(algo.geometry.erase_timeout, 3000);
    assert_eq!(algo.geometry.erased_byte_value, 0xFF);
    assert_eq!(algo.flash_base, 0x0800_0000);
    assert_eq!(algo.flash_size, 0x1_0000);
}

#[test]
fn blob_length_is_section_sum_and_offsets_in_range() {
    let img = build_flm(&FlmSpec::good());
    let algo = extract_flash_algo(&img, "Algo.FLM", false).unwrap();
    // code section is 32 bytes, data section 8 bytes
    assert_eq!(algo.code_blob.len(), 32 + 8);
    let len = algo.code_blob.len() as u32;
    assert!(algo.function_table.init < len);
    assert!(algo.function_table.uninit < len);
    assert!(algo.function_table.erase_chip < len);
    assert!(algo.function_table.erase_sector < len);
    assert!(algo.function_table.program_page < len);
    assert!(algo.function_table.verify.unwrap() < len);
}

#[test]
fn extraction_is_deterministic() {
    let img = build_flm(&FlmSpec::good());
    let a = extract_flash_algo(&img, "Algo.FLM", true).unwrap();
    let b = extract_flash_algo(&img, "Algo.FLM", true).unwrap();
    assert_eq!(a.name, b.name);
    assert_eq!(a.is_default, b.is_default);
    assert_eq!(a.code_blob, b.code_blob);
    assert_eq!(a.data_section_offset, b.data_section_offset);
    assert_eq!(a.ram_usage, b.ram_usage);
    assert_eq!(a.function_table.init, b.function_table.init);
    assert_eq!(a.function_table.uninit, b.function_table.uninit);
    assert_eq!(a.function_table.erase_chip, b.function_table.erase_chip);
    assert_eq!(a.function_table.erase_sector, b.function_table.erase_sector);
    assert_eq!(a.function_table.program_page, b.function_table.program_page);
    assert_eq!(a.function_table.verify, b.function_table.verify);
    assert_eq!(a.function_table.blank_check, b.function_table.blank_check);
    assert_eq!(a.geometry.page_size, b.geometry.page_size);
    assert_eq!(a.geometry.sectors, b.geometry.sectors);
    assert_eq!(a.geometry.erase_timeout, b.geometry.erase_timeout);
    assert_eq!(a.geometry.program_timeout, b.geometry.program_timeout);
    assert_eq!(a.geometry.erased_byte_value, b.geometry.erased_byte_value);
    assert_eq!(a.flash_base, b.flash_base);
    assert_eq!(a.flash_size, b.flash_size);
}

#[test]
fn rejects_bad_magic() {
    let mut img = build_flm(&FlmSpec::good());
    img[0] = 0x00;
    assert!(matches!(
        extract_flash_algo(&img, "Algo.FLM", false),
        Err(ExtractionError::InvalidImage)
    ));
}

#[test]
fn rejects_truncated_image() {
    assert!(matches!(
        extract_flash_algo(&[0x7f, 0x45], "Algo.FLM", false),
        Err(ExtractionError::InvalidImage)
    ));
}

#[test]
fn missing_code_section() {
    let mut spec = FlmSpec::good();
    spec.code_name_off = 25; // the code section claims the name ".symtab"
    let img = build_flm(&spec);
    assert!(matches!(
        extract_flash_algo(&img, "Algo.FLM", false),
        Err(ExtractionError::MissingSection)
    ));
}

#[test]
fn missing_descriptor_symbol() {
    let mut spec = FlmSpec::good();
    spec.flash_device_name_off = 47; // the descriptor symbol claims the name "Verify"
    let img = build_flm(&spec);
    assert!(matches!(
        extract_flash_algo(&img, "Algo.FLM", false),
        Err(ExtractionError::MissingDescriptor)
    ));
}

#[test]
fn inconsistent_sector_geometry() {
    let mut spec = FlmSpec::good();
    spec.sector_size = 1000; // does not divide the 64 KiB flash size
    let img = build_flm(&spec);
    assert!(matches!(
        extract_flash_algo(&img, "Algo.FLM", false),
        Err(ExtractionError::InconsistentGeometry)
    ));
}

fn access(read: bool, write: bool, execute: bool) -> MemoryAccess {
    MemoryAccess { read, write, execute }
}

fn demo_device(name: &str, family: &str) -> DeviceInfo {
    DeviceInfo {
        name: name.to_string(),
        family: family.to_string(),
        memories: vec![
            MemoryInfo {
                start: 0x2000_0000,
                size: 0x1000,
                access: access(true, true, false),
                is_default: true,
                is_startup: false,
            },
            MemoryInfo {
                start: 0x0800_0000,
                size: 0x1_0000,
                access: access(true, false, true),
                is_default: true,
                is_startup: false,
            },
        ],
        algorithms: vec![AlgorithmRef { file_name: "Algo.FLM".to_string(), is_default: true }],
        processor: ProcessorInfo::Symmetric(CoreKind::CortexM4),
    }
}

fn demo_contents() -> PackContents {
    let img = build_flm(&FlmSpec::good());
    PackContents::Members(vec![("Algo.FLM".to_string(), img)])
}

#[test]
fn end_to_end_single_device() {
    let mut families: Vec<ChipFamily> = Vec::new();
    let mut contents = demo_contents();
    let failed = process_pack(vec![demo_device("D1", "F")], &mut contents, &mut families);
    assert!(failed.is_empty());
    assert_eq!(families.len(), 1);
    let family = &families[0];
    assert_eq!(family.name, "F");
    assert_eq!(family.core, "M4");
    assert_eq!(family.flash_algorithms.len(), 1);
    assert_eq!(family.flash_algorithms[0].name, "algo");
    assert_eq!(family.variants.len(), 1);
    let chip = &family.variants[0];
    assert_eq!(chip.name, "D1");
    assert_eq!(chip.flash_algorithm_refs, vec!["algo".to_string()]);
    assert_eq!(chip.memory_map.len(), 2);
    match &chip.memory_map[0] {
        MemoryRegion::Ram(r) => {
            assert_eq!(r.start, 0x2000_0000);
            assert_eq!(r.end, 0x2000_1000);
            assert!(!r.is_boot);
        },
        other => panic!("expected a RAM region, got {:?}", other),
    }
    match &chip.memory_map[1] {
        MemoryRegion::Flash(f) => {
            assert_eq!(f.start, 0x0800_0000);
            assert_eq!(f.end, 0x0801_0000);
            assert_eq!(f.page_size, 1024);
            assert_eq!(f.sector_size, 2048);
            assert_eq!(f.erased_byte_value, 0xFF);
        },
        other => panic!("expected a Flash region, got {:?}", other),
    }
}

#[test]
fn devices_processed_in_name_order() {
    let mut families: Vec<ChipFamily> = Vec::new();
    let mut contents = demo_contents();
    let devices = vec![demo_device("D2", "F"), demo_device("D1", "F")];
    process_pack(devices, &mut contents, &mut families);
    assert_eq!(families.len(), 1);
    assert_eq!(families[0].variants.len(), 2);
    assert_eq!(families[0].variants[0].name, "D1");
    assert_eq!(families[0].variants[1].name, "D2");
    // the shared algorithm is deduplicated by normalized name
    assert_eq!(families[0].flash_algorithms.len(), 1);
}

#[test]
fn one_failed_pack_does_not_abort_the_batch() {
    let mut families: Vec<ChipFamily> = Vec::new();
    let packs = vec![
        PackInput::Loaded(vec![demo_device("D1", "F1")], demo_contents()),
        PackInput::Failed("download failed: pack2".to_string()),
        PackInput::Loaded(vec![demo_device("D9", "F9")], demo_contents()),
    ];
    let outcomes = run_batch(packs, &mut families);
    assert_eq!(outcomes.len(), 3);
    assert!(matches!(outcomes[0], PackOutcome::Processed));
    match &outcomes[1] {
        PackOutcome::Skipped(reason) => assert_eq!(reason, "download failed: pack2"),
        other => panic!("expected the failed pack to be skipped, got {:?}", other),
    }
    assert!(matches!(outcomes[2], PackOutcome::Processed));
    // both healthy packs contributed complete families
    assert_eq!(families.len(), 2);
    assert_eq!(families[0].name, "F1");
    assert_eq!(families[0].variants.len(), 1);
    assert_eq!(families[0].flash_algorithms.len(), 1);
    assert_eq!(families[1].name, "F9");
    assert_eq!(families[1].variants.len(), 1);
    assert_eq!(families[1].flash_algorithms.len(), 1);
}
