//! Extraction of one flash-algorithm record from an ELF-format image that
//! follows the CMSIS flash-loader convention: `PrgCode` and `PrgData`
//! sections, a `FlashDevice` descriptor symbol giving the device geometry,
//! and named entry-point symbols.
//!
//! Extraction is given an exact contract: the returned record (or error) is
//! a function of the input bytes, the file name and the default flag alone,
//! so re-extracting identical input yields an identical record.

use vstd::prelude::*;
use crate::bytes::{le16, le32, read_u16, read_u32};
use crate::elf::{
    SectionHeader, Symbol, header_valid, name_matches_at, section_bytes, section_in_bounds,
    spec_find_containing, spec_find_kind, spec_find_section, spec_find_symbol, spec_section,
    spec_shnum, spec_shstrndx, spec_strtab, spec_symbol, spec_symbol_count, check_header,
    copy_range, find_containing, find_kind, find_section, find_symbol, read_section, read_symbol,
};
use crate::error::ExtractionError;
use crate::names::{algorithm_name, algorithm_name_of};

verus! {

/// Bytes reserved for the algorithm's stack when computing its RAM need.
pub const STACK_BYTES: u64 = 512;

/// Offset of the declared flash base address inside the descriptor.
pub const DESC_ADDR_OFF: usize = 132;

/// Offset of the declared flash size inside the descriptor.
pub const DESC_SIZE_OFF: usize = 136;

/// Offset of the default page size inside the descriptor.
pub const DESC_PAGE_OFF: usize = 140;

/// Offset of the erased-byte fill value inside the descriptor.
pub const DESC_ERASED_OFF: usize = 148;

/// Offset of the program timeout inside the descriptor.
pub const DESC_PROG_TO_OFF: usize = 152;

/// Offset of the erase timeout inside the descriptor.
pub const DESC_ERASE_TO_OFF: usize = 156;

/// Length of the fixed part of the descriptor, before the sector table.
pub const DESC_FIXED_LEN: usize = 160;

/// One tier of the erase-sector table: sectors of `size` bytes start at
/// `address` (relative to the flash base).
#[derive(Clone, Copy, Debug, PartialEq, Eq, Structural)]
pub struct SectorInfo {
    pub size: u32,
    pub address: u32,
}

/// Entry-point offsets relative to the start of the code blob.
#[derive(Clone, Copy, Debug)]
pub struct FunctionTable {
    pub init: u32,
    pub uninit: u32,
    pub erase_chip: u32,
    pub erase_sector: u32,
    pub program_page: u32,
    pub verify: Option<u32>,
    pub blank_check: Option<u32>,
}

/// Device geometry decoded from the descriptor symbol.
#[derive(Clone, Debug)]
pub struct FlashGeometry {
    pub page_size: u32,
    pub sectors: Vec<SectorInfo>,
    pub erase_timeout: u32,
    pub program_timeout: u32,
    pub erased_byte_value: u8,
}

/// One normalized flash-algorithm record.
#[derive(Clone, Debug)]
pub struct FlashAlgorithm {
    /// Normalized (lower-cased file stem) name.
    pub name: String,
    /// The descriptor marked this algorithm as the default one.
    pub is_default: bool,
    /// Executable code bytes followed by initialized-data bytes.
    pub code_blob: Vec<u8>,
    /// Where the data section's bytes start inside the blob.
    pub data_section_offset: u32,
    /// Bytes of scratch RAM needed to host the blob, its stack and one page.
    pub ram_usage: u64,
    pub function_table: FunctionTable,
    pub geometry: FlashGeometry,
    /// Declared flash base address.
    pub flash_base: u32,
    /// Declared flash size in bytes.
    pub flash_size: u32,
}

/// The mathematical content of a flash-algorithm record.
pub struct AlgorithmModel {
    pub name: Seq<char>,
    pub is_default: bool,
    pub code: Seq<u8>,
    pub data_offset: int,
    pub ram_usage: int,
    pub init: int,
    pub uninit: int,
    pub erase_chip: int,
    pub erase_sector: int,
    pub program_page: int,
    pub verify: Option<int>,
    pub blank_check: Option<int>,
    pub page_size: int,
    pub sectors: Seq<SectorInfo>,
    pub erase_timeout: int,
    pub program_timeout: int,
    pub erased_byte_value: u8,
    pub flash_base: int,
    pub flash_size: int,
}

impl View for FlashAlgorithm {
    type V = AlgorithmModel;

    open spec fn view(&self) -> AlgorithmModel {
        AlgorithmModel {
            name: self.name@,
            is_default: self.is_default,
            code: self.code_blob@,
            data_offset: self.data_section_offset as int,
            ram_usage: self.ram_usage as int,
            init: self.function_table.init as int,
            uninit: self.function_table.uninit as int,
            erase_chip: self.function_table.erase_chip as int,
            erase_sector: self.function_table.erase_sector as int,
            program_page: self.function_table.program_page as int,
            verify: match self.function_table.verify {
                Some(v) => Some(v as int),
                None => None,
            },
            blank_check: match self.function_table.blank_check {
                Some(v) => Some(v as int),
                None => None,
            },
            page_size: self.geometry.page_size as int,
            sectors: self.geometry.sectors@,
            erase_timeout: self.geometry.erase_timeout as int,
            program_timeout: self.geometry.program_timeout as int,
            erased_byte_value: self.geometry.erased_byte_value,
            flash_base: self.flash_base as int,
            flash_size: self.flash_size as int,
        }
    }
}

impl DeepView for FlashAlgorithm {
    type V = AlgorithmModel;

    open spec fn deep_view(&self) -> AlgorithmModel {
        self.view()
    }
}

/// The record-or-error result of extraction, at the mathematical level.
pub open spec fn result_model(r: Result<FlashAlgorithm, ExtractionError>) -> Result<
    AlgorithmModel,
    ExtractionError,
> {
    match r {
        Ok(a) => Ok(a@),
        Err(e) => Err(e),
    }
}

/// The section or symbol name `PrgCode` as bytes.
pub open spec fn prg_code_name() -> Seq<u8> {
    seq![0x50, 0x72, 0x67, 0x43, 0x6f, 0x64, 0x65]
}

fn prg_code_bytes() -> (v: Vec<u8>)
    ensures
        v@ == prg_code_name(),
{
    let v: Vec<u8> = vec![0x50u8, 0x72, 0x67, 0x43, 0x6f, 0x64, 0x65];
    proof {
        assert(v@ =~= prg_code_name());
    }
    v
}

/// The section or symbol name `PrgData` as bytes.
pub open spec fn prg_data_name() -> Seq<u8> {
    seq![0x50, 0x72, 0x67, 0x44, 0x61, 0x74, 0x61]
}

fn prg_data_bytes() -> (v: Vec<u8>)
    ensures
        v@ == prg_data_name(),
{
    let v: Vec<u8> = vec![0x50u8, 0x72, 0x67, 0x44, 0x61, 0x74, 0x61];
    proof {
        assert(v@ =~= prg_data_name());
    }
    v
}

/// The symbol name `Init` as bytes.
pub open spec fn init_name() -> Seq<u8> {
    seq![0x49, 0x6e, 0x69, 0x74]
}

fn init_bytes() -> (v: Vec<u8>)
    ensures
        v@ == init_name(),
{
    let v: Vec<u8> = vec![0x49u8, 0x6e, 0x69, 0x74];
    proof {
        assert(v@ =~= init_name());
    }
    v
}

/// The symbol name `UnInit` as bytes.
pub open spec fn un_init_name() -> Seq<u8> {
    seq![0x55, 0x6e, 0x49, 0x6e, 0x69, 0x74]
}

fn un_init_bytes() -> (v: Vec<u8>)
    ensures
        v@ == un_init_name(),
{
    let v: Vec<u8> = vec![0x55u8, 0x6e, 0x49, 0x6e, 0x69, 0x74];
    proof {
        assert(v@ =~= un_init_name());
    }
    v
}

/// The symbol name `EraseChip` as bytes.
pub open spec fn erase_chip_name() -> Seq<u8> {
    seq![0x45, 0x72, 0x61, 0x73, 0x65, 0x43, 0x68, 0x69, 0x70]
}

fn erase_chip_bytes() -> (v: Vec<u8>)
    ensures
        v@ == erase_chip_name(),
{
    let v: Vec<u8> = vec![0x45u8, 0x72, 0x61, 0x73, 0x65, 0x43, 0x68, 0x69, 0x70];
    proof {
        assert(v@ =~= erase_chip_name());
    }
    v
}

/// The symbol name `EraseSector` as bytes.
pub open spec fn erase_sector_name() -> Seq<u8> {
    seq![0x45, 0x72, 0x61, 0x73, 0x65, 0x53, 0x65, 0x63, 0x74, 0x6f, 0x72]
}

fn erase_sector_bytes() -> (v: Vec<u8>)
    ensures
        v@ == erase_sector_name(),
{
    let v: Vec<u8> = vec![0x45u8, 0x72, 0x61, 0x73, 0x65, 0x53, 0x65, 0x63, 0x74, 0x6f, 0x72];
    proof {
        assert(v@ =~= erase_sector_name());
    }
    v
}

/// The symbol name `ProgramPage` as bytes.
pub open spec fn program_page_name() -> Seq<u8> {
    seq![0x50, 0x72, 0x6f, 0x67, 0x72, 0x61, 0x6d, 0x50, 0x61, 0x67, 0x65]
}

fn program_page_bytes() -> (v: Vec<u8>)
    ensures
        v@ == program_page_name(),
{
    let v: Vec<u8> = vec![0x50u8, 0x72, 0x6f, 0x67, 0x72, 0x61, 0x6d, 0x50, 0x61, 0x67, 0x65];
    proof {
        assert(v@ =~= program_page_name());
    }
    v
}

/// The symbol name `Verify` as bytes.
pub open spec fn verify_name() -> Seq<u8> {
    seq![0x56, 0x65, 0x72, 0x69, 0x66, 0x79]
}

fn verify_bytes() -> (v: Vec<u8>)
    ensures
        v@ == verify_name(),
{
    let v: Vec<u8> = vec![0x56u8, 0x65, 0x72, 0x69, 0x66, 0x79];
    proof {
        assert(v@ =~= verify_name());
    }
    v
}

/// The symbol name `BlankCheck` as bytes.
pub open spec fn blank_check_name() -> Seq<u8> {
    seq![0x42, 0x6c, 0x61, 0x6e, 0x6b, 0x43, 0x68, 0x65, 0x63, 0x6b]
}

fn blank_check_bytes() -> (v: Vec<u8>)
    ensures
        v@ == blank_check_name(),
{
    let v: Vec<u8> = vec![0x42u8, 0x6c, 0x61, 0x6e, 0x6b, 0x43, 0x68, 0x65, 0x63, 0x6b];
    proof {
        assert(v@ =~= blank_check_name());
    }
    v
}

/// The symbol name `FlashDevice` as bytes.
pub open spec fn flash_device_name() -> Seq<u8> {
    seq![0x46, 0x6c, 0x61, 0x73, 0x68, 0x44, 0x65, 0x76, 0x69, 0x63, 0x65]
}

fn flash_device_bytes() -> (v: Vec<u8>)
    ensures
        v@ == flash_device_name(),
{
    let v: Vec<u8> = vec![0x46u8, 0x6c, 0x61, 0x73, 0x68, 0x44, 0x65, 0x76, 0x69, 0x63, 0x65];
    proof {
        assert(v@ =~= flash_device_name());
    }
    v
}

/// The sector table stored at `off .. end`: consecutive 8-byte entries up to
/// a terminator entry of all-ones words; `None` when the terminator is
/// missing.
pub open spec fn spec_sectors(b: Seq<u8>, off: int, end: int) -> Option<Seq<SectorInfo>>
    decreases end - off,
{
    if off + 8 > end {
        None
    } else if le32(b, off) == 0xFFFFFFFF && le32(b, off + 4) == 0xFFFFFFFF {
        Some(Seq::empty())
    } else {
        match spec_sectors(b, off + 8, end) {
            None => None,
            Some(rest) => Some(
                seq![SectorInfo { size: le32(b, off) as u32, address: le32(b, off + 4) as u32 }]
                    + rest,
            ),
        }
    }
}

/// Where the tier at index `i` ends: at the next tier's start address, or at
/// the flash size for the last tier.
pub open spec fn tier_end(sectors: Seq<SectorInfo>, i: int, flash_size: int) -> int {
    if i + 1 < sectors.len() {
        sectors[i + 1].address as int
    } else {
        flash_size
    }
}

/// The sector table tiles the declared flash size exactly: the first tier
/// starts at zero, every tier is non-empty and ends where the next begins
/// (the last at the flash size), and every tier's span is a whole number of
/// its sectors.
pub open spec fn geometry_consistent(sectors: Seq<SectorInfo>, flash_size: int) -> bool {
    &&& sectors.len() > 0
    &&& sectors[0].address == 0
    &&& (forall|i: int|
        0 <= i < sectors.len() ==> {
            let s = #[trigger] sectors[i];
            &&& s.size > 0
            &&& s.address < tier_end(sectors, i, flash_size)
            &&& (tier_end(sectors, i, flash_size) - s.address) % (s.size as int) == 0
        })
}

/// Reads the sector table stored at `start .. end`.
pub fn parse_sectors(b: &[u8], start: usize, end: usize) -> (r: Option<Vec<SectorInfo>>)
    requires
        start <= end <= b@.len(),
    ensures
        match r {
            Some(v) => spec_sectors(b@, start as int, end as int) == Some(v@),
            None => spec_sectors(b@, start as int, end as int) is None,
        },
{
    let total: usize = b.len();
    let mut acc: Vec<SectorInfo> = Vec::new();
    let mut cur: usize = start;
    while end - cur >= 8
        invariant
            total == b@.len(),
            start <= cur <= end <= b@.len(),
            match spec_sectors(b@, cur as int, end as int) {
                Some(rest) => spec_sectors(b@, start as int, end as int) == Some(acc@ + rest),
                None => spec_sectors(b@, start as int, end as int) is None,
            },
        decreases end - cur,
    {
        let size: u32 = read_u32(b, cur);
        let address: u32 = read_u32(b, cur + 4);
        if size == 0xFFFFFFFF && address == 0xFFFFFFFF {
            proof {
                assert(acc@ + Seq::<SectorInfo>::empty() =~= acc@);
            }
            return Some(acc);
        }
        let item = SectorInfo { size, address };
        acc.push(item);
        proof {
            match spec_sectors(b@, cur + 8, end as int) {
                Some(rest) => {
                    assert(acc@ + rest =~= acc@.drop_last() + (seq![item] + rest));
                },
                None => {},
            }
        }
        cur = cur + 8;
    }
    None
}

/// Checks that the sector table tiles the declared flash size.
pub fn check_geometry(sectors: &Vec<SectorInfo>, flash_size: u32) -> (r: bool)
    ensures
        r == geometry_consistent(sectors@, flash_size as int),
{
    let n: usize = sectors.len();
    if n == 0 {
        return false;
    }
    if sectors[0].address != 0 {
        return false;
    }
    let mut i: usize = 0;
    while i < n
        invariant
            n == sectors@.len(),
            i <= n,
            n > 0,
            sectors@[0].address == 0,
            forall|j: int|
                0 <= j < i ==> {
                    let s = #[trigger] sectors@[j];
                    &&& s.size > 0
                    &&& s.address < tier_end(sectors@, j, flash_size as int)
                    &&& (tier_end(sectors@, j, flash_size as int) - s.address) % (s.size as int)
                        == 0
                },
        decreases n - i,
    {
        let s = sectors[i];
        if s.size == 0 {
            return false;
        }
        let end: u32 = if i + 1 < n {
            sectors[i + 1].address
        } else {
            flash_size
        };
        if !(s.address < end) {
            return false;
        }
        if (end - s.address) % s.size != 0 {
            return false;
        }
        i = i + 1;
    }
    true
}

/// What extraction finds for one entry-point symbol that must be present:
/// its offset relative to the code blob's base, required to lie inside the
/// blob.
pub open spec fn spec_required_offset(
    b: Seq<u8>,
    symtab: SectionHeader,
    symstr: SectionHeader,
    name: Seq<u8>,
    code: SectionHeader,
    blob_len: int,
) -> Result<int, ExtractionError> {
    match spec_find_symbol(b, symtab, symstr, name, 0) {
        None => Err(ExtractionError::InvalidImage),
        Some(sym) => if code.addr <= sym.value && sym.value - code.addr < blob_len {
            Ok(sym.value - code.addr)
        } else {
            Err(ExtractionError::InvalidImage)
        },
    }
}

/// What extraction finds for one entry-point symbol that may be absent.
pub open spec fn spec_optional_offset(
    b: Seq<u8>,
    symtab: SectionHeader,
    symstr: SectionHeader,
    name: Seq<u8>,
    code: SectionHeader,
    blob_len: int,
) -> Result<Option<int>, ExtractionError> {
    match spec_find_symbol(b, symtab, symstr, name, 0) {
        None => Ok(None),
        Some(sym) => if code.addr <= sym.value && sym.value - code.addr < blob_len {
            Ok(Some(sym.value - code.addr))
        } else {
            Err(ExtractionError::InvalidImage)
        },
    }
}

/// The decoded entry-point table, at the mathematical level.
pub struct TableModel {
    pub init: int,
    pub uninit: int,
    pub erase_chip: int,
    pub erase_sector: int,
    pub program_page: int,
    pub verify: Option<int>,
    pub blank_check: Option<int>,
}

/// Decodes the whole entry-point table from the symbol table.
pub open spec fn spec_table(
    b: Seq<u8>,
    symtab: SectionHeader,
    symstr: SectionHeader,
    code: SectionHeader,
    blob_len: int,
) -> Result<TableModel, ExtractionError> {
    match spec_required_offset(b, symtab, symstr, init_name(), code, blob_len) {
        Err(e) => Err(e),
        Ok(init) => match spec_required_offset(b, symtab, symstr, un_init_name(), code, blob_len) {
            Err(e) => Err(e),
            Ok(uninit) => match spec_required_offset(
                b,
                symtab,
                symstr,
                erase_chip_name(),
                code,
                blob_len,
            ) {
                Err(e) => Err(e),
                Ok(erase_chip) => match spec_required_offset(
                    b,
                    symtab,
                    symstr,
                    erase_sector_name(),
                    code,
                    blob_len,
                ) {
                    Err(e) => Err(e),
                    Ok(erase_sector) => match spec_required_offset(
                        b,
                        symtab,
                        symstr,
                        program_page_name(),
                        code,
                        blob_len,
                    ) {
                        Err(e) => Err(e),
                        Ok(program_page) => match spec_optional_offset(
                            b,
                            symtab,
                            symstr,
                            verify_name(),
                            code,
                            blob_len,
                        ) {
                            Err(e) => Err(e),
                            Ok(verify) => match spec_optional_offset(
                                b,
                                symtab,
                                symstr,
                                blank_check_name(),
                                code,
                                blob_len,
                            ) {
                                Err(e) => Err(e),
                                Ok(blank_check) => Ok(
                                    TableModel {
                                        init,
                                        uninit,
                                        erase_chip,
                                        erase_sector,
                                        program_page,
                                        verify,
                                        blank_check,
                                    },
                                ),
                            },
                        },
                    },
                },
            },
        },
    }
}

/// The bytes of the initialized-data section, or empty when the image has no
/// such section.
pub open spec fn spec_data_bytes(b: Seq<u8>) -> Seq<u8> {
    match spec_find_section(b, prg_data_name(), 0) {
        Some(di) => section_bytes(b, spec_section(b, di)),
        None => Seq::empty(),
    }
}

/// Decodes the descriptor found through the `FlashDevice` symbol and builds
/// the final record.
pub open spec fn spec_extract_desc(
    b: Seq<u8>,
    file_name: Seq<char>,
    is_default: bool,
    code: SectionHeader,
    data: Seq<u8>,
    symtab: SectionHeader,
    symstr: SectionHeader,
    table: TableModel,
) -> Result<AlgorithmModel, ExtractionError> {
    match spec_find_symbol(b, symtab, symstr, flash_device_name(), 0) {
        None => Err(ExtractionError::MissingDescriptor),
        Some(sym) => match spec_find_containing(b, sym.value as int, DESC_FIXED_LEN as int, 0) {
            None => Err(ExtractionError::MissingDescriptor),
            Some(si) => {
                let sec = spec_section(b, si);
                if !section_in_bounds(b, sec) {
                    Err(ExtractionError::InvalidImage)
                } else {
                    let desc = sec.offset + sym.value - sec.addr;
                    let flash_base = le32(b, desc + DESC_ADDR_OFF);
                    let flash_size = le32(b, desc + DESC_SIZE_OFF);
                    let page_size = le32(b, desc + DESC_PAGE_OFF);
                    let erased = b[desc + DESC_ERASED_OFF];
                    let program_timeout = le32(b, desc + DESC_PROG_TO_OFF);
                    let erase_timeout = le32(b, desc + DESC_ERASE_TO_OFF);
                    match spec_sectors(b, desc + DESC_FIXED_LEN, sec.offset + sec.size) {
                        None => Err(ExtractionError::InvalidImage),
                        Some(sectors) => if !geometry_consistent(sectors, flash_size) {
                            Err(ExtractionError::InconsistentGeometry)
                        } else {
                            Ok(
                                AlgorithmModel {
                                    name: algorithm_name(file_name),
                                    is_default,
                                    code: section_bytes(b, code) + data,
                                    data_offset: code.size as int,
                                    ram_usage: code.size + data.len() + STACK_BYTES + page_size,
                                    init: table.init,
                                    uninit: table.uninit,
                                    erase_chip: table.erase_chip,
                                    erase_sector: table.erase_sector,
                                    program_page: table.program_page,
                                    verify: table.verify,
                                    blank_check: table.blank_check,
                                    page_size,
                                    sectors,
                                    erase_timeout,
                                    program_timeout,
                                    erased_byte_value: erased,
                                    flash_base,
                                    flash_size,
                                },
                            )
                        },
                    }
                }
            },
        },
    }
}

/// Extraction once the code section and data bytes are known: locate the
/// symbol table, decode the entry-point table, then the descriptor.
pub open spec fn spec_extract_syms(
    b: Seq<u8>,
    file_name: Seq<char>,
    is_default: bool,
    code: SectionHeader,
    data: Seq<u8>,
) -> Result<AlgorithmModel, ExtractionError> {
    match spec_find_kind(b, 2, 0) {
        None => Err(ExtractionError::InvalidImage),
        Some(si) => {
            let symtab = spec_section(b, si);
            if !(symtab.link < spec_shnum(b)) {
                Err(ExtractionError::InvalidImage)
            } else {
                let symstr = spec_section(b, symtab.link as int);
                if !section_in_bounds(b, symtab) || !section_in_bounds(b, symstr) {
                    Err(ExtractionError::InvalidImage)
                } else {
                    match spec_table(b, symtab, symstr, code, code.size + data.len()) {
                        Err(e) => Err(e),
                        Ok(table) => spec_extract_desc(
                            b,
                            file_name,
                            is_default,
                            code,
                            data,
                            symtab,
                            symstr,
                            table,
                        ),
                    }
                }
            }
        },
    }
}

/// What extraction yields for an image: the normalized record, or the first
/// error the decoding pass meets.
pub open spec fn spec_extract(b: Seq<u8>, file_name: Seq<char>, is_default: bool) -> Result<
    AlgorithmModel,
    ExtractionError,
> {
    if !header_valid(b) {
        Err(ExtractionError::InvalidImage)
    } else if !section_in_bounds(b, spec_strtab(b)) {
        Err(ExtractionError::InvalidImage)
    } else {
        match spec_find_section(b, prg_code_name(), 0) {
            None => Err(ExtractionError::MissingSection),
            Some(ci) => {
                let code = spec_section(b, ci);
                if !section_in_bounds(b, code) {
                    Err(ExtractionError::InvalidImage)
                } else {
                    match spec_find_section(b, prg_data_name(), 0) {
                        Some(di) => {
                            let dsec = spec_section(b, di);
                            if !section_in_bounds(b, dsec) {
                                Err(ExtractionError::InvalidImage)
                            } else {
                                spec_extract_syms(
                                    b,
                                    file_name,
                                    is_default,
                                    code,
                                    section_bytes(b, dsec),
                                )
                            }
                        },
                        None => spec_extract_syms(b, file_name, is_default, code, Seq::empty()),
                    }
                }
            },
        }
    }
}

/// Looks up one required entry-point symbol and turns it into a blob offset.
fn required_offset(
    b: &[u8],
    symtab: SectionHeader,
    symstr: SectionHeader,
    name: &[u8],
    code: SectionHeader,
    blob_len: u64,
) -> (r: Result<u32, ExtractionError>)
    requires
        section_in_bounds(b@, symtab),
        section_in_bounds(b@, symstr),
        blob_len <= 0x2_0000_0000,
    ensures
        match r {
            Ok(off) => spec_required_offset(b@, symtab, symstr, name@, code, blob_len as int)
                == Ok::<int, ExtractionError>(off as int),
            Err(e) => spec_required_offset(b@, symtab, symstr, name@, code, blob_len as int)
                == Err::<int, ExtractionError>(e),
        },
{
    match find_symbol(b, symtab, symstr, name) {
        None => Err(ExtractionError::InvalidImage),
        Some(sym) => {
            if code.addr <= sym.value && ((sym.value - code.addr) as u64) < blob_len {
                Ok(sym.value - code.addr)
            } else {
                Err(ExtractionError::InvalidImage)
            }
        },
    }
}

/// Looks up one optional entry-point symbol and turns it into a blob offset.
fn optional_offset(
    b: &[u8],
    symtab: SectionHeader,
    symstr: SectionHeader,
    name: &[u8],
    code: SectionHeader,
    blob_len: u64,
) -> (r: Result<Option<u32>, ExtractionError>)
    requires
        section_in_bounds(b@, symtab),
        section_in_bounds(b@, symstr),
        blob_len <= 0x2_0000_0000,
    ensures
        match r {
            Ok(off) => spec_optional_offset(b@, symtab, symstr, name@, code, blob_len as int)
                == Ok::<Option<int>, ExtractionError>(
                match off {
                    Some(o) => Some(o as int),
                    None => None,
                },
            ),
            Err(e) => spec_optional_offset(b@, symtab, symstr, name@, code, blob_len as int)
                == Err::<Option<int>, ExtractionError>(e),
        },
{
    match find_symbol(b, symtab, symstr, name) {
        None => Ok(None),
        Some(sym) => {
            if code.addr <= sym.value && ((sym.value - code.addr) as u64) < blob_len {
                Ok(Some(sym.value - code.addr))
            } else {
                Err(ExtractionError::InvalidImage)
            }
        },
    }
}

/// The mathematical content of a decoded entry-point table.
pub open spec fn table_model(ft: FunctionTable) -> TableModel {
    TableModel {
        init: ft.init as int,
        uninit: ft.uninit as int,
        erase_chip: ft.erase_chip as int,
        erase_sector: ft.erase_sector as int,
        program_page: ft.program_page as int,
        verify: match ft.verify {
            Some(v) => Some(v as int),
            None => None,
        },
        blank_check: match ft.blank_check {
            Some(v) => Some(v as int),
            None => None,
        },
    }
}

/// Decodes the whole entry-point table.
#[verifier::rlimit(60)]
fn decode_table(
    b: &[u8],
    symtab: SectionHeader,
    symstr: SectionHeader,
    code: SectionHeader,
    blob_len: u64,
) -> (r: Result<FunctionTable, ExtractionError>)
    requires
        section_in_bounds(b@, symtab),
        section_in_bounds(b@, symstr),
        blob_len <= 0x2_0000_0000,
    ensures
        match r {
            Ok(ft) => spec_table(b@, symtab, symstr, code, blob_len as int) == Ok::<
                TableModel,
                ExtractionError,
            >(table_model(ft)),
            Err(e) => spec_table(b@, symtab, symstr, code, blob_len as int) == Err::<
                TableModel,
                ExtractionError,
            >(e),
        },
{
    let init = match required_offset(b, symtab, symstr, init_bytes().as_slice(), code, blob_len) {
        Ok(v) => v,
        Err(e) => {
            return Err(e);
        },
    };
    let uninit = match required_offset(
        b,
        symtab,
        symstr,
        un_init_bytes().as_slice(),
        code,
        blob_len,
    ) {
        Ok(v) => v,
        Err(e) => {
            return Err(e);
        },
    };
    let erase_chip = match required_offset(
        b,
        symtab,
        symstr,
        erase_chip_bytes().as_slice(),
        code,
        blob_len,
    ) {
        Ok(v) => v,
        Err(e) => {
            return Err(e);
        },
    };
    let erase_sector = match required_offset(
        b,
        symtab,
        symstr,
        erase_sector_bytes().as_slice(),
        code,
        blob_len,
    ) {
        Ok(v) => v,
        Err(e) => {
            return Err(e);
        },
    };
    let program_page = match required_offset(
        b,
        symtab,
        symstr,
        program_page_bytes().as_slice(),
        code,
        blob_len,
    ) {
        Ok(v) => v,
        Err(e) => {
            return Err(e);
        },
    };
    let verify = match optional_offset(
        b,
        symtab,
        symstr,
        verify_bytes().as_slice(),
        code,
        blob_len,
    ) {
        Ok(v) => v,
        Err(e) => {
            return Err(e);
        },
    };
    let blank_check = match optional_offset(
        b,
        symtab,
        symstr,
        blank_check_bytes().as_slice(),
        code,
        blob_len,
    ) {
        Ok(v) => v,
        Err(e) => {
            return Err(e);
        },
    };
    Ok(FunctionTable { init, uninit, erase_chip, erase_sector, program_page, verify, blank_check })
}

/// Locates and decodes the descriptor, then assembles the final record.
#[verifier::rlimit(60)]
fn decode_desc(
    b: &[u8],
    file_name: &str,
    is_default: bool,
    code: SectionHeader,
    data_bytes: Vec<u8>,
    symtab: SectionHeader,
    symstr: SectionHeader,
    ft: FunctionTable,
) -> (r: Result<FlashAlgorithm, ExtractionError>)
    requires
        b@.len() <= u32::MAX,
        header_valid(b@),
        section_in_bounds(b@, symtab),
        section_in_bounds(b@, symstr),
        section_in_bounds(b@, code),
        data_bytes@.len() <= u32::MAX,
    ensures
        result_model(r) == spec_extract_desc(
            b@,
            file_name@,
            is_default,
            code,
            data_bytes@,
            symtab,
            symstr,
            table_model(ft),
        ),
{
    let total: usize = b.len();
    let dev_sym = match find_symbol(b, symtab, symstr, flash_device_bytes().as_slice()) {
        None => {
            return Err(ExtractionError::MissingDescriptor);
        },
        Some(s) => s,
    };
    let sec = match find_containing(b, dev_sym.value, DESC_FIXED_LEN as u32) {
        None => {
            return Err(ExtractionError::MissingDescriptor);
        },
        Some(p) => p.1,
    };
    if !((sec.offset as u64) + (sec.size as u64) <= total as u64) {
        return Err(ExtractionError::InvalidImage);
    }
    proof {
        crate::elf::lemma_find_containing_props(
            b@,
            dev_sym.value as int,
            DESC_FIXED_LEN as int,
            0,
            spec_find_containing(b@, dev_sym.value as int, DESC_FIXED_LEN as int, 0)->Some_0,
        );
        assert(sec.addr <= dev_sym.value);
        assert(dev_sym.value + DESC_FIXED_LEN <= sec.addr + sec.size);
    }
    let desc: usize = (sec.offset as usize) + ((dev_sym.value - sec.addr) as usize);
    let flash_base: u32 = read_u32(b, desc + DESC_ADDR_OFF);
    let flash_size: u32 = read_u32(b, desc + DESC_SIZE_OFF);
    let page_size: u32 = read_u32(b, desc + DESC_PAGE_OFF);
    let erased: u8 = b[desc + DESC_ERASED_OFF];
    let program_timeout: u32 = read_u32(b, desc + DESC_PROG_TO_OFF);
    let erase_timeout: u32 = read_u32(b, desc + DESC_ERASE_TO_OFF);
    let sec_end: usize = (sec.offset as usize) + (sec.size as usize);
    let sectors = match parse_sectors(b, desc + DESC_FIXED_LEN, sec_end) {
        None => {
            return Err(ExtractionError::InvalidImage);
        },
        Some(v) => v,
    };
    if !check_geometry(&sectors, flash_size) {
        return Err(ExtractionError::InconsistentGeometry);
    }
    let mut code_blob = copy_range(b, code.offset as usize, code.size as usize);
    let mut data_tail = data_bytes;
    let data_len: usize = data_tail.len();
    code_blob.append(&mut data_tail);
    let name = algorithm_name_of(file_name);
    let ram_usage: u64 = (code.size as u64) + (data_len as u64) + STACK_BYTES + (page_size as u64);
    let result = FlashAlgorithm {
        name,
        is_default,
        code_blob,
        data_section_offset: code.size,
        ram_usage,
        function_table: ft,
        geometry: FlashGeometry {
            page_size,
            sectors,
            erase_timeout,
            program_timeout,
            erased_byte_value: erased,
        },
        flash_base,
        flash_size,
    };
    Ok(result)
}

/// For any image extraction accepts: the code blob is exactly the code
/// section's bytes followed by the data bytes, its length is the sum of the
/// included sections' lengths, and every entry-point offset of the function
/// table lies within the blob.
#[verifier::rlimit(60)]
pub proof fn lemma_extract_blob_wf(b: Seq<u8>, file_name: Seq<char>, is_default: bool)
    ensures
        spec_extract(b, file_name, is_default) matches Ok(m) ==> ({
            let code = spec_section(b, spec_find_section(b, prg_code_name(), 0)->Some_0);
            &&& spec_find_section(b, prg_code_name(), 0) is Some
            &&& m.code == section_bytes(b, code) + spec_data_bytes(b)
            &&& m.code.len() == code.size + spec_data_bytes(b).len()
            &&& m.data_offset == code.size
            &&& 0 <= m.init < m.code.len()
            &&& 0 <= m.uninit < m.code.len()
            &&& 0 <= m.erase_chip < m.code.len()
            &&& 0 <= m.erase_sector < m.code.len()
            &&& 0 <= m.program_page < m.code.len()
            &&& (m.verify matches Some(v) ==> 0 <= v < m.code.len())
            &&& (m.blank_check matches Some(v) ==> 0 <= v < m.code.len())
        }),
{
}

/// Decodes one flash-algorithm image into a normalized record.
///
/// The result is a function of the input bytes, the file name and the
/// default flag alone: the contract fixes it exactly, so extraction is
/// deterministic. An absent code section yields `MissingSection`, a missing
/// or unusable descriptor symbol yields `MissingDescriptor`, a sector table
/// that does not tile the declared flash size yields `InconsistentGeometry`,
/// and every other malformation (including an entry point outside the blob)
/// yields `InvalidImage`.
#[verifier::rlimit(60)]
pub fn extract_flash_algo(b: &[u8], file_name: &str, is_default: bool) -> (r: Result<
    FlashAlgorithm,
    ExtractionError,
>)
    requires
        b@.len() <= u32::MAX,
    ensures
        result_model(r) == spec_extract(b@, file_name@, is_default),
{
    let total: usize = b.len();
    if !check_header(b) {
        return Err(ExtractionError::InvalidImage);
    }
    let strtab = read_section(b, read_u16(b, 50) as usize);
    if !((strtab.offset as u64) + (strtab.size as u64) <= total as u64) {
        return Err(ExtractionError::InvalidImage);
    }
    let code_name = prg_code_bytes();
    let code = match find_section(b, code_name.as_slice()) {
        None => {
            return Err(ExtractionError::MissingSection);
        },
        Some(p) => p.1,
    };
    if !((code.offset as u64) + (code.size as u64) <= total as u64) {
        return Err(ExtractionError::InvalidImage);
    }
    let data_name = prg_data_bytes();
    let data_bytes: Vec<u8> = match find_section(b, data_name.as_slice()) {
        Some(p) => {
            let dsec = p.1;
            if !((dsec.offset as u64) + (dsec.size as u64) <= total as u64) {
                return Err(ExtractionError::InvalidImage);
            }
            copy_range(b, dsec.offset as usize, dsec.size as usize)
        },
        None => Vec::new(),
    };
    let symtab = match find_kind(b, 2) {
        None => {
            return Err(ExtractionError::InvalidImage);
        },
        Some(p) => p.1,
    };
    let shnum: u16 = read_u16(b, 48);
    if !(symtab.link < shnum as u32) {
        return Err(ExtractionError::InvalidImage);
    }
    let symstr = read_section(b, symtab.link as usize);
    if !((symtab.offset as u64) + (symtab.size as u64) <= total as u64) || !((symstr.offset as u64)
        + (symstr.size as u64) <= total as u64) {
        return Err(ExtractionError::InvalidImage);
    }
    let blob_len: u64 = (code.size as u64) + (data_bytes.len() as u64);
    let ft = match decode_table(b, symtab, symstr, code, blob_len) {
        Ok(ft) => ft,
        Err(e) => {
            return Err(e);
        },
    };
    decode_desc(b, file_name, is_default, code, data_bytes, symtab, symstr, ft)
}

} // verus!
