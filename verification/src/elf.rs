//! Decoding of the 32-bit little-endian ELF container that carries a flash
//! algorithm: header validation, the section-header table, string-table name
//! lookup, and the symbol table.

use vstd::prelude::*;
use crate::bytes::{le16, le32, read_u16, read_u32};

verus! {

/// The fields of one section header that the extractor reads.
#[derive(Clone, Copy, Debug, PartialEq, Eq, Structural)]
pub struct SectionHeader {
    /// Offset of the section's name in the section-name string table.
    pub name_off: u32,
    /// Section type tag.
    pub kind: u32,
    /// Load address of the section.
    pub addr: u32,
    /// Offset of the section's bytes in the image.
    pub offset: u32,
    /// Length of the section in bytes.
    pub size: u32,
    /// Index of an associated section (for a symbol table: its string table).
    pub link: u32,
}

/// One symbol-table entry.
#[derive(Clone, Copy, Debug, PartialEq, Eq, Structural)]
pub struct Symbol {
    /// Offset of the symbol's name in the symbol string table.
    pub name_off: u32,
    /// Address value of the symbol.
    pub value: u32,
}

/// Offset of the section-header table.
pub open spec fn spec_shoff(b: Seq<u8>) -> int {
    le32(b, 32)
}

/// Number of section headers.
pub open spec fn spec_shnum(b: Seq<u8>) -> int {
    le16(b, 48)
}

/// Index of the section-name string table.
pub open spec fn spec_shstrndx(b: Seq<u8>) -> int {
    le16(b, 50)
}

/// The image starts with a well-formed 32-bit little-endian ELF header whose
/// section-header table lies inside the image.
pub open spec fn header_valid(b: Seq<u8>) -> bool {
    &&& b.len() >= 52
    &&& b[0] == 0x7f
    &&& b[1] == 0x45  // 'E'
    &&& b[2] == 0x4c  // 'L'
    &&& b[3] == 0x46  // 'F'
    &&& b[4] == 1  // 32-bit class
    &&& b[5] == 1  // little-endian encoding
    &&& le16(b, 46) == 40  // section-header entry size
    &&& spec_shnum(b) > 0
    &&& spec_shoff(b) + 40 * spec_shnum(b) <= b.len()
    &&& spec_shstrndx(b) < spec_shnum(b)
}

/// The section header at index `i` of the table.
pub open spec fn spec_section(b: Seq<u8>, i: int) -> SectionHeader {
    let off = spec_shoff(b) + 40 * i;
    SectionHeader {
        name_off: le32(b, off) as u32,
        kind: le32(b, off + 4) as u32,
        addr: le32(b, off + 12) as u32,
        offset: le32(b, off + 16) as u32,
        size: le32(b, off + 20) as u32,
        link: le32(b, off + 24) as u32,
    }
}

/// The section-name string table.
pub open spec fn spec_strtab(b: Seq<u8>) -> SectionHeader {
    spec_section(b, spec_shstrndx(b))
}

/// The section's bytes lie inside the image.
pub open spec fn section_in_bounds(b: Seq<u8>, s: SectionHeader) -> bool {
    s.offset + s.size <= b.len()
}

/// The bytes of a section.
pub open spec fn section_bytes(b: Seq<u8>, s: SectionHeader) -> Seq<u8> {
    b.subrange(s.offset as int, s.offset + s.size)
}

/// The NUL-terminated name at offset `name_off` of string table `strtab`
/// is exactly `name`.
pub open spec fn name_matches_at(
    b: Seq<u8>,
    strtab: SectionHeader,
    name_off: int,
    name: Seq<u8>,
) -> bool {
    &&& name_off + name.len() + 1 <= strtab.size
    &&& (forall|j: int|
        0 <= j < name.len() ==> b[strtab.offset + name_off + j] == #[trigger] name[j])
    &&& b[strtab.offset + name_off + name.len()] == 0
}

/// Checks whether the image is a well-formed 32-bit little-endian ELF object
/// whose section-header table is in bounds.
pub fn check_header(b: &[u8]) -> (r: bool)
    ensures
        r == header_valid(b@),
{
    let n: usize = b.len();
    if n < 52 {
        return false;
    }
    if !(b[0] == 0x7f && b[1] == 0x45 && b[2] == 0x4c && b[3] == 0x46 && b[4] == 1 && b[5] == 1) {
        return false;
    }
    if read_u16(b, 46) != 40 {
        return false;
    }
    let shnum: u16 = read_u16(b, 48);
    if shnum == 0 {
        return false;
    }
    let shoff: u32 = read_u32(b, 32);
    if !((shoff as u64) + 40u64 * (shnum as u64) <= n as u64) {
        return false;
    }
    let shstrndx: u16 = read_u16(b, 50);
    shstrndx < shnum
}

/// Reads the section header at index `i`.
pub fn read_section(b: &[u8], i: usize) -> (s: SectionHeader)
    requires
        header_valid(b@),
        i < spec_shnum(b@),
    ensures
        s == spec_section(b@, i as int),
{
    let n: usize = b.len();
    let shoff: u32 = read_u32(b, 32);
    proof {
        assert(40 * (i as int) + 40 == 40 * (i + 1 as int));
        assert(40 * (i + 1 as int) <= 40 * spec_shnum(b@)) by (nonlinear_arith)
            requires
                i + 1 <= spec_shnum(b@),
        ;
        assert(shoff + 40 * (i as int) + 40 <= n);
    }
    let off: usize = (shoff as usize) + 40 * i;
    SectionHeader {
        name_off: read_u32(b, off),
        kind: read_u32(b, off + 4),
        addr: read_u32(b, off + 12),
        offset: read_u32(b, off + 16),
        size: read_u32(b, off + 20),
        link: read_u32(b, off + 24),
    }
}

/// Checks whether the NUL-terminated string at `name_off` of `strtab` is
/// exactly `name`.
pub fn name_matches(b: &[u8], strtab: SectionHeader, name_off: u32, name: &[u8]) -> (r: bool)
    requires
        section_in_bounds(b@, strtab),
    ensures
        r == name_matches_at(b@, strtab, name_off as int, name@),
{
    let blen: usize = b.len();
    let nlen: usize = name.len();
    if !((nlen as u64) <= strtab.size as u64) {
        return false;
    }
    if !((name_off as u64) + (nlen as u64) + 1 <= strtab.size as u64) {
        return false;
    }
    proof {
        assert(strtab.offset + name_off + nlen + 1 <= blen);
    }
    let base: usize = (strtab.offset as usize) + (name_off as usize);
    let mut j: usize = 0;
    while j < nlen
        invariant
            section_in_bounds(b@, strtab),
            blen == b@.len(),
            base == strtab.offset + name_off,
            nlen == name@.len(),
            name_off + nlen + 1 <= strtab.size,
            j <= nlen,
            forall|k: int| 0 <= k < j ==> b@[strtab.offset + name_off + k] == #[trigger] name@[k],
        decreases nlen - j,
    {
        if b[base + j] != name[j] {
            return false;
        }
        j = j + 1;
    }
    b[base + nlen] == 0
}

/// The first section at index `i` or beyond whose name is `name`.
pub open spec fn spec_find_section(b: Seq<u8>, name: Seq<u8>, i: int) -> Option<int>
    decreases spec_shnum(b) - i,
{
    if !(0 <= i < spec_shnum(b)) {
        None
    } else if name_matches_at(b, spec_strtab(b), spec_section(b, i).name_off as int, name) {
        Some(i)
    } else {
        spec_find_section(b, name, i + 1)
    }
}

/// Finds the first section named `name`.
pub fn find_section(b: &[u8], name: &[u8]) -> (r: Option<(usize, SectionHeader)>)
    requires
        header_valid(b@),
        section_in_bounds(b@, spec_strtab(b@)),
    ensures
        match r {
            Some(p) => {
                &&& spec_find_section(b@, name@, 0) == Some(p.0 as int)
                &&& p.1 == spec_section(b@, p.0 as int)
                &&& p.0 < spec_shnum(b@)
            },
            None => spec_find_section(b@, name@, 0) is None,
        },
{
    let shnum: u16 = read_u16(b, 48);
    let strtab = read_section(b, read_u16(b, 50) as usize);
    let mut i: usize = 0;
    while i < shnum as usize
        invariant
            header_valid(b@),
            section_in_bounds(b@, spec_strtab(b@)),
            strtab == spec_strtab(b@),
            shnum == spec_shnum(b@),
            i <= shnum,
            spec_find_section(b@, name@, 0) == spec_find_section(b@, name@, i as int),
        decreases shnum - i,
    {
        let s = read_section(b, i);
        if name_matches(b, strtab, s.name_off, name) {
            return Some((i, s));
        }
        i = i + 1;
    }
    None
}

/// The first section at index `i` or beyond whose type tag is `kind`.
pub open spec fn spec_find_kind(b: Seq<u8>, kind: int, i: int) -> Option<int>
    decreases spec_shnum(b) - i,
{
    if !(0 <= i < spec_shnum(b)) {
        None
    } else if spec_section(b, i).kind == kind {
        Some(i)
    } else {
        spec_find_kind(b, kind, i + 1)
    }
}

/// Finds the first section of type `kind` (the symbol table has type 2).
pub fn find_kind(b: &[u8], kind: u32) -> (r: Option<(usize, SectionHeader)>)
    requires
        header_valid(b@),
    ensures
        match r {
            Some(p) => {
                &&& spec_find_kind(b@, kind as int, 0) == Some(p.0 as int)
                &&& p.1 == spec_section(b@, p.0 as int)
                &&& p.0 < spec_shnum(b@)
            },
            None => spec_find_kind(b@, kind as int, 0) is None,
        },
{
    let shnum: u16 = read_u16(b, 48);
    let mut i: usize = 0;
    while i < shnum as usize
        invariant
            header_valid(b@),
            shnum == spec_shnum(b@),
            i <= shnum,
            spec_find_kind(b@, kind as int, 0) == spec_find_kind(b@, kind as int, i as int),
        decreases shnum - i,
    {
        let s = read_section(b, i);
        if s.kind == kind {
            return Some((i, s));
        }
        i = i + 1;
    }
    None
}

/// The number of 16-byte entries of a symbol table.
pub open spec fn spec_symbol_count(symtab: SectionHeader) -> int {
    symtab.size as int / 16
}

/// The symbol-table entry at index `i`.
pub open spec fn spec_symbol(b: Seq<u8>, symtab: SectionHeader, i: int) -> Symbol {
    let off = symtab.offset + 16 * i;
    Symbol { name_off: le32(b, off) as u32, value: le32(b, off + 4) as u32 }
}

/// Reads the symbol-table entry at index `i`.
pub fn read_symbol(b: &[u8], symtab: SectionHeader, i: usize) -> (s: Symbol)
    requires
        section_in_bounds(b@, symtab),
        i < spec_symbol_count(symtab),
    ensures
        s == spec_symbol(b@, symtab, i as int),
{
    let blen: usize = b.len();
    proof {
        assert(16 * (i as int) + 16 <= 16 * spec_symbol_count(symtab)) by (nonlinear_arith)
            requires
                i < spec_symbol_count(symtab),
        ;
        assert(16 * (symtab.size as int / 16) <= symtab.size as int) by (nonlinear_arith);
        assert(symtab.offset + 16 * (i as int) + 16 <= blen);
    }
    let off: usize = (symtab.offset as usize) + 16 * i;
    Symbol { name_off: read_u32(b, off), value: read_u32(b, off + 4) }
}

/// The first symbol at index `i` or beyond whose name is `name`.
pub open spec fn spec_find_symbol(
    b: Seq<u8>,
    symtab: SectionHeader,
    symstr: SectionHeader,
    name: Seq<u8>,
    i: int,
) -> Option<Symbol>
    decreases spec_symbol_count(symtab) - i,
{
    if !(0 <= i < spec_symbol_count(symtab)) {
        None
    } else if name_matches_at(b, symstr, spec_symbol(b, symtab, i).name_off as int, name) {
        Some(spec_symbol(b, symtab, i))
    } else {
        spec_find_symbol(b, symtab, symstr, name, i + 1)
    }
}

/// Finds the first symbol named `name`.
pub fn find_symbol(
    b: &[u8],
    symtab: SectionHeader,
    symstr: SectionHeader,
    name: &[u8],
) -> (r: Option<Symbol>)
    requires
        section_in_bounds(b@, symtab),
        section_in_bounds(b@, symstr),
    ensures
        r == spec_find_symbol(b@, symtab, symstr, name@, 0),
{
    let count: usize = (symtab.size as usize) / 16;
    let mut i: usize = 0;
    while i < count
        invariant
            section_in_bounds(b@, symtab),
            section_in_bounds(b@, symstr),
            count == spec_symbol_count(symtab),
            i <= count,
            spec_find_symbol(b@, symtab, symstr, name@, 0) == spec_find_symbol(
                b@,
                symtab,
                symstr,
                name@,
                i as int,
            ),
        decreases count - i,
    {
        let s = read_symbol(b, symtab, i);
        if name_matches(b, symstr, s.name_off, name) {
            return Some(s);
        }
        i = i + 1;
    }
    None
}

/// The first program-bits section (type 1) at index `i` or beyond that
/// contains addresses `value .. value + need`.
pub open spec fn spec_find_containing(b: Seq<u8>, value: int, need: int, i: int) -> Option<int>
    decreases spec_shnum(b) - i,
{
    if !(0 <= i < spec_shnum(b)) {
        None
    } else if {
        let s = spec_section(b, i);
        s.kind == 1 && s.addr <= value && value + need <= s.addr + s.size
    } {
        Some(i)
    } else {
        spec_find_containing(b, value, need, i + 1)
    }
}

/// What a successful containment search guarantees of the section it found.
pub proof fn lemma_find_containing_props(b: Seq<u8>, value: int, need: int, i: int, j: int)
    requires
        spec_find_containing(b, value, need, i) == Some(j),
    ensures
        ({
            let s = spec_section(b, j);
            &&& s.kind == 1
            &&& s.addr <= value
            &&& value + need <= s.addr + s.size
            &&& i <= j < spec_shnum(b)
        }),
    decreases spec_shnum(b) - i,
{
    if 0 <= i < spec_shnum(b) {
        let s = spec_section(b, i);
        if !(s.kind == 1 && s.addr <= value && value + need <= s.addr + s.size) {
            lemma_find_containing_props(b, value, need, i + 1, j);
        }
    }
}

/// Finds the first program-bits section that contains the address interval
/// `value .. value + need`.
pub fn find_containing(b: &[u8], value: u32, need: u32) -> (r: Option<(usize, SectionHeader)>)
    requires
        header_valid(b@),
    ensures
        match r {
            Some(p) => {
                &&& spec_find_containing(b@, value as int, need as int, 0) == Some(p.0 as int)
                &&& p.1 == spec_section(b@, p.0 as int)
                &&& p.0 < spec_shnum(b@)
            },
            None => spec_find_containing(b@, value as int, need as int, 0) is None,
        },
{
    let shnum: u16 = read_u16(b, 48);
    let mut i: usize = 0;
    while i < shnum as usize
        invariant
            header_valid(b@),
            shnum == spec_shnum(b@),
            i <= shnum,
            spec_find_containing(b@, value as int, need as int, 0) == spec_find_containing(
                b@,
                value as int,
                need as int,
                i as int,
            ),
        decreases shnum - i,
    {
        let s = read_section(b, i);
        if s.kind == 1 && s.addr <= value && (value as u64) + (need as u64) <= (s.addr as u64)
            + (s.size as u64) {
            return Some((i, s));
        }
        i = i + 1;
    }
    None
}

/// Copies `len` bytes starting at `off` out of the image.
pub fn copy_range(b: &[u8], off: usize, len: usize) -> (v: Vec<u8>)
    requires
        off + len <= b@.len(),
    ensures
        v@ == b@.subrange(off as int, off + len),
{
    let total: usize = b.len();
    let mut v: Vec<u8> = Vec::new();
    let mut j: usize = 0;
    while j < len
        invariant
            total == b@.len(),
            off + len <= b@.len(),
            j <= len,
            v@ == b@.subrange(off as int, off + j),
        decreases len - j,
    {
        v.push(b[off + j]);
        proof {
            assert(v@ =~= b@.subrange(off as int, off + j + 1));
        }
        j = j + 1;
    }
    proof {
        assert(v@ =~= b@.subrange(off as int, off + len));
    }
    v
}

} // verus!
