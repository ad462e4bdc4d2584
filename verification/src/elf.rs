//! ELF-64 little-endian structures: constants, records, and the decoding
//! of section headers, symbols and relocation entries from raw bytes.
//!
//! Every decoded record is pinned to a spec function over the file's byte
//! sequence, so later stages can speak of an object purely as a function
//! of its bytes.

use crate::bytes::{le16_at, le32_at, le64_at, read_u16_at, read_u32_at, read_u64_at};
use vstd::prelude::*;

verus! {

// ------------------------------------------------------------------
// Constants
// ------------------------------------------------------------------

pub const ELF_HEADER_SIZE: u64 = 64;
pub const PROGRAM_HEADER_SIZE: u64 = 56;
pub const SECTION_HEADER_SIZE: u64 = 64;
pub const SYM_SIZE: u64 = 24;
pub const RELA_SIZE: u64 = 24;
pub const PAGE_SIZE: u64 = 4096;

pub const ET_REL: u16 = 1;
pub const ET_EXEC: u16 = 2;
pub const EM_X86_64: u16 = 62;

pub const SHT_NULL: u32 = 0;
pub const SHT_PROGBITS: u32 = 1;
pub const SHT_SYMTAB: u32 = 2;
pub const SHT_STRTAB: u32 = 3;
pub const SHT_RELA: u32 = 4;
pub const SHT_NOBITS: u32 = 8;

pub const SHF_WRITE: u64 = 1;
pub const SHF_ALLOC: u64 = 2;
pub const SHF_EXECINSTR: u64 = 4;
pub const SHF_MERGE: u64 = 16;
pub const SHF_STRINGS: u64 = 32;

pub const STB_GLOBAL: u8 = 1;
pub const SHN_UNDEF: u16 = 0;

pub const R_X86_64_PC32: u32 = 2;
pub const R_X86_64_PLT32: u32 = 4;

pub const PT_LOAD: u32 = 1;
pub const PF_X: u32 = 1;
pub const PF_W: u32 = 2;
pub const PF_R: u32 = 4;

// ------------------------------------------------------------------
// Records
// ------------------------------------------------------------------

/// One section header of an input object, as decoded from its file.
#[derive(Clone, Copy, PartialEq, Eq, Structural, Debug)]
pub struct SectionHeader {
    pub sh_name: u32,
    pub sh_type: u32,
    pub sh_flags: u64,
    pub sh_offset: u64,
    pub sh_size: u64,
    pub sh_link: u32,
    pub sh_info: u32,
    pub sh_addralign: u64,
}

/// One symbol-table entry of an input object.
#[derive(Clone, Copy, PartialEq, Eq, Structural, Debug)]
pub struct Sym {
    pub st_name: u32,
    pub st_info: u8,
    pub st_shndx: u16,
    pub st_value: u64,
}

/// One relocation record with explicit addend.
#[derive(Clone, Copy, PartialEq, Eq, Structural, Debug)]
pub struct Rela {
    pub r_offset: u64,
    pub r_sym: u32,
    pub r_type: u32,
    pub r_addend: i64,
}

// ------------------------------------------------------------------
// Decoding specs
// ------------------------------------------------------------------

/// The section header whose 64 bytes sit at `off` in `s`.
pub open spec fn spec_shdr_at(s: Seq<u8>, off: int) -> SectionHeader {
    SectionHeader {
        sh_name: le32_at(s, off),
        sh_type: le32_at(s, off + 4),
        sh_flags: le64_at(s, off + 8),
        sh_offset: le64_at(s, off + 24),
        sh_size: le64_at(s, off + 32),
        sh_link: le32_at(s, off + 40),
        sh_info: le32_at(s, off + 44),
        sh_addralign: le64_at(s, off + 48),
    }
}

/// The symbol whose 24 bytes sit at `off` in `s`.
pub open spec fn spec_sym_at(s: Seq<u8>, off: int) -> Sym {
    Sym {
        st_name: le32_at(s, off),
        st_info: s[off + 4],
        st_shndx: le16_at(s, off + 6),
        st_value: le64_at(s, off + 8),
    }
}

/// The relocation record whose 24 bytes sit at `off` in `s`.  The packed
/// `r_info` word splits into the symbol index (high half) and the
/// relocation type (low half).
pub open spec fn spec_rela_at(s: Seq<u8>, off: int) -> Rela {
    Rela {
        r_offset: le64_at(s, off),
        r_sym: (le64_at(s, off + 8) >> 32) as u32,
        r_type: le64_at(s, off + 8) as u32,
        r_addend: le64_at(s, off + 16) as i64,
    }
}

// ------------------------------------------------------------------
// Decoding code
// ------------------------------------------------------------------

pub fn parse_shdr_at(b: &Vec<u8>, off: usize) -> (r: SectionHeader)
    requires
        off + SECTION_HEADER_SIZE <= b@.len(),
    ensures
        r == spec_shdr_at(b@, off as int),
{
    let _n = b.len();
    SectionHeader {
        sh_name: read_u32_at(b, off),
        sh_type: read_u32_at(b, off + 4),
        sh_flags: read_u64_at(b, off + 8),
        sh_offset: read_u64_at(b, off + 24),
        sh_size: read_u64_at(b, off + 32),
        sh_link: read_u32_at(b, off + 40),
        sh_info: read_u32_at(b, off + 44),
        sh_addralign: read_u64_at(b, off + 48),
    }
}

pub fn parse_sym_at(b: &Vec<u8>, off: usize) -> (r: Sym)
    requires
        off + SYM_SIZE <= b@.len(),
    ensures
        r == spec_sym_at(b@, off as int),
{
    let _n = b.len();
    Sym {
        st_name: read_u32_at(b, off),
        st_info: b[off + 4],
        st_shndx: read_u16_at(b, off + 6),
        st_value: read_u64_at(b, off + 8),
    }
}

pub fn parse_rela_at(b: &Vec<u8>, off: usize) -> (r: Rela)
    requires
        off + RELA_SIZE <= b@.len(),
    ensures
        r == spec_rela_at(b@, off as int),
{
    let _n = b.len();
    let info = read_u64_at(b, off + 8);
    Rela {
        r_offset: read_u64_at(b, off),
        r_sym: (info >> 32) as u32,
        r_type: info as u32,
        r_addend: read_u64_at(b, off + 16) as i64,
    }
}

// ------------------------------------------------------------------
// String tables
// ------------------------------------------------------------------

/// The name starting at index `i` of a string table: the bytes up to,
/// and not including, the first NUL at or after `i` (or the table's end).
pub open spec fn spec_strtab_name(s: Seq<u8>, i: int) -> Seq<u8>
    decreases s.len() - i,
{
    if i < 0 || i >= s.len() || s[i] == 0 {
        Seq::empty()
    } else {
        seq![s[i]] + spec_strtab_name(s, i + 1)
    }
}

proof fn lemma_strtab_name_range(s: Seq<u8>, i: int, j: int)
    requires
        0 <= i <= j <= s.len(),
        forall|k: int| i <= k < j ==> s[k] != 0,
        j == s.len() || s[j] == 0,
    ensures
        spec_strtab_name(s, i) == s.subrange(i, j),
    decreases j - i,
{
    if i == j {
        assert(spec_strtab_name(s, i) =~= s.subrange(i, j));
    } else {
        lemma_strtab_name_range(s, i + 1, j);
        assert(spec_strtab_name(s, i) =~= s.subrange(i, j));
    }
}

/// Read the NUL-terminated name at index `i` of the string table `b`.
pub fn strtab_name(b: &Vec<u8>, i: usize) -> (r: Vec<u8>)
    requires
        i <= b@.len(),
    ensures
        r@ == spec_strtab_name(b@, i as int),
{
    let n = b.len();
    let mut j: usize = i;
    while j < n && b[j] != 0
        invariant
            i <= j <= n,
            n == b@.len(),
            forall|k: int| i <= k < j ==> b@[k] != 0,
        decreases n - j,
    {
        j += 1;
    }
    let r = crate::bytes::extract_range(b, i, j);
    proof {
        lemma_strtab_name_range(b@, i as int, j as int);
    }
    r
}

} // verus!
