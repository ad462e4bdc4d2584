//! The view adapter: projecting one relocatable object's bytes into the
//! structured records the rest of the linker consumes.
//!
//! [`parse_object`] yields the section-header table, the symbol table with
//! each symbol's name resolved, and the relocation sections.  Its result is
//! pinned to [`spec_parse_object`], a pure function of the file's bytes.

use crate::bytes::{le16_at, le64_at, read_u16_at, read_u64_at};
use crate::elf::{
    parse_rela_at, parse_shdr_at, parse_sym_at, spec_rela_at, spec_shdr_at, spec_strtab_name,
    spec_sym_at, Rela, SectionHeader, Sym, ELF_HEADER_SIZE, EM_X86_64, ET_REL, RELA_SIZE,
    SECTION_HEADER_SIZE, SHT_RELA, SHT_SYMTAB, SYM_SIZE,
};
use crate::errors::{LinkError, LinkErrorV};
use vstd::prelude::*;

verus! {

// ------------------------------------------------------------------
// Records
// ------------------------------------------------------------------

/// The relocation records of one `RELA` section, applying to the section
/// with index `applies_to` of the same file.
pub struct RelaSec {
    pub applies_to: u32,
    pub records: Vec<Rela>,
}

/// The mathematical shadow of [`RelaSec`].
#[verifier::ext_equal]
pub ghost struct RelaSecV {
    pub applies_to: u32,
    pub records: Seq<Rela>,
}

impl View for RelaSec {
    type V = RelaSecV;

    open spec fn view(&self) -> RelaSecV {
        RelaSecV { applies_to: self.applies_to, records: self.records@ }
    }
}

/// Everything the linker reads from one relocatable object.
pub struct ObjectView {
    pub sections: Vec<SectionHeader>,
    pub syms: Vec<Sym>,
    pub sym_names: Vec<Vec<u8>>,
    pub relocs: Vec<RelaSec>,
}

/// The mathematical shadow of [`ObjectView`].
#[verifier::ext_equal]
pub ghost struct ObjectV {
    pub sections: Seq<SectionHeader>,
    pub syms: Seq<Sym>,
    pub sym_names: Seq<Seq<u8>>,
    pub relocs: Seq<RelaSecV>,
}

impl View for ObjectView {
    type V = ObjectV;

    open spec fn view(&self) -> ObjectV {
        ObjectV {
            sections: self.sections@,
            syms: self.syms@,
            sym_names: Seq::new(self.sym_names@.len(), |i: int| self.sym_names@[i]@),
            relocs: Seq::new(self.relocs@.len(), |i: int| self.relocs@[i]@),
        }
    }
}

// ------------------------------------------------------------------
// Specification of parsing
// ------------------------------------------------------------------

/// The identification bytes of a little-endian 64-bit ELF file.
pub open spec fn spec_ident_ok(b: Seq<u8>) -> bool {
    b.len() >= ELF_HEADER_SIZE && b[0] == 0x7fu8 && b[1] == 0x45u8 && b[2] == 0x4cu8 && b[3]
        == 0x46u8 && b[4] == 2u8 && b[5] == 1u8 && b[6] == 1u8
}

/// A relocatable object for x86-64.
pub open spec fn spec_type_ok(b: Seq<u8>) -> bool {
    le16_at(b, 16) == ET_REL && le16_at(b, 18) == EM_X86_64
}

pub open spec fn spec_shoff(b: Seq<u8>) -> u64 {
    le64_at(b, 40)
}

pub open spec fn spec_shnum(b: Seq<u8>) -> u16 {
    le16_at(b, 60)
}

pub open spec fn spec_shentsize(b: Seq<u8>) -> u16 {
    le16_at(b, 58)
}

/// The section-header table lies inside the file, with the standard
/// entry size.
pub open spec fn spec_sections_ok(b: Seq<u8>) -> bool {
    (spec_shnum(b) == 0 || spec_shentsize(b) == SECTION_HEADER_SIZE) && spec_shoff(b)
        + SECTION_HEADER_SIZE * spec_shnum(b) <= b.len()
}

/// The decoded section-header table.
pub open spec fn spec_sections(b: Seq<u8>) -> Seq<SectionHeader> {
    Seq::new(
        spec_shnum(b) as nat,
        |i: int| spec_shdr_at(b, spec_shoff(b) + SECTION_HEADER_SIZE * i),
    )
}

/// The index of the first `SYMTAB` section at or after `i`, if any.
pub open spec fn spec_find_symtab(secs: Seq<SectionHeader>, i: int) -> Option<int>
    decreases secs.len() - i,
{
    if i < 0 || i >= secs.len() {
        None
    } else if secs[i].sh_type == SHT_SYMTAB {
        Some(i)
    } else {
        spec_find_symtab(secs, i + 1)
    }
}

/// The decoded symbol table of the section `st`.
pub open spec fn spec_syms_of(b: Seq<u8>, st: SectionHeader) -> Seq<Sym> {
    Seq::new((st.sh_size / SYM_SIZE) as nat, |i: int| spec_sym_at(b, st.sh_offset + SYM_SIZE * i))
}

/// The symbol table and the resolved name of every symbol, or the failure
/// met while decoding them.  An object without a symbol table has both
/// sequences empty.
pub open spec fn spec_symtab(b: Seq<u8>, secs: Seq<SectionHeader>) -> Result<
    (Seq<Sym>, Seq<Seq<u8>>),
    LinkErrorV,
> {
    match spec_find_symtab(secs, 0) {
        None => Ok((Seq::empty(), Seq::empty())),
        Some(idx) => {
            let st = secs[idx];
            if !(st.sh_offset + st.sh_size <= b.len()) {
                Err(LinkErrorV::Truncated)
            } else if !(st.sh_link < secs.len()) {
                Err(LinkErrorV::Truncated)
            } else {
                let ss = secs[st.sh_link as int];
                if !(ss.sh_offset + ss.sh_size <= b.len()) {
                    Err(LinkErrorV::Truncated)
                } else {
                    let strtab = b.subrange(ss.sh_offset as int, ss.sh_offset + ss.sh_size);
                    let syms = spec_syms_of(b, st);
                    if exists|i: int| 0 <= i < syms.len() && syms[i].st_name > strtab.len() {
                        Err(LinkErrorV::Truncated)
                    } else {
                        Ok(
                            (
                                syms,
                                Seq::new(
                                    syms.len(),
                                    |i: int| spec_strtab_name(strtab, syms[i].st_name as int),
                                ),
                            ),
                        )
                    }
                }
            }
        },
    }
}

/// The decoded records of one `RELA` section.
pub open spec fn spec_rela_records(b: Seq<u8>, sec: SectionHeader) -> Seq<Rela> {
    Seq::new(
        (sec.sh_size / RELA_SIZE) as nat,
        |i: int| spec_rela_at(b, sec.sh_offset + RELA_SIZE * i),
    )
}

/// The relocation sections found among the first `i` sections, in order.
pub open spec fn spec_relocs_prefix(b: Seq<u8>, secs: Seq<SectionHeader>, i: int) -> Result<
    Seq<RelaSecV>,
    LinkErrorV,
>
    decreases i,
{
    if i <= 0 {
        Ok(Seq::empty())
    } else {
        match spec_relocs_prefix(b, secs, i - 1) {
            Err(e) => Err(e),
            Ok(rs) => {
                let sec = secs[i - 1];
                if sec.sh_type == SHT_RELA {
                    if sec.sh_offset + sec.sh_size <= b.len() {
                        Ok(
                            rs.push(
                                RelaSecV {
                                    applies_to: sec.sh_info,
                                    records: spec_rela_records(b, sec),
                                },
                            ),
                        )
                    } else {
                        Err(LinkErrorV::Truncated)
                    }
                } else {
                    Ok(rs)
                }
            },
        }
    }
}

/// What parsing one object yields, as a pure function of its bytes.
pub open spec fn spec_parse_object(b: Seq<u8>) -> Result<ObjectV, LinkErrorV> {
    if !spec_ident_ok(b) {
        Err(LinkErrorV::BadIdent)
    } else if !spec_type_ok(b) {
        Err(LinkErrorV::BadObjectType)
    } else if !spec_sections_ok(b) {
        Err(LinkErrorV::Truncated)
    } else {
        let secs = spec_sections(b);
        match spec_symtab(b, secs) {
            Err(e) => Err(e),
            Ok((syms, names)) => match spec_relocs_prefix(b, secs, secs.len() as int) {
                Err(e) => Err(e),
                Ok(rs) => Ok(
                    ObjectV { sections: secs, syms: syms, sym_names: names, relocs: rs },
                ),
            },
        }
    }
}

/// The shadow of a parse result.
pub open spec fn obj_result_view(r: Result<ObjectView, LinkError>) -> Result<ObjectV, LinkErrorV> {
    match r {
        Ok(v) => Ok(v@),
        Err(e) => Err(e@),
    }
}

// ------------------------------------------------------------------
// Parsing code
// ------------------------------------------------------------------

fn parse_section_table(b: &Vec<u8>) -> (r: Result<Vec<SectionHeader>, LinkError>)
    requires
        spec_ident_ok(b@),
        spec_type_ok(b@),
    ensures
        match r {
            Ok(secs) => spec_sections_ok(b@) && secs@ == spec_sections(b@),
            Err(e) => !spec_sections_ok(b@) && e@ == LinkErrorV::Truncated,
        },
{
    let blen = b.len();
    let shoff = read_u64_at(b, 40);
    let shnum = read_u16_at(b, 60);
    let shentsize = read_u16_at(b, 58);
    if shnum != 0 && shentsize != 64 {
        return Err(LinkError::Truncated);
    }
    let need: u64 = 64 * (shnum as u64);
    if shoff > u64::MAX - need {
        return Err(LinkError::Truncated);
    }
    if shoff + need > blen as u64 {
        return Err(LinkError::Truncated);
    }
    let shoff_us = shoff as usize;
    let mut secs: Vec<SectionHeader> = Vec::new();
    let mut i: usize = 0;
    while i < shnum as usize
        invariant
            i <= shnum as usize,
            blen == b@.len(),
            shoff == spec_shoff(b@),
            shnum == spec_shnum(b@),
            shoff_us == shoff,
            shoff + 64 * (shnum as u64) <= blen,
            secs@.len() == i,
            forall|j: int|
                0 <= j < i ==> secs@[j] == spec_shdr_at(b@, spec_shoff(b@) + 64 * j),
        decreases shnum as usize - i,
    {
        let h = parse_shdr_at(b, shoff_us + 64 * i);
        secs.push(h);
        i += 1;
    }
    proof {
        assert(secs@ =~= spec_sections(b@));
    }
    Ok(secs)
}

fn find_symtab(secs: &Vec<SectionHeader>) -> (r: Option<usize>)
    ensures
        match r {
            Some(i) => spec_find_symtab(secs@, 0) == Some(i as int) && i < secs@.len()
                && secs@[i as int].sh_type == SHT_SYMTAB,
            None => spec_find_symtab(secs@, 0) is None,
        },
{
    let n = secs.len();
    let mut i: usize = 0;
    while i < n
        invariant
            i <= n,
            n == secs@.len(),
            spec_find_symtab(secs@, 0) == spec_find_symtab(secs@, i as int),
        decreases n - i,
    {
        if secs[i].sh_type == SHT_SYMTAB {
            return Some(i);
        }
        i += 1;
    }
    None
}

#[verifier::loop_isolation(false)]
fn parse_symtab(b: &Vec<u8>, secs: &Vec<SectionHeader>) -> (r: Result<
    (Vec<Sym>, Vec<Vec<u8>>),
    LinkError,
>)
    ensures
        match r {
            Ok((syms, names)) => {
                &&& spec_symtab(b@, secs@) matches Ok(p)
                &&& p.0 == syms@
                &&& p.1 == Seq::new(names@.len(), |i: int| names@[i]@)
            },
            Err(e) => spec_symtab(b@, secs@) matches Err(ev) && ev == e@,
        },
{
    let blen = b.len();
    let st_idx = match find_symtab(secs) {
        None => {
            let syms: Vec<Sym> = Vec::new();
            let names: Vec<Vec<u8>> = Vec::new();
            proof {
                assert(Seq::new(names@.len(), |i: int| names@[i]@) =~= Seq::<Seq<u8>>::empty());
            }
            return Ok((syms, names));
        },
        Some(i) => i,
    };
    let st = secs[st_idx];
    if st.sh_offset > u64::MAX - st.sh_size || st.sh_offset + st.sh_size > blen as u64 {
        return Err(LinkError::Truncated);
    }
    if !((st.sh_link as usize) < secs.len()) {
        return Err(LinkError::Truncated);
    }
    let ss = secs[st.sh_link as usize];
    if ss.sh_offset > u64::MAX - ss.sh_size || ss.sh_offset + ss.sh_size > blen as u64 {
        return Err(LinkError::Truncated);
    }
    let strtab = crate::bytes::extract_range(b, ss.sh_offset as usize, (ss.sh_offset + ss.sh_size)
        as usize);
    let count = (st.sh_size / 24) as usize;
    let st_off = st.sh_offset as usize;
    let mut syms: Vec<Sym> = Vec::new();
    let mut i: usize = 0;
    while i < count
        invariant
            i <= count,
            blen == b@.len(),
            count == (st.sh_size / 24) as int,
            st_off == st.sh_offset,
            st.sh_offset + st.sh_size <= blen,
            syms@.len() == i,
            forall|j: int| 0 <= j < i ==> syms@[j] == spec_sym_at(b@, st.sh_offset + 24 * j),
        decreases count - i,
    {
        proof {
            assert(st.sh_offset + 24 * (i + 1) <= st.sh_offset + st.sh_size) by (nonlinear_arith)
                requires
                    i < count,
                    count == (st.sh_size / 24) as int,
                    0 <= st.sh_size,
                    0 <= st.sh_offset,
            ;
        }
        let s = parse_sym_at(b, st_off + 24 * i);
        syms.push(s);
        i += 1;
    }
    proof {
        assert(syms@ =~= spec_syms_of(b@, st));
    }
    let strtab_len = strtab.len();
    let mut names: Vec<Vec<u8>> = Vec::new();
    let mut i: usize = 0;
    while i < count
        invariant
            i <= count,
            count == syms@.len(),
            syms@ == spec_syms_of(b@, st),
            strtab_len == strtab@.len(),
            strtab@ == b@.subrange(ss.sh_offset as int, ss.sh_offset + ss.sh_size),
            names@.len() == i,
            forall|j: int| 0 <= j < i ==> syms@[j].st_name <= strtab@.len(),
            forall|j: int|
                0 <= j < i ==> names@[j]@ == spec_strtab_name(strtab@, syms@[j].st_name as int),
        decreases count - i,
    {
        let nm_idx = syms[i].st_name;
        if nm_idx as usize > strtab_len {
            proof {
                let sv = spec_syms_of(b@, st);
                assert(0 <= i < sv.len() && sv[i as int].st_name > strtab@.len());
            }
            return Err(LinkError::Truncated);
        }
        let nm = crate::elf::strtab_name(&strtab, nm_idx as usize);
        names.push(nm);
        i += 1;
    }
    proof {
        assert(Seq::new(names@.len(), |i: int| names@[i]@) =~= Seq::new(
            spec_syms_of(b@, st).len(),
            |i: int| spec_strtab_name(strtab@, spec_syms_of(b@, st)[i].st_name as int),
        ));
    }
    Ok((syms, names))
}

fn parse_relocs(b: &Vec<u8>, secs: &Vec<SectionHeader>) -> (r: Result<Vec<RelaSec>, LinkError>)
    ensures
        match r {
            Ok(rs) => {
                &&& spec_relocs_prefix(b@, secs@, secs@.len() as int) matches Ok(rv)
                &&& rv == Seq::new(rs@.len(), |i: int| rs@[i]@)
            },
            Err(e) => spec_relocs_prefix(b@, secs@, secs@.len() as int) matches Err(ev) && ev
                == e@,
        },
{
    let blen = b.len();
    let n = secs.len();
    let mut rs: Vec<RelaSec> = Vec::new();
    let mut i: usize = 0;
    while i < n
        invariant
            i <= n,
            n == secs@.len(),
            blen == b@.len(),
            spec_relocs_prefix(b@, secs@, i as int) matches Ok(rv) && rv == Seq::new(
                rs@.len(),
                |k: int| rs@[k]@,
            ),
        decreases n - i,
    {
        let sec = secs[i];
        if sec.sh_type == SHT_RELA {
            if sec.sh_offset > u64::MAX - sec.sh_size || sec.sh_offset + sec.sh_size > blen
                as u64 {
                proof {
                    assert(spec_relocs_prefix(b@, secs@, i + 1) matches Err(ev) && ev
                        == LinkErrorV::Truncated);
                    crate::object::lemma_relocs_prefix_err(b@, secs@, i + 1, secs@.len() as int);
                }
                return Err(LinkError::Truncated);
            }
            let count = (sec.sh_size / 24) as usize;
            let sec_off = sec.sh_offset as usize;
            let mut records: Vec<Rela> = Vec::new();
            let mut k: usize = 0;
            while k < count
                invariant
                    k <= count,
                    blen == b@.len(),
                    count == (sec.sh_size / 24) as int,
                    sec_off == sec.sh_offset,
                    sec.sh_offset + sec.sh_size <= blen,
                    records@.len() == k,
                    forall|j: int|
                        0 <= j < k ==> records@[j] == spec_rela_at(b@, sec.sh_offset + 24 * j),
                decreases count - k,
            {
                proof {
                    assert(sec.sh_offset + 24 * (k + 1) <= sec.sh_offset + sec.sh_size)
                        by (nonlinear_arith)
                        requires
                            k < count,
                            count == (sec.sh_size / 24) as int,
                            0 <= sec.sh_size,
                            0 <= sec.sh_offset,
                    ;
                }
                let rec = parse_rela_at(b, sec_off + 24 * k);
                records.push(rec);
                k += 1;
            }
            proof {
                assert(records@ =~= spec_rela_records(b@, sec));
            }
            let rsec = RelaSec { applies_to: sec.sh_info, records };
            rs.push(rsec);
            proof {
                assert(Seq::new(rs@.len(), |j: int| rs@[j]@) =~= spec_relocs_prefix(
                    b@,
                    secs@,
                    i as int,
                )->Ok_0.push(RelaSecV { applies_to: sec.sh_info, records: spec_rela_records(b@, sec) }));
            }
        }
        i += 1;
    }
    Ok(rs)
}

/// If the prefix fold has already failed at `i`, it stays failed at any
/// later `j` with the same error.
pub proof fn lemma_relocs_prefix_err(b: Seq<u8>, secs: Seq<SectionHeader>, i: int, j: int)
    requires
        0 <= i <= j,
        spec_relocs_prefix(b, secs, i) is Err,
    ensures
        spec_relocs_prefix(b, secs, j) == spec_relocs_prefix(b, secs, i),
    decreases j - i,
{
    if i < j {
        lemma_relocs_prefix_err(b, secs, i, j - 1);
    }
}

/// Parse one relocatable object.  The result is exactly
/// [`spec_parse_object`] of the file's bytes.
pub fn parse_object(b: &Vec<u8>) -> (r: Result<ObjectView, LinkError>)
    ensures
        obj_result_view(r) == spec_parse_object(b@),
{
    let blen = b.len();
    if blen < 64 {
        return Err(LinkError::BadIdent);
    }
    if !(b[0] == 0x7f && b[1] == 0x45 && b[2] == 0x4c && b[3] == 0x46 && b[4] == 2 && b[5] == 1
        && b[6] == 1) {
        return Err(LinkError::BadIdent);
    }
    let e_type = read_u16_at(b, 16);
    let e_machine = read_u16_at(b, 18);
    if e_type != 1 || e_machine != 62 {
        return Err(LinkError::BadObjectType);
    }
    let sections = match parse_section_table(b) {
        Ok(s) => s,
        Err(e) => { return Err(e) },
    };
    let (syms, sym_names) = match parse_symtab(b, &sections) {
        Ok(p) => p,
        Err(e) => { return Err(e) },
    };
    let relocs = match parse_relocs(b, &sections) {
        Ok(r) => r,
        Err(e) => { return Err(e) },
    };
    let v = ObjectView { sections, syms, sym_names, relocs };
    proof {
        assert(v@ =~= spec_parse_object(b@)->Ok_0);
    }
    Ok(v)
}

} // verus!
