//! The relocator: resolving each relocation record against the symbol
//! index and patching a 32-bit displacement into the written image.
//!
//! `R_X86_64_PC32` resolves the referenced symbol inside its own file;
//! `R_X86_64_PLT32` resolves the referenced symbol's name through the
//! global map, patching the call target directly since the output has no
//! procedure linkage table.  Any other type is fatal.  Every displacement
//! must fit a signed 32-bit value.

use crate::bytes::{splice, u32_le_bytes, write_u32_at};
use crate::elf::{Rela, PAGE_SIZE, R_X86_64_PC32, R_X86_64_PLT32};
use crate::errors::{LinkError, LinkErrorV};
use crate::image::spec_find_offset;
use crate::input::RelocationSectionV;
use crate::layout::{Output, OutputV};
use crate::symtab::{spec_globals_find, spec_sym_get, spec_sym_name};
use vstd::prelude::*;

verus! {

// ------------------------------------------------------------------
// Specification
// ------------------------------------------------------------------

/// The resolved address `S` (or `L`) of the symbol one record refers to,
/// or the failure met resolving it.
pub open spec fn spec_reloc_target(o: OutputV, file: usize, r: Rela) -> Result<int, LinkErrorV> {
    if r.r_type == R_X86_64_PC32 {
        match spec_sym_get(o.symtab, file, r.r_sym as usize) {
            None => Err(LinkErrorV::Truncated),
            Some(sym) => match spec_find_offset(o, file, sym.st_shndx as usize) {
                None => Err(LinkErrorV::UnmappedSection),
                Some(so) => if so + sym.st_value > u64::MAX {
                    Err(LinkErrorV::Overflow)
                } else {
                    Ok(so + sym.st_value)
                },
            },
        }
    } else if r.r_type == R_X86_64_PLT32 {
        match spec_sym_name(o.symtab, file, r.r_sym as usize) {
            None => Err(LinkErrorV::Truncated),
            Some(nm) => match spec_globals_find(o.symtab.globals, nm, 0) {
                None => Err(LinkErrorV::UndefinedSymbol(nm)),
                Some(d) => match spec_sym_get(o.symtab, d.file_idx, d.sym_idx) {
                    None => Err(LinkErrorV::Truncated),
                    Some(sym) => match spec_find_offset(o, d.file_idx, sym.st_shndx as usize) {
                        None => Err(LinkErrorV::UnmappedSection),
                        Some(so) => if so + sym.st_value > u64::MAX {
                            Err(LinkErrorV::Overflow)
                        } else {
                            Ok(so + sym.st_value)
                        },
                    },
                },
            },
        }
    } else {
        Err(LinkErrorV::UnsupportedRelocation(r.r_type))
    }
}

/// One record applied: the 32-bit displacement `S + A - P` stored
/// little-endian at `P`, or the failure met computing or storing it.
pub open spec fn spec_apply_record(
    o: OutputV,
    img: Seq<u8>,
    sec_offset: u64,
    file: usize,
    r: Rela,
) -> Result<Seq<u8>, LinkErrorV> {
    match spec_reloc_target(o, file, r) {
        Err(e) => Err(e),
        Ok(s_val) => {
            if sec_offset + r.r_offset > u64::MAX {
                Err(LinkErrorV::Overflow)
            } else {
                let p = sec_offset + r.r_offset;
                let disp = s_val + r.r_addend - p;
                if disp < i32::MIN || disp > i32::MAX {
                    Err(LinkErrorV::Overflow)
                } else if p + 4 > img.len() {
                    Err(LinkErrorV::PatchOutOfRange)
                } else {
                    Ok(splice(img, p, u32_le_bytes(disp as i32 as u32)))
                }
            }
        },
    }
}

/// The image after the first `i` records of one relocation section.
pub open spec fn spec_apply_records_prefix(
    o: OutputV,
    img: Seq<u8>,
    sec_offset: u64,
    file: usize,
    records: Seq<Rela>,
    i: int,
) -> Result<Seq<u8>, LinkErrorV>
    decreases i,
{
    if i <= 0 {
        Ok(img)
    } else {
        match spec_apply_records_prefix(o, img, sec_offset, file, records, i - 1) {
            Err(e) => Err(e),
            Ok(cur) => spec_apply_record(o, cur, sec_offset, file, records[i - 1]),
        }
    }
}

/// One whole relocation section applied to the image.
pub open spec fn spec_apply_section(o: OutputV, img: Seq<u8>, rsec: RelocationSectionV) -> Result<
    Seq<u8>,
    LinkErrorV,
> {
    match spec_find_offset(o, rsec.applies_to_file, rsec.applies_to_sec) {
        None => Err(LinkErrorV::UnmappedSection),
        Some(soff) => spec_apply_records_prefix(
            o,
            img,
            soff,
            rsec.applies_to_file,
            rsec.relocations,
            rsec.relocations.len() as int,
        ),
    }
}

/// The image after the first `i` relocation sections.
pub open spec fn spec_relocate_prefix(o: OutputV, img: Seq<u8>, i: int) -> Result<
    Seq<u8>,
    LinkErrorV,
>
    decreases i,
{
    if i <= 0 {
        Ok(img)
    } else {
        match spec_relocate_prefix(o, img, i - 1) {
            Err(e) => Err(e),
            Ok(cur) => spec_apply_section(o, cur, o.reloc_sections[i - 1]),
        }
    }
}

/// The fully relocated image as a pure function of the layout and the
/// written image.
pub open spec fn spec_relocate(o: OutputV, img: Seq<u8>) -> Result<Seq<u8>, LinkErrorV> {
    spec_relocate_prefix(o, img, o.reloc_sections.len() as int)
}

// ------------------------------------------------------------------
// Fold lemmas
// ------------------------------------------------------------------

/// If the record fold has already failed, it stays failed with the same
/// error.
pub proof fn lemma_records_prefix_err(
    o: OutputV,
    img: Seq<u8>,
    sec_offset: u64,
    file: usize,
    records: Seq<Rela>,
    i: int,
    j: int,
)
    requires
        0 <= i <= j,
        spec_apply_records_prefix(o, img, sec_offset, file, records, i) is Err,
    ensures
        spec_apply_records_prefix(o, img, sec_offset, file, records, j)
            == spec_apply_records_prefix(o, img, sec_offset, file, records, i),
    decreases j - i,
{
    if i < j {
        lemma_records_prefix_err(o, img, sec_offset, file, records, i, j - 1);
    }
}

/// Applying records never changes the image's length.
pub proof fn lemma_records_prefix_len(
    o: OutputV,
    img: Seq<u8>,
    sec_offset: u64,
    file: usize,
    records: Seq<Rela>,
    i: int,
)
    requires
        0 <= i,
        spec_apply_records_prefix(o, img, sec_offset, file, records, i) is Ok,
    ensures
        spec_apply_records_prefix(o, img, sec_offset, file, records, i)->Ok_0.len() == img.len(),
    decreases i,
{
    if i > 0 {
        lemma_records_prefix_len(o, img, sec_offset, file, records, i - 1);
    }
}

/// If the section fold has already failed, it stays failed with the same
/// error.
pub proof fn lemma_relocate_prefix_err(o: OutputV, img: Seq<u8>, i: int, j: int)
    requires
        0 <= i <= j,
        spec_relocate_prefix(o, img, i) is Err,
    ensures
        spec_relocate_prefix(o, img, j) == spec_relocate_prefix(o, img, i),
    decreases j - i,
{
    if i < j {
        lemma_relocate_prefix_err(o, img, i, j - 1);
    }
}

/// Applying sections never changes the image's length.
pub proof fn lemma_relocate_prefix_len(o: OutputV, img: Seq<u8>, i: int)
    requires
        0 <= i,
        spec_relocate_prefix(o, img, i) is Ok,
    ensures
        spec_relocate_prefix(o, img, i)->Ok_0.len() == img.len(),
    decreases i,
{
    if i > 0 {
        lemma_relocate_prefix_len(o, img, i - 1);
        let cur = spec_relocate_prefix(o, img, i - 1)->Ok_0;
        let rsec = o.reloc_sections[i - 1];
        let soff = spec_find_offset(o, rsec.applies_to_file, rsec.applies_to_sec)->Some_0;
        lemma_records_prefix_len(
            o,
            cur,
            soff,
            rsec.applies_to_file,
            rsec.relocations,
            rsec.relocations.len() as int,
        );
    }
}

/// Applying records whose section sits at or beyond the first page
/// leaves every byte below it unchanged.
proof fn lemma_records_prefix_low(
    o: OutputV,
    img: Seq<u8>,
    sec_offset: u64,
    file: usize,
    records: Seq<Rela>,
    i: int,
)
    requires
        0 <= i,
        PAGE_SIZE <= sec_offset,
        spec_apply_records_prefix(o, img, sec_offset, file, records, i) is Ok,
    ensures
        forall|k: int|
            0 <= k < PAGE_SIZE && k < img.len() ==> spec_apply_records_prefix(
                o,
                img,
                sec_offset,
                file,
                records,
                i,
            )->Ok_0[k] == img[k],
    decreases i,
{
    if i > 0 {
        lemma_records_prefix_low(o, img, sec_offset, file, records, i - 1);
        lemma_records_prefix_len(o, img, sec_offset, file, records, i - 1);
        let prev = spec_apply_records_prefix(o, img, sec_offset, file, records, i - 1)->Ok_0;
        let cur = spec_apply_records_prefix(o, img, sec_offset, file, records, i)->Ok_0;
        assert forall|k: int| 0 <= k < PAGE_SIZE && k < img.len() implies cur[k] == prev[k] by {}
    }
}

/// Relocating a well-formed layout leaves the header block unchanged:
/// every patch lands at or beyond the first page.
pub proof fn lemma_relocate_prefix_low(o: OutputV, img: Seq<u8>, i: int)
    requires
        0 <= i <= o.reloc_sections.len(),
        crate::layout::spec_output_wf(o),
        spec_relocate_prefix(o, img, i) is Ok,
    ensures
        forall|k: int|
            0 <= k < PAGE_SIZE && k < img.len() ==> spec_relocate_prefix(o, img, i)->Ok_0[k]
                == img[k],
    decreases i,
{
    if i > 0 {
        lemma_relocate_prefix_low(o, img, i - 1);
        lemma_relocate_prefix_len(o, img, i - 1);
        let cur = spec_relocate_prefix(o, img, i - 1)->Ok_0;
        let rsec = o.reloc_sections[i - 1];
        crate::image::lemma_find_offset_low(o, rsec.applies_to_file, rsec.applies_to_sec);
        let soff = spec_find_offset(o, rsec.applies_to_file, rsec.applies_to_sec)->Some_0;
        lemma_records_prefix_low(
            o,
            cur,
            soff,
            rsec.applies_to_file,
            rsec.relocations,
            rsec.relocations.len() as int,
        );
    }
}

/// What a stored patch reads back as: after [`spec_apply_record`] splices
/// the displacement's four little-endian bytes in at `P`, decoding the
/// 32-bit value at `P` gives exactly that displacement, and every byte
/// outside `[P, P + 4)` is untouched.
pub proof fn lemma_patch_readback(img: Seq<u8>, p: int, v: u32)
    requires
        0 <= p,
        p + 4 <= img.len(),
    ensures
        crate::bytes::le32_at(splice(img, p, u32_le_bytes(v)), p) == v,
        splice(img, p, u32_le_bytes(v)).len() == img.len(),
        forall|k: int|
            0 <= k < img.len() && !(p <= k < p + 4) ==> splice(img, p, u32_le_bytes(v))[k]
                == img[k],
{
    let s = splice(img, p, u32_le_bytes(v));
    assert(s[p] == u32_le_bytes(v)[0]);
    assert(s[p + 1] == u32_le_bytes(v)[1]);
    assert(s[p + 2] == u32_le_bytes(v)[2]);
    assert(s[p + 3] == u32_le_bytes(v)[3]);
    crate::bytes::lemma_le32_roundtrip(v);
}

// ------------------------------------------------------------------
// Code
// ------------------------------------------------------------------

impl Output {
    /// Resolve the target address of one relocation record.
    fn reloc_target(&self, file: usize, r: Rela) -> (res: Result<u64, LinkError>)
        ensures
            match res {
                Ok(t) => spec_reloc_target(self@, file, r) == Ok::<int, LinkErrorV>(t as int),
                Err(e) => spec_reloc_target(self@, file, r) matches Err(ev) && ev == e@,
            },
    {
        if r.r_type == R_X86_64_PC32 {
            let sym = match self.symtab.get(file, r.r_sym as usize) {
                Some(s) => s,
                None => { return Err(LinkError::Truncated) },
            };
            let so = match self.find_section_offset(file, sym.st_shndx as usize) {
                Some(a) => a,
                None => { return Err(LinkError::UnmappedSection) },
            };
            if so > u64::MAX - sym.st_value {
                return Err(LinkError::Overflow);
            }
            Ok(so + sym.st_value)
        } else if r.r_type == R_X86_64_PLT32 {
            let nm = match self.symtab.get_name(file, r.r_sym as usize) {
                Some(n) => n,
                None => { return Err(LinkError::Truncated) },
            };
            let (dfile, dsym) = match self.symtab.find_global(&nm) {
                Some(p) => p,
                None => { return Err(LinkError::UndefinedSymbol(nm)) },
            };
            let sym = match self.symtab.get(dfile, dsym) {
                Some(s) => s,
                None => { return Err(LinkError::Truncated) },
            };
            let so = match self.find_section_offset(dfile, sym.st_shndx as usize) {
                Some(a) => a,
                None => { return Err(LinkError::UnmappedSection) },
            };
            if so > u64::MAX - sym.st_value {
                return Err(LinkError::Overflow);
            }
            Ok(so + sym.st_value)
        } else {
            Err(LinkError::UnsupportedRelocation(r.r_type))
        }
    }

    /// Apply one relocation record to the image.
    fn apply_record(
        &self,
        image: &mut Vec<u8>,
        sec_offset: u64,
        file: usize,
        r: Rela,
    ) -> (res: Result<(), LinkError>)
        ensures
            match res {
                Ok(()) => spec_apply_record(self@, old(image)@, sec_offset, file, r) matches Ok(s)
                    && final(image)@ == s && final(image)@.len() == old(image)@.len(),
                Err(e) => spec_apply_record(self@, old(image)@, sec_offset, file, r)
                    matches Err(ev) && ev == e@ && final(image)@ == old(image)@,
            },
    {
        let il = image.len();
        let target = match self.reloc_target(file, r) {
            Ok(t) => t,
            Err(e) => { return Err(e) },
        };
        if sec_offset > u64::MAX - r.r_offset {
            return Err(LinkError::Overflow);
        }
        let p = sec_offset + r.r_offset;
        let disp: i128 = target as i128 + r.r_addend as i128 - p as i128;
        if disp < i32::MIN as i128 || disp > i32::MAX as i128 {
            return Err(LinkError::Overflow);
        }
        if p > u64::MAX - 4 || p + 4 > il as u64 {
            return Err(LinkError::PatchOutOfRange);
        }
        write_u32_at(image, p as usize, disp as i32 as u32);
        Ok(())
    }

    /// Apply every relocation section to the written image.
    ///
    /// On failure the image may hold some of the patches already; the
    /// pipeline discards it, as a failed link keeps nothing.
    #[verifier::loop_isolation(false)]
    pub fn relocate(&self, image: &mut Vec<u8>) -> (res: Result<(), LinkError>)
        ensures
            match res {
                Ok(()) => spec_relocate(self@, old(image)@) matches Ok(s) && final(image)@ == s,
                Err(e) => spec_relocate(self@, old(image)@) matches Err(ev) && ev == e@,
            },
    {
        let nsec = self.reloc_sections.len();
        let mut si: usize = 0;
        while si < nsec
            invariant
                si <= nsec,
                spec_relocate_prefix(self@, old(image)@, si as int) matches Ok(s) && image@ == s,
                image@.len() == old(image)@.len(),
            decreases nsec - si,
        {
            let rsec = &self.reloc_sections[si];
            let ghost rsec_v = self@.reloc_sections[si as int];
            let soff = match self.find_section_offset(rsec.applies_to_file, rsec.applies_to_sec) {
                Some(a) => a,
                None => {
                    proof {
                        lemma_relocate_prefix_err(self@, old(image)@, si + 1, nsec as int);
                    }
                    return Err(LinkError::UnmappedSection);
                },
            };
            let ghost img_sec = image@;
            let nrec = rsec.relocations.len();
            let mut ri: usize = 0;
            while ri < nrec
                invariant
                    ri <= nrec,
                    nrec == rsec_v.relocations.len(),
                    spec_apply_records_prefix(
                        self@,
                        img_sec,
                        soff,
                        rsec_v.applies_to_file,
                        rsec_v.relocations,
                        ri as int,
                    ) matches Ok(s) && image@ == s,
                    image@.len() == old(image)@.len(),
                decreases nrec - ri,
            {
                let r = self.reloc_sections[si].relocations[ri];
                match self.apply_record(image, soff, self.reloc_sections[si].applies_to_file, r) {
                    Ok(u) => u,
                    Err(e) => {
                        proof {
                            lemma_records_prefix_err(
                                self@,
                                img_sec,
                                soff,
                                rsec_v.applies_to_file,
                                rsec_v.relocations,
                                ri + 1,
                                nrec as int,
                            );
                            lemma_relocate_prefix_err(self@, old(image)@, si + 1, nsec as int);
                        }
                        return Err(e);
                    },
                }
                ri += 1;
            }
            si += 1;
        }
        Ok(())
    }
}

} // verus!
