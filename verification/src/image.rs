//! The image writer: the ELF executable header, the three `PT_LOAD`
//! program headers, and every section's payload copied to its assigned
//! address in a zeroed image of `total_size` bytes.

use crate::bytes::{
    push_u16_le, push_u32_le, push_u64_le, splice, u16_le_bytes, u32_le_bytes, u64_le_bytes,
    write_bytes_at,
};
use crate::elf::{EM_X86_64, ET_EXEC, PAGE_SIZE, PF_R, PF_W, PF_X, PT_LOAD};
use crate::errors::{LinkError, LinkErrorV};
use crate::layout::{spec_output_wf, Output, OutputSection, OutputV, SegmentInfo};
use crate::symtab::{spec_globals_find, spec_sym_get};
use vstd::prelude::*;

verus! {

// ------------------------------------------------------------------
// Section-offset lookup
// ------------------------------------------------------------------

/// The first section of one bucket, at or after `i`, that belongs to file
/// `f` under section-header index `idx`.
pub open spec fn spec_bucket_find(s: Seq<OutputSection>, f: usize, idx: usize, i: int) -> Option<
    OutputSection,
>
    decreases s.len() - i,
{
    if i < 0 || i >= s.len() {
        None
    } else if s[i].input_section.file_idx == f && s[i].input_section.shdr_idx == idx {
        Some(s[i])
    } else {
        spec_bucket_find(s, f, idx, i + 1)
    }
}

/// A found section is one of the bucket's elements.
pub proof fn lemma_bucket_find_member(s: Seq<OutputSection>, f: usize, idx: usize, i: int)
    requires
        spec_bucket_find(s, f, idx, i) is Some,
    ensures
        exists|j: int|
            i <= j < s.len() && s[j] == spec_bucket_find(s, f, idx, i)->Some_0,
    decreases s.len() - i,
{
    if !(i < 0 || i >= s.len()) {
        if s[i].input_section.file_idx == f && s[i].input_section.shdr_idx == idx {
        } else {
            lemma_bucket_find_member(s, f, idx, i + 1);
        }
    }
}

/// The section assigned for `(f, idx)`, searching code, then writable
/// data, then read-only data.
pub open spec fn spec_find_section(o: OutputV, f: usize, idx: usize) -> Option<OutputSection> {
    match spec_bucket_find(o.code_sections, f, idx, 0) {
        Some(s) => Some(s),
        None => match spec_bucket_find(o.data_sections, f, idx, 0) {
            Some(s) => Some(s),
            None => spec_bucket_find(o.ro_data_sections, f, idx, 0),
        },
    }
}

/// The assigned offset for `(f, idx)`, if that section was laid out.
pub open spec fn spec_find_offset(o: OutputV, f: usize, idx: usize) -> Option<u64> {
    match spec_find_section(o, f, idx) {
        Some(s) => Some(s.address),
        None => None,
    }
}

fn bucket_find(s: &Vec<OutputSection>, f: usize, idx: usize) -> (r: Option<OutputSection>)
    ensures
        r == spec_bucket_find(s@, f, idx, 0),
{
    let n = s.len();
    let mut i: usize = 0;
    while i < n
        invariant
            i <= n,
            n == s@.len(),
            spec_bucket_find(s@, f, idx, 0) == spec_bucket_find(s@, f, idx, i as int),
        decreases n - i,
    {
        if s[i].input_section.file_idx == f && s[i].input_section.shdr_idx == idx {
            return Some(s[i]);
        }
        i += 1;
    }
    None
}

impl Output {
    /// The section assigned for `(file_idx, shdr_idx)`, if any.
    pub fn find_section(&self, file_idx: usize, shdr_idx: usize) -> (r: Option<OutputSection>)
        ensures
            r == spec_find_section(self@, file_idx, shdr_idx),
    {
        match bucket_find(&self.code_sections, file_idx, shdr_idx) {
            Some(s) => Some(s),
            None => match bucket_find(&self.data_sections, file_idx, shdr_idx) {
                Some(s) => Some(s),
                None => bucket_find(&self.ro_data_sections, file_idx, shdr_idx),
            },
        }
    }

    /// The assigned offset for `(file_idx, shdr_idx)`, if any.
    pub fn find_section_offset(&self, file_idx: usize, shdr_idx: usize) -> (r: Option<u64>)
        ensures
            r == spec_find_offset(self@, file_idx, shdr_idx),
    {
        match self.find_section(file_idx, shdr_idx) {
            Some(s) => Some(s.address),
            None => None,
        }
    }
}

// ------------------------------------------------------------------
// Segments and headers
// ------------------------------------------------------------------

/// A segment's file range: from its first section's address to the end of
/// its last; empty buckets give an all-zero segment.
pub open spec fn spec_segment_info(s: Seq<OutputSection>) -> SegmentInfo {
    if s.len() == 0 {
        SegmentInfo { offset: 0, size: 0 }
    } else {
        let first = s[0];
        let last = s[s.len() - 1];
        SegmentInfo {
            offset: first.address,
            size: (last.address + last.input_section.section.sh_size - first.address) as u64,
        }
    }
}

/// The range covered by one segment.
pub fn segment_info(sections: &Vec<OutputSection>) -> (r: SegmentInfo)
    requires
        sections@.len() > 0 ==> sections@[0].address <= sections@[sections@.len() - 1].address
            && sections@[sections@.len() - 1].address + sections@[sections@.len()
            - 1].input_section.section.sh_size <= u64::MAX,
    ensures
        r == spec_segment_info(sections@),
{
    let n = sections.len();
    if n == 0 {
        SegmentInfo { offset: 0, size: 0 }
    } else {
        let first = sections[0];
        let last = sections[n - 1];
        SegmentInfo {
            offset: first.address,
            size: last.address + last.input_section.section.sh_size - first.address,
        }
    }
}

/// One program header of the output executable.
#[derive(Clone, Copy, PartialEq, Eq, Structural, Debug)]
pub struct ProgramHeader {
    pub p_type: u32,
    pub p_flags: u32,
    pub p_offset: u64,
    pub p_vaddr: u64,
    pub p_paddr: u64,
    pub p_filesz: u64,
    pub p_memsz: u64,
    pub p_align: u64,
}

/// The `PT_LOAD` header of one segment, before its flags are chosen:
/// offset, virtual and physical address coincide, file and memory size
/// coincide, alignment is one page.
pub open spec fn spec_prog_header(info: SegmentInfo) -> ProgramHeader {
    ProgramHeader {
        p_type: PT_LOAD,
        p_flags: 0,
        p_offset: info.offset,
        p_vaddr: info.offset,
        p_paddr: info.offset,
        p_filesz: info.size,
        p_memsz: info.size,
        p_align: PAGE_SIZE,
    }
}

/// Build the flagless `PT_LOAD` header of one segment.
pub fn prog_header(info: SegmentInfo) -> (r: ProgramHeader)
    ensures
        r == spec_prog_header(info),
{
    ProgramHeader {
        p_type: PT_LOAD,
        p_flags: 0,
        p_offset: info.offset,
        p_vaddr: info.offset,
        p_paddr: info.offset,
        p_filesz: info.size,
        p_memsz: info.size,
        p_align: PAGE_SIZE,
    }
}

/// Where program header `i` sits in the file: right after the ELF header.
pub fn prog_header_offset(i: usize) -> (r: usize)
    requires
        i <= 2,
    ensures
        r == 64 + 56 * i,
{
    64 + 56 * i
}

/// The 64 bytes of the output's ELF header: a little-endian 64-bit
/// executable for x86-64 with entry `entry`, three program headers right
/// after the header, and no section-header table.
pub open spec fn spec_ehdr_bytes(entry: u64) -> Seq<u8> {
    seq![
        0x7fu8,
        0x45u8,
        0x4cu8,
        0x46u8,
        2u8,
        1u8,
        1u8,
        0u8,
        0u8,
        0u8,
        0u8,
        0u8,
        0u8,
        0u8,
        0u8,
        0u8,
    ] + u16_le_bytes(ET_EXEC) + u16_le_bytes(EM_X86_64) + u32_le_bytes(1) + u64_le_bytes(entry)
        + u64_le_bytes(64) + u64_le_bytes(0) + u32_le_bytes(0) + u16_le_bytes(64) + u16_le_bytes(
        56,
    ) + u16_le_bytes(3) + u16_le_bytes(64) + u16_le_bytes(0) + u16_le_bytes(0)
}

/// The 56 bytes of one program header.
pub open spec fn spec_phdr_bytes(h: ProgramHeader) -> Seq<u8> {
    u32_le_bytes(h.p_type) + u32_le_bytes(h.p_flags) + u64_le_bytes(h.p_offset) + u64_le_bytes(
        h.p_vaddr,
    ) + u64_le_bytes(h.p_paddr) + u64_le_bytes(h.p_filesz) + u64_le_bytes(h.p_memsz)
        + u64_le_bytes(h.p_align)
}

fn ehdr_bytes(entry: u64) -> (r: Vec<u8>)
    ensures
        r@ == spec_ehdr_bytes(entry),
{
    let mut v: Vec<u8> = Vec::new();
    v.push(0x7f);
    v.push(0x45);
    v.push(0x4c);
    v.push(0x46);
    v.push(2);
    v.push(1);
    v.push(1);
    v.push(0);
    let mut k: usize = 0;
    while k < 8
        invariant
            k <= 8,
            v@.len() == 8 + k,
            forall|j: int| 0 <= j < v@.len() ==> v@[j] == spec_ehdr_bytes(entry)[j],
        decreases 8 - k,
    {
        v.push(0);
        k += 1;
    }
    push_u16_le(&mut v, ET_EXEC);
    push_u16_le(&mut v, EM_X86_64);
    push_u32_le(&mut v, 1);
    push_u64_le(&mut v, entry);
    push_u64_le(&mut v, 64);
    push_u64_le(&mut v, 0);
    push_u32_le(&mut v, 0);
    push_u16_le(&mut v, 64);
    push_u16_le(&mut v, 56);
    push_u16_le(&mut v, 3);
    push_u16_le(&mut v, 64);
    push_u16_le(&mut v, 0);
    push_u16_le(&mut v, 0);
    proof {
        assert(v@ =~= spec_ehdr_bytes(entry));
    }
    v
}

fn phdr_bytes(h: ProgramHeader) -> (r: Vec<u8>)
    ensures
        r@ == spec_phdr_bytes(h),
{
    let mut v: Vec<u8> = Vec::new();
    push_u32_le(&mut v, h.p_type);
    push_u32_le(&mut v, h.p_flags);
    push_u64_le(&mut v, h.p_offset);
    push_u64_le(&mut v, h.p_vaddr);
    push_u64_le(&mut v, h.p_paddr);
    push_u64_le(&mut v, h.p_filesz);
    push_u64_le(&mut v, h.p_memsz);
    push_u64_le(&mut v, h.p_align);
    proof {
        assert(v@ =~= spec_phdr_bytes(h));
    }
    v
}

// ------------------------------------------------------------------
// The entry point
// ------------------------------------------------------------------

/// The name of the entry symbol, `_start`.
pub open spec fn spec_start_name() -> Seq<u8> {
    seq![95u8, 115u8, 116u8, 97u8, 114u8, 116u8]
}

/// The bytes of the name `_start`.
pub fn start_name() -> (r: Vec<u8>)
    ensures
        r@ == spec_start_name(),
{
    let mut v: Vec<u8> = Vec::new();
    v.push(95);
    v.push(115);
    v.push(116);
    v.push(97);
    v.push(114);
    v.push(116);
    proof {
        assert(v@ =~= spec_start_name());
    }
    v
}

/// The entry address: where the defined global `_start` was laid out,
/// plus its offset inside its section.
pub open spec fn spec_entry(o: OutputV) -> Result<u64, LinkErrorV> {
    match spec_globals_find(o.symtab.globals, spec_start_name(), 0) {
        None => Err(LinkErrorV::UndefinedSymbol(spec_start_name())),
        Some(d) => match spec_sym_get(o.symtab, d.file_idx, d.sym_idx) {
            None => Err(LinkErrorV::Truncated),
            Some(sym) => match spec_find_offset(o, d.file_idx, sym.st_shndx as usize) {
                None => Err(LinkErrorV::UnmappedSection),
                Some(secoff) => if secoff + sym.st_value > u64::MAX {
                    Err(LinkErrorV::Overflow)
                } else {
                    Ok((secoff + sym.st_value) as u64)
                },
            },
        },
    }
}

impl Output {
    /// Resolve the entry address of `_start`.
    pub fn entry_point(&self) -> (r: Result<u64, LinkError>)
        ensures
            match r {
                Ok(e) => spec_entry(self@) == Ok::<u64, LinkErrorV>(e),
                Err(e) => spec_entry(self@) matches Err(ev) && ev == e@,
            },
    {
        let name = start_name();
        let (file_idx, sym_idx) = match self.symtab.find_global(&name) {
            Some(p) => p,
            None => { return Err(LinkError::UndefinedSymbol(name)) },
        };
        let sym = match self.symtab.get(file_idx, sym_idx) {
            Some(s) => s,
            None => { return Err(LinkError::Truncated) },
        };
        let secoff = match self.find_section_offset(file_idx, sym.st_shndx as usize) {
            Some(a) => a,
            None => { return Err(LinkError::UnmappedSection) },
        };
        if secoff > u64::MAX - sym.st_value {
            return Err(LinkError::Overflow);
        }
        Ok(secoff + sym.st_value)
    }
}

// ------------------------------------------------------------------
// Copying section payloads
// ------------------------------------------------------------------

/// One section's payload laid over the image at its assigned address, or
/// the failure if the payload lies outside its input buffer.
pub open spec fn spec_copy_section(bufs: Seq<Seq<u8>>, img: Seq<u8>, s: OutputSection) -> Result<
    Seq<u8>,
    LinkErrorV,
> {
    let f = s.input_section.file_idx;
    let off = s.input_section.section.sh_offset;
    let size = s.input_section.section.sh_size;
    if f >= bufs.len() {
        Err(LinkErrorV::Truncated)
    } else if off + size > bufs[f as int].len() {
        Err(LinkErrorV::Truncated)
    } else {
        Ok(splice(img, s.address as int, bufs[f as int].subrange(off as int, off + size)))
    }
}

/// The image after copying the first `i` sections of one bucket.
pub open spec fn spec_copy_prefix(
    bufs: Seq<Seq<u8>>,
    img: Seq<u8>,
    secs: Seq<OutputSection>,
    i: int,
) -> Result<Seq<u8>, LinkErrorV>
    decreases i,
{
    if i <= 0 {
        Ok(img)
    } else {
        match spec_copy_prefix(bufs, img, secs, i - 1) {
            Err(e) => Err(e),
            Ok(cur) => spec_copy_section(bufs, cur, secs[i - 1]),
        }
    }
}

/// If copying has already failed at `i`, it stays failed at any later `j`
/// with the same error.
pub proof fn lemma_copy_prefix_err(
    bufs: Seq<Seq<u8>>,
    img: Seq<u8>,
    secs: Seq<OutputSection>,
    i: int,
    j: int,
)
    requires
        0 <= i <= j,
        spec_copy_prefix(bufs, img, secs, i) is Err,
    ensures
        spec_copy_prefix(bufs, img, secs, j) == spec_copy_prefix(bufs, img, secs, i),
    decreases j - i,
{
    if i < j {
        lemma_copy_prefix_err(bufs, img, secs, i, j - 1);
    }
}

/// Copying never changes the image's length.
pub proof fn lemma_copy_prefix_len(
    bufs: Seq<Seq<u8>>,
    img: Seq<u8>,
    secs: Seq<OutputSection>,
    i: int,
)
    requires
        0 <= i,
        spec_copy_prefix(bufs, img, secs, i) is Ok,
    ensures
        spec_copy_prefix(bufs, img, secs, i)->Ok_0.len() == img.len(),
    decreases i,
{
    if i > 0 {
        lemma_copy_prefix_len(bufs, img, secs, i - 1);
    }
}

#[verifier::loop_isolation(false)]
fn copy_bucket(bufs: &Vec<Vec<u8>>, secs: &Vec<OutputSection>, image: &mut Vec<u8>) -> (r: Result<
    (),
    LinkError,
>)
    requires
        forall|j: int|
            0 <= j < secs@.len() ==> (#[trigger] secs@[j]).address
                + secs@[j].input_section.section.sh_size <= old(image)@.len(),
    ensures
        ({
            let bufs_v = Seq::new(bufs@.len(), |i: int| bufs@[i]@);
            match r {
                Ok(()) => spec_copy_prefix(bufs_v, old(image)@, secs@, secs@.len() as int)
                    matches Ok(s) && final(image)@ == s,
                Err(e) => spec_copy_prefix(bufs_v, old(image)@, secs@, secs@.len() as int)
                    matches Err(ev) && ev == e@,
            }
        }),
{
    let ghost bufs_v = Seq::new(bufs@.len(), |i: int| bufs@[i]@);
    let il = image.len();
    let n = secs.len();
    let mut i: usize = 0;
    while i < n
        invariant
            i <= n,
            spec_copy_prefix(bufs_v, old(image)@, secs@, i as int) matches Ok(s) && image@ == s,
            image@.len() == old(image)@.len(),
            il == old(image)@.len(),
        decreases n - i,
    {
        let s = secs[i];
        let f = s.input_section.file_idx;
        let off = s.input_section.section.sh_offset;
        let size = s.input_section.section.sh_size;
        if f >= bufs.len() {
            proof {
                lemma_copy_prefix_err(bufs_v, old(image)@, secs@, i + 1, n as int);
            }
            return Err(LinkError::Truncated);
        }
        let fb = &bufs[f];
        let fb_len = fb.len();
        if off > u64::MAX - size || off + size > fb_len as u64 {
            proof {
                lemma_copy_prefix_err(bufs_v, old(image)@, secs@, i + 1, n as int);
            }
            return Err(LinkError::Truncated);
        }
        crate::bytes::copy_range(image, s.address as usize, fb, off as usize, size as usize);
        proof {
            assert(fb@ == bufs_v[f as int]);
        }
        i += 1;
    }
    Ok(())
}

// ------------------------------------------------------------------
// Writing the whole image
// ------------------------------------------------------------------

/// The written image as a pure function of the layout and the blank
/// image: the ELF header at offset zero, the three `PT_LOAD` headers
/// right after it (code readable-executable, writable data
/// readable-writable, read-only data readable), then every section's
/// payload at its assigned address.
pub open spec fn spec_write_image(o: OutputV, img0: Seq<u8>) -> Result<Seq<u8>, LinkErrorV> {
    match spec_entry(o) {
        Err(e) => Err(e),
        Ok(entry) => {
            let code_info = spec_segment_info(o.code_sections);
            let data_info = spec_segment_info(o.data_sections);
            let ro_info = spec_segment_info(o.ro_data_sections);
            let h_code = ProgramHeader { p_flags: PF_R | PF_X, ..spec_prog_header(code_info) };
            let h_data = ProgramHeader { p_flags: PF_R | PF_W, ..spec_prog_header(data_info) };
            let h_ro = ProgramHeader { p_flags: PF_R, ..spec_prog_header(ro_info) };
            let img1 = splice(img0, 0, spec_ehdr_bytes(entry));
            let img2 = splice(img1, 64, spec_phdr_bytes(h_code));
            let img3 = splice(img2, 120, spec_phdr_bytes(h_data));
            let img4 = splice(img3, 176, spec_phdr_bytes(h_ro));
            match spec_copy_prefix(o.file_buffers, img4, o.code_sections, o.code_sections.len() as int) {
                Err(e) => Err(e),
                Ok(img5) => match spec_copy_prefix(
                    o.file_buffers,
                    img5,
                    o.data_sections,
                    o.data_sections.len() as int,
                ) {
                    Err(e) => Err(e),
                    Ok(img6) => spec_copy_prefix(
                        o.file_buffers,
                        img6,
                        o.ro_data_sections,
                        o.ro_data_sections.len() as int,
                    ),
                },
            }
        },
    }
}

/// Copying sections that all sit at or beyond `bound` leaves every byte
/// below `bound` unchanged.
pub proof fn lemma_copy_prefix_low(
    bufs: Seq<Seq<u8>>,
    img: Seq<u8>,
    secs: Seq<OutputSection>,
    i: int,
    bound: int,
)
    requires
        0 <= i <= secs.len(),
        spec_copy_prefix(bufs, img, secs, i) is Ok,
        forall|j: int| 0 <= j < secs.len() ==> bound <= (#[trigger] secs[j]).address,
    ensures
        forall|k: int|
            0 <= k < bound && k < img.len() ==> spec_copy_prefix(bufs, img, secs, i)->Ok_0[k]
                == img[k],
    decreases i,
{
    if i > 0 {
        lemma_copy_prefix_low(bufs, img, secs, i - 1, bound);
        lemma_copy_prefix_len(bufs, img, secs, i - 1);
        let prev = spec_copy_prefix(bufs, img, secs, i - 1)->Ok_0;
        let cur = spec_copy_prefix(bufs, img, secs, i)->Ok_0;
        assert(bound <= secs[i - 1].address);
        assert forall|k: int| 0 <= k < bound && k < img.len() implies cur[k] == prev[k] by {}
    }
}

/// A resolved section offset is a laid-out address, so it lies at or
/// beyond the first page.
pub proof fn lemma_find_offset_low(o: OutputV, f: usize, idx: usize)
    requires
        spec_output_wf(o),
        spec_find_offset(o, f, idx) is Some,
    ensures
        PAGE_SIZE <= spec_find_offset(o, f, idx)->Some_0,
{
    crate::layout::lemma_output_wf_bounds(o);
    if spec_bucket_find(o.code_sections, f, idx, 0) is Some {
        lemma_bucket_find_member(o.code_sections, f, idx, 0);
    } else if spec_bucket_find(o.data_sections, f, idx, 0) is Some {
        lemma_bucket_find_member(o.data_sections, f, idx, 0);
    } else {
        lemma_bucket_find_member(o.ro_data_sections, f, idx, 0);
    }
}

/// The header block of a written image, byte for byte: the ELF header's
/// 64 bytes at offset zero, then the three 56-byte program headers.
proof fn lemma_written_header_bytes(o: OutputV, img0: Seq<u8>)
    requires
        spec_output_wf(o),
        img0.len() == o.total_size,
        spec_write_image(o, img0) is Ok,
    ensures
        ({
            let img = spec_write_image(o, img0)->Ok_0;
            let entry = spec_entry(o)->Ok_0;
            let cb = spec_phdr_bytes(
                ProgramHeader {
                    p_flags: PF_R | PF_X,
                    ..spec_prog_header(spec_segment_info(o.code_sections))
                },
            );
            let db = spec_phdr_bytes(
                ProgramHeader {
                    p_flags: PF_R | PF_W,
                    ..spec_prog_header(spec_segment_info(o.data_sections))
                },
            );
            let rb = spec_phdr_bytes(
                ProgramHeader {
                    p_flags: PF_R,
                    ..spec_prog_header(spec_segment_info(o.ro_data_sections))
                },
            );
            &&& img.len() == img0.len()
            &&& forall|k: int| 0 <= k < 64 ==> img[k] == spec_ehdr_bytes(entry)[k]
            &&& forall|k: int| 0 <= k < 56 ==> img[64 + k] == cb[k]
            &&& forall|k: int| 0 <= k < 56 ==> img[120 + k] == db[k]
            &&& forall|k: int| 0 <= k < 56 ==> img[176 + k] == rb[k]
        }),
{
    crate::layout::lemma_output_wf_bounds(o);
    let entry = spec_entry(o)->Ok_0;
    let ci = spec_segment_info(o.code_sections);
    let di = spec_segment_info(o.data_sections);
    let ri = spec_segment_info(o.ro_data_sections);
    let eh = spec_ehdr_bytes(entry);
    let cb = spec_phdr_bytes(ProgramHeader { p_flags: PF_R | PF_X, ..spec_prog_header(ci) });
    let db = spec_phdr_bytes(ProgramHeader { p_flags: PF_R | PF_W, ..spec_prog_header(di) });
    let rb = spec_phdr_bytes(ProgramHeader { p_flags: PF_R, ..spec_prog_header(ri) });
    let img1 = splice(img0, 0, eh);
    let img2 = splice(img1, 64, cb);
    let img3 = splice(img2, 120, db);
    let img4 = splice(img3, 176, rb);
    assert(eh.len() == 64);
    assert(cb.len() == 56 && db.len() == 56 && rb.len() == 56);
    assert forall|k: int| 0 <= k < 64 implies img4[k] == eh[k] by {}
    assert forall|k: int| 0 <= k < 56 implies img4[64 + k] == cb[k] by {}
    assert forall|k: int| 0 <= k < 56 implies img4[120 + k] == db[k] by {}
    assert forall|k: int| 0 <= k < 56 implies img4[176 + k] == rb[k] by {}
    // The payload copies all land at or beyond the first page, so the
    // header block survives them.
    let img5 = spec_copy_prefix(o.file_buffers, img4, o.code_sections, o.code_sections.len() as int)->Ok_0;
    lemma_copy_prefix_low(
        o.file_buffers,
        img4,
        o.code_sections,
        o.code_sections.len() as int,
        PAGE_SIZE as int,
    );
    lemma_copy_prefix_len(o.file_buffers, img4, o.code_sections, o.code_sections.len() as int);
    let img6 = spec_copy_prefix(o.file_buffers, img5, o.data_sections, o.data_sections.len() as int)->Ok_0;
    lemma_copy_prefix_low(
        o.file_buffers,
        img5,
        o.data_sections,
        o.data_sections.len() as int,
        PAGE_SIZE as int,
    );
    lemma_copy_prefix_len(o.file_buffers, img5, o.data_sections, o.data_sections.len() as int);
    lemma_copy_prefix_low(
        o.file_buffers,
        img6,
        o.ro_data_sections,
        o.ro_data_sections.len() as int,
        PAGE_SIZE as int,
    );
    lemma_copy_prefix_len(o.file_buffers, img6, o.ro_data_sections, o.ro_data_sections.len() as int);
}

/// In a written image, the entry field of the ELF header and the offset,
/// size, type and flag fields of the three program headers decode to
/// exactly the values they were built from: the resolved entry and the
/// three segments' ranges.
#[verifier::rlimit(60)]
pub proof fn lemma_written_header_fields(o: OutputV, img0: Seq<u8>)
    requires
        spec_output_wf(o),
        img0.len() == o.total_size,
        spec_write_image(o, img0) is Ok,
    ensures
        ({
            let img = spec_write_image(o, img0)->Ok_0;
            let entry = spec_entry(o)->Ok_0;
            let ci = spec_segment_info(o.code_sections);
            let di = spec_segment_info(o.data_sections);
            let ri = spec_segment_info(o.ro_data_sections);
            &&& img.len() == img0.len()
            &&& crate::bytes::le64_at(img, 24) == entry
            &&& crate::bytes::le32_at(img, 64) == PT_LOAD
            &&& crate::bytes::le32_at(img, 68) == (PF_R | PF_X)
            &&& crate::bytes::le64_at(img, 72) == ci.offset
            &&& crate::bytes::le64_at(img, 96) == ci.size
            &&& crate::bytes::le32_at(img, 120) == PT_LOAD
            &&& crate::bytes::le32_at(img, 124) == (PF_R | PF_W)
            &&& crate::bytes::le64_at(img, 128) == di.offset
            &&& crate::bytes::le64_at(img, 152) == di.size
            &&& crate::bytes::le32_at(img, 176) == PT_LOAD
            &&& crate::bytes::le32_at(img, 180) == PF_R
            &&& crate::bytes::le64_at(img, 184) == ri.offset
            &&& crate::bytes::le64_at(img, 208) == ri.size
        }),
{
    lemma_written_header_bytes(o, img0);
    let img = spec_write_image(o, img0)->Ok_0;
    let entry = spec_entry(o)->Ok_0;
    let ci = spec_segment_info(o.code_sections);
    let di = spec_segment_info(o.data_sections);
    let ri = spec_segment_info(o.ro_data_sections);
    crate::bytes::lemma_le64_read(img, 24, entry);
    lemma_phdr_block_fields(img, 64, ProgramHeader { p_flags: PF_R | PF_X, ..spec_prog_header(ci) });
    lemma_phdr_block_fields(img, 120, ProgramHeader { p_flags: PF_R | PF_W, ..spec_prog_header(di) });
    lemma_phdr_block_fields(img, 176, ProgramHeader { p_flags: PF_R, ..spec_prog_header(ri) });
}

/// Decode the type, flag, offset and file-size fields back out of one
/// program header's 56 bytes.
proof fn lemma_phdr_block_fields(img: Seq<u8>, base: int, h: ProgramHeader)
    requires
        forall|k: int| 0 <= k < 56 ==> img[base + k] == spec_phdr_bytes(h)[k],
    ensures
        crate::bytes::le32_at(img, base) == h.p_type,
        crate::bytes::le32_at(img, base + 4) == h.p_flags,
        crate::bytes::le64_at(img, base + 8) == h.p_offset,
        crate::bytes::le64_at(img, base + 32) == h.p_filesz,
{
    let pb = spec_phdr_bytes(h);
    assert forall|k: int| 0 <= k < 4 implies img[base + k] == u32_le_bytes(h.p_type)[k] by {
        assert(img[base + k] == pb[k]);
    }
    crate::bytes::lemma_le32_read(img, base, h.p_type);
    assert forall|k: int| 0 <= k < 4 implies img[base + 4 + k] == u32_le_bytes(h.p_flags)[k] by {
        assert(img[base + (4 + k)] == pb[4 + k]);
    }
    crate::bytes::lemma_le32_read(img, base + 4, h.p_flags);
    assert forall|k: int| 0 <= k < 8 implies img[base + 8 + k] == u64_le_bytes(h.p_offset)[k] by {
        assert(img[base + (8 + k)] == pb[8 + k]);
    }
    crate::bytes::lemma_le64_read(img, base + 8, h.p_offset);
    assert forall|k: int| 0 <= k < 8 implies img[base + 32 + k] == u64_le_bytes(h.p_filesz)[k] by {
        assert(img[base + (32 + k)] == pb[32 + k]);
    }
    crate::bytes::lemma_le64_read(img, base + 32, h.p_filesz);
}

impl Output {
    /// Write the ELF header, the program headers, and every section's
    /// payload into the zeroed image.
    ///
    /// On failure the image may be partially written; the pipeline
    /// discards it, as a failed link keeps nothing.
    pub fn write(&self, image: &mut Vec<u8>) -> (r: Result<(), LinkError>)
        requires
            spec_output_wf(self@),
            old(image)@.len() == self@.total_size,
        ensures
            match r {
                Ok(()) => spec_write_image(self@, old(image)@) matches Ok(s) && final(image)@
                    == s,
                Err(e) => spec_write_image(self@, old(image)@) matches Err(ev) && ev == e@,
            },
    {
        proof {
            crate::layout::lemma_output_wf_bounds(self@);
        }
        let entry = match self.entry_point() {
            Ok(e) => e,
            Err(e) => { return Err(e) },
        };
        let code_info = segment_info(&self.code_sections);
        let data_info = segment_info(&self.data_sections);
        let ro_info = segment_info(&self.ro_data_sections);
        let eh = ehdr_bytes(entry);
        write_bytes_at(image, 0, &eh);
        let mut h_code = prog_header(code_info);
        h_code.p_flags = PF_R | PF_X;
        let hb = phdr_bytes(h_code);
        write_bytes_at(image, prog_header_offset(0), &hb);
        let mut h_data = prog_header(data_info);
        h_data.p_flags = PF_R | PF_W;
        let hb = phdr_bytes(h_data);
        write_bytes_at(image, prog_header_offset(1), &hb);
        let mut h_ro = prog_header(ro_info);
        h_ro.p_flags = PF_R;
        let hb = phdr_bytes(h_ro);
        write_bytes_at(image, prog_header_offset(2), &hb);
        let ghost img4 = image@;
        match copy_bucket(&self.file_buffers, &self.code_sections, image) {
            Ok(u) => u,
            Err(e) => { return Err(e) },
        }
        proof {
            lemma_copy_prefix_len(
                self@.file_buffers,
                img4,
                self@.code_sections,
                self@.code_sections.len() as int,
            );
        }
        let ghost img5 = image@;
        match copy_bucket(&self.file_buffers, &self.data_sections, image) {
            Ok(u) => u,
            Err(e) => { return Err(e) },
        }
        proof {
            lemma_copy_prefix_len(
                self@.file_buffers,
                img5,
                self@.data_sections,
                self@.data_sections.len() as int,
            );
        }
        match copy_bucket(&self.file_buffers, &self.ro_data_sections, image) {
            Ok(u) => u,
            Err(e) => { return Err(e) },
        }
        Ok(())
    }
}

} // verus!
