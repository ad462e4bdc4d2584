//! The layout allocator: assigning every classified section its final
//! file offset, which is also its virtual address.
//!
//! A fixed prefix is reserved for the ELF header and the three program
//! headers.  Each bucket (code, writable data, read-only data) starts at a
//! page boundary; within a bucket each section is aligned to its own
//! `sh_addralign` and sections follow each other in ingestion order.  The
//! resulting [`Output`] is a pure function of the aggregated [`Input`].

use crate::elf::{ELF_HEADER_SIZE, PAGE_SIZE, PROGRAM_HEADER_SIZE};
use crate::errors::{LinkError, LinkErrorV};
use crate::input::{Input, InputSection, InputV, RelocationSection, RelocationSectionV};
use crate::symtab::{SymbolTable, SymbolTableV};
use vstd::arithmetic::div_mod::{lemma_fundamental_div_mod, lemma_mod_bound};
use vstd::prelude::*;

verus! {

/// One section with its assigned address in the output image.
#[derive(Clone, Copy, PartialEq, Eq, Structural, Debug)]
pub struct OutputSection {
    pub address: u64,
    pub input_section: InputSection,
}

/// The file-offset range of one loadable segment.
#[derive(Clone, Copy, PartialEq, Eq, Structural, Debug)]
pub struct SegmentInfo {
    pub offset: u64,
    pub size: u64,
}

/// The laid-out link: every section placed, plus everything carried over
/// from the aggregate for the image writer and the relocator.
pub struct Output {
    pub file_buffers: Vec<Vec<u8>>,
    pub code_sections: Vec<OutputSection>,
    pub data_sections: Vec<OutputSection>,
    pub ro_data_sections: Vec<OutputSection>,
    pub reloc_sections: Vec<RelocationSection>,
    pub symtab: SymbolTable,
    pub total_size: u64,
}

/// The mathematical shadow of [`Output`].
#[verifier::ext_equal]
pub ghost struct OutputV {
    pub file_buffers: Seq<Seq<u8>>,
    pub code_sections: Seq<OutputSection>,
    pub data_sections: Seq<OutputSection>,
    pub ro_data_sections: Seq<OutputSection>,
    pub reloc_sections: Seq<RelocationSectionV>,
    pub symtab: SymbolTableV,
    pub total_size: u64,
}

impl View for Output {
    type V = OutputV;

    open spec fn view(&self) -> OutputV {
        OutputV {
            file_buffers: Seq::new(self.file_buffers@.len(), |i: int| self.file_buffers@[i]@),
            code_sections: self.code_sections@,
            data_sections: self.data_sections@,
            ro_data_sections: self.ro_data_sections@,
            reloc_sections: Seq::new(self.reloc_sections@.len(), |i: int| self.reloc_sections@[i]@),
            symtab: self.symtab@,
            total_size: self.total_size,
        }
    }
}

// ------------------------------------------------------------------
// Alignment
// ------------------------------------------------------------------

/// The least multiple of `al` at or after `offset`.
pub open spec fn spec_align(offset: int, al: int) -> int {
    if offset % al == 0 {
        offset
    } else {
        offset - offset % al + al
    }
}

/// Rounding up lands on a multiple, at or after the start, less than one
/// whole alignment further.
pub proof fn lemma_spec_align(offset: int, al: int)
    requires
        0 <= offset,
        1 <= al,
    ensures
        offset <= spec_align(offset, al) < offset + al,
        spec_align(offset, al) % al == 0,
    decreases 0int,
{
    lemma_mod_bound(offset, al);
    if offset % al != 0 {
        lemma_fundamental_div_mod(offset, al);
        let q = offset / al;
        assert(offset - offset % al + al == al * (q + 1)) by (nonlinear_arith)
            requires
                offset == al * q + offset % al,
        ;
        assert((al * (q + 1)) % al == 0) by (nonlinear_arith)
            requires
                al >= 1,
        ;
    }
}

/// Round `offset` up to the next multiple of `al`.
pub fn align(offset: u64, al: u64) -> (r: u64)
    requires
        1 <= al,
        offset + al <= u64::MAX,
    ensures
        r == spec_align(offset as int, al as int),
        offset <= r < offset + al,
        r as int % al as int == 0,
{
    proof {
        lemma_spec_align(offset as int, al as int);
        lemma_mod_bound(offset as int, al as int);
        assert(offset as int % al as int <= offset as int) by (nonlinear_arith)
            requires
                al >= 1,
                offset >= 0,
        ;
    }
    let rem = offset % al;
    if rem == 0 {
        offset
    } else {
        offset - rem + al
    }
}

// ------------------------------------------------------------------
// Placing one bucket
// ------------------------------------------------------------------

/// The first `i` sections of one bucket placed from `start`: each aligned
/// to its own `sh_addralign`, each followed by its `sh_size` bytes; also
/// the running offset after them.
pub open spec fn spec_place_prefix(secs: Seq<InputSection>, start: int, i: int) -> Result<
    (Seq<OutputSection>, int),
    LinkErrorV,
>
    decreases i,
{
    if i <= 0 {
        Ok((Seq::empty(), start))
    } else {
        match spec_place_prefix(secs, start, i - 1) {
            Err(e) => Err(e),
            Ok((placed, off)) => {
                let sec = secs[i - 1].section;
                if sec.sh_addralign == 0 {
                    Err(LinkErrorV::BadAlignment)
                } else if off + sec.sh_addralign > u64::MAX {
                    Err(LinkErrorV::Overflow)
                } else {
                    let addr = spec_align(off, sec.sh_addralign as int);
                    if addr + sec.sh_size > u64::MAX {
                        Err(LinkErrorV::Overflow)
                    } else {
                        Ok(
                            (
                                placed.push(
                                    OutputSection {
                                        address: addr as u64,
                                        input_section: secs[i - 1],
                                    },
                                ),
                                addr + sec.sh_size,
                            ),
                        )
                    }
                }
            },
        }
    }
}

/// If placement has already failed at `i`, it stays failed at any later
/// `j` with the same error.
pub proof fn lemma_place_prefix_err(secs: Seq<InputSection>, start: int, i: int, j: int)
    requires
        0 <= i <= j,
        spec_place_prefix(secs, start, i) is Err,
    ensures
        spec_place_prefix(secs, start, j) == spec_place_prefix(secs, start, i),
    decreases j - i,
{
    if i < j {
        lemma_place_prefix_err(secs, start, i, j - 1);
    }
}

/// The facts a successful placement guarantees: one placed record per
/// section in order, addresses aligned, monotone, and contained between
/// `start` and the final offset.
pub proof fn lemma_place_prefix_facts(secs: Seq<InputSection>, start: int, i: int)
    requires
        0 <= start <= u64::MAX,
        0 <= i <= secs.len(),
        spec_place_prefix(secs, start, i) is Ok,
    ensures
        ({
            let (placed, end) = spec_place_prefix(secs, start, i)->Ok_0;
            &&& placed.len() == i
            &&& start <= end <= u64::MAX
            &&& forall|j: int| 0 <= j < i ==> (#[trigger] placed[j]).input_section == secs[j]
            &&& forall|j: int|
                0 <= j < i ==> start <= (#[trigger] placed[j]).address
                    && placed[j].address + placed[j].input_section.section.sh_size <= end
            &&& forall|j: int, k: int|
                0 <= j < k < i ==> (#[trigger] placed[j]).address
                    + placed[j].input_section.section.sh_size <= (#[trigger] placed[k]).address
            &&& forall|j: int|
                0 <= j < i ==> (#[trigger] placed[j]).input_section.section.sh_addralign >= 1
                    && placed[j].address as int % placed[j].input_section.section.sh_addralign as int
                    == 0
            &&& (i > 0 && start % secs[0].section.sh_addralign as int == 0 ==> placed[0].address
                == start)
        }),
    decreases i,
{
    if i > 0 {
        lemma_place_prefix_facts(secs, start, i - 1);
        let (prev, off) = spec_place_prefix(secs, start, i - 1)->Ok_0;
        let sec = secs[i - 1].section;
        lemma_spec_align(off, sec.sh_addralign as int);
    }
}

#[verifier::loop_isolation(false)]
fn place_bucket(secs: Vec<InputSection>, start: u64) -> (r: Result<
    (Vec<OutputSection>, u64),
    LinkError,
>)
    ensures
        match r {
            Ok((placed, end)) => spec_place_prefix(secs@, start as int, secs@.len() as int)
                matches Ok(p) && p.0 == placed@ && p.1 == end as int,
            Err(e) => spec_place_prefix(secs@, start as int, secs@.len() as int) matches Err(ev)
                && ev == e@,
        },
{
    let n = secs.len();
    let mut placed: Vec<OutputSection> = Vec::new();
    let mut off: u64 = start;
    let mut i: usize = 0;
    while i < n
        invariant
            i <= n,
            spec_place_prefix(secs@, start as int, i as int) matches Ok(p) && p.0 == placed@
                && p.1 == off as int,
        decreases n - i,
    {
        let isec = secs[i];
        let sec = isec.section;
        if sec.sh_addralign == 0 {
            proof {
                lemma_place_prefix_err(secs@, start as int, i + 1, n as int);
            }
            return Err(LinkError::BadAlignment);
        }
        if off > u64::MAX - sec.sh_addralign {
            proof {
                lemma_place_prefix_err(secs@, start as int, i + 1, n as int);
            }
            return Err(LinkError::Overflow);
        }
        let addr = align(off, sec.sh_addralign);
        if addr > u64::MAX - sec.sh_size {
            proof {
                lemma_place_prefix_err(secs@, start as int, i + 1, n as int);
            }
            return Err(LinkError::Overflow);
        }
        placed.push(OutputSection { address: addr, input_section: isec });
        off = addr + sec.sh_size;
        i += 1;
    }
    Ok((placed, off))
}

// ------------------------------------------------------------------
// The whole layout
// ------------------------------------------------------------------

/// The reserved prefix: the ELF header and three program headers.
pub open spec fn spec_header_block() -> int {
    ELF_HEADER_SIZE + 3 * PROGRAM_HEADER_SIZE
}

/// The laid-out link as a pure function of the aggregate: place code from
/// the first page boundary, then writable data from the next, then
/// read-only data from the next; the final offset is the image size.
pub open spec fn spec_allocate(inp: InputV) -> Result<OutputV, LinkErrorV> {
    let c_start = spec_align(spec_header_block(), PAGE_SIZE as int);
    match spec_place_prefix(inp.code_sections, c_start, inp.code_sections.len() as int) {
        Err(e) => Err(e),
        Ok((code, off1)) => {
            if off1 + PAGE_SIZE > u64::MAX {
                Err(LinkErrorV::Overflow)
            } else {
                let d_start = spec_align(off1, PAGE_SIZE as int);
                match spec_place_prefix(inp.data_sections, d_start, inp.data_sections.len() as int) {
                    Err(e) => Err(e),
                    Ok((data, off2)) => {
                        if off2 + PAGE_SIZE > u64::MAX {
                            Err(LinkErrorV::Overflow)
                        } else {
                            let r_start = spec_align(off2, PAGE_SIZE as int);
                            match spec_place_prefix(
                                inp.ro_data_sections,
                                r_start,
                                inp.ro_data_sections.len() as int,
                            ) {
                                Err(e) => Err(e),
                                Ok((ro, off3)) => Ok(
                                    OutputV {
                                        file_buffers: inp.file_buffers,
                                        code_sections: code,
                                        data_sections: data,
                                        ro_data_sections: ro,
                                        reloc_sections: inp.reloc_sections,
                                        symtab: inp.symtab,
                                        total_size: off3 as u64,
                                    },
                                ),
                            }
                        }
                    },
                }
            }
        },
    }
}

/// The shadow of a layout result.
pub open spec fn out_result_view(r: Result<Output, LinkError>) -> Result<OutputV, LinkErrorV> {
    match r {
        Ok(o) => Ok(o@),
        Err(e) => Err(e@),
    }
}

impl Input {
    /// Lay out every classified section and fix the image size.
    pub fn allocate(self) -> (r: Result<Output, LinkError>)
        ensures
            out_result_view(r) == spec_allocate(self@),
            r matches Ok(out) ==> spec_output_wf(out@),
    {
        let ghost inp_v = self@;
        let Input {
            file_buffers,
            code_sections,
            data_sections,
            ro_data_sections,
            reloc_sections,
            symtab,
        } = self;
        let c_start = align(ELF_HEADER_SIZE + 3 * PROGRAM_HEADER_SIZE, PAGE_SIZE);
        let (code, off1) = match place_bucket(code_sections, c_start) {
            Ok(p) => p,
            Err(e) => { return Err(e) },
        };
        if off1 > u64::MAX - PAGE_SIZE {
            return Err(LinkError::Overflow);
        }
        let d_start = align(off1, PAGE_SIZE);
        let (data, off2) = match place_bucket(data_sections, d_start) {
            Ok(p) => p,
            Err(e) => { return Err(e) },
        };
        if off2 > u64::MAX - PAGE_SIZE {
            return Err(LinkError::Overflow);
        }
        let r_start = align(off2, PAGE_SIZE);
        let (ro, off3) = match place_bucket(ro_data_sections, r_start) {
            Ok(p) => p,
            Err(e) => { return Err(e) },
        };
        let out = Output {
            file_buffers,
            code_sections: code,
            data_sections: data,
            ro_data_sections: ro,
            reloc_sections,
            symtab,
            total_size: off3,
        };
        proof {
            assert(out@ =~= spec_allocate(inp_v)->Ok_0);
            lemma_allocate_wf(inp_v);
        }
        Ok(out)
    }
}

// ------------------------------------------------------------------
// Well-formedness of a layout, and what follows from it
// ------------------------------------------------------------------

/// Sections of one bucket: contained in the image, in increasing
/// non-overlapping order, each aligned to its own `sh_addralign`.
pub open spec fn spec_bucket_wf(s: Seq<OutputSection>, lo: int, hi: int) -> bool {
    &&& forall|j: int|
        0 <= j < s.len() ==> lo <= (#[trigger] s[j]).address && s[j].address
            + s[j].input_section.section.sh_size <= hi
    &&& forall|j: int, k: int|
        0 <= j < k < s.len() ==> (#[trigger] s[j]).address
            + s[j].input_section.section.sh_size <= (#[trigger] s[k]).address
    &&& forall|j: int|
        0 <= j < s.len() ==> (#[trigger] s[j]).input_section.section.sh_addralign >= 1
            && s[j].address as int % s[j].input_section.section.sh_addralign as int == 0
}

/// A laid-out link: the three buckets sit one after another between the
/// reserved header block and `total_size`, each internally ordered and
/// aligned.  These bounds are phrased through two cut points `mid1` and
/// `mid2` between the buckets.
pub open spec fn spec_output_wf(o: OutputV) -> bool {
    exists|mid1: int, mid2: int|
        {
            &&& spec_header_block() <= PAGE_SIZE as int <= mid1 <= mid2 <= o.total_size
                <= u64::MAX
            &&& #[trigger] spec_bucket_wf(o.code_sections, PAGE_SIZE as int, mid1)
            &&& #[trigger] spec_bucket_wf(o.data_sections, mid1, mid2)
            &&& spec_bucket_wf(o.ro_data_sections, mid2, o.total_size as int)
            &&& PAGE_SIZE <= o.total_size
        }
}

/// A successful layout is well-formed.
pub proof fn lemma_allocate_wf(inp: InputV)
    requires
        spec_allocate(inp) is Ok,
    ensures
        spec_output_wf(spec_allocate(inp)->Ok_0),
{
    let o = spec_allocate(inp)->Ok_0;
    let c_start = spec_align(spec_header_block(), PAGE_SIZE as int);
    lemma_spec_align(spec_header_block(), PAGE_SIZE as int);
    let (code, off1) = spec_place_prefix(inp.code_sections, c_start, inp.code_sections.len() as int)->Ok_0;
    lemma_place_prefix_facts(inp.code_sections, c_start, inp.code_sections.len() as int);
    let d_start = spec_align(off1, PAGE_SIZE as int);
    lemma_spec_align(off1, PAGE_SIZE as int);
    let (data, off2) = spec_place_prefix(inp.data_sections, d_start, inp.data_sections.len() as int)->Ok_0;
    lemma_place_prefix_facts(inp.data_sections, d_start, inp.data_sections.len() as int);
    let r_start = spec_align(off2, PAGE_SIZE as int);
    lemma_spec_align(off2, PAGE_SIZE as int);
    let (ro, off3) = spec_place_prefix(inp.ro_data_sections, r_start, inp.ro_data_sections.len() as int)->Ok_0;
    lemma_place_prefix_facts(inp.ro_data_sections, r_start, inp.ro_data_sections.len() as int);
    assert(spec_bucket_wf(o.code_sections, PAGE_SIZE as int, d_start));
    assert(spec_bucket_wf(o.data_sections, d_start, r_start));
    assert(spec_bucket_wf(o.ro_data_sections, r_start, o.total_size as int));
}

/// The plain consequences of a well-formed layout, with the cut points
/// eliminated: containment in the image, per-bucket order and alignment,
/// and bucket-after-bucket order.
pub proof fn lemma_output_wf_bounds(o: OutputV)
    requires
        spec_output_wf(o),
    ensures
        spec_header_block() <= PAGE_SIZE <= o.total_size,
        forall|j: int|
            0 <= j < o.code_sections.len() ==> PAGE_SIZE <= (#[trigger] o.code_sections[j]).address
                && o.code_sections[j].address
                + o.code_sections[j].input_section.section.sh_size <= o.total_size,
        forall|j: int|
            0 <= j < o.data_sections.len() ==> PAGE_SIZE <= (#[trigger] o.data_sections[j]).address
                && o.data_sections[j].address
                + o.data_sections[j].input_section.section.sh_size <= o.total_size,
        forall|j: int|
            0 <= j < o.ro_data_sections.len() ==> PAGE_SIZE <= (
            #[trigger] o.ro_data_sections[j]).address && o.ro_data_sections[j].address
                + o.ro_data_sections[j].input_section.section.sh_size <= o.total_size,
        forall|j: int, k: int|
            0 <= j < k < o.code_sections.len() ==> (#[trigger] o.code_sections[j]).address
                + o.code_sections[j].input_section.section.sh_size
                <= (#[trigger] o.code_sections[k]).address,
        forall|j: int, k: int|
            0 <= j < k < o.data_sections.len() ==> (#[trigger] o.data_sections[j]).address
                + o.data_sections[j].input_section.section.sh_size
                <= (#[trigger] o.data_sections[k]).address,
        forall|j: int, k: int|
            0 <= j < k < o.ro_data_sections.len() ==> (#[trigger] o.ro_data_sections[j]).address
                + o.ro_data_sections[j].input_section.section.sh_size
                <= (#[trigger] o.ro_data_sections[k]).address,
        forall|j: int, k: int|
            0 <= j < o.code_sections.len() && 0 <= k < o.data_sections.len() ==> (
            #[trigger] o.code_sections[j]).address
                + o.code_sections[j].input_section.section.sh_size
                <= (#[trigger] o.data_sections[k]).address,
        forall|j: int, k: int|
            0 <= j < o.data_sections.len() && 0 <= k < o.ro_data_sections.len() ==> (
            #[trigger] o.data_sections[j]).address
                + o.data_sections[j].input_section.section.sh_size
                <= (#[trigger] o.ro_data_sections[k]).address,
        forall|j: int, k: int|
            0 <= j < o.code_sections.len() && 0 <= k < o.ro_data_sections.len() ==> (
            #[trigger] o.code_sections[j]).address
                + o.code_sections[j].input_section.section.sh_size
                <= (#[trigger] o.ro_data_sections[k]).address,
        forall|j: int|
            0 <= j < o.code_sections.len() ==> (
            #[trigger] o.code_sections[j]).input_section.section.sh_addralign >= 1
                && o.code_sections[j].address as int
                % o.code_sections[j].input_section.section.sh_addralign as int == 0,
        forall|j: int|
            0 <= j < o.data_sections.len() ==> (
            #[trigger] o.data_sections[j]).input_section.section.sh_addralign >= 1
                && o.data_sections[j].address as int
                % o.data_sections[j].input_section.section.sh_addralign as int == 0,
        forall|j: int|
            0 <= j < o.ro_data_sections.len() ==> (
            #[trigger] o.ro_data_sections[j]).input_section.section.sh_addralign >= 1
                && o.ro_data_sections[j].address as int
                % o.ro_data_sections[j].input_section.section.sh_addralign as int == 0,
{
    let (mid1, mid2) = choose|mid1: int, mid2: int|
        {
            &&& spec_header_block() <= PAGE_SIZE as int <= mid1 <= mid2 <= o.total_size
                <= u64::MAX
            &&& #[trigger] spec_bucket_wf(o.code_sections, PAGE_SIZE as int, mid1)
            &&& #[trigger] spec_bucket_wf(o.data_sections, mid1, mid2)
            &&& spec_bucket_wf(o.ro_data_sections, mid2, o.total_size as int)
            &&& PAGE_SIZE <= o.total_size
        };
    assert(spec_bucket_wf(o.code_sections, PAGE_SIZE as int, mid1));
    assert(spec_bucket_wf(o.data_sections, mid1, mid2));
    assert(spec_bucket_wf(o.ro_data_sections, mid2, o.total_size as int));
}

} // verus!
