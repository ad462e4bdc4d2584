//! The whole link, end to end: ingest every buffer in order, lay the
//! sections out, write the image, apply the relocations.
//!
//! [`link`]'s result is pinned to [`spec_link`], a pure function of the
//! input buffers, which is what the determinism and order-stability laws
//! below rest on.

use crate::bytes::zeroes;
use crate::errors::{LinkError, LinkErrorV};
use crate::image::{spec_segment_info, spec_write_image};
use crate::input::{spec_ingest_prefix, Input, InputV};
use crate::layout::{
    lemma_allocate_wf, lemma_output_wf_bounds, lemma_place_prefix_facts, lemma_spec_align,
    spec_align, spec_allocate, spec_header_block, spec_place_prefix,
};
use crate::relocate::spec_relocate;
use vstd::arithmetic::div_mod::lemma_fundamental_div_mod;
use vstd::prelude::*;

verus! {

/// Everything after ingestion, as a pure function of the aggregate:
/// layout, a zeroed image of the laid-out size, the written image, the
/// relocated image.
pub open spec fn spec_link_output(inp: InputV) -> Result<Seq<u8>, LinkErrorV> {
    match spec_allocate(inp) {
        Err(e) => Err(e),
        Ok(o) => {
            if o.total_size > usize::MAX {
                Err(LinkErrorV::Overflow)
            } else {
                let img0 = Seq::new(o.total_size as nat, |i: int| 0u8);
                match spec_write_image(o, img0) {
                    Err(e) => Err(e),
                    Ok(img1) => spec_relocate(o, img1),
                }
            }
        },
    }
}

/// The linked executable image as a pure function of the input buffers,
/// or the first fatal failure.
pub open spec fn spec_link(buffers: Seq<Seq<u8>>) -> Result<Seq<u8>, LinkErrorV> {
    match spec_ingest_prefix(buffers, buffers.len() as int) {
        Err(e) => Err(e),
        Ok(inp) => spec_link_output(inp),
    }
}

/// Link the given relocatable objects, in order, into one executable
/// image.
#[verifier::loop_isolation(false)]
pub fn link(buffers: Vec<Vec<u8>>) -> (r: Result<Vec<u8>, LinkError>)
    ensures
        ({
            let bufs_v = Seq::new(buffers@.len(), |i: int| buffers@[i]@);
            match r {
                Ok(v) => spec_link(bufs_v) matches Ok(s) && v@ == s,
                Err(e) => spec_link(bufs_v) matches Err(ev) && ev == e@,
            }
        }),
{
    let ghost bufs_v = Seq::new(buffers@.len(), |i: int| buffers@[i]@);
    let mut input = Input::new();
    let mut rest = buffers;
    let ghost mut done: int = 0;
    proof {
        assert(bufs_v.skip(0) =~= bufs_v);
    }
    while rest.len() > 0
        invariant
            0 <= done <= bufs_v.len(),
            Seq::new(rest@.len(), |m: int| rest@[m]@) == bufs_v.skip(done),
            spec_ingest_prefix(bufs_v, done) matches Ok(v) && input@ == v,
        decreases rest@.len(),
    {
        let ghost pre_raw = rest@;
        let ghost pre_deep = Seq::new(rest@.len(), |m: int| rest@[m]@);
        let b = rest.remove(0);
        let ghost b_v = b@;
        match input.process_object_file(b) {
            Ok(u) => u,
            Err(e) => {
                proof {
                    assert(b_v == pre_deep[0]);
                    crate::input::lemma_ingest_prefix_err(bufs_v, done + 1, bufs_v.len() as int);
                }
                return Err(e);
            },
        }
        proof {
            assert(b_v == pre_deep[0]);
            assert(pre_raw.remove(0) =~= pre_raw.subrange(1, pre_raw.len() as int));
            assert forall|m: int| 0 <= m < rest@.len() implies #[trigger] rest@[m]@ == bufs_v[done
                + 1 + m] by {
                assert(rest@[m] == pre_raw[m + 1]);
                assert(pre_deep[m + 1] == pre_raw[m + 1]@);
                assert(pre_deep[m + 1] == bufs_v.skip(done)[m + 1]);
            }
            assert(Seq::new(rest@.len(), |m: int| rest@[m]@) =~= bufs_v.skip(done + 1));
            done = done + 1;
        }
    }
    proof {
        assert(done == bufs_v.len());
    }
    let ghost inp_v = input@;
    let out = match input.allocate() {
        Ok(o) => o,
        Err(e) => { return Err(e) },
    };
    proof {
        lemma_allocate_wf(inp_v);
    }
    if out.total_size > usize::MAX as u64 {
        return Err(LinkError::Overflow);
    }
    let total = out.total_size as usize;
    let mut image = zeroes(total);
    proof {
        assert(image@ =~= Seq::new(out@.total_size as nat, |i: int| 0u8));
    }
    match out.write(&mut image) {
        Ok(u) => u,
        Err(e) => { return Err(e) },
    }
    match out.relocate(&mut image) {
        Ok(u) => u,
        Err(e) => { return Err(e) },
    }
    Ok(image)
}

// ------------------------------------------------------------------
// Laws
// ------------------------------------------------------------------

/// Determinism: the link's result is a pure function of the input
/// buffers, so two runs over identical inputs in identical order give
/// identical results — in particular byte-identical images.
pub proof fn lemma_link_deterministic(
    buffers: Seq<Seq<u8>>,
    r1: Result<Seq<u8>, LinkErrorV>,
    r2: Result<Seq<u8>, LinkErrorV>,
)
    requires
        r1 == spec_link(buffers),
        r2 == spec_link(buffers),
    ensures
        r1 == r2,
{
}

/// Order stability: everything after ingestion reads only the aggregate —
/// the classified buckets, the relocation sections, the symbol index and
/// the buffers.  Two aggregates that agree on those, however the section
/// headers were traversed to build them, link to the same result.
pub proof fn lemma_order_stability(inp1: InputV, inp2: InputV)
    requires
        inp1.file_buffers == inp2.file_buffers,
        inp1.code_sections == inp2.code_sections,
        inp1.data_sections == inp2.data_sections,
        inp1.ro_data_sections == inp2.ro_data_sections,
        inp1.reloc_sections == inp2.reloc_sections,
        inp1.symtab == inp2.symtab,
    ensures
        spec_link_output(inp1) == spec_link_output(inp2),
{
    assert(inp1 =~= inp2);
}

/// Every laid-out section sits at a multiple of its own `sh_addralign`.
pub proof fn lemma_section_alignment(inp: InputV)
    requires
        spec_allocate(inp) is Ok,
    ensures
        ({
            let o = spec_allocate(inp)->Ok_0;
            &&& forall|j: int|
                0 <= j < o.code_sections.len() ==> (#[trigger] o.code_sections[j]).address as int
                    % o.code_sections[j].input_section.section.sh_addralign as int == 0
            &&& forall|j: int|
                0 <= j < o.data_sections.len() ==> (#[trigger] o.data_sections[j]).address as int
                    % o.data_sections[j].input_section.section.sh_addralign as int == 0
            &&& forall|j: int|
                0 <= j < o.ro_data_sections.len() ==> (
                #[trigger] o.ro_data_sections[j]).address as int
                    % o.ro_data_sections[j].input_section.section.sh_addralign as int == 0
        }),
{
    lemma_allocate_wf(inp);
    lemma_output_wf_bounds(spec_allocate(inp)->Ok_0);
}

/// A multiple of `big` is a multiple of any `small` dividing `big`.
proof fn lemma_mod_div_chain(x: int, big: int, small: int)
    requires
        1 <= small,
        1 <= big,
        0 <= x,
        x % big == 0,
        big % small == 0,
    ensures
        x % small == 0,
{
    lemma_fundamental_div_mod(x, big);
    lemma_fundamental_div_mod(big, small);
    let q = x / big;
    let p = big / small;
    assert(x == small * (p * q)) by (nonlinear_arith)
        requires
            x == big * q,
            big == small * p,
    ;
    assert((small * (p * q)) % small == 0) by (nonlinear_arith)
        requires
            small >= 1,
    ;
}

/// Each non-empty segment's first section sits at a page boundary,
/// provided its `sh_addralign` divides the page size — as every power of
/// two up to 4096 does.
pub proof fn lemma_segment_page_alignment(inp: InputV)
    requires
        spec_allocate(inp) is Ok,
    ensures
        ({
            let o = spec_allocate(inp)->Ok_0;
            &&& (o.code_sections.len() > 0 && 4096 as int
                % o.code_sections[0].input_section.section.sh_addralign as int == 0
                ==> o.code_sections[0].address as int % 4096 == 0)
            &&& (o.data_sections.len() > 0 && 4096 as int
                % o.data_sections[0].input_section.section.sh_addralign as int == 0
                ==> o.data_sections[0].address as int % 4096 == 0)
            &&& (o.ro_data_sections.len() > 0 && 4096 as int
                % o.ro_data_sections[0].input_section.section.sh_addralign as int == 0
                ==> o.ro_data_sections[0].address as int % 4096 == 0)
        }),
{
    let o = spec_allocate(inp)->Ok_0;
    let c_start = spec_align(spec_header_block(), 4096);
    lemma_spec_align(spec_header_block(), 4096);
    lemma_place_prefix_facts(inp.code_sections, c_start, inp.code_sections.len() as int);
    let (code, off1) = spec_place_prefix(
        inp.code_sections,
        c_start,
        inp.code_sections.len() as int,
    )->Ok_0;
    let d_start = spec_align(off1, 4096);
    lemma_spec_align(off1, 4096);
    lemma_place_prefix_facts(inp.data_sections, d_start, inp.data_sections.len() as int);
    let (data, off2) = spec_place_prefix(
        inp.data_sections,
        d_start,
        inp.data_sections.len() as int,
    )->Ok_0;
    let r_start = spec_align(off2, 4096);
    lemma_spec_align(off2, 4096);
    lemma_place_prefix_facts(inp.ro_data_sections, r_start, inp.ro_data_sections.len() as int);
    if o.code_sections.len() > 0 && 4096 as int
        % o.code_sections[0].input_section.section.sh_addralign as int == 0 {
        let al = inp.code_sections[0].section.sh_addralign as int;
        lemma_mod_div_chain(c_start, 4096, al);
    }
    if o.data_sections.len() > 0 && 4096 as int
        % o.data_sections[0].input_section.section.sh_addralign as int == 0 {
        let al = inp.data_sections[0].section.sh_addralign as int;
        lemma_mod_div_chain(d_start, 4096, al);
    }
    if o.ro_data_sections.len() > 0 && 4096 as int
        % o.ro_data_sections[0].input_section.section.sh_addralign as int == 0 {
        let al = inp.ro_data_sections[0].section.sh_addralign as int;
        lemma_mod_div_chain(r_start, 4096, al);
    }
}

/// The three `PT_LOAD` segments occupy disjoint file ranges: each
/// non-empty segment ends at or before the next begins.  The program
/// headers are emitted exactly from these segment ranges.
pub proof fn lemma_segments_disjoint(inp: InputV)
    requires
        spec_allocate(inp) is Ok,
    ensures
        ({
            let o = spec_allocate(inp)->Ok_0;
            let ci = spec_segment_info(o.code_sections);
            let di = spec_segment_info(o.data_sections);
            let ri = spec_segment_info(o.ro_data_sections);
            &&& (o.code_sections.len() > 0 && o.data_sections.len() > 0 ==> ci.offset + ci.size
                <= di.offset)
            &&& (o.data_sections.len() > 0 && o.ro_data_sections.len() > 0 ==> di.offset + di.size
                <= ri.offset)
            &&& (o.code_sections.len() > 0 && o.ro_data_sections.len() > 0 ==> ci.offset + ci.size
                <= ri.offset)
        }),
{
    lemma_allocate_wf(inp);
    lemma_output_wf_bounds(spec_allocate(inp)->Ok_0);
}

/// The entry address lies inside the code segment's file range, provided
/// `_start` is defined in a code section and its value lies inside that
/// section.
pub proof fn lemma_entry_in_code(inp: InputV, entry: u64)
    requires
        spec_allocate(inp) is Ok,
        ({
            let o = spec_allocate(inp)->Ok_0;
            &&& crate::image::spec_entry(o) == Ok::<u64, LinkErrorV>(entry)
            &&& ({
                let d = crate::symtab::spec_globals_find(
                    o.symtab.globals,
                    crate::image::spec_start_name(),
                    0,
                )->Some_0;
                let sym = crate::symtab::spec_sym_get(o.symtab, d.file_idx, d.sym_idx)->Some_0;
                let found = crate::image::spec_bucket_find(
                    o.code_sections,
                    d.file_idx,
                    sym.st_shndx as usize,
                    0,
                );
                found matches Some(cs) && sym.st_value < cs.input_section.section.sh_size
            })
        }),
    ensures
        ({
            let o = spec_allocate(inp)->Ok_0;
            let ci = spec_segment_info(o.code_sections);
            ci.offset <= entry < ci.offset + ci.size
        }),
{
    lemma_allocate_wf(inp);
    let o = spec_allocate(inp)->Ok_0;
    lemma_output_wf_bounds(o);
    let d = crate::symtab::spec_globals_find(
        o.symtab.globals,
        crate::image::spec_start_name(),
        0,
    )->Some_0;
    let sym = crate::symtab::spec_sym_get(o.symtab, d.file_idx, d.sym_idx)->Some_0;
    let cs = crate::image::spec_bucket_find(
        o.code_sections,
        d.file_idx,
        sym.st_shndx as usize,
        0,
    )->Some_0;
    crate::image::lemma_bucket_find_member(o.code_sections, d.file_idx, sym.st_shndx as usize, 0);
    let j = choose|j: int| 0 <= j < o.code_sections.len() && o.code_sections[j] == cs;
    let last = o.code_sections.len() - 1;
    assert(o.code_sections[0].address <= cs.address);
    assert(cs.address + cs.input_section.section.sh_size <= o.code_sections[last].address
        + o.code_sections[last].input_section.section.sh_size);
}

/// What the emitted bytes themselves say: in a successful link, the
/// image's entry field decodes to the resolved entry address, and each
/// `PT_LOAD` header's type, flag, offset and size fields decode to its
/// segment's values.  Combined with the segment-disjointness and
/// entry-containment laws above, the disjointness of the emitted
/// `[p_offset, p_offset + p_filesz)` ranges and the entry's containment
/// hold of the emitted program headers, not only of the layout.
pub proof fn lemma_emitted_headers(inp: InputV)
    requires
        spec_link_output(inp) is Ok,
    ensures
        ({
            let o = spec_allocate(inp)->Ok_0;
            let img = spec_link_output(inp)->Ok_0;
            let ci = spec_segment_info(o.code_sections);
            let di = spec_segment_info(o.data_sections);
            let ri = spec_segment_info(o.ro_data_sections);
            &&& img.len() == o.total_size
            &&& crate::bytes::le64_at(img, 24) == crate::image::spec_entry(o)->Ok_0
            &&& crate::bytes::le32_at(img, 64) == crate::elf::PT_LOAD
            &&& crate::bytes::le32_at(img, 68) == (crate::elf::PF_R | crate::elf::PF_X)
            &&& crate::bytes::le64_at(img, 72) == ci.offset
            &&& crate::bytes::le64_at(img, 96) == ci.size
            &&& crate::bytes::le32_at(img, 120) == crate::elf::PT_LOAD
            &&& crate::bytes::le32_at(img, 124) == (crate::elf::PF_R | crate::elf::PF_W)
            &&& crate::bytes::le64_at(img, 128) == di.offset
            &&& crate::bytes::le64_at(img, 152) == di.size
            &&& crate::bytes::le32_at(img, 176) == crate::elf::PT_LOAD
            &&& crate::bytes::le32_at(img, 180) == crate::elf::PF_R
            &&& crate::bytes::le64_at(img, 184) == ri.offset
            &&& crate::bytes::le64_at(img, 208) == ri.size
        }),
{
    let o = spec_allocate(inp)->Ok_0;
    lemma_allocate_wf(inp);
    lemma_output_wf_bounds(o);
    let img0 = Seq::new(o.total_size as nat, |i: int| 0u8);
    let img1 = spec_write_image(o, img0)->Ok_0;
    let img = spec_link_output(inp)->Ok_0;
    crate::image::lemma_written_header_fields(o, img0);
    crate::relocate::lemma_relocate_prefix_low(o, img1, o.reloc_sections.len() as int);
    crate::relocate::lemma_relocate_prefix_len(o, img1, o.reloc_sections.len() as int);
    assert(crate::bytes::le64_at(img, 24) == crate::bytes::le64_at(img1, 24));
    assert(crate::bytes::le32_at(img, 64) == crate::bytes::le32_at(img1, 64));
    assert(crate::bytes::le32_at(img, 68) == crate::bytes::le32_at(img1, 68));
    assert(crate::bytes::le64_at(img, 72) == crate::bytes::le64_at(img1, 72));
    assert(crate::bytes::le64_at(img, 96) == crate::bytes::le64_at(img1, 96));
    assert(crate::bytes::le32_at(img, 120) == crate::bytes::le32_at(img1, 120));
    assert(crate::bytes::le32_at(img, 124) == crate::bytes::le32_at(img1, 124));
    assert(crate::bytes::le64_at(img, 128) == crate::bytes::le64_at(img1, 128));
    assert(crate::bytes::le64_at(img, 152) == crate::bytes::le64_at(img1, 152));
    assert(crate::bytes::le32_at(img, 176) == crate::bytes::le32_at(img1, 176));
    assert(crate::bytes::le32_at(img, 180) == crate::bytes::le32_at(img1, 180));
    assert(crate::bytes::le64_at(img, 184) == crate::bytes::le64_at(img1, 184));
    assert(crate::bytes::le64_at(img, 208) == crate::bytes::le64_at(img1, 208));
}

} // verus!
