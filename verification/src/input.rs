//! The input aggregator: ingesting relocatable objects one after another.
//!
//! Each object's allocatable `PROGBITS` sections are classified into code,
//! writable data and read-only data; its relocation sections are recorded;
//! its symbols feed the symbol index.  Everything is pinned to a prefix
//! fold over the object's section-header table, so an ingested [`Input`]
//! is a pure function of the input buffers.

use crate::elf::{
    SectionHeader, SHF_ALLOC, SHF_EXECINSTR, SHF_WRITE, SHT_NOBITS, SHT_NULL, SHT_PROGBITS,
    SHT_RELA, SHT_STRTAB, SHT_SYMTAB,
};
use crate::errors::{LinkError, LinkErrorV};
use crate::object::{parse_object, spec_parse_object, ObjectV, RelaSecV};
use crate::symtab::{spec_symtab_insert, SymbolTable, SymbolTableV};
use vstd::prelude::*;

verus! {

/// All flag bits except `MERGE` and `STRINGS`, which the classifier masks
/// out: read-only data is taken as-is, without string merging.
pub const SHF_CLASSIFY_MASK: u64 = 0xffff_ffff_ffff_ffcf;

/// One allocatable section of one input file.
#[derive(Clone, Copy, PartialEq, Eq, Structural, Debug)]
pub struct InputSection {
    pub file_idx: usize,
    pub shdr_idx: usize,
    pub section: SectionHeader,
}

/// The relocation records applying to section `applies_to_sec` of file
/// `applies_to_file`.
pub struct RelocationSection {
    pub applies_to_file: usize,
    pub applies_to_sec: usize,
    pub relocations: Vec<crate::elf::Rela>,
}

/// The mathematical shadow of [`RelocationSection`].
#[verifier::ext_equal]
pub ghost struct RelocationSectionV {
    pub applies_to_file: usize,
    pub applies_to_sec: usize,
    pub relocations: Seq<crate::elf::Rela>,
}

impl View for RelocationSection {
    type V = RelocationSectionV;

    open spec fn view(&self) -> RelocationSectionV {
        RelocationSectionV {
            applies_to_file: self.applies_to_file,
            applies_to_sec: self.applies_to_sec,
            relocations: self.relocations@,
        }
    }
}

/// The aggregated inputs: classified sections, relocation sections, the
/// symbol index, and the owned input buffers.
pub struct Input {
    pub file_buffers: Vec<Vec<u8>>,
    pub code_sections: Vec<InputSection>,
    pub data_sections: Vec<InputSection>,
    pub ro_data_sections: Vec<InputSection>,
    pub reloc_sections: Vec<RelocationSection>,
    pub symtab: SymbolTable,
}

/// The mathematical shadow of [`Input`].
#[verifier::ext_equal]
pub ghost struct InputV {
    pub file_buffers: Seq<Seq<u8>>,
    pub code_sections: Seq<InputSection>,
    pub data_sections: Seq<InputSection>,
    pub ro_data_sections: Seq<InputSection>,
    pub reloc_sections: Seq<RelocationSectionV>,
    pub symtab: SymbolTableV,
}

impl View for Input {
    type V = InputV;

    open spec fn view(&self) -> InputV {
        InputV {
            file_buffers: Seq::new(self.file_buffers@.len(), |i: int| self.file_buffers@[i]@),
            code_sections: self.code_sections@,
            data_sections: self.data_sections@,
            ro_data_sections: self.ro_data_sections@,
            reloc_sections: Seq::new(self.reloc_sections@.len(), |i: int| self.reloc_sections@[i]@),
            symtab: self.symtab@,
        }
    }
}

// ------------------------------------------------------------------
// Specification
// ------------------------------------------------------------------

/// The three buckets after classifying the first `i` sections of one
/// object, or the unknown type or flag combination that stopped it.
pub open spec fn spec_classify_prefix(file_idx: usize, secs: Seq<SectionHeader>, i: int) -> Result<
    (Seq<InputSection>, Seq<InputSection>, Seq<InputSection>),
    LinkErrorV,
>
    decreases i,
{
    if i <= 0 {
        Ok((Seq::empty(), Seq::empty(), Seq::empty()))
    } else {
        match spec_classify_prefix(file_idx, secs, i - 1) {
            Err(e) => Err(e),
            Ok((code, data, ro)) => {
                let sec = secs[i - 1];
                let isec = InputSection {
                    file_idx,
                    shdr_idx: (i - 1) as usize,
                    section: sec,
                };
                if sec.sh_type == SHT_PROGBITS {
                    if sec.sh_flags == SHF_ALLOC | SHF_EXECINSTR {
                        Ok((code.push(isec), data, ro))
                    } else if sec.sh_flags == SHF_ALLOC | SHF_WRITE {
                        Ok((code, data.push(isec), ro))
                    } else if sec.sh_flags & SHF_CLASSIFY_MASK == SHF_ALLOC {
                        Ok((code, data, ro.push(isec)))
                    } else if sec.sh_flags & SHF_ALLOC == SHF_ALLOC {
                        Err(LinkErrorV::UnknownSectionFlags(sec.sh_flags))
                    } else {
                        Ok((code, data, ro))
                    }
                } else if sec.sh_type == SHT_NULL || sec.sh_type == SHT_NOBITS || sec.sh_type
                    == SHT_RELA || sec.sh_type == SHT_SYMTAB || sec.sh_type == SHT_STRTAB {
                    Ok((code, data, ro))
                } else {
                    Err(LinkErrorV::UnknownSectionType(sec.sh_type))
                }
            },
        }
    }
}

/// If classification has already failed at `i`, it stays failed at any
/// later `j` with the same error.
pub proof fn lemma_classify_prefix_err(file_idx: usize, secs: Seq<SectionHeader>, i: int, j: int)
    requires
        0 <= i <= j,
        spec_classify_prefix(file_idx, secs, i) is Err,
    ensures
        spec_classify_prefix(file_idx, secs, j) == spec_classify_prefix(file_idx, secs, i),
    decreases j - i,
{
    if i < j {
        lemma_classify_prefix_err(file_idx, secs, i, j - 1);
    }
}

/// The relocation sections of one object, tagged with its file index.
pub open spec fn spec_tag_relocs(file_idx: usize, rs: Seq<RelaSecV>) -> Seq<RelocationSectionV> {
    Seq::new(
        rs.len(),
        |i: int| RelocationSectionV {
            applies_to_file: file_idx,
            applies_to_sec: rs[i].applies_to as usize,
            relocations: rs[i].records,
        },
    )
}

/// The aggregate after ingesting one more object buffer, as a pure
/// function of the previous aggregate and the buffer's bytes.
pub open spec fn spec_process_object(inp: InputV, b: Seq<u8>) -> Result<InputV, LinkErrorV> {
    match spec_parse_object(b) {
        Err(e) => Err(e),
        Ok(obj) => {
            let file_idx = inp.file_buffers.len() as usize;
            match spec_symtab_insert(inp.symtab, obj.syms, obj.sym_names) {
                Err(e) => Err(e),
                Ok(tab) => match spec_classify_prefix(file_idx, obj.sections, obj.sections.len() as int) {
                    Err(e) => Err(e),
                    Ok((code, data, ro)) => Ok(
                        InputV {
                            file_buffers: inp.file_buffers.push(b),
                            code_sections: inp.code_sections + code,
                            data_sections: inp.data_sections + data,
                            ro_data_sections: inp.ro_data_sections + ro,
                            reloc_sections: inp.reloc_sections + spec_tag_relocs(
                                file_idx,
                                obj.relocs,
                            ),
                            symtab: tab,
                        },
                    ),
                },
            }
        },
    }
}

/// The aggregate after ingesting the first `i` buffers in order.
pub open spec fn spec_ingest_prefix(buffers: Seq<Seq<u8>>, i: int) -> Result<InputV, LinkErrorV>
    decreases i,
{
    if i <= 0 {
        Ok(spec_empty_input())
    } else {
        match spec_ingest_prefix(buffers, i - 1) {
            Err(e) => Err(e),
            Ok(inp) => spec_process_object(inp, buffers[i - 1]),
        }
    }
}

/// The aggregate before any object has been ingested.
pub open spec fn spec_empty_input() -> InputV {
    InputV {
        file_buffers: Seq::empty(),
        code_sections: Seq::empty(),
        data_sections: Seq::empty(),
        ro_data_sections: Seq::empty(),
        reloc_sections: Seq::empty(),
        symtab: SymbolTableV { by_file: Seq::empty(), globals: Seq::empty() },
    }
}

/// If ingestion has already failed at `i`, it stays failed at any later
/// `j` with the same error.
pub proof fn lemma_ingest_prefix_err(buffers: Seq<Seq<u8>>, i: int, j: int)
    requires
        0 <= i <= j,
        spec_ingest_prefix(buffers, i) is Err,
    ensures
        spec_ingest_prefix(buffers, j) == spec_ingest_prefix(buffers, i),
    decreases j - i,
{
    if i < j {
        lemma_ingest_prefix_err(buffers, i, j - 1);
    }
}

// ------------------------------------------------------------------
// Code
// ------------------------------------------------------------------

impl Input {
    /// An aggregate with nothing ingested yet.
    pub fn new() -> (r: Input)
        ensures
            r@ == spec_empty_input(),
    {
        let r = Input {
            file_buffers: Vec::new(),
            code_sections: Vec::new(),
            data_sections: Vec::new(),
            ro_data_sections: Vec::new(),
            reloc_sections: Vec::new(),
            symtab: SymbolTable::new(),
        };
        proof {
            assert(r@ =~= spec_empty_input());
        }
        r
    }

    /// Ingest one relocatable object: record its buffer, index its
    /// symbols, record its relocation sections, and classify its sections.
    ///
    /// On failure the aggregate may be left partially extended; the
    /// pipeline discards it, as a failed link keeps nothing.
    pub fn process_object_file(&mut self, buffer: Vec<u8>) -> (r: Result<(), LinkError>)
        ensures
            match r {
                Ok(()) => {
                    &&& spec_process_object(old(self)@, buffer@) matches Ok(v)
                    &&& final(self)@ == v
                },
                Err(e) => spec_process_object(old(self)@, buffer@) matches Err(ev) && ev == e@,
            },
    {
        let ghost buf_v = buffer@;
        let obj = match parse_object(&buffer) {
            Ok(o) => o,
            Err(e) => { return Err(e) },
        };
        let ghost obj_v: ObjectV = obj@;
        let file_idx = self.file_buffers.len();
        self.file_buffers.push(buffer);
        let crate::object::ObjectView { sections, syms, sym_names, relocs } = obj;
        let ghost names_v = Seq::new(sym_names@.len(), |m: int| sym_names@[m]@);
        let ghost rel_all = Seq::new(relocs@.len(), |m: int| relocs@[m]@);
        proof {
            assert(obj_v.syms =~= syms@);
            assert(obj_v.sym_names =~= names_v);
            assert(obj_v.sections =~= sections@);
            assert(obj_v.relocs =~= rel_all);
        }

        match self.symtab.insert(syms, sym_names) {
            Ok(u) => u,
            Err(e) => { return Err(e) },
        }
        tag_relocs(file_idx, relocs, &mut self.reloc_sections);
        match classify_sections(
            file_idx,
            &sections,
            &mut self.code_sections,
            &mut self.data_sections,
            &mut self.ro_data_sections,
        ) {
            Ok(u) => u,
            Err(e) => { return Err(e) },
        }
        proof {
            let v = spec_process_object(old(self)@, buf_v)->Ok_0;
            assert(self@.file_buffers =~= old(self)@.file_buffers.push(buf_v));
            assert(self@.reloc_sections =~= old(self)@.reloc_sections + spec_tag_relocs(
                file_idx,
                rel_all,
            ));
            assert(self@ =~= v);
        }
        Ok(())
    }
}

/// Append one object's relocation sections, tagged with its file index.
#[verifier::loop_isolation(false)]
fn tag_relocs(file_idx: usize, relocs: Vec<crate::object::RelaSec>, out: &mut Vec<RelocationSection>)
    ensures
        final(out)@.len() == old(out)@.len() + relocs@.len(),
        forall|j: int| 0 <= j < old(out)@.len() ==> final(out)@[j] == old(out)@[j],
        forall|j: int|
            old(out)@.len() <= j < final(out)@.len() ==> #[trigger] final(out)@[j]@
                == spec_tag_relocs(file_idx, Seq::new(relocs@.len(), |m: int| relocs@[m]@))[j
                - old(out)@.len()],
{
    let ghost rel_all = Seq::new(relocs@.len(), |m: int| relocs@[m]@);
    let mut rel_rest = relocs;
    let ghost mut done: int = 0;
    proof {
        assert(rel_all.skip(0) =~= rel_all);
    }
    while rel_rest.len() > 0
        invariant
            0 <= done <= rel_all.len(),
            Seq::new(rel_rest@.len(), |m: int| rel_rest@[m]@) == rel_all.skip(done),
            out@.len() == old(out)@.len() + done,
            forall|j: int| 0 <= j < old(out)@.len() ==> out@[j] == old(out)@[j],
            forall|j: int|
                old(out)@.len() <= j < out@.len() ==> #[trigger] out@[j]@ == spec_tag_relocs(
                    file_idx,
                    rel_all,
                )[j - old(out)@.len()],
        decreases rel_rest@.len(),
    {
        let ghost pre_raw = rel_rest@;
        let ghost pre_deep = Seq::new(rel_rest@.len(), |m: int| rel_rest@[m]@);
        let rs = rel_rest.remove(0);
        let ghost rs_v = rs@;
        let tagged = RelocationSection {
            applies_to_file: file_idx,
            applies_to_sec: rs.applies_to as usize,
            relocations: rs.records,
        };
        out.push(tagged);
        proof {
            assert(rs_v == pre_deep[0]);
            assert(pre_raw.remove(0) =~= pre_raw.subrange(1, pre_raw.len() as int));
            assert forall|m: int| 0 <= m < rel_rest@.len() implies #[trigger] rel_rest@[m]@
                == rel_all[done + 1 + m] by {
                assert(rel_rest@[m] == pre_raw[m + 1]);
                assert(pre_deep[m + 1] == pre_raw[m + 1]@);
                assert(pre_deep[m + 1] == rel_all.skip(done)[m + 1]);
            }
            assert(Seq::new(rel_rest@.len(), |m: int| rel_rest@[m]@) =~= rel_all.skip(done + 1));
            done = done + 1;
        }
    }
}

/// Classify one object's section headers into the three buckets.
#[verifier::loop_isolation(false)]
fn classify_sections(
    file_idx: usize,
    sections: &Vec<SectionHeader>,
    code: &mut Vec<InputSection>,
    data: &mut Vec<InputSection>,
    ro: &mut Vec<InputSection>,
) -> (r: Result<(), LinkError>)
    ensures
        match r {
            Ok(()) => {
                &&& spec_classify_prefix(file_idx, sections@, sections@.len() as int) matches Ok(t)
                &&& final(code)@ == old(code)@ + t.0
                &&& final(data)@ == old(data)@ + t.1
                &&& final(ro)@ == old(ro)@ + t.2
            },
            Err(e) => spec_classify_prefix(file_idx, sections@, sections@.len() as int)
                matches Err(ev) && ev == e@,
        },
{
    let n = sections.len();
    let mut i: usize = 0;
    proof {
        assert(old(code)@ + Seq::<InputSection>::empty() =~= old(code)@);
        assert(old(data)@ + Seq::<InputSection>::empty() =~= old(data)@);
        assert(old(ro)@ + Seq::<InputSection>::empty() =~= old(ro)@);
    }
    while i < n
        invariant
            i <= n,
            n == sections@.len(),
            spec_classify_prefix(file_idx, sections@, i as int) matches Ok(t) && code@ == old(
                code,
            )@ + t.0 && data@ == old(data)@ + t.1 && ro@ == old(ro)@ + t.2,
        decreases n - i,
    {
        let sec = sections[i];
        let isec = InputSection { file_idx, shdr_idx: i, section: sec };
        let ghost t = spec_classify_prefix(file_idx, sections@, i as int)->Ok_0;
        if sec.sh_type == SHT_PROGBITS {
            if sec.sh_flags == SHF_ALLOC | SHF_EXECINSTR {
                code.push(isec);
                proof {
                    assert(old(code)@ + t.0.push(isec) =~= (old(code)@ + t.0).push(isec));
                }
            } else if sec.sh_flags == SHF_ALLOC | SHF_WRITE {
                data.push(isec);
                proof {
                    assert(old(data)@ + t.1.push(isec) =~= (old(data)@ + t.1).push(isec));
                }
            } else if sec.sh_flags & SHF_CLASSIFY_MASK == SHF_ALLOC {
                ro.push(isec);
                proof {
                    assert(old(ro)@ + t.2.push(isec) =~= (old(ro)@ + t.2).push(isec));
                }
            } else if sec.sh_flags & SHF_ALLOC == SHF_ALLOC {
                proof {
                    lemma_classify_prefix_err(file_idx, sections@, i + 1, n as int);
                }
                return Err(LinkError::UnknownSectionFlags(sec.sh_flags));
            }
        } else if sec.sh_type == SHT_NULL || sec.sh_type == SHT_NOBITS || sec.sh_type == SHT_RELA
            || sec.sh_type == SHT_SYMTAB || sec.sh_type == SHT_STRTAB {
        } else {
            proof {
                lemma_classify_prefix_err(file_idx, sections@, i + 1, n as int);
            }
            return Err(LinkError::UnknownSectionType(sec.sh_type));
        }
        i += 1;
    }
    Ok(())
}

} // verus!
