//! The linker's fatal-error type.
//!
//! A link either succeeds completely or stops at the first offending
//! construct; every failure is reported through one of these variants.

use vstd::prelude::*;

verus! {

/// One fatal linking failure.  Variants that refer to a particular
/// construct carry it, so a diagnostic can name the offender.
#[derive(Debug)]
pub enum LinkError {
    /// The identification bytes are not those of a little-endian 64-bit ELF.
    BadIdent,
    /// The object is not a relocatable for `EM_X86_64`.
    BadObjectType,
    /// A table or payload lies outside the bytes of its file.
    Truncated,
    /// A section type the classifier does not know.
    UnknownSectionType(u32),
    /// An allocatable section whose flag combination the classifier does not know.
    UnknownSectionFlags(u64),
    /// A global symbol defined under the same name in two places.
    DuplicateGlobal(Vec<u8>),
    /// A name that the global symbol map does not hold.
    UndefinedSymbol(Vec<u8>),
    /// A symbol or relocation refers to a section that was not laid out.
    UnmappedSection,
    /// A relocation type other than the two supported ones.
    UnsupportedRelocation(u32),
    /// An allocatable section whose `sh_addralign` is zero.
    BadAlignment,
    /// An offset or displacement does not fit its width.
    Overflow,
    /// A relocation patch site lies outside the image.
    PatchOutOfRange,
}

/// The mathematical shadow of [`LinkError`].
pub ghost enum LinkErrorV {
    BadIdent,
    BadObjectType,
    Truncated,
    UnknownSectionType(u32),
    UnknownSectionFlags(u64),
    DuplicateGlobal(Seq<u8>),
    UndefinedSymbol(Seq<u8>),
    UnmappedSection,
    UnsupportedRelocation(u32),
    BadAlignment,
    Overflow,
    PatchOutOfRange,
}

impl View for LinkError {
    type V = LinkErrorV;

    open spec fn view(&self) -> LinkErrorV {
        match self {
            LinkError::BadIdent => LinkErrorV::BadIdent,
            LinkError::BadObjectType => LinkErrorV::BadObjectType,
            LinkError::Truncated => LinkErrorV::Truncated,
            LinkError::UnknownSectionType(t) => LinkErrorV::UnknownSectionType(*t),
            LinkError::UnknownSectionFlags(f) => LinkErrorV::UnknownSectionFlags(*f),
            LinkError::DuplicateGlobal(n) => LinkErrorV::DuplicateGlobal(n@),
            LinkError::UndefinedSymbol(n) => LinkErrorV::UndefinedSymbol(n@),
            LinkError::UnmappedSection => LinkErrorV::UnmappedSection,
            LinkError::UnsupportedRelocation(t) => LinkErrorV::UnsupportedRelocation(*t),
            LinkError::BadAlignment => LinkErrorV::BadAlignment,
            LinkError::Overflow => LinkErrorV::Overflow,
            LinkError::PatchOutOfRange => LinkErrorV::PatchOutOfRange,
        }
    }
}

impl LinkError {
    /// A short human-readable description of the failure.
    pub fn message(&self) -> &'static str {
        match self {
            LinkError::BadIdent => "not a little-endian 64-bit ELF file",
            LinkError::BadObjectType => "not an x86-64 relocatable object",
            LinkError::Truncated => "table or section payload out of file bounds",
            LinkError::UnknownSectionType(_) => "unknown section type",
            LinkError::UnknownSectionFlags(_) => "unknown allocatable section flags",
            LinkError::DuplicateGlobal(_) => "duplicate global symbol definition",
            LinkError::UndefinedSymbol(_) => "undefined symbol",
            LinkError::UnmappedSection => "reference to a section without an assigned address",
            LinkError::UnsupportedRelocation(_) => "unsupported relocation type",
            LinkError::BadAlignment => "allocatable section with zero alignment",
            LinkError::Overflow => "arithmetic overflow while linking",
            LinkError::PatchOutOfRange => "relocation patch site outside the image",
        }
    }
}

} // verus!
