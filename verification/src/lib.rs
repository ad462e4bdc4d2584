//! A minimal static linker for x86-64 ELF relocatable objects.
//!
//! Given one or more relocatable objects (ELF type `REL`, machine
//! `EM_X86_64`), the library produces a single statically linked executable
//! image (ELF type `EXEC`) whose entry point is the global symbol `_start`.
//! Input buffers are parsed, their allocatable sections classified into
//! code, writable data and read-only data, a layout is computed that keeps
//! each kind contiguous and page-aligned, the image is emitted with three
//! `PT_LOAD` program headers, and the supported relocations
//! (`R_X86_64_PC32`, `R_X86_64_PLT32`) are patched into the image.

pub mod bytes;
pub mod elf;
pub mod errors;
pub mod object;
pub mod symtab;
pub mod input;
pub mod layout;
pub mod image;
pub mod relocate;
pub mod linker;
