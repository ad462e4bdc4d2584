//! End-to-end tests: minimal relocatable objects are assembled by hand as
//! byte vectors, linked, and the resulting images or failures checked
//! against values computed from the layout rules.

use minilink::errors::LinkError;
use minilink::layout::align;
use minilink::linker::link;

// ----------------------------------------------------------------
// Little-endian helpers
// ----------------------------------------------------------------

fn le16(v: u16, out: &mut Vec<u8>) {
    out.extend_from_slice(&v.to_le_bytes());
}

fn le32(v: u32, out: &mut Vec<u8>) {
    out.extend_from_slice(&v.to_le_bytes());
}

fn le64(v: u64, out: &mut Vec<u8>) {
    out.extend_from_slice(&v.to_le_bytes());
}

fn read_u16(b: &[u8], off: usize) -> u16 {
    u16::from_le_bytes([b[off], b[off + 1]])
}

fn read_u32(b: &[u8], off: usize) -> u32 {
    u32::from_le_bytes([b[off], b[off + 1], b[off + 2], b[off + 3]])
}

fn read_u64(b: &[u8], off: usize) -> u64 {
    u64::from_le_bytes([
        b[off],
        b[off + 1],
        b[off + 2],
        b[off + 3],
        b[off + 4],
        b[off + 5],
        b[off + 6],
        b[off + 7],
    ])
}

// ----------------------------------------------------------------
// Object builder
// ----------------------------------------------------------------

struct Sec {
    sh_type: u32,
    sh_flags: u64,
    sh_link: u32,
    sh_info: u32,
    sh_addralign: u64,
    payload: Vec<u8>,
}

/// Assemble a relocatable object: a NULL section, then the given
/// sections, their payloads packed after the ELF header, the
/// section-header table at the end.
fn build_object(secs: &[Sec]) -> Vec<u8> {
    let n = secs.len() + 1;
    let mut out = vec![0u8; 64];
    let mut offs = Vec::new();
    for s in secs {
        offs.push(out.len() as u64);
        out.extend_from_slice(&s.payload);
    }
    let shoff = out.len() as u64;
    out.extend_from_slice(&[0u8; 64]); // section 0: NULL
    for (i, s) in secs.iter().enumerate() {
        let mut h = Vec::new();
        le32(0, &mut h); // sh_name
        le32(s.sh_type, &mut h);
        le64(s.sh_flags, &mut h);
        le64(0, &mut h); // sh_addr
        le64(offs[i], &mut h);
        le64(s.payload.len() as u64, &mut h);
        le32(s.sh_link, &mut h);
        le32(s.sh_info, &mut h);
        le64(s.sh_addralign, &mut h);
        le64(0, &mut h); // sh_entsize
        out.extend_from_slice(&h);
    }
    let mut hdr = Vec::new();
    hdr.extend_from_slice(&[0x7f, b'E', b'L', b'F', 2, 1, 1, 0, 0, 0, 0, 0, 0, 0, 0, 0]);
    le16(1, &mut hdr); // ET_REL
    le16(62, &mut hdr); // EM_X86_64
    le32(1, &mut hdr);
    le64(0, &mut hdr); // e_entry
    le64(0, &mut hdr); // e_phoff
    le64(shoff, &mut hdr);
    le32(0, &mut hdr);
    le16(64, &mut hdr);
    le16(0, &mut hdr); // e_phentsize
    le16(0, &mut hdr); // e_phnum
    le16(64, &mut hdr); // e_shentsize
    le16(n as u16, &mut hdr);
    le16(0, &mut hdr);
    out[..64].copy_from_slice(&hdr);
    out
}

fn sym_entry(st_name: u32, st_info: u8, st_shndx: u16, st_value: u64, out: &mut Vec<u8>) {
    le32(st_name, out);
    out.push(st_info);
    out.push(0); // st_other
    le16(st_shndx, out);
    le64(st_value, out);
    le64(0, out); // st_size
}

fn rela_entry(r_offset: u64, r_sym: u32, r_type: u32, r_addend: i64, out: &mut Vec<u8>) {
    le64(r_offset, out);
    le64(((r_sym as u64) << 32) | (r_type as u64), out);
    le64(r_addend as u64, out);
}

/// A symbol to install: name, info, defining section index, value.
struct SymSpec(&'static str, u8, u16, u64);

/// One object with sections `.text` (index 1), a symbol table (2), its
/// string table (3), relocations on `.text` (4, if any), and one extra
/// data section (5, if given).
fn simple_object(
    text: &[u8],
    syms: &[SymSpec],
    relas: &[(u64, u32, u32, i64)],
    extra: Option<(u64, &[u8])>,
) -> Vec<u8> {
    let mut strtab = vec![0u8];
    let mut symtab = Vec::new();
    sym_entry(0, 0, 0, 0, &mut symtab); // null symbol
    for SymSpec(name, info, shndx, value) in syms {
        let name_off = strtab.len() as u32;
        strtab.extend_from_slice(name.as_bytes());
        strtab.push(0);
        sym_entry(name_off, *info, *shndx, *value, &mut symtab);
    }
    let mut rela = Vec::new();
    for (off, sym, ty, add) in relas {
        rela_entry(*off, *sym, *ty, *add, &mut rela);
    }
    let mut secs = vec![
        Sec {
            sh_type: 1, // PROGBITS
            sh_flags: 2 | 4, // ALLOC | EXECINSTR
            sh_link: 0,
            sh_info: 0,
            sh_addralign: 16,
            payload: text.to_vec(),
        },
        Sec {
            sh_type: 2, // SYMTAB
            sh_flags: 0,
            sh_link: 3, // its string table
            sh_info: 0,
            sh_addralign: 8,
            payload: symtab,
        },
        Sec {
            sh_type: 3, // STRTAB
            sh_flags: 0,
            sh_link: 0,
            sh_info: 0,
            sh_addralign: 1,
            payload: strtab,
        },
    ];
    if !relas.is_empty() {
        secs.push(Sec {
            sh_type: 4, // RELA
            sh_flags: 0,
            sh_link: 2,
            sh_info: 1, // applies to .text
            sh_addralign: 8,
            payload: rela,
        });
    }
    if let Some((flags, bytes)) = extra {
        secs.push(Sec {
            sh_type: 1, // PROGBITS
            sh_flags: flags,
            sh_link: 0,
            sh_info: 0,
            sh_addralign: 8,
            payload: bytes.to_vec(),
        });
    }
    build_object(&secs)
}

const GLOBAL_FUNC: u8 = 0x12; // STB_GLOBAL << 4 | STT_FUNC
const LOCAL_SECTION: u8 = 0x03; // STB_LOCAL << 4 | STT_SECTION

/// `mov eax, 60; xor edi, edi; syscall`
const EXIT0: [u8; 9] = [0xb8, 0x3c, 0, 0, 0, 0x31, 0xff, 0x0f, 0x05];

// ----------------------------------------------------------------
// Successful links
// ----------------------------------------------------------------

#[test]
fn minimal_executable_layout() {
    let obj = simple_object(&EXIT0, &[SymSpec("_start", GLOBAL_FUNC, 1, 0)], &[], None);
    let img = link(vec![obj]).unwrap();
    // One page of headers and padding, code page, then the page-rounded end.
    assert_eq!(img.len(), 8192);
    // ELF executable header.
    assert_eq!(&img[0..4], &[0x7f, b'E', b'L', b'F']);
    assert_eq!((img[4], img[5], img[6]), (2, 1, 1));
    assert_eq!(read_u16(&img, 16), 2); // ET_EXEC
    assert_eq!(read_u16(&img, 18), 62); // EM_X86_64
    assert_eq!(read_u64(&img, 24), 4096); // e_entry
    assert_eq!(read_u64(&img, 32), 64); // e_phoff
    assert_eq!(read_u64(&img, 40), 0); // e_shoff
    assert_eq!(read_u16(&img, 54), 56); // e_phentsize
    assert_eq!(read_u16(&img, 56), 3); // e_phnum
    assert_eq!(read_u16(&img, 60), 0); // e_shnum
    // Code program header: PT_LOAD, readable and executable.
    assert_eq!(read_u32(&img, 64), 1);
    assert_eq!(read_u32(&img, 68), 4 | 1);
    assert_eq!(read_u64(&img, 72), 4096); // p_offset
    assert_eq!(read_u64(&img, 80), 4096); // p_vaddr
    assert_eq!(read_u64(&img, 88), 4096); // p_paddr
    assert_eq!(read_u64(&img, 96), 9); // p_filesz
    assert_eq!(read_u64(&img, 104), 9); // p_memsz
    assert_eq!(read_u64(&img, 112), 4096); // p_align
    // The code bytes land at their assigned address.
    assert_eq!(&img[4096..4105], &EXIT0);
}

#[test]
fn entry_points_into_code_segment() {
    let text = [EXIT0.as_slice(), EXIT0.as_slice()].concat();
    let obj = simple_object(&text, &[SymSpec("_start", GLOBAL_FUNC, 1, 9)], &[], None);
    let img = link(vec![obj]).unwrap();
    let entry = read_u64(&img, 24);
    let p_offset = read_u64(&img, 72);
    let p_filesz = read_u64(&img, 96);
    assert_eq!(entry, 4096 + 9);
    assert!(p_offset <= entry && entry < p_offset + p_filesz);
}

#[test]
fn pc32_relocation_with_addend() {
    // The code references `.rodata` (section 5) through a PC-relative
    // 32-bit relocation with a nonzero addend, patched at offset 2.
    let hello = b"Hello world\n";
    let text = [0x48u8, 0x8d, 0x35, 0, 0, 0, 0, 0x90]; // lea rsi, [rip+disp]; nop
    let obj = simple_object(
        &text,
        &[
            SymSpec("_start", GLOBAL_FUNC, 1, 0),
            SymSpec("msg", LOCAL_SECTION, 5, 0),
        ],
        &[(3, 2, 2, -4)], // P = .text + 3, sym 2, R_X86_64_PC32, A = -4
        Some((2, hello)), // ALLOC read-only data
    );
    let img = link(vec![obj]).unwrap();
    // Layout: code at 4096..4104, read-only data page-aligned at 8192.
    assert_eq!(&img[8192..8192 + hello.len()], hello);
    let p = 4096 + 3;
    let disp = read_u32(&img, p) as i32;
    assert_eq!(disp as i64, 8192 + (-4) - p as i64);
    // Read-only data program header: readable only, page-aligned start.
    assert_eq!(read_u32(&img, 176), 1);
    assert_eq!(read_u32(&img, 180), 4);
    assert_eq!(read_u64(&img, 184), 8192);
    assert_eq!(read_u64(&img, 184) % 4096, 0);
}

#[test]
fn plt32_call_across_objects() {
    // Object A calls `callee`, undefined there, through R_X86_64_PLT32;
    // object B defines it. The patched displacement targets B's code.
    let call = [0xe8u8, 0, 0, 0, 0, 0x90, 0x90, 0x90]; // call rel32; nops
    let a = simple_object(
        &call,
        &[
            SymSpec("_start", GLOBAL_FUNC, 1, 0),
            SymSpec("callee", GLOBAL_FUNC, 0, 0), // undefined here
        ],
        &[(1, 2, 4, -4)], // P = .text + 1, sym 2, R_X86_64_PLT32, A = -4
        None,
    );
    let b = simple_object(&EXIT0, &[SymSpec("callee", GLOBAL_FUNC, 1, 0)], &[], None);
    let img = link(vec![a, b]).unwrap();
    // A's code at 4096 (8 bytes, align 16), B's at align(4104, 16) = 4112.
    assert_eq!(&img[4112..4121], &EXIT0);
    let p = 4096 + 1;
    let disp = read_u32(&img, p) as i32;
    assert_eq!(disp as i64, 4112 + (-4) - p as i64);
    // The code segment spans both sections.
    assert_eq!(read_u64(&img, 72), 4096);
    assert_eq!(read_u64(&img, 96), 4112 + 9 - 4096);
}

#[test]
fn segments_are_disjoint() {
    let rw = 2u64 | 1; // ALLOC | WRITE
    let obj = simple_object(
        &EXIT0,
        &[SymSpec("_start", GLOBAL_FUNC, 1, 0)],
        &[],
        Some((rw, b"abcdef")),
    );
    let img = link(vec![obj]).unwrap();
    let ranges: Vec<(u64, u64)> = (0..3)
        .map(|i| {
            let base = 64 + 56 * i;
            (read_u64(&img, base + 8), read_u64(&img, base + 32))
        })
        .collect();
    for i in 0..3 {
        for j in 0..3 {
            if i != j && ranges[i].1 != 0 && ranges[j].1 != 0 {
                let (oi, si) = ranges[i];
                let (oj, sj) = ranges[j];
                assert!(oi + si <= oj || oj + sj <= oi);
            }
        }
    }
    // Writable data sits on its own page.
    assert_eq!(ranges[1].0, 8192);
    assert_eq!(ranges[1].1, 6);
    assert_eq!(img[8192..8198].to_vec(), b"abcdef".to_vec());
}

#[test]
fn identical_inputs_link_identically() {
    let obj = simple_object(
        &EXIT0,
        &[SymSpec("_start", GLOBAL_FUNC, 1, 0)],
        &[],
        Some((2, b"xyz")),
    );
    let img1 = link(vec![obj.clone()]).unwrap();
    let img2 = link(vec![obj]).unwrap();
    assert_eq!(img1, img2);
}

#[test]
fn section_order_within_object_is_immaterial() {
    // The same sections, traversed in a different section-header order;
    // per-bucket order is unchanged (one section per bucket), so the
    // linked images are byte-identical.
    let hello = b"wuhu\n";
    let text = EXIT0;
    let strtab = b"\0_start\0".to_vec();
    let mut symtab = Vec::new();
    sym_entry(0, 0, 0, 0, &mut symtab);
    let text_first = {
        let mut st = symtab.clone();
        sym_entry(1, GLOBAL_FUNC, 1, 0, &mut st); // .text is section 1
        build_object(&[
            Sec { sh_type: 1, sh_flags: 6, sh_link: 0, sh_info: 0, sh_addralign: 16, payload: text.to_vec() },
            Sec { sh_type: 1, sh_flags: 2, sh_link: 0, sh_info: 0, sh_addralign: 8, payload: hello.to_vec() },
            Sec { sh_type: 2, sh_flags: 0, sh_link: 4, sh_info: 0, sh_addralign: 8, payload: st },
            Sec { sh_type: 3, sh_flags: 0, sh_link: 0, sh_info: 0, sh_addralign: 1, payload: strtab.clone() },
        ])
    };
    let data_first = {
        let mut st = symtab.clone();
        sym_entry(1, GLOBAL_FUNC, 2, 0, &mut st); // .text is section 2
        build_object(&[
            Sec { sh_type: 1, sh_flags: 2, sh_link: 0, sh_info: 0, sh_addralign: 8, payload: hello.to_vec() },
            Sec { sh_type: 1, sh_flags: 6, sh_link: 0, sh_info: 0, sh_addralign: 16, payload: text.to_vec() },
            Sec { sh_type: 2, sh_flags: 0, sh_link: 4, sh_info: 0, sh_addralign: 8, payload: st },
            Sec { sh_type: 3, sh_flags: 0, sh_link: 0, sh_info: 0, sh_addralign: 1, payload: strtab.clone() },
        ])
    };
    let img1 = link(vec![text_first]).unwrap();
    let img2 = link(vec![data_first]).unwrap();
    assert_eq!(img1, img2);
}

// ----------------------------------------------------------------
// Fatal failures
// ----------------------------------------------------------------

#[test]
fn missing_start_is_fatal() {
    let obj = simple_object(&EXIT0, &[SymSpec("other", GLOBAL_FUNC, 1, 0)], &[], None);
    let r = link(vec![obj]);
    match r {
        Err(LinkError::UndefinedSymbol(name)) => assert_eq!(name, b"_start".to_vec()),
        other => panic!("expected an undefined-symbol failure, got {:?}", other.is_ok()),
    }
}

#[test]
fn duplicate_start_is_fatal() {
    let a = simple_object(&EXIT0, &[SymSpec("_start", GLOBAL_FUNC, 1, 0)], &[], None);
    let b = simple_object(&EXIT0, &[SymSpec("_start", GLOBAL_FUNC, 1, 0)], &[], None);
    let r = link(vec![a, b]);
    match r {
        Err(LinkError::DuplicateGlobal(name)) => assert_eq!(name, b"_start".to_vec()),
        other => panic!("expected a duplicate-definition failure, got {:?}", other.is_ok()),
    }
}

#[test]
fn unsupported_relocation_is_fatal() {
    // R_X86_64_64 (type 1) is not supported and the failure names it.
    let obj = simple_object(
        &EXIT0,
        &[SymSpec("_start", GLOBAL_FUNC, 1, 0)],
        &[(0, 1, 1, 0)],
        None,
    );
    let r = link(vec![obj]);
    match r {
        Err(LinkError::UnsupportedRelocation(t)) => assert_eq!(t, 1),
        other => panic!("expected an unsupported-relocation failure, got {:?}", other.is_ok()),
    }
}

#[test]
fn unresolved_plt32_target_is_fatal() {
    let obj = simple_object(
        &EXIT0,
        &[
            SymSpec("_start", GLOBAL_FUNC, 1, 0),
            SymSpec("nowhere", GLOBAL_FUNC, 0, 0),
        ],
        &[(1, 2, 4, -4)],
        None,
    );
    let r = link(vec![obj]);
    match r {
        Err(LinkError::UndefinedSymbol(name)) => assert_eq!(name, b"nowhere".to_vec()),
        other => panic!("expected an undefined-symbol failure, got {:?}", other.is_ok()),
    }
}

#[test]
fn displacement_overflow_is_fatal() {
    let obj = simple_object(
        &EXIT0,
        &[SymSpec("_start", GLOBAL_FUNC, 1, 0)],
        &[(0, 1, 2, 0x1_0000_0000)], // PC32 with an addend beyond 32 bits
        None,
    );
    let r = link(vec![obj]);
    assert!(matches!(r, Err(LinkError::Overflow)));
}

#[test]
fn unknown_section_type_is_fatal() {
    let obj = build_object(&[Sec {
        sh_type: 99,
        sh_flags: 0,
        sh_link: 0,
        sh_info: 0,
        sh_addralign: 1,
        payload: vec![1, 2, 3],
    }]);
    let r = link(vec![obj]);
    match r {
        Err(LinkError::UnknownSectionType(t)) => assert_eq!(t, 99),
        other => panic!("expected an unknown-section-type failure, got {:?}", other.is_ok()),
    }
}

#[test]
fn unknown_alloc_flags_are_fatal() {
    // ALLOC | WRITE | EXECINSTR matches no bucket.
    let obj = build_object(&[Sec {
        sh_type: 1,
        sh_flags: 7,
        sh_link: 0,
        sh_info: 0,
        sh_addralign: 1,
        payload: vec![0x90],
    }]);
    let r = link(vec![obj]);
    match r {
        Err(LinkError::UnknownSectionFlags(f)) => assert_eq!(f, 7),
        other => panic!("expected an unknown-flags failure, got {:?}", other.is_ok()),
    }
}

#[test]
fn non_elf_input_is_fatal() {
    let r = link(vec![b"not an object".to_vec()]);
    assert!(matches!(r, Err(LinkError::BadIdent)));
}

#[test]
fn executable_input_is_fatal() {
    // A well-formed ident, but e_type is EXEC rather than REL.
    let mut obj = simple_object(&EXIT0, &[SymSpec("_start", GLOBAL_FUNC, 1, 0)], &[], None);
    obj[16] = 2;
    let r = link(vec![obj]);
    assert!(matches!(r, Err(LinkError::BadObjectType)));
}

#[test]
fn no_inputs_leave_start_undefined() {
    let r = link(vec![]);
    match r {
        Err(LinkError::UndefinedSymbol(name)) => assert_eq!(name, b"_start".to_vec()),
        other => panic!("expected an undefined-symbol failure, got {:?}", other.is_ok()),
    }
}

// ----------------------------------------------------------------
// Small pieces
// ----------------------------------------------------------------

#[test]
fn align_rounds_up_to_multiples() {
    assert_eq!(align(0, 1), 0);
    assert_eq!(align(5, 1), 5);
    assert_eq!(align(5, 4), 8);
    assert_eq!(align(8, 4), 8);
    assert_eq!(align(232, 4096), 4096);
    assert_eq!(align(4097, 4096), 8192);
}

#[test]
fn failures_describe_themselves() {
    assert_eq!(
        LinkError::UnsupportedRelocation(1).message(),
        "unsupported relocation type"
    );
    assert_eq!(
        LinkError::DuplicateGlobal(b"_start".to_vec()).message(),
        "duplicate global symbol definition"
    );
    assert!(!LinkError::Overflow.message().is_empty());
}

#[test]
fn zero_section_alignment_is_fatal() {
    let mut hello_sec = simple_object(
        &EXIT0,
        &[SymSpec("_start", GLOBAL_FUNC, 1, 0)],
        &[],
        Some((2, b"zz")),
    );
    // Zero out sh_addralign of the extra section (index 4, as there are
    // no relocations): the table sits at the end of the file, the field
    // 48 bytes into the 64-byte header.
    let shoff = read_u64(&hello_sec, 40) as usize;
    let field = shoff + 4 * 64 + 48;
    hello_sec[field..field + 8].copy_from_slice(&[0u8; 8]);
    let r = link(vec![hello_sec]);
    assert!(matches!(r, Err(LinkError::BadAlignment)));
}

#[test]
fn truncated_section_table_is_fatal() {
    let mut obj = simple_object(&EXIT0, &[SymSpec("_start", GLOBAL_FUNC, 1, 0)], &[], None);
    let len = obj.len() as u64;
    obj[40..48].copy_from_slice(&(len + 1).to_le_bytes()); // e_shoff beyond the file
    let r = link(vec![obj]);
    assert!(matches!(r, Err(LinkError::Truncated)));
}

#[test]
fn buckets_keep_ingestion_order() {
    // Read-only data from two objects stays in input order, each piece
    // aligned to its own boundary after the previous one.
    let a = simple_object(
        &EXIT0,
        &[SymSpec("_start", GLOBAL_FUNC, 1, 0)],
        &[],
        Some((2, b"AA")),
    );
    let b = simple_object(&EXIT0, &[SymSpec("other", GLOBAL_FUNC, 1, 0)], &[], Some((2, b"BB")));
    let img = link(vec![a, b]).unwrap();
    assert_eq!(&img[8192..8194], b"AA");
    // The second piece lands at the next 8-byte boundary.
    assert_eq!(&img[8200..8202], b"BB");
}
