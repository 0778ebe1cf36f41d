use ld_so::defs::{
    LinkError, PAGE_SIZE, PF_R, PF_W, PF_X, PROT_EXEC, PROT_READ, PROT_WRITE, PT_LOAD, PT_TLS,
    R_X86_64_64, R_X86_64_JUMP_SLOT, R_X86_64_RELATIVE, R_X86_64_TPOFF64, DynSym, Phdr, Reloc,
};
use ld_so::image::{prot_of_flags, read_u64_le, store_u64_le, MAP_BASE};
use ld_so::linker::{LinkImage, Linker, LoadOutcome};
use ld_so::paths::select_candidate;
use ld_so::reloc::relocate_object;
use ld_so::symbols::SymbolTable;

fn push_u16(v: &mut Vec<u8>, x: u16) {
    v.extend_from_slice(&x.to_le_bytes());
}

fn push_u32(v: &mut Vec<u8>, x: u32) {
    v.extend_from_slice(&x.to_le_bytes());
}

fn push_u64(v: &mut Vec<u8>, x: u64) {
    v.extend_from_slice(&x.to_le_bytes());
}

/// A minimal ELF64 executable: header, `phnum` program headers, then the
/// given tail bytes as the file image.
fn elf_with_phdrs(e_entry: u64, phdrs: &[(u32, u32, u64, u64, u64, u64, u64)]) -> Vec<u8> {
    let mut v = Vec::new();
    v.extend_from_slice(&[0x7f, b'E', b'L', b'F', 2, 1, 1, 0, 0, 0, 0, 0, 0, 0, 0, 0]);
    push_u16(&mut v, 2); // ET_EXEC
    push_u16(&mut v, 62); // EM_X86_64
    push_u32(&mut v, 1);
    push_u64(&mut v, e_entry);
    push_u64(&mut v, 64); // e_phoff
    push_u64(&mut v, 0); // e_shoff
    push_u32(&mut v, 0);
    push_u16(&mut v, 64); // e_ehsize
    push_u16(&mut v, 56); // e_phentsize
    push_u16(&mut v, phdrs.len() as u16);
    push_u16(&mut v, 64);
    push_u16(&mut v, 0);
    push_u16(&mut v, 0);
    for &(p_type, p_flags, p_offset, p_vaddr, p_filesz, p_memsz, p_align) in phdrs {
        push_u32(&mut v, p_type);
        push_u32(&mut v, p_flags);
        push_u64(&mut v, p_offset);
        push_u64(&mut v, p_vaddr);
        push_u64(&mut v, p_vaddr);
        push_u64(&mut v, p_filesz);
        push_u64(&mut v, p_memsz);
        push_u64(&mut v, p_align);
    }
    while v.len() < 0x200 {
        v.push((v.len() % 251) as u8);
    }
    v
}

#[test]
fn hello_world_primary_no_dependencies() {
    let data = elf_with_phdrs(0x40, &[(PT_LOAD, PF_R | PF_X, 0, 0, 0x200, 0x1000, 0x1000)]);
    let first_text = data[0x40];
    let mut linker = Linker::new("");
    match linker.load_data("hello", data).unwrap() {
        LoadOutcome::Loaded => {}
        LoadOutcome::Missing(_) => panic!("no dependencies expected"),
    }
    let img: LinkImage = linker.link("hello").unwrap();
    let mo = img.find("hello").unwrap();
    assert_eq!(mo.base % PAGE_SIZE, 0);
    assert_eq!(mo.base, MAP_BASE);
    assert_eq!(img.entry, mo.base + 0x40);
    assert_eq!(mo.mem.len(), 0x1000);
    // the byte at the returned address is the first byte of the text
    assert_eq!(mo.mem[0x40], first_text);
    // R|X under W^X
    assert_eq!(mo.prots[0], PROT_READ | PROT_EXEC);
}

#[test]
fn load_is_idempotent() {
    let data = elf_with_phdrs(0x40, &[(PT_LOAD, PF_R | PF_X, 0, 0, 0x200, 0x1000, 0x1000)]);
    let mut linker = Linker::new("");
    linker.load_data("hello", data.clone()).unwrap();
    let before = linker.objects.len();
    match linker.load_data("hello", data).unwrap() {
        LoadOutcome::Loaded => {}
        LoadOutcome::Missing(_) => panic!("no dependencies expected"),
    }
    assert_eq!(linker.objects.len(), before);
}

#[test]
fn parse_failed_on_garbage() {
    let mut linker = Linker::new("");
    match linker.load_data("junk", vec![1, 2, 3, 4]) {
        Err(LinkError::ParseFailed(n)) => assert_eq!(n, "junk"),
        _ => panic!("expected ParseFailed"),
    }
    assert_eq!(linker.objects.len(), 0);
}

#[test]
fn relative_reloc_in_pie_primary() {
    // R_X86_64_RELATIVE at offset 0x2000 with addend 0x1234 writes B + A.
    let mut mem = vec![0u8; 0x3000];
    let relocs = vec![Reloc {
        r_offset: 0x2000,
        r_addend: Some(0x1234),
        r_sym: 0,
        r_type: R_X86_64_RELATIVE,
    }];
    let syms: Vec<DynSym> = Vec::new();
    let globals = SymbolTable::new();
    let b = 0x70000;
    let (unsupported, irel) =
        relocate_object("p", &mut mem, &relocs, &syms, &globals, b, 0).unwrap();
    assert!(unsupported.is_empty() && irel.is_empty());
    assert_eq!(read_u64_le(&mem, 0x2000), b + 0x1234);
}

#[test]
fn jump_slot_resolves_library_symbol() {
    // library defines foo at st_value 0x1200; primary's PLT slot at 0x3000
    // receives library_base + 0x1200.
    let library_base = 0x90000u64;
    let mut globals = SymbolTable::new();
    let mut lib_syms = Vec::new();
    lib_syms.push(DynSym { st_info: 0x10, st_value: 0, name: None });
    lib_syms.push(DynSym { st_info: 0x12, st_value: 0x1200, name: Some("foo".to_string()) });
    globals.scan_object(library_base, &lib_syms);

    let mut mem = vec![0u8; 0x4000];
    let relocs = vec![Reloc {
        r_offset: 0x3000,
        r_addend: Some(0),
        r_sym: 1,
        r_type: R_X86_64_JUMP_SLOT,
    }];
    let (_u, _i) =
        relocate_object("p", &mut mem, &relocs, &lib_syms, &globals, 0x20000, 0).unwrap();
    assert_eq!(read_u64_le(&mem, 0x3000), library_base + 0x1200);
}

#[test]
fn direct_64_adds_addend() {
    let mut globals = SymbolTable::new();
    let syms = vec![
        DynSym { st_info: 0, st_value: 0, name: None },
        DynSym { st_info: 0x12, st_value: 0x100, name: Some("bar".to_string()) },
    ];
    globals.scan_object(0x50000, &syms);
    let mut mem = vec![0u8; 0x100];
    let relocs =
        vec![Reloc { r_offset: 0x10, r_addend: Some(8), r_sym: 1, r_type: R_X86_64_64 }];
    relocate_object("p", &mut mem, &relocs, &syms, &globals, 1, 0).unwrap();
    assert_eq!(read_u64_le(&mem, 0x10), 0x50000 + 0x100 + 8);
}

#[test]
fn missing_symbol_index_fails() {
    let mut mem = vec![0u8; 0x100];
    let relocs = vec![Reloc { r_offset: 0, r_addend: None, r_sym: 7, r_type: R_X86_64_64 }];
    let syms: Vec<DynSym> = Vec::new();
    let globals = SymbolTable::new();
    match relocate_object("p", &mut mem, &relocs, &syms, &globals, 0, 0) {
        Err(LinkError::MissingSymbolIndex(n)) => assert_eq!(n, "p"),
        _ => panic!("expected MissingSymbolIndex"),
    }
}

#[test]
fn missing_symbol_name_fails() {
    let mut mem = vec![0u8; 0x100];
    let relocs = vec![Reloc { r_offset: 0, r_addend: None, r_sym: 1, r_type: R_X86_64_64 }];
    let syms = vec![
        DynSym { st_info: 0, st_value: 0, name: None },
        DynSym { st_info: 0x12, st_value: 4, name: None },
    ];
    let globals = SymbolTable::new();
    match relocate_object("p", &mut mem, &relocs, &syms, &globals, 0, 0) {
        Err(LinkError::MissingSymbolName(n)) => assert_eq!(n, "p"),
        _ => panic!("expected MissingSymbolName"),
    }
}

#[test]
fn out_of_bounds_write_site_fails() {
    let mut mem = vec![0u8; 0x10];
    let relocs =
        vec![Reloc { r_offset: 0x9, r_addend: Some(0), r_sym: 0, r_type: R_X86_64_RELATIVE }];
    let syms: Vec<DynSym> = Vec::new();
    let globals = SymbolTable::new();
    match relocate_object("p", &mut mem, &relocs, &syms, &globals, 0, 0) {
        Err(LinkError::OutOfBoundsSegment(n)) => assert_eq!(n, "p"),
        _ => panic!("expected OutOfBoundsSegment"),
    }
}

#[test]
fn unknown_reloc_is_skipped() {
    let mut mem = vec![0u8; 0x100];
    let relocs = vec![Reloc { r_offset: 0, r_addend: None, r_sym: 0, r_type: 1000 }];
    let syms: Vec<DynSym> = Vec::new();
    let globals = SymbolTable::new();
    let (unsupported, _ir) =
        relocate_object("p", &mut mem, &relocs, &syms, &globals, 0, 0).unwrap();
    assert_eq!(unsupported, vec![1000]);
    assert_eq!(read_u64_le(&mem, 0), 0);
}

#[test]
fn tls_with_tpoff64() {
    // primary with PT_TLS of p_memsz 0x40, p_align 0x40; a TPOFF64 with
    // S = 0x10, A = 0 writes 0x10 - (tls_size - 0x40) wrapping.
    let data = elf_with_phdrs(
        0x40,
        &[
            (PT_LOAD, PF_R | PF_X, 0, 0, 0x200, 0x1000, 0x1000),
            (PT_TLS, PF_R, 0x100, 0x100, 0, 0x40, 0x40),
        ],
    );
    let mut linker = Linker::new("");
    linker.load_data("prim", data).unwrap();
    let img = linker.link("prim").unwrap();
    let tls_size = img.tls.mem.len() as u64;
    assert_eq!(tls_size, 0x1000); // page-rounded PT_TLS extent
    let mo = img.find("prim").unwrap();
    let slot = mo.tls.unwrap();
    assert_eq!(slot.index, 0);
    assert_eq!(slot.start, tls_size - 0x40); // the top tls_primary bytes
    // thread pointer points at the end of the TLS block; the TCB's first
    // word holds it
    assert_eq!(img.tls.thread_ptr, img.tls.base + tls_size);
    assert_eq!(read_u64_le(&img.tls.tcb, 0), img.tls.thread_ptr);

    // the TPOFF64 formula against the recorded slot
    let t = slot.start;
    let mut mem = vec![0u8; 0x100];
    let relocs =
        vec![Reloc { r_offset: 0, r_addend: Some(0), r_sym: 1, r_type: R_X86_64_TPOFF64 }];
    let syms = vec![
        DynSym { st_info: 0, st_value: 0, name: None },
        DynSym { st_info: 0x12, st_value: 0x10, name: Some("tvar".to_string()) },
    ];
    let mut globals = SymbolTable::new();
    globals.scan_object(0, &syms);
    relocate_object("prim", &mut mem, &relocs, &syms, &globals, 0, t).unwrap();
    assert_eq!(read_u64_le(&mem, 0), 0x10u64.wrapping_sub(t));
}

#[test]
fn wx_downgrade() {
    // PF_R|PF_W|PF_X maps as R|X, not R|W|X
    assert_eq!(prot_of_flags(PF_R | PF_W | PF_X), PROT_READ | PROT_EXEC);
    assert_eq!(prot_of_flags(PF_R | PF_W), PROT_READ | PROT_WRITE);
    assert_eq!(prot_of_flags(PF_R), PROT_READ);
    let data = elf_with_phdrs(
        0,
        &[(PT_LOAD, PF_R | PF_W | PF_X, 0, 0, 0x200, 0x1000, 0x1000)],
    );
    let mut linker = Linker::new("");
    linker.load_data("rwx", data).unwrap();
    let img = linker.link("rwx").unwrap();
    let mo = img.find("rwx").unwrap();
    assert_eq!(mo.prots[0], PROT_READ | PROT_EXEC);
}

#[test]
fn dependency_not_found() {
    let linker = Linker::new("./libs:/usr/lib");
    let candidates = linker.candidate_paths("libX.so");
    assert_eq!(candidates, vec!["./libs/libX.so".to_string(), "/usr/lib/libX.so".to_string()]);
    let exists_bits = vec![false, false];
    match select_candidate(&candidates, &exists_bits, "libX.so") {
        Err(LinkError::NotFound(n)) => assert_eq!(n, "libX.so"),
        _ => panic!("expected NotFound"),
    }
}

#[test]
fn empty_search_component_means_cwd() {
    let linker = Linker::new(":/opt/lib");
    let candidates = linker.candidate_paths("libm.so");
    assert_eq!(candidates, vec!["./libm.so".to_string(), "/opt/lib/libm.so".to_string()]);
}

#[test]
fn missing_entry_for_unknown_primary() {
    let linker = Linker::new("");
    match linker.link("nothing") {
        Err(LinkError::MissingEntry(n)) => assert_eq!(n, "nothing"),
        _ => panic!("expected MissingEntry"),
    }
}

#[test]
fn store_and_read_u64_roundtrip() {
    let mut mem = vec![0u8; 16];
    store_u64_le(&mut mem, 3, 0x0123_4567_89ab_cdef);
    assert_eq!(mem[3], 0xef);
    assert_eq!(mem[10], 0x01);
    assert_eq!(read_u64_le(&mem, 3), 0x0123_4567_89ab_cdef);
}

#[test]
fn mapping_bases_are_disjoint_and_ordered() {
    let a = elf_with_phdrs(0, &[(PT_LOAD, PF_R, 0, 0, 0x200, 0x2000, 0x1000)]);
    let b = elf_with_phdrs(0, &[(PT_LOAD, PF_R, 0, 0, 0x200, 0x1000, 0x1000)]);
    let mut linker = Linker::new("");
    linker.load_data("a", a).unwrap();
    linker.load_data("b", b).unwrap();
    let img = linker.link("a").unwrap();
    let ma = img.find("a").unwrap();
    let mb = img.find("b").unwrap();
    assert_eq!(ma.base % PAGE_SIZE, 0);
    assert_eq!(mb.base % PAGE_SIZE, 0);
    assert!(ma.base + ma.mem.len() as u64 <= mb.base);
}

#[test]
fn map_failed_on_overflowing_segment() {
    // a PT_LOAD whose page-rounded extent exceeds a 64-bit word
    let data = elf_with_phdrs(0, &[(PT_LOAD, PF_R, 0, 0, 0, u64::MAX, 0x1000)]);
    let mut linker = Linker::new("");
    linker.load_data("huge", data).unwrap();
    match linker.link("huge") {
        Err(LinkError::MapFailed(n)) => assert_eq!(n, "huge"),
        _ => panic!("expected MapFailed"),
    }
}
