use elf_loader::elf::{ELFFile, ELFFileError, RelocError};
use elf_loader::elf_module::{ElfModuleError, ElfModuleRoot};
use elf_loader::headers::{EMachine, EType, SHFlags};
use elf_loader::section::{Rela, RelaType, STBind, STType, Symbol};

const SHT_PROGBITS: u32 = 1;
const SHT_SYMTAB: u32 = 2;
const SHT_STRTAB: u32 = 3;
const SHT_RELA: u32 = 4;
const SHT_NOBITS: u32 = 8;
const ALLOC: u32 = 2;
const WRITE: u32 = 1;
const EXEC: u32 = 4;
const GLOBAL_FUNC: u8 = 0x12;
const LOCAL_NOTYPE: u8 = 0x00;
const GLOBAL_NOTYPE: u8 = 0x10;

struct Sec {
    ty: u32,
    flags: u32,
    data: Vec<u8>,
    size: u32,
    link: u32,
    info: u32,
    align: u32,
    entsize: u32,
}

fn sec(ty: u32, flags: u32, data: Vec<u8>, link: u32, info: u32, align: u32, entsize: u32) -> Sec {
    let size = data.len() as u32;
    Sec { ty, flags, data, size, link, info, align, entsize }
}

fn put16(v: &mut Vec<u8>, x: u16) {
    v.extend_from_slice(&x.to_le_bytes());
}

fn put32(v: &mut Vec<u8>, x: u32) {
    v.extend_from_slice(&x.to_le_bytes());
}

/// A 32-bit little-endian relocatable image with the given sections after the
/// null section.
fn image(secs: Vec<Sec>) -> Vec<u8> {
    let mut body: Vec<u8> = Vec::new();
    let mut offsets: Vec<u32> = Vec::new();
    for s in &secs {
        while (52 + body.len()) % 4 != 0 {
            body.push(0);
        }
        offsets.push((52 + body.len()) as u32);
        if s.ty != SHT_NOBITS {
            body.extend_from_slice(&s.data);
        }
    }
    while (52 + body.len()) % 4 != 0 {
        body.push(0);
    }
    let shoff = (52 + body.len()) as u32;
    let mut out: Vec<u8> = vec![0x7f, b'E', b'L', b'F', 1, 1, 1, 0, 0, 0, 0, 0, 0, 0, 0, 0];
    put16(&mut out, 1);
    put16(&mut out, 243);
    put32(&mut out, 1);
    put32(&mut out, 0);
    put32(&mut out, 0);
    put32(&mut out, shoff);
    put32(&mut out, 0);
    put16(&mut out, 52);
    put16(&mut out, 0);
    put16(&mut out, 0);
    put16(&mut out, 40);
    put16(&mut out, (secs.len() + 1) as u16);
    put16(&mut out, 0);
    assert_eq!(out.len(), 52);
    out.extend_from_slice(&body);
    out.extend_from_slice(&[0u8; 40]);
    for (s, off) in secs.iter().zip(offsets.iter()) {
        put32(&mut out, 0);
        put32(&mut out, s.ty);
        put32(&mut out, s.flags);
        put32(&mut out, 0);
        put32(&mut out, *off);
        put32(&mut out, s.size);
        put32(&mut out, s.link);
        put32(&mut out, s.info);
        put32(&mut out, s.align);
        put32(&mut out, s.entsize);
    }
    out
}

/// A string table and the offset of each name in it.
fn strtab(names: &[&str]) -> (Vec<u8>, Vec<u32>) {
    let mut t = vec![0u8];
    let mut offs = Vec::new();
    for n in names {
        offs.push(t.len() as u32);
        t.extend_from_slice(n.as_bytes());
        t.push(0);
    }
    (t, offs)
}

fn symtab(entries: &[(u32, u32, u8, u16)]) -> Vec<u8> {
    let mut v = vec![0u8; 16];
    for (name, value, info, shndx) in entries {
        put32(&mut v, *name);
        put32(&mut v, *value);
        put32(&mut v, 0);
        v.push(*info);
        v.push(0);
        put16(&mut v, *shndx);
    }
    v
}

fn relatab(entries: &[(u32, u32, u32, i32)]) -> Vec<u8> {
    let mut v = Vec::new();
    for (off, sym, ty, addend) in entries {
        put32(&mut v, *off);
        put32(&mut v, (sym << 8) | ty);
        put32(&mut v, *addend as u32);
    }
    v
}

fn words(ws: &[u32]) -> Vec<u8> {
    let mut v = Vec::new();
    for w in ws {
        put32(&mut v, *w);
    }
    v
}

fn word_at(b: &[u8], off: usize) -> u32 {
    u32::from_le_bytes([b[off], b[off + 1], b[off + 2], b[off + 3]])
}

fn name(s: &str) -> Vec<u8> {
    s.as_bytes().to_vec()
}

/// Module A: exports `f` at offset 4 of its text, and `a_data` in its data.
fn module_a() -> Vec<u8> {
    let (st, offs) = strtab(&["f", "a_data"]);
    image(vec![
        sec(SHT_PROGBITS, ALLOC | EXEC, words(&[0x13, 0x13]), 0, 0, 4, 0),
        sec(SHT_SYMTAB, 0, symtab(&[(offs[0], 4, GLOBAL_FUNC, 1), (offs[1], 0, GLOBAL_NOTYPE, 5)]), 3, 1, 4, 16),
        sec(SHT_STRTAB, 0, st, 0, 0, 1, 0),
        sec(SHT_PROGBITS, 0, vec![], 0, 0, 1, 0),
        sec(SHT_PROGBITS, ALLOC | WRITE, words(&[7]), 0, 0, 4, 0),
    ])
}

/// Module B: calls `f` through an auipc/jalr pair and exports `g`.
fn module_b() -> Vec<u8> {
    let (st, offs) = strtab(&["f", "g"]);
    image(vec![
        sec(SHT_PROGBITS, ALLOC | EXEC, words(&[0x0000_0097, 0x0000_80e7]), 0, 0, 4, 0),
        sec(SHT_SYMTAB, 0, symtab(&[(offs[0], 0, GLOBAL_NOTYPE, 0), (offs[1], 0, GLOBAL_FUNC, 1)]), 3, 1, 4, 16),
        sec(SHT_STRTAB, 0, st, 0, 0, 1, 0),
        sec(SHT_RELA, 0, relatab(&[(0, 1, 18, 0)]), 2, 1, 4, 12),
    ])
}

fn one_reloc(ty: u32, addend: i64) -> Rela {
    Rela { r_offset: 0, r_info: (1 << 8) | ty as u64, r_addend: addend, is64: false }
}

fn sym_at(value: u64) -> Symbol {
    Symbol { st_name: 1, st_value: value, st_size: 0, st_info: GLOBAL_FUNC, st_other: 0, st_shndx: 1 }
}

#[test]
fn pcrel_hi20_pair_keeps_low_bits_and_fills_next_word() {
    let mut mem = words(&[0x0000_0097, 0x0000_0013]);
    let r = ELFFile::relocateadd(&one_reloc(23, 0), &sym_at(0x1234), &mut mem, 0x1000, 0x1000);
    assert_eq!(r, Ok(()));
    let w0 = word_at(&mem, 0);
    let w1 = word_at(&mem, 4);
    assert_eq!(w0 & 0xfff, 0x097);
    assert_eq!(w0, 0x0000_0097);
    assert_eq!(w1 >> 20, 0x234);
    assert_eq!(w1, 0x2340_0013);
}

#[test]
fn pcrel_hi20_pair_places_store_immediate() {
    let mut mem = words(&[0x0000_0097, 0x0000_2023]);
    let r = ELFFile::relocateadd(&one_reloc(23, 0), &sym_at(0x1234), &mut mem, 0x1000, 0x1000);
    assert_eq!(r, Ok(()));
    let w1 = word_at(&mem, 4);
    assert_eq!(w1, 0x2200_2023 | (0x14 << 7));
}

#[test]
fn pcrel_hi20_rounds_up_when_low_part_is_negative() {
    let mut mem = words(&[0x0000_0097, 0x0000_80e7]);
    let r = ELFFile::relocateadd(&one_reloc(18, 0), &sym_at(0x1004), &mut mem, 0x2000, 0x2000);
    assert_eq!(r, Ok(()));
    assert_eq!(word_at(&mem, 0), 0xffff_f097);
    assert_eq!(word_at(&mem, 4), 0x0040_80e7);
}

#[test]
fn absolute_relocation_writes_value_plus_addend() {
    let mut mem = vec![0xaau8; 8];
    let r = ELFFile::relocateadd(&one_reloc(1, 4), &sym_at(0x8000_1000), &mut mem, 0x100, 0x100);
    assert_eq!(r, Ok(()));
    assert_eq!(word_at(&mem, 0), 0x8000_1004);
    assert_eq!(&mem[4..], &[0xaa, 0xaa, 0xaa, 0xaa]);
}

#[test]
fn absolute_64_relocation_writes_four_bytes_only() {
    let mut mem = vec![0xaau8; 8];
    let r = ELFFile::relocateadd(&one_reloc(2, 4), &sym_at(0x8000_1000), &mut mem, 0x100, 0x100);
    assert_eq!(r, Ok(()));
    assert_eq!(word_at(&mem, 0), 0x8000_1004);
    assert_eq!(word_at(&mem, 4), 0xaaaa_aaaa);
}

#[test]
fn absolute_relocation_with_negative_addend() {
    let mut mem = vec![0u8; 4];
    let r = ELFFile::relocateadd(&one_reloc(1, -8), &sym_at(0x8000_1000), &mut mem, 0, 0);
    assert_eq!(r, Ok(()));
    assert_eq!(word_at(&mem, 0), 0x8000_0ff8);
}

#[test]
fn absolute_hi20_and_lo12() {
    let mut mem = words(&[0x0000_00b7]);
    assert_eq!(ELFFile::relocateadd(&one_reloc(26, 0), &sym_at(0x1234_5fff), &mut mem, 0, 0), Ok(()));
    assert_eq!(word_at(&mem, 0), 0x1234_60b7);
    let mut mem = words(&[0x0000_8093]);
    assert_eq!(ELFFile::relocateadd(&one_reloc(27, 0), &sym_at(0x1234_5fff), &mut mem, 0, 0), Ok(()));
    assert_eq!(word_at(&mem, 0), 0xfff0_8093);
    let mut mem = words(&[0x0010_a023]);
    assert_eq!(ELFFile::relocateadd(&one_reloc(28, 0), &sym_at(0x1234_5678), &mut mem, 0, 0), Ok(()));
    assert_eq!(word_at(&mem, 0), 0x6610_ac23);
}

#[test]
fn no_op_kinds_leave_memory_alone() {
    for ty in [24u32, 25, 51] {
        let mut mem = words(&[0xdead_beef]);
        assert_eq!(ELFFile::relocateadd(&one_reloc(ty, 0), &sym_at(0x1234), &mut mem, 0, 0), Ok(()));
        assert_eq!(word_at(&mem, 0), 0xdead_beef);
    }
}

#[test]
fn branch_check_accepts_matching_and_rejects_other() {
    // beq x0, x0, +8
    let mut mem = words(&[0x0000_0463]);
    assert_eq!(ELFFile::relocateadd(&one_reloc(16, 0), &sym_at(0x108), &mut mem, 0x100, 0x100), Ok(()));
    assert_eq!(
        ELFFile::relocateadd(&one_reloc(16, 0), &sym_at(0x10c), &mut mem, 0x100, 0x100),
        Err(RelocError::BranchMismatch)
    );
    assert_eq!(word_at(&mem, 0), 0x0000_0463);
}

#[test]
fn compressed_jump_and_branch_checks() {
    // c.j +4
    let mut mem = vec![0x11, 0xa0, 0, 0];
    assert_eq!(ELFFile::relocateadd(&one_reloc(45, 0), &sym_at(0x104), &mut mem, 0x100, 0x100), Ok(()));
    assert_eq!(
        ELFFile::relocateadd(&one_reloc(45, 0), &sym_at(0x108), &mut mem, 0x100, 0x100),
        Err(RelocError::BranchMismatch)
    );
    // c.beqz x8, +4
    let mut mem = vec![0x11, 0xc0, 0, 0];
    assert_eq!(ELFFile::relocateadd(&one_reloc(44, 0), &sym_at(0x104), &mut mem, 0x100, 0x100), Ok(()));
    assert_eq!(
        ELFFile::relocateadd(&one_reloc(44, 0), &sym_at(0x106), &mut mem, 0x100, 0x100),
        Err(RelocError::BranchMismatch)
    );
}

#[test]
fn relocation_errors() {
    let mut mem = words(&[0]);
    assert_eq!(
        ELFFile::relocateadd(&one_reloc(99, 0), &sym_at(0), &mut mem, 0, 0),
        Err(RelocError::UnknownType)
    );
    assert_eq!(
        ELFFile::relocateadd(&one_reloc(1, 0), &sym_at(0), &mut mem, 0, 2),
        Err(RelocError::OutOfRange)
    );
    assert_eq!(
        ELFFile::relocateadd(&one_reloc(23, 0), &sym_at(0), &mut mem, 0, 0),
        Err(RelocError::OutOfRange)
    );
    assert_eq!(word_at(&mem, 0), 0);
}

#[test]
fn parse_errors() {
    assert!(matches!(ELFFile::parse(None), Err(ELFFileError::FileNotFound)));
    let mut no_sections = module_a();
    no_sections[48] = 0;
    no_sections[49] = 0;
    assert!(matches!(ELFFile::parse(Some(no_sections)), Err(ELFFileError::FileHasNotSection)));
    let mut bad_magic = module_a();
    bad_magic[1] = b'X';
    assert!(matches!(ELFFile::parse(Some(bad_magic)), Err(ELFFileError::FileNotValid)));
    let mut bad_version = module_a();
    bad_version[20] = 2;
    assert!(matches!(ELFFile::parse(Some(bad_version)), Err(ELFFileError::FileNotValid)));
    assert!(matches!(ELFFile::parse(Some(Vec::new())), Err(ELFFileError::FileHasNotSection)));
}

#[test]
fn parse_reads_header_and_sections() {
    let f = ELFFile::parse(Some(module_a())).ok().unwrap();
    assert_eq!(f.elf_header().section_header_nums(), 6);
    assert_eq!(f.section_headers().len(), 6);
    assert_eq!(f.section_headers()[1].section_type(), SHT_PROGBITS);
    assert_eq!(f.section_headers()[1].section_size(), 8);
    assert_eq!(f.section_headers()[2].section_link(), 3);
    assert_eq!(f.section_headers()[2].section_entsize(), 16);
    assert!(f.elf_header().is_valid());
}

#[test]
fn symbol_name_scans() {
    let fa = ELFFile::parse(Some(module_a())).ok().unwrap();
    assert_eq!(fa.get_undefined_symbol_names(), Vec::<Vec<u8>>::new());
    assert_eq!(fa.get_all_symbol_names(), vec![name("f"), name("a_data")]);
    let fb = ELFFile::parse(Some(module_b())).ok().unwrap();
    assert_eq!(fb.get_undefined_symbol_names(), vec![name("f")]);
    assert_eq!(fb.get_all_symbol_names(), vec![name("g")]);
}

#[test]
fn layout_rounds_sizes_and_aligns_groups() {
    let img = image(vec![
        sec(SHT_PROGBITS, ALLOC | EXEC, vec![1, 2, 3, 4, 5, 6], 0, 0, 4, 0),
        sec(SHT_PROGBITS, ALLOC | WRITE, vec![9; 5], 0, 0, 8, 0),
        Sec { ty: SHT_NOBITS, flags: ALLOC | WRITE, data: vec![], size: 4, link: 0, info: 0, align: 16, entsize: 0 },
        sec(SHT_PROGBITS, 0, vec![1; 3], 0, 0, 1, 0),
    ]);
    let f = ELFFile::parse(Some(img)).ok().unwrap();
    assert_eq!(f.calculate_needed_size(), ((8, 4), (20, 16)));
}

#[test]
fn load_copies_sections_and_zero_fills() {
    let img = image(vec![
        sec(SHT_PROGBITS, ALLOC | EXEC, vec![1, 2, 3, 4, 5, 6], 0, 0, 4, 0),
        sec(SHT_PROGBITS, ALLOC | WRITE, vec![9; 5], 0, 0, 8, 0),
        Sec { ty: SHT_NOBITS, flags: ALLOC | WRITE, data: vec![], size: 4, link: 0, info: 0, align: 16, entsize: 0 },
    ]);
    let mut root = ElfModuleRoot::new();
    let h = root.load(Some(img), 0x1000, 0x2000).ok().unwrap();
    assert_eq!(h, 0);
    let m = &root.modules[0];
    let t = m.text_info.as_ref().unwrap();
    assert_eq!(t.base, 0x1000);
    assert_eq!(t.bytes, vec![1, 2, 3, 4, 5, 6, 0, 0]);
    let d = m.data_info.as_ref().unwrap();
    assert_eq!(d.base, 0x2000);
    assert_eq!(d.align, 16);
    assert_eq!(d.bytes.len(), 20);
    assert_eq!(&d.bytes[0..5], &[9, 9, 9, 9, 9]);
    assert!(d.bytes[5..].iter().all(|b| *b == 0));
}

#[test]
fn import_resolves_to_provider_address() {
    let mut root = ElfModuleRoot::new();
    let ha = root.load(Some(module_a()), 0x1000, 0x3000).ok().unwrap();
    let hb = root.load(Some(module_b()), 0x2000, 0x4000).ok().unwrap();
    assert_ne!(ha, hb);
    let fa = root.resolve(Some(ha), &name("f"));
    assert_eq!(fa, Some(0x1004));
    assert_eq!(root.resolve(Some(hb), &name("f")), fa);
    assert_eq!(root.resolve(Some(hb), &name("g")), Some(0x2000));
    assert_eq!(root.resolve(None, &name("a_data")), Some(0x3000));
    assert_eq!(root.resolve(None, &name("missing")), None);
    let b = &root.modules[1];
    let text = &b.text_info.as_ref().unwrap().bytes;
    assert_eq!(word_at(text, 0), 0xffff_f097);
    assert_eq!(word_at(text, 4), 0x0040_80e7);
    assert_eq!(root.modules[0].dependents, vec![hb]);
    assert_eq!(b.dependencies, vec![ha]);
}

#[test]
fn conflicting_export_is_refused() {
    let mut root = ElfModuleRoot::new();
    root.load(Some(module_a()), 0x1000, 0x3000).ok().unwrap();
    let r = root.load(Some(module_a()), 0x5000, 0x6000);
    assert_eq!(r, Err(ElfModuleError::SymbolConflict));
    assert_eq!(root.modules.len(), 1);
}

#[test]
fn unresolved_import_is_refused() {
    let mut root = ElfModuleRoot::new();
    let r = root.load(Some(module_b()), 0x2000, 0x4000);
    assert_eq!(r, Err(ElfModuleError::UnresolvedSymbol));
    assert_eq!(root.modules.len(), 0);
}

#[test]
fn unload_with_dependent_is_a_no_op() {
    let mut root = ElfModuleRoot::new();
    let ha = root.load(Some(module_a()), 0x1000, 0x3000).ok().unwrap();
    root.load(Some(module_b()), 0x2000, 0x4000).ok().unwrap();
    root.unload_elf_module(ha);
    assert_eq!(root.modules.len(), 2);
    assert_eq!(root.resolve(Some(ha), &name("f")), Some(0x1004));
}

#[test]
fn unload_removes_module_then_frees_its_provider() {
    let mut root = ElfModuleRoot::new();
    let ha = root.load(Some(module_a()), 0x1000, 0x3000).ok().unwrap();
    let hb = root.load(Some(module_b()), 0x2000, 0x4000).ok().unwrap();
    root.unload_elf_module(hb);
    assert_eq!(root.modules.len(), 1);
    assert_eq!(root.resolve(Some(hb), &name("g")), None);
    assert!(root.modules[0].dependents.is_empty());
    root.unload_elf_module(ha);
    assert_eq!(root.modules.len(), 0);
    assert_eq!(root.resolve(None, &name("f")), None);
}

#[test]
fn unload_of_unknown_handle_changes_nothing() {
    let mut root = ElfModuleRoot::new();
    root.load(Some(module_a()), 0x1000, 0x3000).ok().unwrap();
    root.unload_elf_module(42);
    assert_eq!(root.modules.len(), 1);
}

#[test]
fn common_symbol_is_refused() {
    let (st, offs) = strtab(&["c"]);
    let img = image(vec![
        sec(SHT_PROGBITS, ALLOC | EXEC, words(&[0x13]), 0, 0, 4, 0),
        sec(SHT_SYMTAB, 0, symtab(&[(offs[0], 4, GLOBAL_NOTYPE, 0xfff2)]), 3, 1, 4, 16),
        sec(SHT_STRTAB, 0, st, 0, 0, 1, 0),
    ]);
    let mut root = ElfModuleRoot::new();
    assert_eq!(root.load(Some(img), 0x1000, 0x2000), Err(ElfModuleError::CommonSymbolUnsupported));
    assert_eq!(root.modules.len(), 0);
}

#[test]
fn symbol_of_missing_section_is_malformed() {
    let (st, offs) = strtab(&["x"]);
    let img = image(vec![
        sec(SHT_PROGBITS, ALLOC | EXEC, words(&[0x13]), 0, 0, 4, 0),
        sec(SHT_SYMTAB, 0, symtab(&[(offs[0], 0, LOCAL_NOTYPE, 9)]), 3, 1, 4, 16),
        sec(SHT_STRTAB, 0, st, 0, 0, 1, 0),
    ]);
    let mut root = ElfModuleRoot::new();
    assert_eq!(root.load(Some(img), 0x1000, 0x2000), Err(ElfModuleError::Malformed));
}

#[test]
fn failed_relocation_aborts_load() {
    let (st, offs) = strtab(&["h"]);
    let img = image(vec![
        sec(SHT_PROGBITS, ALLOC | EXEC, words(&[0x0000_0463]), 0, 0, 4, 0),
        sec(SHT_SYMTAB, 0, symtab(&[(offs[0], 12, GLOBAL_FUNC, 1)]), 3, 1, 4, 16),
        sec(SHT_STRTAB, 0, st, 0, 0, 1, 0),
        sec(SHT_RELA, 0, relatab(&[(0, 1, 16, 0)]), 2, 1, 4, 12),
    ]);
    let mut root = ElfModuleRoot::new();
    assert_eq!(
        root.load(Some(img), 0x1000, 0x2000),
        Err(ElfModuleError::Relocation(RelocError::BranchMismatch))
    );
    assert_eq!(root.modules.len(), 0);
}

#[test]
fn region_past_address_space_fails_allocation() {
    let mut root = ElfModuleRoot::new();
    assert_eq!(
        root.load(Some(module_a()), u64::MAX - 4, 0x3000),
        Err(ElfModuleError::AllocationFailed)
    );
    assert_eq!(root.modules.len(), 0);
}

#[test]
fn load_reports_parse_errors() {
    let mut root = ElfModuleRoot::new();
    assert_eq!(root.load(None, 0, 0), Err(ElfModuleError::Parse(ELFFileError::FileNotFound)));
    let mut bad = module_a();
    bad[0] = 0;
    assert_eq!(root.load(Some(bad), 0, 0), Err(ElfModuleError::Parse(ELFFileError::FileNotValid)));
}

#[test]
fn handles_are_not_reused() {
    let mut root = ElfModuleRoot::new();
    let ha = root.load(Some(module_a()), 0x1000, 0x3000).ok().unwrap();
    root.unload_elf_module(ha);
    let ha2 = root.load(Some(module_a()), 0x1000, 0x3000).ok().unwrap();
    assert_ne!(ha, ha2);
    assert_eq!(root.resolve(Some(ha2), &name("f")), Some(0x1004));
}

#[test]
fn entry_fields() {
    let r = Rela { r_offset: 8, r_info: (3 << 8) | 23, r_addend: -4, is64: false };
    assert_eq!(r.symbol_offset(), 3);
    assert_eq!(r._rela_type(), 23);
    assert_eq!(r.rela_offset(), 8);
    assert_eq!(r.rela_addend(), -4);
    let r64 = Rela { r_offset: 8, r_info: (5u64 << 32) | 18, r_addend: 0, is64: true };
    assert_eq!(r64.symbol_offset(), 5);
    assert_eq!(r64._rela_type(), 18);
    let mut s = sym_at(0x10);
    s.symbol_value_set(0x20);
    assert_eq!(s.symbol_value(), 0x20);
    assert_eq!(s.symbol_section_ndx(), 1);
}

fn put64(v: &mut Vec<u8>, x: u64) {
    v.extend_from_slice(&x.to_le_bytes());
}

/// A 64-bit image: text `auipc a0, 0; addi a0, a0, 0; nop` with global `h` at
/// text offset 8, an 8-byte data section, and relocations that point the pair
/// at `h` and store `h + 4` into the data.
fn image64() -> Vec<u8> {
    let text = words(&[0x0000_0517, 0x0005_0513, 0x0000_0013]);
    let data = vec![0u8; 8];
    let (st, offs) = strtab(&["h"]);
    let mut sym = vec![0u8; 24];
    put32(&mut sym, offs[0]);
    sym.push(GLOBAL_FUNC);
    sym.push(0);
    put16(&mut sym, 1);
    put64(&mut sym, 8);
    put64(&mut sym, 0);
    let mut rela_text = Vec::new();
    put64(&mut rela_text, 0);
    put64(&mut rela_text, (1u64 << 32) | 23);
    put64(&mut rela_text, 0);
    let mut rela_data = Vec::new();
    put64(&mut rela_data, 0);
    put64(&mut rela_data, (1u64 << 32) | 2);
    put64(&mut rela_data, 4);
    // sections: 1 text, 2 data, 3 symtab, 4 strtab, 5 rela.text, 6 rela.data
    let secs: Vec<(u32, u64, Vec<u8>, u32, u32, u64, u64)> = vec![
        (SHT_PROGBITS, (ALLOC | EXEC) as u64, text, 0, 0, 4, 0),
        (SHT_PROGBITS, (ALLOC | WRITE) as u64, data, 0, 0, 8, 0),
        (SHT_SYMTAB, 0, sym, 4, 1, 8, 24),
        (SHT_STRTAB, 0, st, 0, 0, 1, 0),
        (SHT_RELA, 0, rela_text, 3, 1, 8, 24),
        (SHT_RELA, 0, rela_data, 3, 2, 8, 24),
    ];
    let mut body: Vec<u8> = Vec::new();
    let mut offsets = Vec::new();
    for s in &secs {
        while body.len() % 8 != 0 {
            body.push(0);
        }
        offsets.push(64 + body.len() as u64);
        body.extend_from_slice(&s.2);
    }
    while body.len() % 8 != 0 {
        body.push(0);
    }
    let shoff = 64 + body.len() as u64;
    let mut out: Vec<u8> = vec![0x7f, b'E', b'L', b'F', 2, 1, 1, 0, 0, 0, 0, 0, 0, 0, 0, 0];
    put16(&mut out, 1);
    put16(&mut out, 243);
    put32(&mut out, 1);
    put64(&mut out, 0);
    put64(&mut out, 0);
    put64(&mut out, shoff);
    put32(&mut out, 0);
    put16(&mut out, 64);
    put16(&mut out, 0);
    put16(&mut out, 0);
    put16(&mut out, 64);
    put16(&mut out, (secs.len() + 1) as u16);
    put16(&mut out, 0);
    assert_eq!(out.len(), 64);
    out.extend_from_slice(&body);
    out.extend_from_slice(&[0u8; 64]);
    for (s, off) in secs.iter().zip(offsets.iter()) {
        put32(&mut out, 0);
        put32(&mut out, s.0);
        put64(&mut out, s.1);
        put64(&mut out, 0);
        put64(&mut out, *off);
        put64(&mut out, s.2.len() as u64);
        put32(&mut out, s.3);
        put32(&mut out, s.4);
        put64(&mut out, s.5);
        put64(&mut out, s.6);
    }
    out
}

#[test]
fn sixty_four_bit_image_loads_and_relocates() {
    let f = ELFFile::parse(Some(image64())).ok().unwrap();
    assert!(f.is64);
    assert_eq!(f.section_headers().len(), 7);
    assert_eq!(f.get_all_symbol_names(), vec![name("h")]);
    assert_eq!(f.calculate_needed_size(), ((12, 4), (8, 8)));
    let mut root = ElfModuleRoot::new();
    let h = root.load(Some(image64()), 0x8000_0000, 0x9000_0000).ok().unwrap();
    assert_eq!(root.resolve(Some(h), &name("h")), Some(0x8000_0008));
    let m = &root.modules[0];
    let text = &m.text_info.as_ref().unwrap().bytes;
    assert_eq!(word_at(text, 0), 0x0000_0517);
    assert_eq!(word_at(text, 4), 0x0085_0513);
    let data = &m.data_info.as_ref().unwrap().bytes;
    assert_eq!(word_at(data, 0), 0x8000_000c);
    assert_eq!(word_at(data, 4), 0);
}

#[test]
fn enum_conversions_and_flags() {
    assert_eq!(EType::from_raw(1), Some(EType::REL));
    assert_eq!(EType::from_raw(7), None);
    assert_eq!(EMachine::from_raw(243), Some(EMachine::RISCV));
    assert_eq!(EMachine::from_raw(62), None);
    assert_eq!(SHFlags::ALLOC.bits(), 2);
    assert_eq!(SHFlags::WRITE.bits(), 1);
    assert_eq!(RelaType::from_raw(19), Some(RelaType::CALL_PLT));
    assert_eq!(RelaType::from_raw(3), None);
    let s = Symbol { st_name: 1, st_value: 0, st_size: 4, st_info: 0x12, st_other: 0x7, st_shndx: 2 };
    assert_eq!(s.symbol_bind(), Some(STBind::GLOBAL));
    assert_eq!(s.symbol_type(), Some(STType::FUNC));
    assert_eq!(s.symbol_visibility(), 3);
    assert_eq!(s.symbol_size(), 4);
    assert_eq!(s.symbol_name_offset(), 1);
}

#[test]
fn section_address_can_be_recorded() {
    let f = ELFFile::parse(Some(module_a())).ok().unwrap();
    let mut sh = f.section_headers()[1];
    assert_eq!(sh.section_address(), 0);
    sh.section_address_set(0x4000);
    assert_eq!(sh.section_address(), 0x4000);
    assert_eq!(sh.section_flags(), (ALLOC | EXEC) as u64);
}

#[test]
fn misaligned_or_zero_base_fails_allocation() {
    let mut root = ElfModuleRoot::new();
    assert_eq!(root.load(Some(module_a()), 0x1002, 0x3000), Err(ElfModuleError::AllocationFailed));
    assert_eq!(root.load(Some(module_a()), 0x1000, 0x3001), Err(ElfModuleError::AllocationFailed));
    assert_eq!(root.load(Some(module_a()), 0, 0x3000), Err(ElfModuleError::AllocationFailed));
    assert_eq!(root.modules.len(), 0);
    assert!(root.load(Some(module_a()), 0x1000, 0x3000).is_ok());
}

#[test]
fn name_checks_run_without_loading() {
    let mut root = ElfModuleRoot::new();
    let fb = ELFFile::parse(Some(module_b())).ok().unwrap();
    assert!(matches!(root.check_names(&fb), Err(ElfModuleError::UnresolvedSymbol)));
    let ha = root.load(Some(module_a()), 0x1000, 0x3000).ok().unwrap();
    let fa = ELFFile::parse(Some(module_a())).ok().unwrap();
    assert!(matches!(root.check_names(&fa), Err(ElfModuleError::SymbolConflict)));
    let (names, imports) = root.check_names(&fb).ok().unwrap();
    assert_eq!(names, vec![name("f")]);
    assert_eq!(imports, vec![(name("f"), 0x1004, ha)]);
    assert_eq!(root.modules.len(), 1);
}

#[test]
fn first_export_of_a_name_wins() {
    let (st, offs) = strtab(&["d"]);
    let img = image(vec![
        sec(SHT_PROGBITS, ALLOC | EXEC, words(&[0x13, 0x13]), 0, 0, 4, 0),
        sec(SHT_SYMTAB, 0, symtab(&[(offs[0], 4, GLOBAL_FUNC, 1), (offs[0], 0, GLOBAL_FUNC, 1)]), 3, 1, 4, 16),
        sec(SHT_STRTAB, 0, st, 0, 0, 1, 0),
    ]);
    let mut root = ElfModuleRoot::new();
    let h = root.load(Some(img), 0x1000, 0x2000).ok().unwrap();
    assert_eq!(root.resolve(Some(h), &name("d")), Some(0x1004));
    assert_eq!(root.modules[0].symbol_info, vec![(name("d"), 0x1004)]);
}

#[test]
fn local_symbols_are_not_published() {
    let (st, offs) = strtab(&["loc", "glob"]);
    let img = image(vec![
        sec(SHT_PROGBITS, ALLOC | EXEC, words(&[0x13, 0x13]), 0, 0, 4, 0),
        sec(SHT_SYMTAB, 0, symtab(&[(offs[0], 0, LOCAL_NOTYPE, 1), (offs[1], 4, GLOBAL_FUNC, 0xfff1)]), 3, 1, 4, 16),
        sec(SHT_STRTAB, 0, st, 0, 0, 1, 0),
    ]);
    let mut root = ElfModuleRoot::new();
    let h = root.load(Some(img), 0x1000, 0x2000).ok().unwrap();
    assert_eq!(root.resolve(Some(h), &name("loc")), None);
    assert_eq!(root.resolve(Some(h), &name("glob")), Some(4));
}
