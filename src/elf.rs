//! A parsed relocatable image: its header, its section table, the symbol names
//! it imports and defines, the memory layout it needs, and the patching of one
//! relocation into loaded memory.
use vstd::prelude::*;
use crate::bytes::{le16, le32, put32, read_u8, read_u16, read_u32, write_u32, entry_offset};
use crate::headers::{
    EHeader, SHeader, SHFlags, decode_ehdr, decode_shdr, lemma_shdr_past_end, ehdr_of, shdr_of, is64_of, shdr_size,
    sh_flag_bits, SHT_SYMTAB, ELFCLASS64,
};
use crate::section::{Rela, RelaType, Symbol, rela_type_of, symbol_of, decode_symbol};
use crate::reloc::{
    low32, hi20_of, lo12_of, with_u_imm, with_i_imm, with_s_imm, branch_imm, rvc_jump_imm,
    rvc_branch_imm, diff32, sum32, hi20, lo12, with_u_imm_exec, with_i_imm_exec, with_s_imm_exec,
    branch_imm_exec, rvc_jump_imm_exec, rvc_branch_imm_exec,
};

verus! {

/// A parsed image. The image bytes are owned; the header and the section table
/// are decoded from them once.
pub struct ELFFile {
    pub image: Vec<u8>,
    pub header: EHeader,
    pub sections: Vec<SHeader>,
    pub is64: bool,
}

/// Why an image cannot be parsed.
#[derive(Clone, Copy, Debug, PartialEq, Eq, Structural)]
pub enum ELFFileError {
    FileNotFound,
    FileHasNotSection,
    FileNotValid,
}

/// Why a relocation cannot be applied.
#[derive(Clone, Copy, Debug, PartialEq, Eq, Structural)]
pub enum RelocError {
    /// The relocation type is not one this loader applies.
    UnknownType,
    /// The bytes to patch do not lie inside the given memory.
    OutOfRange,
    /// A branch already in place does not encode the distance to its target.
    BranchMismatch,
}

/// The section table that an image's header describes: `e_shnum` entries from
/// `e_shoff` on, one section header apart.
pub open spec fn sections_of(b: Seq<u8>) -> Seq<SHeader> {
    let h = ehdr_of(b);
    Seq::new(
        h.e_shnum as nat,
        |i: int| shdr_of(b, h.e_shoff + i * shdr_size(is64_of(b)), is64_of(b)),
    )
}

/// What parsing gives for an image: the error, or success.
pub open spec fn parse_outcome(b: Seq<u8>) -> Result<(), ELFFileError> {
    if ehdr_of(b).e_shnum == 0 {
        Err(ELFFileError::FileHasNotSection)
    } else if !ehdr_of(b).spec_is_valid() {
        Err(ELFFileError::FileNotValid)
    } else {
        Ok(())
    }
}

// ---- names ----
/// The length of the zero-terminated string at `i`; a string that runs to the
/// end of the image ends there.
pub open spec fn cstr_len(b: Seq<u8>, i: int) -> nat
    decreases b.len() - i,
{
    if i < 0 || i >= b.len() || b[i] == 0 {
        0
    } else {
        1 + cstr_len(b, i + 1)
    }
}

/// The zero-terminated string at `off`, without its terminator.
pub open spec fn name_at(b: Seq<u8>, off: int) -> Seq<u8> {
    if cstr_len(b, off) == 0 {
        Seq::empty()
    } else {
        b.subrange(off, off + cstr_len(b, off))
    }
}

/// A section whose entries are read as symbols: a symbol table whose string
/// table exists.
pub open spec fn is_symtab(secs: Seq<SHeader>, sh: SHeader) -> bool {
    sh.sh_type == SHT_SYMTAB && sh.sh_link < secs.len()
}

/// The number of entries of a table section.
pub open spec fn entry_count(sh: SHeader) -> int {
    if sh.sh_entsize == 0 {
        0
    } else {
        (sh.sh_size / sh.sh_entsize) as int
    }
}

/// Entry `j` of a symbol table.
pub open spec fn symbol_entry(b: Seq<u8>, sh: SHeader, j: int, is64: bool) -> Symbol {
    symbol_of(b, sh.sh_offset + j * sh.sh_entsize, is64)
}

/// The name of a symbol of the table `sh`, read from the table's string table.
pub open spec fn symbol_name(b: Seq<u8>, secs: Seq<SHeader>, sh: SHeader, s: Symbol) -> Seq<u8> {
    name_at(b, secs[sh.sh_link as int].sh_offset + s.st_name)
}

/// A named symbol that is undefined (`undef`) or defined (`!undef`).
pub open spec fn wanted(s: Symbol, undef: bool) -> bool {
    s.st_name != 0 && (s.st_shndx == 0) == undef
}

/// The names of the wanted symbols among the first `n` entries of `sh`.
pub open spec fn table_names(
    b: Seq<u8>,
    secs: Seq<SHeader>,
    is64: bool,
    sh: SHeader,
    n: int,
    undef: bool,
) -> Seq<Seq<u8>>
    decreases n,
{
    if n <= 0 {
        Seq::empty()
    } else {
        let prev = table_names(b, secs, is64, sh, n - 1, undef);
        let s = symbol_entry(b, sh, n - 1, is64);
        if wanted(s, undef) {
            prev.push(symbol_name(b, secs, sh, s))
        } else {
            prev
        }
    }
}

/// The names of the wanted symbols of the symbol tables among the first `k`
/// sections, in section order and then in table order.
pub open spec fn names_upto(b: Seq<u8>, secs: Seq<SHeader>, is64: bool, k: int, undef: bool) -> Seq<
    Seq<u8>,
>
    decreases k,
{
    if k <= 0 {
        Seq::empty()
    } else {
        let prev = names_upto(b, secs, is64, k - 1, undef);
        let sh = secs[k - 1];
        if is_symtab(secs, sh) {
            prev + table_names(b, secs, is64, sh, entry_count(sh), undef)
        } else {
            prev
        }
    }
}

// ---- layout ----
/// `v` rounded up to a multiple of `a`; an alignment of zero or one asks for none.
pub open spec fn align_up(v: int, a: int) -> int {
    if a <= 1 {
        v
    } else {
        v + (a - v % a) % a
    }
}

pub open spec fn is_alloc(sh: SHeader) -> bool {
    sh.sh_flags & sh_flag_bits(SHFlags::ALLOC) != 0
}

pub open spec fn is_write(sh: SHeader) -> bool {
    sh.sh_flags & sh_flag_bits(SHFlags::WRITE) != 0
}

/// A group's (size, alignment) once section `sh` is added to it.
pub open spec fn group_step(acc: (int, int), sh: SHeader) -> (int, int) {
    (
        align_up(acc.0, sh.sh_addralign as int) + align_up(sh.sh_size as int, 4),
        if sh.sh_addralign > acc.1 {
            sh.sh_addralign as int
        } else {
            acc.1
        },
    )
}

/// The (size, alignment) of the read-only group and of the writable group over
/// the first `k` sections.
pub open spec fn layout_upto(secs: Seq<SHeader>, k: int) -> ((int, int), (int, int))
    decreases k,
{
    if k <= 0 {
        ((0, 0), (0, 0))
    } else {
        let prev = layout_upto(secs, k - 1);
        let sh = secs[k - 1];
        if !is_alloc(sh) {
            prev
        } else if is_write(sh) {
            (prev.0, group_step(prev.1, sh))
        } else {
            (group_step(prev.0, sh), prev.1)
        }
    }
}

pub open spec fn layout_of(secs: Seq<SHeader>) -> ((int, int), (int, int)) {
    layout_upto(secs, secs.len() as int)
}

// ---- relocation ----
/// How many bytes from the target a relocation kind reads or patches.
pub open spec fn reloc_span(t: RelaType) -> int {
    match t {
        RelaType::RELAX | RelaType::PCREL_LO12_I | RelaType::PCREL_LO12_S => 0,
        RelaType::PCREL_HI20 | RelaType::CALL | RelaType::CALL_PLT => 8,
        RelaType::RVC_BRANCH | RelaType::RVC_JUMP => 2,
        _ => 4,
    }
}

/// Whether `span` bytes at address `addr` lie in memory of length `len` that
/// starts at address `base`.
pub open spec fn in_memory(len: int, base: u64, addr: u64, span: int) -> bool {
    span == 0 || (base <= addr && addr - base + span <= len)
}

/// The following word of a PC-relative pair with its low immediate placed: as
/// a store (S-type) when its opcode is that of a store word, else as I-type.
pub open spec fn with_lo_imm(word: u32, lo: u32) -> u32 {
    if word & 0x7f == 0x23 {
        with_s_imm(word, lo)
    } else {
        with_i_imm(word, lo)
    }
}

/// The memory `mem`, which starts at address `base`, once relocation `r` is
/// applied at address `addr` for a symbol whose final value is `value`.
pub open spec fn relocated(r: Rela, value: u64, mem: Seq<u8>, base: u64, addr: u64) -> Result<
    Seq<u8>,
    RelocError,
> {
    match rela_type_of(r.spec_rela_type()) {
        None => Err(RelocError::UnknownType),
        Some(t) => if !in_memory(mem.len() as int, base, addr, reloc_span(t)) {
            Err(RelocError::OutOfRange)
        } else {
            let off = addr - base;
            let w0 = le32(mem, off) as u32;
            let pc = low32(value - addr);
            let abs = low32(value as int);
            match t {
                RelaType::RELAX | RelaType::PCREL_LO12_I | RelaType::PCREL_LO12_S => Ok(mem),
                RelaType::RISCV_32 | RelaType::RISCV_64 => Ok(
                    put32(mem, off, low32(value + r.r_addend)),
                ),
                RelaType::PCREL_HI20 | RelaType::CALL | RelaType::CALL_PLT => {
                    let w1 = le32(mem, off + 4) as u32;
                    Ok(
                        put32(
                            put32(mem, off, with_u_imm(w0, hi20_of(pc))),
                            off + 4,
                            with_lo_imm(w1, lo12_of(pc)),
                        ),
                    )
                },
                RelaType::HI20 => Ok(put32(mem, off, with_u_imm(w0, hi20_of(abs)))),
                RelaType::LO12_I => Ok(put32(mem, off, with_i_imm(w0, lo12_of(abs)))),
                RelaType::LO12_S => Ok(put32(mem, off, with_s_imm(w0, lo12_of(abs)))),
                RelaType::BRANCH => if w0 & 0xfe000f80 == branch_imm(pc) {
                    Ok(mem)
                } else {
                    Err(RelocError::BranchMismatch)
                },
                RelaType::RVC_JUMP => if (le16(mem, off) as u16) & 0x1ffc == rvc_jump_imm(
                    (pc % 65536) as u16,
                ) {
                    Ok(mem)
                } else {
                    Err(RelocError::BranchMismatch)
                },
                RelaType::RVC_BRANCH => if (le16(mem, off) as u16) & 0x1c7c == rvc_branch_imm(
                    (pc % 65536) as u16,
                ) {
                    Ok(mem)
                } else {
                    Err(RelocError::BranchMismatch)
                },
            }
        },
    }
}

/// The contents of a sequence of byte vectors.
pub open spec fn views(v: Seq<Vec<u8>>) -> Seq<Seq<u8>> {
    v.map_values(|x: Vec<u8>| x@)
}

proof fn lemma_cstr_step(b: Seq<u8>, off: int, i: int)
    requires
        0 <= off <= i < b.len(),
        b[i] != 0,
        cstr_len(b, off) == (i - off) + cstr_len(b, i),
    ensures
        cstr_len(b, off) == (i + 1 - off) + cstr_len(b, i + 1),
{
}

/// Reads the zero-terminated string at `off`.
pub fn read_cstr(b: &Vec<u8>, off: u64) -> (r: Vec<u8>)
    ensures
        r@ == name_at(b@, off as int),
{
    let mut out: Vec<u8> = Vec::new();
    let n = b.len();
    if off as u128 >= n as u128 {
        return out;
    }
    let start = off as usize;
    let mut i: usize = start;
    while i < n && b[i] != 0
        invariant
            n == b@.len(),
            start == off,
            start <= i <= n,
            out@ =~= b@.subrange(start as int, i as int),
            cstr_len(b@, start as int) == (i - start) + cstr_len(b@, i as int),
        decreases n - i,
    {
        proof {
            lemma_cstr_step(b@, start as int, i as int);
        }
        out.push(b[i]);
        i = i + 1;
    }
    out
}

/// Rounds `v` up to a multiple of `a`.
pub fn align_up_exec(v: u128, a: u64) -> (r: u128)
    requires
        v <= 0x1_0000_0000_0000_0000_0000_0000,
    ensures
        r == align_up(v as int, a as int),
        v <= r <= v + a,
{
    if a <= 1 {
        v
    } else {
        let a2 = a as u128;
        v + (a2 - v % a2) % a2
    }
}

pub proof fn lemma_group_bound(i: int)
    requires
        0 <= i <= 65535,
    ensures
        i * 0x4_0000_0000_0000_0000 <= 65535 * 0x4_0000_0000_0000_0000int,
        i * 0x4_0000_0000_0000_0000 + 0x4_0000_0000_0000_0000 == (i + 1) * 0x4_0000_0000_0000_0000,
{
    assert(i * 0x4_0000_0000_0000_0000 <= 65535 * 0x4_0000_0000_0000_0000int) by (nonlinear_arith)
        requires
            0 <= i <= 65535,
    ;
    assert(i * 0x4_0000_0000_0000_0000 + 0x4_0000_0000_0000_0000 == (i + 1)
        * 0x4_0000_0000_0000_0000) by (nonlinear_arith);
}

/// Adds section `sh` to a group's running (size, alignment).
fn group_step_exec(acc: (u128, u64), sh: &SHeader) -> (r: (u128, u64))
    requires
        acc.0 <= 0x400_0000_0000_0000_0000_0000,
    ensures
        r.0 == group_step((acc.0 as int, acc.1 as int), *sh).0,
        r.1 == group_step((acc.0 as int, acc.1 as int), *sh).1,
        r.0 <= acc.0 + 0x4_0000_0000_0000_0000,
{
    let start = align_up_exec(acc.0, sh.sh_addralign);
    let size = align_up_exec(sh.sh_size as u128, 4);
    let align = if sh.sh_addralign > acc.1 {
        sh.sh_addralign
    } else {
        acc.1
    };
    (start + size, align)
}

impl ELFFile {
    /// A parsed image: header and section table are those its bytes hold, and
    /// the checks that parsing makes have passed.
    #[verifier::opaque]
    pub open spec fn wf(&self) -> bool {
        &&& self.header == ehdr_of(self.image@)
        &&& self.is64 == is64_of(self.image@)
        &&& self.sections@ == sections_of(self.image@)
        &&& parse_outcome(self.image@) == Ok::<(), ELFFileError>(())
    }

    pub open spec fn undefined_names(&self) -> Seq<Seq<u8>> {
        names_upto(self.image@, self.sections@, self.is64, self.sections@.len() as int, true)
    }

    pub open spec fn defined_names(&self) -> Seq<Seq<u8>> {
        names_upto(self.image@, self.sections@, self.is64, self.sections@.len() as int, false)
    }

    /// Parses an image. There is none to parse where `elf_bin` is `None`.
    pub fn parse(elf_bin: Option<Vec<u8>>) -> (r: Result<ELFFile, ELFFileError>)
        ensures
            elf_bin is None ==> r == Err::<ELFFile, ELFFileError>(ELFFileError::FileNotFound),
            elf_bin is Some ==> match r {
                Ok(f) => parse_outcome(elf_bin->Some_0@) == Ok::<(), ELFFileError>(())
                    && f.image@ == elf_bin->Some_0@ && f.wf(),
                Err(e) => parse_outcome(elf_bin->Some_0@) == Err::<(), ELFFileError>(e),
            },
    {
        let image = match elf_bin {
            None => {
                return Err(ELFFileError::FileNotFound);
            },
            Some(b) => b,
        };
        let header = decode_ehdr(&image);
        if header.e_shnum == 0 {
            return Err(ELFFileError::FileHasNotSection);
        }
        if !header.is_valid() {
            return Err(ELFFileError::FileNotValid);
        }
        let is64 = read_u8(&image, 4) == ELFCLASS64;
        let size: u64 = if is64 { 64 } else { 40 };
        let n = header.e_shnum;
        let shoff = header.e_shoff;
        let ilen = image.len();
        let ghost table = sections_of(image@);
        assert(table.len() == n);
        assert(forall|j: int|
            0 <= j < n ==> #[trigger] table[j] == shdr_of(image@, shoff + j * size, is64));
        let mut sections: Vec<SHeader> = Vec::new();
        let mut i: u16 = 0;
        while i < n
            invariant
                ilen == image@.len(),
                table.len() == n,
                forall|j: int|
                    0 <= j < n ==> #[trigger] table[j] == shdr_of(image@, shoff + j * size, is64),
                i <= n,
                sections@ =~= table.subrange(0, i as int),
            decreases n - i,
        {
            let off = entry_offset(shoff, i as u64, size);
            let sh = decode_shdr(&image, off, is64);
            proof {
                if shoff + i * size > u64::MAX {
                    lemma_shdr_past_end(image@, off as int, shoff + i * size, is64);
                }
            }
            assert(sh == table[i as int]);
            sections.push(sh);
            i = i + 1;
        }
        assert(sections@ =~= sections_of(image@));
        let f = ELFFile { image, header, sections, is64 };
        proof {
            reveal(ELFFile::wf);
        }
        Ok(f)
    }

    /// The names of the wanted symbols of the symbol table `sh`.
    fn table_names_exec(&self, sh: &SHeader, undef: bool, out: &mut Vec<Vec<u8>>)
        requires
            is_symtab(self.sections@, *sh),
        ensures
            views(final(out)@) == views(old(out)@) + table_names(
                self.image@,
                self.sections@,
                self.is64,
                *sh,
                entry_count(*sh),
                undef,
            ),
    {
        let count: u64 = if sh.sh_entsize == 0 {
            0
        } else {
            sh.sh_size / sh.sh_entsize
        };
        let strtab_off = self.sections[sh.sh_link as usize].sh_offset;
        let ghost start = views(out@);
        let mut j: u64 = 0;
        while j < count
            invariant
                is_symtab(self.sections@, *sh),
                count == entry_count(*sh),
                strtab_off == self.sections@[sh.sh_link as int].sh_offset,
                j <= count,
                views(out@) == start + table_names(
                    self.image@,
                    self.sections@,
                    self.is64,
                    *sh,
                    j as int,
                    undef,
                ),
            decreases count - j,
        {
            let _l = self.image.len();
            let s = decode_symbol(&self.image, entry_offset(sh.sh_offset, j, sh.sh_entsize), self.is64);
            assert(s == symbol_entry(self.image@, *sh, j as int, self.is64));
            if s.st_name != 0 && (s.st_shndx == 0) == undef {
                let off = match strtab_off.checked_add(s.st_name as u64) {
                    Some(o) => o,
                    None => u64::MAX,
                };
                let name = read_cstr(&self.image, off);
                assert(name@ == symbol_name(self.image@, self.sections@, *sh, s));
                let ghost before = out@;
                out.push(name);
                assert(views(out@) =~= views(before).push(name@));
            }
            j = j + 1;
        }
    }

    /// The names of the wanted symbols of all symbol tables.
    fn symbol_names(&self, undef: bool) -> (r: Vec<Vec<u8>>)
        ensures
            views(r@) == names_upto(
                self.image@,
                self.sections@,
                self.is64,
                self.sections@.len() as int,
                undef,
            ),
    {
        let mut out: Vec<Vec<u8>> = Vec::new();
        let n = self.sections.len();
        let mut k: usize = 0;
        while k < n
            invariant
                n == self.sections@.len(),
                k <= n,
                views(out@) == names_upto(self.image@, self.sections@, self.is64, k as int, undef),
            decreases n - k,
        {
            let sh = &self.sections[k];
            if sh.sh_type == SHT_SYMTAB && (sh.sh_link as usize) < n {
                self.table_names_exec(sh, undef, &mut out);
            }
            k = k + 1;
        }
        assert(views(out@) =~= names_upto(self.image@, self.sections@, self.is64, n as int, undef));
        out
    }

    /// The names of the named undefined symbols: what the image imports.
    pub fn get_undefined_symbol_names(&self) -> (r: Vec<Vec<u8>>)
        ensures
            views(r@) == self.undefined_names(),
    {
        self.symbol_names(true)
    }

    /// The names of the named defined symbols.
    pub fn get_all_symbol_names(&self) -> (r: Vec<Vec<u8>>)
        ensures
            views(r@) == self.defined_names(),
    {
        self.symbol_names(false)
    }

    pub fn elf_header(&self) -> (r: &EHeader)
        ensures
            *r == self.header,
    {
        &self.header
    }

    pub fn section_headers(&self) -> (r: &Vec<SHeader>)
        ensures
            r@ == self.sections@,
    {
        &self.sections
    }

    /// The image bytes, from its first byte on.
    pub fn start_address(&self) -> (r: &Vec<u8>)
        ensures
            r@ == self.image@,
    {
        &self.image
    }

    /// The (size, alignment) of the read-only group and of the writable group
    /// of allocatable sections. Each section is placed at its group's running
    /// size rounded up to the section's alignment, and takes its size rounded
    /// up to four bytes; a group's alignment is the largest of its sections'.
    pub fn calculate_needed_size(&self) -> (r: ((u128, u64), (u128, u64)))
        requires
            self.wf(),
        ensures
            r.0.0 == layout_of(self.sections@).0.0,
            r.0.1 == layout_of(self.sections@).0.1,
            r.1.0 == layout_of(self.sections@).1.0,
            r.1.1 == layout_of(self.sections@).1.1,
    {
        let mut text: (u128, u64) = (0, 0);
        let mut data: (u128, u64) = (0, 0);
        let n = self.sections.len();
        proof {
            reveal(ELFFile::wf);
            assert(n == self.header.e_shnum);
        }
        let mut i: usize = 0;
        while i < n
            invariant
                n == self.sections@.len(),
                n <= 65535,
                i <= n,
                text.0 == layout_upto(self.sections@, i as int).0.0,
                text.1 == layout_upto(self.sections@, i as int).0.1,
                data.0 == layout_upto(self.sections@, i as int).1.0,
                data.1 == layout_upto(self.sections@, i as int).1.1,
                text.0 <= i * 0x4_0000_0000_0000_0000,
                data.0 <= i * 0x4_0000_0000_0000_0000,
            decreases n - i,
        {
            let sh = &self.sections[i];
            proof {
                lemma_group_bound(i as int);
            }
            if sh.sh_flags & SHFlags::ALLOC.bits() != 0 {
                if sh.sh_flags & SHFlags::WRITE.bits() != 0 {
                    data = group_step_exec(data, sh);
                } else {
                    text = group_step_exec(text, sh);
                }
            }
            i = i + 1;
        }
        (text, data)
    }

    /// Applies relocation `rela` at address `addr`, for symbol `sym` whose value
    /// is final, to `mem`: memory that starts at address `base`.
    pub fn relocateadd(rela: &Rela, sym: &Symbol, mem: &mut Vec<u8>, base: u64, addr: u64) -> (r:
        Result<(), RelocError>)
        ensures
            match relocated(*rela, sym.st_value, old(mem)@, base, addr) {
                Ok(m) => r is Ok && final(mem)@ == m,
                Err(e) => r == Err::<(), RelocError>(e) && final(mem)@ == old(mem)@,
            },
    {
        let t = match rela.rela_type() {
            None => {
                return Err(RelocError::UnknownType);
            },
            Some(t) => t,
        };
        let span: u64 = match t {
            RelaType::RELAX | RelaType::PCREL_LO12_I | RelaType::PCREL_LO12_S => {
                return Ok(());
            },
            RelaType::PCREL_HI20 | RelaType::CALL | RelaType::CALL_PLT => 8,
            RelaType::RVC_BRANCH | RelaType::RVC_JUMP => 2,
            _ => 4,
        };
        let len = mem.len();
        if addr < base || (addr - base) as u128 + span as u128 > len as u128 {
            return Err(RelocError::OutOfRange);
        }
        let off = (addr - base) as usize;
        let value = sym.st_value;
        let pc = diff32(value, addr);
        let abs = (value % 0x1_0000_0000) as u32;
        let w0 = read_u32(mem, off as u64);
        match t {
            RelaType::RISCV_32 | RelaType::RISCV_64 => {
                write_u32(mem, off, sum32(value, rela.r_addend));
            },
            RelaType::PCREL_HI20 | RelaType::CALL | RelaType::CALL_PLT => {
                let w1 = read_u32(mem, off as u64 + 4);
                let lo = lo12(pc);
                write_u32(mem, off, with_u_imm_exec(w0, hi20(pc)));
                let next = if w1 & 0x7f == 0x23 {
                    with_s_imm_exec(w1, lo)
                } else {
                    with_i_imm_exec(w1, lo)
                };
                write_u32(mem, off + 4, next);
            },
            RelaType::HI20 => {
                write_u32(mem, off, with_u_imm_exec(w0, hi20(abs)));
            },
            RelaType::LO12_I => {
                write_u32(mem, off, with_i_imm_exec(w0, lo12(abs)));
            },
            RelaType::LO12_S => {
                write_u32(mem, off, with_s_imm_exec(w0, lo12(abs)));
            },
            RelaType::BRANCH => {
                if w0 & 0xfe000f80 != branch_imm_exec(pc) {
                    return Err(RelocError::BranchMismatch);
                }
            },
            RelaType::RVC_JUMP => {
                let h = read_u16(mem, off as u64);
                if h & 0x1ffc != rvc_jump_imm_exec((pc % 65536) as u16) {
                    return Err(RelocError::BranchMismatch);
                }
            },
            RelaType::RVC_BRANCH => {
                let h = read_u16(mem, off as u64);
                if h & 0x1c7c != rvc_branch_imm_exec((pc % 65536) as u16) {
                    return Err(RelocError::BranchMismatch);
                }
            },
            _ => {},
        }
        Ok(())
    }
}

} // verus!
