//! The file header and the section headers of an ELF image, decoded into plain
//! values.
use vstd::prelude::*;
use crate::bytes::{byte_at, le16, le32, le64, read_u8, read_u16, read_u32, read_u64};

verus! {

/// The format version that both version fields must hold.
pub const EV_CURRENT: u32 = 1;
/// The class byte of a 64-bit image; any other class is read as 32-bit.
pub const ELFCLASS64: u8 = 2;
/// Section type of a symbol table.
pub const SHT_SYMTAB: u32 = 2;
/// Section type of a table of relocations with addends.
pub const SHT_RELA: u32 = 4;
/// Section type of a section that occupies no file bytes and is zero-filled.
pub const SHT_NOBITS: u32 = 8;

/// Section flags of the ELF format.
#[derive(Clone, Copy, Debug, PartialEq, Eq, Structural)]
pub enum SHFlags {
    WRITE,
    ALLOC,
    EXECINSTR,
    MERGE,
    STRINGS,
    INFOLINK,
    LINKORDER,
    OSNONCONFORMING,
    GROUP,
    TLS,
    COMPRESSED,
    MASKOS,
    MASKPROC,
}

pub open spec fn sh_flag_bits(f: SHFlags) -> u64 {
    match f {
        SHFlags::WRITE => 0x1,
        SHFlags::ALLOC => 0x2,
        SHFlags::EXECINSTR => 0x4,
        SHFlags::MERGE => 0x10,
        SHFlags::STRINGS => 0x20,
        SHFlags::INFOLINK => 0x40,
        SHFlags::LINKORDER => 0x80,
        SHFlags::OSNONCONFORMING => 0x100,
        SHFlags::GROUP => 0x200,
        SHFlags::TLS => 0x400,
        SHFlags::COMPRESSED => 0x800,
        SHFlags::MASKOS => 0x0ff00000,
        SHFlags::MASKPROC => 0xf0000000,
    }
}

impl SHFlags {
    /// The mask of this flag in a section header's flags word.
    pub fn bits(&self) -> (r: u64)
        ensures
            r == sh_flag_bits(*self),
    {
        match self {
            SHFlags::WRITE => 0x1,
            SHFlags::ALLOC => 0x2,
            SHFlags::EXECINSTR => 0x4,
            SHFlags::MERGE => 0x10,
            SHFlags::STRINGS => 0x20,
            SHFlags::INFOLINK => 0x40,
            SHFlags::LINKORDER => 0x80,
            SHFlags::OSNONCONFORMING => 0x100,
            SHFlags::GROUP => 0x200,
            SHFlags::TLS => 0x400,
            SHFlags::COMPRESSED => 0x800,
            SHFlags::MASKOS => 0x0ff00000,
            SHFlags::MASKPROC => 0xf0000000,
        }
    }
}

/// Object file types.
#[derive(Clone, Copy, Debug, PartialEq, Eq, Structural)]
pub enum EType {
    NONE,
    REL,
    EXEC,
    DYN,
    CORE,
    LOOS,
    HIOS,
    LOPROC,
    HIPROC,
}

impl EType {
    /// The type that a header's type field names, if it names one.
    pub fn from_raw(v: u16) -> (r: Option<EType>)
        ensures
            r == (if v == 0 {
                Some(EType::NONE)
            } else if v == 1 {
                Some(EType::REL)
            } else if v == 2 {
                Some(EType::EXEC)
            } else if v == 3 {
                Some(EType::DYN)
            } else if v == 4 {
                Some(EType::CORE)
            } else if v == 0xfe00 {
                Some(EType::LOOS)
            } else if v == 0xfeff {
                Some(EType::HIOS)
            } else if v == 0xff00 {
                Some(EType::LOPROC)
            } else if v == 0xffff {
                Some(EType::HIPROC)
            } else {
                None::<EType>
            }),
    {
        if v == 0 {
            Some(EType::NONE)
        } else if v == 1 {
            Some(EType::REL)
        } else if v == 2 {
            Some(EType::EXEC)
        } else if v == 3 {
            Some(EType::DYN)
        } else if v == 4 {
            Some(EType::CORE)
        } else if v == 0xfe00 {
            Some(EType::LOOS)
        } else if v == 0xfeff {
            Some(EType::HIOS)
        } else if v == 0xff00 {
            Some(EType::LOPROC)
        } else if v == 0xffff {
            Some(EType::HIPROC)
        } else {
            None
        }
    }
}

/// Machine types this loader knows.
#[derive(Clone, Copy, Debug, PartialEq, Eq, Structural)]
pub enum EMachine {
    NONE,
    RISCV,
}

impl EMachine {
    /// The machine that a header's machine field names, if it names one.
    pub fn from_raw(v: u16) -> (r: Option<EMachine>)
        ensures
            r == (if v == 0 {
                Some(EMachine::NONE)
            } else if v == 243 {
                Some(EMachine::RISCV)
            } else {
                None::<EMachine>
            }),
    {
        if v == 0 {
            Some(EMachine::NONE)
        } else if v == 243 {
            Some(EMachine::RISCV)
        } else {
            None
        }
    }
}

/// The four magic bytes at the start of an image.
#[derive(Clone, Copy, Debug)]
pub struct EIMagic(pub [u8; 4]);

impl EIMagic {
    pub open spec fn spec_is_valid(&self) -> bool {
        self.0@ == seq![0x7fu8, 0x45u8, 0x4cu8, 0x46u8]
    }

    /// Whether the bytes read `\x7fELF`.
    pub fn is_valid(&self) -> (r: bool)
        ensures
            r == self.spec_is_valid(),
    {
        let ok = self.0[0] == 0x7f && self.0[1] == 0x45 && self.0[2] == 0x4c && self.0[3] == 0x46;
        proof {
            if ok {
                assert(self.0@ =~= seq![0x7fu8, 0x45u8, 0x4cu8, 0x46u8]);
            }
        }
        ok
    }
}

/// The identification bytes at the start of an image.
#[derive(Clone, Copy, Debug)]
pub struct EIdent {
    pub magic: EIMagic,
    pub class: u8,
    pub data: u8,
    pub version: u8,
    pub osabi: u8,
    pub abiversion: u8,
}

impl EIdent {
    pub open spec fn spec_is_valid(&self) -> bool {
        self.magic.spec_is_valid() && self.version == EV_CURRENT
    }

    /// Whether the magic bytes and the identification version check out.
    pub fn is_valid(&self) -> (r: bool)
        ensures
            r == self.spec_is_valid(),
    {
        self.magic.is_valid() && self.version as u32 == EV_CURRENT
    }
}

/// The file header of an image.
#[derive(Clone, Copy, Debug)]
pub struct EHeader {
    pub e_ident: EIdent,
    pub e_type: u16,
    pub e_machine: u16,
    pub e_version: u32,
    pub e_entry: u64,
    pub e_phoff: u64,
    pub e_shoff: u64,
    pub e_flags: u32,
    pub e_ehsize: u16,
    pub e_phentsize: u16,
    pub e_phnum: u16,
    pub e_shentsize: u16,
    pub e_shnum: u16,
    pub e_shstrndx: u16,
}

impl EHeader {
    pub open spec fn spec_is_valid(&self) -> bool {
        self.e_ident.spec_is_valid() && self.e_version == EV_CURRENT
    }

    /// Whether the identification and the header's own version field check out.
    pub fn is_valid(&self) -> (r: bool)
        ensures
            r == self.spec_is_valid(),
    {
        self.e_ident.is_valid() && self.e_version == EV_CURRENT
    }

    pub fn elf_flags(&self) -> (r: u32)
        ensures
            r == self.e_flags,
    {
        self.e_flags
    }

    pub fn section_header_offset(&self) -> (r: u64)
        ensures
            r == self.e_shoff,
    {
        self.e_shoff
    }

    pub fn section_header_nums(&self) -> (r: usize)
        ensures
            r == self.e_shnum,
    {
        self.e_shnum as usize
    }

    pub fn shstrndx(&self) -> (r: usize)
        ensures
            r == self.e_shstrndx,
    {
        self.e_shstrndx as usize
    }
}

/// A section header.
#[derive(Clone, Copy, Debug, PartialEq, Eq, Structural)]
pub struct SHeader {
    pub sh_name: u32,
    pub sh_type: u32,
    pub sh_flags: u64,
    pub sh_addr: u64,
    pub sh_offset: u64,
    pub sh_size: u64,
    pub sh_link: u32,
    pub sh_info: u32,
    pub sh_addralign: u64,
    pub sh_entsize: u64,
}

impl SHeader {
    pub fn section_name_offset(&self) -> (r: u32)
        ensures
            r == self.sh_name,
    {
        self.sh_name
    }

    pub fn section_type(&self) -> (r: u32)
        ensures
            r == self.sh_type,
    {
        self.sh_type
    }

    pub fn section_flags(&self) -> (r: u64)
        ensures
            r == self.sh_flags,
    {
        self.sh_flags
    }

    pub fn section_offset(&self) -> (r: u64)
        ensures
            r == self.sh_offset,
    {
        self.sh_offset
    }

    pub fn section_size(&self) -> (r: u64)
        ensures
            r == self.sh_size,
    {
        self.sh_size
    }

    pub fn section_entsize(&self) -> (r: u64)
        ensures
            r == self.sh_entsize,
    {
        self.sh_entsize
    }

    pub fn section_link(&self) -> (r: usize)
        ensures
            r == self.sh_link,
    {
        self.sh_link as usize
    }

    pub fn section_info(&self) -> (r: usize)
        ensures
            r == self.sh_info,
    {
        self.sh_info as usize
    }

    pub fn section_addralign(&self) -> (r: u64)
        ensures
            r == self.sh_addralign,
    {
        self.sh_addralign
    }

    /// The address recorded for this section.
    pub fn section_address(&self) -> (r: u64)
        ensures
            r == self.sh_addr,
    {
        self.sh_addr
    }

    /// Records `addr` as this section's address.
    pub fn section_address_set(&mut self, addr: u64)
        ensures
            *final(self) == (SHeader { sh_addr: addr, ..*old(self) }),
    {
        self.sh_addr = addr;
    }
}

/// Whether an image is laid out in the 64-bit class.
pub open spec fn is64_of(b: Seq<u8>) -> bool {
    byte_at(b, 4) == ELFCLASS64
}

/// A pointer-sized field: eight bytes in a 64-bit image, four otherwise.
pub open spec fn word_at(b: Seq<u8>, off: int, is64: bool) -> u64 {
    if is64 {
        le64(b, off) as u64
    } else {
        le32(b, off) as u64
    }
}

/// The size of a section header of the given class.
pub open spec fn shdr_size(is64: bool) -> u64 {
    if is64 { 64 } else { 40 }
}

/// The file header that the first bytes of an image hold.
pub open spec fn ehdr_of(b: Seq<u8>) -> EHeader {
    let w = is64_of(b);
    let d: int = if w { 8 } else { 0 };
    EHeader {
        e_ident: EIdent {
            magic: EIMagic([byte_at(b, 0), byte_at(b, 1), byte_at(b, 2), byte_at(b, 3)]),
            class: byte_at(b, 4),
            data: byte_at(b, 5),
            version: byte_at(b, 6),
            osabi: byte_at(b, 7),
            abiversion: byte_at(b, 8),
        },
        e_type: le16(b, 16) as u16,
        e_machine: le16(b, 18) as u16,
        e_version: le32(b, 20) as u32,
        e_entry: word_at(b, 24, w),
        e_phoff: word_at(b, 28 + d / 2, w),
        e_shoff: word_at(b, 32 + d, w),
        e_flags: le32(b, 36 + d + d / 2) as u32,
        e_ehsize: le16(b, 40 + d + d / 2) as u16,
        e_phentsize: le16(b, 42 + d + d / 2) as u16,
        e_phnum: le16(b, 44 + d + d / 2) as u16,
        e_shentsize: le16(b, 46 + d + d / 2) as u16,
        e_shnum: le16(b, 48 + d + d / 2) as u16,
        e_shstrndx: le16(b, 50 + d + d / 2) as u16,
    }
}

/// The section header that an image holds at `off`.
pub open spec fn shdr_of(b: Seq<u8>, off: int, is64: bool) -> SHeader {
    if is64 {
        SHeader {
            sh_name: le32(b, off) as u32,
            sh_type: le32(b, off + 4) as u32,
            sh_flags: le64(b, off + 8) as u64,
            sh_addr: le64(b, off + 16) as u64,
            sh_offset: le64(b, off + 24) as u64,
            sh_size: le64(b, off + 32) as u64,
            sh_link: le32(b, off + 40) as u32,
            sh_info: le32(b, off + 44) as u32,
            sh_addralign: le64(b, off + 48) as u64,
            sh_entsize: le64(b, off + 56) as u64,
        }
    } else {
        SHeader {
            sh_name: le32(b, off) as u32,
            sh_type: le32(b, off + 4) as u32,
            sh_flags: le32(b, off + 8) as u64,
            sh_addr: le32(b, off + 12) as u64,
            sh_offset: le32(b, off + 16) as u64,
            sh_size: le32(b, off + 20) as u64,
            sh_link: le32(b, off + 24) as u32,
            sh_info: le32(b, off + 28) as u32,
            sh_addralign: le32(b, off + 32) as u64,
            sh_entsize: le32(b, off + 36) as u64,
        }
    }
}

/// Past the end of an image every section header reads the same: all zeros.
pub proof fn lemma_shdr_past_end(b: Seq<u8>, o1: int, o2: int, is64: bool)
    requires
        o1 >= b.len(),
        o2 >= b.len(),
    ensures
        shdr_of(b, o1, is64) == shdr_of(b, o2, is64),
{
}

/// Reads a pointer-sized field.
pub fn read_word(b: &Vec<u8>, off: u64, is64: bool) -> (r: u64)
    ensures
        r == word_at(b@, off as int, is64),
{
    if is64 {
        read_u64(b, off)
    } else {
        read_u32(b, off) as u64
    }
}

/// Adds a small field offset to a record offset, staying past the image's end
/// where the sum does not fit.
pub fn field(off: u64, k: u64) -> (r: u64)
    requires
        k <= 64,
    ensures
        off + k <= u64::MAX ==> r == off + k,
        off + k > u64::MAX ==> r == u64::MAX,
{
    match off.checked_add(k) {
        Some(s) => s,
        None => u64::MAX,
    }
}

/// Decodes the file header at the start of an image.
pub fn decode_ehdr(b: &Vec<u8>) -> (r: EHeader)
    ensures
        r == ehdr_of(b@),
{
    let w = read_u8(b, 4) == ELFCLASS64;
    let d: u64 = if w { 8 } else { 0 };
    let magic = EIMagic([read_u8(b, 0), read_u8(b, 1), read_u8(b, 2), read_u8(b, 3)]);
    let h = EHeader {
        e_ident: EIdent {
            magic,
            class: read_u8(b, 4),
            data: read_u8(b, 5),
            version: read_u8(b, 6),
            osabi: read_u8(b, 7),
            abiversion: read_u8(b, 8),
        },
        e_type: read_u16(b, 16),
        e_machine: read_u16(b, 18),
        e_version: read_u32(b, 20),
        e_entry: read_word(b, 24, w),
        e_phoff: read_word(b, 28 + d / 2, w),
        e_shoff: read_word(b, 32 + d, w),
        e_flags: read_u32(b, 36 + d + d / 2),
        e_ehsize: read_u16(b, 40 + d + d / 2),
        e_phentsize: read_u16(b, 42 + d + d / 2),
        e_phnum: read_u16(b, 44 + d + d / 2),
        e_shentsize: read_u16(b, 46 + d + d / 2),
        e_shnum: read_u16(b, 48 + d + d / 2),
        e_shstrndx: read_u16(b, 50 + d + d / 2),
    };
    proof {
        assert(h.e_ident.magic.0@ =~= ehdr_of(b@).e_ident.magic.0@);
    }
    h
}

/// Decodes the section header at `off`.
pub fn decode_shdr(b: &Vec<u8>, off: u64, is64: bool) -> (r: SHeader)
    ensures
        r == shdr_of(b@, off as int, is64),
{
    let _n = b.len();
    if is64 {
        SHeader {
            sh_name: read_u32(b, off),
            sh_type: read_u32(b, field(off, 4)),
            sh_flags: read_u64(b, field(off, 8)),
            sh_addr: read_u64(b, field(off, 16)),
            sh_offset: read_u64(b, field(off, 24)),
            sh_size: read_u64(b, field(off, 32)),
            sh_link: read_u32(b, field(off, 40)),
            sh_info: read_u32(b, field(off, 44)),
            sh_addralign: read_u64(b, field(off, 48)),
            sh_entsize: read_u64(b, field(off, 56)),
        }
    } else {
        SHeader {
            sh_name: read_u32(b, off),
            sh_type: read_u32(b, field(off, 4)),
            sh_flags: read_u32(b, field(off, 8)) as u64,
            sh_addr: read_u32(b, field(off, 12)) as u64,
            sh_offset: read_u32(b, field(off, 16)) as u64,
            sh_size: read_u32(b, field(off, 20)) as u64,
            sh_link: read_u32(b, field(off, 24)),
            sh_info: read_u32(b, field(off, 28)),
            sh_addralign: read_u32(b, field(off, 32)) as u64,
            sh_entsize: read_u32(b, field(off, 36)) as u64,
        }
    }
}

} // verus!
