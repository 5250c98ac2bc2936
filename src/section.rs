//! Symbol-table entries and relocation entries, decoded into plain values.
use vstd::prelude::*;
use crate::bytes::{byte_at, le16, le32, le64, read_u8, read_u16, read_u32, read_u64};
use crate::headers::field;

verus! {

/// Section index of an undefined symbol.
pub const SHN_UNDEF: u16 = 0;
/// Section index of a symbol whose value is absolute.
pub const SHN_ABS: u16 = 0xfff1;
/// Section index of a common symbol.
pub const SHN_COMMON: u16 = 0xfff2;

/// Symbol bindings.
#[derive(Clone, Copy, Debug, PartialEq, Eq, Structural)]
pub enum STBind {
    LOCAL,
    GLOBAL,
    WEAK,
    LOOS,
    HIOS,
    LOPROC,
    HIPROC,
}

pub open spec fn st_bind_of(v: u8) -> Option<STBind> {
    if v == 0 {
        Some(STBind::LOCAL)
    } else if v == 1 {
        Some(STBind::GLOBAL)
    } else if v == 2 {
        Some(STBind::WEAK)
    } else if v == 10 {
        Some(STBind::LOOS)
    } else if v == 12 {
        Some(STBind::HIOS)
    } else if v == 13 {
        Some(STBind::LOPROC)
    } else if v == 15 {
        Some(STBind::HIPROC)
    } else {
        None
    }
}

/// Symbol types.
#[derive(Clone, Copy, Debug, PartialEq, Eq, Structural)]
pub enum STType {
    NOTYPE,
    OBJECT,
    FUNC,
    SECTION,
    FILE,
    COMMON,
    TLS,
    LOOS,
    HIOS,
    LOPROC,
    HIPROC,
}

pub open spec fn st_type_of(v: u8) -> Option<STType> {
    if v == 0 {
        Some(STType::NOTYPE)
    } else if v == 1 {
        Some(STType::OBJECT)
    } else if v == 2 {
        Some(STType::FUNC)
    } else if v == 3 {
        Some(STType::SECTION)
    } else if v == 4 {
        Some(STType::FILE)
    } else if v == 5 {
        Some(STType::COMMON)
    } else if v == 6 {
        Some(STType::TLS)
    } else if v == 10 {
        Some(STType::LOOS)
    } else if v == 12 {
        Some(STType::HIOS)
    } else if v == 13 {
        Some(STType::LOPROC)
    } else if v == 15 {
        Some(STType::HIPROC)
    } else {
        None
    }
}

/// The RISC-V relocation kinds this loader applies.
#[allow(non_camel_case_types)]
#[derive(Clone, Copy, Debug, PartialEq, Eq, Structural)]
pub enum RelaType {
    RISCV_32,
    RISCV_64,
    BRANCH,
    CALL,
    CALL_PLT,
    PCREL_HI20,
    PCREL_LO12_I,
    PCREL_LO12_S,
    HI20,
    LO12_I,
    LO12_S,
    RVC_BRANCH,
    RVC_JUMP,
    RELAX,
}

pub open spec fn rela_type_of(v: u64) -> Option<RelaType> {
    if v == 1 {
        Some(RelaType::RISCV_32)
    } else if v == 2 {
        Some(RelaType::RISCV_64)
    } else if v == 16 {
        Some(RelaType::BRANCH)
    } else if v == 18 {
        Some(RelaType::CALL)
    } else if v == 19 {
        Some(RelaType::CALL_PLT)
    } else if v == 23 {
        Some(RelaType::PCREL_HI20)
    } else if v == 24 {
        Some(RelaType::PCREL_LO12_I)
    } else if v == 25 {
        Some(RelaType::PCREL_LO12_S)
    } else if v == 26 {
        Some(RelaType::HI20)
    } else if v == 27 {
        Some(RelaType::LO12_I)
    } else if v == 28 {
        Some(RelaType::LO12_S)
    } else if v == 44 {
        Some(RelaType::RVC_BRANCH)
    } else if v == 45 {
        Some(RelaType::RVC_JUMP)
    } else if v == 51 {
        Some(RelaType::RELAX)
    } else {
        None
    }
}

impl RelaType {
    /// The kind that a relocation's type number names, if this loader knows it.
    pub fn from_raw(v: u64) -> (r: Option<RelaType>)
        ensures
            r == rela_type_of(v),
    {
        if v == 1 {
            Some(RelaType::RISCV_32)
        } else if v == 2 {
            Some(RelaType::RISCV_64)
        } else if v == 16 {
            Some(RelaType::BRANCH)
        } else if v == 18 {
            Some(RelaType::CALL)
        } else if v == 19 {
            Some(RelaType::CALL_PLT)
        } else if v == 23 {
            Some(RelaType::PCREL_HI20)
        } else if v == 24 {
            Some(RelaType::PCREL_LO12_I)
        } else if v == 25 {
            Some(RelaType::PCREL_LO12_S)
        } else if v == 26 {
            Some(RelaType::HI20)
        } else if v == 27 {
            Some(RelaType::LO12_I)
        } else if v == 28 {
            Some(RelaType::LO12_S)
        } else if v == 44 {
            Some(RelaType::RVC_BRANCH)
        } else if v == 45 {
            Some(RelaType::RVC_JUMP)
        } else if v == 51 {
            Some(RelaType::RELAX)
        } else {
            None
        }
    }
}

/// A relocation entry with addend. `is64` records the class of the image it
/// came from, which decides how the info word splits.
#[derive(Clone, Copy, Debug, PartialEq, Eq, Structural)]
pub struct Rela {
    pub r_offset: u64,
    pub r_info: u64,
    pub r_addend: i64,
    pub is64: bool,
}

impl Rela {
    pub open spec fn spec_symbol_offset(&self) -> u64 {
        if self.is64 {
            self.r_info / 0x1_0000_0000
        } else {
            self.r_info / 256
        }
    }

    pub open spec fn spec_rela_type(&self) -> u64 {
        if self.is64 {
            self.r_info % 0x1_0000_0000
        } else {
            self.r_info % 256
        }
    }

    pub fn rela_offset(&self) -> (r: u64)
        ensures
            r == self.r_offset,
    {
        self.r_offset
    }

    pub fn rela_addend(&self) -> (r: i64)
        ensures
            r == self.r_addend,
    {
        self.r_addend
    }

    /// The index of the symbol that the entry refers to.
    pub fn symbol_offset(&self) -> (r: u64)
        ensures
            r == self.spec_symbol_offset(),
    {
        if self.is64 {
            self.r_info / 0x1_0000_0000
        } else {
            self.r_info / 256
        }
    }

    /// The relocation kind, if this loader knows it.
    pub fn rela_type(&self) -> (r: Option<RelaType>)
        ensures
            r == rela_type_of(self.spec_rela_type()),
    {
        RelaType::from_raw(self._rela_type())
    }

    /// The raw relocation type number.
    pub fn _rela_type(&self) -> (r: u64)
        ensures
            r == self.spec_rela_type(),
    {
        if self.is64 {
            self.r_info % 0x1_0000_0000
        } else {
            self.r_info % 256
        }
    }
}

/// A symbol-table entry.
#[derive(Clone, Copy, Debug, PartialEq, Eq, Structural)]
pub struct Symbol {
    pub st_name: u32,
    pub st_value: u64,
    pub st_size: u64,
    pub st_info: u8,
    pub st_other: u8,
    pub st_shndx: u16,
}

impl Symbol {
    pub open spec fn spec_is_global(&self) -> bool {
        self.st_info / 16 == 1
    }

    pub fn symbol_value(&self) -> (r: u64)
        ensures
            r == self.st_value,
    {
        self.st_value
    }

    pub fn symbol_value_set(&mut self, v: u64)
        ensures
            *final(self) == (Symbol { st_value: v, ..*old(self) }),
    {
        self.st_value = v;
    }

    pub fn symbol_size(&self) -> (r: u64)
        ensures
            r == self.st_size,
    {
        self.st_size
    }

    pub fn symbol_name_offset(&self) -> (r: u32)
        ensures
            r == self.st_name,
    {
        self.st_name
    }

    pub fn symbol_section_ndx(&self) -> (r: u16)
        ensures
            r == self.st_shndx,
    {
        self.st_shndx
    }

    /// The symbol's type, if the info byte names a known one.
    pub fn symbol_type(&self) -> (r: Option<STType>)
        ensures
            r == st_type_of(self.st_info % 16),
    {
        let v = self.st_info % 16;
        if v == 0 {
            Some(STType::NOTYPE)
        } else if v == 1 {
            Some(STType::OBJECT)
        } else if v == 2 {
            Some(STType::FUNC)
        } else if v == 3 {
            Some(STType::SECTION)
        } else if v == 4 {
            Some(STType::FILE)
        } else if v == 5 {
            Some(STType::COMMON)
        } else if v == 6 {
            Some(STType::TLS)
        } else if v == 10 {
            Some(STType::LOOS)
        } else if v == 12 {
            Some(STType::HIOS)
        } else if v == 13 {
            Some(STType::LOPROC)
        } else if v == 15 {
            Some(STType::HIPROC)
        } else {
            None
        }
    }

    /// The symbol's binding, if the info byte names a known one.
    pub fn symbol_bind(&self) -> (r: Option<STBind>)
        ensures
            r == st_bind_of(self.st_info / 16),
    {
        let v = self.st_info / 16;
        if v == 0 {
            Some(STBind::LOCAL)
        } else if v == 1 {
            Some(STBind::GLOBAL)
        } else if v == 2 {
            Some(STBind::WEAK)
        } else if v == 10 {
            Some(STBind::LOOS)
        } else if v == 12 {
            Some(STBind::HIOS)
        } else if v == 13 {
            Some(STBind::LOPROC)
        } else if v == 15 {
            Some(STBind::HIPROC)
        } else {
            None
        }
    }

    /// The symbol's visibility: the low two bits of its other byte.
    pub fn symbol_visibility(&self) -> (r: u8)
        ensures
            r == self.st_other % 4,
    {
        self.st_other % 4
    }
}

/// A 32-bit two's-complement value read as a signed number.
pub open spec fn signed32(v: int) -> i64 {
    (if v >= 0x8000_0000 { v - 0x1_0000_0000 } else { v }) as i64
}

/// A 64-bit two's-complement value read as a signed number.
pub open spec fn signed64(v: int) -> i64 {
    (if v >= 0x8000_0000_0000_0000 { v - 0x1_0000_0000_0000_0000 } else { v }) as i64
}

/// The symbol-table entry that an image holds at `off`.
pub open spec fn symbol_of(b: Seq<u8>, off: int, is64: bool) -> Symbol {
    if is64 {
        Symbol {
            st_name: le32(b, off) as u32,
            st_info: byte_at(b, off + 4),
            st_other: byte_at(b, off + 5),
            st_shndx: le16(b, off + 6) as u16,
            st_value: le64(b, off + 8) as u64,
            st_size: le64(b, off + 16) as u64,
        }
    } else {
        Symbol {
            st_name: le32(b, off) as u32,
            st_value: le32(b, off + 4) as u64,
            st_size: le32(b, off + 8) as u64,
            st_info: byte_at(b, off + 12),
            st_other: byte_at(b, off + 13),
            st_shndx: le16(b, off + 14) as u16,
        }
    }
}

/// The relocation entry that an image holds at `off`.
pub open spec fn rela_of(b: Seq<u8>, off: int, is64: bool) -> Rela {
    if is64 {
        Rela {
            r_offset: le64(b, off) as u64,
            r_info: le64(b, off + 8) as u64,
            r_addend: signed64(le64(b, off + 16)),
            is64,
        }
    } else {
        Rela {
            r_offset: le32(b, off) as u64,
            r_info: le32(b, off + 4) as u64,
            r_addend: signed32(le32(b, off + 8)),
            is64,
        }
    }
}

/// Past the end of an image every relocation entry reads the same: all zeros.
pub proof fn lemma_rela_past_end(b: Seq<u8>, o1: int, o2: int, is64: bool)
    requires
        o1 >= b.len(),
        o2 >= b.len(),
    ensures
        rela_of(b, o1, is64) == rela_of(b, o2, is64),
{
}

/// Decodes the symbol-table entry at `off`.
pub fn decode_symbol(b: &Vec<u8>, off: u64, is64: bool) -> (r: Symbol)
    ensures
        r == symbol_of(b@, off as int, is64),
{
    let _n = b.len();
    if is64 {
        Symbol {
            st_name: read_u32(b, off),
            st_info: read_u8(b, field(off, 4)),
            st_other: read_u8(b, field(off, 5)),
            st_shndx: read_u16(b, field(off, 6)),
            st_value: read_u64(b, field(off, 8)),
            st_size: read_u64(b, field(off, 16)),
        }
    } else {
        Symbol {
            st_name: read_u32(b, off),
            st_value: read_u32(b, field(off, 4)) as u64,
            st_size: read_u32(b, field(off, 8)) as u64,
            st_info: read_u8(b, field(off, 12)),
            st_other: read_u8(b, field(off, 13)),
            st_shndx: read_u16(b, field(off, 14)),
        }
    }
}

/// Decodes the relocation entry at `off`.
pub fn decode_rela(b: &Vec<u8>, off: u64, is64: bool) -> (r: Rela)
    ensures
        r == rela_of(b@, off as int, is64),
{
    let _n = b.len();
    if is64 {
        let a = read_u64(b, field(off, 16));
        let addend: i64 = if a >= 0x8000_0000_0000_0000 {
            -((u64::MAX - a) as i64) - 1
        } else {
            a as i64
        };
        Rela { r_offset: read_u64(b, off), r_info: read_u64(b, field(off, 8)), r_addend: addend, is64 }
    } else {
        let a = read_u32(b, field(off, 8));
        let addend: i64 = if a >= 0x8000_0000 {
            a as i64 - 0x1_0000_0000
        } else {
            a as i64
        };
        Rela {
            r_offset: read_u32(b, off) as u64,
            r_info: read_u32(b, field(off, 4)) as u64,
            r_addend: addend,
            is64,
        }
    }
}

} // verus!
