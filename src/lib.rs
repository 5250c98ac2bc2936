//! A loader and linker for relocatable RISC-V ELF objects.
use vstd::prelude::*;

pub mod bytes;
pub mod headers;
pub mod section;
pub mod reloc;
pub mod elf;
pub mod elf_module;
pub mod model;
pub mod laws;

verus! {

} // verus!
