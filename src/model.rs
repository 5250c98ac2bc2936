//! The mathematical model of loading: symbol tables and the registry as
//! sequences, where each section lands, what the memory holds after copying and
//! relocating, and the facts that connect them.
use vstd::prelude::*;
use crate::bytes::{byte_at, read_u8};
use crate::headers::{SHeader, SHFlags, SHT_NOBITS, SHT_RELA, SHT_SYMTAB};
use crate::section::{Rela, Symbol, SHN_ABS, SHN_COMMON, rela_of};
use crate::elf::{
    is_symtab, entry_count, symbol_entry, symbol_name, views, wanted, table_names, names_upto,
};
use crate::elf::{
    ELFFile, RelocError, layout_of, relocated, layout_upto, align_up, is_alloc, is_write,
    align_up_exec, lemma_group_bound,
};
use crate::elf_module::{ElfModuleError, ModuleView, Region, RegionView, ElfModule};

verus! {

pub open spec fn region_view(r: Option<Region>) -> Option<RegionView> {
    match r {
        Some(x) => Some(x@),
        None => None,
    }
}

pub open spec fn table_view(t: Seq<(Vec<u8>, u64)>) -> Seq<(Seq<u8>, u64)> {
    t.map_values(|e: (Vec<u8>, u64)| (e.0@, e.1))
}

impl View for ElfModule {
    type V = ModuleView;

    open spec fn view(&self) -> ModuleView {
        ModuleView {
            id: self.id,
            dependents: self.dependents@,
            dependencies: self.dependencies@,
            text: region_view(self.text_info),
            data: region_view(self.data_info),
            symbols: table_view(self.symbol_info@),
        }
    }
}

/// The value of the first entry named `name`.
pub open spec fn lookup(tab: Seq<(Seq<u8>, u64)>, name: Seq<u8>) -> Option<u64>
    decreases tab.len(),
{
    if tab.len() == 0 {
        None
    } else {
        let prev = lookup(tab.drop_last(), name);
        if prev is Some {
            prev
        } else if tab.last().0 == name {
            Some(tab.last().1)
        } else {
            None
        }
    }
}

/// The table with `(name, v)` added unless `name` is already there.
pub open spec fn or_insert(tab: Seq<(Seq<u8>, u64)>, name: Seq<u8>, v: u64) -> Seq<(Seq<u8>, u64)> {
    if lookup(tab, name) is Some {
        tab
    } else {
        tab.push((name, v))
    }
}

/// `s` without the occurrences of `h`.
pub open spec fn without(s: Seq<u64>, h: u64) -> Seq<u64>
    decreases s.len(),
{
    if s.len() == 0 {
        s
    } else if s.last() == h {
        without(s.drop_last(), h)
    } else {
        without(s.drop_last(), h).push(s.last())
    }
}

pub open spec fn modules_view(s: Seq<ElfModule>) -> Seq<ModuleView> {
    s.map_values(|m: ElfModule| m@)
}

/// The first module that has `name` in its table, with the value found there
/// and the module's position.
pub open spec fn root_lookup(mods: Seq<ModuleView>, name: Seq<u8>) -> Option<(u64, int)>
    decreases mods.len(),
{
    if mods.len() == 0 {
        None
    } else {
        let prev = root_lookup(mods.drop_last(), name);
        if prev is Some {
            prev
        } else {
            match lookup(mods.last().symbols, name) {
                Some(v) => Some((v, mods.len() - 1)),
                None => None,
            }
        }
    }
}

/// The value that a search of the whole registry finds for `name`.
pub open spec fn global_value(mods: Seq<ModuleView>, name: Seq<u8>) -> Option<u64> {
    match root_lookup(mods, name) {
        Some(p) => Some(p.0),
        None => None,
    }
}

/// The position of the module whose handle is `h`.
pub open spec fn index_of(mods: Seq<ModuleView>, h: u64) -> Option<int>
    decreases mods.len(),
{
    if mods.len() == 0 {
        None
    } else {
        let prev = index_of(mods.drop_last(), h);
        if prev is Some {
            prev
        } else if mods.last().id == h {
            Some(mods.len() - 1)
        } else {
            None
        }
    }
}

/// What a lookup through a handle gives: the module's own table first, then the
/// whole registry.
pub open spec fn spec_resolve(mods: Seq<ModuleView>, handle: Option<u64>, name: Seq<u8>) -> Option<
    u64,
> {
    match handle {
        Some(h) => match index_of(mods, h) {
            Some(i) => match lookup(mods[i].symbols, name) {
                Some(v) => Some(v),
                None => global_value(mods, name),
            },
            None => global_value(mods, name),
        },
        None => global_value(mods, name),
    }
}

/// A module with its dependents list replaced.
pub open spec fn with_dependents(m: ModuleView, d: Seq<u64>) -> ModuleView {
    ModuleView { dependents: d, ..m }
}

/// The registry once module `i`, whose handle is `h`, is taken out of it and out
/// of every dependents list.
pub open spec fn after_unload(mods: Seq<ModuleView>, i: int, h: u64) -> Seq<ModuleView> {
    mods.remove(i).map_values(|m: ModuleView| with_dependents(m, without(m.dependents, h)))
}

/// Whether a group of the given (size, alignment) can be placed at `base`: an
/// empty group anywhere, else at a non-zero address that meets the group's
/// alignment and leaves room for the whole group.
pub open spec fn fits(g: (int, int), base: u64) -> bool {
    g.0 == 0 || (base != 0 && (g.1 <= 1 || base as int % g.1 == 0) && g.0 <= usize::MAX && base + g.0
        <= u64::MAX)
}

/// The memory a group of the given (size, alignment) gets at `base`: none for
/// an empty group, else that many zero bytes.
pub open spec fn region_for(g: (int, int), base: u64) -> Option<RegionView> {
    if g.0 == 0 {
        None
    } else {
        Some(RegionView { base, align: g.1 as u64, bytes: Seq::new(g.0 as nat, |i: int| 0u8) })
    }
}

pub open spec fn region_base(r: Option<RegionView>) -> u64 {
    match r {
        Some(x) => x.base,
        None => 0,
    }
}

pub open spec fn region_bytes(r: Option<RegionView>) -> Seq<u8> {
    match r {
        Some(x) => x.bytes,
        None => Seq::empty(),
    }
}

/// The region with its bytes replaced.
pub open spec fn region_with(r: Option<RegionView>, bytes: Seq<u8>) -> Option<RegionView> {
    match r {
        Some(x) => Some(RegionView { bytes, ..x }),
        None => None,
    }
}

/// Where in its group section `k` is placed.
pub(crate) fn section_place_exec(elf_file: &ELFFile, k: usize) -> (r: u128)
    requires
        elf_file.wf(),
        k < elf_file.sections@.len(),
        is_alloc(elf_file.sections@[k as int]),
    ensures
        r == section_place(elf_file.sections@, k as int),
{
    let ghost secs = elf_file.sections@;
    let mut text: u128 = 0;
    let mut data: u128 = 0;
    proof {
        reveal(ELFFile::wf);
    }
    let mut i: usize = 0;
    while i < k
        invariant
            secs == elf_file.sections@,
            k < secs.len(),
            secs.len() <= 65535,
            i <= k,
            text == layout_upto(secs, i as int).0.0,
            data == layout_upto(secs, i as int).1.0,
            text <= i * 0x4_0000_0000_0000_0000,
            data <= i * 0x4_0000_0000_0000_0000,
        decreases k - i,
    {
        let sh = &elf_file.sections[i];
        proof {
            lemma_group_bound(i as int);
        }
        if sh.sh_flags & SHFlags::ALLOC.bits() != 0 {
            let start = align_up_exec(if sh.sh_flags & SHFlags::WRITE.bits() != 0 { data } else { text }, sh.sh_addralign);
            let size = align_up_exec(sh.sh_size as u128, 4);
            if sh.sh_flags & SHFlags::WRITE.bits() != 0 {
                data = start + size;
            } else {
                text = start + size;
            }
        }
        i = i + 1;
    }
    proof {
        lemma_group_bound(k as int);
    }
    let sh = &elf_file.sections[k];
    align_up_exec(if sh.sh_flags & SHFlags::WRITE.bits() != 0 { data } else { text }, sh.sh_addralign)
}

pub(crate) fn zeroed_region(g: (u128, u64), base: u64) -> (r: Option<Region>)
    requires
        g.0 <= usize::MAX,
    ensures
        region_view(r) == region_for((g.0 as int, g.1 as int), base),
{
    if g.0 == 0 {
        return None;
    }
    let n = g.0 as usize;
    let mut bytes: Vec<u8> = Vec::new();
    let mut i: usize = 0;
    while i < n
        invariant
            i <= n,
            bytes@ =~= Seq::new(i as nat, |k: int| 0u8),
        decreases n - i,
    {
        bytes.push(0);
        i = i + 1;
    }
    Some(Region { base, align: g.1, bytes })
}

/// After `or_insert` the name is found, and every name found before is found
/// with the same value; anything else found is the inserted pair.
pub(crate) proof fn lemma_or_insert(tab: Seq<(Seq<u8>, u64)>, name: Seq<u8>, v: u64)
    ensures
        lookup(or_insert(tab, name, v), name) is Some,
        forall|m: Seq<u8>|
            lookup(tab, m) is Some ==> #[trigger] lookup(or_insert(tab, name, v), m) == lookup(tab, m),
        forall|m: Seq<u8>|
            lookup(tab, m) is None ==> #[trigger] lookup(or_insert(tab, name, v), m) == if m == name {
                Some(v)
            } else {
                None
            },
{
    if lookup(tab, name) is None {
        assert(tab.push((name, v)).drop_last() =~= tab);
        assert forall|m: Seq<u8>| lookup(tab, m) is Some implies #[trigger] lookup(
            or_insert(tab, name, v),
            m,
        ) == lookup(tab, m) by {
            assert(tab.push((name, v)).drop_last() =~= tab);
        }
        assert forall|m: Seq<u8>| lookup(tab, m) is None implies #[trigger] lookup(
            or_insert(tab, name, v),
            m,
        ) == if m == name {
            Some(v)
        } else {
            None
        } by {
            assert(tab.push((name, v)).drop_last() =~= tab);
        }
    }
}

/// The bytes a section brings into memory: zeros for a zero-fill section, else
/// its file bytes.
pub open spec fn section_image(b: Seq<u8>, sh: SHeader) -> Seq<u8> {
    Seq::new(
        sh.sh_size as nat,
        |j: int|
            if sh.sh_type == SHT_NOBITS {
                0u8
            } else {
                byte_at(b, sh.sh_offset + j)
            },
    )
}

/// `mem` with `src` written over it from `off` on.
pub open spec fn splice(mem: Seq<u8>, off: int, src: Seq<u8>) -> Seq<u8> {
    mem.subrange(0, off) + src + mem.subrange(off + src.len(), mem.len() as int)
}

/// The running size of section `k`'s group before section `k`.
pub open spec fn group_total_before(secs: Seq<SHeader>, k: int) -> int {
    if is_write(secs[k]) {
        layout_upto(secs, k).1.0
    } else {
        layout_upto(secs, k).0.0
    }
}

/// Where in its group section `k` is placed.
pub open spec fn section_place(secs: Seq<SHeader>, k: int) -> int {
    align_up(group_total_before(secs, k), secs[k].sh_addralign as int)
}

/// The address that section `k` gets: its group's start plus its place in the
/// group for an allocatable section, zero for any other.
pub open spec fn runtime_addr(secs: Seq<SHeader>, k: int, text_base: u64, data_base: u64) -> u64 {
    if is_alloc(secs[k]) {
        ((if is_write(secs[k]) {
            data_base
        } else {
            text_base
        }) + section_place(secs, k)) as u64
    } else {
        0
    }
}

/// The two groups' bytes once the first `k` sections are copied into them.
pub open spec fn memory_upto(b: Seq<u8>, secs: Seq<SHeader>, k: int, text: Seq<u8>, data: Seq<u8>) -> (
    Seq<u8>,
    Seq<u8>,
)
    decreases k,
{
    if k <= 0 {
        (text, data)
    } else {
        let prev = memory_upto(b, secs, k - 1, text, data);
        let sh = secs[k - 1];
        if !is_alloc(sh) || sh.sh_size == 0 {
            prev
        } else if is_write(sh) {
            (prev.0, splice(prev.1, section_place(secs, k - 1), section_image(b, sh)))
        } else {
            (splice(prev.0, section_place(secs, k - 1), section_image(b, sh)), prev.1)
        }
    }
}

pub(crate) proof fn lemma_align_up(v: int, a: int)
    requires
        v >= 0,
    ensures
        align_up(v, a) >= v,
{
}

pub(crate) proof fn lemma_layout_grows(secs: Seq<SHeader>, k: int, m: int)
    requires
        0 <= k <= m <= secs.len(),
    ensures
        layout_upto(secs, k).0.0 <= layout_upto(secs, m).0.0,
        layout_upto(secs, k).1.0 <= layout_upto(secs, m).1.0,
        layout_upto(secs, m).0.0 >= 0,
        layout_upto(secs, m).1.0 >= 0,
    decreases m,
{
    if m > 0 {
        if k < m {
            lemma_layout_grows(secs, k, m - 1);
        } else {
            lemma_layout_grows(secs, m - 1, m - 1);
        }
        let p = layout_upto(secs, m - 1);
        lemma_align_up(p.0.0, secs[m - 1].sh_addralign as int);
        lemma_align_up(p.1.0, secs[m - 1].sh_addralign as int);
        lemma_align_up(secs[m - 1].sh_size as int, 4);
    }
}

/// Section `k` fits in its group: its place plus its size is at most the
/// group's full size.
pub(crate) proof fn lemma_section_fits(secs: Seq<SHeader>, k: int)
    requires
        0 <= k < secs.len(),
        is_alloc(secs[k]),
    ensures
        0 <= section_place(secs, k),
        section_place(secs, k) + secs[k].sh_size <= if is_write(secs[k]) {
            layout_of(secs).1.0
        } else {
            layout_of(secs).0.0
        },
{
    lemma_layout_grows(secs, k, k);
    lemma_layout_grows(secs, k + 1, secs.len() as int);
    lemma_align_up(group_total_before(secs, k), secs[k].sh_addralign as int);
    lemma_align_up(secs[k].sh_size as int, 4);
}

/// Writes section `sh`'s bytes into `mem` from `off` on.
pub(crate) fn copy_section(mem: &mut Vec<u8>, off: usize, image: &Vec<u8>, sh: &SHeader)
    requires
        off + sh.sh_size <= old(mem)@.len(),
    ensures
        final(mem)@ == splice(old(mem)@, off as int, section_image(image@, *sh)),
{
    let _l = mem.len();
    let ghost start = mem@;
    let ghost src = section_image(image@, *sh);
    let size = sh.sh_size as usize;
    let nobits = sh.sh_type == SHT_NOBITS;
    let mut j: usize = 0;
    while j < size
        invariant
            size == sh.sh_size,
            off + size <= start.len(),
            start.len() <= usize::MAX,
            src == section_image(image@, *sh),
            nobits == (sh.sh_type == SHT_NOBITS),
            j <= size,
            mem@ =~= start.subrange(0, off as int) + src.subrange(0, j as int) + start.subrange(
                off + j,
                start.len() as int,
            ),
        decreases size - j,
    {
        let byte = if nobits {
            0u8
        } else {
            let _l = image.len();
            match sh.sh_offset.checked_add(j as u64) {
                Some(o) => read_u8(image, o),
                None => 0u8,
            }
        };
        assert(byte == src[j as int]);
        mem.set(off + j, byte);
        j = j + 1;
    }
}

/// A named global symbol defined in the image: one the module exports.
pub open spec fn is_export(s: Symbol) -> bool {
    s.st_name != 0 && s.st_shndx != 0 && s.st_shndx != SHN_COMMON && s.spec_is_global()
}

/// What stops a symbol from being placed: a named common symbol, or a named
/// defined symbol whose section does not exist.
pub open spec fn symbol_fault(s: Symbol, nsecs: int) -> Option<ElfModuleError> {
    if s.st_name == 0 {
        None
    } else if s.st_shndx == SHN_COMMON {
        Some(ElfModuleError::CommonSymbolUnsupported)
    } else if s.st_shndx != 0 && s.st_shndx != SHN_ABS && s.st_shndx >= nsecs {
        Some(ElfModuleError::Malformed)
    } else {
        None
    }
}

/// The address of a defined symbol: its value for an absolute symbol, else its
/// value taken from the start of its section.
pub open spec fn defined_value(s: Symbol, runtime: Seq<u64>) -> u64 {
    if s.st_shndx == SHN_ABS {
        s.st_value
    } else {
        vstd::wrapping::u64_specs::wrapping_add(s.st_value, runtime[s.st_shndx as int])
    }
}

/// Entry `j` of section `k`, read as a symbol.
#[verifier::opaque]
pub open spec fn entry_sym(f: &ELFFile, k: int, j: int) -> Symbol {
    symbol_entry(f.image@, f.sections@[k], j, f.is64)
}

/// The name of entry `j` of symbol table `k`.
#[verifier::opaque]
pub open spec fn entry_name(f: &ELFFile, k: int, j: int) -> Seq<u8> {
    symbol_name(f.image@, f.sections@, f.sections@[k], entry_sym(f, k, j))
}

/// Some export of symbol table `k` has name `m` and address `v`.
pub open spec fn exported_as(f: &ELFFile, runtime: Seq<u64>, k: int, m: Seq<u8>, v: u64) -> bool {
    exists|j: int|
        #[trigger] is_entry(f.sections@, k, j) && is_export(entry_sym(f, k, j)) && entry_name(f, k, j)
            == m && v == defined_value(entry_sym(f, k, j), runtime)
}

/// Whether entry `j` of section `k` is a symbol of a usable symbol table.
pub open spec fn is_entry(secs: Seq<SHeader>, k: int, j: int) -> bool {
    0 <= k < secs.len() && is_symtab(secs, secs[k]) && 0 <= j < entry_count(secs[k])
}

/// The final value of a symbol of table `symsec`: an unnamed symbol keeps its
/// value; a named undefined one takes the value `look` gives its name, if any;
/// a defined one gets its address.
pub open spec fn final_value(
    look: spec_fn(Seq<u8>) -> Option<u64>,
    b: Seq<u8>,
    secs: Seq<SHeader>,
    runtime: Seq<u64>,
    symsec: SHeader,
    s: Symbol,
) -> Result<u64, ElfModuleError> {
    match symbol_fault(s, secs.len() as int) {
        Some(e) => Err(e),
        None => if s.st_name == 0 {
            Ok(s.st_value)
        } else if s.st_shndx == 0 {
            match look(symbol_name(b, secs, symsec, s)) {
                Some(v) => Ok(v),
                None => Ok(s.st_value),
            }
        } else {
            Ok(defined_value(s, runtime))
        },
    }
}

/// Patches a relocation at `addr` into the group that holds `addr`, else into
/// the writable group.
pub open spec fn patch(
    r: Rela,
    v: u64,
    addr: u64,
    text: Option<RegionView>,
    data: Option<RegionView>,
) -> Result<(Option<RegionView>, Option<RegionView>), ElfModuleError> {
    if holds_addr(text, addr) {
        match relocated(r, v, text->Some_0.bytes, text->Some_0.base, addr) {
            Ok(m) => Ok((region_with(text, m), data)),
            Err(e) => Err(ElfModuleError::Relocation(e)),
        }
    } else {
        match data {
            Some(d) => match relocated(r, v, d.bytes, d.base, addr) {
                Ok(m) => Ok((text, region_with(data, m))),
                Err(e) => Err(ElfModuleError::Relocation(e)),
            },
            None => Err(ElfModuleError::Relocation(RelocError::OutOfRange)),
        }
    }
}

/// One relocation of a table whose symbols are in section `link` and whose
/// target section starts at `dst_base`, applied to the two groups.
pub open spec fn reloc_one(
    look: spec_fn(Seq<u8>) -> Option<u64>,
    f: ELFFile,
    runtime: Seq<u64>,
    link: int,
    dst_base: u64,
    r: Rela,
    mem: (Option<RegionView>, Option<RegionView>),
) -> Result<(Option<RegionView>, Option<RegionView>), ElfModuleError> {
    let symsec = f.sections@[link];
    let idx = r.spec_symbol_offset();
    if idx >= entry_count(symsec) {
        Err(ElfModuleError::Malformed)
    } else {
        match final_value(
            look,
            f.image@,
            f.sections@,
            runtime,
            symsec,
            symbol_entry(f.image@, symsec, idx as int, f.is64),
        ) {
            Err(e) => Err(e),
            Ok(v) => patch(
                r,
                v,
                vstd::wrapping::u64_specs::wrapping_add(dst_base, r.r_offset),
                mem.0,
                mem.1,
            ),
        }
    }
}

/// Entry `j` of relocation table `sh`.
pub open spec fn rela_entry(f: ELFFile, sh: SHeader, j: int) -> Rela {
    rela_of(f.image@, sh.sh_offset + j * sh.sh_entsize, f.is64)
}

/// The first `n` relocations of table `k` applied in order; the first that
/// fails stops the rest.
pub open spec fn reloc_table(
    look: spec_fn(Seq<u8>) -> Option<u64>,
    f: ELFFile,
    runtime: Seq<u64>,
    k: int,
    n: int,
    mem: (Option<RegionView>, Option<RegionView>),
) -> Result<(Option<RegionView>, Option<RegionView>), ElfModuleError>
    decreases n,
{
    if n <= 0 {
        Ok(mem)
    } else {
        match reloc_table(look, f, runtime, k, n - 1, mem) {
            Err(e) => Err(e),
            Ok(m) => reloc_one(
                look,
                f,
                runtime,
                f.sections@[k].sh_link as int,
                runtime[f.sections@[k].sh_info as int],
                rela_entry(f, f.sections@[k], n - 1),
                m,
            ),
        }
    }
}

/// A relocation table whose symbol table and target section exist.
pub open spec fn rela_table_ok(secs: Seq<SHeader>, sh: SHeader) -> bool {
    &&& sh.sh_link < secs.len()
    &&& sh.sh_info < secs.len()
    &&& secs[sh.sh_link as int].sh_type == SHT_SYMTAB
    &&& secs[sh.sh_link as int].sh_link < secs.len()
}

/// The relocation tables among the first `k` sections applied in order.
pub open spec fn reloc_upto(
    look: spec_fn(Seq<u8>) -> Option<u64>,
    f: ELFFile,
    runtime: Seq<u64>,
    k: int,
    mem: (Option<RegionView>, Option<RegionView>),
) -> Result<(Option<RegionView>, Option<RegionView>), ElfModuleError>
    decreases k,
{
    if k <= 0 {
        Ok(mem)
    } else {
        match reloc_upto(look, f, runtime, k - 1, mem) {
            Err(e) => Err(e),
            Ok(m) => {
                let sh = f.sections@[k - 1];
                if sh.sh_type != SHT_RELA {
                    Ok(m)
                } else if !rela_table_ok(f.sections@, sh) {
                    Err(ElfModuleError::Malformed)
                } else {
                    reloc_table(look, f, runtime, k - 1, entry_count(sh), m)
                }
            },
        }
    }
}

pub(crate) proof fn lemma_table_err(
    look: spec_fn(Seq<u8>) -> Option<u64>,
    f: ELFFile,
    runtime: Seq<u64>,
    k: int,
    j: int,
    n: int,
    mem: (Option<RegionView>, Option<RegionView>),
)
    requires
        j <= n,
        reloc_table(look, f, runtime, k, j, mem) is Err,
    ensures
        reloc_table(look, f, runtime, k, n, mem) == reloc_table(look, f, runtime, k, j, mem),
    decreases n - j,
{
    if j < n {
        lemma_table_err(look, f, runtime, k, j, n - 1, mem);
    }
}

pub(crate) proof fn lemma_upto_err(
    look: spec_fn(Seq<u8>) -> Option<u64>,
    f: ELFFile,
    runtime: Seq<u64>,
    k: int,
    n: int,
    mem: (Option<RegionView>, Option<RegionView>),
)
    requires
        k <= n,
        reloc_upto(look, f, runtime, k, mem) is Err,
    ensures
        reloc_upto(look, f, runtime, n, mem) == reloc_upto(look, f, runtime, k, mem),
    decreases n - k,
{
    if k < n {
        lemma_upto_err(look, f, runtime, k, n - 1, mem);
    }
}

/// Some named symbol cannot be placed.
pub open spec fn has_fault(f: ELFFile) -> bool {
    exists|k: int, j: int|
        #[trigger] is_entry(f.sections@, k, j) && symbol_fault(
            entry_sym(&f, k, j),
            f.sections@.len() as int,
        ) is Some
}

/// The address of each section once the image's groups are placed at
/// `text_base` and `data_base`.
pub open spec fn placed_runtime(f: ELFFile, text_base: u64, data_base: u64) -> Seq<u64> {
    let lay = layout_of(f.sections@);
    Seq::new(
        f.sections@.len(),
        |k: int|
            runtime_addr(
                f.sections@,
                k,
                region_base(region_for(lay.0, text_base)),
                region_base(region_for(lay.1, data_base)),
            ),
    )
}

/// The image's groups, placed at `text_base` and `data_base`, with its sections
/// copied in.
pub open spec fn placed_memory(f: ELFFile, text_base: u64, data_base: u64) -> (
    Option<RegionView>,
    Option<RegionView>,
) {
    let lay = layout_of(f.sections@);
    let t = region_for(lay.0, text_base);
    let d = region_for(lay.1, data_base);
    let m = memory_upto(
        f.image@,
        f.sections@,
        f.sections@.len() as int,
        region_bytes(t),
        region_bytes(d),
    );
    (region_with(t, m.0), region_with(d, m.1))
}

/// Looking names up in the whole registry.
pub open spec fn registry_look(mods: Seq<ModuleView>) -> spec_fn(Seq<u8>) -> Option<u64> {
    |n: Seq<u8>| global_value(mods, n)
}

/// What relocating the image placed at `text_base` and `data_base` gives, with
/// imported names taking the values the registry `mods` has for them.
pub open spec fn relocation_outcome(mods: Seq<ModuleView>, f: ELFFile, text_base: u64, data_base: u64) -> Result<
    (Option<RegionView>, Option<RegionView>),
    ElfModuleError,
> {
    reloc_upto(
        registry_look(mods),
        f,
        placed_runtime(f, text_base, data_base),
        f.sections@.len() as int,
        placed_memory(f, text_base, data_base),
    )
}

pub(crate) proof fn lemma_table_names_has(b: Seq<u8>, secs: Seq<SHeader>, is64: bool, sh: SHeader, n: int, j: int)
    requires
        0 <= j < n,
        wanted(symbol_entry(b, sh, j, is64), true),
    ensures
        table_names(b, secs, is64, sh, n, true).contains(
            symbol_name(b, secs, sh, symbol_entry(b, sh, j, is64)),
        ),
    decreases n,
{
    let prev = table_names(b, secs, is64, sh, n - 1, true);
    let name = symbol_name(b, secs, sh, symbol_entry(b, sh, j, is64));
    if j == n - 1 {
        assert(table_names(b, secs, is64, sh, n, true) == prev.push(name));
        assert(prev.push(name)[prev.len() as int] == name);
    } else {
        lemma_table_names_has(b, secs, is64, sh, n - 1, j);
        let t = choose|t: int| 0 <= t < prev.len() && prev[t] == name;
        let s = symbol_entry(b, sh, n - 1, is64);
        if wanted(s, true) {
            assert(prev.push(symbol_name(b, secs, sh, s))[t] == name);
        }
    }
}

pub(crate) proof fn lemma_names_upto_has(b: Seq<u8>, secs: Seq<SHeader>, is64: bool, kk: int, k: int, j: int)
    requires
        0 <= k < kk <= secs.len(),
        is_symtab(secs, secs[k]),
        0 <= j < entry_count(secs[k]),
        wanted(symbol_entry(b, secs[k], j, is64), true),
    ensures
        names_upto(b, secs, is64, kk, true).contains(
            symbol_name(b, secs, secs[k], symbol_entry(b, secs[k], j, is64)),
        ),
    decreases kk,
{
    let prev = names_upto(b, secs, is64, kk - 1, true);
    let name = symbol_name(b, secs, secs[k], symbol_entry(b, secs[k], j, is64));
    if k == kk - 1 {
        lemma_table_names_has(b, secs, is64, secs[k], entry_count(secs[k]), j);
        let tn = table_names(b, secs, is64, secs[k], entry_count(secs[k]), true);
        let t = choose|t: int| 0 <= t < tn.len() && tn[t] == name;
        assert((prev + tn)[prev.len() + t] == name);
    } else {
        lemma_names_upto_has(b, secs, is64, kk - 1, k, j);
        let t = choose|t: int| 0 <= t < prev.len() && prev[t] == name;
        let sh = secs[kk - 1];
        if is_symtab(secs, sh) {
            let tn = table_names(b, secs, is64, sh, entry_count(sh), true);
            assert((prev + tn)[t] == name);
        }
    }
}

/// Two lookups that agree on the image's imported names relocate it alike.
pub(crate) proof fn lemma_reloc_same_look(
    l1: spec_fn(Seq<u8>) -> Option<u64>,
    l2: spec_fn(Seq<u8>) -> Option<u64>,
    f: ELFFile,
    runtime: Seq<u64>,
    k: int,
    mem: (Option<RegionView>, Option<RegionView>),
)
    requires
        0 <= k <= f.sections@.len(),
        forall|n: Seq<u8>| f.undefined_names().contains(n) ==> #[trigger] l1(n) == l2(n),
    ensures
        reloc_upto(l1, f, runtime, k, mem) == reloc_upto(l2, f, runtime, k, mem),
    decreases k,
{
    if k > 0 {
        lemma_reloc_same_look(l1, l2, f, runtime, k - 1, mem);
        let sh = f.sections@[k - 1];
        match reloc_upto(l1, f, runtime, k - 1, mem) {
            Err(_) => {},
            Ok(m) => {
                if sh.sh_type == SHT_RELA && rela_table_ok(f.sections@, sh) {
                    lemma_reloc_table_same_look(l1, l2, f, runtime, k - 1, entry_count(sh), m);
                }
            },
        }
    }
}

pub(crate) proof fn lemma_reloc_table_same_look(
    l1: spec_fn(Seq<u8>) -> Option<u64>,
    l2: spec_fn(Seq<u8>) -> Option<u64>,
    f: ELFFile,
    runtime: Seq<u64>,
    k: int,
    n: int,
    mem: (Option<RegionView>, Option<RegionView>),
)
    requires
        0 <= k < f.sections@.len(),
        rela_table_ok(f.sections@, f.sections@[k]),
        forall|nm: Seq<u8>| f.undefined_names().contains(nm) ==> #[trigger] l1(nm) == l2(nm),
    ensures
        reloc_table(l1, f, runtime, k, n, mem) == reloc_table(l2, f, runtime, k, n, mem),
    decreases n,
{
    if n > 0 {
        lemma_reloc_table_same_look(l1, l2, f, runtime, k, n - 1, mem);
        match reloc_table(l1, f, runtime, k, n - 1, mem) {
            Err(_) => {},
            Ok(m) => {
                let link = f.sections@[k].sh_link as int;
                let symsec = f.sections@[link];
                let r = rela_entry(f, f.sections@[k], n - 1);
                let idx = r.spec_symbol_offset() as int;
                if idx < entry_count(symsec) {
                    let s = symbol_entry(f.image@, symsec, idx, f.is64);
                    if wanted(s, true) {
                        lemma_names_upto_has(
                            f.image@,
                            f.sections@,
                            f.is64,
                            f.sections@.len() as int,
                            link,
                            idx,
                        );
                    }
                }
            },
        }
    }
}

/// Looking names up in a symbol table.
pub open spec fn table_look(tab: Seq<(Seq<u8>, u64)>) -> spec_fn(Seq<u8>) -> Option<u64> {
    |n: Seq<u8>| lookup(tab, n)
}

/// Two regions alike but for their bytes, which keep their length.
pub open spec fn same_shape(a: Option<RegionView>, b: Option<RegionView>) -> bool {
    match (a, b) {
        (Some(x), Some(y)) => x.base == y.base && x.align == y.align && x.bytes.len()
            == y.bytes.len(),
        (None, None) => true,
        _ => false,
    }
}

/// Whether address `addr` lies in the region.
pub open spec fn holds_addr(r: Option<RegionView>, addr: u64) -> bool {
    match r {
        Some(x) => x.base <= addr && addr - x.base < x.bytes.len(),
        None => false,
    }
}

/// Import `e` of name `name` is what the registry gives for the name: its value
/// and the handle of the first module that has it.
pub open spec fn provided(mods: Seq<ModuleView>, e: (Vec<u8>, u64, u64), name: Seq<u8>) -> bool {
    &&& e.0@ == name
    &&& root_lookup(mods, name) is Some
    &&& e.1 == root_lookup(mods, name)->Some_0.0
    &&& 0 <= root_lookup(mods, name)->Some_0.1 < mods.len()
    &&& e.2 == mods[root_lookup(mods, name)->Some_0.1].id
}

/// Whether some module has handle `id`.
pub open spec fn has_module(mods: Seq<ModuleView>, id: u64) -> bool {
    exists|i: int| 0 <= i < mods.len() && #[trigger] mods[i].id == id
}

/// Whether module `i` provides one of the imports.
pub open spec fn provides(mods: Seq<ModuleView>, imports: Seq<(Vec<u8>, u64, u64)>, i: int) -> bool {
    exists|t: int| 0 <= t < imports.len() && #[trigger] imports[t].2 == mods[i].id
}

pub(crate) proof fn lemma_provides_step(mods: Seq<ModuleView>, imports: Seq<(Vec<u8>, u64, u64)>, t: int, i: int)
    requires
        0 <= t < imports.len(),
    ensures
        provides(mods, imports.subrange(0, t + 1), i) == (provides(mods, imports.subrange(0, t), i)
            || imports[t].2 == mods[i].id),
{
    let pre = imports.subrange(0, t);
    let post = imports.subrange(0, t + 1);
    if provides(mods, post, i) {
        let q = choose|q: int| 0 <= q < post.len() && #[trigger] post[q].2 == mods[i].id;
        if q < t {
            assert(pre[q] == post[q]);
        }
    }
    if provides(mods, pre, i) {
        let q = choose|q: int| 0 <= q < pre.len() && #[trigger] pre[q].2 == mods[i].id;
        assert(post[q] == pre[q]);
    }
    if imports[t].2 == mods[i].id {
        assert(post[t] == imports[t]);
    }
}

/// Whether module `i` provides a value for one of the names.
pub open spec fn imports_from(mods: Seq<ModuleView>, names: Seq<Seq<u8>>, i: int) -> bool {
    exists|t: int|
        0 <= t < names.len() && #[trigger] root_lookup(mods, names[t]) is Some && root_lookup(
            mods,
            names[t],
        )->Some_0.1 == i
}

/// The registry `new` is `old` with the module of image `f` loaded under
/// handle `h`, its groups placed at `text_base` and `data_base`: each import
/// has the value the registry gave it, each export is found, each provider
/// lists the module among its dependents, and the module depends on them.
#[verifier::opaque]
pub open spec fn loaded(
    old: Seq<ModuleView>,
    new: Seq<ModuleView>,
    f: ELFFile,
    h: u64,
    text_base: u64,
    data_base: u64,
) -> bool {
    let und = f.undefined_names();
    let m = new.last();
    &&& new.len() == old.len() + 1
    &&& m.id == h
    &&& m.dependents.len() == 0
    &&& m.dependencies.len() == und.len()
    &&& forall|t: int|
        0 <= t < und.len() ==> #[trigger] lookup(m.symbols, und[t]) == global_value(old, und[t])
    &&& forall|t: int|
        0 <= t < und.len() ==> #[trigger] m.dependencies[t] == old[root_lookup(
            old,
            und[t],
        )->Some_0.1].id
    &&& forall|k: int, j: int|
        #[trigger] is_entry(f.sections@, k, j) && is_export(entry_sym(&f, k, j)) ==> lookup(
            m.symbols,
            entry_name(&f, k, j),
        ) is Some
    &&& forall|i: int|
        0 <= i < old.len() ==> #[trigger] new[i] == with_dependents(
            old[i],
            if imports_from(old, und, i) {
                old[i].dependents.push(h)
            } else {
                old[i].dependents
            },
        )
    &&& same_shape(m.text, region_for(layout_of(f.sections@).0, text_base))
    &&& same_shape(m.data, region_for(layout_of(f.sections@).1, data_base))
    &&& m.symbols == exports_upto(
        insert_all(Seq::empty(), import_values(old, und)),
        f,
        placed_runtime(f, text_base, data_base),
        f.sections@.len() as int,
    )
}

/// Each import is found in the table with the value of some import of the
/// same name.
pub open spec fn import_found(tab: Seq<(Seq<u8>, u64)>, imports: Seq<(Vec<u8>, u64, u64)>, t: int) -> bool {
    exists|i: int|
        0 <= i < imports.len() && #[trigger] imports[i].0@ == imports[t].0@ && lookup(
            tab,
            imports[t].0@,
        ) == Some(imports[i].1)
}

/// An error that comes only once the checks against the registry have passed.
pub open spec fn late_error(e: ElfModuleError) -> bool {
    !(e is UnresolvedSymbol) && !(e is SymbolConflict) && !(e is Parse)
}

/// An error that relocating can give.
pub open spec fn reloc_error(e: ElfModuleError) -> bool {
    e is Malformed || e is Relocation || e is CommonSymbolUnsupported
}

/// Every imported name has a provider and no defined name is taken.
pub open spec fn checks_pass(mods: Seq<ModuleView>, f: ELFFile) -> bool {
    &&& forall|t: int|
        0 <= t < f.undefined_names().len() ==> #[trigger] global_value(mods, f.undefined_names()[t])
            is Some
    &&& forall|t: int|
        0 <= t < f.defined_names().len() ==> #[trigger] global_value(mods, f.defined_names()[t])
            is None
}

/// A table in which every import is found with its registry value agrees
/// with the registry on every imported name.
pub(crate) proof fn lemma_tab_agrees(
    mods: Seq<ModuleView>,
    f: ELFFile,
    imp: Seq<(Vec<u8>, u64, u64)>,
    und: Seq<Vec<u8>>,
    tab: Seq<(Seq<u8>, u64)>,
)
    requires
        views(und) == f.undefined_names(),
        imp.len() == und.len(),
        forall|t: int| 0 <= t < und.len() ==> #[trigger] provided(mods, imp[t], und[t]@),
        forall|t: int| 0 <= t < imp.len() ==> #[trigger] import_found(tab, imp, t),
    ensures
        forall|n: Seq<u8>|
            f.undefined_names().contains(n) ==> #[trigger] table_look(tab)(n) == registry_look(mods)(
                n,
            ),
{
    assert forall|n: Seq<u8>| f.undefined_names().contains(n) implies #[trigger] table_look(tab)(n)
        == registry_look(mods)(n) by {
        let t = choose|t: int| 0 <= t < f.undefined_names().len() && f.undefined_names()[t] == n;
        assert(views(und)[t] == und[t]@);
        assert(import_found(tab, imp, t));
        let i = choose|i: int|
            0 <= i < imp.len() && #[trigger] imp[i].0@ == imp[t].0@ && lookup(tab, imp[t].0@)
                == Some(imp[i].1);
        assert(provided(mods, imp[i], und[i]@));
        assert(provided(mods, imp[t], und[t]@));
    }
}

pub(crate) proof fn lemma_lookup_prefix(tab: Seq<(Seq<u8>, u64)>, k: int, name: Seq<u8>)
    requires
        0 <= k <= tab.len(),
        lookup(tab.subrange(0, k), name) is Some,
    ensures
        lookup(tab, name) == lookup(tab.subrange(0, k), name),
    decreases tab.len(),
{
    if k == tab.len() {
        assert(tab.subrange(0, k) =~= tab);
    } else {
        assert(tab.drop_last().subrange(0, k) =~= tab.subrange(0, k));
        lemma_lookup_prefix(tab.drop_last(), k, name);
    }
}

pub(crate) proof fn lemma_root_lookup_prefix(mods: Seq<ModuleView>, k: int, name: Seq<u8>)
    requires
        0 <= k <= mods.len(),
        root_lookup(mods.subrange(0, k), name) is Some,
    ensures
        root_lookup(mods, name) == root_lookup(mods.subrange(0, k), name),
    decreases mods.len(),
{
    if k == mods.len() {
        assert(mods.subrange(0, k) =~= mods);
    } else {
        assert(mods.drop_last().subrange(0, k) =~= mods.subrange(0, k));
        lemma_root_lookup_prefix(mods.drop_last(), k, name);
    }
}

/// Whether two byte strings are equal.
pub fn bytes_eq(a: &Vec<u8>, b: &Vec<u8>) -> (r: bool)
    ensures
        r == (a@ == b@),
{
    if a.len() != b.len() {
        return false;
    }
    let mut i: usize = 0;
    while i < a.len()
        invariant
            a@.len() == b@.len(),
            i <= a@.len(),
            forall|j: int| 0 <= j < i ==> a@[j] == b@[j],
        decreases a@.len() - i,
    {
        if a[i] != b[i] {
            return false;
        }
        i = i + 1;
    }
    assert(a@ =~= b@);
    true
}

/// What loading image `f`, with its groups at `text_base` and `data_base`,
/// does to a registry `old` whose next handle is `old_next`, giving `new`
/// with next handle `new_next` and result `r`: a missing provider or a taken
/// name fails the load; once both checks pass it fails exactly where no
/// handle is left, a group does not fit, a symbol cannot be placed or
/// relocating fails, and otherwise it succeeds; a failed load changes nothing.
pub open spec fn load_outcome(
    old: Seq<ModuleView>,
    old_next: u64,
    new: Seq<ModuleView>,
    new_next: u64,
    f: ELFFile,
    text_base: u64,
    data_base: u64,
    r: Result<u64, ElfModuleError>,
) -> bool {
    let lay = layout_of(f.sections@);
    let room = old_next < u64::MAX && fits(lay.0, text_base) && fits(lay.1, data_base);
    &&& r is Err ==> new == old && new_next == old_next
    &&& (r == Err::<u64, ElfModuleError>(ElfModuleError::UnresolvedSymbol)) <==> exists|t: int|
        0 <= t < f.undefined_names().len() && #[trigger] global_value(old, f.undefined_names()[t])
            is None
    &&& (r == Err::<u64, ElfModuleError>(ElfModuleError::SymbolConflict)) <==> (forall|t: int|
        0 <= t < f.undefined_names().len() ==> #[trigger] global_value(old, f.undefined_names()[t])
            is Some) && exists|t: int|
        0 <= t < f.defined_names().len() && #[trigger] global_value(old, f.defined_names()[t])
            is Some
    &&& r is Ok ==> r->Ok_0 == old_next && new_next == old_next + 1 && loaded(
        old,
        new,
        f,
        r->Ok_0,
        text_base,
        data_base,
    )
    &&& checks_pass(old, f) ==> ((r == Err::<u64, ElfModuleError>(
        ElfModuleError::AllocationFailed,
    )) <==> !room)
    &&& checks_pass(old, f) && room && has_fault(f) ==> r is Err && exists|k: int, j: int|
        #[trigger] is_entry(f.sections@, k, j) && symbol_fault(
            entry_sym(&f, k, j),
            f.sections@.len() as int,
        ) == Some(r->Err_0)
    &&& checks_pass(old, f) && room && !has_fault(f) ==> match relocation_outcome(
        old,
        f,
        text_base,
        data_base,
    ) {
        Ok(m) => r is Ok && new.last().text == m.0 && new.last().data == m.1,
        Err(e) => r == Err::<u64, ElfModuleError>(e),
    }
}

/// The table with each `(name, value)` of `entries` added in order by
/// `or_insert`: the first entry of a name is the one that stays.
pub open spec fn insert_all(tab: Seq<(Seq<u8>, u64)>, entries: Seq<(Seq<u8>, u64)>) -> Seq<
    (Seq<u8>, u64),
>
    decreases entries.len(),
{
    if entries.len() == 0 {
        tab
    } else {
        or_insert(insert_all(tab, entries.drop_last()), entries.last().0, entries.last().1)
    }
}

/// The (name, value) pairs of a list of resolved imports.
pub open spec fn import_pairs(v: Seq<(Vec<u8>, u64, u64)>) -> Seq<(Seq<u8>, u64)> {
    v.map_values(|e: (Vec<u8>, u64, u64)| (e.0@, e.1))
}

/// Each imported name with the value the registry `mods` has for it.
pub open spec fn import_values(mods: Seq<ModuleView>, names: Seq<Seq<u8>>) -> Seq<(Seq<u8>, u64)> {
    Seq::new(names.len(), |t: int| (names[t], global_value(mods, names[t])->Some_0))
}

/// The table once entry `j` of symbol table `k` is published, if it is an
/// export: its name with its address, unless the name is there already.
pub open spec fn export_entry(
    tab: Seq<(Seq<u8>, u64)>,
    f: ELFFile,
    runtime: Seq<u64>,
    k: int,
    j: int,
) -> Seq<(Seq<u8>, u64)> {
    if is_export(entry_sym(&f, k, j)) {
        or_insert(tab, entry_name(&f, k, j), defined_value(entry_sym(&f, k, j), runtime))
    } else {
        tab
    }
}

/// The table once the first `n` entries of symbol table `k` are published.
pub open spec fn export_table_fold(
    tab: Seq<(Seq<u8>, u64)>,
    f: ELFFile,
    runtime: Seq<u64>,
    k: int,
    n: int,
) -> Seq<(Seq<u8>, u64)>
    decreases n,
{
    if n <= 0 {
        tab
    } else {
        export_entry(export_table_fold(tab, f, runtime, k, n - 1), f, runtime, k, n - 1)
    }
}

/// The table once the symbol tables among the first `k` sections are
/// published, in section order.
pub open spec fn exports_upto(tab: Seq<(Seq<u8>, u64)>, f: ELFFile, runtime: Seq<u64>, k: int) -> Seq<
    (Seq<u8>, u64),
>
    decreases k,
{
    if k <= 0 {
        tab
    } else {
        let p = exports_upto(tab, f, runtime, k - 1);
        if is_symtab(f.sections@, f.sections@[k - 1]) {
            export_table_fold(p, f, runtime, k - 1, entry_count(f.sections@[k - 1]))
        } else {
            p
        }
    }
}

} // verus!
