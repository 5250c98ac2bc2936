//! Loaded modules and the registry that owns them: symbol lookup, the load
//! pipeline and dependency-aware unloading.
use vstd::prelude::*;
use crate::bytes::entry_offset;
use crate::headers::{SHFlags, SHT_RELA, SHT_SYMTAB};
use crate::section::{
    Rela, Symbol, SHN_ABS, SHN_COMMON, decode_symbol, decode_rela, lemma_rela_past_end,
};
use crate::elf::{is_symtab, entry_count, symbol_entry, symbol_name, read_cstr, views};
use crate::elf::{ELFFile, ELFFileError, RelocError, layout_of};
use crate::model::{
    insert_all, import_pairs, import_values, export_entry, export_table_fold, exports_upto,
    load_outcome,
    after_unload, bytes_eq, checks_pass, copy_section, defined_value, entry_name, entry_sym,
    exported_as, final_value, fits, global_value, has_fault, has_module, import_found,
    imports_from, index_of, is_entry, is_export, late_error, lemma_layout_grows,
    lemma_lookup_prefix, lemma_or_insert, lemma_provides_step, lemma_reloc_same_look,
    lemma_root_lookup_prefix, lemma_section_fits, lemma_tab_agrees, lemma_table_err,
    lemma_upto_err, loaded, lookup, memory_upto, modules_view, or_insert, patch, placed_memory,
    placed_runtime, provided, provides, region_base, region_bytes, region_for, region_with,
    registry_look, rela_entry, rela_table_ok, reloc_error, reloc_one, reloc_table, reloc_upto,
    relocation_outcome, root_lookup, runtime_addr, same_shape, section_place_exec, spec_resolve,
    symbol_fault, table_look, table_view, with_dependents, without, zeroed_region,
};

verus! {

/// A block of memory that a module owns: its start address, the alignment it
/// was asked for, and its bytes.
pub struct Region {
    pub base: u64,
    pub align: u64,
    pub bytes: Vec<u8>,
}

/// What a region holds, as plain values.
pub struct RegionView {
    pub base: u64,
    pub align: u64,
    pub bytes: Seq<u8>,
}

impl View for Region {
    type V = RegionView;

    open spec fn view(&self) -> RegionView {
        RegionView { base: self.base, align: self.align, bytes: self.bytes@ }
    }
}

/// A loaded module. `dependents` holds the handles of the modules that import
/// from it, `dependencies` those of the modules it imports from, once per
/// import. Imports and exports share one symbol table; the first entry of a
/// name is the one that counts.
pub struct ElfModule {
    pub id: u64,
    pub dependents: Vec<u64>,
    pub dependencies: Vec<u64>,
    pub text_info: Option<Region>,
    pub data_info: Option<Region>,
    pub symbol_info: Vec<(Vec<u8>, u64)>,
}

/// A module as plain values.
pub struct ModuleView {
    pub id: u64,
    pub dependents: Seq<u64>,
    pub dependencies: Seq<u64>,
    pub text: Option<RegionView>,
    pub data: Option<RegionView>,
    pub symbols: Seq<(Seq<u8>, u64)>,
}

/// Why a module cannot be loaded.
#[derive(Clone, Copy, Debug, PartialEq, Eq, Structural)]
pub enum ElfModuleError {
    /// The image does not parse.
    Parse(ELFFileError),
    /// An imported name is exported by no loaded module.
    UnresolvedSymbol,
    /// A defined name is already exported by a loaded module.
    SymbolConflict,
    /// A symbol is a common symbol, which this loader does not place.
    CommonSymbolUnsupported,
    /// Memory for the module, or a handle for it, cannot be had.
    AllocationFailed,
    /// The image refers to a section, a symbol or a place that does not exist.
    Malformed,
    /// A relocation cannot be applied.
    Relocation(RelocError),
}

impl ElfModule {
    /// An empty module: no memory, no symbols, no edges.
    pub fn new() -> (r: ElfModule)
        ensures
            r@ == (ModuleView {
                id: 0,
                dependents: Seq::empty(),
                dependencies: Seq::empty(),
                text: None,
                data: None,
                symbols: Seq::empty(),
            }),
    {
        let r = ElfModule {
            id: 0,
            dependents: Vec::new(),
            dependencies: Vec::new(),
            text_info: None,
            data_info: None,
            symbol_info: Vec::new(),
        };
        assert(r@.symbols =~= Seq::empty());
        r
    }

    /// The value of `name` in this module's table.
    pub fn find_symbol(&self, name: &Vec<u8>) -> (r: Option<u64>)
        ensures
            r == lookup(self@.symbols, name@),
    {
        let n = self.symbol_info.len();
        let ghost tab = self@.symbols;
        let mut i: usize = 0;
        while i < n
            invariant
                n == self.symbol_info@.len(),
                tab == self@.symbols,
                tab.len() == n,
                i <= n,
                lookup(tab.subrange(0, i as int), name@) is None,
            decreases n - i,
        {
            let e = &self.symbol_info[i];
            proof {
                assert(tab.subrange(0, i + 1).drop_last() =~= tab.subrange(0, i as int));
                assert(tab[i as int] == (e.0@, e.1));
            }
            if bytes_eq(&e.0, name) {
                proof {
                    lemma_lookup_prefix(tab, i + 1, name@);
                }
                return Some(e.1);
            }
            i = i + 1;
        }
        assert(tab.subrange(0, n as int) =~= tab);
        None
    }

    /// Allocates the two memory groups that the image's layout asks for, zeroed,
    /// at the given start addresses. A group of size zero gets no memory.
    /// Allocation fails where a group does not fit in the address space.
    pub fn alloc_memory_with(&mut self, elf_file: &ELFFile, text_base: u64, data_base: u64) -> (r:
        Result<(), ElfModuleError>)
        requires
            elf_file.wf(),
        ensures
            r is Ok <==> fits(layout_of(elf_file.sections@).0, text_base) && fits(
                layout_of(elf_file.sections@).1,
                data_base,
            ),
            r is Err ==> r == Err::<(), ElfModuleError>(ElfModuleError::AllocationFailed)
                && final(self)@ == old(self)@,
            r is Ok ==> final(self)@ == (ModuleView {
                text: region_for(layout_of(elf_file.sections@).0, text_base),
                data: region_for(layout_of(elf_file.sections@).1, data_base),
                ..old(self)@
            }),
    {
        let (text, data) = elf_file.calculate_needed_size();
        if !(text.0 == 0 || (text_base != 0 && (text.1 <= 1 || text_base % text.1 == 0) && text.0
            <= usize::MAX as u128 && text_base as u128 + text.0 <= u64::MAX as u128)) {
            return Err(ElfModuleError::AllocationFailed);
        }
        if !(data.0 == 0 || (data_base != 0 && (data.1 <= 1 || data_base % data.1 == 0) && data.0
            <= usize::MAX as u128 && data_base as u128 + data.0 <= u64::MAX as u128)) {
            return Err(ElfModuleError::AllocationFailed);
        }
        self.text_info = zeroed_region(text, text_base);
        self.data_info = zeroed_region(data, data_base);
        Ok(())
    }

    /// Records each resolved import `(name, value, provider)`: the name and its
    /// value go into the table unless the name is there already, and the
    /// provider's handle goes into the dependencies.
    pub fn fill_undefined_symbols(&mut self, symbols: &Vec<(Vec<u8>, u64, u64)>)
        ensures
            final(self)@ == (ModuleView {
                symbols: final(self)@.symbols,
                dependencies: old(self)@.dependencies + symbols@.map_values(
                    |e: (Vec<u8>, u64, u64)| e.2,
                ),
                ..old(self)@
            }),
            final(self)@.symbols == insert_all(old(self)@.symbols, import_pairs(symbols@)),
            forall|i: int|
                0 <= i < symbols@.len() ==> lookup(final(self)@.symbols, #[trigger] symbols@[i].0@)
                    is Some,
            forall|n: Seq<u8>|
                lookup(old(self)@.symbols, n) is Some ==> #[trigger] lookup(final(self)@.symbols, n)
                    == lookup(old(self)@.symbols, n),
            forall|n: Seq<u8>|
                #[trigger] lookup(final(self)@.symbols, n) is Some ==> lookup(old(self)@.symbols, n)
                    == lookup(final(self)@.symbols, n) || exists|i: int|
                    0 <= i < symbols@.len() && symbols@[i].0@ == n && lookup(final(self)@.symbols, n)
                        == Some(symbols@[i].1),
    {
        let ghost start = self@;
        let n = symbols.len();
        let mut i: usize = 0;
        while i < n
            invariant
                n == symbols@.len(),
                i <= n,
                self@ == (ModuleView {
                    symbols: self@.symbols,
                    dependencies: start.dependencies + symbols@.subrange(0, i as int).map_values(
                        |e: (Vec<u8>, u64, u64)| e.2,
                    ),
                    ..start
                }),
                self@.symbols == insert_all(start.symbols, import_pairs(symbols@.subrange(0, i as int))),
                forall|k: int|
                    0 <= k < i ==> lookup(self@.symbols, #[trigger] symbols@[k].0@) is Some,
                forall|m: Seq<u8>|
                    lookup(start.symbols, m) is Some ==> #[trigger] lookup(self@.symbols, m)
                        == lookup(start.symbols, m),
                forall|m: Seq<u8>|
                    #[trigger] lookup(self@.symbols, m) is Some ==> lookup(start.symbols, m)
                        == lookup(self@.symbols, m) || exists|k: int|
                        0 <= k < i && symbols@[k].0@ == m && lookup(self@.symbols, m) == Some(
                            symbols@[k].1,
                        ),
            decreases n - i,
        {
            let e = &symbols[i];
            let ghost before = self@;
            self.add_symbol(e.0.clone(), e.1);
            self.dependencies.push(e.2);
            proof {
                lemma_or_insert(before.symbols, e.0@, e.1);
                assert(import_pairs(symbols@.subrange(0, i + 1)).drop_last() =~= import_pairs(
                    symbols@.subrange(0, i as int),
                ));
                assert(import_pairs(symbols@.subrange(0, i + 1)).last() == (e.0@, e.1));
                assert(symbols@.subrange(0, i + 1).map_values(|e: (Vec<u8>, u64, u64)| e.2)
                    =~= symbols@.subrange(0, i as int).map_values(|e: (Vec<u8>, u64, u64)| e.2).push(
                    e.2));
                assert(self@.dependencies =~= start.dependencies + symbols@.subrange(
                    0,
                    i + 1,
                ).map_values(|e: (Vec<u8>, u64, u64)| e.2));
                assert forall|m: Seq<u8>|
                    #[trigger] lookup(self@.symbols, m) is Some implies lookup(start.symbols, m)
                    == lookup(self@.symbols, m) || exists|k: int|
                    0 <= k < i + 1 && symbols@[k].0@ == m && lookup(self@.symbols, m) == Some(
                        symbols@[k].1,
                    ) by {
                    if lookup(before.symbols, m) is Some {
                    } else {
                        assert(symbols@[i as int].0@ == m && lookup(self@.symbols, m) == Some(
                            symbols@[i as int].1,
                        ));
                    }
                }
            }
            i = i + 1;
        }
        assert(symbols@.subrange(0, n as int) =~= symbols@);
    }

    /// Copies each allocatable section into its group, zero-filling zero-fill
    /// sections, and returns the address each section got (zero for a section
    /// that is not allocatable). The module's memory must be as
    /// `alloc_memory_with` left it for this image.
    pub fn load_into_memory(&mut self, elf_file: &ELFFile) -> (r: Vec<u64>)
        requires
            elf_file.wf(),
            old(self)@.text == region_for(layout_of(elf_file.sections@).0, old(self)@.text->Some_0.base),
            old(self)@.data == region_for(layout_of(elf_file.sections@).1, old(self)@.data->Some_0.base),
            old(self)@.text is Some ==> fits(layout_of(elf_file.sections@).0, old(self)@.text->Some_0.base),
            old(self)@.data is Some ==> fits(layout_of(elf_file.sections@).1, old(self)@.data->Some_0.base),
        ensures
            r@.len() == elf_file.sections@.len(),
            forall|k: int| 0 <= k < r@.len() ==> #[trigger] r@[k] == runtime_addr(
                elf_file.sections@,
                k,
                region_base(old(self)@.text),
                region_base(old(self)@.data),
            ),
            final(self)@.text == region_with(old(self)@.text, memory_upto(
                elf_file.image@,
                elf_file.sections@,
                elf_file.sections@.len() as int,
                region_bytes(old(self)@.text),
                region_bytes(old(self)@.data),
            ).0),
            final(self)@.data == region_with(old(self)@.data, memory_upto(
                elf_file.image@,
                elf_file.sections@,
                elf_file.sections@.len() as int,
                region_bytes(old(self)@.text),
                region_bytes(old(self)@.data),
            ).1),
            final(self)@.symbols == old(self)@.symbols,
            final(self)@.id == old(self)@.id,
            final(self)@.dependents == old(self)@.dependents,
            final(self)@.dependencies == old(self)@.dependencies,
            same_shape(final(self)@.text, old(self)@.text),
            same_shape(final(self)@.data, old(self)@.data),
    {
        let ghost secs = elf_file.sections@;
        let ghost b = elf_file.image@;
        let ghost t0 = region_bytes(self@.text);
        let ghost d0 = region_bytes(self@.data);
        let ghost text_view = self@.text;
        let ghost data_view = self@.data;
        let mut text = self.text_info.take();
        let mut data = self.data_info.take();
        let text_base: u64 = match &text { Some(r) => r.base, None => 0 };
        let data_base: u64 = match &data { Some(r) => r.base, None => 0 };
        assert(text_base == region_base(text_view));
        assert(data_base == region_base(data_view));
        let mut tbytes: Vec<u8> = Vec::new();
        let mut dbytes: Vec<u8> = Vec::new();
        if let Some(r) = &mut text {
            std::mem::swap(&mut r.bytes, &mut tbytes);
        }
        if let Some(r) = &mut data {
            std::mem::swap(&mut r.bytes, &mut dbytes);
        }
        assert(tbytes@ == t0);
        assert(dbytes@ == d0);
        let mut runtime: Vec<u64> = Vec::new();
        let n = elf_file.sections.len();
        let mut k: usize = 0;
        while k < n
            invariant
                elf_file.wf(),
                n == secs.len(),
                secs == elf_file.sections@,
                b == elf_file.image@,
                k <= n,
                text_view == region_for(layout_of(secs).0, text_base),
                data_view == region_for(layout_of(secs).1, data_base),
                text_view is Some ==> fits(layout_of(secs).0, text_base),
                data_view is Some ==> fits(layout_of(secs).1, data_base),
                t0 == region_bytes(text_view),
                d0 == region_bytes(data_view),
                tbytes@.len() == t0.len(),
                dbytes@.len() == d0.len(),
                (tbytes@, dbytes@) == memory_upto(b, secs, k as int, t0, d0),
                runtime@.len() == k,
                forall|q: int| 0 <= q < k ==> #[trigger] runtime@[q] == runtime_addr(
                    secs,
                    q,
                    text_base,
                    data_base,
                ),
            decreases n - k,
        {
            let sh = &elf_file.sections[k];
            if sh.sh_flags & SHFlags::ALLOC.bits() != 0 {
                proof {
                    lemma_section_fits(secs, k as int);
                    lemma_layout_grows(secs, k as int, k as int);
                }
                let write = sh.sh_flags & SHFlags::WRITE.bits() != 0;
                let place = section_place_exec(elf_file, k);
                if write {
                    if sh.sh_size != 0 {
                        copy_section(&mut dbytes, place as usize, &elf_file.image, sh);
                    }
                    runtime.push(data_base + place as u64);
                } else {
                    if sh.sh_size != 0 {
                        copy_section(&mut tbytes, place as usize, &elf_file.image, sh);
                    }
                    runtime.push(text_base + place as u64);
                }
            } else {
                runtime.push(0);
            }
            k = k + 1;
        }
        if let Some(r) = &mut text {
            std::mem::swap(&mut r.bytes, &mut tbytes);
        }
        if let Some(r) = &mut data {
            std::mem::swap(&mut r.bytes, &mut dbytes);
        }
        self.text_info = text;
        self.data_info = data;
        runtime
    }

    /// Publishes the exports of symbol table `k`; see `update_symbol_value_with`.
    fn export_table(&mut self, elf_file: &ELFFile, runtime: &Vec<u64>, k: usize) -> (r: Result<
        (),
        ElfModuleError,
    >)
        requires
            runtime@.len() == elf_file.sections@.len(),
            k < elf_file.sections@.len(),
            is_symtab(elf_file.sections@, elf_file.sections@[k as int]),
        ensures
            final(self)@ == (ModuleView { symbols: final(self)@.symbols, ..old(self)@ }),
            r is Ok ==> final(self)@.symbols == export_table_fold(
                old(self)@.symbols,
                *elf_file,
                runtime@,
                k as int,
                entry_count(elf_file.sections@[k as int]),
            ),
            r is Ok ==> forall|j: int|
                #[trigger] is_entry(elf_file.sections@, k as int, j) ==> symbol_fault(
                    entry_sym(elf_file, k as int, j),
                    elf_file.sections@.len() as int,
                ) is None,
            r is Err ==> exists|j: int|
                #[trigger] is_entry(elf_file.sections@, k as int, j) && symbol_fault(
                    entry_sym(elf_file, k as int, j),
                    elf_file.sections@.len() as int,
                ) == Some(r->Err_0),
            r is Ok ==> forall|j: int|
                #[trigger] is_entry(elf_file.sections@, k as int, j) && is_export(
                    entry_sym(elf_file, k as int, j),
                ) ==> lookup(final(self)@.symbols, entry_name(elf_file, k as int, j)) is Some,
            forall|m: Seq<u8>|
                lookup(old(self)@.symbols, m) is Some ==> #[trigger] lookup(final(self)@.symbols, m)
                    == lookup(old(self)@.symbols, m),
            forall|m: Seq<u8>|
                #[trigger] lookup(final(self)@.symbols, m) is Some ==> lookup(old(self)@.symbols, m)
                    == lookup(final(self)@.symbols, m) || exported_as(
                    elf_file,
                    runtime@,
                    k as int,
                    m,
                    lookup(final(self)@.symbols, m)->Some_0,
                ),
    {
        let ghost start = self@;
        let ghost secs = elf_file.sections@;
        let n = elf_file.sections.len();
        let sh = &elf_file.sections[k];
        let count: u64 = if sh.sh_entsize == 0 {
            0
        } else {
            sh.sh_size / sh.sh_entsize
        };
        let strtab_off = elf_file.sections[sh.sh_link as usize].sh_offset;
        let mut j: u64 = 0;
        while j < count
            invariant
                n == secs.len(),
                secs == elf_file.sections@,
                runtime@.len() == n,
                k < n,
                *sh == secs[k as int],
                is_symtab(secs, *sh),
                count == entry_count(*sh),
                strtab_off == secs[sh.sh_link as int].sh_offset,
                j <= count,
                start == old(self)@,
                self@ == (ModuleView { symbols: self@.symbols, ..start }),
                forall|jj: int|
                    #[trigger] is_entry(secs, k as int, jj) && jj < j ==> symbol_fault(
                        entry_sym(elf_file, k as int, jj),
                        n as int,
                    ) is None,
                forall|jj: int|
                    #[trigger] is_entry(secs, k as int, jj) && jj < j && is_export(
                        entry_sym(elf_file, k as int, jj),
                    ) ==> lookup(self@.symbols, entry_name(elf_file, k as int, jj)) is Some,
                forall|m: Seq<u8>|
                    lookup(start.symbols, m) is Some ==> #[trigger] lookup(self@.symbols, m)
                        == lookup(start.symbols, m),
                forall|m: Seq<u8>|
                    #[trigger] lookup(self@.symbols, m) is Some ==> lookup(start.symbols, m)
                        == lookup(self@.symbols, m) || exported_as(
                        elf_file,
                        runtime@,
                        k as int,
                        m,
                        lookup(self@.symbols, m)->Some_0,
                    ),
                self@.symbols == export_table_fold(start.symbols, *elf_file, runtime@, k as int, j as int),
            decreases count - j,
        {
            let ghost prev = self@.symbols;
            let _l = elf_file.image.len();
            let s = decode_symbol(
                &elf_file.image,
                entry_offset(sh.sh_offset, j, sh.sh_entsize),
                elf_file.is64,
            );
            assert(s == entry_sym(elf_file, k as int, j as int)) by {
                reveal(entry_sym);
            }
            assert(is_entry(secs, k as int, j as int));
            if s.st_name != 0 {
                if s.st_shndx == SHN_COMMON {
                    return Err(ElfModuleError::CommonSymbolUnsupported);
                }
                if s.st_shndx != 0 {
                    let value = if s.st_shndx == SHN_ABS {
                        s.st_value
                    } else if (s.st_shndx as usize) < n {
                        s.st_value.wrapping_add(runtime[s.st_shndx as usize])
                    } else {
                        return Err(ElfModuleError::Malformed);
                    };
                    if s.st_info / 16 == 1 {
                        let off = match strtab_off.checked_add(s.st_name as u64) {
                            Some(o) => o,
                            None => u64::MAX,
                        };
                        let name = read_cstr(&elf_file.image, off);
                        assert(name@ == entry_name(elf_file, k as int, j as int)) by {
                            reveal(entry_sym);
                            reveal(entry_name);
                        }
                        let ghost before = self@.symbols;
                        self.add_symbol(name, value);
                        proof {
                            lemma_or_insert(before, name@, value);
                            assert(value == defined_value(s, runtime@));
                            assert(is_export(s));
                            assert forall|m: Seq<u8>|
                                #[trigger] lookup(self@.symbols, m) is Some implies lookup(
                                    start.symbols,
                                    m,
                                ) == lookup(self@.symbols, m) || exported_as(
                                elf_file,
                                runtime@,
                                k as int,
                                m,
                                lookup(self@.symbols, m)->Some_0,
                            ) by {
                                if lookup(before, m) is None {
                                    assert(is_entry(secs, k as int, j as int));
                                }
                            }
                        }
                    }
                }
            }
            assert(self@.symbols == export_entry(prev, *elf_file, runtime@, k as int, j as int));
            j = j + 1;
        }
        Ok(())
    }

    /// Publishes the module's exports: each named global defined symbol goes
    /// into the table with its address, unless its name is there already.
    /// Fails on a named common symbol or a named symbol of a section that does
    /// not exist. `runtime` holds each section's address.
    pub fn update_symbol_value_with(&mut self, elf_file: &ELFFile, runtime: &Vec<u64>) -> (r: Result<
        (),
        ElfModuleError,
    >)
        requires
            runtime@.len() == elf_file.sections@.len(),
        ensures
            final(self)@ == (ModuleView { symbols: final(self)@.symbols, ..old(self)@ }),
            r is Ok ==> final(self)@.symbols == exports_upto(
                old(self)@.symbols,
                *elf_file,
                runtime@,
                elf_file.sections@.len() as int,
            ),
            r is Ok ==> forall|k: int, j: int|
                #[trigger] is_entry(elf_file.sections@, k, j) ==> symbol_fault(
                    entry_sym(elf_file, k, j),
                    elf_file.sections@.len() as int,
                ) is None,
            r is Err ==> exists|k: int, j: int|
                #[trigger] is_entry(elf_file.sections@, k, j) && symbol_fault(
                    entry_sym(elf_file, k, j),
                    elf_file.sections@.len() as int,
                ) == Some(r->Err_0),
            r is Ok ==> forall|k: int, j: int|
                #[trigger] is_entry(elf_file.sections@, k, j) && is_export(entry_sym(elf_file, k, j))
                    ==> lookup(final(self)@.symbols, entry_name(elf_file, k, j)) is Some,
            forall|m: Seq<u8>|
                lookup(old(self)@.symbols, m) is Some ==> #[trigger] lookup(final(self)@.symbols, m)
                    == lookup(old(self)@.symbols, m),
            forall|m: Seq<u8>|
                #[trigger] lookup(final(self)@.symbols, m) is Some ==> lookup(old(self)@.symbols, m)
                    == lookup(final(self)@.symbols, m) || exists|k: int|
                    exported_as(elf_file, runtime@, k, m, lookup(final(self)@.symbols, m)->Some_0),
    {
        let ghost start = self@;
        let ghost secs = elf_file.sections@;
        let n = elf_file.sections.len();
        let mut k: usize = 0;
        while k < n
            invariant
                n == secs.len(),
                secs == elf_file.sections@,
                runtime@.len() == n,
                k <= n,
                start == old(self)@,
                self@ == (ModuleView { symbols: self@.symbols, ..start }),
                forall|kk: int, j: int|
                    #[trigger] is_entry(secs, kk, j) && kk < k ==> symbol_fault(
                        entry_sym(elf_file, kk, j),
                        n as int,
                    ) is None,
                forall|kk: int, j: int|
                    #[trigger] is_entry(secs, kk, j) && kk < k && is_export(entry_sym(elf_file, kk, j))
                        ==> lookup(self@.symbols, entry_name(elf_file, kk, j)) is Some,
                forall|m: Seq<u8>|
                    lookup(start.symbols, m) is Some ==> #[trigger] lookup(self@.symbols, m)
                        == lookup(start.symbols, m),
                forall|m: Seq<u8>|
                    #[trigger] lookup(self@.symbols, m) is Some ==> lookup(start.symbols, m)
                        == lookup(self@.symbols, m) || exists|kk: int|
                        exported_as(elf_file, runtime@, kk, m, lookup(self@.symbols, m)->Some_0),
                self@.symbols == exports_upto(start.symbols, *elf_file, runtime@, k as int),
            decreases n - k,
        {
            let sh = &elf_file.sections[k];
            if sh.sh_type == SHT_SYMTAB && (sh.sh_link as usize) < n {
                let ghost mid = self@.symbols;
                let res = self.export_table(elf_file, runtime, k);
                if res.is_err() {
                    return res;
                }
                proof {
                    assert forall|kk: int, j: int|
                        #[trigger] is_entry(secs, kk, j) && kk < k && is_export(entry_sym(elf_file, kk, j))
                        implies lookup(self@.symbols, entry_name(elf_file, kk, j)) is Some by {
                        assert(lookup(mid, entry_name(elf_file, kk, j)) is Some);
                    }
                    assert forall|m: Seq<u8>|
                        #[trigger] lookup(self@.symbols, m) is Some implies lookup(start.symbols, m)
                        == lookup(self@.symbols, m) || exists|kk: int|
                        exported_as(elf_file, runtime@, kk, m, lookup(self@.symbols, m)->Some_0) by {
                        if lookup(mid, m) is Some {
                            assert(lookup(self@.symbols, m) == lookup(mid, m));
                        } else if lookup(self@.symbols, m) != lookup(mid, m) {
                            assert(exported_as(elf_file, runtime@, k as int, m, lookup(self@.symbols, m)->Some_0));
                        }
                    }
                }
            } else {
                assert(forall|j: int| !is_entry(secs, k as int, j));
            }
            k = k + 1;
        }
        Ok(())
    }

    /// The final value of symbol `s` of symbol table `symsec`, given each
    /// section's address in `runtime`: an unnamed symbol keeps its value, a
    /// named undefined one takes the value its name has in this module's table
    /// (else keeps its value), an absolute one keeps its value, and any other
    /// gets its value plus its section's address. Symbol values are not
    /// written back into the image; relocation asks for them here.
    pub fn final_value_of(
        &self,
        elf_file: &ELFFile,
        runtime: &Vec<u64>,
        symsec: usize,
        s: &Symbol,
    ) -> (r: Result<u64, ElfModuleError>)
        requires
            runtime@.len() == elf_file.sections@.len(),
            symsec < elf_file.sections@.len(),
            is_symtab(elf_file.sections@, elf_file.sections@[symsec as int]),
        ensures
            r == final_value(
                table_look(self@.symbols),
                elf_file.image@,
                elf_file.sections@,
                runtime@,
                elf_file.sections@[symsec as int],
                *s,
            ),
            r is Err ==> late_error(r->Err_0) && reloc_error(r->Err_0),
    {
        let n = elf_file.sections.len();
        if s.st_name == 0 {
            return Ok(s.st_value);
        }
        if s.st_shndx == SHN_COMMON {
            return Err(ElfModuleError::CommonSymbolUnsupported);
        }
        if s.st_shndx == 0 {
            let sh = &elf_file.sections[symsec];
            let strtab_off = elf_file.sections[sh.sh_link as usize].sh_offset;
            let off = match strtab_off.checked_add(s.st_name as u64) {
                Some(o) => o,
                None => u64::MAX,
            };
            let _l = elf_file.image.len();
            let name = read_cstr(&elf_file.image, off);
            assert(name@ == symbol_name(elf_file.image@, elf_file.sections@, *sh, *s));
            return match self.find_symbol(&name) {
                Some(v) => Ok(v),
                None => Ok(s.st_value),
            };
        }
        if s.st_shndx == SHN_ABS {
            return Ok(s.st_value);
        }
        if (s.st_shndx as usize) < n {
            Ok(s.st_value.wrapping_add(runtime[s.st_shndx as usize]))
        } else {
            Err(ElfModuleError::Malformed)
        }
    }

    /// Applies one relocation of a table whose symbols are in section `symsec`
    /// and whose target section starts at `dst_base`. The patch goes to the
    /// group that holds the target address, else to the writable group.
    fn apply_one(
        &mut self,
        elf_file: &ELFFile,
        runtime: &Vec<u64>,
        symsec: usize,
        dst_base: u64,
        rela: &Rela,
    ) -> (r: Result<(), ElfModuleError>)
        requires
            runtime@.len() == elf_file.sections@.len(),
            symsec < elf_file.sections@.len(),
            is_symtab(elf_file.sections@, elf_file.sections@[symsec as int]),
        ensures
            final(self)@.symbols == old(self)@.symbols,
            final(self)@.id == old(self)@.id,
            final(self)@.dependents == old(self)@.dependents,
            final(self)@.dependencies == old(self)@.dependencies,
            same_shape(final(self)@.text, old(self)@.text),
            same_shape(final(self)@.data, old(self)@.data),
            r is Err ==> late_error(r->Err_0) && reloc_error(r->Err_0),
            match reloc_one(
                table_look(old(self)@.symbols),
                *elf_file,
                runtime@,
                symsec as int,
                dst_base,
                *rela,
                (old(self)@.text, old(self)@.data),
            ) {
                Ok(m) => r is Ok && final(self)@.text == m.0 && final(self)@.data == m.1,
                Err(e) => r == Err::<(), ElfModuleError>(e),
            },
    {
        let sh = &elf_file.sections[symsec];
        let count: u64 = if sh.sh_entsize == 0 {
            0
        } else {
            sh.sh_size / sh.sh_entsize
        };
        let idx = rela.symbol_offset();
        if idx >= count {
            return Err(ElfModuleError::Malformed);
        }
        let _l = elf_file.image.len();
        let s = decode_symbol(&elf_file.image, entry_offset(sh.sh_offset, idx, sh.sh_entsize), elf_file.is64);
        assert(s == symbol_entry(elf_file.image@, *sh, idx as int, elf_file.is64));
        let value = match self.final_value_of(elf_file, runtime, symsec, &s) {
            Ok(v) => v,
            Err(e) => {
                return Err(e);
            },
        };
        let sym = Symbol { st_value: value, ..s };
        let addr = dst_base.wrapping_add(rela.r_offset);
        let in_text = match &self.text_info {
            Some(t) => t.base <= addr && ((addr - t.base) as u128) < (t.bytes.len() as u128),
            None => false,
        };
        let res = if in_text {
            match &mut self.text_info {
                Some(t) => ELFFile::relocateadd(rela, &sym, &mut t.bytes, t.base, addr),
                None => Ok(()),
            }
        } else {
            match &mut self.data_info {
                Some(d) => ELFFile::relocateadd(rela, &sym, &mut d.bytes, d.base, addr),
                None => Err(RelocError::OutOfRange),
            }
        };
        match res {
            Ok(()) => Ok(()),
            Err(e) => Err(ElfModuleError::Relocation(e)),
        }
    }

    /// Applies every relocation of every relocation table, each with the final
    /// value of its symbol, to the module's memory, in table order and then in
    /// entry order. Fails on a table whose symbol table or target section does
    /// not exist, on a relocation whose symbol does not exist, and where a
    /// relocation cannot be applied; the first failure stops the rest.
    pub fn relocate_symbols_with(&mut self, elf_file: &ELFFile, runtime: &Vec<u64>) -> (r: Result<
        (),
        ElfModuleError,
    >)
        requires
            runtime@.len() == elf_file.sections@.len(),
        ensures
            final(self)@.symbols == old(self)@.symbols,
            final(self)@.id == old(self)@.id,
            final(self)@.dependents == old(self)@.dependents,
            final(self)@.dependencies == old(self)@.dependencies,
            same_shape(final(self)@.text, old(self)@.text),
            same_shape(final(self)@.data, old(self)@.data),
            r is Err ==> late_error(r->Err_0) && reloc_error(r->Err_0),
            match reloc_upto(
                table_look(old(self)@.symbols),
                *elf_file,
                runtime@,
                elf_file.sections@.len() as int,
                (old(self)@.text, old(self)@.data),
            ) {
                Ok(m) => r is Ok && final(self)@.text == m.0 && final(self)@.data == m.1,
                Err(e) => r == Err::<(), ElfModuleError>(e),
            },
    {
        let ghost start = self@;
        let ghost look = table_look(start.symbols);
        let ghost mem0 = (start.text, start.data);
        let n = elf_file.sections.len();
        let mut k: usize = 0;
        while k < n
            invariant
                n == elf_file.sections@.len(),
                runtime@.len() == n,
                k <= n,
                start == old(self)@,
                look == table_look(start.symbols),
                mem0 == (start.text, start.data),
                self@.symbols == start.symbols,
                self@.id == start.id,
                self@.dependents == start.dependents,
                self@.dependencies == start.dependencies,
                same_shape(self@.text, start.text),
                same_shape(self@.data, start.data),
                reloc_upto(look, *elf_file, runtime@, k as int, mem0) == Ok::<
                    (Option<RegionView>, Option<RegionView>),
                    ElfModuleError,
                >((self@.text, self@.data)),
            decreases n - k,
        {
            let sh = &elf_file.sections[k];
            if sh.sh_type == SHT_RELA {
                let link = sh.sh_link as usize;
                let info = sh.sh_info as usize;
                if link >= n || info >= n || elf_file.sections[link].sh_type != SHT_SYMTAB
                    || (elf_file.sections[link].sh_link as usize) >= n {
                    proof {
                        lemma_upto_err(look, *elf_file, runtime@, k + 1, n as int, mem0);
                    }
                    return Err(ElfModuleError::Malformed);
                }
                let dst_base = runtime[info];
                let count: u64 = if sh.sh_entsize == 0 {
                    0
                } else {
                    sh.sh_size / sh.sh_entsize
                };
                let ghost mk = (self@.text, self@.data);
                let mut j: u64 = 0;
                while j < count
                    invariant
                        n == elf_file.sections@.len(),
                        runtime@.len() == n,
                        k < n,
                        *sh == elf_file.sections@[k as int],
                        sh.sh_type == SHT_RELA,
                        rela_table_ok(elf_file.sections@, *sh),
                        link == sh.sh_link,
                        dst_base == runtime@[sh.sh_info as int],
                        is_symtab(elf_file.sections@, elf_file.sections@[link as int]),
                        count == entry_count(*sh),
                        j <= count,
                        start == old(self)@,
                        look == table_look(start.symbols),
                        mem0 == (start.text, start.data),
                        self@.symbols == start.symbols,
                        self@.id == start.id,
                        self@.dependents == start.dependents,
                        self@.dependencies == start.dependencies,
                        same_shape(self@.text, start.text),
                        same_shape(self@.data, start.data),
                        reloc_upto(look, *elf_file, runtime@, k as int, mem0) == Ok::<
                            (Option<RegionView>, Option<RegionView>),
                            ElfModuleError,
                        >(mk),
                        reloc_table(look, *elf_file, runtime@, k as int, j as int, mk) == Ok::<
                            (Option<RegionView>, Option<RegionView>),
                            ElfModuleError,
                        >((self@.text, self@.data)),
                    decreases count - j,
                {
                    let _l = elf_file.image.len();
                    let off = entry_offset(sh.sh_offset, j, sh.sh_entsize);
                    let rela = decode_rela(&elf_file.image, off, elf_file.is64);
                    proof {
                        let true_off = sh.sh_offset + j * sh.sh_entsize;
                        if true_off > u64::MAX {
                            lemma_rela_past_end(elf_file.image@, off as int, true_off, elf_file.is64);
                        }
                        assert(rela == rela_entry(*elf_file, *sh, j as int));
                    }
                    let res = self.apply_one(elf_file, runtime, link, dst_base, &rela);
                    if res.is_err() {
                        proof {
                            lemma_table_err(look, *elf_file, runtime@, k as int, j + 1, count as int, mk);
                            lemma_upto_err(look, *elf_file, runtime@, k + 1, n as int, mem0);
                        }
                        return res;
                    }
                    j = j + 1;
                }
            }
            k = k + 1;
        }
        Ok(())
    }

    /// Builds the module of an image with handle `h`: allocates its groups,
    /// records its imports, copies its sections, publishes its exports and
    /// applies its relocations.
    fn build(
        elf_file: &ELFFile,
        imports: &Vec<(Vec<u8>, u64, u64)>,
        h: u64,
        text_base: u64,
        data_base: u64,
    ) -> (r: (Result<ElfModule, ElfModuleError>, Ghost<Seq<(Seq<u8>, u64)>>))
        requires
            elf_file.wf(),
        ensures
            r.0 is Ok ==> {
                let m = r.0->Ok_0@;
                &&& m.id == h
                &&& m.dependents.len() == 0
                &&& m.dependencies == imports@.map_values(|e: (Vec<u8>, u64, u64)| e.2)
                &&& forall|t: int|
                    0 <= t < imports@.len() ==> #[trigger] import_found(m.symbols, imports@, t)
                &&& forall|k: int, j: int|
                    #[trigger] is_entry(elf_file.sections@, k, j) && is_export(
                        entry_sym(elf_file, k, j),
                    ) ==> lookup(m.symbols, entry_name(elf_file, k, j)) is Some
                &&& m.symbols == exports_upto(
                    insert_all(Seq::empty(), import_pairs(imports@)),
                    *elf_file,
                    placed_runtime(*elf_file, text_base, data_base),
                    elf_file.sections@.len() as int,
                )
                &&& same_shape(m.text, region_for(layout_of(elf_file.sections@).0, text_base))
                &&& same_shape(m.data, region_for(layout_of(elf_file.sections@).1, data_base))
            },
            r.0 is Err ==> late_error(r.0->Err_0),
            !(fits(layout_of(elf_file.sections@).0, text_base) && fits(
                layout_of(elf_file.sections@).1,
                data_base,
            )) <==> r.0 == Err::<ElfModule, ElfModuleError>(ElfModuleError::AllocationFailed),
            fits(layout_of(elf_file.sections@).0, text_base) && fits(
                layout_of(elf_file.sections@).1,
                data_base,
            ) && has_fault(*elf_file) ==> r.0 is Err && exists|k: int, j: int|
                #[trigger] is_entry(elf_file.sections@, k, j) && symbol_fault(
                    entry_sym(elf_file, k, j),
                    elf_file.sections@.len() as int,
                ) == Some(r.0->Err_0),
            fits(layout_of(elf_file.sections@).0, text_base) && fits(
                layout_of(elf_file.sections@).1,
                data_base,
            ) && !has_fault(*elf_file) ==> (forall|t: int|
                0 <= t < imports@.len() ==> #[trigger] import_found(r.1@, imports@, t)) && match reloc_upto(
                table_look(r.1@),
                *elf_file,
                placed_runtime(*elf_file, text_base, data_base),
                elf_file.sections@.len() as int,
                placed_memory(*elf_file, text_base, data_base),
            ) {
                Ok(m) => r.0 is Ok && r.0->Ok_0@.symbols == r.1@ && r.0->Ok_0@.text == m.0
                    && r.0->Ok_0@.data == m.1,
                Err(e) => r.0 == Err::<ElfModule, ElfModuleError>(e),
            },
    {
        let ghost imp = imports@;
        let mut em = ElfModule::new();
        em.id = h;
        match em.alloc_memory_with(elf_file, text_base, data_base) {
            Ok(()) => {},
            Err(e) => {
                return (Err(e), Ghost(Seq::empty()));
            },
        }
        em.fill_undefined_symbols(imports);
        let ghost filled = em@;
        proof {
            assert(imp.map_values(|e: (Vec<u8>, u64, u64)| e.2) =~= em@.dependencies);
            assert forall|t: int| 0 <= t < imp.len() implies #[trigger] import_found(
                filled.symbols,
                imp,
                t,
            ) by {
                assert(lookup(filled.symbols, imp[t].0@) is Some);
            }
        }
        let runtime = em.load_into_memory(elf_file);
        let ghost placed = em@;
        proof {
            assert(runtime@ =~= placed_runtime(*elf_file, text_base, data_base));
            assert((placed.text, placed.data) == placed_memory(*elf_file, text_base, data_base));
        }
        match em.update_symbol_value_with(elf_file, &runtime) {
            Ok(()) => {},
            Err(e) => {
                return (Err(e), Ghost(Seq::empty()));
            },
        }
        let ghost exported = em@;
        proof {
            assert forall|t: int| 0 <= t < imp.len() implies #[trigger] import_found(
                exported.symbols,
                imp,
                t,
            ) by {
                assert(import_found(filled.symbols, imp, t));
                assert(lookup(placed.symbols, imp[t].0@) is Some);
            }
        }
        match em.relocate_symbols_with(elf_file, &runtime) {
            Ok(()) => {},
            Err(e) => {
                return (Err(e), Ghost(exported.symbols));
            },
        }
        proof {
            assert forall|t: int| 0 <= t < imp.len() implies #[trigger] import_found(em@.symbols, imp, t) by {
                assert(import_found(exported.symbols, imp, t));
            }
        }
        (Ok(em), Ghost(exported.symbols))
    }

    /// Adds `(name, value)` to the table unless `name` is already there.
    pub fn add_symbol(&mut self, name: Vec<u8>, value: u64)
        ensures
            final(self)@ == (ModuleView {
                symbols: or_insert(old(self)@.symbols, name@, value),
                ..old(self)@
            }),
    {
        if self.find_symbol(&name).is_none() {
            let ghost before = self.symbol_info@;
            self.symbol_info.push((name, value));
            proof {
                assert(table_view(self.symbol_info@) =~= table_view(before).push((name@, value)));
            }
        }
    }
}

/// The registry of loaded modules, in load order, and the handle that the next
/// loaded module gets.
pub struct ElfModuleRoot {
    pub modules: Vec<ElfModule>,
    pub next_id: u64,
}

impl View for ElfModuleRoot {
    type V = Seq<ModuleView>;

    open spec fn view(&self) -> Seq<ModuleView> {
        modules_view(self.modules@)
    }
}

pub proof fn lemma_index_of(mods: Seq<ModuleView>, h: u64)
    ensures
        match index_of(mods, h) {
            Some(i) => 0 <= i < mods.len() && mods[i].id == h && forall|j: int|
                0 <= j < i ==> mods[j].id != h,
            None => forall|j: int| 0 <= j < mods.len() ==> mods[j].id != h,
        },
    decreases mods.len(),
{
    if mods.len() > 0 {
        let p = mods.drop_last();
        lemma_index_of(p, h);
        assert(forall|j: int| 0 <= j < p.len() ==> p[j] == mods[j]);
    }
}

proof fn lemma_without_prefix(s: Seq<u64>, k: int, h: u64)
    requires
        0 <= k < s.len(),
    ensures
        without(s.subrange(0, k + 1), h) == if s[k] == h {
            without(s.subrange(0, k), h)
        } else {
            without(s.subrange(0, k), h).push(s[k])
        },
{
    assert(s.subrange(0, k + 1).drop_last() =~= s.subrange(0, k));
}

proof fn lemma_without_bound(s: Seq<u64>, h: u64, bound: u64)
    requires
        forall|k: int| 0 <= k < s.len() ==> #[trigger] s[k] < bound,
    ensures
        forall|k: int| 0 <= k < without(s, h).len() ==> #[trigger] without(s, h)[k] < bound,
    decreases s.len(),
{
    if s.len() > 0 {
        let p = s.drop_last();
        assert(forall|k: int| 0 <= k < p.len() ==> p[k] == s[k]);
        lemma_without_bound(p, h, bound);
        let w = without(p, h);
        if s.last() != h {
            assert(without(s, h) == w.push(s.last()));
            assert forall|k: int| 0 <= k < without(s, h).len() implies #[trigger] without(s, h)[k]
                < bound by {
                if k < w.len() {
                    assert(without(s, h)[k] == w[k]);
                }
            }
        }
    }
}

/// `s` without the occurrences of `h`.
fn without_exec(s: &Vec<u64>, h: u64) -> (r: Vec<u64>)
    ensures
        r@ == without(s@, h),
{
    let mut out: Vec<u64> = Vec::new();
    let mut i: usize = 0;
    while i < s.len()
        invariant
            i <= s@.len(),
            out@ == without(s@.subrange(0, i as int), h),
        decreases s@.len() - i,
    {
        proof {
            lemma_without_prefix(s@, i as int, h);
        }
        if s[i] != h {
            out.push(s[i]);
        }
        i = i + 1;
    }
    assert(s@.subrange(0, s@.len() as int) =~= s@);
    out
}

impl ElfModuleRoot {
    /// Handles are distinct, and each is below the next one to be given out.
    pub open spec fn wf(&self) -> bool {
        &&& forall|i: int| 0 <= i < self@.len() ==> #[trigger] self@[i].id < self.next_id
        &&& forall|i: int, j: int|
            0 <= i < j < self@.len() ==> #[trigger] self@[i].id != #[trigger] self@[j].id
        &&& forall|i: int, k: int|
            0 <= i < self@.len() && 0 <= k < self@[i].dependents.len() ==> #[trigger] self@[i].dependents[k]
                < self.next_id
    }

    /// An empty registry.
    pub fn new() -> (r: ElfModuleRoot)
        ensures
            r@ == Seq::<ModuleView>::empty(),
            r.wf(),
    {
        let r = ElfModuleRoot { modules: Vec::new(), next_id: 0 };
        assert(r@ =~= Seq::<ModuleView>::empty());
        r
    }

    /// The value of `name` in the first module, in load order, that has it.
    pub fn find_symbol(&self, name: &Vec<u8>) -> (r: Option<u64>)
        ensures
            r == global_value(self@, name@),
    {
        match self.find_symbol_and_weak(name) {
            Some(p) => Some(p.0),
            None => None,
        }
    }

    /// As `find_symbol`, with the handle of the module that has the name.
    fn find_symbol_and_weak(&self, name: &Vec<u8>) -> (r: Option<(u64, u64)>)
        ensures
            match root_lookup(self@, name@) {
                Some(p) => 0 <= p.1 < self@.len() && r == Some((p.0, self@[p.1].id)),
                None => r is None,
            },
    {
        let n = self.modules.len();
        let ghost mods = self@;
        let mut i: usize = 0;
        while i < n
            invariant
                n == self.modules@.len(),
                mods == self@,
                mods.len() == n,
                i <= n,
                root_lookup(mods.subrange(0, i as int), name@) is None,
            decreases n - i,
        {
            let m = &self.modules[i];
            proof {
                assert(mods.subrange(0, i + 1).drop_last() =~= mods.subrange(0, i as int));
                assert(mods[i as int] == m@);
            }
            match m.find_symbol(name) {
                Some(v) => {
                    proof {
                        lemma_root_lookup_prefix(mods, i + 1, name@);
                    }
                    return Some((v, m.id));
                },
                None => {},
            }
            i = i + 1;
        }
        assert(mods.subrange(0, n as int) =~= mods);
        None
    }

    /// The position of the module whose handle is `h`.
    fn position(&self, h: u64) -> (r: Option<usize>)
        ensures
            r is Some <==> index_of(self@, h) is Some,
            r is Some ==> index_of(self@, h) == Some(r->Some_0 as int) && r->Some_0
                < self.modules@.len() && self@[r->Some_0 as int] == self.modules@[r->Some_0 as int]@,
    {
        proof {
            lemma_index_of(self@, h);
        }
        let n = self.modules.len();
        let mut i: usize = 0;
        while i < n
            invariant
                n == self.modules@.len(),
                i <= n,
                forall|j: int| 0 <= j < i ==> self@[j].id != h,
            decreases n - i,
        {
            if self.modules[i].id == h {
                proof {
                    lemma_index_of(self@, h);
                    assert(self@[i as int].id == h);
                }
                return Some(i);
            }
            i = i + 1;
        }
        proof {
            lemma_index_of(self@, h);
        }
        None
    }

    /// Looks `name` up through `handle`: in that module's own table first, then
    /// in the whole registry. A handle of no loaded module searches the registry.
    pub fn resolve(&self, handle: Option<u64>, name: &Vec<u8>) -> (r: Option<u64>)
        ensures
            r == spec_resolve(self@, handle, name@),
    {
        if let Some(h) = handle {
            if let Some(i) = self.position(h) {
                let found = self.modules[i].find_symbol(name);
                assert(index_of(self@, h) == Some(i as int));
                assert(found == lookup(self@[i as int].symbols, name@));
                if let Some(v) = found {
                    return Some(v);
                }
            }
        }
        self.find_symbol(name)
    }

    /// Unloads the module whose handle is `h`, unless another module depends on
    /// it: then, or where no module has that handle, nothing changes. The module
    /// leaves the registry and every dependents list; its memory goes with it.
    pub fn unload_elf_module(&mut self, h: u64)
        requires
            old(self).wf(),
        ensures
            final(self).wf(),
            final(self).next_id == old(self).next_id,
            match index_of(old(self)@, h) {
                Some(i) => if old(self)@[i].dependents.len() > 0 {
                    final(self)@ == old(self)@
                } else {
                    final(self)@ == after_unload(old(self)@, i, h)
                },
                None => final(self)@ == old(self)@,
            },
    {
        let idx = match self.position(h) {
            Some(i) => i,
            None => {
                return;
            },
        };
        assert(index_of(self@, h) == Some(idx as int));
        if self.modules[idx].dependents.len() > 0 {
            assert(self@[idx as int].dependents.len() > 0);
            return;
        }
        let ghost old_mods = self@;
        let ghost old_self = *self;
        let _gone = self.modules.remove(idx);
        let ghost removed = old_mods.remove(idx as int);
        assert(self@ =~= removed);
        let n = self.modules.len();
        let mut j: usize = 0;
        while j < n
            invariant
                n == self.modules@.len(),
                n == removed.len(),
                j <= n,
                self.next_id == old_self.next_id,
                forall|k: int|
                    0 <= k < j ==> #[trigger] self@[k] == with_dependents(
                        removed[k],
                        without(removed[k].dependents, h),
                    ),
                forall|k: int| j <= k < n ==> #[trigger] self@[k] == removed[k],
            decreases n - j,
        {
            let d = without_exec(&self.modules[j].dependents, h);
            let ghost before = self.modules@;
            let ghost before_view = self@;
            assert(self@[j as int] == removed[j as int]);
            assert(before[j as int]@ == removed[j as int]);
            self.modules[j].dependents = d;
            proof {
                assert forall|k: int| 0 <= k < n && k != j implies #[trigger] self@[k]
                    == before_view[k] by {
                    assert(self.modules@[k] == before[k]);
                    assert(self@[k] == self.modules@[k]@);
                    assert(before_view[k] == before[k]@);
                }
                assert(self@[j as int] == with_dependents(
                    removed[j as int],
                    without(removed[j as int].dependents, h),
                ));
            }
            j = j + 1;
        }
        assert(self@ =~= after_unload(old_mods, idx as int, h));
        assert(self.wf()) by {
            assert forall|k: int| 0 <= k < self@.len() implies #[trigger] self@[k].id
                < self.next_id by {
                assert(self@[k].id == removed[k].id);
            }
            assert forall|a: int, b: int| 0 <= a < b < self@.len() implies #[trigger] self@[a].id
                != #[trigger] self@[b].id by {
                assert(self@[a].id == removed[a].id);
                assert(self@[b].id == removed[b].id);
            }
            assert forall|a: int, k: int|
                0 <= a < self@.len() && 0 <= k < self@[a].dependents.len() implies #[trigger] self@[a].dependents[k]
                < self.next_id by {
                assert(removed[a] == old_mods[if a < idx { a } else { a + 1 }]);
                assert(forall|q: int| 0 <= q < removed[a].dependents.len() ==> #[trigger] removed[a].dependents[q] < self.next_id);
                lemma_without_bound(removed[a].dependents, h, self.next_id);
            }
        }
    }

    /// The provider of each name: its value and the handle of the first module
    /// that has it; `None` where some name has no provider.
    fn resolve_imports(&self, names: &Vec<Vec<u8>>) -> (r: Option<Vec<(Vec<u8>, u64, u64)>>)
        ensures
            r is None <==> exists|t: int|
                0 <= t < names@.len() && #[trigger] global_value(self@, names@[t]@) is None,
            r is Some ==> r->Some_0@.len() == names@.len() && forall|t: int|
                0 <= t < names@.len() ==> #[trigger] provided(self@, r->Some_0@[t], names@[t]@),
    {
        let mut out: Vec<(Vec<u8>, u64, u64)> = Vec::new();
        let mut t: usize = 0;
        while t < names.len()
            invariant
                t <= names@.len(),
                out@.len() == t,
                forall|q: int| 0 <= q < t ==> #[trigger] provided(self@, out@[q], names@[q]@),
            decreases names@.len() - t,
        {
            match self.find_symbol_and_weak(&names[t]) {
                None => {
                    assert(global_value(self@, names@[t as int]@) is None);
                    return None;
                },
                Some(p) => {
                    out.push((names[t].clone(), p.0, p.1));
                    assert(provided(self@, out@[t as int], names@[t as int]@));
                },
            }
            t = t + 1;
        }
        assert forall|q: int| 0 <= q < names@.len() implies #[trigger] global_value(
            self@,
            names@[q]@,
        ) is Some by {
            assert(provided(self@, out@[q], names@[q]@));
        }
        Some(out)
    }

    /// Whether some name is already in some module's table.
    fn has_conflict(&self, names: &Vec<Vec<u8>>) -> (r: bool)
        ensures
            r <==> exists|t: int|
                0 <= t < names@.len() && #[trigger] global_value(self@, names@[t]@) is Some,
    {
        let mut t: usize = 0;
        while t < names.len()
            invariant
                t <= names@.len(),
                forall|q: int| 0 <= q < t ==> #[trigger] global_value(self@, names@[q]@) is None,
            decreases names@.len() - t,
        {
            if self.find_symbol(&names[t]).is_some() {
                return true;
            }
            t = t + 1;
        }
        false
    }

    /// Adds `h` to the dependents of each provider in `imports`, once per
    /// provider.
    fn add_dependent_edges(&mut self, imports: &Vec<(Vec<u8>, u64, u64)>, h: u64)
        requires
            old(self).wf(),
            h == old(self).next_id,
            forall|t: int| 0 <= t < imports@.len() ==> #[trigger] has_module(old(self)@, imports@[t].2),
        ensures
            final(self).next_id == old(self).next_id,
            final(self)@.len() == old(self)@.len(),
            forall|i: int|
                0 <= i < old(self)@.len() ==> #[trigger] final(self)@[i] == with_dependents(
                    old(self)@[i],
                    if provides(old(self)@, imports@, i) {
                        old(self)@[i].dependents.push(h)
                    } else {
                        old(self)@[i].dependents
                    },
                ),
    {
        let ghost start = self@;
        let mut t: usize = 0;
        while t < imports.len()
            invariant
                t <= imports@.len(),
                self.next_id == h,
                old(self).wf(),
                h == old(self).next_id,
                start == old(self)@,
                self@.len() == start.len(),
                forall|q: int| 0 <= q < imports@.len() ==> #[trigger] has_module(start, imports@[q].2),
                forall|i: int|
                    0 <= i < start.len() ==> #[trigger] self@[i] == with_dependents(
                        start[i],
                        if provides(start, imports@.subrange(0, t as int), i) {
                            start[i].dependents.push(h)
                        } else {
                            start[i].dependents
                        },
                    ),
            decreases imports@.len() - t,
        {
            let p = imports[t].2;
            let ghost pre = imports@.subrange(0, t as int);
            let ghost post = imports@.subrange(0, t + 1);
            assert(forall|q: int| 0 <= q < t ==> pre[q] == post[q]);
            assert(post[t as int] == imports@[t as int]);
            match self.position(p) {
                Some(i) => {
                    proof {
                        lemma_index_of(self@, p);
                    }
                    let d = &self.modules[i].dependents;
                    let dl = d.len();
                    let last_is_h = dl > 0 && d[dl - 1] == h;
                    proof {
                        if provides(start, pre, i as int) {
                            assert(self@[i as int].dependents == start[i as int].dependents.push(h));
                        } else {
                            assert(self@[i as int].dependents == start[i as int].dependents);
                            if dl > 0 {
                                assert(start[i as int].dependents[dl - 1] < h);
                            }
                        }
                    }
                    let ghost before = self.modules@;
                    let ghost before_view = self@;
                    if !last_is_h {
                        self.modules[i].dependents.push(h);
                    }
                    proof {
                        assert forall|k: int| 0 <= k < start.len() && k != i implies #[trigger] self@[k]
                            == before_view[k] by {
                            assert(self.modules@[k] == before[k]);
                        }
                        assert forall|k: int| 0 <= k < start.len() implies provides(start, post, k)
                            == (provides(start, pre, k) || k == i) by {
                            lemma_provides_step(start, imports@, t as int, k);
                            if k == i {
                                assert(start[i as int].id == p);
                            } else {
                                if imports@[t as int].2 == start[k].id {
                                    assert(start[i as int].id == p);
                                }
                            }
                        }
                    }
                },
                None => {
                    proof {
                        lemma_index_of(self@, p);
                        assert(has_module(start, imports@[t as int].2));
                        let i = choose|i: int| 0 <= i < start.len() && #[trigger] start[i].id == imports@[t as int].2;
                        assert(self@[i].id == start[i].id);
                    }
                },
            }
            t = t + 1;
        }
        assert(imports@.subrange(0, imports@.len() as int) =~= imports@);
    }

    /// Registers a built module under handle `next_id`: its providers list it
    /// among their dependents, and it joins the end of the registry.
    fn commit(
        &mut self,
        elf_file: &ELFFile,
        em: ElfModule,
        imports: &Vec<(Vec<u8>, u64, u64)>,
        und: Ghost<Seq<Vec<u8>>>,
        text_base: u64,
        data_base: u64,
    )
        requires
            old(self).wf(),
            old(self).next_id < u64::MAX,
            views(und@) == elf_file.undefined_names(),
            imports@.len() == und@.len(),
            forall|t: int|
                0 <= t < und@.len() ==> #[trigger] provided(old(self)@, imports@[t], und@[t]@),
            em@.id == old(self).next_id,
            em@.dependents.len() == 0,
            em@.dependencies == imports@.map_values(|e: (Vec<u8>, u64, u64)| e.2),
            forall|t: int| 0 <= t < imports@.len() ==> #[trigger] import_found(em@.symbols, imports@, t),
            forall|k: int, j: int|
                #[trigger] is_entry(elf_file.sections@, k, j) && is_export(entry_sym(elf_file, k, j))
                    ==> lookup(em@.symbols, entry_name(elf_file, k, j)) is Some,
            same_shape(em@.text, region_for(layout_of(elf_file.sections@).0, text_base)),
            same_shape(em@.data, region_for(layout_of(elf_file.sections@).1, data_base)),
            em@.symbols == exports_upto(
                insert_all(Seq::empty(), import_pairs(imports@)),
                *elf_file,
                placed_runtime(*elf_file, text_base, data_base),
                elf_file.sections@.len() as int,
            ),
        ensures
            final(self).wf(),
            final(self).next_id == old(self).next_id + 1,
            final(self)@.last() == em@,
            loaded(old(self)@, final(self)@, *elf_file, old(self).next_id, text_base, data_base),
    {
        let ghost und = und@;
        let h = self.next_id;
        let ghost imp = imports@;
        let ghost old_mods = self@;
        let ghost und_v = elf_file.undefined_names();
        proof {
            assert forall|t: int| 0 <= t < imp.len() implies #[trigger] has_module(old_mods, imp[t].2) by {
                assert(provided(old_mods, imp[t], und[t]@));
                let i = root_lookup(old_mods, und[t]@)->Some_0.1;
                assert(old_mods[i].id == imp[t].2);
            }
        }
        self.add_dependent_edges(imports, h);
        let ghost mid = self@;
        self.modules.push(em);
        self.next_id = h + 1;
        proof {
            let new = self@;
            assert(new.len() == old_mods.len() + 1);
            assert(new[old_mods.len() as int] == em@);
            assert forall|i: int| 0 <= i < old_mods.len() implies #[trigger] new[i] == mid[i] by {}
            assert forall|t: int| 0 <= t < und_v.len() implies #[trigger] lookup(
                em@.symbols,
                und_v[t],
            ) == global_value(old_mods, und_v[t]) by {
                assert(views(und)[t] == und[t]@);
                assert(import_found(em@.symbols, imp, t));
                let i = choose|i: int|
                    0 <= i < imp.len() && #[trigger] imp[i].0@ == imp[t].0@ && lookup(
                        em@.symbols,
                        imp[t].0@,
                    ) == Some(imp[i].1);
                assert(provided(old_mods, imp[i], und[i]@));
                assert(provided(old_mods, imp[t], und[t]@));
            }
            assert forall|t: int| 0 <= t < und_v.len() implies #[trigger] em@.dependencies[t]
                == old_mods[root_lookup(old_mods, und_v[t])->Some_0.1].id by {
                assert(views(und)[t] == und[t]@);
                assert(provided(old_mods, imp[t], und[t]@));
            }
            assert forall|i: int| 0 <= i < old_mods.len() implies provides(old_mods, imp, i)
                == imports_from(old_mods, und_v, i) by {
                if provides(old_mods, imp, i) {
                    let t = choose|t: int| 0 <= t < imp.len() && #[trigger] imp[t].2 == old_mods[i].id;
                    assert(views(und)[t] == und[t]@);
                    assert(provided(old_mods, imp[t], und[t]@));
                    let q = root_lookup(old_mods, und[t]@)->Some_0.1;
                    assert(old_mods[q].id == old_mods[i].id);
                    assert(q == i);
                    assert(root_lookup(old_mods, und_v[t]) is Some);
                }
                if imports_from(old_mods, und_v, i) {
                    let t = choose|t: int|
                        0 <= t < und_v.len() && #[trigger] root_lookup(old_mods, und_v[t]) is Some
                            && root_lookup(old_mods, und_v[t])->Some_0.1 == i;
                    assert(views(und)[t] == und[t]@);
                    assert(provided(old_mods, imp[t], und[t]@));
                    assert(imp[t].2 == old_mods[i].id);
                }
            }
            assert(import_pairs(imp) =~= import_values(old_mods, und_v)) by {
                assert forall|t: int| 0 <= t < imp.len() implies #[trigger] import_pairs(imp)[t]
                    == import_values(old_mods, und_v)[t] by {
                    assert(views(und)[t] == und[t]@);
                    assert(provided(old_mods, imp[t], und[t]@));
                }
            }
            assert(loaded(old_mods, new, *elf_file, h, text_base, data_base)) by {
                reveal(loaded);
            }
            assert forall|i: int| 0 <= i < new.len() implies #[trigger] new[i].id < self.next_id by {
                if i < old_mods.len() {
                    assert(new[i].id == old_mods[i].id);
                }
            }
            assert forall|a: int, b: int| 0 <= a < b < new.len() implies #[trigger] new[a].id
                != #[trigger] new[b].id by {
                assert(new[a].id == old_mods[a].id);
                if b < old_mods.len() {
                    assert(new[b].id == old_mods[b].id);
                }
            }
            assert forall|i: int, k: int|
                0 <= i < new.len() && 0 <= k < new[i].dependents.len() implies #[trigger] new[i].dependents[k]
                < self.next_id by {
                if i < old_mods.len() {
                    if k < old_mods[i].dependents.len() {
                        assert(new[i].dependents[k] == old_mods[i].dependents[k]);
                    }
                }
            }
        }
    }

    /// The checks against the registry: every imported name has a provider,
    /// and no defined name is taken. Gives the imported names and, for each, its
    /// value and the handle of its provider. Nothing is allocated or changed, so
    /// a caller can make these checks before it obtains memory for a load.
    pub fn check_names(&self, elf_file: &ELFFile) -> (r: Result<
        (Vec<Vec<u8>>, Vec<(Vec<u8>, u64, u64)>),
        ElfModuleError,
    >)
        ensures
            (r == Err::<(Vec<Vec<u8>>, Vec<(Vec<u8>, u64, u64)>), ElfModuleError>(
                ElfModuleError::UnresolvedSymbol,
            )) <==> exists|t: int|
                0 <= t < elf_file.undefined_names().len() && #[trigger] global_value(
                    self@,
                    elf_file.undefined_names()[t],
                ) is None,
            (r == Err::<(Vec<Vec<u8>>, Vec<(Vec<u8>, u64, u64)>), ElfModuleError>(
                ElfModuleError::SymbolConflict,
            )) <==> (forall|t: int|
                0 <= t < elf_file.undefined_names().len() ==> #[trigger] global_value(
                    self@,
                    elf_file.undefined_names()[t],
                ) is Some) && exists|t: int|
                0 <= t < elf_file.defined_names().len() && #[trigger] global_value(
                    self@,
                    elf_file.defined_names()[t],
                ) is Some,
            r is Err ==> r->Err_0 is UnresolvedSymbol || r->Err_0 is SymbolConflict,
            r is Ok ==> checks_pass(self@, *elf_file),
            r is Ok ==> views(r->Ok_0.0@) == elf_file.undefined_names() && r->Ok_0.1@.len()
                == r->Ok_0.0@.len() && forall|t: int|
                0 <= t < r->Ok_0.0@.len() ==> #[trigger] provided(
                    self@,
                    r->Ok_0.1@[t],
                    r->Ok_0.0@[t]@,
                ),
    {
        let und = elf_file.get_undefined_symbol_names();
        let imports = match self.resolve_imports(&und) {
            Some(v) => v,
            None => {
                proof {
                    let t = choose|t: int|
                        0 <= t < und@.len() && #[trigger] global_value(self@, und@[t]@) is None;
                    assert(views(und@)[t] == und@[t]@);
                }
                return Err(ElfModuleError::UnresolvedSymbol);
            },
        };
        proof {
            assert forall|t: int| 0 <= t < elf_file.undefined_names().len() implies #[trigger] global_value(
                self@,
                elf_file.undefined_names()[t],
            ) is Some by {
                assert(views(und@)[t] == und@[t]@);
                assert(provided(self@, imports@[t], und@[t]@));
            }
        }
        let defs = elf_file.get_all_symbol_names();
        if self.has_conflict(&defs) {
            proof {
                let t = choose|t: int|
                    0 <= t < defs@.len() && #[trigger] global_value(self@, defs@[t]@) is Some;
                assert(views(defs@)[t] == defs@[t]@);
            }
            return Err(ElfModuleError::SymbolConflict);
        }
        proof {
            assert forall|t: int| 0 <= t < elf_file.defined_names().len() implies #[trigger] global_value(
                self@,
                elf_file.defined_names()[t],
            ) is None by {
                assert(views(defs@)[t] == defs@[t]@);
            }
        }
        Ok((und, imports))
    }

    /// Loads image `elf_file`, placing its read-only group at `text_base` and
    /// its writable group at `data_base`, and returns the new module's handle.
    /// Every imported name must be exported by a loaded module, and no defined
    /// name may be; where either check fails, or the module cannot be built,
    /// the registry is left as it was.
    pub fn load_elf_file(&mut self, elf_file: &ELFFile, text_base: u64, data_base: u64) -> (r:
        Result<u64, ElfModuleError>)
        requires
            old(self).wf(),
            elf_file.wf(),
        ensures
            final(self).wf(),
            r is Err ==> final(self)@ == old(self)@ && final(self).next_id == old(self).next_id,
            (r == Err::<u64, ElfModuleError>(ElfModuleError::UnresolvedSymbol)) <==> exists|t: int|
                0 <= t < elf_file.undefined_names().len() && #[trigger] global_value(
                    old(self)@,
                    elf_file.undefined_names()[t],
                ) is None,
            (r == Err::<u64, ElfModuleError>(ElfModuleError::SymbolConflict)) <==> (forall|t: int|
                0 <= t < elf_file.undefined_names().len() ==> #[trigger] global_value(
                    old(self)@,
                    elf_file.undefined_names()[t],
                ) is Some) && exists|t: int|
                0 <= t < elf_file.defined_names().len() && #[trigger] global_value(
                    old(self)@,
                    elf_file.defined_names()[t],
                ) is Some,
            r is Ok ==> r->Ok_0 == old(self).next_id && final(self).next_id == old(self).next_id + 1
                && loaded(old(self)@, final(self)@, *elf_file, r->Ok_0, text_base, data_base),
            checks_pass(old(self)@, *elf_file) ==> ((r == Err::<u64, ElfModuleError>(
                ElfModuleError::AllocationFailed,
            )) <==> (old(self).next_id == u64::MAX || !fits(
                layout_of(elf_file.sections@).0,
                text_base,
            ) || !fits(layout_of(elf_file.sections@).1, data_base))),
            checks_pass(old(self)@, *elf_file) && old(self).next_id < u64::MAX && fits(
                layout_of(elf_file.sections@).0,
                text_base,
            ) && fits(layout_of(elf_file.sections@).1, data_base) && has_fault(*elf_file) ==> r is Err
                && exists|k: int, j: int|
                #[trigger] is_entry(elf_file.sections@, k, j) && symbol_fault(
                    entry_sym(elf_file, k, j),
                    elf_file.sections@.len() as int,
                ) == Some(r->Err_0),
            checks_pass(old(self)@, *elf_file) && old(self).next_id < u64::MAX && fits(
                layout_of(elf_file.sections@).0,
                text_base,
            ) && fits(layout_of(elf_file.sections@).1, data_base) && !has_fault(*elf_file) ==> match relocation_outcome(
                old(self)@,
                *elf_file,
                text_base,
                data_base,
            ) {
                Ok(m) => r is Ok && final(self)@.last().text == m.0 && final(self)@.last().data == m.1,
                Err(e) => r == Err::<u64, ElfModuleError>(e),
            },
    {
        let (und, imports) = match self.check_names(elf_file) {
            Ok(p) => p,
            Err(e) => {
                return Err(e);
            },
        };
        if self.next_id == u64::MAX {
            return Err(ElfModuleError::AllocationFailed);
        }
        let h = self.next_id;
        let ghost imp = imports@;
        let (built, Ghost(tab)) = ElfModule::build(elf_file, &imports, h, text_base, data_base);
        proof {
            if fits(layout_of(elf_file.sections@).0, text_base) && fits(
                layout_of(elf_file.sections@).1,
                data_base,
            ) && !has_fault(*elf_file) {
                lemma_tab_agrees(self@, *elf_file, imp, und@, tab);
                lemma_reloc_same_look(
                table_look(tab),
                registry_look(self@),
                *elf_file,
                placed_runtime(*elf_file, text_base, data_base),
                elf_file.sections@.len() as int,
                placed_memory(*elf_file, text_base, data_base),
                );
            }
        }
        let em = match built {
            Ok(m) => m,
            Err(e) => {
                return Err(e);
            },
        };
        self.commit(elf_file, em, &imports, Ghost(und@), text_base, data_base);
        Ok(h)
    }

    /// Parses `image` and loads it; see `ELFFile::parse` and `load_elf_file`.
    /// A parse error comes back as `Parse`, with the registry unchanged.
    pub fn load(&mut self, image: Option<Vec<u8>>, text_base: u64, data_base: u64) -> (r: Result<
        u64,
        ElfModuleError,
    >)
        requires
            old(self).wf(),
        ensures
            final(self).wf(),
            r is Err ==> final(self)@ == old(self)@ && final(self).next_id == old(self).next_id,
            image is None ==> r == Err::<u64, ElfModuleError>(
                ElfModuleError::Parse(ELFFileError::FileNotFound),
            ),
            image is Some && crate::elf::parse_outcome(image->Some_0@) is Err ==> r == Err::<
                u64,
                ElfModuleError,
            >(ElfModuleError::Parse(crate::elf::parse_outcome(image->Some_0@)->Err_0)),
            r is Ok ==> image is Some && crate::elf::parse_outcome(image->Some_0@) is Ok,
            image is Some && crate::elf::parse_outcome(image->Some_0@) is Ok ==> exists|f: ELFFile|
                #[trigger] f.wf() && f.image@ == image->Some_0@ && load_outcome(
                    old(self)@,
                    old(self).next_id,
                    final(self)@,
                    final(self).next_id,
                    f,
                    text_base,
                    data_base,
                    r,
                ),
    {
        let ghost old_view = self@;
        let ghost old_next = self.next_id;
        let f = match ELFFile::parse(image) {
            Ok(f) => f,
            Err(e) => {
                return Err(ElfModuleError::Parse(e));
            },
        };
        let r = self.load_elf_file(&f, text_base, data_base);
        assert(load_outcome(old_view, old_next, self@, self.next_id, f, text_base, data_base, r));
        r
    }
}

} // verus!
