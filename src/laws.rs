//! Properties that relate loading, lookup and unloading.
use vstd::prelude::*;
use crate::elf::ELFFile;
use crate::elf_module::{ElfModuleRoot, ModuleView, lemma_index_of};
use crate::model::{
    imports_from,
    loaded, lookup, root_lookup, global_value, index_of, spec_resolve, is_entry, is_export,
    entry_sym, entry_name, after_unload, without,
};

verus! {

proof fn lemma_index_of_unique(mods: Seq<ModuleView>, i: int)
    requires
        0 <= i < mods.len(),
        forall|a: int, b: int| 0 <= a < b < mods.len() ==> #[trigger] mods[a].id != #[trigger] mods[b].id,
    ensures
        index_of(mods, mods[i].id) == Some(i),
    decreases mods.len(),
{
    let p = mods.drop_last();
    if i < mods.len() - 1 {
        assert(forall|a: int| 0 <= a < p.len() ==> p[a] == mods[a]);
        lemma_index_of_unique(p, i);
    } else {
        lemma_index_of_absent(p, mods[i].id);
    }
}

proof fn lemma_index_of_absent(mods: Seq<ModuleView>, h: u64)
    requires
        forall|a: int| 0 <= a < mods.len() ==> #[trigger] mods[a].id != h,
    ensures
        index_of(mods, h) is None,
    decreases mods.len(),
{
    if mods.len() > 0 {
        let p = mods.drop_last();
        assert(forall|a: int| 0 <= a < p.len() ==> p[a] == mods[a]);
        lemma_index_of_absent(p, h);
    }
}

proof fn lemma_root_lookup_found(mods: Seq<ModuleView>, name: Seq<u8>)
    requires
        root_lookup(mods, name) is Some,
    ensures
        0 <= root_lookup(mods, name)->Some_0.1 < mods.len(),
        lookup(mods[root_lookup(mods, name)->Some_0.1].symbols, name) == Some(
            root_lookup(mods, name)->Some_0.0,
        ),
    decreases mods.len(),
{
    let p = mods.drop_last();
    if root_lookup(p, name) is Some {
        lemma_root_lookup_found(p, name);
        assert(p[root_lookup(p, name)->Some_0.1] == mods[root_lookup(p, name)->Some_0.1]);
    }
}

/// After a load, the new module's handle finds every symbol the image
/// exports.
pub proof fn lemma_exports_resolvable(
    old: ElfModuleRoot,
    new: ElfModuleRoot,
    f: ELFFile,
    h: u64,
    text_base: u64,
    data_base: u64,
    k: int,
    j: int,
)
    requires
        old.wf(),
        h == old.next_id,
        loaded(old@, new@, f, h, text_base, data_base),
        is_entry(f.sections@, k, j),
        is_export(entry_sym(&f, k, j)),
    ensures
        spec_resolve(new@, Some(h), entry_name(&f, k, j)) is Some,
{
    reveal(loaded);
    let n = old@.len();
    assert forall|a: int| 0 <= a < n implies #[trigger] new@[a].id != h by {
        assert(new@[a].id == old@[a].id);
    }
    assert(forall|a: int| 0 <= a < n ==> new@.drop_last()[a] == new@[a]);
    lemma_index_of_absent(new@.drop_last(), h);
    assert(index_of(new@, h) == Some(n as int));
}

/// A module that imports a name finds, through its own handle, the same value
/// as the module it imports the name from.
pub proof fn lemma_import_matches_provider(
    old: ElfModuleRoot,
    new: ElfModuleRoot,
    f: ELFFile,
    h: u64,
    text_base: u64,
    data_base: u64,
    t: int,
)
    requires
        old.wf(),
        h == old.next_id,
        loaded(old@, new@, f, h, text_base, data_base),
        0 <= t < f.undefined_names().len(),
        root_lookup(old@, f.undefined_names()[t]) is Some,
    ensures
        spec_resolve(new@, Some(h), f.undefined_names()[t]) == spec_resolve(
            new@,
            Some(old@[root_lookup(old@, f.undefined_names()[t])->Some_0.1].id),
            f.undefined_names()[t],
        ),
        spec_resolve(new@, Some(h), f.undefined_names()[t]) is Some,
{
    reveal(loaded);
    let name = f.undefined_names()[t];
    let n = old@.len();
    lemma_root_lookup_found(old@, name);
    let i = root_lookup(old@, name)->Some_0.1;
    assert forall|a: int| 0 <= a < n implies #[trigger] new@[a].id != h by {
        assert(new@[a].id == old@[a].id);
    }
    assert(forall|a: int| 0 <= a < n ==> new@.drop_last()[a] == new@[a]);
    lemma_index_of_absent(new@.drop_last(), h);
    assert(index_of(new@, h) == Some(n as int));
    assert(new@[i].id == old@[i].id);
    assert(new@[i].symbols == old@[i].symbols);
    assert forall|a: int, b: int| 0 <= a < b < new@.len() implies #[trigger] new@[a].id
        != #[trigger] new@[b].id by {
        assert(new@[a].id == old@[a].id);
        if b < n {
            assert(new@[b].id == old@[b].id);
        }
    }
    lemma_index_of_unique(new@, i);
}

proof fn lemma_without_all(s: Seq<u64>, h: u64)
    requires
        forall|k: int| 0 <= k < s.len() ==> #[trigger] s[k] == h,
    ensures
        without(s, h).len() == 0,
    decreases s.len(),
{
    if s.len() > 0 {
        let p = s.drop_last();
        assert(forall|k: int| 0 <= k < p.len() ==> p[k] == s[k]);
        lemma_without_all(p, h);
    }
}

/// Unloading a module that nothing depends on removes it: its handle no
/// longer names a module, so a lookup through it searches the whole registry.
/// A module whose only dependent it was has no dependents left, so it can be
/// unloaded in turn.
pub proof fn lemma_unload_frees_dependency(old: ElfModuleRoot, new: ElfModuleRoot, h: u64, p: int)
    requires
        old.wf(),
        index_of(old@, h) is Some,
        old@[index_of(old@, h)->Some_0].dependents.len() == 0,
        new@ == after_unload(old@, index_of(old@, h)->Some_0, h),
        0 <= p < old@.len(),
        p != index_of(old@, h)->Some_0,
        forall|k: int|
            0 <= k < old@[p].dependents.len() ==> #[trigger] old@[p].dependents[k] == h,
    ensures
        index_of(new@, h) is None,
        forall|name: Seq<u8>| #[trigger] spec_resolve(new@, Some(h), name) == global_value(new@, name),
        new@[if p < index_of(old@, h)->Some_0 { p } else { p - 1 }].dependents.len() == 0,
        new@[if p < index_of(old@, h)->Some_0 { p } else { p - 1 }].id == old@[p].id,
{
    let i = index_of(old@, h)->Some_0;
    lemma_index_of(old@, h);
    let r = old@.remove(i);
    assert forall|a: int| 0 <= a < new@.len() implies #[trigger] new@[a].id != h by {
        let src = if a < i { a } else { a + 1 };
        assert(r[a] == old@[src]);
        assert(new@[a].id == r[a].id);
        if a >= i {
            assert(old@[i].id != old@[src].id);
        }
    }
    lemma_index_of_absent(new@, h);
    let q = if p < i { p } else { p - 1 };
    assert(r[q] == old@[p]);
    lemma_without_all(old@[p].dependents, h);
}

/// A module that provides an import to a newly loaded module has that module
/// among its dependents afterwards, so unloading the provider is refused until
/// the importer is unloaded.
pub proof fn lemma_provider_gains_dependent(
    old: ElfModuleRoot,
    new: ElfModuleRoot,
    f: ELFFile,
    h: u64,
    text_base: u64,
    data_base: u64,
    t: int,
)
    requires
        old.wf(),
        h == old.next_id,
        loaded(old@, new@, f, h, text_base, data_base),
        0 <= t < f.undefined_names().len(),
        root_lookup(old@, f.undefined_names()[t]) is Some,
    ensures
        0 <= root_lookup(old@, f.undefined_names()[t])->Some_0.1 < old@.len(),
        new@[root_lookup(old@, f.undefined_names()[t])->Some_0.1].id == old@[root_lookup(
            old@,
            f.undefined_names()[t],
        )->Some_0.1].id,
        new@[root_lookup(old@, f.undefined_names()[t])->Some_0.1].dependents.contains(h),
{
    reveal(loaded);
    let name = f.undefined_names()[t];
    lemma_root_lookup_found(old@, name);
    let i = root_lookup(old@, name)->Some_0.1;
    assert(imports_from(old@, f.undefined_names(), i));
    let d = old@[i].dependents.push(h);
    assert(new@[i].dependents == d);
    assert(d[d.len() - 1] == h);
}

} // verus!
