//! Import binding of a PE32 image: resolving imports through a [`PeLoader`]
//! and patching the 32-bit import address tables.
use vstd::prelude::*;

use crate::pe::loader::{
    answer_of, bind_start, is_load, is_resolve, is_resolve_in, is_write_dword, lemma_prefix_index,
    lemma_prefix_trans, names_view, BindState, LoaderCall, PeLoader,
};
use crate::pe::names::{
    lemma_recorded_within_trans, qualified_name, qualify, recorded_within, slot_name, slot_names,
    split_after_bang, ImportSlot,
};
use crate::pe::pe64::binding::{lemma_name_of_qualified, spec_import_addr_to_name};
use crate::pe::readers::{le_u32, read_c_string, read_u32_le};
use crate::pe::pe64::PE64;
use super::{
    spec_vaddr_to_off, vaddr_to_off_ok, DelayLoadDirectory, HintNameItem, ImageImportDescriptor,
    ImageSectionHeader, PE32,
};

verus! {

broadcast use vstd::std_specs::hash::group_hash_axioms;

/// High bit of a 32-bit name-table entry: import by ordinal.
pub const ORDINAL_FLAG32: u32 = 0x8000_0000;

/// The slots bound by walking a 32-bit name table at file offset `off_name`
/// (slot RVA `rva`): one 4-byte entry per step, until the table runs past the
/// file or holds zero; ordinal entries and names that do not map into the file
/// are skipped.
pub open spec fn spec_thunk32_slots(
    sects: Seq<ImageSectionHeader>,
    raw: Seq<u8>,
    off_name: int,
    rva: int,
) -> Seq<ImportSlot>
    decreases raw.len() - off_name,
{
    if raw.len() <= off_name + 4 {
        Seq::empty()
    } else {
        let t = le_u32(raw, off_name);
        if t == 0 {
            Seq::empty()
        } else if t & ORDINAL_FLAG32 != 0 {
            spec_thunk32_slots(sects, raw, off_name + 4, rva + 4)
        } else {
            let off2 = spec_vaddr_to_off(sects, t) as int;
            if off2 == 0 {
                spec_thunk32_slots(sects, raw, off_name + 4, rva + 4)
            } else {
                seq![ImportSlot { slot_rva: rva as u32, name_off: (off2 + 2) as u64, thunk: t as u64 }]
                    + spec_thunk32_slots(sects, raw, off_name + 4, rva + 4)
            }
        }
    }
}

/// The walk of [`spec_thunk32_slots`] does no arithmetic that overflows.
pub open spec fn thunk32_slots_ok(sects: Seq<ImageSectionHeader>, raw: Seq<u8>, off_name: int, rva: int) -> bool
    decreases raw.len() - off_name,
{
    if raw.len() <= off_name + 4 {
        true
    } else {
        let t = le_u32(raw, off_name);
        if t == 0 {
            true
        } else {
            &&& rva + 4 <= u32::MAX
            &&& t & ORDINAL_FLAG32 == 0 ==> vaddr_to_off_ok(sects, t)
            &&& thunk32_slots_ok(sects, raw, off_name + 4, rva + 4)
        }
    }
}

/// The slots of a 32-bit name table whose entries are read from `name_thunk`
/// and whose IAT slots start at `first_slot`.
pub open spec fn spec_table32_slots(
    sects: Seq<ImageSectionHeader>,
    raw: Seq<u8>,
    name_thunk: u32,
    first_slot: u32,
) -> Seq<ImportSlot> {
    spec_thunk32_slots(sects, raw, spec_vaddr_to_off(sects, name_thunk) as int, first_slot as int)
}

/// Walking the 32-bit name table at `name_thunk` runs to completion.
pub open spec fn table32_ok(sects: Seq<ImageSectionHeader>, raw: Seq<u8>, name_thunk: u32, first_slot: u32) -> bool {
    &&& vaddr_to_off_ok(sects, name_thunk)
    &&& thunk32_slots_ok(sects, raw, spec_vaddr_to_off(sects, name_thunk) as int, first_slot as int)
}

/// One 32-bit slot of guest memory to overwrite.
#[derive(Clone, Copy, Debug, PartialEq, Eq)]
pub struct DwordPatch {
    pub addr: u64,
    pub value: u32,
}

impl PE32 {
    /// Applies the answer `real_addr` the loader gave for import `dll!func`
    /// at `slot`: a nonzero address is recorded (by its low 32 bits) as
    /// `dll!func` and returned as the patch for the slot at `base_addr +
    /// slot_rva`; zero records `dll!func` under the slot's name-table value
    /// when `name_unresolved`, and changes nothing otherwise.
    pub fn bind_resolved32(
        &mut self,
        dll: &str,
        func: &str,
        slot: &ImportSlot,
        base_addr: u32,
        real_addr: u64,
        name_unresolved: bool,
    ) -> (patch: Option<DwordPatch>)
        ensures
            final(self).same_image(&*old(self)),
            real_addr != 0 ==> {
                &&& patch == Some(
                    DwordPatch { addr: (base_addr + slot.slot_rva) as u64, value: real_addr as u32 },
                )
                &&& final(self).iat_names@ == old(self).iat_names@.insert(
                    real_addr as u32,
                    final(self).iat_names@[real_addr as u32],
                )
                &&& final(self).iat_names@[real_addr as u32]@ == qualified_name(dll@, func@)
            },
            real_addr == 0 && name_unresolved ==> {
                &&& patch is None
                &&& final(self).iat_names@ == old(self).iat_names@.insert(
                    slot.thunk as u32,
                    final(self).iat_names@[slot.thunk as u32],
                )
                &&& final(self).iat_names@[slot.thunk as u32]@ == qualified_name(dll@, func@)
            },
            real_addr == 0 && !name_unresolved ==> patch is None && final(self).iat_names@ == old(
                self,
            ).iat_names@,
    {
        if real_addr != 0 {
            let full = qualify(dll, func);
            self.iat_names.insert(real_addr as u32, full);
            Some(DwordPatch { addr: base_addr as u64 + slot.slot_rva as u64, value: real_addr as u32 })
        } else if name_unresolved {
            let full = qualify(dll, func);
            self.iat_names.insert(slot.thunk as u32, full);
            None
        } else {
            None
        }
    }

    /// The slots of the 32-bit name table at `name_thunk`.
    pub fn thunk32_slots(&self, raw: &[u8], name_thunk: u32, first_slot: u32) -> (slots: Vec<ImportSlot>)
        requires
            raw@.len() <= isize::MAX,
            table32_ok(self.sect_hdr@, raw@, name_thunk, first_slot),
        ensures
            slots@ == spec_table32_slots(self.sect_hdr@, raw@, name_thunk, first_slot),
    {
        let mut off_name = PE32::vaddr_to_off(&self.sect_hdr, name_thunk) as u64;
        let mut rva = first_slot;
        let ghost total = spec_thunk32_slots(self.sect_hdr@, raw@, off_name as int, rva as int);
        let mut slots: Vec<ImportSlot> = Vec::new();
        loop
            invariant_except_break
                off_name <= u32::MAX || off_name < raw@.len(),
                thunk32_slots_ok(self.sect_hdr@, raw@, off_name as int, rva as int),
                total == slots@ + spec_thunk32_slots(self.sect_hdr@, raw@, off_name as int, rva as int),
            invariant
                raw@.len() <= isize::MAX,
            ensures
                slots@ == total,
            decreases raw@.len() - off_name,
        {
            if raw.len() as u64 <= off_name + 4 {
                assert(slots@ =~= total);
                break;
            }
            let thunk = HintNameItem::load(raw, off_name).func_name_addr;
            if thunk == 0 {
                assert(slots@ =~= total);
                break;
            }
            if thunk & ORDINAL_FLAG32 != 0 {
                off_name = off_name + HintNameItem::size() as u64;
                rva = rva + 4;
                continue;
            }
            let off2 = PE32::vaddr_to_off(&self.sect_hdr, thunk) as u64;
            if off2 == 0 {
                off_name = off_name + HintNameItem::size() as u64;
                rva = rva + 4;
                continue;
            }
            let ghost before = slots@;
            slots.push(ImportSlot { slot_rva: rva, name_off: off2 + 2, thunk: thunk as u64 });
            assert(before + spec_thunk32_slots(self.sect_hdr@, raw@, off_name as int, rva as int)
                =~= slots@ + spec_thunk32_slots(self.sect_hdr@, raw@, off_name + 4, rva + 4));
            off_name = off_name + HintNameItem::size() as u64;
            rva = rva + 4;
        }
        slots
    }

    /// True when the walk of [`PE32::thunk32_slots`] over the name table at
    /// `name_thunk` can be made: the table maps and the walk does no
    /// arithmetic that overflows.
    pub fn table32_fits(&self, raw: &[u8], name_thunk: u32, first_slot: u32) -> (b: bool)
        requires
            raw@.len() <= isize::MAX,
        ensures
            b == table32_ok(self.sect_hdr@, raw@, name_thunk, first_slot),
    {
        if !PE64::vaddr_to_off_fits(&self.sect_hdr, name_thunk) {
            return false;
        }
        let mut off_name = PE32::vaddr_to_off(&self.sect_hdr, name_thunk) as u64;
        let mut rva: u64 = first_slot as u64;
        let ghost start = thunk32_slots_ok(self.sect_hdr@, raw@, off_name as int, rva as int);
        loop
            invariant
                raw@.len() <= isize::MAX,
                off_name <= u32::MAX || off_name < raw@.len(),
                rva <= u32::MAX,
                start == thunk32_slots_ok(self.sect_hdr@, raw@, off_name as int, rva as int),
                vaddr_to_off_ok(self.sect_hdr@, name_thunk),
                start == thunk32_slots_ok(
                    self.sect_hdr@,
                    raw@,
                    spec_vaddr_to_off(self.sect_hdr@, name_thunk) as int,
                    first_slot as int,
                ),
            decreases raw@.len() - off_name,
        {
            if raw.len() as u64 <= off_name + 4 {
                return true;
            }
            let t = read_u32_le(raw, off_name);
            if t == 0 {
                return true;
            }
            if rva + 4 > 0xffff_ffff {
                return false;
            }
            if t & ORDINAL_FLAG32 == 0 {
                if !PE64::vaddr_to_off_fits(&self.sect_hdr, t) {
                    return false;
                }
            }
            off_name = off_name + 4;
            rva = rva + 4;
        }
    }

    /// Resolves each of `slots` (imports of `dll`) through `loader` and
    /// patches the resolved ones. With `in_module`, an import is looked up in
    /// `dll` first and globally second, and an unresolved one is recorded under
    /// its name-table value; without it, only the global lookup is made and an
    /// unresolved import is left alone. The loader calls made are exactly
    /// those of [`run32`].
    fn bind_slots32<L: PeLoader>(
        &mut self,
        raw: &[u8],
        loader: &mut L,
        base_addr: u32,
        slots: &Vec<ImportSlot>,
        dll: &str,
        in_module: bool,
    )
        ensures
            final(self).same_image(&*old(self)),
            recorded_within(
                old(self).iat_names@,
                final(self).iat_names@,
                slot_names(raw@, dll@, slots@),
            ),
            old(loader).calls().is_prefix_of(final(loader).calls()),
            reached32(
                run32(
                    raw@,
                    dll@,
                    slots@,
                    base_addr,
                    in_module,
                    bind_start(names_view(old(self).iat_names@), old(loader).calls().len() as int),
                    final(loader).calls(),
                ),
                final(self).iat_names@,
                final(loader).calls().len() as int,
            ),
    {
        let ghost names = slot_names(raw@, dll@, slots@);
        let ghost init = self.iat_names@;
        let ghost st0 = bind_start(names_view(self.iat_names@), loader.calls().len() as int);
        proof {
            assert(old(loader).calls().is_prefix_of(loader.calls())) by {
                assert(loader.calls().subrange(0, loader.calls().len() as int) =~= loader.calls());
            }
        }
        let mut j: usize = 0;
        while j < slots.len()
            invariant
                j <= slots@.len(),
                names == slot_names(raw@, dll@, slots@),
                self.same_image(&*old(self)),
                init == old(self).iat_names@,
                recorded_within(init, self.iat_names@, names),
                st0 == bind_start(names_view(old(self).iat_names@), old(loader).calls().len() as int),
                old(loader).calls().is_prefix_of(loader.calls()),
                reached32(
                    run32(raw@, dll@, slots@.take(j as int), base_addr, in_module, st0, loader.calls()),
                    self.iat_names@,
                    loader.calls().len() as int,
                ),
            decreases slots@.len() - j,
        {
            let slot = slots[j];
            let ghost log_j = loader.calls();
            let ghost names_j = self.iat_names@;
            let func_name = read_c_string(raw, slot.name_off);
            let ghost before = self.iat_names@;
            let real_addr = if in_module {
                let mut r = loader.resolve_api_name_in_module(dll, func_name.as_str());
                if r == 0 {
                    r = loader.resolve_api_name(func_name.as_str());
                }
                r
            } else {
                loader.resolve_api_name(func_name.as_str())
            };
            let ghost log_r = loader.calls();
            let patch = self.bind_resolved32(dll, func_name.as_str(), &slot, base_addr, real_addr, in_module);
            if let Some(p) = patch {
                loader.write_dword(p.addr, p.value);
            }
            proof {
                assert(log_j.is_prefix_of(log_r)) by {
                    assert(log_r.subrange(0, log_j.len() as int) =~= log_j);
                }
                assert(log_r.is_prefix_of(loader.calls())) by {
                    assert(loader.calls().subrange(0, log_r.len() as int) =~= log_r);
                }
                lemma_prefix_trans(log_j, log_r, loader.calls());
                lemma_prefix_trans(old(loader).calls(), log_j, loader.calls());
                lemma_run32_prefix(raw@, dll@, slots@.take(j as int), base_addr, in_module, st0, log_j, loader.calls());
                assert(slots@.take(j + 1).drop_last() =~= slots@.take(j as int));
                assert(slots@.take(j + 1).last() == slot);
                if real_addr != 0 {
                    assert(names_view(self.iat_names@) =~= names_view(names_j).insert(
                        real_addr as u32,
                        qualified_name(dll@, func_name@),
                    ));
                } else if in_module {
                    assert(names_view(self.iat_names@) =~= names_view(names_j).insert(
                        slot.thunk as u32,
                        qualified_name(dll@, func_name@),
                    ));
                }
                assert(names.contains(qualified_name(dll@, func_name@))) by {
                    assert(qualified_name(dll@, func_name@) == qualified_name(
                        dll@,
                        slot_name(raw@, slots@[j as int]),
                    ));
                }
                assert(recorded_within(before, self.iat_names@, names));
                lemma_recorded_within_trans(init, before, self.iat_names@, names, names, names);
            }
            j = j + 1;
        }
        proof {
            assert(slots@.take(slots@.len() as int) =~= slots@);
        }
    }
}

/// The table a 32-bit import descriptor's names are read from: its
/// OriginalFirstThunk when present, its IAT otherwise.
pub open spec fn walk_thunk32(d: ImageImportDescriptor) -> u32 {
    if d.original_first_thunk != 0 {
        d.original_first_thunk
    } else {
        d.first_thunk
    }
}

/// The address the 32-bit binding step takes: the loader's answer at the next
/// call of `log`, or, with `in_module` when that answer is zero, the answer at
/// the call after.
pub open spec fn step32_answer(
    dll: Seq<char>,
    slot: ImportSlot,
    in_module: bool,
    st: BindState<u32>,
    log: Seq<LoaderCall>,
) -> u64 {
    let r1 = answer_of(log[st.u]);
    if in_module && r1 == 0 {
        answer_of(log[st.u + 1])
    } else {
        r1
    }
}

/// The key the 32-bit import-binding step records the import under: the
/// address written into the slot (its low 32 bits), or the slot's name-table
/// value when the import did not resolve.
pub open spec fn step32_key(
    dll: Seq<char>,
    slot: ImportSlot,
    st: BindState<u32>,
    log: Seq<LoaderCall>,
) -> u32 {
    let r = step32_answer(dll, slot, true, st, log);
    if r != 0 { r as u32 } else { slot.thunk as u32 }
}

/// One 32-bit import-binding step for `slot` of `dll`, as the loader call
/// history `log` shows it. With `in_module`, the import is asked of
/// `resolve_api_name_in_module(dll, f)` and, when that answers zero, of
/// `resolve_api_name(f)`; without it, of `resolve_api_name(f)` only. A
/// nonzero answer `r` is recorded as `dll!f` under `r` (its low 32 bits) and
/// written into the slot with `write_dword`; a zero answer is recorded under
/// the slot's name-table value with `in_module`, and changes nothing
/// otherwise.
pub open spec fn step32(
    raw: Seq<u8>,
    dll: Seq<char>,
    slot: ImportSlot,
    base: u32,
    in_module: bool,
    st: BindState<u32>,
    log: Seq<LoaderCall>,
) -> BindState<u32> {
    let f = slot_name(raw, slot);
    let q = qualified_name(dll, f);
    let u = st.u;
    let first = if in_module {
        is_resolve_in(log[u], dll, f)
    } else {
        is_resolve(log[u], f)
    };
    let ok1 = st.ok && 0 <= u < log.len() && first;
    let r1 = answer_of(log[u]);
    let fallback = in_module && r1 == 0;
    let ok2 = if fallback { ok1 && 0 <= u + 1 < log.len() && is_resolve(log[u + 1], f) } else { ok1 };
    let r = step32_answer(dll, slot, in_module, st, log);
    let u2 = if fallback { u + 2 } else { u + 1 };
    if r != 0 {
        BindState {
            cache: st.cache,
            names: st.names.insert(r as u32, q),
            u: u2 + 1,
            ok: ok2 && 0 <= u2 < log.len() && is_write_dword(log[u2], (base + slot.slot_rva) as u64, r as u32),
        }
    } else if in_module {
        BindState { cache: st.cache, names: st.names.insert(slot.thunk as u32, q), u: u2, ok: ok2 }
    } else {
        BindState { cache: st.cache, names: st.names, u: u2, ok: ok2 }
    }
}

/// [`step32`] over each of `slots` in order.
pub open spec fn run32(
    raw: Seq<u8>,
    dll: Seq<char>,
    slots: Seq<ImportSlot>,
    base: u32,
    in_module: bool,
    st: BindState<u32>,
    log: Seq<LoaderCall>,
) -> BindState<u32>
    decreases slots.len(),
{
    if slots.len() == 0 {
        st
    } else {
        step32(raw, dll, slots.last(), base, in_module, run32(raw, dll, slots.drop_last(), base, in_module, st, log), log)
    }
}

/// 32-bit binding over the first `n` descriptors, as `log` shows it: each
/// named descriptor's DLL is asked of `load_library` (the next call); when it
/// loads (a nonzero base) and its name table can be walked without overflow
/// ([`table32_ok`]), the slots of that table are bound with [`run32`]. `table` gives a descriptor's name table and first slot; for the
/// import table the DLL lookup comes first (`in_module`).
pub open spec fn desc_run32(
    sects: Seq<ImageSectionHeader>,
    raw: Seq<u8>,
    names: Seq<Seq<char>>,
    tables: Seq<(u32, u32)>,
    base: u32,
    in_module: bool,
    n: int,
    st: BindState<u32>,
    log: Seq<LoaderCall>,
) -> BindState<u32>
    decreases n,
{
    if n <= 0 {
        st
    } else {
        let s1 = desc_run32(sects, raw, names, tables, base, in_module, n - 1, st, log);
        let name = names[n - 1];
        if name.len() == 0 {
            s1
        } else {
            let s2 = BindState {
                cache: s1.cache,
                names: s1.names,
                u: s1.u + 1,
                ok: s1.ok && 0 <= s1.u < log.len() && is_load(log[s1.u], name),
            };
            if answer_of(log[s1.u]) != 0 && table32_ok(sects, raw, tables[n - 1].0, tables[n - 1].1) {
                run32(
                    raw,
                    name,
                    spec_table32_slots(sects, raw, tables[n - 1].0, tables[n - 1].1),
                    base,
                    in_module,
                    s2,
                    log,
                )
            } else {
                s2
            }
        }
    }
}

/// Binding reached `st` exactly: every loader call in the history so far
/// (`log_len` of them) was the one binding had to make, and the import-name
/// table is that of `st`.
pub open spec fn reached32(st: BindState<u32>, names: Map<u32, String>, log_len: int) -> bool {
    &&& st.ok
    &&& st.u == log_len
    &&& st.names == names_view(names)
}

proof fn lemma_run32_mono(
    raw: Seq<u8>,
    dll: Seq<char>,
    slots: Seq<ImportSlot>,
    base: u32,
    in_module: bool,
    st: BindState<u32>,
    log: Seq<LoaderCall>,
)
    ensures
        run32(raw, dll, slots, base, in_module, st, log).ok ==> st.ok,
        run32(raw, dll, slots, base, in_module, st, log).cache == st.cache,
    decreases slots.len(),
{
    if slots.len() > 0 {
        lemma_run32_mono(raw, dll, slots.drop_last(), base, in_module, st, log);
    }
}

/// What [`run32`] reaches with a complete history does not change when calls
/// are appended to it.
proof fn lemma_run32_prefix(
    raw: Seq<u8>,
    dll: Seq<char>,
    slots: Seq<ImportSlot>,
    base: u32,
    in_module: bool,
    st: BindState<u32>,
    log0: Seq<LoaderCall>,
    log: Seq<LoaderCall>,
)
    requires
        run32(raw, dll, slots, base, in_module, st, log0).ok,
        log0.is_prefix_of(log),
    ensures
        run32(raw, dll, slots, base, in_module, st, log) == run32(raw, dll, slots, base, in_module, st, log0),
    decreases slots.len(),
{
    if slots.len() > 0 {
        let p = slots.drop_last();
        lemma_run32_prefix(raw, dll, p, base, in_module, st, log0, log);
        let s0 = run32(raw, dll, p, base, in_module, st, log0);
        if 0 <= s0.u < log0.len() {
            lemma_prefix_index(log0, log, s0.u);
        }
        if 0 <= s0.u + 1 < log0.len() {
            lemma_prefix_index(log0, log, s0.u + 1);
        }
        if 0 <= s0.u + 2 < log0.len() {
            lemma_prefix_index(log0, log, s0.u + 2);
        }
    }
}

proof fn lemma_desc_run32_prefix(
    sects: Seq<ImageSectionHeader>,
    raw: Seq<u8>,
    names: Seq<Seq<char>>,
    tables: Seq<(u32, u32)>,
    base: u32,
    in_module: bool,
    n: int,
    st: BindState<u32>,
    log0: Seq<LoaderCall>,
    log: Seq<LoaderCall>,
)
    requires
        desc_run32(sects, raw, names, tables, base, in_module, n, st, log0).ok,
        log0.is_prefix_of(log),
    ensures
        desc_run32(sects, raw, names, tables, base, in_module, n, st, log) == desc_run32(
            sects,
            raw,
            names,
            tables,
            base,
            in_module,
            n,
            st,
            log0,
        ),
    decreases n,
{
    if n > 0 {
        let s1 = desc_run32(sects, raw, names, tables, base, in_module, n - 1, st, log0);
        let name = names[n - 1];
        if name.len() > 0 {
            let s2 = BindState {
                cache: s1.cache,
                names: s1.names,
                u: s1.u + 1,
                ok: s1.ok && 0 <= s1.u < log0.len() && is_load(log0[s1.u], name),
            };
            let slots = spec_table32_slots(sects, raw, tables[n - 1].0, tables[n - 1].1);
            lemma_run32_mono(raw, name, slots, base, in_module, s2, log0);
            assert(s2.ok);
            lemma_desc_run32_prefix(sects, raw, names, tables, base, in_module, n - 1, st, log0, log);
            lemma_prefix_index(log0, log, s1.u);
            if answer_of(log0[s1.u]) != 0 && table32_ok(sects, raw, tables[n - 1].0, tables[n - 1].1) {
                lemma_run32_prefix(raw, name, slots, base, in_module, s2, log0, log);
            }
        } else {
            lemma_desc_run32_prefix(sects, raw, names, tables, base, in_module, n - 1, st, log0, log);
        }
    }
}

impl PE32 {
    /// The DLL names of the import descriptors, in order.
    pub open spec fn import_dll_names(&self) -> Seq<Seq<char>> {
        self.image_import_descriptor@.map_values(|d: ImageImportDescriptor| d.name@)
    }

    /// The name table and first IAT slot of each import descriptor.
    pub open spec fn import_tables(&self) -> Seq<(u32, u32)> {
        self.image_import_descriptor@.map_values(|d: ImageImportDescriptor| (walk_thunk32(d), d.first_thunk))
    }

    /// The DLL names of the delay-load descriptors, in order.
    pub open spec fn delay_dll_names(&self) -> Seq<Seq<char>> {
        self.delay_load_dir@.map_values(|d: DelayLoadDirectory| d.name@)
    }

    /// The name table and first slot of each delay-load descriptor.
    pub open spec fn delay_tables(&self) -> Seq<(u32, u32)> {
        self.delay_load_dir@.map_values(|d: DelayLoadDirectory| (d.name_table, d.bound_delay_import_table))
    }
}

impl PE32 {
    /// The `dll!function` name of slot `j` of import descriptor `k`.
    pub open spec fn import_slot_name(&self, raw: Seq<u8>, k: int, j: int) -> Seq<char> {
        let d = self.image_import_descriptor@[k];
        qualified_name(
            d.name@,
            slot_name(raw, spec_table32_slots(self.sect_hdr@, raw, walk_thunk32(d), d.first_thunk)[j]),
        )
    }

    /// Every `dll!function` name import binding can record.
    pub open spec fn spec_import_names(&self, raw: Seq<u8>) -> Set<Seq<char>> {
        Set::new(
            |v: Seq<char>|
                exists|k: int, j: int|
                    0 <= k < self.image_import_descriptor@.len()
                        && self.image_import_descriptor@[k].name@.len() > 0 && 0 <= j
                        < spec_table32_slots(
                        self.sect_hdr@,
                        raw,
                        walk_thunk32(self.image_import_descriptor@[k]),
                        self.image_import_descriptor@[k].first_thunk,
                    ).len() && v == #[trigger] self.import_slot_name(raw, k, j),
        )
    }

    /// The `dll!function` name of slot `j` of delay-load descriptor `k`.
    pub open spec fn delay_slot_name(&self, raw: Seq<u8>, k: int, j: int) -> Seq<char> {
        let d = self.delay_load_dir@[k];
        qualified_name(
            d.name@,
            slot_name(
                raw,
                spec_table32_slots(self.sect_hdr@, raw, d.name_table, d.bound_delay_import_table)[j],
            ),
        )
    }

    /// Every `dll!function` name delay-load binding can record.
    pub open spec fn spec_delay_import_names(&self, raw: Seq<u8>) -> Set<Seq<char>> {
        Set::new(
            |v: Seq<char>|
                exists|k: int, j: int|
                    0 <= k < self.delay_load_dir@.len() && self.delay_load_dir@[k].name@.len() > 0
                        && 0 <= j < spec_table32_slots(
                        self.sect_hdr@,
                        raw,
                        self.delay_load_dir@[k].name_table,
                        self.delay_load_dir@[k].bound_delay_import_table,
                    ).len() && v == #[trigger] self.delay_slot_name(raw, k, j),
        )
    }

    /// Binds the delay-load import tables: for each named descriptor, its DLL
    /// is asked of `loader.load_library`; when it loads and its name table can
    /// be walked without overflow, every named import is resolved globally
    /// through `loader`, a resolved one has its 32-bit slot
    /// patched and is recorded as `dll!function`, an unresolved one is left
    /// alone. The loader calls made, and the table reached, are exactly those
    /// of [`desc_run32`] over the delay-load descriptors.
    pub fn delay_load_binding<L: PeLoader>(&mut self, raw: &[u8], loader: &mut L, base_addr: u32)
        requires
            raw@.len() <= isize::MAX,
        ensures
            final(self).same_image(&*old(self)),
            recorded_within(
                old(self).iat_names@,
                final(self).iat_names@,
                old(self).spec_delay_import_names(raw@),
            ),
            old(loader).calls().is_prefix_of(final(loader).calls()),
            reached32(
                desc_run32(
                    old(self).sect_hdr@,
                    raw@,
                    old(self).delay_dll_names(),
                    old(self).delay_tables(),
                    base_addr,
                    false,
                    old(self).delay_load_dir@.len() as int,
                    bind_start(names_view(old(self).iat_names@), old(loader).calls().len() as int),
                    final(loader).calls(),
                ),
                final(self).iat_names@,
                final(loader).calls().len() as int,
            ),
    {
        let ghost names = self.spec_delay_import_names(raw@);
        let ghost init = self.iat_names@;
        let ghost st0 = bind_start(names_view(self.iat_names@), loader.calls().len() as int);
        let ghost dnames = self.delay_dll_names();
        let ghost tables = self.delay_tables();
        proof {
            assert(old(loader).calls().is_prefix_of(loader.calls())) by {
                assert(loader.calls().subrange(0, loader.calls().len() as int) =~= loader.calls());
            }
        }
        let mut i: usize = 0;
        while i < self.delay_load_dir.len()
            invariant
                raw@.len() <= isize::MAX,
                i <= self.delay_load_dir@.len(),
                self.same_image(&*old(self)),
                init == old(self).iat_names@,
                names == old(self).spec_delay_import_names(raw@),
                recorded_within(init, self.iat_names@, names),
                st0 == bind_start(names_view(old(self).iat_names@), old(loader).calls().len() as int),
                dnames == old(self).delay_dll_names(),
                tables == old(self).delay_tables(),
                old(loader).calls().is_prefix_of(loader.calls()),
                reached32(
                    desc_run32(old(self).sect_hdr@, raw@, dnames, tables, base_addr, false, i as int, st0, loader.calls()),
                    self.iat_names@,
                    loader.calls().len() as int,
                ),
                desc_run32(old(self).sect_hdr@, raw@, dnames, tables, base_addr, false, i as int, st0, loader.calls()).cache
                    == Seq::<(Seq<char>, u64)>::empty(),
            decreases self.delay_load_dir@.len() - i,
        {
            let ghost sects = old(self).sect_hdr@;
            let ghost log_i = loader.calls();
            let ghost s1 = desc_run32(sects, raw@, dnames, tables, base_addr, false, i as int, st0, log_i);
            let name = self.delay_load_dir[i].name.clone();
            assert(name@ == dnames[i as int]);
            if name.as_str().is_empty() {
                i = i + 1;
                continue;
            }
            let name_table = self.delay_load_dir[i].name_table;
            let bound_delay_import_table = self.delay_load_dir[i].bound_delay_import_table;
            assert(tables[i as int] == (name_table, bound_delay_import_table));

            let load_base = loader.load_library(name.as_str());
            let ghost log_l = loader.calls();
            proof {
                assert(log_i.is_prefix_of(log_l)) by {
                    assert(log_l.subrange(0, log_i.len() as int) =~= log_i);
                }
                lemma_prefix_trans(old(loader).calls(), log_i, log_l);
            }
            if load_base == 0 || !self.table32_fits(raw, name_table, bound_delay_import_table) {
                proof {
                    lemma_desc_run32_prefix(sects, raw@, dnames, tables, base_addr, false, i as int, st0, log_i, log_l);
                }
                i = i + 1;
                continue;
            }

            let ghost k = i as int;
            let ghost slots_spec = spec_table32_slots(
                self.sect_hdr@,
                raw@,
                name_table,
                bound_delay_import_table,
            );
            let ghost before = self.iat_names@;
            assert(self.delay_load_dir@[k].name@.len() > 0);
            let slots = self.thunk32_slots(raw, name_table, bound_delay_import_table);
            self.bind_slots32(raw, loader, base_addr, &slots, name.as_str(), false);
            proof {
                lemma_prefix_trans(log_i, log_l, loader.calls());
                lemma_prefix_trans(old(loader).calls(), log_l, loader.calls());
                lemma_desc_run32_prefix(sects, raw@, dnames, tables, base_addr, false, i as int, st0, log_i, loader.calls());
                lemma_prefix_index(log_l, loader.calls(), s1.u);
                lemma_run32_mono(
                    raw@,
                    name@,
                    slots_spec,
                    base_addr,
                    false,
                    bind_start(names_view(before), log_l.len() as int),
                    loader.calls(),
                );
            }
            assert(slot_names(raw@, name@, slots_spec).subset_of(names)) by {
                assert forall|v: Seq<char>| #[trigger]
                    slot_names(raw@, name@, slots_spec).contains(v) implies names.contains(v) by {
                    let j = choose|j: int|
                        0 <= j < slots_spec.len() && v == qualified_name(
                            name@,
                            slot_name(raw@, #[trigger] slots_spec[j]),
                        );
                    assert(v == old(self).delay_slot_name(raw@, k, j));
                }
            }
            proof {
                lemma_recorded_within_trans(
                    init,
                    before,
                    self.iat_names@,
                    names,
                    slot_names(raw@, name@, slots_spec),
                    names,
                );
            }
            i = i + 1;
        }
    }

    /// Binds the import address table: for each named descriptor, its DLL is
    /// asked of `loader.load_library`; when it loads and its name table can be
    /// walked without overflow, every named import (read from
    /// OriginalFirstThunk, or from the IAT when that is null) is resolved
    /// in its DLL, else globally. A resolved import has its 32-bit slot
    /// patched and is recorded under its address; an unresolved one is
    /// recorded under its name-table value, and the walk goes on. The loader
    /// calls made, and the table reached, are exactly those of [`desc_run32`]
    /// over the import descriptors.
    pub fn iat_binding<L: PeLoader>(&mut self, raw: &[u8], loader: &mut L, base_addr: u32)
        requires
            raw@.len() <= isize::MAX,
        ensures
            final(self).same_image(&*old(self)),
            recorded_within(
                old(self).iat_names@,
                final(self).iat_names@,
                old(self).spec_import_names(raw@),
            ),
            old(loader).calls().is_prefix_of(final(loader).calls()),
            reached32(
                desc_run32(
                    old(self).sect_hdr@,
                    raw@,
                    old(self).import_dll_names(),
                    old(self).import_tables(),
                    base_addr,
                    true,
                    old(self).image_import_descriptor@.len() as int,
                    bind_start(names_view(old(self).iat_names@), old(loader).calls().len() as int),
                    final(loader).calls(),
                ),
                final(self).iat_names@,
                final(loader).calls().len() as int,
            ),
    {
        let ghost names = self.spec_import_names(raw@);
        let ghost init = self.iat_names@;
        let ghost st0 = bind_start(names_view(self.iat_names@), loader.calls().len() as int);
        let ghost dnames = self.import_dll_names();
        let ghost tables = self.import_tables();
        proof {
            assert(old(loader).calls().is_prefix_of(loader.calls())) by {
                assert(loader.calls().subrange(0, loader.calls().len() as int) =~= loader.calls());
            }
        }
        let mut i: usize = 0;
        while i < self.image_import_descriptor.len()
            invariant
                raw@.len() <= isize::MAX,
                i <= self.image_import_descriptor@.len(),
                self.same_image(&*old(self)),
                init == old(self).iat_names@,
                names == old(self).spec_import_names(raw@),
                recorded_within(init, self.iat_names@, names),
                st0 == bind_start(names_view(old(self).iat_names@), old(loader).calls().len() as int),
                dnames == old(self).import_dll_names(),
                tables == old(self).import_tables(),
                old(loader).calls().is_prefix_of(loader.calls()),
                reached32(
                    desc_run32(old(self).sect_hdr@, raw@, dnames, tables, base_addr, true, i as int, st0, loader.calls()),
                    self.iat_names@,
                    loader.calls().len() as int,
                ),
                desc_run32(old(self).sect_hdr@, raw@, dnames, tables, base_addr, true, i as int, st0, loader.calls()).cache
                    == Seq::<(Seq<char>, u64)>::empty(),
            decreases self.image_import_descriptor@.len() - i,
        {
            let ghost sects = old(self).sect_hdr@;
            let ghost log_i = loader.calls();
            let ghost s1 = desc_run32(sects, raw@, dnames, tables, base_addr, true, i as int, st0, log_i);
            let iim_name = self.image_import_descriptor[i].name.clone();
            assert(iim_name@ == dnames[i as int]);
            if iim_name.as_str().is_empty() {
                i = i + 1;
                continue;
            }
            let original_first_thunk = self.image_import_descriptor[i].original_first_thunk;
            let first_thunk = self.image_import_descriptor[i].first_thunk;

            let load_base = loader.load_library(iim_name.as_str());
            let ghost log_l = loader.calls();
            proof {
                assert(log_i.is_prefix_of(log_l)) by {
                    assert(log_l.subrange(0, log_i.len() as int) =~= log_i);
                }
                lemma_prefix_trans(old(loader).calls(), log_i, log_l);
            }
            let walk_thunk = if original_first_thunk != 0 {
                original_first_thunk
            } else {
                first_thunk
            };
            assert(tables[i as int] == (walk_thunk, first_thunk));
            if load_base == 0 || !self.table32_fits(raw, walk_thunk, first_thunk) {
                proof {
                    lemma_desc_run32_prefix(sects, raw@, dnames, tables, base_addr, true, i as int, st0, log_i, log_l);
                }
                i = i + 1;
                continue;
            }
            let ghost k = i as int;
            let ghost slots_spec = spec_table32_slots(self.sect_hdr@, raw@, walk_thunk, first_thunk);
            let ghost before = self.iat_names@;
            assert(self.image_import_descriptor@[k].name@.len() > 0);
            let slots = self.thunk32_slots(raw, walk_thunk, first_thunk);
            self.bind_slots32(raw, loader, base_addr, &slots, iim_name.as_str(), true);
            proof {
                lemma_prefix_trans(log_i, log_l, loader.calls());
                lemma_prefix_trans(old(loader).calls(), log_l, loader.calls());
                lemma_desc_run32_prefix(sects, raw@, dnames, tables, base_addr, true, i as int, st0, log_i, loader.calls());
                lemma_prefix_index(log_l, loader.calls(), s1.u);
                lemma_run32_mono(
                    raw@,
                    iim_name@,
                    slots_spec,
                    base_addr,
                    true,
                    bind_start(names_view(before), log_l.len() as int),
                    loader.calls(),
                );
            }
            assert(slot_names(raw@, iim_name@, slots_spec).subset_of(names)) by {
                assert forall|v: Seq<char>| #[trigger]
                    slot_names(raw@, iim_name@, slots_spec).contains(v) implies names.contains(v) by {
                    let j = choose|j: int|
                        0 <= j < slots_spec.len() && v == qualified_name(
                            iim_name@,
                            slot_name(raw@, #[trigger] slots_spec[j]),
                        );
                    assert(v == old(self).import_slot_name(raw@, k, j));
                }
            }
            proof {
                lemma_recorded_within_trans(
                    init,
                    before,
                    self.iat_names@,
                    names,
                    slot_names(raw@, iim_name@, slots_spec),
                    names,
                );
            }
            i = i + 1;
        }
    }

    /// The function name recorded for import address `paddr` during binding
    /// (the part after `!` of its `dll!function`); empty when none is recorded.
    pub fn import_addr_to_name(&self, paddr: u32) -> (name: String)
        ensures
            name@ == spec_import_addr_to_name(self.iat_names@, paddr),
    {
        match self.iat_names.get(&paddr) {
            Some(full) => match split_after_bang(full.as_str()) {
                Some(name) => name,
                None => String::new(),
            },
            None => String::new(),
        }
    }
}

/// Law (naming bound and still-unbound slots): after the 32-bit
/// import-binding step for import `f` of `dll` (with no `!` in `dll`), the
/// address written into its slot, or, when `f` did not resolve, the value the
/// unbound slot keeps, reads back as `f`.
pub proof fn lemma_bound_slot_reads_back32(
    raw: Seq<u8>,
    dll: Seq<char>,
    slot: ImportSlot,
    base: u32,
    st: BindState<u32>,
    log: Seq<LoaderCall>,
    names: Map<u32, String>,
)
    requires
        !dll.contains('!'),
        names_view(names) == step32(raw, dll, slot, base, true, st, log).names,
    ensures
        spec_import_addr_to_name(names, step32_key(dll, slot, st, log)) == slot_name(raw, slot),
{
    let k = step32_key(dll, slot, st, log);
    let q = qualified_name(dll, slot_name(raw, slot));
    assert(names_view(names).contains_key(k) && names_view(names)[k] == q);
    assert(names.contains_key(k));
    assert(names[k]@ == q);
    lemma_name_of_qualified(names, k, dll, slot_name(raw, slot));
}

/// Law: after import binding, every entry binding added or changed reads
/// back, by name, as the function name of one slot of a named import
/// descriptor (when no descriptor name holds a `!`).
pub proof fn lemma_bound_address_names_an_import32(before: &PE32, after: &PE32, raw: Seq<u8>, paddr: u32)
    requires
        recorded_within(before.iat_names@, after.iat_names@, before.spec_import_names(raw)),
        after.iat_names@.contains_key(paddr),
        !(before.iat_names@.contains_key(paddr) && after.iat_names@[paddr] == before.iat_names@[paddr]),
        forall|k: int|
            0 <= k < before.image_import_descriptor@.len() ==> !(
            #[trigger] before.image_import_descriptor@[k]).name@.contains('!'),
    ensures
        exists|k: int, j: int|
            0 <= k < before.image_import_descriptor@.len() && 0 <= j < spec_table32_slots(
                before.sect_hdr@,
                raw,
                walk_thunk32(before.image_import_descriptor@[k]),
                before.image_import_descriptor@[k].first_thunk,
            ).len() && spec_import_addr_to_name(after.iat_names@, paddr) == slot_name(
                raw,
                #[trigger] spec_table32_slots(
                    before.sect_hdr@,
                    raw,
                    walk_thunk32(before.image_import_descriptor@[k]),
                    before.image_import_descriptor@[k].first_thunk,
                )[j],
            ),
{
    let v = after.iat_names@[paddr]@;
    assert(before.spec_import_names(raw).contains(v));
    let (k, j) = choose|k: int, j: int|
        0 <= k < before.image_import_descriptor@.len()
            && before.image_import_descriptor@[k].name@.len() > 0 && 0 <= j < spec_table32_slots(
            before.sect_hdr@,
            raw,
            walk_thunk32(before.image_import_descriptor@[k]),
            before.image_import_descriptor@[k].first_thunk,
        ).len() && v == #[trigger] before.import_slot_name(raw, k, j);
    let d = before.image_import_descriptor@[k];
    let slot = spec_table32_slots(before.sect_hdr@, raw, walk_thunk32(d), d.first_thunk)[j];
    lemma_name_of_qualified(after.iat_names@, paddr, d.name@, slot_name(raw, slot));
}


/// The walk of the 32-bit name table at `off_name` reaches entry `j`: entries
/// `0..=j` lie in the file and none before `j` is zero.
pub open spec fn thunk32_walk_reaches(raw: Seq<u8>, off_name: int, j: int) -> bool {
    &&& j >= 0
    &&& forall|i: int| 0 <= i <= j ==> raw.len() > #[trigger] (off_name + 4 * i) + 4
    &&& forall|i: int| 0 <= i < j ==> le_u32(raw, #[trigger] (off_name + 4 * i)) != 0
}

/// The slot entry `j` of a 32-bit name table stands for when it names an
/// import whose hint/name entry maps into the file: IAT slot RVA
/// `rva + 4 * j`; `None` for a zero entry, an ordinal one, or a name that
/// does not map.
pub open spec fn named_entry_slot32(
    sects: Seq<ImageSectionHeader>,
    raw: Seq<u8>,
    off_name: int,
    rva: int,
    j: int,
) -> Option<ImportSlot> {
    let t = le_u32(raw, off_name + 4 * j);
    let o = spec_vaddr_to_off(sects, t) as int;
    if t != 0 && t & ORDINAL_FLAG32 == 0 && o != 0 {
        Some(ImportSlot { slot_rva: (rva + 4 * j) as u32, name_off: (o + 2) as u64, thunk: t as u64 })
    } else {
        None
    }
}

/// Law (every named import of a 32-bit name table is bound): when the walk
/// reaches entry `j` and entry `j` names an import whose name maps into the
/// file, its slot (IAT RVA `rva + 4 * j`) is among the slots the walk yields,
/// whatever entries (ordinal ones included) come before it.
pub proof fn lemma_thunk32_slots_complete(
    sects: Seq<ImageSectionHeader>,
    raw: Seq<u8>,
    off_name: int,
    rva: int,
    j: int,
)
    requires
        thunk32_walk_reaches(raw, off_name, j),
        named_entry_slot32(sects, raw, off_name, rva, j) is Some,
    ensures
        exists|k: int|
            0 <= k < spec_thunk32_slots(sects, raw, off_name, rva).len()
                && #[trigger] spec_thunk32_slots(sects, raw, off_name, rva)[k] == named_entry_slot32(
                sects,
                raw,
                off_name,
                rva,
                j,
            )->0,
    decreases j,
{
    assert(raw.len() > (off_name + 4 * 0) + 4);
    let slots = spec_thunk32_slots(sects, raw, off_name, rva);
    let rest = spec_thunk32_slots(sects, raw, off_name + 4, rva + 4);
    let t = le_u32(raw, off_name);
    if j == 0 {
        assert(off_name + 4 * 0 == off_name);
        assert(slots[0] == named_entry_slot32(sects, raw, off_name, rva, 0)->0);
    } else {
        assert(le_u32(raw, off_name + 4 * 0) != 0);
        assert(thunk32_walk_reaches(raw, off_name + 4, j - 1)) by {
            assert forall|i: int| 0 <= i <= j - 1 implies raw.len() > #[trigger] ((off_name + 4) + 4 * i) + 4 by {
                assert((off_name + 4) + 4 * i == off_name + 4 * (i + 1));
                assert(raw.len() > (off_name + 4 * (i + 1)) + 4);
            }
            assert forall|i: int| 0 <= i < j - 1 implies le_u32(raw, #[trigger] ((off_name + 4) + 4 * i)) != 0 by {
                assert((off_name + 4) + 4 * i == off_name + 4 * (i + 1));
                assert(le_u32(raw, off_name + 4 * (i + 1)) != 0);
            }
        }
        assert((off_name + 4) + 4 * (j - 1) == off_name + 4 * j);
        assert(named_entry_slot32(sects, raw, off_name + 4, rva + 4, j - 1) == named_entry_slot32(
            sects,
            raw,
            off_name,
            rva,
            j,
        ));
        lemma_thunk32_slots_complete(sects, raw, off_name + 4, rva + 4, j - 1);
        let k = choose|k: int|
            0 <= k < rest.len() && #[trigger] rest[k] == named_entry_slot32(
                sects,
                raw,
                off_name + 4,
                rva + 4,
                j - 1,
            )->0;
        if t & ORDINAL_FLAG32 != 0 || spec_vaddr_to_off(sects, t) == 0 {
            assert(slots == rest);
            assert(slots[k] == rest[k]);
        } else {
            assert(slots[k + 1] == rest[k]);
        }
    }
}

/// Law (the bound 32-bit slots are exactly the named entries): every slot
/// the walk of a 32-bit name table yields stands for an entry `j` that the
/// walk reaches and that names an import whose name maps into the file.
pub proof fn lemma_thunk32_slots_sound(
    sects: Seq<ImageSectionHeader>,
    raw: Seq<u8>,
    off_name: int,
    rva: int,
    k: int,
)
    requires
        0 <= k < spec_thunk32_slots(sects, raw, off_name, rva).len(),
    ensures
        exists|j: int|
            #![trigger named_entry_slot32(sects, raw, off_name, rva, j)]
            thunk32_walk_reaches(raw, off_name, j) && named_entry_slot32(sects, raw, off_name, rva, j) == Some(
                spec_thunk32_slots(sects, raw, off_name, rva)[k],
            ),
    decreases raw.len() - off_name,
{
    let slots = spec_thunk32_slots(sects, raw, off_name, rva);
    let rest = spec_thunk32_slots(sects, raw, off_name + 4, rva + 4);
    let t = le_u32(raw, off_name);
    assert(raw.len() > off_name + 4 && t != 0);
    assert(off_name + 4 * 0 == off_name);
    let named = !(t & ORDINAL_FLAG32 != 0 || spec_vaddr_to_off(sects, t) == 0);
    if named && k == 0 {
        assert(thunk32_walk_reaches(raw, off_name, 0)) by {
            assert forall|i: int| 0 <= i <= 0 implies raw.len() > #[trigger] (off_name + 4 * i) + 4 by {}
        }
        assert(named_entry_slot32(sects, raw, off_name, rva, 0) == Some(slots[0]));
    } else {
        let k2 = if named { k - 1 } else { k };
        assert(slots[k] == rest[k2]);
        lemma_thunk32_slots_sound(sects, raw, off_name + 4, rva + 4, k2);
        let j2 = choose|j2: int|
            #![trigger named_entry_slot32(sects, raw, off_name + 4, rva + 4, j2)]
            thunk32_walk_reaches(raw, off_name + 4, j2) && named_entry_slot32(sects, raw, off_name + 4, rva + 4, j2)
                == Some(rest[k2]);
        let j = j2 + 1;
        assert((off_name + 4) + 4 * j2 == off_name + 4 * j);
        assert(named_entry_slot32(sects, raw, off_name, rva, j) == named_entry_slot32(
            sects,
            raw,
            off_name + 4,
            rva + 4,
            j2,
        ));
        assert forall|i: int| 0 <= i <= j implies raw.len() > #[trigger] (off_name + 4 * i) + 4 by {
            if i > 0 {
                assert((off_name + 4) + 4 * (i - 1) == off_name + 4 * i);
                assert(raw.len() > ((off_name + 4) + 4 * (i - 1)) + 4);
            }
        }
        assert forall|i: int| 0 <= i < j implies le_u32(raw, #[trigger] (off_name + 4 * i)) != 0 by {
            if i > 0 {
                assert((off_name + 4) + 4 * (i - 1) == off_name + 4 * i);
                assert(le_u32(raw, (off_name + 4) + 4 * (i - 1)) != 0);
            }
        }
        assert(thunk32_walk_reaches(raw, off_name, j));
    }
}


/// Every lookup the loader answered in `log`, in a module or globally,
/// resolved (a nonzero address).
pub open spec fn loader_resolves_every_lookup(log: Seq<LoaderCall>) -> bool {
    forall|p: int|
        0 <= p < log.len() && ((#[trigger] log[p]) is ResolveApiNameInModule || log[p] is ResolveApiName)
            ==> answer_of(log[p]) != 0
}

/// Every library load answered in `log` succeeded (a nonzero base).
pub open spec fn loader_loads_every_library(log: Seq<LoaderCall>) -> bool {
    forall|p: int| 0 <= p < log.len() && (#[trigger] log[p]) is LoadLibrary ==> answer_of(log[p]) != 0
}

/// `log` holds a `write_dword` at `addr`.
pub open spec fn slot_written32(log: Seq<LoaderCall>, addr: u64) -> bool {
    exists|p: int|
        0 <= p < log.len() && (#[trigger] log[p] matches LoaderCall::WriteDword { addr: a, .. } && a == addr)
}

proof fn lemma_run32_writes_every_slot(
    raw: Seq<u8>,
    dll: Seq<char>,
    slots: Seq<ImportSlot>,
    base: u32,
    in_module: bool,
    st: BindState<u32>,
    log: Seq<LoaderCall>,
)
    requires
        run32(raw, dll, slots, base, in_module, st, log).ok,
        loader_resolves_every_lookup(log),
    ensures
        forall|j: int|
            0 <= j < slots.len() ==> slot_written32(log, (base + (#[trigger] slots[j]).slot_rva) as u64),
    decreases slots.len(),
{
    if slots.len() > 0 {
        let p = slots.drop_last();
        let prev = run32(raw, dll, p, base, in_module, st, log);
        let s = slots.last();
        assert(prev.ok);
        lemma_run32_writes_every_slot(raw, dll, p, base, in_module, st, log);
        let u = prev.u;
        assert(log[u] is ResolveApiNameInModule || log[u] is ResolveApiName);
        assert(answer_of(log[u]) != 0);
        let r = step32_answer(dll, s, in_module, prev, log);
        assert(r != 0);
        assert(is_write_dword(log[u + 1], (base + s.slot_rva) as u64, r as u32));
        assert(slot_written32(log, (base + s.slot_rva) as u64));
        assert forall|j: int| 0 <= j < slots.len() implies slot_written32(
            log,
            (base + (#[trigger] slots[j]).slot_rva) as u64,
        ) by {
            if j < p.len() {
                assert(slots[j] == p[j]);
            }
        }
    }
}

proof fn lemma_desc_run32_writes(
    sects: Seq<ImageSectionHeader>,
    raw: Seq<u8>,
    names: Seq<Seq<char>>,
    tables: Seq<(u32, u32)>,
    base: u32,
    in_module: bool,
    n: int,
    st: BindState<u32>,
    log: Seq<LoaderCall>,
)
    requires
        0 <= n <= names.len(),
        names.len() == tables.len(),
        desc_run32(sects, raw, names, tables, base, in_module, n, st, log).ok,
        loader_resolves_every_lookup(log),
        loader_loads_every_library(log),
    ensures
        forall|k: int, j: int|
            0 <= k < n && names[k].len() > 0 && table32_ok(sects, raw, tables[k].0, tables[k].1) && 0 <= j
                < spec_table32_slots(sects, raw, tables[k].0, tables[k].1).len() ==> slot_written32(
                log,
                (base + (#[trigger] spec_table32_slots(sects, raw, tables[k].0, tables[k].1)[j]).slot_rva) as u64,
            ),
    decreases n,
{
    if n > 0 {
        let s1 = desc_run32(sects, raw, names, tables, base, in_module, n - 1, st, log);
        let name = names[n - 1];
        let slots = spec_table32_slots(sects, raw, tables[n - 1].0, tables[n - 1].1);
        if name.len() > 0 {
            let s2 = BindState {
                cache: s1.cache,
                names: s1.names,
                u: s1.u + 1,
                ok: s1.ok && 0 <= s1.u < log.len() && is_load(log[s1.u], name),
            };
            if answer_of(log[s1.u]) != 0 && table32_ok(sects, raw, tables[n - 1].0, tables[n - 1].1) {
                lemma_run32_mono(raw, name, slots, base, in_module, s2, log);
                lemma_run32_writes_every_slot(raw, name, slots, base, in_module, s2, log);
            } else {
                assert(s2.ok);
                assert(log[s1.u] is LoadLibrary);
            }
        }
        lemma_desc_run32_writes(sects, raw, names, tables, base, in_module, n - 1, st, log);
    }
}

/// Law (32-bit binding binds every loaded descriptor): when every library
/// load and every lookup the loader answered succeeded, 32-bit import
/// binding writes, for every named import descriptor (not only the first)
/// whose name table can be walked, a dword into every slot of its table at
/// `base` plus the slot's RVA. `log` and the start state are those
/// `PE32::iat_binding` states its run over.
pub proof fn lemma_iat_binding32_binds_every_descriptor(
    pe: &PE32,
    raw: Seq<u8>,
    base: u32,
    names: Map<u32, Seq<char>>,
    u: int,
    log: Seq<LoaderCall>,
)
    requires
        desc_run32(
            pe.sect_hdr@,
            raw,
            pe.import_dll_names(),
            pe.import_tables(),
            base,
            true,
            pe.image_import_descriptor@.len() as int,
            bind_start(names, u),
            log,
        ).ok,
        loader_resolves_every_lookup(log),
        loader_loads_every_library(log),
    ensures
        forall|k: int, j: int|
            0 <= k < pe.image_import_descriptor@.len() && pe.image_import_descriptor@[k].name@.len() > 0
                && table32_ok(
                pe.sect_hdr@,
                raw,
                walk_thunk32(pe.image_import_descriptor@[k]),
                pe.image_import_descriptor@[k].first_thunk,
            ) && 0 <= j < spec_table32_slots(
                pe.sect_hdr@,
                raw,
                walk_thunk32(pe.image_import_descriptor@[k]),
                pe.image_import_descriptor@[k].first_thunk,
            ).len() ==> slot_written32(
                log,
                (base + (#[trigger] spec_table32_slots(
                    pe.sect_hdr@,
                    raw,
                    walk_thunk32(pe.image_import_descriptor@[k]),
                    pe.image_import_descriptor@[k].first_thunk,
                )[j]).slot_rva) as u64,
            ),
{
    let dnames = pe.import_dll_names();
    let tables = pe.import_tables();
    lemma_desc_run32_writes(
        pe.sect_hdr@,
        raw,
        dnames,
        tables,
        base,
        true,
        pe.image_import_descriptor@.len() as int,
        bind_start(names, u),
        log,
    );
    assert forall|k: int, j: int|
        0 <= k < pe.image_import_descriptor@.len() && pe.image_import_descriptor@[k].name@.len() > 0
            && table32_ok(
            pe.sect_hdr@,
            raw,
            walk_thunk32(pe.image_import_descriptor@[k]),
            pe.image_import_descriptor@[k].first_thunk,
        ) && 0 <= j < spec_table32_slots(
            pe.sect_hdr@,
            raw,
            walk_thunk32(pe.image_import_descriptor@[k]),
            pe.image_import_descriptor@[k].first_thunk,
        ).len() implies slot_written32(
        log,
        (base + (#[trigger] spec_table32_slots(
            pe.sect_hdr@,
            raw,
            walk_thunk32(pe.image_import_descriptor@[k]),
            pe.image_import_descriptor@[k].first_thunk,
        )[j]).slot_rva) as u64,
    ) by {
        assert(dnames[k] == pe.image_import_descriptor@[k].name@);
        assert(tables[k] == (
            walk_thunk32(pe.image_import_descriptor@[k]),
            pe.image_import_descriptor@[k].first_thunk,
        ));
        assert(spec_table32_slots(pe.sect_hdr@, raw, tables[k].0, tables[k].1)[j] == spec_table32_slots(
            pe.sect_hdr@,
            raw,
            walk_thunk32(pe.image_import_descriptor@[k]),
            pe.image_import_descriptor@[k].first_thunk,
        )[j]);
    }
}

/// Law (32-bit delay-load binding binds every loaded descriptor): when every
/// library load and every lookup the loader answered succeeded, 32-bit
/// delay-load binding writes, for every named delay-load descriptor whose
/// name table can be walked, a dword into every slot of its table at `base`
/// plus the slot's RVA. `log` and the start state are those
/// `PE32::delay_load_binding` states its run over.
pub proof fn lemma_delay_binding32_binds_every_descriptor(
    pe: &PE32,
    raw: Seq<u8>,
    base: u32,
    names: Map<u32, Seq<char>>,
    u: int,
    log: Seq<LoaderCall>,
)
    requires
        desc_run32(
            pe.sect_hdr@,
            raw,
            pe.delay_dll_names(),
            pe.delay_tables(),
            base,
            false,
            pe.delay_load_dir@.len() as int,
            bind_start(names, u),
            log,
        ).ok,
        loader_resolves_every_lookup(log),
        loader_loads_every_library(log),
    ensures
        forall|k: int, j: int|
            0 <= k < pe.delay_load_dir@.len() && pe.delay_load_dir@[k].name@.len() > 0 && table32_ok(
                pe.sect_hdr@,
                raw,
                pe.delay_load_dir@[k].name_table,
                pe.delay_load_dir@[k].bound_delay_import_table,
            ) && 0 <= j < spec_table32_slots(
                pe.sect_hdr@,
                raw,
                pe.delay_load_dir@[k].name_table,
                pe.delay_load_dir@[k].bound_delay_import_table,
            ).len() ==> slot_written32(
                log,
                (base + (#[trigger] spec_table32_slots(
                    pe.sect_hdr@,
                    raw,
                    pe.delay_load_dir@[k].name_table,
                    pe.delay_load_dir@[k].bound_delay_import_table,
                )[j]).slot_rva) as u64,
            ),
{
    let dnames = pe.delay_dll_names();
    let tables = pe.delay_tables();
    lemma_desc_run32_writes(
        pe.sect_hdr@,
        raw,
        dnames,
        tables,
        base,
        false,
        pe.delay_load_dir@.len() as int,
        bind_start(names, u),
        log,
    );
    assert forall|k: int, j: int|
        0 <= k < pe.delay_load_dir@.len() && pe.delay_load_dir@[k].name@.len() > 0 && table32_ok(
            pe.sect_hdr@,
            raw,
            pe.delay_load_dir@[k].name_table,
            pe.delay_load_dir@[k].bound_delay_import_table,
        ) && 0 <= j < spec_table32_slots(
            pe.sect_hdr@,
            raw,
            pe.delay_load_dir@[k].name_table,
            pe.delay_load_dir@[k].bound_delay_import_table,
        ).len() implies slot_written32(
        log,
        (base + (#[trigger] spec_table32_slots(
            pe.sect_hdr@,
            raw,
            pe.delay_load_dir@[k].name_table,
            pe.delay_load_dir@[k].bound_delay_import_table,
        )[j]).slot_rva) as u64,
    ) by {
        assert(dnames[k] == pe.delay_load_dir@[k].name@);
        assert(tables[k] == (pe.delay_load_dir@[k].name_table, pe.delay_load_dir@[k].bound_delay_import_table));
        assert(spec_table32_slots(pe.sect_hdr@, raw, tables[k].0, tables[k].1)[j] == spec_table32_slots(
            pe.sect_hdr@,
            raw,
            pe.delay_load_dir@[k].name_table,
            pe.delay_load_dir@[k].bound_delay_import_table,
        )[j]);
    }
}

} // verus!
