//! Import binding of a PE32+ image: resolving imports through a [`PeLoader`]
//! and patching the import address tables.
use std::collections::HashMap;
use vstd::prelude::*;

use crate::pe::loader::{
    answer_of, bind_from, bind_start, is_load, is_resolve_in, is_write_qword, lemma_prefix_index,
    lemma_prefix_trans, names_view, BindState, LoaderCall, PeLoader,
};
use crate::pe::names::{
    cache_key, is_api_set_contract, lemma_recorded_within_trans, make_cache_key, qualified_name,
    qualify, recorded_within, slot_name, slot_names, spec_is_api_set_contract, after_first_bang,
    first_bang, split_after_bang, ImportSlot,
};
use crate::pe::pe32::{
    spec_vaddr_to_off, vaddr_to_off_ok, DelayLoadDirectory, ImageImportDescriptor, ImageSectionHeader,
};
use crate::pe::readers::{c_string, le_u32, le_u64, read_c_string, read_u32_le, read_u64_le};
use super::relocation::QwordPatch;
use super::PE64;

verus! {

broadcast use vstd::std_specs::hash::group_hash_axioms;

/// High bit of a 64-bit name-table entry: import by ordinal.
pub const ORDINAL_FLAG64: u64 = 0x8000_0000_0000_0000;
/// The name-RVA part of a 64-bit name-table entry.
pub const NAME_RVA_MASK64: u64 = 0x7fff_ffff_ffff_ffff;

/// The slots bound by walking an OriginalFirstThunk table at file offset
/// `off_name` alongside the IAT at `off_addr` (slot RVA `rva`): one 8-byte
/// entry per step, until either table runs past the file or a zero entry;
/// ordinal entries and names that do not map into the file are skipped.
pub open spec fn spec_orig_slots(
    sects: Seq<ImageSectionHeader>,
    raw: Seq<u8>,
    off_name: int,
    off_addr: int,
    rva: int,
) -> Seq<ImportSlot>
    decreases raw.len() - off_name,
{
    if raw.len() <= off_name + 8 || raw.len() <= off_addr + 8 {
        Seq::empty()
    } else {
        let t = le_u64(raw, off_name);
        if t == 0 {
            Seq::empty()
        } else if t & ORDINAL_FLAG64 != 0 {
            spec_orig_slots(sects, raw, off_name + 8, off_addr + 8, rva + 8)
        } else {
            let off2 = spec_vaddr_to_off(sects, (t & NAME_RVA_MASK64) as u32) as int;
            if off2 == 0 {
                spec_orig_slots(sects, raw, off_name + 8, off_addr + 8, rva + 8)
            } else {
                seq![ImportSlot { slot_rva: rva as u32, name_off: (off2 + 2) as u64, thunk: t }]
                    + spec_orig_slots(sects, raw, off_name + 8, off_addr + 8, rva + 8)
            }
        }
    }
}

/// The walk of [`spec_orig_slots`] does no arithmetic that overflows.
pub open spec fn orig_walk_ok(
    sects: Seq<ImageSectionHeader>,
    raw: Seq<u8>,
    off_name: int,
    off_addr: int,
    rva: int,
) -> bool
    decreases raw.len() - off_name,
{
    if raw.len() <= off_name + 8 || raw.len() <= off_addr + 8 {
        true
    } else {
        let t = le_u64(raw, off_name);
        if t == 0 {
            true
        } else {
            &&& rva + 8 <= u32::MAX
            &&& if t & ORDINAL_FLAG64 != 0 {
                orig_walk_ok(sects, raw, off_name + 8, off_addr + 8, rva + 8)
            } else {
                let fna = (t & NAME_RVA_MASK64) as u32;
                &&& vaddr_to_off_ok(sects, fna)
                &&& orig_walk_ok(sects, raw, off_name + 8, off_addr + 8, rva + 8)
            }
        }
    }
}

/// The slots bound by walking the IAT itself from slot RVA `rva` (when the
/// descriptor has no OriginalFirstThunk): each step maps the slot RVA to the file,
/// and stops when the slot runs past the file or holds zero.
pub open spec fn spec_alt_slots(sects: Seq<ImageSectionHeader>, raw: Seq<u8>, rva: int) -> Seq<ImportSlot>
    decreases (if 0 <= rva <= u32::MAX { u32::MAX + 1 - rva } else { 0 }),
{
    if rva < 0 || rva > u32::MAX {
        Seq::empty()
    } else {
        let off = spec_vaddr_to_off(sects, rva as u32) as int;
        let v = le_u64(raw, off);
        if raw.len() <= off + 8 || v == 0 {
            Seq::empty()
        } else {
            let off_name = spec_vaddr_to_off(sects, (v & NAME_RVA_MASK64) as u32) as int;
            seq![ImportSlot { slot_rva: rva as u32, name_off: (off_name + 2) as u64, thunk: v }]
                + spec_alt_slots(sects, raw, rva + 8)
        }
    }
}

/// The walk of [`spec_alt_slots`] runs to completion: it meets no ordinal
/// entry (which this walk does not bind) and no arithmetic it does overflows.
pub open spec fn alt_walk_ok(sects: Seq<ImageSectionHeader>, raw: Seq<u8>, rva: int) -> bool
    decreases (if 0 <= rva <= u32::MAX { u32::MAX + 1 - rva } else { 0 }),
{
    &&& 0 <= rva <= u32::MAX
    &&& vaddr_to_off_ok(sects, rva as u32)
    &&& {
        let off = spec_vaddr_to_off(sects, rva as u32) as int;
        let v = le_u64(raw, off);
        raw.len() <= off + 8 || v == 0 || {
            &&& v & ORDINAL_FLAG64 == 0
            &&& vaddr_to_off_ok(sects, (v & NAME_RVA_MASK64) as u32)
            &&& rva + 8 <= u32::MAX
            &&& alt_walk_ok(sects, raw, rva + 8)
        }
    }
}

/// The slots bound by walking a delay-load name table at file offset
/// `off_name` (4-byte entries) alongside its address table at `off_addr`
/// (8-byte slots, slot RVA `rva`), until either runs past the file; entries
/// whose name does not map into the file are skipped.
pub open spec fn spec_delay_slots(
    sects: Seq<ImageSectionHeader>,
    raw: Seq<u8>,
    off_name: int,
    off_addr: int,
    rva: int,
) -> Seq<ImportSlot>
    decreases raw.len() - off_name,
{
    if raw.len() <= off_name + 4 || raw.len() <= off_addr + 4 {
        Seq::empty()
    } else {
        let fna = le_u32(raw, off_name);
        let off2 = spec_vaddr_to_off(sects, fna) as int;
        if off2 == 0 {
            spec_delay_slots(sects, raw, off_name + 4, off_addr + 8, rva + 8)
        } else {
            seq![ImportSlot { slot_rva: rva as u32, name_off: (off2 + 2) as u64, thunk: fna as u64 }]
                + spec_delay_slots(sects, raw, off_name + 4, off_addr + 8, rva + 8)
        }
    }
}

/// The walk of [`spec_delay_slots`] does no arithmetic that overflows.
pub open spec fn delay_walk_ok(
    sects: Seq<ImageSectionHeader>,
    raw: Seq<u8>,
    off_name: int,
    off_addr: int,
    rva: int,
) -> bool
    decreases raw.len() - off_name,
{
    if raw.len() <= off_name + 4 || raw.len() <= off_addr + 4 {
        true
    } else {
        let fna = le_u32(raw, off_name);
        &&& vaddr_to_off_ok(sects, fna)
        &&& rva + 8 <= u32::MAX
        &&& delay_walk_ok(sects, raw, off_name + 4, off_addr + 8, rva + 8)
    }
}

impl PE64 {
    /// The slots of an import descriptor that has an OriginalFirstThunk table.
    pub fn original_thunk_slots(&self, raw: &[u8], original_first_thunk: u32, first_thunk: u32) -> (slots: Vec<ImportSlot>)
        requires
            raw@.len() <= isize::MAX,
            vaddr_to_off_ok(self.sect_hdr@, original_first_thunk),
            vaddr_to_off_ok(self.sect_hdr@, first_thunk),
            orig_walk_ok(
                self.sect_hdr@,
                raw@,
                spec_vaddr_to_off(self.sect_hdr@, original_first_thunk) as int,
                spec_vaddr_to_off(self.sect_hdr@, first_thunk) as int,
                first_thunk as int,
            ),
        ensures
            slots@ == spec_orig_slots(
                self.sect_hdr@,
                raw@,
                spec_vaddr_to_off(self.sect_hdr@, original_first_thunk) as int,
                spec_vaddr_to_off(self.sect_hdr@, first_thunk) as int,
                first_thunk as int,
            ),
    {
        let mut off_name = PE64::vaddr_to_off(&self.sect_hdr, original_first_thunk) as u64;
        let mut off_addr = PE64::vaddr_to_off(&self.sect_hdr, first_thunk) as u64;
        let mut rva = first_thunk;
        let ghost total = spec_orig_slots(
            self.sect_hdr@,
            raw@,
            off_name as int,
            off_addr as int,
            rva as int,
        );
        let mut slots: Vec<ImportSlot> = Vec::new();
        loop
            invariant_except_break
                off_name <= u32::MAX || off_name < raw@.len(),
                off_addr <= u32::MAX || off_addr < raw@.len(),
                orig_walk_ok(self.sect_hdr@, raw@, off_name as int, off_addr as int, rva as int),
                total == slots@ + spec_orig_slots(
                    self.sect_hdr@,
                    raw@,
                    off_name as int,
                    off_addr as int,
                    rva as int,
                ),
            invariant
                raw@.len() <= isize::MAX,
            ensures
                slots@ == total,
            decreases raw@.len() - off_name,
        {
            if raw.len() as u64 <= off_name + 8 || raw.len() as u64 <= off_addr + 8 {
                assert(slots@ =~= total);
                break;
            }
            let thunk_data = read_u64_le(raw, off_name);
            if thunk_data == 0 {
                assert(slots@ =~= total);
                break;
            }
            if thunk_data & ORDINAL_FLAG64 != 0 {
                off_name = off_name + 8;
                off_addr = off_addr + 8;
                rva = rva + 8;
                continue;
            }
            let func_name_addr = (thunk_data & NAME_RVA_MASK64) as u32;
            let off2 = PE64::vaddr_to_off(&self.sect_hdr, func_name_addr) as u64;
            if off2 == 0 {
                off_name = off_name + 8;
                off_addr = off_addr + 8;
                rva = rva + 8;
                continue;
            }
            let ghost before = slots@;
            slots.push(ImportSlot { slot_rva: rva, name_off: off2 + 2, thunk: thunk_data });
            assert(before + spec_orig_slots(
                self.sect_hdr@,
                raw@,
                off_name as int,
                off_addr as int,
                rva as int,
            ) =~= slots@ + spec_orig_slots(
                self.sect_hdr@,
                raw@,
                off_name + 8,
                off_addr + 8,
                rva + 8,
            ));
            off_name = off_name + 8;
            off_addr = off_addr + 8;
            rva = rva + 8;
        }
        slots
    }

    /// The slots of an import descriptor without an OriginalFirstThunk table:
    /// the IAT itself is walked.
    pub fn alternative_thunk_slots(&self, raw: &[u8], first_thunk: u32) -> (slots: Vec<ImportSlot>)
        requires
            raw@.len() <= isize::MAX,
            alt_walk_ok(self.sect_hdr@, raw@, first_thunk as int),
        ensures
            slots@ == spec_alt_slots(self.sect_hdr@, raw@, first_thunk as int),
    {
        let mut rva = first_thunk;
        let ghost total = spec_alt_slots(self.sect_hdr@, raw@, rva as int);
        let mut slots: Vec<ImportSlot> = Vec::new();
        loop
            invariant_except_break
                alt_walk_ok(self.sect_hdr@, raw@, rva as int),
                total == slots@ + spec_alt_slots(self.sect_hdr@, raw@, rva as int),
            invariant
                raw@.len() <= isize::MAX,
            ensures
                slots@ == total,
            decreases u32::MAX - rva,
        {
            let off = PE64::vaddr_to_off(&self.sect_hdr, rva) as u64;
            if raw.len() as u64 <= off + 8 {
                assert(slots@ =~= total);
                break;
            }
            let v = read_u64_le(raw, off);
            if v == 0 {
                assert(slots@ =~= total);
                break;
            }
            let func_name_addr = (v & NAME_RVA_MASK64) as u32;
            let off_name = PE64::vaddr_to_off(&self.sect_hdr, func_name_addr) as u64;
            let ghost before = slots@;
            slots.push(ImportSlot { slot_rva: rva, name_off: off_name + 2, thunk: v });
            assert(before + spec_alt_slots(self.sect_hdr@, raw@, rva as int) =~= slots@
                + spec_alt_slots(self.sect_hdr@, raw@, rva + 8));
            rva = rva + 8;
        }
        slots
    }

    /// The slots of a delay-load descriptor.
    pub fn delay_load_slots(&self, raw: &[u8], name_table: u32, address_table: u32) -> (slots: Vec<ImportSlot>)
        requires
            raw@.len() <= isize::MAX,
            vaddr_to_off_ok(self.sect_hdr@, name_table),
            vaddr_to_off_ok(self.sect_hdr@, address_table),
            delay_walk_ok(
                self.sect_hdr@,
                raw@,
                spec_vaddr_to_off(self.sect_hdr@, name_table) as int,
                spec_vaddr_to_off(self.sect_hdr@, address_table) as int,
                address_table as int,
            ),
        ensures
            slots@ == spec_delay_slots(
                self.sect_hdr@,
                raw@,
                spec_vaddr_to_off(self.sect_hdr@, name_table) as int,
                spec_vaddr_to_off(self.sect_hdr@, address_table) as int,
                address_table as int,
            ),
    {
        let mut off_name = PE64::vaddr_to_off(&self.sect_hdr, name_table) as u64;
        let mut off_addr = PE64::vaddr_to_off(&self.sect_hdr, address_table) as u64;
        let mut slot_rva = address_table;
        let ghost total = spec_delay_slots(
            self.sect_hdr@,
            raw@,
            off_name as int,
            off_addr as int,
            slot_rva as int,
        );
        let mut slots: Vec<ImportSlot> = Vec::new();
        loop
            invariant_except_break
                off_name <= u32::MAX || off_name < raw@.len(),
                off_addr <= u32::MAX || off_addr < raw@.len() + 8,
                delay_walk_ok(self.sect_hdr@, raw@, off_name as int, off_addr as int, slot_rva as int),
                total == slots@ + spec_delay_slots(
                    self.sect_hdr@,
                    raw@,
                    off_name as int,
                    off_addr as int,
                    slot_rva as int,
                ),
            invariant
                raw@.len() <= isize::MAX,
            ensures
                slots@ == total,
            decreases raw@.len() - off_name,
        {
            if raw.len() as u64 <= off_name + 4 || raw.len() as u64 <= off_addr + 4 {
                assert(slots@ =~= total);
                break;
            }
            let func_name_addr = read_u32_le(raw, off_name);
            let off2 = PE64::vaddr_to_off(&self.sect_hdr, func_name_addr) as u64;
            if off2 == 0 {
                off_name = off_name + 4;
                off_addr = off_addr + 8;
                slot_rva = slot_rva + 8;
                continue;
            }
            let ghost before = slots@;
            slots.push(ImportSlot { slot_rva, name_off: off2 + 2, thunk: func_name_addr as u64 });
            assert(before + spec_delay_slots(
                self.sect_hdr@,
                raw@,
                off_name as int,
                off_addr as int,
                slot_rva as int,
            ) =~= slots@ + spec_delay_slots(
                self.sect_hdr@,
                raw@,
                off_name + 4,
                off_addr + 8,
                slot_rva + 8,
            ));
            off_name = off_name + 4;
            off_addr = off_addr + 8;
            slot_rva = slot_rva + 8;
        }
        slots
    }
}

impl PE64 {
    /// True when the OriginalFirstThunk walk of [`PE64::original_thunk_slots`]
    /// can be made: both tables map, and the walk does no arithmetic that
    /// overflows.
    pub fn original_walk_fits(&self, raw: &[u8], original_first_thunk: u32, first_thunk: u32) -> (b: bool)
        requires
            raw@.len() <= isize::MAX,
        ensures
            b == (vaddr_to_off_ok(self.sect_hdr@, original_first_thunk) && vaddr_to_off_ok(
                self.sect_hdr@,
                first_thunk,
            ) && orig_walk_ok(
                self.sect_hdr@,
                raw@,
                spec_vaddr_to_off(self.sect_hdr@, original_first_thunk) as int,
                spec_vaddr_to_off(self.sect_hdr@, first_thunk) as int,
                first_thunk as int,
            )),
    {
        if !PE64::vaddr_to_off_fits(&self.sect_hdr, original_first_thunk)
            || !PE64::vaddr_to_off_fits(&self.sect_hdr, first_thunk) {
            return false;
        }
        let mut off_name = PE64::vaddr_to_off(&self.sect_hdr, original_first_thunk) as u64;
        let mut off_addr = PE64::vaddr_to_off(&self.sect_hdr, first_thunk) as u64;
        let mut rva: u64 = first_thunk as u64;
        let ghost start = orig_walk_ok(
            self.sect_hdr@,
            raw@,
            off_name as int,
            off_addr as int,
            rva as int,
        );
        loop
            invariant
                raw@.len() <= isize::MAX,
                off_name <= u32::MAX || off_name < raw@.len(),
                off_addr <= u32::MAX || off_addr < raw@.len(),
                rva <= u32::MAX,
                start == orig_walk_ok(self.sect_hdr@, raw@, off_name as int, off_addr as int, rva as int),
                vaddr_to_off_ok(self.sect_hdr@, original_first_thunk),
                vaddr_to_off_ok(self.sect_hdr@, first_thunk),
                start == orig_walk_ok(
                    self.sect_hdr@,
                    raw@,
                    spec_vaddr_to_off(self.sect_hdr@, original_first_thunk) as int,
                    spec_vaddr_to_off(self.sect_hdr@, first_thunk) as int,
                    first_thunk as int,
                ),
            decreases raw@.len() - off_name,
        {
            if raw.len() as u64 <= off_name + 8 || raw.len() as u64 <= off_addr + 8 {
                return true;
            }
            let t = read_u64_le(raw, off_name);
            if t == 0 {
                return true;
            }
            if rva + 8 > 0xffff_ffff {
                return false;
            }
            if t & ORDINAL_FLAG64 == 0 {
                if !PE64::vaddr_to_off_fits(&self.sect_hdr, (t & NAME_RVA_MASK64) as u32) {
                    return false;
                }
            }
            off_name = off_name + 8;
            off_addr = off_addr + 8;
            rva = rva + 8;
        }
    }

    /// True when the IAT walk of [`PE64::alternative_thunk_slots`] can be
    /// made: it meets no ordinal entry and does no arithmetic that overflows.
    pub fn alternative_walk_fits(&self, raw: &[u8], first_thunk: u32) -> (b: bool)
        requires
            raw@.len() <= isize::MAX,
        ensures
            b == alt_walk_ok(self.sect_hdr@, raw@, first_thunk as int),
    {
        let mut rva: u64 = first_thunk as u64;
        let ghost start = alt_walk_ok(self.sect_hdr@, raw@, rva as int);
        loop
            invariant
                raw@.len() <= isize::MAX,
                rva <= u32::MAX,
                start == alt_walk_ok(self.sect_hdr@, raw@, rva as int),
                start == alt_walk_ok(self.sect_hdr@, raw@, first_thunk as int),
            decreases u32::MAX - rva,
        {
            if !PE64::vaddr_to_off_fits(&self.sect_hdr, rva as u32) {
                return false;
            }
            let off = PE64::vaddr_to_off(&self.sect_hdr, rva as u32) as u64;
            if raw.len() as u64 <= off + 8 {
                return true;
            }
            let v = read_u64_le(raw, off);
            if v == 0 {
                return true;
            }
            if v & ORDINAL_FLAG64 != 0 {
                return false;
            }
            if !PE64::vaddr_to_off_fits(&self.sect_hdr, (v & NAME_RVA_MASK64) as u32) {
                return false;
            }
            if rva + 8 > 0xffff_ffff {
                return false;
            }
            rva = rva + 8;
        }
    }
}

impl PE64 {
    /// True when the delay-load walk of [`PE64::delay_load_slots`] can be
    /// made: both tables map and the walk does no arithmetic that overflows.
    pub fn delay_walk_fits(&self, raw: &[u8], name_table: u32, address_table: u32) -> (b: bool)
        requires
            raw@.len() <= isize::MAX,
        ensures
            b == (vaddr_to_off_ok(self.sect_hdr@, name_table) && vaddr_to_off_ok(self.sect_hdr@, address_table)
                && delay_walk_ok(
                self.sect_hdr@,
                raw@,
                spec_vaddr_to_off(self.sect_hdr@, name_table) as int,
                spec_vaddr_to_off(self.sect_hdr@, address_table) as int,
                address_table as int,
            )),
    {
        if !PE64::vaddr_to_off_fits(&self.sect_hdr, name_table) || !PE64::vaddr_to_off_fits(
            &self.sect_hdr,
            address_table,
        ) {
            return false;
        }
        let mut off_name = PE64::vaddr_to_off(&self.sect_hdr, name_table) as u64;
        let mut off_addr = PE64::vaddr_to_off(&self.sect_hdr, address_table) as u64;
        let mut rva: u64 = address_table as u64;
        let ghost start = delay_walk_ok(self.sect_hdr@, raw@, off_name as int, off_addr as int, rva as int);
        loop
            invariant
                raw@.len() <= isize::MAX,
                off_name <= u32::MAX || off_name < raw@.len(),
                off_addr <= u32::MAX || off_addr < raw@.len() + 8,
                rva <= u32::MAX,
                start == delay_walk_ok(self.sect_hdr@, raw@, off_name as int, off_addr as int, rva as int),
                vaddr_to_off_ok(self.sect_hdr@, name_table),
                vaddr_to_off_ok(self.sect_hdr@, address_table),
                start == delay_walk_ok(
                    self.sect_hdr@,
                    raw@,
                    spec_vaddr_to_off(self.sect_hdr@, name_table) as int,
                    spec_vaddr_to_off(self.sect_hdr@, address_table) as int,
                    address_table as int,
                ),
            decreases raw@.len() - off_name,
        {
            if raw.len() as u64 <= off_name + 4 || raw.len() as u64 <= off_addr + 4 {
                return true;
            }
            let fna = read_u32_le(raw, off_name);
            if !PE64::vaddr_to_off_fits(&self.sect_hdr, fna) {
                return false;
            }
            if rva + 8 > 0xffff_ffff {
                return false;
            }
            off_name = off_name + 4;
            off_addr = off_addr + 8;
            rva = rva + 8;
        }
    }

    /// True when delay-load binding at `base_addr` can be done without
    /// overflow: the precondition [`PE64::delay_load_binding_ok`] of
    /// [`PE64::delay_load_binding`], checked.
    pub fn delay_load_binding_fits(&self, raw: &[u8], base_addr: u64) -> (b: bool)
        requires
            raw@.len() <= isize::MAX,
        ensures
            b == self.delay_load_binding_ok(raw@, base_addr),
    {
        let mut i: usize = 0;
        while i < self.delay_load_dir.len()
            invariant
                raw@.len() <= isize::MAX,
                i <= self.delay_load_dir@.len(),
                forall|k: int|
                    0 <= k < i && (#[trigger] self.delay_load_dir@[k]).name@.len() > 0 ==> {
                        let d = self.delay_load_dir@[k];
                        &&& vaddr_to_off_ok(self.sect_hdr@, d.name_table)
                        &&& vaddr_to_off_ok(self.sect_hdr@, d.address_table)
                        &&& delay_walk_ok(
                            self.sect_hdr@,
                            raw@,
                            spec_vaddr_to_off(self.sect_hdr@, d.name_table) as int,
                            spec_vaddr_to_off(self.sect_hdr@, d.address_table) as int,
                            d.address_table as int,
                        )
                        &&& slots_patchable(
                            spec_delay_descriptor_slots(self.sect_hdr@, raw@, d.name_table, d.address_table),
                            base_addr,
                        )
                    },
            decreases self.delay_load_dir@.len() - i,
        {
            let d = &self.delay_load_dir[i];
            if !d.name.as_str().is_empty() {
                if !self.delay_walk_fits(raw, d.name_table, d.address_table) {
                    assert(!self.delay_load_binding_ok(raw@, base_addr)) by {
                        assert(self.delay_load_dir@[i as int].name@.len() > 0);
                    }
                    return false;
                }
                let slots = self.delay_load_slots(raw, d.name_table, d.address_table);
                if !slots_fit(&slots, base_addr) {
                    assert(!self.delay_load_binding_ok(raw@, base_addr)) by {
                        assert(self.delay_load_dir@[i as int].name@.len() > 0);
                    }
                    return false;
                }
            }
            i = i + 1;
        }
        true
    }
}

/// True when every one of `slots` can be patched at `base_addr` without
/// overflow.
pub fn slots_fit(slots: &Vec<ImportSlot>, base_addr: u64) -> (b: bool)
    ensures
        b == slots_patchable(slots@, base_addr),
{
    let mut j: usize = 0;
    while j < slots.len()
        invariant
            j <= slots@.len(),
            forall|t: int| 0 <= t < j ==> base_addr + (#[trigger] slots@[t]).slot_rva <= u64::MAX,
        decreases slots@.len() - j,
    {
        if slots[j].slot_rva as u64 > u64::MAX - base_addr {
            return false;
        }
        j = j + 1;
    }
    true
}

/// A resolve cache with each key taken by its characters.
pub open spec fn cache_view(cache: Seq<(String, u64)>) -> Seq<(Seq<char>, u64)> {
    Seq::new(cache.len(), |i: int| (cache[i].0@, cache[i].1))
}

/// The value cached under `key` (the first entry with that key, from `i` on).
pub open spec fn spec_cache_find(cache: Seq<(Seq<char>, u64)>, key: Seq<char>, i: int) -> Option<u64>
    decreases cache.len() - i,
{
    if i < 0 || i >= cache.len() {
        None
    } else if cache[i].0 == key {
        Some(cache[i].1)
    } else {
        spec_cache_find(cache, key, i + 1)
    }
}

/// Resolves `dll!func` through `loader`, asking it only once per
/// case-insensitive name: a cached answer is reused without a loader call;
/// otherwise `resolve_api_name_in_module(dll, func)` is asked and its answer
/// (zero included) cached.
fn resolve_cached<L: PeLoader>(
    loader: &mut L,
    cache: &mut Vec<(String, u64)>,
    dll: &str,
    func: &str,
) -> (r: u64)
    ensures
        match spec_cache_find(cache_view(old(cache)@), cache_key(dll@, func@), 0) {
            Some(v) => {
                &&& r == v
                &&& cache_view(final(cache)@) == cache_view(old(cache)@)
                &&& final(loader).calls() == old(loader).calls()
            },
            None => {
                &&& cache_view(final(cache)@) == cache_view(old(cache)@).push((cache_key(dll@, func@), r))
                &&& final(loader).calls() == old(loader).calls().push(
                    (LoaderCall::ResolveApiNameInModule { module: dll@, name: func@, addr: r }),
                )
            },
        },
{
    let key = make_cache_key(dll, func);
    let mut i: usize = 0;
    while i < cache.len()
        invariant
            i <= cache@.len(),
            cache@ == old(cache)@,
            *loader == *old(loader),
            key@ == cache_key(dll@, func@),
            spec_cache_find(cache_view(cache@), key@, 0) == spec_cache_find(cache_view(cache@), key@, i as int),
        decreases cache@.len() - i,
    {
        if cache[i].0 == key {
            return cache[i].1;
        }
        i = i + 1;
    }
    let resolved = loader.resolve_api_name_in_module(dll, func);
    let ghost before = cache@;
    cache.push((key, resolved));
    assert(cache_view(cache@) =~= cache_view(before).push((cache_key(dll@, func@), resolved)));
    resolved
}

/// The slots of import descriptor `d`: its OriginalFirstThunk table when it
/// has one, its IAT otherwise.
pub open spec fn spec_descriptor_slots(
    sects: Seq<ImageSectionHeader>,
    raw: Seq<u8>,
    d: ImageImportDescriptor,
) -> Seq<ImportSlot> {
    if d.original_first_thunk == 0 {
        spec_alt_slots(sects, raw, d.first_thunk as int)
    } else {
        spec_orig_slots(
            sects,
            raw,
            spec_vaddr_to_off(sects, d.original_first_thunk) as int,
            spec_vaddr_to_off(sects, d.first_thunk) as int,
            d.first_thunk as int,
        )
    }
}

/// Binding descriptor `d` at `base_addr` runs to completion.
pub open spec fn descriptor_ok(
    sects: Seq<ImageSectionHeader>,
    raw: Seq<u8>,
    d: ImageImportDescriptor,
    base_addr: u64,
) -> bool {
    &&& if d.original_first_thunk == 0 {
        alt_walk_ok(sects, raw, d.first_thunk as int)
    } else {
        &&& vaddr_to_off_ok(sects, d.original_first_thunk)
        &&& vaddr_to_off_ok(sects, d.first_thunk)
        &&& orig_walk_ok(
            sects,
            raw,
            spec_vaddr_to_off(sects, d.original_first_thunk) as int,
            spec_vaddr_to_off(sects, d.first_thunk) as int,
            d.first_thunk as int,
        )
    }
    &&& slots_patchable(spec_descriptor_slots(sects, raw, d), base_addr)
}

/// The slots of delay-load descriptor `d`.
pub open spec fn spec_delay_descriptor_slots(
    sects: Seq<ImageSectionHeader>,
    raw: Seq<u8>,
    name_table: u32,
    address_table: u32,
) -> Seq<ImportSlot> {
    spec_delay_slots(
        sects,
        raw,
        spec_vaddr_to_off(sects, name_table) as int,
        spec_vaddr_to_off(sects, address_table) as int,
        address_table as int,
    )
}

impl PE64 {
    /// The `dll!function` name of slot `j` of import descriptor `k`.
    pub open spec fn import_slot_name(&self, raw: Seq<u8>, k: int, j: int) -> Seq<char> {
        let d = self.image_import_descriptor@[k];
        qualified_name(d.name@, slot_name(raw, spec_descriptor_slots(self.sect_hdr@, raw, d)[j]))
    }

    /// Every `dll!function` name import binding can record: one per slot of
    /// each named import descriptor.
    pub open spec fn spec_import_names(&self, raw: Seq<u8>) -> Set<Seq<char>> {
        Set::new(
            |v: Seq<char>|
                exists|k: int, j: int|
                    0 <= k < self.image_import_descriptor@.len()
                        && self.image_import_descriptor@[k].name@.len() > 0 && 0 <= j
                        < spec_descriptor_slots(
                        self.sect_hdr@,
                        raw,
                        self.image_import_descriptor@[k],
                    ).len() && v == #[trigger] self.import_slot_name(raw, k, j),
        )
    }

    /// The `dll!function` name of slot `j` of delay-load descriptor `k`.
    pub open spec fn delay_slot_name(&self, raw: Seq<u8>, k: int, j: int) -> Seq<char> {
        let d = self.delay_load_dir@[k];
        qualified_name(
            d.name@,
            slot_name(raw, spec_delay_descriptor_slots(self.sect_hdr@, raw, d.name_table, d.address_table)[j]),
        )
    }

    /// Every `dll!function` name delay-load binding can record.
    pub open spec fn spec_delay_import_names(&self, raw: Seq<u8>) -> Set<Seq<char>> {
        Set::new(
            |v: Seq<char>|
                exists|k: int, j: int|
                    0 <= k < self.delay_load_dir@.len() && self.delay_load_dir@[k].name@.len() > 0
                        && 0 <= j < spec_delay_descriptor_slots(
                        self.sect_hdr@,
                        raw,
                        self.delay_load_dir@[k].name_table,
                        self.delay_load_dir@[k].address_table,
                    ).len() && v == #[trigger] self.delay_slot_name(raw, k, j),
        )
    }

    /// The inputs on which delay-load binding at `base_addr` runs to
    /// completion: every named descriptor's tables map and bind without
    /// overflow.
    pub open spec fn delay_load_binding_ok(&self, raw: Seq<u8>, base_addr: u64) -> bool {
        forall|k: int|
            0 <= k < self.delay_load_dir@.len() && (#[trigger] self.delay_load_dir@[k]).name@.len() > 0
                ==> {
                let d = self.delay_load_dir@[k];
                &&& vaddr_to_off_ok(self.sect_hdr@, d.name_table)
                &&& vaddr_to_off_ok(self.sect_hdr@, d.address_table)
                &&& delay_walk_ok(
                    self.sect_hdr@,
                    raw,
                    spec_vaddr_to_off(self.sect_hdr@, d.name_table) as int,
                    spec_vaddr_to_off(self.sect_hdr@, d.address_table) as int,
                    d.address_table as int,
                )
                &&& slots_patchable(
                    spec_delay_descriptor_slots(self.sect_hdr@, raw, d.name_table, d.address_table),
                    base_addr,
                )
            }
    }
}

/// Every slot `base_addr` can be patched at without overflow.
pub open spec fn slots_patchable(slots: Seq<ImportSlot>, base_addr: u64) -> bool {
    forall|j: int| 0 <= j < slots.len() ==> base_addr + (#[trigger] slots[j]).slot_rva <= u64::MAX
}

/// The address the binding step for `slot` of `dll` takes: the cached one,
/// or else the loader's answer at the next call of `log`.
pub open spec fn step64_answer(
    raw: Seq<u8>,
    dll: Seq<char>,
    slot: ImportSlot,
    st: BindState<u64>,
    log: Seq<LoaderCall>,
) -> u64 {
    match spec_cache_find(st.cache, cache_key(dll, slot_name(raw, slot)), 0) {
        Some(v) => v,
        None => answer_of(log[st.u]),
    }
}

/// The key the binding step for `slot` of `dll` records the import under:
/// the address written into the slot, or the slot's name-table value (the
/// value the unbound slot keeps) when the import did not resolve.
pub open spec fn step64_key(
    raw: Seq<u8>,
    dll: Seq<char>,
    slot: ImportSlot,
    st: BindState<u64>,
    log: Seq<LoaderCall>,
) -> u64 {
    let r = step64_answer(raw, dll, slot, st, log);
    if r != 0 { r } else { slot.thunk }
}

/// One import-binding step for `slot` of `dll`, as the loader call history
/// `log` shows it: the import's `dll!function` is looked up in the cache, or
/// else asked of the loader with `resolve_api_name_in_module` (the next call
/// in `log`) and its answer cached; a nonzero answer `r` is recorded as
/// `dll!function` under `r` and written into the IAT slot with `write_qword`
/// (the call after); a zero answer is recorded under the slot's name-table
/// value when `named`, and changes nothing otherwise.
pub open spec fn step64(
    raw: Seq<u8>,
    dll: Seq<char>,
    slot: ImportSlot,
    base: u64,
    named: bool,
    st: BindState<u64>,
    log: Seq<LoaderCall>,
) -> BindState<u64> {
    let f = slot_name(raw, slot);
    let key = cache_key(dll, f);
    let hit = spec_cache_find(st.cache, key, 0);
    let r = step64_answer(raw, dll, slot, st, log);
    let u1 = if hit is Some { st.u } else { st.u + 1 };
    let ok1 = st.ok && (hit is Some || (0 <= st.u < log.len() && is_resolve_in(log[st.u], dll, f)));
    let cache1 = if hit is Some { st.cache } else { st.cache.push((key, r)) };
    if r != 0 {
        BindState {
            cache: cache1,
            names: st.names.insert(r, qualified_name(dll, f)),
            u: u1 + 1,
            ok: ok1 && 0 <= u1 < log.len() && is_write_qword(log[u1], (base + slot.slot_rva) as u64, r),
        }
    } else if named {
        BindState { cache: cache1, names: st.names.insert(slot.thunk, qualified_name(dll, f)), u: u1, ok: ok1 }
    } else {
        BindState { cache: cache1, names: st.names, u: u1, ok: ok1 }
    }
}

/// [`step64`] over each of `slots` in order.
pub open spec fn run64(
    raw: Seq<u8>,
    dll: Seq<char>,
    slots: Seq<ImportSlot>,
    base: u64,
    named: bool,
    st: BindState<u64>,
    log: Seq<LoaderCall>,
) -> BindState<u64>
    decreases slots.len(),
{
    if slots.len() == 0 {
        st
    } else {
        step64(raw, dll, slots.last(), base, named, run64(raw, dll, slots.drop_last(), base, named, st, log), log)
    }
}

/// Import binding over the first `n` import descriptors, as `log` shows it:
/// each named descriptor's DLL is asked of `load_library` (the next call);
/// when it loads (a nonzero base) or names an API-set contract, and its
/// slots can be walked and patched ([`descriptor_ok`]), its slots are bound
/// with [`run64`], unresolved imports recorded under their name-table values.
pub open spec fn iat_run64(
    sects: Seq<ImageSectionHeader>,
    raw: Seq<u8>,
    descs: Seq<ImageImportDescriptor>,
    base: u64,
    n: int,
    st: BindState<u64>,
    log: Seq<LoaderCall>,
) -> BindState<u64>
    decreases n,
{
    if n <= 0 {
        st
    } else {
        let s1 = iat_run64(sects, raw, descs, base, n - 1, st, log);
        let d = descs[n - 1];
        if d.name@.len() == 0 {
            s1
        } else {
            let s2 = BindState {
                cache: s1.cache,
                names: s1.names,
                u: s1.u + 1,
                ok: s1.ok && 0 <= s1.u < log.len() && is_load(log[s1.u], d.name@),
            };
            if spec_binds_descriptor(answer_of(log[s1.u]), d.name@) && descriptor_ok(sects, raw, d, base) {
                run64(raw, d.name@, spec_descriptor_slots(sects, raw, d), base, true, s2, log)
            } else {
                s2
            }
        }
    }
}

/// Delay-load binding over the first `n` delay-load descriptors, as `log`
/// shows it: each named descriptor's slots are bound with [`run64`] (no
/// library load is asked; an unresolved import is left alone).
pub open spec fn delay_run64(
    sects: Seq<ImageSectionHeader>,
    raw: Seq<u8>,
    dirs: Seq<DelayLoadDirectory>,
    base: u64,
    n: int,
    st: BindState<u64>,
    log: Seq<LoaderCall>,
) -> BindState<u64>
    decreases n,
{
    if n <= 0 {
        st
    } else {
        let s1 = delay_run64(sects, raw, dirs, base, n - 1, st, log);
        let d = dirs[n - 1];
        if d.name@.len() == 0 {
            s1
        } else {
            run64(
                raw,
                d.name@,
                spec_delay_descriptor_slots(sects, raw, d.name_table, d.address_table),
                base,
                false,
                s1,
                log,
            )
        }
    }
}

/// Binding reached `st` exactly: every loader call in the history so far
/// (`log_len` of them) was the one binding had to make, and the resolve
/// cache and import-name table are those of `st`.
pub open spec fn reached64(
    st: BindState<u64>,
    cache: Seq<(String, u64)>,
    names: Map<u64, String>,
    log_len: int,
) -> bool {
    &&& st.ok
    &&& st.u == log_len
    &&& st.cache == cache_view(cache)
    &&& st.names == names_view(names)
}

proof fn lemma_run64_mono(
    raw: Seq<u8>,
    dll: Seq<char>,
    slots: Seq<ImportSlot>,
    base: u64,
    named: bool,
    st: BindState<u64>,
    log: Seq<LoaderCall>,
)
    ensures
        run64(raw, dll, slots, base, named, st, log).ok ==> st.ok,
        run64(raw, dll, slots, base, named, st, log).u >= st.u,
    decreases slots.len(),
{
    if slots.len() > 0 {
        lemma_run64_mono(raw, dll, slots.drop_last(), base, named, st, log);
    }
}

/// What [`run64`] reaches with a complete history does not change when calls
/// are appended to it.
proof fn lemma_run64_prefix(
    raw: Seq<u8>,
    dll: Seq<char>,
    slots: Seq<ImportSlot>,
    base: u64,
    named: bool,
    st: BindState<u64>,
    log0: Seq<LoaderCall>,
    log: Seq<LoaderCall>,
)
    requires
        run64(raw, dll, slots, base, named, st, log0).ok,
        log0.is_prefix_of(log),
    ensures
        run64(raw, dll, slots, base, named, st, log) == run64(raw, dll, slots, base, named, st, log0),
    decreases slots.len(),
{
    if slots.len() > 0 {
        let p = slots.drop_last();
        lemma_run64_prefix(raw, dll, p, base, named, st, log0, log);
        let s0 = run64(raw, dll, p, base, named, st, log0);
        if 0 <= s0.u < log0.len() {
            lemma_prefix_index(log0, log, s0.u);
        }
        if 0 <= s0.u + 1 < log0.len() {
            lemma_prefix_index(log0, log, s0.u + 1);
        }
    }
}

proof fn lemma_iat_run64_prefix(
    sects: Seq<ImageSectionHeader>,
    raw: Seq<u8>,
    descs: Seq<ImageImportDescriptor>,
    base: u64,
    n: int,
    st: BindState<u64>,
    log0: Seq<LoaderCall>,
    log: Seq<LoaderCall>,
)
    requires
        iat_run64(sects, raw, descs, base, n, st, log0).ok,
        log0.is_prefix_of(log),
    ensures
        iat_run64(sects, raw, descs, base, n, st, log) == iat_run64(sects, raw, descs, base, n, st, log0),
    decreases n,
{
    if n > 0 {
        let s1 = iat_run64(sects, raw, descs, base, n - 1, st, log0);
        let d = descs[n - 1];
        if d.name@.len() > 0 {
            let s2 = BindState {
                cache: s1.cache,
                names: s1.names,
                u: s1.u + 1,
                ok: s1.ok && 0 <= s1.u < log0.len() && is_load(log0[s1.u], d.name@),
            };
            lemma_run64_mono(raw, d.name@, spec_descriptor_slots(sects, raw, d), base, true, s2, log0);
            assert(s2.ok);
            lemma_iat_run64_prefix(sects, raw, descs, base, n - 1, st, log0, log);
            lemma_prefix_index(log0, log, s1.u);
            if spec_binds_descriptor(answer_of(log0[s1.u]), d.name@) && descriptor_ok(sects, raw, d, base) {
                lemma_run64_prefix(raw, d.name@, spec_descriptor_slots(sects, raw, d), base, true, s2, log0, log);
            }
        } else {
            lemma_iat_run64_prefix(sects, raw, descs, base, n - 1, st, log0, log);
        }
    }
}

proof fn lemma_delay_run64_prefix(
    sects: Seq<ImageSectionHeader>,
    raw: Seq<u8>,
    dirs: Seq<DelayLoadDirectory>,
    base: u64,
    n: int,
    st: BindState<u64>,
    log0: Seq<LoaderCall>,
    log: Seq<LoaderCall>,
)
    requires
        delay_run64(sects, raw, dirs, base, n, st, log0).ok,
        log0.is_prefix_of(log),
    ensures
        delay_run64(sects, raw, dirs, base, n, st, log) == delay_run64(sects, raw, dirs, base, n, st, log0),
    decreases n,
{
    if n > 0 {
        let s1 = delay_run64(sects, raw, dirs, base, n - 1, st, log0);
        let d = dirs[n - 1];
        if d.name@.len() > 0 {
            let slots = spec_delay_descriptor_slots(sects, raw, d.name_table, d.address_table);
            lemma_run64_mono(raw, d.name@, slots, base, false, s1, log0);
            lemma_delay_run64_prefix(sects, raw, dirs, base, n - 1, st, log0, log);
            lemma_run64_prefix(raw, d.name@, slots, base, false, s1, log0, log);
        } else {
            lemma_delay_run64_prefix(sects, raw, dirs, base, n - 1, st, log0, log);
        }
    }
}

/// A descriptor whose DLL `load_library` answered with `load_base` is bound
/// when the DLL loaded or names an API-set contract.
pub open spec fn spec_binds_descriptor(load_base: u64, dll: Seq<char>) -> bool {
    load_base != 0 || spec_is_api_set_contract(dll)
}

/// Decides, from the base `load_library` returned for `dll`, whether an
/// import descriptor of `dll` is bound: when the DLL loaded (a nonzero base),
/// or when it names an API-set contract, whose functions resolve through
/// backing DLLs even when no file of that name exists.
pub fn binds_descriptor(load_base: u64, dll: &str) -> (b: bool)
    ensures
        b == spec_binds_descriptor(load_base, dll@),
{
    load_base != 0 || is_api_set_contract(dll)
}

impl PE64 {
    /// Applies the answer `real_addr` the loader gave for import `dll!func`
    /// at `slot`: a nonzero address is recorded as `dll!func` and returned as
    /// the patch for the slot at `base_addr + slot_rva`; zero records
    /// `dll!func` under the slot's name-table value (the value the unbound
    /// slot keeps) when `name_unresolved`, and changes nothing otherwise.
    pub fn bind_resolved(
        &mut self,
        dll: &str,
        func: &str,
        slot: &ImportSlot,
        base_addr: u64,
        real_addr: u64,
        name_unresolved: bool,
    ) -> (patch: Option<QwordPatch>)
        requires
            base_addr + slot.slot_rva <= u64::MAX,
        ensures
            final(self).same_image(&*old(self)),
            real_addr != 0 ==> {
                &&& patch == Some(QwordPatch { addr: (base_addr + slot.slot_rva) as u64, value: real_addr })
                &&& final(self).iat_names@ == old(self).iat_names@.insert(
                    real_addr,
                    final(self).iat_names@[real_addr],
                )
                &&& final(self).iat_names@[real_addr]@ == qualified_name(dll@, func@)
            },
            real_addr == 0 && name_unresolved ==> {
                &&& patch is None
                &&& final(self).iat_names@ == old(self).iat_names@.insert(
                    slot.thunk,
                    final(self).iat_names@[slot.thunk],
                )
                &&& final(self).iat_names@[slot.thunk]@ == qualified_name(dll@, func@)
            },
            real_addr == 0 && !name_unresolved ==> patch is None && final(self).iat_names@ == old(
                self,
            ).iat_names@,
    {
        if real_addr != 0 {
            let full = qualify(dll, func);
            self.iat_names.insert(real_addr, full);
            Some(QwordPatch { addr: base_addr + slot.slot_rva as u64, value: real_addr })
        } else if name_unresolved {
            let full = qualify(dll, func);
            self.iat_names.insert(slot.thunk, full);
            None
        } else {
            None
        }
    }

    /// Resolves each of `slots` (imports of `dll`) through the cache and
    /// `loader`; a resolved one has its IAT slot patched with the address and
    /// is recorded as `dll!function`; an unresolved one is recorded under its
    /// name-table value when `named`, and left alone otherwise. The loader
    /// calls made are exactly those of [`run64`].
    fn bind_slots<L: PeLoader>(
        &mut self,
        raw: &[u8],
        loader: &mut L,
        base_addr: u64,
        slots: &Vec<ImportSlot>,
        dll: &str,
        resolved_cache: &mut Vec<(String, u64)>,
        named: bool,
    )
        requires
            slots_patchable(slots@, base_addr),
        ensures
            final(self).same_image(&*old(self)),
            recorded_within(old(self).iat_names@, final(self).iat_names@, slot_names(raw@, dll@, slots@)),
            old(loader).calls().is_prefix_of(final(loader).calls()),
            reached64(
                run64(
                    raw@,
                    dll@,
                    slots@,
                    base_addr,
                    named,
                    bind_from(
                        cache_view(old(resolved_cache)@),
                        names_view(old(self).iat_names@),
                        old(loader).calls().len() as int,
                    ),
                    final(loader).calls(),
                ),
                final(resolved_cache)@,
                final(self).iat_names@,
                final(loader).calls().len() as int,
            ),
    {
        let ghost names = slot_names(raw@, dll@, slots@);
        let ghost init = self.iat_names@;
        let ghost st0 = bind_from(
            cache_view(resolved_cache@),
            names_view(self.iat_names@),
            loader.calls().len() as int,
        );
        let mut j: usize = 0;
        while j < slots.len()
            invariant
                j <= slots@.len(),
                slots_patchable(slots@, base_addr),
                names == slot_names(raw@, dll@, slots@),
                self.same_image(&*old(self)),
                init == old(self).iat_names@,
                recorded_within(init, self.iat_names@, names),
                st0 == bind_from(
                    cache_view(old(resolved_cache)@),
                    names_view(old(self).iat_names@),
                    old(loader).calls().len() as int,
                ),
                old(loader).calls().is_prefix_of(loader.calls()),
                reached64(
                    run64(raw@, dll@, slots@.take(j as int), base_addr, named, st0, loader.calls()),
                    resolved_cache@,
                    self.iat_names@,
                    loader.calls().len() as int,
                ),
            decreases slots@.len() - j,
        {
            let slot = slots[j];
            let ghost log_j = loader.calls();
            let ghost sj = run64(raw@, dll@, slots@.take(j as int), base_addr, named, st0, log_j);
            let ghost names_j = self.iat_names@;
            let func_name = read_c_string(raw, slot.name_off);
            let real_addr = resolve_cached(loader, resolved_cache, dll, func_name.as_str());
            let ghost log_r = loader.calls();
            let ghost before = self.iat_names@;
            let patch = self.bind_resolved(dll, func_name.as_str(), &slot, base_addr, real_addr, named);
            if let Some(p) = patch {
                loader.write_qword(p.addr, p.value);
            }
            proof {
                assert(log_j.is_prefix_of(log_r));
                assert(log_r.is_prefix_of(loader.calls()));
                lemma_prefix_trans(log_j, log_r, loader.calls());
                lemma_prefix_trans(old(loader).calls(), log_j, loader.calls());
                lemma_run64_prefix(raw@, dll@, slots@.take(j as int), base_addr, named, st0, log_j, loader.calls());
                assert(slots@.take(j + 1).drop_last() =~= slots@.take(j as int));
                assert(slots@.take(j + 1).last() == slot);
                if real_addr != 0 {
                    assert(names_view(self.iat_names@) =~= names_view(names_j).insert(
                        real_addr,
                        qualified_name(dll@, func_name@),
                    ));
                } else if named {
                    assert(names_view(self.iat_names@) =~= names_view(names_j).insert(
                        slot.thunk,
                        qualified_name(dll@, func_name@),
                    ));
                }
                assert(names.contains(qualified_name(dll@, func_name@))) by {
                    assert(qualified_name(dll@, func_name@) == qualified_name(
                        dll@,
                        slot_name(raw@, slots@[j as int]),
                    ));
                }
                assert(recorded_within(before, self.iat_names@, names));
                lemma_recorded_within_trans(init, before, self.iat_names@, names, names, names);
            }
            j = j + 1;
        }
        proof {
            assert(slots@.take(slots@.len() as int) =~= slots@);
        }
    }
}

impl PE64 {
    /// Binds one import descriptor that has an OriginalFirstThunk table.
    fn iat_binding_original<L: PeLoader>(
        &mut self,
        raw: &[u8],
        loader: &mut L,
        base_addr: u64,
        original_first_thunk: u32,
        first_thunk: u32,
        import_dll: &str,
        resolved_cache: &mut Vec<(String, u64)>,
    )
        requires
            raw@.len() <= isize::MAX,
            vaddr_to_off_ok(old(self).sect_hdr@, original_first_thunk),
            vaddr_to_off_ok(old(self).sect_hdr@, first_thunk),
            orig_walk_ok(
                old(self).sect_hdr@,
                raw@,
                spec_vaddr_to_off(old(self).sect_hdr@, original_first_thunk) as int,
                spec_vaddr_to_off(old(self).sect_hdr@, first_thunk) as int,
                first_thunk as int,
            ),
        ensures
            final(self).same_image(&*old(self)),
            recorded_within(
                old(self).iat_names@,
                final(self).iat_names@,
                slot_names(
                    raw@,
                    import_dll@,
                    spec_orig_slots(
                        old(self).sect_hdr@,
                        raw@,
                        spec_vaddr_to_off(old(self).sect_hdr@, original_first_thunk) as int,
                        spec_vaddr_to_off(old(self).sect_hdr@, first_thunk) as int,
                        first_thunk as int,
                    ),
                ),
            ),
            old(loader).calls().is_prefix_of(final(loader).calls()),
            !slots_patchable(
                spec_orig_slots(
                    old(self).sect_hdr@,
                    raw@,
                    spec_vaddr_to_off(old(self).sect_hdr@, original_first_thunk) as int,
                    spec_vaddr_to_off(old(self).sect_hdr@, first_thunk) as int,
                    first_thunk as int,
                ),
                base_addr,
            ) ==> {
                &&& final(loader).calls() == old(loader).calls()
                &&& final(self).iat_names@ == old(self).iat_names@
                &&& final(resolved_cache)@ == old(resolved_cache)@
            },
            slots_patchable(
                spec_orig_slots(
                    old(self).sect_hdr@,
                    raw@,
                    spec_vaddr_to_off(old(self).sect_hdr@, original_first_thunk) as int,
                    spec_vaddr_to_off(old(self).sect_hdr@, first_thunk) as int,
                    first_thunk as int,
                ),
                base_addr,
            ) ==> reached64(
                run64(
                    raw@,
                    import_dll@,
                    spec_orig_slots(
                        old(self).sect_hdr@,
                        raw@,
                        spec_vaddr_to_off(old(self).sect_hdr@, original_first_thunk) as int,
                        spec_vaddr_to_off(old(self).sect_hdr@, first_thunk) as int,
                        first_thunk as int,
                    ),
                    base_addr,
                    true,
                    bind_from(
                        cache_view(old(resolved_cache)@),
                        names_view(old(self).iat_names@),
                        old(loader).calls().len() as int,
                    ),
                    final(loader).calls(),
                ),
                final(resolved_cache)@,
                final(self).iat_names@,
                final(loader).calls().len() as int,
            ),
    {
        let slots = self.original_thunk_slots(raw, original_first_thunk, first_thunk);
        if !slots_fit(&slots, base_addr) {
            return;
        }
        self.bind_slots(raw, loader, base_addr, &slots, import_dll, resolved_cache, true);
    }

    /// Binds one import descriptor without an OriginalFirstThunk table, by
    /// walking its IAT.
    fn iat_binding_alternative<L: PeLoader>(
        &mut self,
        raw: &[u8],
        loader: &mut L,
        base_addr: u64,
        first_thunk: u32,
        import_dll: &str,
        resolved_cache: &mut Vec<(String, u64)>,
    )
        requires
            raw@.len() <= isize::MAX,
            alt_walk_ok(old(self).sect_hdr@, raw@, first_thunk as int),
        ensures
            final(self).same_image(&*old(self)),
            recorded_within(
                old(self).iat_names@,
                final(self).iat_names@,
                slot_names(raw@, import_dll@, spec_alt_slots(old(self).sect_hdr@, raw@, first_thunk as int)),
            ),
            old(loader).calls().is_prefix_of(final(loader).calls()),
            !slots_patchable(spec_alt_slots(old(self).sect_hdr@, raw@, first_thunk as int), base_addr) ==> {
                &&& final(loader).calls() == old(loader).calls()
                &&& final(self).iat_names@ == old(self).iat_names@
                &&& final(resolved_cache)@ == old(resolved_cache)@
            },
            slots_patchable(spec_alt_slots(old(self).sect_hdr@, raw@, first_thunk as int), base_addr)
                ==> reached64(
                run64(
                    raw@,
                    import_dll@,
                    spec_alt_slots(old(self).sect_hdr@, raw@, first_thunk as int),
                    base_addr,
                    true,
                    bind_from(
                        cache_view(old(resolved_cache)@),
                        names_view(old(self).iat_names@),
                        old(loader).calls().len() as int,
                    ),
                    final(loader).calls(),
                ),
                final(resolved_cache)@,
                final(self).iat_names@,
                final(loader).calls().len() as int,
            ),
    {
        let slots = self.alternative_thunk_slots(raw, first_thunk);
        if !slots_fit(&slots, base_addr) {
            return;
        }
        self.bind_slots(raw, loader, base_addr, &slots, import_dll, resolved_cache, true);
    }

    /// Binds the import address table: for each named import descriptor, its
    /// DLL is asked of `loader.load_library`; when it loads, or names an
    /// API-set contract, every import is resolved in that DLL through
    /// `loader` (once per case-insensitive name), a resolved one patched into
    /// its IAT slot and recorded as `dll!function` under its address, an
    /// unresolved one recorded under its slot's name-table value. A
    /// descriptor whose tables cannot be walked and patched without overflow
    /// (or whose IAT, read without an OriginalFirstThunk table, imports by
    /// ordinal) is not bound. The loader calls made, and the table reached,
    /// are exactly those of [`iat_run64`].
    pub fn iat_binding<L: PeLoader>(&mut self, raw: &[u8], loader: &mut L, base_addr: u64)
        requires
            raw@.len() <= isize::MAX,
        ensures
            final(self).same_image(&*old(self)),
            recorded_within(old(self).iat_names@, final(self).iat_names@, old(self).spec_import_names(raw@)),
            old(loader).calls().is_prefix_of(final(loader).calls()),
            ({
                let st = iat_run64(
                    old(self).sect_hdr@,
                    raw@,
                    old(self).image_import_descriptor@,
                    base_addr,
                    old(self).image_import_descriptor@.len() as int,
                    bind_start(names_view(old(self).iat_names@), old(loader).calls().len() as int),
                    final(loader).calls(),
                );
                &&& st.ok
                &&& st.u == final(loader).calls().len()
                &&& st.names == names_view(final(self).iat_names@)
            }),
    {
        let ghost names = self.spec_import_names(raw@);
        let ghost init = self.iat_names@;
        let ghost st0 = bind_start(names_view(self.iat_names@), loader.calls().len() as int);
        let mut resolved_cache: Vec<(String, u64)> = Vec::new();
        proof {
            assert(cache_view(resolved_cache@) =~= Seq::<(Seq<char>, u64)>::empty());
            assert(old(loader).calls().is_prefix_of(loader.calls())) by {
                assert(loader.calls().subrange(0, loader.calls().len() as int) =~= loader.calls());
            }
        }
        let mut i: usize = 0;
        while i < self.image_import_descriptor.len()
            invariant
                raw@.len() <= isize::MAX,
                i <= self.image_import_descriptor@.len(),
                self.same_image(&*old(self)),
                init == old(self).iat_names@,
                names == old(self).spec_import_names(raw@),
                recorded_within(init, self.iat_names@, names),
                st0 == bind_start(names_view(old(self).iat_names@), old(loader).calls().len() as int),
                old(loader).calls().is_prefix_of(loader.calls()),
                reached64(
                    iat_run64(
                        old(self).sect_hdr@,
                        raw@,
                        old(self).image_import_descriptor@,
                        base_addr,
                        i as int,
                        st0,
                        loader.calls(),
                    ),
                    resolved_cache@,
                    self.iat_names@,
                    loader.calls().len() as int,
                ),
            decreases self.image_import_descriptor@.len() - i,
        {
            let ghost sects = old(self).sect_hdr@;
            let ghost descs = old(self).image_import_descriptor@;
            let ghost log_i = loader.calls();
            let ghost s1 = iat_run64(sects, raw@, descs, base_addr, i as int, st0, log_i);
            let import_dll = self.image_import_descriptor[i].name.clone();
            if import_dll.as_str().is_empty() {
                i = i + 1;
                continue;
            }
            let original_first_thunk = self.image_import_descriptor[i].original_first_thunk;
            let first_thunk = self.image_import_descriptor[i].first_thunk;

            let load_base = loader.load_library(import_dll.as_str());
            let ghost log_l = loader.calls();
            proof {
                assert(log_i.is_prefix_of(log_l)) by {
                    assert(log_l.subrange(0, log_i.len() as int) =~= log_i);
                }
                lemma_prefix_trans(old(loader).calls(), log_i, log_l);
            }
            let fits = binds_descriptor(load_base, import_dll.as_str()) && if original_first_thunk == 0 {
                self.alternative_walk_fits(raw, first_thunk)
            } else {
                self.original_walk_fits(raw, original_first_thunk, first_thunk)
            };
            if !fits {
                proof {
                    lemma_iat_run64_prefix(sects, raw@, descs, base_addr, i as int, st0, log_i, log_l);
                }
                i = i + 1;
                continue;
            }

            let ghost k = i as int;
            let ghost d = self.image_import_descriptor@[k];
            let ghost slots = spec_descriptor_slots(self.sect_hdr@, raw@, d);
            let ghost before = self.iat_names@;
            if original_first_thunk == 0 {
                self.iat_binding_alternative(
                    raw,
                    loader,
                    base_addr,
                    first_thunk,
                    import_dll.as_str(),
                    &mut resolved_cache,
                );
            } else {
                self.iat_binding_original(
                    raw,
                    loader,
                    base_addr,
                    original_first_thunk,
                    first_thunk,
                    import_dll.as_str(),
                    &mut resolved_cache,
                );
            }
            proof {
                lemma_prefix_trans(log_i, log_l, loader.calls());
                lemma_prefix_trans(old(loader).calls(), log_l, loader.calls());
                lemma_iat_run64_prefix(sects, raw@, descs, base_addr, i as int, st0, log_i, loader.calls());
                lemma_prefix_index(log_l, loader.calls(), s1.u);
            }
            assert(slot_names(raw@, import_dll@, slots).subset_of(names)) by {
                assert forall|v: Seq<char>| #[trigger]
                    slot_names(raw@, import_dll@, slots).contains(v) implies names.contains(v) by {
                    let j = choose|j: int|
                        0 <= j < slots.len() && v == qualified_name(
                            import_dll@,
                            slot_name(raw@, #[trigger] slots[j]),
                        );
                    assert(v == old(self).import_slot_name(raw@, k, j));
                }
            }
            proof {
                lemma_recorded_within_trans(
                    init,
                    before,
                    self.iat_names@,
                    names,
                    slot_names(raw@, import_dll@, slots),
                    names,
                );
            }
            i = i + 1;
        }
    }

    /// Binds the delay-load import tables: for each named delay-load
    /// descriptor, every import is resolved in its DLL through `loader` (once
    /// per case-insensitive name), a resolved one patched into its slot and
    /// recorded as `dll!function`; an unresolved one is left alone and the
    /// walk goes on. The loader calls made, and the table reached, are exactly
    /// those of [`delay_run64`].
    pub fn delay_load_binding<L: PeLoader>(&mut self, raw: &[u8], loader: &mut L, base_addr: u64)
        requires
            raw@.len() <= isize::MAX,
            old(self).delay_load_binding_ok(raw@, base_addr),
        ensures
            final(self).same_image(&*old(self)),
            recorded_within(
                old(self).iat_names@,
                final(self).iat_names@,
                old(self).spec_delay_import_names(raw@),
            ),
            old(loader).calls().is_prefix_of(final(loader).calls()),
            ({
                let st = delay_run64(
                    old(self).sect_hdr@,
                    raw@,
                    old(self).delay_load_dir@,
                    base_addr,
                    old(self).delay_load_dir@.len() as int,
                    bind_start(names_view(old(self).iat_names@), old(loader).calls().len() as int),
                    final(loader).calls(),
                );
                &&& st.ok
                &&& st.u == final(loader).calls().len()
                &&& st.names == names_view(final(self).iat_names@)
            }),
    {
        let ghost names = self.spec_delay_import_names(raw@);
        let ghost init = self.iat_names@;
        let ghost st0 = bind_start(names_view(self.iat_names@), loader.calls().len() as int);
        let mut resolved_cache: Vec<(String, u64)> = Vec::new();
        proof {
            assert(cache_view(resolved_cache@) =~= Seq::<(Seq<char>, u64)>::empty());
            assert(old(loader).calls().is_prefix_of(loader.calls())) by {
                assert(loader.calls().subrange(0, loader.calls().len() as int) =~= loader.calls());
            }
        }
        let mut i: usize = 0;
        while i < self.delay_load_dir.len()
            invariant
                raw@.len() <= isize::MAX,
                i <= self.delay_load_dir@.len(),
                self.same_image(&*old(self)),
                init == old(self).iat_names@,
                names == old(self).spec_delay_import_names(raw@),
                old(self).delay_load_binding_ok(raw@, base_addr),
                recorded_within(init, self.iat_names@, names),
                st0 == bind_start(names_view(old(self).iat_names@), old(loader).calls().len() as int),
                old(loader).calls().is_prefix_of(loader.calls()),
                reached64(
                    delay_run64(
                        old(self).sect_hdr@,
                        raw@,
                        old(self).delay_load_dir@,
                        base_addr,
                        i as int,
                        st0,
                        loader.calls(),
                    ),
                    resolved_cache@,
                    self.iat_names@,
                    loader.calls().len() as int,
                ),
            decreases self.delay_load_dir@.len() - i,
        {
            let ghost sects = old(self).sect_hdr@;
            let ghost dirs = old(self).delay_load_dir@;
            let ghost log_i = loader.calls();
            let name = self.delay_load_dir[i].name.clone();
            if name.as_str().is_empty() {
                i = i + 1;
                continue;
            }
            let name_table = self.delay_load_dir[i].name_table;
            let address_table = self.delay_load_dir[i].address_table;

            let ghost k = i as int;
            let ghost slots_spec = spec_delay_descriptor_slots(
                self.sect_hdr@,
                raw@,
                name_table,
                address_table,
            );
            let ghost before = self.iat_names@;
            assert(self.delay_load_dir@[k].name@.len() > 0);
            let slots = self.delay_load_slots(raw, name_table, address_table);
            self.bind_slots(raw, loader, base_addr, &slots, name.as_str(), &mut resolved_cache, false);
            proof {
                lemma_prefix_trans(old(loader).calls(), log_i, loader.calls());
                lemma_delay_run64_prefix(sects, raw@, dirs, base_addr, i as int, st0, log_i, loader.calls());
            }
            assert(slot_names(raw@, name@, slots_spec).subset_of(names)) by {
                assert forall|v: Seq<char>| #[trigger]
                    slot_names(raw@, name@, slots_spec).contains(v) implies names.contains(v) by {
                    let j = choose|j: int|
                        0 <= j < slots_spec.len() && v == qualified_name(
                            name@,
                            slot_name(raw@, #[trigger] slots_spec[j]),
                        );
                    assert(v == old(self).delay_slot_name(raw@, k, j));
                }
            }
            proof {
                lemma_recorded_within_trans(
                    init,
                    before,
                    self.iat_names@,
                    names,
                    slot_names(raw@, name@, slots_spec),
                    names,
                );
            }
            i = i + 1;
        }
    }
}

/// The dependency a descriptor named `name` contributes: API-set contract
/// names (`api-ms-win-*`, `ext-ms-*`, in any ASCII case, surrounding white
/// space ignored) collapse to `kernelbase`.
pub open spec fn spec_dependency(name: Seq<char>) -> Seq<char> {
    if spec_is_api_set_contract(name) {
        "kernelbase"@
    } else {
        name
    }
}

/// The dependencies of the first `n` import descriptors: one per named
/// descriptor, in order.
pub open spec fn spec_dependencies(descs: Seq<ImageImportDescriptor>, n: int) -> Seq<Seq<char>>
    decreases n,
{
    if n <= 0 || n > descs.len() {
        Seq::empty()
    } else if descs[n - 1].name@.len() == 0 {
        spec_dependencies(descs, n - 1)
    } else {
        spec_dependencies(descs, n - 1).push(spec_dependency(descs[n - 1].name@))
    }
}

/// The name an import-name table maps `paddr` to: the part after the first
/// `!` of the recorded `dll!function`; empty when `paddr` is not recorded or
/// its entry holds no `!`.
pub open spec fn spec_import_addr_to_name<K>(names: Map<K, String>, paddr: K) -> Seq<char> {
    if names.contains_key(paddr) {
        match after_first_bang(names[paddr]@) {
            Some(t) => t,
            None => Seq::empty(),
        }
    } else {
        Seq::empty()
    }
}

/// The `dll!function` an import-name table maps `paddr` to; empty when it is
/// not recorded.
pub open spec fn spec_import_addr_to_dll_and_name<K>(names: Map<K, String>, paddr: K) -> Seq<char> {
    if names.contains_key(paddr) {
        names[paddr]@
    } else {
        Seq::empty()
    }
}

impl PE64 {
    /// The DLL names this image imports from, one per named import descriptor
    /// in order, with API-set contracts collapsed to `kernelbase`.
    pub fn get_dependencies(&self) -> (dependencies: Vec<String>)
        ensures
            dependencies@.len() == spec_dependencies(
                self.image_import_descriptor@,
                self.image_import_descriptor@.len() as int,
            ).len(),
            forall|i: int|
                0 <= i < dependencies@.len() ==> (#[trigger] dependencies@[i])@ == spec_dependencies(
                    self.image_import_descriptor@,
                    self.image_import_descriptor@.len() as int,
                )[i],
    {
        let mut dependencies: Vec<String> = Vec::new();
        let mut i: usize = 0;
        while i < self.image_import_descriptor.len()
            invariant
                i <= self.image_import_descriptor@.len(),
                dependencies@.len() == spec_dependencies(self.image_import_descriptor@, i as int).len(),
                forall|j: int|
                    0 <= j < dependencies@.len() ==> (#[trigger] dependencies@[j])@ == spec_dependencies(
                        self.image_import_descriptor@,
                        i as int,
                    )[j],
            decreases self.image_import_descriptor@.len() - i,
        {
            let iim = &self.image_import_descriptor[i];
            if iim.name.as_str().is_empty() {
                i = i + 1;
                continue;
            }
            let mut libname = iim.name.clone();
            if is_api_set_contract(iim.name.as_str()) {
                libname = String::from_str("kernelbase");
            }
            dependencies.push(libname);
            i = i + 1;
        }
        dependencies
    }

    /// The function name recorded for import address `paddr` during binding
    /// (the part after `!` of its `dll!function`); empty when none is recorded.
    pub fn import_addr_to_name(&self, paddr: u64) -> (name: String)
        ensures
            name@ == spec_import_addr_to_name(self.iat_names@, paddr),
    {
        match self.iat_names.get(&paddr) {
            Some(full) => match split_after_bang(full.as_str()) {
                Some(name) => name,
                None => String::new(),
            },
            None => String::new(),
        }
    }

    /// The `dll!function` recorded for import address `paddr` during binding;
    /// empty when none is recorded.
    pub fn import_addr_to_dll_and_name(&self, paddr: u64) -> (full: String)
        ensures
            full@ == spec_import_addr_to_dll_and_name(self.iat_names@, paddr),
    {
        match self.iat_names.get(&paddr) {
            Some(full) => full.clone(),
            None => String::new(),
        }
    }
}

proof fn lemma_first_bang_qualified(dll: Seq<char>, func: Seq<char>, i: int)
    requires
        0 <= i <= dll.len(),
        !dll.contains('!'),
    ensures
        first_bang(qualified_name(dll, func), i) == Some(dll.len() as int),
    decreases dll.len() - i,
{
    let q = qualified_name(dll, func);
    if i < dll.len() {
        assert(q[i] == dll[i]);
        if q[i] == '!' {
            assert(dll.contains('!'));
        }
        lemma_first_bang_qualified(dll, func, i + 1);
    } else {
        assert(q[i] == '!');
    }
}

/// Law: an address whose recorded name is `dll!func`, with no `!` in the DLL
/// name, reads back as `func` by name and as `dll!func` in full.
pub proof fn lemma_name_of_qualified<K>(names: Map<K, String>, paddr: K, dll: Seq<char>, func: Seq<char>)
    requires
        names.contains_key(paddr),
        names[paddr]@ == qualified_name(dll, func),
        !dll.contains('!'),
    ensures
        spec_import_addr_to_name(names, paddr) == func,
        spec_import_addr_to_dll_and_name(names, paddr) == qualified_name(dll, func),
{
    lemma_first_bang_qualified(dll, func, 0);
    assert(qualified_name(dll, func).skip(dll.len() + 1 as int) =~= func);
}

/// Law (read after write): recording `dll!func` under an address and then
/// looking the address up gives back `func` by name and `dll!func` in full,
/// when the DLL name holds no `!`.
pub proof fn lemma_lookup_after_record<K>(
    names: Map<K, String>,
    paddr: K,
    full: String,
    dll: Seq<char>,
    func: Seq<char>,
)
    requires
        full@ == qualified_name(dll, func),
        !dll.contains('!'),
    ensures
        spec_import_addr_to_name(names.insert(paddr, full), paddr) == func,
        spec_import_addr_to_dll_and_name(names.insert(paddr, full), paddr) == qualified_name(dll, func),
{
    lemma_name_of_qualified(names.insert(paddr, full), paddr, dll, func);
}

/// Law (naming bound and still-unbound slots): after the import-binding step
/// for import `f` of `dll` (with no `!` in `dll`), the address written into
/// its slot, or, when `f` did not resolve, the value the unbound slot keeps,
/// reads back as `f` by name and as `dll!f` in full.
pub proof fn lemma_bound_slot_reads_back(
    raw: Seq<u8>,
    dll: Seq<char>,
    slot: ImportSlot,
    base: u64,
    st: BindState<u64>,
    log: Seq<LoaderCall>,
    names: Map<u64, String>,
)
    requires
        !dll.contains('!'),
        names_view(names) == step64(raw, dll, slot, base, true, st, log).names,
    ensures
        spec_import_addr_to_name(names, step64_key(raw, dll, slot, st, log)) == slot_name(raw, slot),
        spec_import_addr_to_dll_and_name(names, step64_key(raw, dll, slot, st, log)) == qualified_name(
            dll,
            slot_name(raw, slot),
        ),
{
    let k = step64_key(raw, dll, slot, st, log);
    let q = qualified_name(dll, slot_name(raw, slot));
    assert(names_view(names).contains_key(k) && names_view(names)[k] == q);
    assert(names.contains_key(k));
    assert(names[k]@ == q);
    lemma_name_of_qualified(names, k, dll, slot_name(raw, slot));
}

/// Law: an address nothing was recorded under reads back as the empty name,
/// both by name and in full.
pub proof fn lemma_lookup_unrecorded<K>(names: Map<K, String>, paddr: K)
    requires
        !names.contains_key(paddr),
    ensures
        spec_import_addr_to_name(names, paddr) == Seq::<char>::empty(),
        spec_import_addr_to_dll_and_name(names, paddr) == Seq::<char>::empty(),
{
}

/// Law: after import binding, every address binding added or changed reads
/// back, by name, as the function name of one slot of a named import
/// descriptor (when no descriptor name holds a `!`).
pub proof fn lemma_bound_address_names_an_import(before: &PE64, after: &PE64, raw: Seq<u8>, paddr: u64)
    requires
        recorded_within(before.iat_names@, after.iat_names@, before.spec_import_names(raw)),
        after.iat_names@.contains_key(paddr),
        !(before.iat_names@.contains_key(paddr) && after.iat_names@[paddr] == before.iat_names@[paddr]),
        forall|k: int|
            0 <= k < before.image_import_descriptor@.len() ==> !(
            #[trigger] before.image_import_descriptor@[k]).name@.contains('!'),
    ensures
        exists|k: int, j: int|
            0 <= k < before.image_import_descriptor@.len() && 0 <= j < spec_descriptor_slots(
                before.sect_hdr@,
                raw,
                before.image_import_descriptor@[k],
            ).len() && spec_import_addr_to_name(after.iat_names@, paddr) == slot_name(
                raw,
                #[trigger] spec_descriptor_slots(
                    before.sect_hdr@,
                    raw,
                    before.image_import_descriptor@[k],
                )[j],
            ),
{
    let v = after.iat_names@[paddr]@;
    assert(before.spec_import_names(raw).contains(v));
    let (k, j) = choose|k: int, j: int|
        0 <= k < before.image_import_descriptor@.len()
            && before.image_import_descriptor@[k].name@.len() > 0 && 0 <= j < spec_descriptor_slots(
            before.sect_hdr@,
            raw,
            before.image_import_descriptor@[k],
        ).len() && v == #[trigger] before.import_slot_name(raw, k, j);
    let d = before.image_import_descriptor@[k];
    let slot = spec_descriptor_slots(before.sect_hdr@, raw, d)[j];
    lemma_name_of_qualified(after.iat_names@, paddr, d.name@, slot_name(raw, slot));
}


/// What the binding step for `slot` of `dll` records, as `(key, dll,
/// function)`: the import under the address written into its slot, or, when
/// it did not resolve, under the slot's name-table value when `named`.
pub open spec fn step64_records(
    raw: Seq<u8>,
    dll: Seq<char>,
    slot: ImportSlot,
    named: bool,
    st: BindState<u64>,
    log: Seq<LoaderCall>,
) -> Seq<(u64, Seq<char>, Seq<char>)> {
    let r = step64_answer(raw, dll, slot, st, log);
    if r != 0 {
        seq![(r, dll, slot_name(raw, slot))]
    } else if named {
        seq![(slot.thunk, dll, slot_name(raw, slot))]
    } else {
        Seq::empty()
    }
}

/// The records of [`run64`], in order.
pub open spec fn run64_records(
    raw: Seq<u8>,
    dll: Seq<char>,
    slots: Seq<ImportSlot>,
    base: u64,
    named: bool,
    st: BindState<u64>,
    log: Seq<LoaderCall>,
) -> Seq<(u64, Seq<char>, Seq<char>)>
    decreases slots.len(),
{
    if slots.len() == 0 {
        Seq::empty()
    } else {
        run64_records(raw, dll, slots.drop_last(), base, named, st, log) + step64_records(
            raw,
            dll,
            slots.last(),
            named,
            run64(raw, dll, slots.drop_last(), base, named, st, log),
            log,
        )
    }
}

/// The records of [`iat_run64`], in order: those of each bound descriptor's
/// slots.
pub open spec fn iat_records64(
    sects: Seq<ImageSectionHeader>,
    raw: Seq<u8>,
    descs: Seq<ImageImportDescriptor>,
    base: u64,
    n: int,
    st: BindState<u64>,
    log: Seq<LoaderCall>,
) -> Seq<(u64, Seq<char>, Seq<char>)>
    decreases n,
{
    if n <= 0 {
        Seq::empty()
    } else {
        let r1 = iat_records64(sects, raw, descs, base, n - 1, st, log);
        let s1 = iat_run64(sects, raw, descs, base, n - 1, st, log);
        let d = descs[n - 1];
        if d.name@.len() == 0 {
            r1
        } else {
            let s2 = BindState {
                cache: s1.cache,
                names: s1.names,
                u: s1.u + 1,
                ok: s1.ok && 0 <= s1.u < log.len() && is_load(log[s1.u], d.name@),
            };
            if spec_binds_descriptor(answer_of(log[s1.u]), d.name@) && descriptor_ok(sects, raw, d, base) {
                r1 + run64_records(raw, d.name@, spec_descriptor_slots(sects, raw, d), base, true, s2, log)
            } else {
                r1
            }
        }
    }
}

/// The table `names` after recording each of `recs` in order (a later record
/// under the same key replaces an earlier one).
pub open spec fn apply_records(
    names: Map<u64, Seq<char>>,
    recs: Seq<(u64, Seq<char>, Seq<char>)>,
) -> Map<u64, Seq<char>>
    decreases recs.len(),
{
    if recs.len() == 0 {
        names
    } else {
        apply_records(names, recs.drop_last()).insert(
            recs.last().0,
            qualified_name(recs.last().1, recs.last().2),
        )
    }
}

proof fn lemma_apply_records_concat(
    names: Map<u64, Seq<char>>,
    a: Seq<(u64, Seq<char>, Seq<char>)>,
    b: Seq<(u64, Seq<char>, Seq<char>)>,
)
    ensures
        apply_records(names, a + b) == apply_records(apply_records(names, a), b),
    decreases b.len(),
{
    if b.len() == 0 {
        assert(a + b =~= a);
    } else {
        assert((a + b).drop_last() =~= a + b.drop_last());
        assert((a + b).last() == b.last());
        lemma_apply_records_concat(names, a, b.drop_last());
    }
}

proof fn lemma_run64_records(
    raw: Seq<u8>,
    dll: Seq<char>,
    slots: Seq<ImportSlot>,
    base: u64,
    named: bool,
    st: BindState<u64>,
    log: Seq<LoaderCall>,
)
    ensures
        run64(raw, dll, slots, base, named, st, log).names == apply_records(
            st.names,
            run64_records(raw, dll, slots, base, named, st, log),
        ),
    decreases slots.len(),
{
    if slots.len() > 0 {
        let p = slots.drop_last();
        lemma_run64_records(raw, dll, p, base, named, st, log);
        let prev = run64(raw, dll, p, base, named, st, log);
        let a = run64_records(raw, dll, p, base, named, st, log);
        let b = step64_records(raw, dll, slots.last(), named, prev, log);
        lemma_apply_records_concat(st.names, a, b);
        let m = apply_records(st.names, a);
        let r = step64_answer(raw, dll, slots.last(), prev, log);
        let f = slot_name(raw, slots.last());
        if b.len() == 1 {
            assert(b.drop_last() =~= Seq::<(u64, Seq<char>, Seq<char>)>::empty());
            assert(apply_records(m, b.drop_last()) == m);
            assert(apply_records(m, b) == m.insert(b.last().0, qualified_name(b.last().1, b.last().2)));
        } else {
            assert(apply_records(m, b) == m);
        }
        assert(run64(raw, dll, slots, base, named, st, log) == step64(raw, dll, slots.last(), base, named, prev, log));
    }
}

proof fn lemma_iat_records64(
    sects: Seq<ImageSectionHeader>,
    raw: Seq<u8>,
    descs: Seq<ImageImportDescriptor>,
    base: u64,
    n: int,
    st: BindState<u64>,
    log: Seq<LoaderCall>,
)
    ensures
        iat_run64(sects, raw, descs, base, n, st, log).names == apply_records(
            st.names,
            iat_records64(sects, raw, descs, base, n, st, log),
        ),
    decreases n,
{
    if n > 0 {
        lemma_iat_records64(sects, raw, descs, base, n - 1, st, log);
        let s1 = iat_run64(sects, raw, descs, base, n - 1, st, log);
        let r1 = iat_records64(sects, raw, descs, base, n - 1, st, log);
        let d = descs[n - 1];
        if d.name@.len() > 0 {
            let s2 = BindState {
                cache: s1.cache,
                names: s1.names,
                u: s1.u + 1,
                ok: s1.ok && 0 <= s1.u < log.len() && is_load(log[s1.u], d.name@),
            };
            let slots = spec_descriptor_slots(sects, raw, d);
            lemma_run64_records(raw, d.name@, slots, base, true, s2, log);
            lemma_apply_records_concat(st.names, r1, run64_records(raw, d.name@, slots, base, true, s2, log));
        }
    }
}

/// A record not followed by another under the same key stands in the table.
proof fn lemma_apply_records_last(names: Map<u64, Seq<char>>, recs: Seq<(u64, Seq<char>, Seq<char>)>, j: int)
    requires
        0 <= j < recs.len(),
        forall|t: int| j < t < recs.len() ==> (#[trigger] recs[t]).0 != recs[j].0,
    ensures
        apply_records(names, recs).contains_key(recs[j].0),
        apply_records(names, recs)[recs[j].0] == qualified_name(recs[j].1, recs[j].2),
    decreases recs.len(),
{
    if j < recs.len() - 1 {
        let p = recs.drop_last();
        assert forall|t: int| j < t < p.len() implies (#[trigger] p[t]).0 != p[j].0 by {
            assert(p[t] == recs[t]);
        }
        lemma_apply_records_last(names, p, j);
        assert(recs[recs.len() - 1].0 != recs[j].0);
    }
}

/// Law (naming after a whole import binding): a record of import binding,
/// `(key, dll, f)` (the address written into an import's slot, or the value
/// its unbound slot keeps), that no later record of the same binding
/// replaces, reads back after binding as `dll!f` in full and, when `dll`
/// holds no `!`, as `f` by name. `names` is the table binding reached, as
/// `PE64::iat_binding` states it.
pub proof fn lemma_iat_binding_reads_back(
    sects: Seq<ImageSectionHeader>,
    raw: Seq<u8>,
    descs: Seq<ImageImportDescriptor>,
    base: u64,
    st: BindState<u64>,
    log: Seq<LoaderCall>,
    names: Map<u64, String>,
    j: int,
)
    requires
        names_view(names) == iat_run64(sects, raw, descs, base, descs.len() as int, st, log).names,
        0 <= j < iat_records64(sects, raw, descs, base, descs.len() as int, st, log).len(),
        forall|t: int|
            j < t < iat_records64(sects, raw, descs, base, descs.len() as int, st, log).len() ==> (
            #[trigger] iat_records64(sects, raw, descs, base, descs.len() as int, st, log)[t]).0
                != iat_records64(sects, raw, descs, base, descs.len() as int, st, log)[j].0,
    ensures
        ({
            let rec = iat_records64(sects, raw, descs, base, descs.len() as int, st, log)[j];
            &&& spec_import_addr_to_dll_and_name(names, rec.0) == qualified_name(rec.1, rec.2)
            &&& !rec.1.contains('!') ==> spec_import_addr_to_name(names, rec.0) == rec.2
        }),
{
    let recs = iat_records64(sects, raw, descs, base, descs.len() as int, st, log);
    let rec = recs[j];
    lemma_iat_records64(sects, raw, descs, base, descs.len() as int, st, log);
    lemma_apply_records_last(st.names, recs, j);
    assert(names_view(names).contains_key(rec.0));
    assert(names.contains_key(rec.0));
    assert(names[rec.0]@ == qualified_name(rec.1, rec.2));
    if !rec.1.contains('!') {
        lemma_name_of_qualified(names, rec.0, rec.1, rec.2);
    }
}


/// The `i`-th 8-byte entry of a name table at file offset `off_name`.
pub open spec fn orig_entry(raw: Seq<u8>, off_name: int, i: int) -> u64 {
    le_u64(raw, off_name + 8 * i)
}

/// Entry `i` of the name table at `off_name`, and slot `i` of the IAT at
/// `off_addr`, both lie inside the file.
pub open spec fn orig_entry_in_file(raw: Seq<u8>, off_name: int, off_addr: int, i: int) -> bool {
    raw.len() > off_name + 8 * i + 8 && raw.len() > off_addr + 8 * i + 8
}

/// The walk of the name table at `off_name` (with its IAT at `off_addr`)
/// reaches entry `j`: entries `0..=j` lie in the file and none before `j` is
/// zero.
pub open spec fn orig_walk_reaches(raw: Seq<u8>, off_name: int, off_addr: int, j: int) -> bool {
    &&& j >= 0
    &&& forall|i: int| 0 <= i <= j ==> #[trigger] orig_entry_in_file(raw, off_name, off_addr, i)
    &&& forall|i: int| 0 <= i < j ==> #[trigger] orig_entry(raw, off_name, i) != 0
}

/// The slot entry `j` of the name table stands for when it names an import
/// whose hint/name entry maps into the file: its IAT slot RVA `rva + 8 * j`,
/// its name offset past the hint, and the entry's value; `None` for a zero
/// entry, an ordinal entry or a name that does not map.
pub open spec fn named_entry_slot(
    sects: Seq<ImageSectionHeader>,
    raw: Seq<u8>,
    off_name: int,
    rva: int,
    j: int,
) -> Option<ImportSlot> {
    let t = orig_entry(raw, off_name, j);
    let o = spec_vaddr_to_off(sects, (t & NAME_RVA_MASK64) as u32) as int;
    if t != 0 && t & ORDINAL_FLAG64 == 0 && o != 0 {
        Some(ImportSlot { slot_rva: (rva + 8 * j) as u32, name_off: (o + 2) as u64, thunk: t })
    } else {
        None
    }
}

proof fn lemma_orig_walk_reaches_shift(raw: Seq<u8>, off_name: int, off_addr: int, j: int)
    requires
        orig_walk_reaches(raw, off_name, off_addr, j),
        j > 0,
    ensures
        orig_walk_reaches(raw, off_name + 8, off_addr + 8, j - 1),
        orig_entry(raw, off_name, 0) != 0,
        orig_entry_in_file(raw, off_name, off_addr, 0),
{
    assert(orig_entry_in_file(raw, off_name, off_addr, 0));
    assert forall|i: int| 0 <= i <= j - 1 implies #[trigger] orig_entry_in_file(
        raw,
        off_name + 8,
        off_addr + 8,
        i,
    ) by {
        assert(orig_entry_in_file(raw, off_name, off_addr, i + 1));
    }
    assert forall|i: int| 0 <= i < j - 1 implies #[trigger] orig_entry(raw, off_name + 8, i) != 0 by {
        assert(orig_entry(raw, off_name + 8, i) == orig_entry(raw, off_name, i + 1));
    }
    assert(orig_entry(raw, off_name, 0) != 0);
}

/// Law (every named import of an OriginalFirstThunk table is bound): when the
/// walk reaches entry `j` (entries `0..=j` in the file, none before it zero)
/// and entry `j` names an import whose name maps into the file, its slot (IAT
/// RVA `rva + 8 * j`) is among the slots the walk yields, whatever entries
/// (ordinal ones included) come before it.
pub proof fn lemma_orig_slots_complete(
    sects: Seq<ImageSectionHeader>,
    raw: Seq<u8>,
    off_name: int,
    off_addr: int,
    rva: int,
    j: int,
)
    requires
        orig_walk_reaches(raw, off_name, off_addr, j),
        named_entry_slot(sects, raw, off_name, rva, j) is Some,
    ensures
        exists|k: int|
            0 <= k < spec_orig_slots(sects, raw, off_name, off_addr, rva).len()
                && #[trigger] spec_orig_slots(sects, raw, off_name, off_addr, rva)[k] == named_entry_slot(
                sects,
                raw,
                off_name,
                rva,
                j,
            )->0,
    decreases j,
{
    assert(orig_entry_in_file(raw, off_name, off_addr, 0));
    let slots = spec_orig_slots(sects, raw, off_name, off_addr, rva);
    let rest = spec_orig_slots(sects, raw, off_name + 8, off_addr + 8, rva + 8);
    let t = le_u64(raw, off_name);
    assert(orig_entry(raw, off_name, 0) == t);
    if j == 0 {
        assert(slots[0] == named_entry_slot(sects, raw, off_name, rva, 0)->0);
    } else {
        lemma_orig_walk_reaches_shift(raw, off_name, off_addr, j);
        assert(orig_entry(raw, off_name + 8, j - 1) == orig_entry(raw, off_name, j));
        assert(named_entry_slot(sects, raw, off_name + 8, rva + 8, j - 1) == named_entry_slot(
            sects,
            raw,
            off_name,
            rva,
            j,
        ));
        lemma_orig_slots_complete(sects, raw, off_name + 8, off_addr + 8, rva + 8, j - 1);
        let k = choose|k: int|
            0 <= k < rest.len() && #[trigger] rest[k] == named_entry_slot(
                sects,
                raw,
                off_name + 8,
                rva + 8,
                j - 1,
            )->0;
        if t & ORDINAL_FLAG64 != 0 || spec_vaddr_to_off(sects, (t & NAME_RVA_MASK64) as u32) == 0 {
            assert(slots == rest);
            assert(slots[k] == rest[k]);
        } else {
            assert(slots[k + 1] == rest[k]);
        }
    }
}

/// Law (the bound slots are exactly the named entries): every slot the walk
/// of an OriginalFirstThunk table yields stands for an entry `j` that the
/// walk reaches and that names an import whose name maps into the file.
pub proof fn lemma_orig_slots_sound(
    sects: Seq<ImageSectionHeader>,
    raw: Seq<u8>,
    off_name: int,
    off_addr: int,
    rva: int,
    k: int,
)
    requires
        0 <= k < spec_orig_slots(sects, raw, off_name, off_addr, rva).len(),
    ensures
        exists|j: int|
            #![trigger named_entry_slot(sects, raw, off_name, rva, j)]
            orig_walk_reaches(raw, off_name, off_addr, j) && named_entry_slot(sects, raw, off_name, rva, j)
                == Some(spec_orig_slots(sects, raw, off_name, off_addr, rva)[k]),
    decreases raw.len() - off_name,
{
    let slots = spec_orig_slots(sects, raw, off_name, off_addr, rva);
    let rest = spec_orig_slots(sects, raw, off_name + 8, off_addr + 8, rva + 8);
    let t = le_u64(raw, off_name);
    assert(orig_entry(raw, off_name, 0) == t);
    assert(raw.len() > off_name + 8 && raw.len() > off_addr + 8 && t != 0);
    assert(orig_entry_in_file(raw, off_name, off_addr, 0));
    let named = !(t & ORDINAL_FLAG64 != 0 || spec_vaddr_to_off(sects, (t & NAME_RVA_MASK64) as u32) == 0);
    if named && k == 0 {
        assert(orig_walk_reaches(raw, off_name, off_addr, 0));
        assert(named_entry_slot(sects, raw, off_name, rva, 0) == Some(slots[0]));
    } else {
        let k2 = if named { k - 1 } else { k };
        assert(slots[k] == rest[k2]);
        lemma_orig_slots_sound(sects, raw, off_name + 8, off_addr + 8, rva + 8, k2);
        let j2 = choose|j2: int|
            #![trigger named_entry_slot(sects, raw, off_name + 8, rva + 8, j2)]
            orig_walk_reaches(raw, off_name + 8, off_addr + 8, j2) && named_entry_slot(
                sects,
                raw,
                off_name + 8,
                rva + 8,
                j2,
            ) == Some(rest[k2]);
        let j = j2 + 1;
        assert(orig_entry(raw, off_name + 8, j2) == orig_entry(raw, off_name, j));
        assert(named_entry_slot(sects, raw, off_name, rva, j) == named_entry_slot(
            sects,
            raw,
            off_name + 8,
            rva + 8,
            j2,
        ));
        assert forall|i: int| 0 <= i <= j implies #[trigger] orig_entry_in_file(raw, off_name, off_addr, i) by {
            if i > 0 {
                assert(orig_entry_in_file(raw, off_name + 8, off_addr + 8, i - 1));
            }
        }
        assert forall|i: int| 0 <= i < j implies #[trigger] orig_entry(raw, off_name, i) != 0 by {
            if i > 0 {
                assert(orig_entry(raw, off_name + 8, i - 1) != 0);
                assert(orig_entry(raw, off_name + 8, i - 1) == orig_entry(raw, off_name, i));
            }
        }
        assert(orig_walk_reaches(raw, off_name, off_addr, j));
    }
}


/// Every lookup `resolve_api_name_in_module` answered in `log` resolved
/// (a nonzero address).
pub open spec fn loader_resolves_all(log: Seq<LoaderCall>) -> bool {
    forall|p: int|
        0 <= p < log.len() && (#[trigger] log[p]) is ResolveApiNameInModule ==> answer_of(log[p]) != 0
}

/// Every cached address is nonzero.
pub open spec fn cache_nonzero(cache: Seq<(Seq<char>, u64)>) -> bool {
    forall|i: int| 0 <= i < cache.len() ==> (#[trigger] cache[i]).1 != 0
}

/// `log` holds a `write_qword` of a nonzero value at `addr`.
pub open spec fn slot_written(log: Seq<LoaderCall>, addr: u64) -> bool {
    exists|p: int|
        0 <= p < log.len() && (#[trigger] log[p] matches LoaderCall::WriteQword { addr: a, val: v, .. } && a
            == addr && v != 0)
}

proof fn lemma_cache_find_nonzero(cache: Seq<(Seq<char>, u64)>, key: Seq<char>, i: int)
    requires
        cache_nonzero(cache),
    ensures
        spec_cache_find(cache, key, i) matches Some(v) ==> v != 0,
    decreases cache.len() - i,
{
    if 0 <= i < cache.len() && cache[i].0 != key {
        lemma_cache_find_nonzero(cache, key, i + 1);
    }
}

proof fn lemma_run64_writes_every_slot(
    raw: Seq<u8>,
    dll: Seq<char>,
    slots: Seq<ImportSlot>,
    base: u64,
    named: bool,
    st: BindState<u64>,
    log: Seq<LoaderCall>,
)
    requires
        run64(raw, dll, slots, base, named, st, log).ok,
        cache_nonzero(st.cache),
        loader_resolves_all(log),
    ensures
        cache_nonzero(run64(raw, dll, slots, base, named, st, log).cache),
        forall|j: int|
            0 <= j < slots.len() ==> slot_written(log, (base + (#[trigger] slots[j]).slot_rva) as u64),
    decreases slots.len(),
{
    if slots.len() > 0 {
        let p = slots.drop_last();
        let prev = run64(raw, dll, p, base, named, st, log);
        let s = slots.last();
        assert(prev.ok);
        lemma_run64_writes_every_slot(raw, dll, p, base, named, st, log);
        let f = slot_name(raw, s);
        let key = cache_key(dll, f);
        lemma_cache_find_nonzero(prev.cache, key, 0);
        let r = step64_answer(raw, dll, s, prev, log);
        if spec_cache_find(prev.cache, key, 0) is None {
            assert(log[prev.u] is ResolveApiNameInModule);
        }
        assert(r != 0);
        let u1 = if spec_cache_find(prev.cache, key, 0) is Some { prev.u } else { prev.u + 1 };
        assert(is_write_qword(log[u1], (base + s.slot_rva) as u64, r));
        assert(slot_written(log, (base + s.slot_rva) as u64));
        let fin = run64(raw, dll, slots, base, named, st, log);
        assert forall|i: int| 0 <= i < fin.cache.len() implies (#[trigger] fin.cache[i]).1 != 0 by {
            if i < prev.cache.len() {
                assert(fin.cache[i] == prev.cache[i]);
            }
        }
        assert forall|j: int| 0 <= j < slots.len() implies slot_written(
            log,
            (base + (#[trigger] slots[j]).slot_rva) as u64,
        ) by {
            if j < p.len() {
                assert(slots[j] == p[j]);
            }
        }
    }
}

proof fn lemma_delay_run64_writes(
    sects: Seq<ImageSectionHeader>,
    raw: Seq<u8>,
    dirs: Seq<DelayLoadDirectory>,
    base: u64,
    n: int,
    st: BindState<u64>,
    log: Seq<LoaderCall>,
)
    requires
        0 <= n <= dirs.len(),
        delay_run64(sects, raw, dirs, base, n, st, log).ok,
        cache_nonzero(st.cache),
        loader_resolves_all(log),
    ensures
        cache_nonzero(delay_run64(sects, raw, dirs, base, n, st, log).cache),
        forall|k: int, j: int|
            0 <= k < n && dirs[k].name@.len() > 0 && 0 <= j < spec_delay_descriptor_slots(
                sects,
                raw,
                dirs[k].name_table,
                dirs[k].address_table,
            ).len() ==> slot_written(
                log,
                (base + (#[trigger] spec_delay_descriptor_slots(
                    sects,
                    raw,
                    dirs[k].name_table,
                    dirs[k].address_table,
                )[j]).slot_rva) as u64,
            ),
    decreases n,
{
    if n > 0 {
        let s1 = delay_run64(sects, raw, dirs, base, n - 1, st, log);
        let d = dirs[n - 1];
        let slots = spec_delay_descriptor_slots(sects, raw, d.name_table, d.address_table);
        if d.name@.len() > 0 {
            lemma_run64_mono(raw, d.name@, slots, base, false, s1, log);
        }
        lemma_delay_run64_writes(sects, raw, dirs, base, n - 1, st, log);
        if d.name@.len() > 0 {
            lemma_run64_writes_every_slot(raw, d.name@, slots, base, false, s1, log);
        }
    }
}

/// Law (delay-load binding binds every descriptor): when every lookup the
/// loader answered resolved, binding the delay-load tables writes, for every
/// named delay-load descriptor (not only the first) and every slot of its
/// table, a nonzero address into that slot at `base` plus the slot's RVA.
/// `log` and the start state are those `PE64::delay_load_binding` states its
/// run over.
pub proof fn lemma_delay_binding_binds_every_descriptor(
    sects: Seq<ImageSectionHeader>,
    raw: Seq<u8>,
    dirs: Seq<DelayLoadDirectory>,
    base: u64,
    names: Map<u64, Seq<char>>,
    u: int,
    log: Seq<LoaderCall>,
)
    requires
        delay_run64(sects, raw, dirs, base, dirs.len() as int, bind_start(names, u), log).ok,
        loader_resolves_all(log),
    ensures
        forall|k: int, j: int|
            0 <= k < dirs.len() && dirs[k].name@.len() > 0 && 0 <= j < spec_delay_descriptor_slots(
                sects,
                raw,
                dirs[k].name_table,
                dirs[k].address_table,
            ).len() ==> slot_written(
                log,
                (base + (#[trigger] spec_delay_descriptor_slots(
                    sects,
                    raw,
                    dirs[k].name_table,
                    dirs[k].address_table,
                )[j]).slot_rva) as u64,
            ),
{
    lemma_delay_run64_writes(sects, raw, dirs, base, dirs.len() as int, bind_start(names, u), log);
}


/// Every library load answered in `log` succeeded (a nonzero base).
pub open spec fn loader_loads_all(log: Seq<LoaderCall>) -> bool {
    forall|p: int| 0 <= p < log.len() && (#[trigger] log[p]) is LoadLibrary ==> answer_of(log[p]) != 0
}

proof fn lemma_iat_run64_writes(
    sects: Seq<ImageSectionHeader>,
    raw: Seq<u8>,
    descs: Seq<ImageImportDescriptor>,
    base: u64,
    n: int,
    st: BindState<u64>,
    log: Seq<LoaderCall>,
)
    requires
        0 <= n <= descs.len(),
        iat_run64(sects, raw, descs, base, n, st, log).ok,
        cache_nonzero(st.cache),
        loader_resolves_all(log),
    ensures
        cache_nonzero(iat_run64(sects, raw, descs, base, n, st, log).cache),
        forall|k: int, j: int|
            0 <= k < n && descs[k].name@.len() > 0 && descriptor_ok(sects, raw, descs[k], base) && (
            loader_loads_all(log) || spec_is_api_set_contract(descs[k].name@)) && 0 <= j
                < spec_descriptor_slots(sects, raw, descs[k]).len() ==> slot_written(
                log,
                (base + (#[trigger] spec_descriptor_slots(sects, raw, descs[k])[j]).slot_rva) as u64,
            ),
    decreases n,
{
    if n > 0 {
        let s1 = iat_run64(sects, raw, descs, base, n - 1, st, log);
        let d = descs[n - 1];
        let slots = spec_descriptor_slots(sects, raw, d);
        if d.name@.len() > 0 {
            let s2 = BindState {
                cache: s1.cache,
                names: s1.names,
                u: s1.u + 1,
                ok: s1.ok && 0 <= s1.u < log.len() && is_load(log[s1.u], d.name@),
            };
            if spec_binds_descriptor(answer_of(log[s1.u]), d.name@) && descriptor_ok(sects, raw, d, base) {
                lemma_run64_mono(raw, d.name@, slots, base, true, s2, log);
                assert(s1.ok);
                lemma_iat_run64_writes(sects, raw, descs, base, n - 1, st, log);
                lemma_run64_writes_every_slot(raw, d.name@, slots, base, true, s2, log);
            } else {
                assert(s2.ok);
                assert(log[s1.u] is LoadLibrary);
                lemma_iat_run64_writes(sects, raw, descs, base, n - 1, st, log);
            }
        } else {
            lemma_iat_run64_writes(sects, raw, descs, base, n - 1, st, log);
        }
    }
}

/// Law (import binding binds every loaded descriptor): when every lookup
/// the loader answered resolved, import binding writes, for every named
/// import descriptor (not only the first) whose tables can be walked and
/// patched, and that names an API-set contract or whose library loads (as
/// every load does when the loader loads all), a nonzero address into every
/// slot of its table at `base` plus the slot's RVA. `log` and the start state
/// are those `PE64::iat_binding` states its run over.
pub proof fn lemma_iat_binding_binds_every_descriptor(
    sects: Seq<ImageSectionHeader>,
    raw: Seq<u8>,
    descs: Seq<ImageImportDescriptor>,
    base: u64,
    names: Map<u64, Seq<char>>,
    u: int,
    log: Seq<LoaderCall>,
)
    requires
        iat_run64(sects, raw, descs, base, descs.len() as int, bind_start(names, u), log).ok,
        loader_resolves_all(log),
    ensures
        forall|k: int, j: int|
            0 <= k < descs.len() && descs[k].name@.len() > 0 && descriptor_ok(sects, raw, descs[k], base) && (
            loader_loads_all(log) || spec_is_api_set_contract(descs[k].name@)) && 0 <= j
                < spec_descriptor_slots(sects, raw, descs[k]).len() ==> slot_written(
                log,
                (base + (#[trigger] spec_descriptor_slots(sects, raw, descs[k])[j]).slot_rva) as u64,
            ),
{
    lemma_iat_run64_writes(sects, raw, descs, base, descs.len() as int, bind_start(names, u), log);
}


/// The walk of a delay-load name table at `off_name` (4-byte entries) with
/// its address table at `off_addr` (8-byte slots) reaches entry `j`: entry
/// `i` and slot `i` lie in the file for every `i` up to `j`.
pub open spec fn delay_walk_reaches(raw: Seq<u8>, off_name: int, off_addr: int, j: int) -> bool {
    &&& j >= 0
    &&& forall|i: int| 0 <= i <= j ==> raw.len() > #[trigger] (off_name + 4 * i) + 4
    &&& forall|i: int| 0 <= i <= j ==> raw.len() > #[trigger] (off_addr + 8 * i) + 4
}

/// The slot entry `j` of a delay-load name table stands for when its name
/// maps into the file: slot RVA `rva + 8 * j`; `None` otherwise.
pub open spec fn delay_entry_slot(
    sects: Seq<ImageSectionHeader>,
    raw: Seq<u8>,
    off_name: int,
    rva: int,
    j: int,
) -> Option<ImportSlot> {
    let fna = le_u32(raw, off_name + 4 * j);
    let o = spec_vaddr_to_off(sects, fna) as int;
    if o != 0 {
        Some(ImportSlot { slot_rva: (rva + 8 * j) as u32, name_off: (o + 2) as u64, thunk: fna as u64 })
    } else {
        None
    }
}

proof fn lemma_delay_walk_reaches_shift(raw: Seq<u8>, off_name: int, off_addr: int, j: int)
    requires
        delay_walk_reaches(raw, off_name, off_addr, j),
        j > 0,
    ensures
        delay_walk_reaches(raw, off_name + 4, off_addr + 8, j - 1),
        raw.len() > off_name + 4 && raw.len() > off_addr + 4,
{
    assert(raw.len() > (off_name + 4 * 0) + 4);
    assert(raw.len() > (off_addr + 8 * 0) + 4);
    assert forall|i: int| 0 <= i <= j - 1 implies raw.len() > #[trigger] ((off_name + 4) + 4 * i) + 4 by {
        assert((off_name + 4) + 4 * i == off_name + 4 * (i + 1));
        assert(raw.len() > (off_name + 4 * (i + 1)) + 4);
    }
    assert forall|i: int| 0 <= i <= j - 1 implies raw.len() > #[trigger] ((off_addr + 8) + 8 * i) + 4 by {
        assert((off_addr + 8) + 8 * i == off_addr + 8 * (i + 1));
        assert(raw.len() > (off_addr + 8 * (i + 1)) + 4);
    }
}

/// Law (every mapping entry of a delay-load table is bound): when the walk
/// reaches entry `j` and entry `j`'s name maps into the file, its slot (RVA
/// `rva + 8 * j`) is among the slots the walk yields, whatever entries come
/// before it.
pub proof fn lemma_delay_slots_complete(
    sects: Seq<ImageSectionHeader>,
    raw: Seq<u8>,
    off_name: int,
    off_addr: int,
    rva: int,
    j: int,
)
    requires
        delay_walk_reaches(raw, off_name, off_addr, j),
        delay_entry_slot(sects, raw, off_name, rva, j) is Some,
    ensures
        exists|k: int|
            0 <= k < spec_delay_slots(sects, raw, off_name, off_addr, rva).len()
                && #[trigger] spec_delay_slots(sects, raw, off_name, off_addr, rva)[k] == delay_entry_slot(
                sects,
                raw,
                off_name,
                rva,
                j,
            )->0,
    decreases j,
{
    assert(raw.len() > (off_name + 4 * 0) + 4);
    assert(raw.len() > (off_addr + 8 * 0) + 4);
    let slots = spec_delay_slots(sects, raw, off_name, off_addr, rva);
    let rest = spec_delay_slots(sects, raw, off_name + 4, off_addr + 8, rva + 8);
    let fna = le_u32(raw, off_name);
    if j == 0 {
        assert(off_name + 4 * 0 == off_name);
        assert(slots[0] == delay_entry_slot(sects, raw, off_name, rva, 0)->0);
    } else {
        lemma_delay_walk_reaches_shift(raw, off_name, off_addr, j);
        assert((off_name + 4) + 4 * (j - 1) == off_name + 4 * j);
        assert(delay_entry_slot(sects, raw, off_name + 4, rva + 8, j - 1) == delay_entry_slot(
            sects,
            raw,
            off_name,
            rva,
            j,
        ));
        lemma_delay_slots_complete(sects, raw, off_name + 4, off_addr + 8, rva + 8, j - 1);
        let k = choose|k: int|
            0 <= k < rest.len() && #[trigger] rest[k] == delay_entry_slot(
                sects,
                raw,
                off_name + 4,
                rva + 8,
                j - 1,
            )->0;
        if spec_vaddr_to_off(sects, fna) == 0 {
            assert(slots == rest);
            assert(slots[k] == rest[k]);
        } else {
            assert(slots[k + 1] == rest[k]);
        }
    }
}

/// Law (the bound delay-load slots are exactly the mapping entries): every
/// slot the walk of a delay-load table yields stands for an entry `j` the
/// walk reaches whose name maps into the file.
pub proof fn lemma_delay_slots_sound(
    sects: Seq<ImageSectionHeader>,
    raw: Seq<u8>,
    off_name: int,
    off_addr: int,
    rva: int,
    k: int,
)
    requires
        0 <= k < spec_delay_slots(sects, raw, off_name, off_addr, rva).len(),
    ensures
        exists|j: int|
            #![trigger delay_entry_slot(sects, raw, off_name, rva, j)]
            delay_walk_reaches(raw, off_name, off_addr, j) && delay_entry_slot(sects, raw, off_name, rva, j)
                == Some(spec_delay_slots(sects, raw, off_name, off_addr, rva)[k]),
    decreases raw.len() - off_name,
{
    let slots = spec_delay_slots(sects, raw, off_name, off_addr, rva);
    let rest = spec_delay_slots(sects, raw, off_name + 4, off_addr + 8, rva + 8);
    let fna = le_u32(raw, off_name);
    assert(raw.len() > off_name + 4 && raw.len() > off_addr + 4);
    assert(off_name + 4 * 0 == off_name);
    let named = spec_vaddr_to_off(sects, fna) != 0;
    if named && k == 0 {
        assert(delay_walk_reaches(raw, off_name, off_addr, 0)) by {
            assert forall|i: int| 0 <= i <= 0 implies raw.len() > #[trigger] (off_name + 4 * i) + 4 by {}
            assert forall|i: int| 0 <= i <= 0 implies raw.len() > #[trigger] (off_addr + 8 * i) + 4 by {}
        }
        assert(delay_entry_slot(sects, raw, off_name, rva, 0) == Some(slots[0]));
    } else {
        let k2 = if named { k - 1 } else { k };
        assert(slots[k] == rest[k2]);
        lemma_delay_slots_sound(sects, raw, off_name + 4, off_addr + 8, rva + 8, k2);
        let j2 = choose|j2: int|
            #![trigger delay_entry_slot(sects, raw, off_name + 4, rva + 8, j2)]
            delay_walk_reaches(raw, off_name + 4, off_addr + 8, j2) && delay_entry_slot(
                sects,
                raw,
                off_name + 4,
                rva + 8,
                j2,
            ) == Some(rest[k2]);
        let j = j2 + 1;
        assert((off_name + 4) + 4 * j2 == off_name + 4 * j);
        assert(delay_entry_slot(sects, raw, off_name, rva, j) == delay_entry_slot(
            sects,
            raw,
            off_name + 4,
            rva + 8,
            j2,
        ));
        assert forall|i: int| 0 <= i <= j implies raw.len() > #[trigger] (off_name + 4 * i) + 4 by {
            if i > 0 {
                assert((off_name + 4) + 4 * (i - 1) == off_name + 4 * i);
                assert(raw.len() > ((off_name + 4) + 4 * (i - 1)) + 4);
            }
        }
        assert forall|i: int| 0 <= i <= j implies raw.len() > #[trigger] (off_addr + 8 * i) + 4 by {
            if i > 0 {
                assert((off_addr + 8) + 8 * (i - 1) == off_addr + 8 * i);
                assert(raw.len() > ((off_addr + 8) + 8 * (i - 1)) + 4);
            }
        }
        assert(delay_walk_reaches(raw, off_name, off_addr, j));
    }
}


/// The cache key of a `resolve_api_name_in_module` call: its module and
/// function name, lower-cased, as `module!function`.
pub open spec fn resolve_key(e: LoaderCall) -> Seq<char> {
    match e {
        LoaderCall::ResolveApiNameInModule { module, name, .. } => cache_key(module, name),
        _ => Seq::empty(),
    }
}

proof fn lemma_cache_find_push(cache: Seq<(Seq<char>, u64)>, entry: (Seq<char>, u64), key: Seq<char>, i: int)
    requires
        0 <= i <= cache.len(),
    ensures
        spec_cache_find(cache.push(entry), key, i) == if spec_cache_find(cache, key, i) is Some {
            spec_cache_find(cache, key, i)
        } else if entry.0 == key {
            Some(entry.1)
        } else {
            None
        },
    decreases cache.len() - i,
{
    let c2 = cache.push(entry);
    if i < cache.len() {
        assert(c2[i] == cache[i]);
        if cache[i].0 != key {
            lemma_cache_find_push(cache, entry, key, i + 1);
        }
    } else {
        assert(c2[i] == entry);
        assert(spec_cache_find(c2, key, i + 1) is None);
    }
}

proof fn lemma_run64_cache_grows(
    raw: Seq<u8>,
    dll: Seq<char>,
    slots: Seq<ImportSlot>,
    base: u64,
    named: bool,
    st: BindState<u64>,
    log: Seq<LoaderCall>,
)
    requires
        run64(raw, dll, slots, base, named, st, log).ok,
    ensures
        ({
            let fin = run64(raw, dll, slots, base, named, st, log);
            &&& st.u <= fin.u
            &&& forall|key: Seq<char>|
                #![trigger spec_cache_find(fin.cache, key, 0)]
                spec_cache_find(st.cache, key, 0) is Some ==> spec_cache_find(fin.cache, key, 0) is Some
            &&& forall|p: int|
                st.u <= p < fin.u && (#[trigger] log[p]) is ResolveApiNameInModule ==> {
                    &&& spec_cache_find(st.cache, resolve_key(log[p]), 0) is None
                    &&& spec_cache_find(fin.cache, resolve_key(log[p]), 0) is Some
                    &&& forall|p2: int|
                        p < p2 < fin.u && (#[trigger] log[p2]) is ResolveApiNameInModule ==> resolve_key(log[p])
                            != resolve_key(log[p2])
                }
        }),
    decreases slots.len(),
{
    if slots.len() > 0 {
        let p = slots.drop_last();
        let prev = run64(raw, dll, p, base, named, st, log);
        let fin = run64(raw, dll, slots, base, named, st, log);
        assert(prev.ok);
        lemma_run64_cache_grows(raw, dll, p, base, named, st, log);
        let s = slots.last();
        let f = slot_name(raw, s);
        let k = cache_key(dll, f);
        let hit = spec_cache_find(prev.cache, k, 0);
        let r = step64_answer(raw, dll, s, prev, log);
        if hit is None {
            assert(log[prev.u] is ResolveApiNameInModule);
            assert(resolve_key(log[prev.u]) == k);
            assert(fin.cache == prev.cache.push((k, r)));
            assert forall|key: Seq<char>| #[trigger] spec_cache_find(prev.cache, key, 0) is Some implies spec_cache_find(
                fin.cache,
                key,
                0,
            ) is Some by {
                lemma_cache_find_push(prev.cache, (k, r), key, 0);
            }
            lemma_cache_find_push(prev.cache, (k, r), k, 0);
        }
        let u1 = if hit is Some { prev.u } else { prev.u + 1 };
        if r != 0 {
            assert(log[u1] is WriteQword);
        }
        assert forall|key: Seq<char>|
            #![trigger spec_cache_find(fin.cache, key, 0)]
            spec_cache_find(st.cache, key, 0) is Some implies spec_cache_find(fin.cache, key, 0) is Some by {
            assert(spec_cache_find(prev.cache, key, 0) is Some);
        }
        assert forall|q: int| st.u <= q < fin.u && (#[trigger] log[q]) is ResolveApiNameInModule implies {
            &&& spec_cache_find(st.cache, resolve_key(log[q]), 0) is None
            &&& spec_cache_find(fin.cache, resolve_key(log[q]), 0) is Some
            &&& forall|p2: int|
                q < p2 < fin.u && (#[trigger] log[p2]) is ResolveApiNameInModule ==> resolve_key(log[q])
                    != resolve_key(log[p2])
        } by {
            if q < prev.u {
                assert(spec_cache_find(prev.cache, resolve_key(log[q]), 0) is Some);
                assert forall|p2: int|
                    q < p2 < fin.u && (#[trigger] log[p2]) is ResolveApiNameInModule implies resolve_key(log[q])
                        != resolve_key(log[p2]) by {
                    if p2 >= prev.u {
                        assert(hit is None && p2 == prev.u);
                    }
                }
            } else {
                assert(hit is None && q == prev.u);
                if spec_cache_find(st.cache, k, 0) is Some {
                    assert(spec_cache_find(prev.cache, k, 0) is Some);
                }
            }
        }
    }
}

/// Law (each name is asked of the loader once): within one run of
/// import-binding steps, no two `resolve_api_name_in_module` calls ask for
/// the same case-insensitive `dll!function`, and none asks for a name already
/// in the cache the run started with.
pub proof fn lemma_run64_asks_each_name_once(
    raw: Seq<u8>,
    dll: Seq<char>,
    slots: Seq<ImportSlot>,
    base: u64,
    named: bool,
    st: BindState<u64>,
    log: Seq<LoaderCall>,
)
    requires
        run64(raw, dll, slots, base, named, st, log).ok,
    ensures
        ({
            let fin = run64(raw, dll, slots, base, named, st, log);
            forall|p1: int, p2: int|
                st.u <= p1 < p2 < fin.u && (#[trigger] log[p1]) is ResolveApiNameInModule
                    && (#[trigger] log[p2]) is ResolveApiNameInModule ==> resolve_key(log[p1]) != resolve_key(
                    log[p2],
                )
        }),
        ({
            let fin = run64(raw, dll, slots, base, named, st, log);
            forall|p: int|
                st.u <= p < fin.u && (#[trigger] log[p]) is ResolveApiNameInModule ==> spec_cache_find(
                    st.cache,
                    resolve_key(log[p]),
                    0,
                ) is None
        }),
{
    lemma_run64_cache_grows(raw, dll, slots, base, named, st, log);
}

} // verus!
