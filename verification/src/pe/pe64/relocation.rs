//! Base relocations of a PE32+ image.
use vstd::prelude::*;

use crate::pe::loader::{is_write_qword, lemma_prefix_trans, PeLoader};
use crate::pe::pe32::{spec_vaddr_to_off, vaddr_to_off_ok, ImageSectionHeader};
use crate::pe::readers::{le_u16, le_u32, le_u64, read_u16_le, read_u32_le, read_u64_le};
use super::{PE64, IMAGE_DIRECTORY_ENTRY_BASERELOC};

verus! {

/// Relocation entry type of a 64-bit absolute address.
pub const IMAGE_REL_BASED_DIR64: u16 = 10;

/// One 64-bit slot of guest memory to overwrite.
#[derive(Clone, Copy, Debug, PartialEq, Eq)]
pub struct QwordPatch {
    pub addr: u64,
    pub value: u64,
}

/// The relocated value of the qword that entry `entry_off` of a block for
/// page `page_va` targets, when it is a DIR64 entry whose target has file bytes.
pub open spec fn spec_entry_patch(
    sects: Seq<ImageSectionHeader>,
    raw: Seq<u8>,
    page_va: u32,
    entry_off: int,
    base_addr: u64,
    delta: u64,
) -> Seq<QwordPatch> {
    let entry = le_u16(raw, entry_off);
    if entry >> 12u16 == IMAGE_REL_BASED_DIR64 {
        let target_rva = (page_va + (entry & 0x0FFFu16) as u32) as u32;
        let target_off = spec_vaddr_to_off(sects, target_rva) as int;
        if target_off > 0 && target_off + 8 <= raw.len() {
            seq![
                QwordPatch {
                    addr: (base_addr + target_rva) as u64,
                    value: vstd::wrapping::u64_specs::wrapping_add(le_u64(raw, target_off), delta),
                },
            ]
        } else {
            Seq::empty()
        }
    } else {
        Seq::empty()
    }
}

/// Handling entry `entry_off` does no arithmetic that overflows.
pub open spec fn entry_ok(
    sects: Seq<ImageSectionHeader>,
    raw: Seq<u8>,
    page_va: u32,
    entry_off: int,
    base_addr: u64,
) -> bool {
    let entry = le_u16(raw, entry_off);
    entry >> 12u16 == IMAGE_REL_BASED_DIR64 ==> {
        let target_rva = page_va + (entry & 0x0FFFu16) as u32;
        &&& target_rva <= u32::MAX
        &&& vaddr_to_off_ok(sects, target_rva as u32)
        &&& base_addr + target_rva <= u64::MAX
    }
}

/// The patches of the entries `j..count` of the block at `block_off`; the walk
/// stops at the first entry that does not fit in the file.
pub open spec fn spec_block_patches(
    sects: Seq<ImageSectionHeader>,
    raw: Seq<u8>,
    page_va: u32,
    block_off: int,
    j: int,
    count: int,
    base_addr: u64,
    delta: u64,
) -> Seq<QwordPatch>
    decreases count - j,
{
    if j < 0 || j >= count || block_off + 8 + 2 * j + 2 > raw.len() {
        Seq::empty()
    } else {
        spec_entry_patch(sects, raw, page_va, block_off + 8 + 2 * j, base_addr, delta)
            + spec_block_patches(sects, raw, page_va, block_off, j + 1, count, base_addr, delta)
    }
}

/// Every entry the walk of [`spec_block_patches`] handles is [`entry_ok`].
pub open spec fn block_ok(
    sects: Seq<ImageSectionHeader>,
    raw: Seq<u8>,
    page_va: u32,
    block_off: int,
    j: int,
    count: int,
    base_addr: u64,
) -> bool
    decreases count - j,
{
    if j < 0 || j >= count || block_off + 8 + 2 * j + 2 > raw.len() {
        true
    } else {
        entry_ok(sects, raw, page_va, block_off + 8 + 2 * j, base_addr) && block_ok(
            sects,
            raw,
            page_va,
            block_off,
            j + 1,
            count,
            base_addr,
        )
    }
}

/// A relocation block at `off` is handled: it lies before `end_off`, its
/// 8-byte head fits in the file, it is not the all-zero terminator and its
/// size covers at least its head.
pub open spec fn block_taken(raw: Seq<u8>, off: int, end_off: int) -> bool {
    &&& off < end_off
    &&& off + 8 <= raw.len()
    &&& !(le_u32(raw, off) == 0 && le_u32(raw, off + 4) == 0)
    &&& le_u32(raw, off + 4) >= 8
}

/// Number of 16-bit entries a block of `block_sz` bytes declares.
pub open spec fn block_entries(block_sz: u32) -> int {
    ((block_sz - 8) / 2) as int
}

/// The patches of the relocation blocks from `off` up to `end_off`.
pub open spec fn spec_reloc_patches(
    sects: Seq<ImageSectionHeader>,
    raw: Seq<u8>,
    off: int,
    end_off: int,
    base_addr: u64,
    delta: u64,
) -> Seq<QwordPatch>
    decreases (if off < end_off { end_off - off } else { 0 }),
{
    if !block_taken(raw, off, end_off) {
        Seq::empty()
    } else {
        let block_sz = le_u32(raw, off + 4);
        spec_block_patches(
            sects,
            raw,
            le_u32(raw, off),
            off,
            0,
            block_entries(block_sz),
            base_addr,
            delta,
        ) + spec_reloc_patches(sects, raw, off + block_sz, end_off, base_addr, delta)
    }
}

/// Every block the walk of [`spec_reloc_patches`] handles is [`block_ok`].
pub open spec fn reloc_ok(
    sects: Seq<ImageSectionHeader>,
    raw: Seq<u8>,
    off: int,
    end_off: int,
    base_addr: u64,
) -> bool
    decreases (if off < end_off { end_off - off } else { 0 }),
{
    if !block_taken(raw, off, end_off) {
        true
    } else {
        let block_sz = le_u32(raw, off + 4);
        block_ok(sects, raw, le_u32(raw, off), off, 0, block_entries(block_sz), base_addr)
            && reloc_ok(sects, raw, off + block_sz, end_off, base_addr)
    }
}

impl PE64 {
    /// The load delta for an image mapped at `base_addr`.
    pub open spec fn spec_delta(&self, base_addr: u64) -> u64 {
        vstd::wrapping::u64_specs::wrapping_sub(base_addr, self.opt.image_base)
    }

    /// File offset of the base-relocation table, or zero when relocation has
    /// nothing to do (no directory slot, an empty directory, a zero delta, or a
    /// table that does not map into the file).
    pub open spec fn spec_reloc_start(&self, base_addr: u64) -> int {
        let dirs = self.opt.data_directory@;
        if dirs.len() <= IMAGE_DIRECTORY_ENTRY_BASERELOC {
            0
        } else {
            let dir = dirs[IMAGE_DIRECTORY_ENTRY_BASERELOC as int];
            if dir.virtual_address == 0 || dir.size == 0 || self.spec_delta(base_addr) == 0 {
                0
            } else {
                spec_vaddr_to_off(self.sect_hdr@, dir.virtual_address) as int
            }
        }
    }

    /// The qword patches that relocating to `base_addr` writes, in order: for
    /// each DIR64 entry of each block, the target slot's file value plus the
    /// delta, written at `base_addr` plus the target's RVA.
    pub open spec fn spec_relocation_patches(&self, raw: Seq<u8>, base_addr: u64) -> Seq<QwordPatch> {
        let start = self.spec_reloc_start(base_addr);
        if start == 0 {
            Seq::empty()
        } else {
            let dir = self.opt.data_directory@[IMAGE_DIRECTORY_ENTRY_BASERELOC as int];
            spec_reloc_patches(
                self.sect_hdr@,
                raw,
                start,
                start + dir.size,
                base_addr,
                self.spec_delta(base_addr),
            )
        }
    }

    /// The inputs on which relocation runs to completion: no arithmetic it
    /// does overflows.
    pub open spec fn relocations_ok(&self, raw: Seq<u8>, base_addr: u64) -> bool {
        let dirs = self.opt.data_directory@;
        dirs.len() > IMAGE_DIRECTORY_ENTRY_BASERELOC ==> {
            let dir = dirs[IMAGE_DIRECTORY_ENTRY_BASERELOC as int];
            let start = self.spec_reloc_start(base_addr);
            &&& (dir.virtual_address != 0 && dir.size != 0 && self.spec_delta(base_addr) != 0)
                ==> vaddr_to_off_ok(self.sect_hdr@, dir.virtual_address)
            &&& start != 0 ==> reloc_ok(self.sect_hdr@, raw, start, start + dir.size, base_addr)
        }
    }
}

impl PE64 {
    /// Appends the patches of the entries of the block at `block_off`.
    fn block_patches(
        &self,
        raw: &[u8],
        page_va: u32,
        block_off: u64,
        count: u32,
        base_addr: u64,
        delta: u64,
        out: &mut Vec<QwordPatch>,
    )
        requires
            raw@.len() <= isize::MAX,
            block_off + 8 <= raw@.len(),
            block_ok(self.sect_hdr@, raw@, page_va, block_off as int, 0, count as int, base_addr),
        ensures
            final(out)@ == old(out)@ + spec_block_patches(
                self.sect_hdr@,
                raw@,
                page_va,
                block_off as int,
                0,
                count as int,
                base_addr,
                delta,
            ),
    {
        let ghost init = out@;
        let ghost total = spec_block_patches(
            self.sect_hdr@,
            raw@,
            page_va,
            block_off as int,
            0,
            count as int,
            base_addr,
            delta,
        );
        let mut entry_off: u64 = block_off + 8;
        let mut j: u32 = 0;
        loop
            invariant_except_break
                j <= count,
                entry_off == block_off + 8 + 2 * j,
                block_ok(self.sect_hdr@, raw@, page_va, block_off as int, j as int, count as int, base_addr),
                init + total == out@ + spec_block_patches(
                    self.sect_hdr@,
                    raw@,
                    page_va,
                    block_off as int,
                    j as int,
                    count as int,
                    base_addr,
                    delta,
                ),
            invariant
                raw@.len() <= isize::MAX,
                block_off + 8 <= raw@.len(),
            ensures
                out@ == init + total,
            decreases count - j,
        {
            if j >= count {
                assert(out@ =~= init + total);
                break;
            }
            if entry_off + 2 > raw.len() as u64 {
                assert(out@ =~= init + total);
                break;
            }
            let ghost before = out@;
            let entry = read_u16_le(raw, entry_off);
            let reloc_type = entry >> 12u16;
            let reloc_offset = entry & 0x0FFFu16;
            if reloc_type == IMAGE_REL_BASED_DIR64 {
                let target_rva = page_va + reloc_offset as u32;
                let target_off = PE64::vaddr_to_off(&self.sect_hdr, target_rva) as u64;
                if target_off > 0 && target_off + 8 <= raw.len() as u64 {
                    let original_val = read_u64_le(raw, target_off);
                    let new_val = original_val.wrapping_add(delta);
                    let patch_addr = base_addr + target_rva as u64;
                    out.push(QwordPatch { addr: patch_addr, value: new_val });
                }
            }
            assert(out@ =~= before + spec_entry_patch(
                self.sect_hdr@,
                raw@,
                page_va,
                entry_off as int,
                base_addr,
                delta,
            ));
            assert(before + spec_block_patches(
                self.sect_hdr@,
                raw@,
                page_va,
                block_off as int,
                j as int,
                count as int,
                base_addr,
                delta,
            ) =~= out@ + spec_block_patches(
                self.sect_hdr@,
                raw@,
                page_va,
                block_off as int,
                j + 1,
                count as int,
                base_addr,
                delta,
            ));
            entry_off = entry_off + 2;
            j = j + 1;
        }
    }

    /// The qword patches that relocating the image to `base_addr` writes, in
    /// the order they are written.
    pub fn relocation_patches(&self, raw: &[u8], base_addr: u64) -> (patches: Vec<QwordPatch>)
        requires
            raw@.len() <= isize::MAX,
            self.relocations_ok(raw@, base_addr),
        ensures
            patches@ == self.spec_relocation_patches(raw@, base_addr),
    {
        let mut patches: Vec<QwordPatch> = Vec::new();
        if self.opt.data_directory.len() <= IMAGE_DIRECTORY_ENTRY_BASERELOC {
            return patches;
        }
        let reloc_dir = &self.opt.data_directory[IMAGE_DIRECTORY_ENTRY_BASERELOC];
        let reloc_va = reloc_dir.virtual_address;
        let reloc_sz = reloc_dir.size;

        if reloc_va == 0 || reloc_sz == 0 {
            return patches;
        }

        let delta = base_addr.wrapping_sub(self.opt.image_base);
        if delta == 0 {
            return patches;
        }

        let start = PE64::vaddr_to_off(&self.sect_hdr, reloc_va) as u64;
        if start == 0 {
            return patches;
        }
        let mut off = start;
        let end_off = start + reloc_sz as u64;
        let ghost total = spec_reloc_patches(
            self.sect_hdr@,
            raw@,
            start as int,
            end_off as int,
            base_addr,
            delta,
        );
        assert(total == self.spec_relocation_patches(raw@, base_addr));

        loop
            invariant_except_break
                off <= end_off + u32::MAX,
                reloc_ok(self.sect_hdr@, raw@, off as int, end_off as int, base_addr),
                total == patches@ + spec_reloc_patches(
                    self.sect_hdr@,
                    raw@,
                    off as int,
                    end_off as int,
                    base_addr,
                    delta,
                ),
            invariant
                raw@.len() <= isize::MAX,
                end_off <= 2 * (u32::MAX as int),
            ensures
                patches@ == total,
            decreases (if off < end_off { end_off - off } else { 0 }),
        {
            if !(off < end_off && off + 8 <= raw.len() as u64) {
                assert(patches@ =~= total);
                break;
            }
            let page_va = read_u32_le(raw, off);
            let block_sz = read_u32_le(raw, off + 4);

            if page_va == 0 && block_sz == 0 {
                assert(patches@ =~= total);
                break;
            }
            if block_sz < 8 {
                assert(patches@ =~= total);
                break;
            }

            let entries_count = (block_sz - 8) / 2;
            let ghost before = patches@;
            self.block_patches(raw, page_va, off, entries_count, base_addr, delta, &mut patches);
            assert(before + spec_reloc_patches(
                self.sect_hdr@,
                raw@,
                off as int,
                end_off as int,
                base_addr,
                delta,
            ) =~= patches@ + spec_reloc_patches(
                self.sect_hdr@,
                raw@,
                off + block_sz,
                end_off as int,
                base_addr,
                delta,
            ));
            off = off + block_sz as u64;
        }
        patches
    }

    /// Applies the DIR64 base relocations for an image mapped at `base_addr`:
    /// each patch of [`PE64::relocation_patches`] is written through `loader`
    /// with `write_qword`, in order, and no other loader call is made.
    /// `raw` is the file image the sections were mapped from.
    pub fn apply_relocations<L: PeLoader>(&self, raw: &[u8], loader: &mut L, base_addr: u64)
        requires
            raw@.len() <= isize::MAX,
            self.relocations_ok(raw@, base_addr),
        ensures
            old(loader).calls().is_prefix_of(final(loader).calls()),
            final(loader).calls().len() == old(loader).calls().len() + self.spec_relocation_patches(
                raw@,
                base_addr,
            ).len(),
            forall|i: int|
                0 <= i < self.spec_relocation_patches(raw@, base_addr).len() ==> is_write_qword(
                    #[trigger] final(loader).calls()[old(loader).calls().len() + i],
                    self.spec_relocation_patches(raw@, base_addr)[i].addr,
                    self.spec_relocation_patches(raw@, base_addr)[i].value,
                ),
    {
        let patches = self.relocation_patches(raw, base_addr);
        let ghost n0 = loader.calls().len();
        proof {
            assert(old(loader).calls().is_prefix_of(loader.calls())) by {
                assert(loader.calls().subrange(0, loader.calls().len() as int) =~= loader.calls());
            }
        }
        let mut i: usize = 0;
        while i < patches.len()
            invariant
                i <= patches@.len(),
                n0 == old(loader).calls().len(),
                old(loader).calls().is_prefix_of(loader.calls()),
                loader.calls().len() == n0 + i,
                forall|t: int|
                    0 <= t < i ==> is_write_qword(
                        #[trigger] loader.calls()[n0 + t],
                        patches@[t].addr,
                        patches@[t].value,
                    ),
            decreases patches@.len() - i,
        {
            let ghost prev = loader.calls();
            loader.write_qword(patches[i].addr, patches[i].value);
            proof {
                assert(prev.is_prefix_of(loader.calls())) by {
                    assert(loader.calls().subrange(0, prev.len() as int) =~= prev);
                }
                lemma_prefix_trans(old(loader).calls(), prev, loader.calls());
                assert forall|t: int| 0 <= t < i + 1 implies is_write_qword(
                    #[trigger] loader.calls()[n0 + t],
                    patches@[t].addr,
                    patches@[t].value,
                ) by {
                    if t < i {
                        assert(loader.calls()[n0 + t] == prev[n0 + t]);
                    }
                }
            }
            i = i + 1;
        }
    }
}

impl PE64 {
    /// True when the entries `0..count` of the block at `block_off` can be
    /// handled without overflow ([`block_ok`]).
    fn block_fits(&self, raw: &[u8], page_va: u32, block_off: u64, count: u32, base_addr: u64) -> (b: bool)
        requires
            raw@.len() <= isize::MAX,
            block_off + 8 <= raw@.len(),
        ensures
            b == block_ok(self.sect_hdr@, raw@, page_va, block_off as int, 0, count as int, base_addr),
    {
        let ghost start = block_ok(self.sect_hdr@, raw@, page_va, block_off as int, 0, count as int, base_addr);
        let mut j: u32 = 0;
        let mut entry_off: u64 = block_off + 8;
        loop
            invariant
                raw@.len() <= isize::MAX,
                block_off + 8 <= raw@.len(),
                j <= count,
                entry_off == block_off + 8 + 2 * j,
                start == block_ok(self.sect_hdr@, raw@, page_va, block_off as int, 0, count as int, base_addr),
                start == block_ok(self.sect_hdr@, raw@, page_va, block_off as int, j as int, count as int, base_addr),
            decreases count - j,
        {
            if j >= count || entry_off + 2 > raw.len() as u64 {
                return true;
            }
            let entry = read_u16_le(raw, entry_off);
            if entry >> 12u16 == IMAGE_REL_BASED_DIR64 {
                let target_rva: u64 = page_va as u64 + (entry & 0x0FFFu16) as u64;
                if target_rva > 0xffff_ffff {
                    return false;
                }
                if !PE64::vaddr_to_off_fits(&self.sect_hdr, target_rva as u32) {
                    return false;
                }
                if target_rva > u64::MAX - base_addr {
                    return false;
                }
            }
            j = j + 1;
            entry_off = entry_off + 2;
        }
    }

    /// True when relocating to `base_addr` can be done without overflow: the
    /// precondition [`PE64::relocations_ok`] of [`PE64::relocation_patches`]
    /// and [`PE64::apply_relocations`], checked.
    pub fn relocations_fit(&self, raw: &[u8], base_addr: u64) -> (b: bool)
        requires
            raw@.len() <= isize::MAX,
        ensures
            b == self.relocations_ok(raw@, base_addr),
    {
        if self.opt.data_directory.len() <= IMAGE_DIRECTORY_ENTRY_BASERELOC {
            return true;
        }
        let reloc_dir = &self.opt.data_directory[IMAGE_DIRECTORY_ENTRY_BASERELOC];
        let reloc_va = reloc_dir.virtual_address;
        let reloc_sz = reloc_dir.size;
        let delta = base_addr.wrapping_sub(self.opt.image_base);
        if reloc_va == 0 || reloc_sz == 0 || delta == 0 {
            return true;
        }
        if !PE64::vaddr_to_off_fits(&self.sect_hdr, reloc_va) {
            return false;
        }
        let start = PE64::vaddr_to_off(&self.sect_hdr, reloc_va) as u64;
        if start == 0 {
            return true;
        }
        let end_off = start + reloc_sz as u64;
        let ghost whole = reloc_ok(self.sect_hdr@, raw@, start as int, end_off as int, base_addr);
        assert(whole == self.relocations_ok(raw@, base_addr));
        let mut off = start;
        loop
            invariant
                raw@.len() <= isize::MAX,
                end_off <= 2 * (u32::MAX as int),
                off <= end_off + u32::MAX,
                whole == self.relocations_ok(raw@, base_addr),
                whole == reloc_ok(self.sect_hdr@, raw@, off as int, end_off as int, base_addr),
            decreases (if off < end_off { end_off - off } else { 0 }),
        {
            if !(off < end_off && off + 8 <= raw.len() as u64) {
                return true;
            }
            let page_va = read_u32_le(raw, off);
            let block_sz = read_u32_le(raw, off + 4);
            if page_va == 0 && block_sz == 0 {
                return true;
            }
            if block_sz < 8 {
                return true;
            }
            if !self.block_fits(raw, page_va, off, (block_sz - 8) / 2, base_addr) {
                return false;
            }
            off = off + block_sz as u64;
        }
    }
}

/// Law: relocating an image to its preferred base (`image_base`) patches
/// nothing.
pub proof fn lemma_preferred_base_needs_no_patches(pe: &PE64, raw: Seq<u8>)
    ensures
        pe.spec_relocation_patches(raw, pe.opt.image_base) == Seq::<QwordPatch>::empty(),
{
}

/// Every patch of `patches` lands in the 4 GiB window an image mapped at
/// `base_addr` spans.
pub open spec fn patches_in_window(patches: Seq<QwordPatch>, base_addr: u64) -> bool {
    forall|i: int|
        0 <= i < patches.len() ==> base_addr <= (#[trigger] patches[i]).addr <= base_addr + u32::MAX
}

proof fn lemma_block_patches_in_window(
    sects: Seq<ImageSectionHeader>,
    raw: Seq<u8>,
    page_va: u32,
    block_off: int,
    j: int,
    count: int,
    base_addr: u64,
    delta: u64,
)
    requires
        block_ok(sects, raw, page_va, block_off, j, count, base_addr),
    ensures
        patches_in_window(
            spec_block_patches(sects, raw, page_va, block_off, j, count, base_addr, delta),
            base_addr,
        ),
    decreases count - j,
{
    if !(j < 0 || j >= count || block_off + 8 + 2 * j + 2 > raw.len()) {
        lemma_block_patches_in_window(sects, raw, page_va, block_off, j + 1, count, base_addr, delta);
        let head = spec_entry_patch(sects, raw, page_va, block_off + 8 + 2 * j, base_addr, delta);
        let rest = spec_block_patches(sects, raw, page_va, block_off, j + 1, count, base_addr, delta);
        assert(patches_in_window(head, base_addr));
        assert(patches_in_window(head + rest, base_addr)) by {
            assert forall|i: int| 0 <= i < (head + rest).len() implies base_addr <= (#[trigger] (head
                + rest)[i]).addr <= base_addr + u32::MAX by {
                if i < head.len() {
                    assert((head + rest)[i] == head[i]);
                } else {
                    assert((head + rest)[i] == rest[i - head.len()]);
                }
            }
        }
    }
}

proof fn lemma_reloc_patches_in_window(
    sects: Seq<ImageSectionHeader>,
    raw: Seq<u8>,
    off: int,
    end_off: int,
    base_addr: u64,
    delta: u64,
)
    requires
        reloc_ok(sects, raw, off, end_off, base_addr),
    ensures
        patches_in_window(spec_reloc_patches(sects, raw, off, end_off, base_addr, delta), base_addr),
    decreases (if off < end_off { end_off - off } else { 0 }),
{
    if block_taken(raw, off, end_off) {
        let block_sz = le_u32(raw, off + 4);
        lemma_block_patches_in_window(
            sects,
            raw,
            le_u32(raw, off),
            off,
            0,
            block_entries(block_sz),
            base_addr,
            delta,
        );
        lemma_reloc_patches_in_window(sects, raw, off + block_sz, end_off, base_addr, delta);
        let head = spec_block_patches(
            sects,
            raw,
            le_u32(raw, off),
            off,
            0,
            block_entries(block_sz),
            base_addr,
            delta,
        );
        let rest = spec_reloc_patches(sects, raw, off + block_sz, end_off, base_addr, delta);
        assert(patches_in_window(head + rest, base_addr)) by {
            assert forall|i: int| 0 <= i < (head + rest).len() implies base_addr <= (#[trigger] (head
                + rest)[i]).addr <= base_addr + u32::MAX by {
                if i < head.len() {
                    assert((head + rest)[i] == head[i]);
                } else {
                    assert((head + rest)[i] == rest[i - head.len()]);
                }
            }
        }
    }
}

/// Law: relocating an image mapped at `base_addr` writes only inside the
/// 4 GiB window that starts at `base_addr` (each patch lands at `base_addr`
/// plus a 32-bit RVA).
pub proof fn lemma_relocation_patches_in_window(pe: &PE64, raw: Seq<u8>, base_addr: u64)
    requires
        pe.relocations_ok(raw, base_addr),
    ensures
        patches_in_window(pe.spec_relocation_patches(raw, base_addr), base_addr),
{
    let start = pe.spec_reloc_start(base_addr);
    if start != 0 {
        let dir = pe.opt.data_directory@[IMAGE_DIRECTORY_ENTRY_BASERELOC as int];
        lemma_reloc_patches_in_window(
            pe.sect_hdr@,
            raw,
            start,
            start + dir.size,
            base_addr,
            pe.spec_delta(base_addr),
        );
    }
}


/// The target of entry `entry_off` of a block for page `page_va`: its RVA and
/// the file value of the qword there, when it is a DIR64 entry whose target
/// has file bytes. It does not depend on where the image is mapped.
pub open spec fn spec_entry_target(
    sects: Seq<ImageSectionHeader>,
    raw: Seq<u8>,
    page_va: u32,
    entry_off: int,
) -> Seq<(u32, u64)> {
    let entry = le_u16(raw, entry_off);
    if entry >> 12u16 == IMAGE_REL_BASED_DIR64 {
        let target_rva = (page_va + (entry & 0x0FFFu16) as u32) as u32;
        let target_off = spec_vaddr_to_off(sects, target_rva) as int;
        if target_off > 0 && target_off + 8 <= raw.len() {
            seq![(target_rva, le_u64(raw, target_off))]
        } else {
            Seq::empty()
        }
    } else {
        Seq::empty()
    }
}

/// The targets of the entries `j..count` of the block at `block_off`.
pub open spec fn spec_block_targets(
    sects: Seq<ImageSectionHeader>,
    raw: Seq<u8>,
    page_va: u32,
    block_off: int,
    j: int,
    count: int,
) -> Seq<(u32, u64)>
    decreases count - j,
{
    if j < 0 || j >= count || block_off + 8 + 2 * j + 2 > raw.len() {
        Seq::empty()
    } else {
        spec_entry_target(sects, raw, page_va, block_off + 8 + 2 * j) + spec_block_targets(
            sects,
            raw,
            page_va,
            block_off,
            j + 1,
            count,
        )
    }
}

/// The targets of the relocation blocks from `off` up to `end_off`.
pub open spec fn spec_reloc_targets(sects: Seq<ImageSectionHeader>, raw: Seq<u8>, off: int, end_off: int) -> Seq<
    (u32, u64),
>
    decreases (if off < end_off { end_off - off } else { 0 }),
{
    if !block_taken(raw, off, end_off) {
        Seq::empty()
    } else {
        let block_sz = le_u32(raw, off + 4);
        spec_block_targets(sects, raw, le_u32(raw, off), off, 0, block_entries(block_sz))
            + spec_reloc_targets(sects, raw, off + block_sz, end_off)
    }
}

/// The patches for `targets` in an image mapped at `base_addr` with load
/// delta `delta`.
pub open spec fn patches_at(targets: Seq<(u32, u64)>, base_addr: u64, delta: u64) -> Seq<QwordPatch> {
    Seq::new(
        targets.len(),
        |i: int|
            QwordPatch {
                addr: (base_addr + targets[i].0) as u64,
                value: vstd::wrapping::u64_specs::wrapping_add(targets[i].1, delta),
            },
    )
}

/// Every target lies at an address that `base_addr` plus its RVA reaches
/// without overflow.
pub open spec fn targets_fit(targets: Seq<(u32, u64)>, base_addr: u64) -> bool {
    forall|i: int| 0 <= i < targets.len() ==> base_addr + (#[trigger] targets[i]).0 <= u64::MAX
}

proof fn lemma_patches_at_concat(a: Seq<(u32, u64)>, b: Seq<(u32, u64)>, base_addr: u64, delta: u64)
    ensures
        patches_at(a + b, base_addr, delta) == patches_at(a, base_addr, delta) + patches_at(b, base_addr, delta),
        targets_fit(a, base_addr) && targets_fit(b, base_addr) ==> targets_fit(a + b, base_addr),
{
    assert(patches_at(a + b, base_addr, delta) =~= patches_at(a, base_addr, delta) + patches_at(b, base_addr, delta));
    if targets_fit(a, base_addr) && targets_fit(b, base_addr) {
        assert forall|i: int| 0 <= i < (a + b).len() implies base_addr + (#[trigger] (a + b)[i]).0 <= u64::MAX by {
            if i < a.len() {
                assert((a + b)[i] == a[i]);
            } else {
                assert((a + b)[i] == b[i - a.len()]);
            }
        }
    }
}

proof fn lemma_block_targets(
    sects: Seq<ImageSectionHeader>,
    raw: Seq<u8>,
    page_va: u32,
    block_off: int,
    j: int,
    count: int,
    base_addr: u64,
    delta: u64,
)
    requires
        block_ok(sects, raw, page_va, block_off, j, count, base_addr),
    ensures
        spec_block_patches(sects, raw, page_va, block_off, j, count, base_addr, delta) == patches_at(
            spec_block_targets(sects, raw, page_va, block_off, j, count),
            base_addr,
            delta,
        ),
        targets_fit(spec_block_targets(sects, raw, page_va, block_off, j, count), base_addr),
    decreases count - j,
{
    if j < 0 || j >= count || block_off + 8 + 2 * j + 2 > raw.len() {
        assert(patches_at(Seq::empty(), base_addr, delta) =~= Seq::<QwordPatch>::empty());
    } else {
        lemma_block_targets(sects, raw, page_va, block_off, j + 1, count, base_addr, delta);
        let e = block_off + 8 + 2 * j;
        let head = spec_entry_target(sects, raw, page_va, e);
        let rest = spec_block_targets(sects, raw, page_va, block_off, j + 1, count);
        assert(spec_entry_patch(sects, raw, page_va, e, base_addr, delta) =~= patches_at(head, base_addr, delta));
        lemma_patches_at_concat(head, rest, base_addr, delta);
    }
}

proof fn lemma_reloc_targets(
    sects: Seq<ImageSectionHeader>,
    raw: Seq<u8>,
    off: int,
    end_off: int,
    base_addr: u64,
    delta: u64,
)
    requires
        reloc_ok(sects, raw, off, end_off, base_addr),
    ensures
        spec_reloc_patches(sects, raw, off, end_off, base_addr, delta) == patches_at(
            spec_reloc_targets(sects, raw, off, end_off),
            base_addr,
            delta,
        ),
        targets_fit(spec_reloc_targets(sects, raw, off, end_off), base_addr),
    decreases (if off < end_off { end_off - off } else { 0 }),
{
    if !block_taken(raw, off, end_off) {
        assert(patches_at(Seq::empty(), base_addr, delta) =~= Seq::<QwordPatch>::empty());
    } else {
        let block_sz = le_u32(raw, off + 4);
        let page_va = le_u32(raw, off);
        lemma_block_targets(sects, raw, page_va, off, 0, block_entries(block_sz), base_addr, delta);
        lemma_reloc_targets(sects, raw, off + block_sz, end_off, base_addr, delta);
        lemma_patches_at_concat(
            spec_block_targets(sects, raw, page_va, off, 0, block_entries(block_sz)),
            spec_reloc_targets(sects, raw, off + block_sz, end_off),
            base_addr,
            delta,
        );
    }
}

impl PE64 {
    /// The relocation targets of the image in `raw`: for each DIR64 entry of
    /// each block, the target's RVA and the file value of the qword there.
    /// Empty without a base-relocation table that maps into the file.
    pub open spec fn spec_relocation_targets(&self, raw: Seq<u8>) -> Seq<(u32, u64)> {
        let dirs = self.opt.data_directory@;
        if dirs.len() <= IMAGE_DIRECTORY_ENTRY_BASERELOC {
            Seq::empty()
        } else {
            let dir = dirs[IMAGE_DIRECTORY_ENTRY_BASERELOC as int];
            let start = spec_vaddr_to_off(self.sect_hdr@, dir.virtual_address) as int;
            if dir.virtual_address == 0 || dir.size == 0 || start == 0 {
                Seq::empty()
            } else {
                spec_reloc_targets(self.sect_hdr@, raw, start, start + dir.size)
            }
        }
    }
}

proof fn lemma_wrapping_delta(v: u64, b1: u64, b2: u64, ib: u64)
    ensures
        vstd::wrapping::u64_specs::wrapping_sub(
            vstd::wrapping::u64_specs::wrapping_add(v, vstd::wrapping::u64_specs::wrapping_sub(b2, ib)),
            vstd::wrapping::u64_specs::wrapping_add(v, vstd::wrapping::u64_specs::wrapping_sub(b1, ib)),
        ) == vstd::wrapping::u64_specs::wrapping_sub(b2, b1),
{
}

/// Law (relocating at two bases): relocating the same image at two bases
/// other than its preferred one writes the same number of patches; the
/// `i`-th patches lie the same distance apart as the bases, and their values
/// differ (modulo 2^64) by the difference of the bases. The patches are those
/// `apply_relocations` writes.
pub proof fn lemma_relocation_at_two_bases(pe: &PE64, raw: Seq<u8>, b1: u64, b2: u64)
    requires
        b1 != pe.opt.image_base,
        b2 != pe.opt.image_base,
        pe.relocations_ok(raw, b1),
        pe.relocations_ok(raw, b2),
    ensures
        pe.spec_relocation_patches(raw, b1).len() == pe.spec_relocation_patches(raw, b2).len(),
        forall|i: int|
            0 <= i < pe.spec_relocation_patches(raw, b1).len() ==> {
                &&& (#[trigger] pe.spec_relocation_patches(raw, b2)[i]).addr - pe.spec_relocation_patches(
                    raw,
                    b1,
                )[i].addr == b2 - b1
                &&& vstd::wrapping::u64_specs::wrapping_sub(
                    pe.spec_relocation_patches(raw, b2)[i].value,
                    pe.spec_relocation_patches(raw, b1)[i].value,
                ) == vstd::wrapping::u64_specs::wrapping_sub(b2, b1)
            },
{
    let t = pe.spec_relocation_targets(raw);
    let d1 = pe.spec_delta(b1);
    let d2 = pe.spec_delta(b2);
    assert(d1 != 0 && d2 != 0);
    let dirs = pe.opt.data_directory@;
    if dirs.len() > IMAGE_DIRECTORY_ENTRY_BASERELOC {
        let dir = dirs[IMAGE_DIRECTORY_ENTRY_BASERELOC as int];
        let start = spec_vaddr_to_off(pe.sect_hdr@, dir.virtual_address) as int;
        if !(dir.virtual_address == 0 || dir.size == 0 || start == 0) {
            lemma_reloc_targets(pe.sect_hdr@, raw, start, start + dir.size, b1, d1);
            lemma_reloc_targets(pe.sect_hdr@, raw, start, start + dir.size, b2, d2);
        } else {
            assert(patches_at(t, b1, d1) =~= Seq::<QwordPatch>::empty());
            assert(patches_at(t, b2, d2) =~= Seq::<QwordPatch>::empty());
        }
    } else {
        assert(patches_at(t, b1, d1) =~= Seq::<QwordPatch>::empty());
        assert(patches_at(t, b2, d2) =~= Seq::<QwordPatch>::empty());
    }
    assert(pe.spec_relocation_patches(raw, b1) == patches_at(t, b1, d1));
    assert(pe.spec_relocation_patches(raw, b2) == patches_at(t, b2, d2));
    assert forall|i: int| 0 <= i < t.len() implies vstd::wrapping::u64_specs::wrapping_sub(
        patches_at(t, b2, d2)[i].value,
        patches_at(t, b1, d1)[i].value,
    ) == vstd::wrapping::u64_specs::wrapping_sub(b2, b1) by {
        lemma_wrapping_delta(t[i].1, b1, b2, pe.opt.image_base);
    }
}


/// The RVA that relocation entry `entry` of a block for page `page_va` targets.
pub open spec fn entry_target_rva(page_va: u32, entry: u16) -> u32 {
    (page_va + (entry & 0x0FFFu16) as u32) as u32
}

/// The 16-bit relocation entry at `entry_off` is of type DIR64 and its
/// target's qword lies in the file.
pub open spec fn dir64_entry_in_file(sects: Seq<ImageSectionHeader>, raw: Seq<u8>, page_va: u32, entry_off: int) -> bool {
    let e = le_u16(raw, entry_off);
    let o = spec_vaddr_to_off(sects, entry_target_rva(page_va, e)) as int;
    &&& e >> 12u16 == 10u16
    &&& o > 0
    &&& o + 8 <= raw.len()
}

/// The patch relocation must make for the DIR64 entry at `entry_off`: at
/// `base_addr` plus the target RVA, the file qword there plus `delta`.
pub open spec fn dir64_patch(
    sects: Seq<ImageSectionHeader>,
    raw: Seq<u8>,
    page_va: u32,
    entry_off: int,
    base_addr: u64,
    delta: u64,
) -> QwordPatch {
    let rva = entry_target_rva(page_va, le_u16(raw, entry_off));
    QwordPatch {
        addr: (base_addr + rva) as u64,
        value: vstd::wrapping::u64_specs::wrapping_add(
            le_u64(raw, spec_vaddr_to_off(sects, rva) as int),
            delta,
        ),
    }
}

proof fn lemma_block_patches_from(
    sects: Seq<ImageSectionHeader>,
    raw: Seq<u8>,
    page_va: u32,
    block_off: int,
    j: int,
    count: int,
    base_addr: u64,
    delta: u64,
)
    requires
        0 <= j <= count,
        block_off + 8 + 2 * count <= raw.len(),
        forall|t: int| j <= t < count ==> dir64_entry_in_file(sects, raw, page_va, #[trigger] (block_off + 8 + 2 * t)),
    ensures
        spec_block_patches(sects, raw, page_va, block_off, j, count, base_addr, delta).len() == count - j,
        forall|t: int|
            0 <= t < count - j ==> #[trigger] spec_block_patches(
                sects,
                raw,
                page_va,
                block_off,
                j,
                count,
                base_addr,
                delta,
            )[t] == dir64_patch(sects, raw, page_va, block_off + 8 + 2 * (j + t), base_addr, delta),
    decreases count - j,
{
    if j < count {
        lemma_block_patches_from(sects, raw, page_va, block_off, j + 1, count, base_addr, delta);
        let e_off = block_off + 8 + 2 * j;
        assert(dir64_entry_in_file(sects, raw, page_va, e_off));
        let head = spec_entry_patch(sects, raw, page_va, e_off, base_addr, delta);
        let rest = spec_block_patches(sects, raw, page_va, block_off, j + 1, count, base_addr, delta);
        assert(head.len() == 1 && head[0] == dir64_patch(sects, raw, page_va, e_off, base_addr, delta));
        assert forall|t: int| 0 <= t < count - j implies #[trigger] (head + rest)[t] == dir64_patch(
            sects,
            raw,
            page_va,
            block_off + 8 + 2 * (j + t),
            base_addr,
            delta,
        ) by {
            if t > 0 {
                assert((head + rest)[t] == rest[t - 1]);
                assert(block_off + 8 + 2 * ((j + 1) + (t - 1)) == block_off + 8 + 2 * (j + t));
            }
        }
    }
}

/// Law (every entry of a block is relocated): a base-relocation block of
/// size `S` at `off` (head inside the file, not the all-zero terminator,
/// `S >= 8`) declares `(S - 8) / 2` 16-bit entries; when all of them lie in
/// the file and are DIR64 entries whose targets lie in the file, the patches
/// the relocation table yields from `off` start with exactly one patch per
/// entry, in order: at `base_addr` plus the entry's target RVA, the file
/// qword there plus `delta`.
pub proof fn lemma_block_relocates_every_entry(
    sects: Seq<ImageSectionHeader>,
    raw: Seq<u8>,
    off: int,
    end_off: int,
    base_addr: u64,
    delta: u64,
)
    requires
        off < end_off,
        off + 8 <= raw.len(),
        !(le_u32(raw, off) == 0 && le_u32(raw, off + 4) == 0),
        le_u32(raw, off + 4) >= 8,
        off + 8 + 2 * ((le_u32(raw, off + 4) - 8) / 2) <= raw.len(),
        forall|t: int|
            0 <= t < (le_u32(raw, off + 4) - 8) / 2 ==> dir64_entry_in_file(
                sects,
                raw,
                le_u32(raw, off),
                #[trigger] (off + 8 + 2 * t),
            ),
    ensures
        spec_reloc_patches(sects, raw, off, end_off, base_addr, delta).len() >= (le_u32(raw, off + 4) - 8) / 2,
        forall|t: int|
            0 <= t < (le_u32(raw, off + 4) - 8) / 2 ==> #[trigger] spec_reloc_patches(
                sects,
                raw,
                off,
                end_off,
                base_addr,
                delta,
            )[t] == dir64_patch(sects, raw, le_u32(raw, off), off + 8 + 2 * t, base_addr, delta),
{
    let s = le_u32(raw, off + 4);
    let count = (s - 8) / 2;
    let page_va = le_u32(raw, off);
    lemma_block_patches_from(sects, raw, page_va, off, 0, count, base_addr, delta);
    let head = spec_block_patches(sects, raw, page_va, off, 0, count, base_addr, delta);
    let rest = spec_reloc_patches(sects, raw, off + s, end_off, base_addr, delta);
    assert(block_entries(s) == count);
    assert(spec_reloc_patches(sects, raw, off, end_off, base_addr, delta) == head + rest);
    assert forall|t: int| 0 <= t < count implies #[trigger] (head + rest)[t] == dir64_patch(
        sects,
        raw,
        page_va,
        off + 8 + 2 * t,
        base_addr,
        delta,
    ) by {
        assert((head + rest)[t] == head[t]);
    }
}

/// Law (the first block of an image's table is relocated entry by entry):
/// for an image mapped away from its preferred base whose base-relocation
/// table maps into the file at `start`, when the first block there is a
/// block whose declared `(S - 8) / 2` entries are all DIR64 entries with
/// targets in the file, the patches relocation writes start with one patch
/// per entry, as [`lemma_block_relocates_every_entry`] says.
pub proof fn lemma_first_block_relocated(pe: &PE64, raw: Seq<u8>, base_addr: u64)
    requires
        pe.spec_reloc_start(base_addr) != 0,
        ({
            let start = pe.spec_reloc_start(base_addr);
            let dir = pe.opt.data_directory@[IMAGE_DIRECTORY_ENTRY_BASERELOC as int];
            let s = le_u32(raw, start + 4);
            &&& dir.size > 0
            &&& start + 8 <= raw.len()
            &&& !(le_u32(raw, start) == 0 && s == 0)
            &&& s >= 8
            &&& start + 8 + 2 * ((s - 8) / 2) <= raw.len()
            &&& forall|t: int|
                0 <= t < (s - 8) / 2 ==> dir64_entry_in_file(
                    pe.sect_hdr@,
                    raw,
                    le_u32(raw, start),
                    #[trigger] (start + 8 + 2 * t),
                )
        }),
    ensures
        ({
            let start = pe.spec_reloc_start(base_addr);
            let s = le_u32(raw, start + 4);
            let patches = pe.spec_relocation_patches(raw, base_addr);
            &&& patches.len() >= (s - 8) / 2
            &&& forall|t: int|
                0 <= t < (s - 8) / 2 ==> #[trigger] patches[t] == dir64_patch(
                    pe.sect_hdr@,
                    raw,
                    le_u32(raw, start),
                    start + 8 + 2 * t,
                    base_addr,
                    vstd::wrapping::u64_specs::wrapping_sub(base_addr, pe.opt.image_base),
                )
        }),
{
    let start = pe.spec_reloc_start(base_addr);
    let dir = pe.opt.data_directory@[IMAGE_DIRECTORY_ENTRY_BASERELOC as int];
    lemma_block_relocates_every_entry(
        pe.sect_hdr@,
        raw,
        start,
        start + dir.size,
        base_addr,
        pe.spec_delta(base_addr),
    );
}


/// Law (only DIR64 entries are relocated): every patch the entries
/// `j..count` of a block at `block_off` yield is the patch of one of those
/// entries that lies in the file, is a DIR64 entry and targets a qword in the
/// file; entries of any other type yield nothing.
pub proof fn lemma_block_patches_sound(
    sects: Seq<ImageSectionHeader>,
    raw: Seq<u8>,
    page_va: u32,
    block_off: int,
    j: int,
    count: int,
    base_addr: u64,
    delta: u64,
    t: int,
)
    requires
        0 <= t < spec_block_patches(sects, raw, page_va, block_off, j, count, base_addr, delta).len(),
    ensures
        exists|i: int|
            #![trigger dir64_entry_in_file(sects, raw, page_va, block_off + 8 + 2 * i)]
            j <= i < count && block_off + 8 + 2 * i + 2 <= raw.len() && dir64_entry_in_file(
                sects,
                raw,
                page_va,
                block_off + 8 + 2 * i,
            ) && spec_block_patches(sects, raw, page_va, block_off, j, count, base_addr, delta)[t]
                == dir64_patch(sects, raw, page_va, block_off + 8 + 2 * i, base_addr, delta),
    decreases count - j,
{
    let e_off = block_off + 8 + 2 * j;
    let head = spec_entry_patch(sects, raw, page_va, e_off, base_addr, delta);
    let rest = spec_block_patches(sects, raw, page_va, block_off, j + 1, count, base_addr, delta);
    let all = spec_block_patches(sects, raw, page_va, block_off, j, count, base_addr, delta);
    assert(all == head + rest);
    if t < head.len() {
        assert(head.len() == 1);
        assert(all[t] == head[0]);
        assert(dir64_entry_in_file(sects, raw, page_va, e_off));
        assert(head[0] == dir64_patch(sects, raw, page_va, e_off, base_addr, delta));
    } else {
        assert(all[t] == rest[t - head.len()]);
        lemma_block_patches_sound(sects, raw, page_va, block_off, j + 1, count, base_addr, delta, t - head.len());
    }
}

} // verus!
