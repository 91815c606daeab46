//! Resource-directory lookup in a PE32+ image.
use vstd::prelude::*;

use crate::pe::readers::{le_u16, le_u32, read_u16_le, read_u32_le, units_to_string, utf16_lossy};
use crate::pe::structures;
use crate::pe::structures::{
    ImageResourceDataEntry64, ImageResourceDirectoryEntry, RESOURCE_LOW_MASK,
};
use crate::pe::pe32::{spec_vaddr_to_off, vaddr_to_off_ok};
use super::parser::spec_find_section;
use super::PE64;

verus! {

/// Depth at which the resource-directory search gives up.
pub const RESOURCE_MAX_LEVEL: u32 = 10;

/// The length-prefixed UTF-16 name at `offset` of the resource section `rsrc`;
/// empty when its length field or its text does not fit in `rsrc`.
pub open spec fn spec_resource_name(rsrc: Seq<u8>, offset: int) -> Seq<char> {
    if offset + 1 >= rsrc.len() {
        Seq::empty()
    } else {
        let length = le_u16(rsrc, offset) as int;
        if offset + 2 + 2 * length > rsrc.len() {
            Seq::empty()
        } else {
            utf16_lossy(Seq::new(length as nat, |i: int| le_u16(rsrc, offset + 2 + 2 * i)))
        }
    }
}

/// The directory entry at `entry_off` of `rsrc`.
pub open spec fn spec_entry(rsrc: Seq<u8>, entry_off: int) -> ImageResourceDirectoryEntry {
    ImageResourceDirectoryEntry {
        name_or_id: le_u32(rsrc, entry_off),
        data_or_directory: le_u32(rsrc, entry_off + 4),
    }
}

/// Number of entries of the directory at `off`: named plus id entries.
pub open spec fn spec_dir_entries(rsrc: Seq<u8>, off: int) -> int {
    le_u16(rsrc, off + 12) + le_u16(rsrc, off + 14)
}

/// Whether the entry at `entry_off` selects the path at depth `level`: an id
/// entry matches the wanted type id at level 0, the wanted name id at level 1,
/// and anything at level 2; a named entry (whose name lies inside `rsrc`)
/// matches the wanted type name at level 0 and the wanted name at level 1.
pub open spec fn spec_entry_matches(
    rsrc: Seq<u8>,
    entry_off: int,
    level: u32,
    type_id: Option<u32>,
    name_id: Option<u32>,
    type_str: Option<&str>,
    name: Option<&str>,
) -> bool {
    let entry = spec_entry(rsrc, entry_off);
    if entry.spec_is_id() {
        let entry_id = entry.spec_get_name_or_id();
        ||| level == 0 && type_id == Some(entry_id)
        ||| level == 1 && name_id == Some(entry_id)
        ||| level == 2
    } else {
        let name_offset = (entry.spec_get_name_or_id() & RESOURCE_LOW_MASK) as int;
        let resource_name = spec_resource_name(rsrc, name_offset);
        &&& name_offset < rsrc.len()
        &&& {
            ||| level == 0 && (type_str matches Some(t) && t@ == resource_name)
            ||| level == 1 && (name matches Some(n) && n@ == resource_name)
        }
    }
}

/// Index of the first entry, from `i` up to `count`, of the directory at `off`
/// that lies inside `rsrc` and matches at depth `level`.
pub open spec fn spec_first_match(
    rsrc: Seq<u8>,
    off: int,
    i: int,
    count: int,
    level: u32,
    type_id: Option<u32>,
    name_id: Option<u32>,
    type_str: Option<&str>,
    name: Option<&str>,
) -> Option<int>
    decreases count - i,
{
    if i < 0 || i >= count {
        None
    } else {
        let entry_off = off + 8 * i + 16;
        if entry_off + 8 <= rsrc.len() && spec_entry_matches(
            rsrc,
            entry_off,
            level,
            type_id,
            name_id,
            type_str,
            name,
        ) {
            Some(i)
        } else {
            spec_first_match(rsrc, off, i + 1, count, level, type_id, name_id, type_str, name)
        }
    }
}

/// The data entry decoded at `off` of `rsrc`.
pub open spec fn spec_data_entry(rsrc: Seq<u8>, off: int) -> ImageResourceDataEntry64 {
    ImageResourceDataEntry64 {
        offset_to_data: le_u32(rsrc, off) as u64,
        size: le_u32(rsrc, off + 4) as u64,
        code_page: le_u32(rsrc, off + 8) as u64,
        reserved: le_u32(rsrc, off + 12) as u64,
    }
}

/// The resource search: in the directory at `off`, the first matching entry
/// decides; a subdirectory is searched one level deeper, a data entry is the
/// result when it fits in `rsrc`. `None` past the depth limit, when the
/// directory does not fit, or when nothing matches.
pub open spec fn spec_locate(
    rsrc: Seq<u8>,
    off: int,
    level: u32,
    type_id: Option<u32>,
    name_id: Option<u32>,
    type_str: Option<&str>,
    name: Option<&str>,
) -> Option<ImageResourceDataEntry64>
    decreases RESOURCE_MAX_LEVEL - level,
{
    if level >= RESOURCE_MAX_LEVEL || off + 16 > rsrc.len() {
        None
    } else {
        match spec_first_match(
            rsrc,
            off,
            0,
            spec_dir_entries(rsrc, off),
            level,
            type_id,
            name_id,
            type_str,
            name,
        ) {
            None => None,
            Some(i) => {
                let entry = spec_entry(rsrc, off + 8 * i + 16);
                if entry.spec_is_directory() {
                    spec_locate(
                        rsrc,
                        (entry.spec_get_offset() & RESOURCE_LOW_MASK) as int,
                        (level + 1) as u32,
                        type_id,
                        name_id,
                        type_str,
                        name,
                    )
                } else if entry.spec_get_offset() + 16 > rsrc.len() {
                    None
                } else {
                    Some(spec_data_entry(rsrc, entry.spec_get_offset() as int))
                }
            },
        }
    }
}

/// The search of [`spec_locate`] does no arithmetic that overflows: in every
/// directory it reads, the named and id entry counts add up within 16 bits.
pub open spec fn locate_ok(
    rsrc: Seq<u8>,
    off: int,
    level: u32,
    type_id: Option<u32>,
    name_id: Option<u32>,
    type_str: Option<&str>,
    name: Option<&str>,
) -> bool
    decreases RESOURCE_MAX_LEVEL - level,
{
    if level >= RESOURCE_MAX_LEVEL || off + 16 > rsrc.len() {
        true
    } else {
        &&& spec_dir_entries(rsrc, off) <= u16::MAX
        &&& match spec_first_match(
            rsrc,
            off,
            0,
            spec_dir_entries(rsrc, off),
            level,
            type_id,
            name_id,
            type_str,
            name,
        ) {
            None => true,
            Some(i) => {
                let entry = spec_entry(rsrc, off + 8 * i + 16);
                entry.spec_is_directory() ==> locate_ok(
                    rsrc,
                    (entry.spec_get_offset() & RESOURCE_LOW_MASK) as int,
                    (level + 1) as u32,
                    type_id,
                    name_id,
                    type_str,
                    name,
                )
            },
        }
    }
}

/// `wanted` is present and equal to `found`.
fn wanted_str_is(wanted: Option<&str>, found: &String) -> (b: bool)
    ensures
        b == (wanted matches Some(t) && t@ == found@),
{
    match wanted {
        Some(t) => {
            let t_string = String::from_str(t);
            t_string == *found
        },
        None => false,
    }
}

/// `wanted` is present and equal to `found`.
fn wanted_id_is(wanted: Option<u32>, found: u32) -> (b: bool)
    ensures
        b == (wanted == Some(found)),
{
    match wanted {
        Some(t) => t == found,
        None => false,
    }
}

impl PE64 {
    /// Searches the resource directory at `off` of the resource section `rsrc`
    /// (depth `level`) for the data entry selected by type (id or name) at
    /// depth 0, by name (id or name) at depth 1, and by the first entry at
    /// depth 2. The first matching entry of a directory decides.
    pub fn locate_resource_data_entry(
        &self,
        rsrc: &[u8],
        off: usize,
        level: u32,
        type_id: Option<u32>,
        name_id: Option<u32>,
        type_str: Option<&str>,
        name: Option<&str>,
    ) -> (r: Option<structures::ImageResourceDataEntry64>)
        requires
            rsrc@.len() <= isize::MAX,
            off + 16 <= usize::MAX,
            locate_ok(rsrc@, off as int, level, type_id, name_id, type_str, name),
        ensures
            r == spec_locate(rsrc@, off as int, level, type_id, name_id, type_str, name),
        decreases RESOURCE_MAX_LEVEL - level,
    {
        if level >= RESOURCE_MAX_LEVEL {
            return None;
        }
        if off + 16 > rsrc.len() {
            return None;
        }

        let mut dir = structures::ImageResourceDirectory::new();
        dir.characteristics = read_u32_le(rsrc, off as u64);
        dir.time_date_stamp = read_u32_le(rsrc, off as u64 + 4);
        dir.major_version = read_u16_le(rsrc, off as u64 + 8);
        dir.minor_version = read_u16_le(rsrc, off as u64 + 10);
        dir.number_of_named_entries = read_u16_le(rsrc, off as u64 + 12);
        dir.number_of_id_entries = read_u16_le(rsrc, off as u64 + 14);

        let entries = dir.number_of_named_entries + dir.number_of_id_entries;
        let ghost count = spec_dir_entries(rsrc@, off as int);

        let mut i: u16 = 0;
        while i < entries
            invariant
                rsrc@.len() <= isize::MAX,
                off + 16 <= rsrc@.len(),
                level < RESOURCE_MAX_LEVEL,
                entries == count,
                count == spec_dir_entries(rsrc@, off as int),
                i <= entries,
                locate_ok(rsrc@, off as int, level, type_id, name_id, type_str, name),
                spec_first_match(rsrc@, off as int, 0, count, level, type_id, name_id, type_str, name)
                    == spec_first_match(
                    rsrc@,
                    off as int,
                    i as int,
                    count,
                    level,
                    type_id,
                    name_id,
                    type_str,
                    name,
                ),
            decreases entries - i,
        {
            let entry_off = off + (i as usize * 8) + 16;
            if entry_off + 8 > rsrc.len() {
                i = i + 1;
                continue;
            }

            let mut entry = ImageResourceDirectoryEntry::new();
            entry.name_or_id = read_u32_le(rsrc, entry_off as u64);
            entry.data_or_directory = read_u32_le(rsrc, entry_off as u64 + 4);
            assert(entry == spec_entry(rsrc@, entry_off as int));

            let matched: bool;
            if entry.is_id() {
                let entry_id = entry.get_name_or_id();
                if level == 0 && wanted_id_is(type_id, entry_id) {
                    matched = true;
                } else if level == 1 && wanted_id_is(name_id, entry_id) {
                    matched = true;
                } else if level == 2 {
                    matched = true;
                } else {
                    matched = false;
                }
            } else {
                let name_offset = (entry.get_name_or_id() & RESOURCE_LOW_MASK) as usize;
                if name_offset >= rsrc.len() {
                    i = i + 1;
                    continue;
                }
                let resource_name = self.read_resource_name_from_rsrc(rsrc, name_offset);
                if level == 0 && wanted_str_is(type_str, &resource_name) {
                    matched = true;
                } else if level == 1 && wanted_str_is(name, &resource_name) {
                    matched = true;
                } else {
                    matched = false;
                }
            }

            if matched {
                assert(spec_first_match(
                    rsrc@,
                    off as int,
                    i as int,
                    count,
                    level,
                    type_id,
                    name_id,
                    type_str,
                    name,
                ) == Some(i as int));
                assert(spec_first_match(
                    rsrc@,
                    off as int,
                    0,
                    count,
                    level,
                    type_id,
                    name_id,
                    type_str,
                    name,
                ) == Some(i as int));
                if entry.is_directory() {
                    let off_field = entry.get_offset();
                    let next_dir_offset = off_field & RESOURCE_LOW_MASK;
                    assert(off_field & 0x7FFF_FFFFu32 <= 0x7FFF_FFFFu32) by (bit_vector);
                    assert(entry == spec_entry(rsrc@, off + 8 * i + 16));
                    assert(locate_ok(
                        rsrc@,
                        next_dir_offset as int,
                        (level + 1) as u32,
                        type_id,
                        name_id,
                        type_str,
                        name,
                    ));
                    return self.locate_resource_data_entry(
                        rsrc,
                        next_dir_offset as usize,
                        level + 1,
                        type_id,
                        name_id,
                        type_str,
                        name,
                    );
                } else {
                    let data_entry_offset = entry.get_offset();
                    if data_entry_offset as u64 + 16 > rsrc.len() as u64 {
                        return None;
                    }
                    let mut data_entry = ImageResourceDataEntry64::new();
                    data_entry.offset_to_data = read_u32_le(rsrc, data_entry_offset as u64) as u64;
                    data_entry.size = read_u32_le(rsrc, data_entry_offset as u64 + 4) as u64;
                    data_entry.code_page = read_u32_le(rsrc, data_entry_offset as u64 + 8) as u64;
                    data_entry.reserved = read_u32_le(rsrc, data_entry_offset as u64 + 12) as u64;
                    return Some(data_entry);
                }
            }
            i = i + 1;
        }

        None
    }

    /// The length-prefixed UTF-16 string at `offset` of the resource section,
    /// as lossy UTF-16; empty when its length field or its text does not fit.
    pub fn read_resource_name_from_rsrc(&self, rsrc: &[u8], offset: usize) -> (s: String)
        requires
            rsrc@.len() <= isize::MAX,
            offset < usize::MAX,
        ensures
            s@ == spec_resource_name(rsrc@, offset as int),
    {
        if offset + 1 >= rsrc.len() {
            return String::new();
        }
        let length = read_u16_le(rsrc, offset as u64) as usize;
        let string_start = offset + 2;
        let required_bytes = string_start + (length * 2);
        if required_bytes > rsrc.len() {
            return String::new();
        }
        let mut utf16_data: Vec<u16> = Vec::new();
        let mut i: usize = 0;
        while i < length
            invariant
                rsrc@.len() <= isize::MAX,
                i <= length,
                string_start == offset + 2,
                string_start + 2 * length <= rsrc@.len(),
                utf16_data@ =~= Seq::new(i as nat, |k: int| le_u16(rsrc@, offset + 2 + 2 * k)),
            decreases length - i,
        {
            let idx = string_start + i * 2;
            utf16_data.push(read_u16_le(rsrc, idx as u64));
            i = i + 1;
        }
        units_to_string(utf16_data.as_slice())
    }
}

impl PE64 {
    /// The bytes of the `.rsrc` section (the first section of that name),
    /// `virtual_size` bytes from its raw-data pointer; `None` when absent.
    pub open spec fn spec_rsrc_section(&self, raw: Seq<u8>) -> Option<Seq<u8>> {
        match spec_find_section(self.sect_hdr@, ".rsrc"@, 0) {
            None => None,
            Some(i) => Some(
                raw.subrange(
                    self.sect_hdr@[i].pointer_to_raw_data as int,
                    self.sect_hdr@[i].pointer_to_raw_data + self.sect_hdr@[i].virtual_size,
                ),
            ),
        }
    }

    /// The `.rsrc` section, when present, lies inside `raw`.
    pub open spec fn rsrc_section_ok(&self, raw: Seq<u8>) -> bool {
        spec_find_section(self.sect_hdr@, ".rsrc"@, 0) matches Some(i) ==> self.sect_hdr@[i].pointer_to_raw_data
            + self.sect_hdr@[i].virtual_size <= raw.len()
    }

    /// The resource search from the root of the `.rsrc` section.
    pub open spec fn spec_resource_entry(
        &self,
        raw: Seq<u8>,
        type_id: Option<u32>,
        name_id: Option<u32>,
        type_str: Option<&str>,
        name: Option<&str>,
    ) -> Option<ImageResourceDataEntry64> {
        match self.spec_rsrc_section(raw) {
            None => None,
            Some(rsrc) => spec_locate(rsrc, 0, 0, type_id, name_id, type_str, name),
        }
    }

    /// The inputs on which [`PE64::get_resource`] runs to completion: the
    /// section fits, the search does not overflow, and the data offset it finds
    /// maps without overflow to a file offset no smaller than the image
    /// base (which is subtracted from it).
    pub open spec fn get_resource_ok(
        &self,
        raw: Seq<u8>,
        type_id: Option<u32>,
        name_id: Option<u32>,
        type_str: Option<&str>,
        name: Option<&str>,
    ) -> bool {
        &&& raw.len() <= isize::MAX
        &&& self.rsrc_section_ok(raw)
        &&& self.spec_rsrc_section(raw) matches Some(rsrc) ==> locate_ok(
            rsrc,
            0,
            0,
            type_id,
            name_id,
            type_str,
            name,
        )
        &&& self.spec_resource_entry(raw, type_id, name_id, type_str, name) matches Some(de) ==> {
            &&& vaddr_to_off_ok(self.sect_hdr@, de.offset_to_data as u32)
            &&& spec_vaddr_to_off(self.sect_hdr@, de.offset_to_data as u32) as usize
                >= self.opt.image_base as usize
        }
    }

    /// Locates a resource by type and name (each as an id or a string) in the
    /// `.rsrc` section: the data entry's offset mapped to the file, minus
    /// the image base, and the data size.
    pub fn get_resource(
        &self,
        raw: &[u8],
        type_id: Option<u32>,
        name_id: Option<u32>,
        type_str: Option<&str>,
        name: Option<&str>,
    ) -> (r: Option<(u64, usize)>)
        requires
            self.get_resource_ok(raw@, type_id, name_id, type_str, name),
        ensures
            r == match self.spec_resource_entry(raw@, type_id, name_id, type_str, name) {
                None => None,
                Some(de) => Some(
                    (
                        (spec_vaddr_to_off(self.sect_hdr@, de.offset_to_data as u32) as usize
                            - self.opt.image_base as usize) as u64,
                        de.size as usize,
                    ),
                ),
            },
    {
        let rsrc = match self.get_section_ptr_by_name(raw, ".rsrc") {
            Some(rsrc) => rsrc,
            None => return None,
        };
        let data_entry = match self.locate_resource_data_entry(
            rsrc,
            0,
            0,
            type_id,
            name_id,
            type_str,
            name,
        ) {
            Some(d) => d,
            None => return None,
        };
        let data_off = PE64::vaddr_to_off(&self.sect_hdr, data_entry.offset_to_data as u32) as usize
            - self.opt.image_base as usize;
        Some((data_off as u64, data_entry.size as usize))
    }

    /// The name of a named resource directory entry, read from the `.rsrc`
    /// section; empty when the image has no `.rsrc` section.
    pub fn get_resource_name(&self, raw: &[u8], entry: &ImageResourceDirectoryEntry) -> (s: String)
        requires
            raw@.len() <= isize::MAX,
            self.rsrc_section_ok(raw@),
        ensures
            s@ == match self.spec_rsrc_section(raw@) {
                None => Seq::empty(),
                Some(rsrc) => spec_resource_name(
                    rsrc,
                    (entry.spec_get_name_or_id() & RESOURCE_LOW_MASK) as int,
                ),
            },
    {
        let rsrc = match self.get_section_ptr_by_name(raw, ".rsrc") {
            Some(rsrc) => rsrc,
            None => return String::new(),
        };
        let id_field = entry.get_name_or_id();
        assert(id_field & 0x7FFF_FFFFu32 <= 0x7FFF_FFFFu32) by (bit_vector);
        let name_offset = (id_field & RESOURCE_LOW_MASK) as usize;
        self.read_resource_name_from_rsrc(rsrc, name_offset)
    }
}

impl PE64 {
    /// True when the entry at `entry_off` (which lies inside `rsrc`) selects
    /// the path at depth `level` ([`spec_entry_matches`]).
    fn entry_matches(
        &self,
        rsrc: &[u8],
        entry_off: usize,
        level: u32,
        type_id: Option<u32>,
        name_id: Option<u32>,
        type_str: Option<&str>,
        name: Option<&str>,
    ) -> (b: bool)
        requires
            rsrc@.len() <= isize::MAX,
            entry_off + 8 <= rsrc@.len(),
        ensures
            b == spec_entry_matches(rsrc@, entry_off as int, level, type_id, name_id, type_str, name),
    {
        let mut entry = ImageResourceDirectoryEntry::new();
        entry.name_or_id = read_u32_le(rsrc, entry_off as u64);
        entry.data_or_directory = read_u32_le(rsrc, entry_off as u64 + 4);
        assert(entry == spec_entry(rsrc@, entry_off as int));
        if entry.is_id() {
            let entry_id = entry.get_name_or_id();
            (level == 0 && wanted_id_is(type_id, entry_id)) || (level == 1 && wanted_id_is(name_id, entry_id))
                || level == 2
        } else {
            let name_offset = (entry.get_name_or_id() & RESOURCE_LOW_MASK) as usize;
            if name_offset >= rsrc.len() {
                return false;
            }
            let resource_name = self.read_resource_name_from_rsrc(rsrc, name_offset);
            (level == 0 && wanted_str_is(type_str, &resource_name)) || (level == 1 && wanted_str_is(
                name,
                &resource_name,
            ))
        }
    }

    /// True when the resource search from the directory at `off` (depth
    /// `level`) does no arithmetic that overflows: the precondition
    /// [`locate_ok`] of [`PE64::locate_resource_data_entry`], checked.
    pub fn locate_fits(
        &self,
        rsrc: &[u8],
        off: usize,
        level: u32,
        type_id: Option<u32>,
        name_id: Option<u32>,
        type_str: Option<&str>,
        name: Option<&str>,
    ) -> (b: bool)
        requires
            rsrc@.len() <= isize::MAX,
            off + 16 <= usize::MAX,
        ensures
            b == locate_ok(rsrc@, off as int, level, type_id, name_id, type_str, name),
        decreases RESOURCE_MAX_LEVEL - level,
    {
        if level >= RESOURCE_MAX_LEVEL || off + 16 > rsrc.len() {
            return true;
        }
        let named = read_u16_le(rsrc, off as u64 + 12);
        let ids = read_u16_le(rsrc, off as u64 + 14);
        if named as u32 + ids as u32 > 0xffff {
            return false;
        }
        let entries: u16 = named + ids;
        let ghost count = spec_dir_entries(rsrc@, off as int);
        let mut i: u16 = 0;
        while i < entries
            invariant
                rsrc@.len() <= isize::MAX,
                off + 16 <= rsrc@.len(),
                level < RESOURCE_MAX_LEVEL,
                entries == count,
                count == spec_dir_entries(rsrc@, off as int),
                i <= entries,
                spec_first_match(rsrc@, off as int, 0, count, level, type_id, name_id, type_str, name)
                    == spec_first_match(
                    rsrc@,
                    off as int,
                    i as int,
                    count,
                    level,
                    type_id,
                    name_id,
                    type_str,
                    name,
                ),
            decreases entries - i,
        {
            let entry_off = off + (i as usize * 8) + 16;
            if entry_off + 8 <= rsrc.len() && self.entry_matches(
                rsrc,
                entry_off,
                level,
                type_id,
                name_id,
                type_str,
                name,
            ) {
                assert(spec_first_match(rsrc@, off as int, 0, count, level, type_id, name_id, type_str, name)
                    == Some(i as int));
                let mut entry = ImageResourceDirectoryEntry::new();
                entry.name_or_id = read_u32_le(rsrc, entry_off as u64);
                entry.data_or_directory = read_u32_le(rsrc, entry_off as u64 + 4);
                assert(entry == spec_entry(rsrc@, off + 8 * i + 16));
                if entry.is_directory() {
                    let off_field = entry.get_offset();
                    let next_dir_offset = off_field & RESOURCE_LOW_MASK;
                    assert(off_field & 0x7FFF_FFFFu32 <= 0x7FFF_FFFFu32) by (bit_vector);
                    return self.locate_fits(
                        rsrc,
                        next_dir_offset as usize,
                        level + 1,
                        type_id,
                        name_id,
                        type_str,
                        name,
                    );
                }
                return true;
            }
            i = i + 1;
        }
        true
    }

    /// Index of the first section named `name`, as [`spec_find_section`].
    pub fn find_section(&self, name: &str) -> (r: Option<usize>)
        ensures
            r matches Some(i) ==> i < self.sect_hdr@.len() && spec_find_section(self.sect_hdr@, name@, 0)
                == Some(i as int),
            r is None ==> spec_find_section(self.sect_hdr@, name@, 0) is None,
    {
        let wanted = String::from_str(name);
        let mut i: usize = 0;
        while i < self.sect_hdr.len()
            invariant
                i <= self.sect_hdr@.len(),
                wanted@ == name@,
                spec_find_section(self.sect_hdr@, name@, 0) == spec_find_section(
                    self.sect_hdr@,
                    name@,
                    i as int,
                ),
            decreases self.sect_hdr@.len() - i,
        {
            let sect_name = self.sect_hdr[i].get_name();
            if sect_name == wanted {
                assert(spec_find_section(self.sect_hdr@, name@, i as int) == Some(i as int));
                return Some(i);
            }
            i = i + 1;
        }
        None
    }

    /// True when [`PE64::get_resource`] can run for this request: its
    /// precondition [`PE64::get_resource_ok`], checked.
    pub fn get_resource_fits(
        &self,
        raw: &[u8],
        type_id: Option<u32>,
        name_id: Option<u32>,
        type_str: Option<&str>,
        name: Option<&str>,
    ) -> (b: bool)
        ensures
            b == self.get_resource_ok(raw@, type_id, name_id, type_str, name),
    {
        if raw.len() > isize::MAX as usize {
            return false;
        }
        let idx = match self.find_section(".rsrc") {
            Some(i) => i,
            None => {
                assert(spec_find_section(self.sect_hdr@, ".rsrc"@, 0) is None);
                assert(self.spec_rsrc_section(raw@) is None);
                return true;
            },
        };
        assert(spec_find_section(self.sect_hdr@, ".rsrc"@, 0) == Some(idx as int));
        let s = &self.sect_hdr[idx];
        if s.pointer_to_raw_data as u64 + s.virtual_size as u64 > raw.len() as u64 {
            return false;
        }
        let rsrc = match self.get_section_ptr_by_name(raw, ".rsrc") {
            Some(r) => r,
            None => return true,
        };
        if !self.locate_fits(rsrc, 0, 0, type_id, name_id, type_str, name) {
            return false;
        }
        match self.locate_resource_data_entry(rsrc, 0, 0, type_id, name_id, type_str, name) {
            None => true,
            Some(de) => {
                PE64::vaddr_to_off_fits(&self.sect_hdr, de.offset_to_data as u32) && PE64::vaddr_to_off(
                    &self.sect_hdr,
                    de.offset_to_data as u32,
                ) as usize >= self.opt.image_base as usize
            },
        }
    }
}


proof fn lemma_first_match_is_match(
    rsrc: Seq<u8>,
    off: int,
    i: int,
    count: int,
    level: u32,
    type_id: Option<u32>,
    name_id: Option<u32>,
    type_str: Option<&str>,
    name: Option<&str>,
)
    ensures
        spec_first_match(rsrc, off, i, count, level, type_id, name_id, type_str, name) matches Some(m) ==> {
            &&& i <= m < count
            &&& off + 8 * m + 16 + 8 <= rsrc.len()
            &&& spec_entry_matches(rsrc, off + 8 * m + 16, level, type_id, name_id, type_str, name)
        },
    decreases count - i,
{
    if 0 <= i < count {
        lemma_first_match_is_match(rsrc, off, i + 1, count, level, type_id, name_id, type_str, name);
    }
}

/// Law (resource lookup by ids follows the ids): when a lookup by type id
/// `type_id` and name id `name_id` (no names) finds a data entry, the root
/// directory has an id entry (inside the section) whose id is `type_id` that
/// leads to it: directly when that entry is a data entry, else through an id
/// entry of its subdirectory whose id is `name_id` (no other id, not even
/// `type_id`, is followed at that depth), which either is the data entry or
/// leads to the language directory the search continues in.
pub proof fn lemma_locate_follows_ids(rsrc: Seq<u8>, type_id: u32, name_id: u32)
    requires
        spec_locate(rsrc, 0, 0, Some(type_id), Some(name_id), None, None) is Some,
    ensures
        exists|i0: int|
            #![trigger spec_entry(rsrc, 8 * i0 + 16)]
            0 <= i0 < spec_dir_entries(rsrc, 0) && 8 * i0 + 16 + 8 <= rsrc.len() && {
                let e0 = spec_entry(rsrc, 8 * i0 + 16);
                let d1 = (e0.spec_get_offset() & RESOURCE_LOW_MASK) as int;
                &&& e0.spec_is_id()
                &&& e0.spec_get_name_or_id() == type_id
                &&& !e0.spec_is_directory() ==> spec_locate(rsrc, 0, 0, Some(type_id), Some(name_id), None, None)
                    == Some(spec_data_entry(rsrc, e0.spec_get_offset() as int))
                &&& e0.spec_is_directory() ==> exists|i1: int|
                    #![trigger spec_entry(rsrc, d1 + 8 * i1 + 16)]
                    0 <= i1 < spec_dir_entries(rsrc, d1) && d1 + 8 * i1 + 16 + 8 <= rsrc.len() && {
                        let e1 = spec_entry(rsrc, d1 + 8 * i1 + 16);
                        &&& e1.spec_is_id()
                        &&& e1.spec_get_name_or_id() == name_id
                        &&& !e1.spec_is_directory() ==> spec_locate(
                            rsrc,
                            0,
                            0,
                            Some(type_id),
                            Some(name_id),
                            None,
                            None,
                        ) == Some(spec_data_entry(rsrc, e1.spec_get_offset() as int))
                        &&& e1.spec_is_directory() ==> spec_locate(
                            rsrc,
                            0,
                            0,
                            Some(type_id),
                            Some(name_id),
                            None,
                            None,
                        ) == spec_locate(
                            rsrc,
                            (e1.spec_get_offset() & RESOURCE_LOW_MASK) as int,
                            2,
                            Some(type_id),
                            Some(name_id),
                            None,
                            None,
                        )
                    }
            },
{
    let t = Some(type_id);
    let nm = Some(name_id);
    let none: Option<&str> = None;
    let c0 = spec_dir_entries(rsrc, 0);
    lemma_first_match_is_match(rsrc, 0, 0, c0, 0, t, nm, none, none);
    let i0 = spec_first_match(rsrc, 0, 0, c0, 0, t, nm, none, none)->0;
    let e0 = spec_entry(rsrc, 8 * i0 + 16);
    assert(e0.spec_is_id() && e0.spec_get_name_or_id() == type_id);
    if e0.spec_is_directory() {
        let d1 = (e0.spec_get_offset() & RESOURCE_LOW_MASK) as int;
        let r1 = spec_locate(rsrc, d1, 1, t, nm, none, none);
        assert(spec_locate(rsrc, 0, 0, t, nm, none, none) == r1);
        let c1 = spec_dir_entries(rsrc, d1);
        lemma_first_match_is_match(rsrc, d1, 0, c1, 1, t, nm, none, none);
        let i1 = spec_first_match(rsrc, d1, 0, c1, 1, t, nm, none, none)->0;
        let e1 = spec_entry(rsrc, d1 + 8 * i1 + 16);
        assert(e1.spec_is_id() && e1.spec_get_name_or_id() == name_id);
    }
}


/// The entry at `e_off` is the one a query for `wanted_id` / `wanted_str`
/// selects: an id entry whose id is `wanted_id`, or a named entry whose name
/// (inside the section) is `wanted_str`.
pub open spec fn entry_selected_by(
    rsrc: Seq<u8>,
    e_off: int,
    wanted_id: Option<u32>,
    wanted_str: Option<&str>,
) -> bool {
    let e = spec_entry(rsrc, e_off);
    if e.spec_is_id() {
        wanted_id == Some(e.spec_get_name_or_id())
    } else {
        let name_off = (e.spec_get_name_or_id() & RESOURCE_LOW_MASK) as int;
        &&& name_off < rsrc.len()
        &&& wanted_str matches Some(s) && s@ == spec_resource_name(rsrc, name_off)
    }
}

/// Law (resource lookup follows the query): when a lookup by type (id or
/// name) and name (id or name) finds a data entry, the root directory has an
/// entry inside the section selected by the type that leads to it: directly
/// when it is a data entry, else through an entry of its subdirectory
/// selected by the name (by nothing else), which either is the data entry or
/// leads to the directory the search continues in at depth 2.
pub proof fn lemma_locate_follows_query(
    rsrc: Seq<u8>,
    type_id: Option<u32>,
    name_id: Option<u32>,
    type_str: Option<&str>,
    name: Option<&str>,
)
    requires
        spec_locate(rsrc, 0, 0, type_id, name_id, type_str, name) is Some,
    ensures
        exists|i0: int|
            #![trigger spec_entry(rsrc, 8 * i0 + 16)]
            0 <= i0 < spec_dir_entries(rsrc, 0) && 8 * i0 + 16 + 8 <= rsrc.len() && {
                let e0 = spec_entry(rsrc, 8 * i0 + 16);
                let d1 = (e0.spec_get_offset() & RESOURCE_LOW_MASK) as int;
                &&& entry_selected_by(rsrc, 8 * i0 + 16, type_id, type_str)
                &&& !e0.spec_is_directory() ==> spec_locate(rsrc, 0, 0, type_id, name_id, type_str, name)
                    == Some(spec_data_entry(rsrc, e0.spec_get_offset() as int))
                &&& e0.spec_is_directory() ==> exists|i1: int|
                    #![trigger spec_entry(rsrc, d1 + 8 * i1 + 16)]
                    0 <= i1 < spec_dir_entries(rsrc, d1) && d1 + 8 * i1 + 16 + 8 <= rsrc.len() && {
                        let e1 = spec_entry(rsrc, d1 + 8 * i1 + 16);
                        &&& entry_selected_by(rsrc, d1 + 8 * i1 + 16, name_id, name)
                        &&& !e1.spec_is_directory() ==> spec_locate(rsrc, 0, 0, type_id, name_id, type_str, name)
                            == Some(spec_data_entry(rsrc, e1.spec_get_offset() as int))
                        &&& e1.spec_is_directory() ==> spec_locate(rsrc, 0, 0, type_id, name_id, type_str, name)
                            == spec_locate(
                            rsrc,
                            (e1.spec_get_offset() & RESOURCE_LOW_MASK) as int,
                            2,
                            type_id,
                            name_id,
                            type_str,
                            name,
                        )
                    }
            },
{
    let c0 = spec_dir_entries(rsrc, 0);
    lemma_first_match_is_match(rsrc, 0, 0, c0, 0, type_id, name_id, type_str, name);
    let i0 = spec_first_match(rsrc, 0, 0, c0, 0, type_id, name_id, type_str, name)->0;
    let e0 = spec_entry(rsrc, 8 * i0 + 16);
    assert(entry_selected_by(rsrc, 8 * i0 + 16, type_id, type_str));
    if e0.spec_is_directory() {
        let d1 = (e0.spec_get_offset() & RESOURCE_LOW_MASK) as int;
        assert(spec_locate(rsrc, 0, 0, type_id, name_id, type_str, name) == spec_locate(
            rsrc,
            d1,
            1,
            type_id,
            name_id,
            type_str,
            name,
        ));
        let c1 = spec_dir_entries(rsrc, d1);
        lemma_first_match_is_match(rsrc, d1, 0, c1, 1, type_id, name_id, type_str, name);
        let i1 = spec_first_match(rsrc, d1, 0, c1, 1, type_id, name_id, type_str, name)->0;
        assert(entry_selected_by(rsrc, d1 + 8 * i1 + 16, name_id, name));
    }
}

} // verus!
