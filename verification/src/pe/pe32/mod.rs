//! On-disk PE structures shared by both image widths, and the 32-bit image.
use std::collections::HashMap;
use vstd::prelude::*;

use crate::pe::readers::{byte_at, c_string, le_u16, le_u32, read_u16_le, read_u32_le, read_u8};

pub mod binding;
pub mod parser;

verus! {

pub const IMAGE_DIRECTORY_ENTRY_EXPORT: usize = 0;
pub const IMAGE_DIRECTORY_ENTRY_IMPORT: usize = 1;
pub const IMAGE_DIRECTORY_ENTRY_RESOURCE: usize = 2;
pub const IMAGE_DIRECTORY_ENTRY_EXCEPTION: usize = 3;
pub const IMAGE_DIRECTORY_ENTRY_SECURITY: usize = 4;
pub const IMAGE_DIRECTORY_ENTRY_BASERELOC: usize = 5;
pub const IMAGE_DIRECTORY_ENTRY_DEBUG: usize = 6;
pub const IMAGE_DIRECTORY_ENTRY_ARCHITECTURE: usize = 7;
pub const IMAGE_DIRECTORY_ENTRY_GLOBALPTR: usize = 8;
pub const IMAGE_DIRECTORY_ENTRY_TLS: usize = 9;
pub const IMAGE_DIRECTORY_ENTRY_LOAD_CONFIG: usize = 10;
pub const IMAGE_DIRECTORY_ENTRY_BOUND_IMPORT: usize = 11;
pub const IMAGE_DIRECTORY_ENTRY_IAT: usize = 12;
pub const IMAGE_DIRECTORY_ENTRY_DELAY_LOAD: usize = 13;
pub const IMAGE_DIRECTORY_ENTRY_COM_DESCRIPTOR: usize = 14;

/// Number of data-directory slots an optional header carries.
pub const IMAGE_NUMBEROF_DIRECTORY_ENTRIES: usize = 16;
/// `Characteristics` bit of a DLL image.
pub const IMAGE_FILE_DLL: u16 = 0x2000;
/// Size in bytes of one section header.
pub const SECTION_HEADER_SZ: usize = 40;

/// The MS-DOS stub header at offset 0.
#[derive(Clone, Copy, Debug)]
pub struct ImageDosHeader {
    pub e_magic: u16,
    pub e_cblp: u16,
    pub e_cp: u16,
    pub e_crlc: u16,
    pub e_cparhdr: u16,
    pub e_minalloc: u16,
    pub e_maxalloc: u16,
    pub e_ss: u16,
    pub e_sp: u16,
    pub e_csum: u16,
    pub e_ip: u16,
    pub e_cs: u16,
    pub e_lfarlc: u16,
    pub e_ovno: u16,
    pub e_oemid: u16,
    pub e_oeminfo: u16,
    pub e_lfanew: u32,
}

impl ImageDosHeader {
    /// The DOS header decoded from `raw` at `off`.
    pub open spec fn spec_load(raw: Seq<u8>, off: int) -> ImageDosHeader {
        ImageDosHeader {
            e_magic: le_u16(raw, off),
            e_cblp: le_u16(raw, off + 2),
            e_cp: le_u16(raw, off + 4),
            e_crlc: le_u16(raw, off + 6),
            e_cparhdr: le_u16(raw, off + 8),
            e_minalloc: le_u16(raw, off + 10),
            e_maxalloc: le_u16(raw, off + 12),
            e_ss: le_u16(raw, off + 14),
            e_sp: le_u16(raw, off + 16),
            e_csum: le_u16(raw, off + 18),
            e_ip: le_u16(raw, off + 20),
            e_cs: le_u16(raw, off + 22),
            e_lfarlc: le_u16(raw, off + 24),
            e_ovno: le_u16(raw, off + 26),
            e_oemid: le_u16(raw, off + 36),
            e_oeminfo: le_u16(raw, off + 38),
            e_lfanew: le_u32(raw, off + 60),
        }
    }

    /// Decodes the DOS header at `off`.
    pub fn load(raw: &[u8], off: u64) -> (h: ImageDosHeader)
        requires
            off + 64 <= u64::MAX,
        ensures
            h == Self::spec_load(raw@, off as int),
    {
        ImageDosHeader {
            e_magic: read_u16_le(raw, off),
            e_cblp: read_u16_le(raw, off + 2),
            e_cp: read_u16_le(raw, off + 4),
            e_crlc: read_u16_le(raw, off + 6),
            e_cparhdr: read_u16_le(raw, off + 8),
            e_minalloc: read_u16_le(raw, off + 10),
            e_maxalloc: read_u16_le(raw, off + 12),
            e_ss: read_u16_le(raw, off + 14),
            e_sp: read_u16_le(raw, off + 16),
            e_csum: read_u16_le(raw, off + 18),
            e_ip: read_u16_le(raw, off + 20),
            e_cs: read_u16_le(raw, off + 22),
            e_lfarlc: read_u16_le(raw, off + 24),
            e_ovno: read_u16_le(raw, off + 26),
            e_oemid: read_u16_le(raw, off + 36),
            e_oeminfo: read_u16_le(raw, off + 38),
            e_lfanew: read_u32_le(raw, off + 60),
        }
    }
}

/// The `PE\0\0` signature that opens the NT headers.
#[derive(Clone, Copy, Debug)]
pub struct ImageNtHeaders {
    pub signature: u32,
}

impl ImageNtHeaders {
    pub open spec fn spec_load(raw: Seq<u8>, off: int) -> ImageNtHeaders {
        ImageNtHeaders { signature: le_u32(raw, off) }
    }

    /// Decodes the NT signature at `off`.
    pub fn load(raw: &[u8], off: u64) -> (h: ImageNtHeaders)
        requires
            off + 4 <= u64::MAX,
        ensures
            h == Self::spec_load(raw@, off as int),
    {
        ImageNtHeaders { signature: read_u32_le(raw, off) }
    }
}

/// The COFF file header.
#[derive(Clone, Copy, Debug)]
pub struct ImageFileHeader {
    pub machine: u16,
    pub number_of_sections: u16,
    pub time_date_stamp: u32,
    pub pointer_to_symbol_table: u32,
    pub number_of_symbols: u32,
    pub size_of_optional_header: u16,
    pub characteristics: u16,
}

impl ImageFileHeader {
    pub open spec fn spec_load(raw: Seq<u8>, off: int) -> ImageFileHeader {
        ImageFileHeader {
            machine: le_u16(raw, off),
            number_of_sections: le_u16(raw, off + 2),
            time_date_stamp: le_u32(raw, off + 4),
            pointer_to_symbol_table: le_u32(raw, off + 8),
            number_of_symbols: le_u32(raw, off + 12),
            size_of_optional_header: le_u16(raw, off + 16),
            characteristics: le_u16(raw, off + 18),
        }
    }

    /// Decodes the COFF file header at `off`.
    pub fn load(raw: &[u8], off: u64) -> (h: ImageFileHeader)
        requires
            off + 20 <= u64::MAX,
        ensures
            h == Self::spec_load(raw@, off as int),
    {
        ImageFileHeader {
            machine: read_u16_le(raw, off),
            number_of_sections: read_u16_le(raw, off + 2),
            time_date_stamp: read_u32_le(raw, off + 4),
            pointer_to_symbol_table: read_u32_le(raw, off + 8),
            number_of_symbols: read_u32_le(raw, off + 12),
            size_of_optional_header: read_u16_le(raw, off + 16),
            characteristics: read_u16_le(raw, off + 18),
        }
    }
}

/// One data-directory slot: where a table lives and how large it is.
#[derive(Clone, Copy, Debug)]
pub struct ImageDataDirectory {
    pub virtual_address: u32,
    pub size: u32,
}

impl ImageDataDirectory {
    pub open spec fn spec_load(raw: Seq<u8>, off: int) -> ImageDataDirectory {
        ImageDataDirectory { virtual_address: le_u32(raw, off), size: le_u32(raw, off + 4) }
    }

    /// Decodes the data-directory slot at `off`.
    pub fn load(raw: &[u8], off: u64) -> (d: ImageDataDirectory)
        requires
            off + 8 <= u64::MAX,
        ensures
            d == Self::spec_load(raw@, off as int),
    {
        ImageDataDirectory { virtual_address: read_u32_le(raw, off), size: read_u32_le(raw, off + 4) }
    }
}

/// The sixteen data-directory slots that start at `off`.
pub open spec fn spec_data_directories(raw: Seq<u8>, off: int) -> Seq<ImageDataDirectory> {
    Seq::new(
        IMAGE_NUMBEROF_DIRECTORY_ENTRIES as nat,
        |i: int| ImageDataDirectory::spec_load(raw, off + 8 * i),
    )
}

/// Decodes the sixteen data-directory slots that start at `off`.
pub fn load_data_directories(raw: &[u8], off: u64) -> (v: Vec<ImageDataDirectory>)
    requires
        off + 8 * IMAGE_NUMBEROF_DIRECTORY_ENTRIES <= u64::MAX,
    ensures
        v@ == spec_data_directories(raw@, off as int),
{
    let mut v: Vec<ImageDataDirectory> = Vec::new();
    let mut i: u64 = 0;
    while i < IMAGE_NUMBEROF_DIRECTORY_ENTRIES as u64
        invariant
            i <= IMAGE_NUMBEROF_DIRECTORY_ENTRIES,
            off + 8 * IMAGE_NUMBEROF_DIRECTORY_ENTRIES <= u64::MAX,
            v@.len() == i,
            forall|j: int| 0 <= j < i ==> v@[j] == ImageDataDirectory::spec_load(raw@, off + 8 * j),
        decreases IMAGE_NUMBEROF_DIRECTORY_ENTRIES - i,
    {
        v.push(ImageDataDirectory::load(raw, off + 8 * i));
        i = i + 1;
    }
    assert(v@ =~= spec_data_directories(raw@, off as int));
    v
}

/// One section header: where a section lives in the file and in memory.
#[derive(Clone, Copy, Debug)]
pub struct ImageSectionHeader {
    pub name: [u8; 8],
    pub virtual_size: u32,
    pub virtual_address: u32,
    pub size_of_raw_data: u32,
    pub pointer_to_raw_data: u32,
    pub pointer_to_relocations: u32,
    pub pointer_to_linenumbers: u32,
    pub number_of_relocations: u16,
    pub number_of_linenumbers: u16,
    pub characteristics: u32,
}

impl ImageSectionHeader {
    /// The section header decoded from `raw` at `off`.
    pub open spec fn spec_load(raw: Seq<u8>, off: int) -> ImageSectionHeader {
        ImageSectionHeader {
            name: [
                byte_at(raw, off) as u8,
                byte_at(raw, off + 1) as u8,
                byte_at(raw, off + 2) as u8,
                byte_at(raw, off + 3) as u8,
                byte_at(raw, off + 4) as u8,
                byte_at(raw, off + 5) as u8,
                byte_at(raw, off + 6) as u8,
                byte_at(raw, off + 7) as u8,
            ],
            virtual_size: le_u32(raw, off + 8),
            virtual_address: le_u32(raw, off + 12),
            size_of_raw_data: le_u32(raw, off + 16),
            pointer_to_raw_data: le_u32(raw, off + 20),
            pointer_to_relocations: le_u32(raw, off + 24),
            pointer_to_linenumbers: le_u32(raw, off + 28),
            number_of_relocations: le_u16(raw, off + 32),
            number_of_linenumbers: le_u16(raw, off + 34),
            characteristics: le_u32(raw, off + 36),
        }
    }

    /// Decodes the section header at `off`.
    pub fn load(raw: &[u8], off: u64) -> (s: ImageSectionHeader)
        requires
            off + 40 <= u64::MAX,
        ensures
            s == Self::spec_load(raw@, off as int),
    {
        let name: [u8; 8] = [
            read_u8(raw, off),
            read_u8(raw, off + 1),
            read_u8(raw, off + 2),
            read_u8(raw, off + 3),
            read_u8(raw, off + 4),
            read_u8(raw, off + 5),
            read_u8(raw, off + 6),
            read_u8(raw, off + 7),
        ];
        ImageSectionHeader {
            name,
            virtual_size: read_u32_le(raw, off + 8),
            virtual_address: read_u32_le(raw, off + 12),
            size_of_raw_data: read_u32_le(raw, off + 16),
            pointer_to_raw_data: read_u32_le(raw, off + 20),
            pointer_to_relocations: read_u32_le(raw, off + 24),
            pointer_to_linenumbers: read_u32_le(raw, off + 28),
            number_of_relocations: read_u16_le(raw, off + 32),
            number_of_linenumbers: read_u16_le(raw, off + 34),
            characteristics: read_u32_le(raw, off + 36),
        }
    }

    /// The section's name: its bytes up to the first NUL, as lossy UTF-8.
    pub open spec fn spec_name(self) -> Seq<char> {
        c_string(self.name@, 0)
    }

    /// The section's name: its bytes up to the first NUL, as lossy UTF-8.
    pub fn get_name(&self) -> (s: String)
        ensures
            s@ == self.spec_name(),
    {
        crate::pe::readers::read_c_string(self.name.as_slice(), 0)
    }
}

/// The 32-bit (PE32) optional header.
#[derive(Clone, Debug)]
pub struct ImageOptionalHeader {
    pub magic: u16,
    pub major_linker_version: u8,
    pub minor_linker_version: u8,
    pub size_of_code: u32,
    pub size_of_initialized_data: u32,
    pub size_of_uninitialized_data: u32,
    pub address_of_entry_point: u32,
    pub base_of_code: u32,
    pub base_of_data: u32,
    pub image_base: u32,
    pub section_alignment: u32,
    pub file_alignment: u32,
    pub major_operating_system_version: u16,
    pub minor_operating_system_version: u16,
    pub major_image_version: u16,
    pub minor_image_version: u16,
    pub major_subsystem_version: u16,
    pub minor_subsystem_version: u16,
    pub win32_version_value: u32,
    pub size_of_image: u32,
    pub size_of_headers: u32,
    pub checksum: u32,
    pub subsystem: u16,
    pub dll_characteristics: u16,
    pub size_of_stack_reserve: u32,
    pub size_of_stack_commit: u32,
    pub size_of_heap_reserve: u32,
    pub size_of_heap_commit: u32,
    pub loader_flags: u32,
    pub number_of_rva_and_sizes: u32,
    pub data_directory: Vec<ImageDataDirectory>,
}

impl ImageOptionalHeader {
    /// `self` is the PE32 optional header decoded from `raw` at `off`.
    pub open spec fn loaded_from(&self, raw: Seq<u8>, off: int) -> bool {
        &&& self.magic == le_u16(raw, off)
        &&& self.major_linker_version as int == byte_at(raw, off + 2)
        &&& self.minor_linker_version as int == byte_at(raw, off + 3)
        &&& self.size_of_code == le_u32(raw, off + 4)
        &&& self.size_of_initialized_data == le_u32(raw, off + 8)
        &&& self.size_of_uninitialized_data == le_u32(raw, off + 12)
        &&& self.address_of_entry_point == le_u32(raw, off + 16)
        &&& self.base_of_code == le_u32(raw, off + 20)
        &&& self.base_of_data == le_u32(raw, off + 24)
        &&& self.image_base == le_u32(raw, off + 28)
        &&& self.section_alignment == le_u32(raw, off + 32)
        &&& self.file_alignment == le_u32(raw, off + 36)
        &&& self.major_operating_system_version == le_u16(raw, off + 40)
        &&& self.minor_operating_system_version == le_u16(raw, off + 42)
        &&& self.major_image_version == le_u16(raw, off + 44)
        &&& self.minor_image_version == le_u16(raw, off + 46)
        &&& self.major_subsystem_version == le_u16(raw, off + 48)
        &&& self.minor_subsystem_version == le_u16(raw, off + 50)
        &&& self.win32_version_value == le_u32(raw, off + 52)
        &&& self.size_of_image == le_u32(raw, off + 56)
        &&& self.size_of_headers == le_u32(raw, off + 60)
        &&& self.checksum == le_u32(raw, off + 64)
        &&& self.subsystem == le_u16(raw, off + 68)
        &&& self.dll_characteristics == le_u16(raw, off + 70)
        &&& self.size_of_stack_reserve == le_u32(raw, off + 72)
        &&& self.size_of_stack_commit == le_u32(raw, off + 76)
        &&& self.size_of_heap_reserve == le_u32(raw, off + 80)
        &&& self.size_of_heap_commit == le_u32(raw, off + 84)
        &&& self.loader_flags == le_u32(raw, off + 88)
        &&& self.number_of_rva_and_sizes == le_u32(raw, off + 92)
        &&& self.data_directory@ == spec_data_directories(raw, off + 96)
    }

    /// Decodes the PE32 optional header at `off`.
    pub fn load(raw: &[u8], off: u64) -> (h: ImageOptionalHeader)
        requires
            off + 224 <= u64::MAX,
        ensures
            h.loaded_from(raw@, off as int),
    {
        ImageOptionalHeader {
            magic: read_u16_le(raw, off),
            major_linker_version: read_u8(raw, off + 2),
            minor_linker_version: read_u8(raw, off + 3),
            size_of_code: read_u32_le(raw, off + 4),
            size_of_initialized_data: read_u32_le(raw, off + 8),
            size_of_uninitialized_data: read_u32_le(raw, off + 12),
            address_of_entry_point: read_u32_le(raw, off + 16),
            base_of_code: read_u32_le(raw, off + 20),
            base_of_data: read_u32_le(raw, off + 24),
            image_base: read_u32_le(raw, off + 28),
            section_alignment: read_u32_le(raw, off + 32),
            file_alignment: read_u32_le(raw, off + 36),
            major_operating_system_version: read_u16_le(raw, off + 40),
            minor_operating_system_version: read_u16_le(raw, off + 42),
            major_image_version: read_u16_le(raw, off + 44),
            minor_image_version: read_u16_le(raw, off + 46),
            major_subsystem_version: read_u16_le(raw, off + 48),
            minor_subsystem_version: read_u16_le(raw, off + 50),
            win32_version_value: read_u32_le(raw, off + 52),
            size_of_image: read_u32_le(raw, off + 56),
            size_of_headers: read_u32_le(raw, off + 60),
            checksum: read_u32_le(raw, off + 64),
            subsystem: read_u16_le(raw, off + 68),
            dll_characteristics: read_u16_le(raw, off + 70),
            size_of_stack_reserve: read_u32_le(raw, off + 72),
            size_of_stack_commit: read_u32_le(raw, off + 76),
            size_of_heap_reserve: read_u32_le(raw, off + 80),
            size_of_heap_commit: read_u32_le(raw, off + 84),
            loader_flags: read_u32_le(raw, off + 88),
            number_of_rva_and_sizes: read_u32_le(raw, off + 92),
            data_directory: load_data_directories(raw, off + 96),
        }
    }
}

/// A delay-load import descriptor (32 bytes), plus the DLL name it points at.
#[derive(Clone, Debug)]
pub struct DelayLoadDirectory {
    pub attributes: u32,
    pub name_ptr: u32,
    pub handle: u32,
    pub address_table: u32,
    pub name_table: u32,
    pub bound_delay_import_table: u32,
    pub unload_delay_import_table: u32,
    pub tstamp: u32,
    pub name: String,
}

impl DelayLoadDirectory {
    /// The integer fields of `self` are those decoded from `raw` at `off`.
    pub open spec fn fields_from(&self, raw: Seq<u8>, off: int) -> bool {
        &&& self.attributes == le_u32(raw, off)
        &&& self.name_ptr == le_u32(raw, off + 4)
        &&& self.handle == le_u32(raw, off + 8)
        &&& self.address_table == le_u32(raw, off + 12)
        &&& self.name_table == le_u32(raw, off + 16)
        &&& self.bound_delay_import_table == le_u32(raw, off + 20)
        &&& self.unload_delay_import_table == le_u32(raw, off + 24)
        &&& self.tstamp == le_u32(raw, off + 28)
    }

    /// Size in bytes of one descriptor on disk.
    pub open spec fn spec_size() -> usize {
        32
    }

    /// Size in bytes of one descriptor on disk.
    #[verifier::when_used_as_spec(spec_size)]
    pub fn size() -> (n: usize)
        ensures
            n == 32,
    {
        32
    }

    /// Decodes the descriptor at `off`; its name is left empty.
    pub fn load(raw: &[u8], off: u64) -> (d: DelayLoadDirectory)
        requires
            off + 32 <= u64::MAX,
        ensures
            d.fields_from(raw@, off as int),
            d.name@ == Seq::<char>::empty(),
    {
        DelayLoadDirectory {
            attributes: read_u32_le(raw, off),
            name_ptr: read_u32_le(raw, off + 4),
            handle: read_u32_le(raw, off + 8),
            address_table: read_u32_le(raw, off + 12),
            name_table: read_u32_le(raw, off + 16),
            bound_delay_import_table: read_u32_le(raw, off + 20),
            unload_delay_import_table: read_u32_le(raw, off + 24),
            tstamp: read_u32_le(raw, off + 28),
            name: String::new(),
        }
    }
}

/// An import descriptor (20 bytes), plus the DLL name it points at.
#[derive(Clone, Debug)]
pub struct ImageImportDescriptor {
    pub original_first_thunk: u32,
    pub time_date_stamp: u32,
    pub forwarder_chain: u32,
    pub name_ptr: u32,
    pub first_thunk: u32,
    pub name: String,
}

impl ImageImportDescriptor {
    /// The integer fields of `self` are those decoded from `raw` at `off`.
    pub open spec fn fields_from(&self, raw: Seq<u8>, off: int) -> bool {
        &&& self.original_first_thunk == le_u32(raw, off)
        &&& self.time_date_stamp == le_u32(raw, off + 4)
        &&& self.forwarder_chain == le_u32(raw, off + 8)
        &&& self.name_ptr == le_u32(raw, off + 12)
        &&& self.first_thunk == le_u32(raw, off + 16)
    }

    /// Size in bytes of one descriptor on disk.
    pub open spec fn spec_size() -> usize {
        20
    }

    /// Size in bytes of one descriptor on disk.
    #[verifier::when_used_as_spec(spec_size)]
    pub fn size() -> (n: usize)
        ensures
            n == 20,
    {
        20
    }

    /// Decodes the descriptor at `off`; its name is left empty.
    pub fn load(raw: &[u8], off: u64) -> (d: ImageImportDescriptor)
        requires
            off + 20 <= u64::MAX,
        ensures
            d.fields_from(raw@, off as int),
            d.name@ == Seq::<char>::empty(),
    {
        ImageImportDescriptor {
            original_first_thunk: read_u32_le(raw, off),
            time_date_stamp: read_u32_le(raw, off + 4),
            forwarder_chain: read_u32_le(raw, off + 8),
            name_ptr: read_u32_le(raw, off + 12),
            first_thunk: read_u32_le(raw, off + 16),
            name: String::new(),
        }
    }
}

/// One 32-bit entry of an import name table.
#[derive(Clone, Copy, Debug)]
pub struct HintNameItem {
    pub func_name_addr: u32,
}

impl HintNameItem {
    pub open spec fn spec_load(raw: Seq<u8>, off: int) -> HintNameItem {
        HintNameItem { func_name_addr: le_u32(raw, off) }
    }

    /// Size in bytes of one entry.
    pub open spec fn spec_size() -> usize {
        4
    }

    /// Size in bytes of one entry.
    #[verifier::when_used_as_spec(spec_size)]
    pub fn size() -> (n: usize)
        ensures
            n == 4,
    {
        4
    }

    /// Decodes the entry at `off`.
    pub fn load(raw: &[u8], off: u64) -> (h: HintNameItem)
        requires
            off + 4 <= u64::MAX,
        ensures
            h == Self::spec_load(raw@, off as int),
    {
        HintNameItem { func_name_addr: read_u32_le(raw, off) }
    }
}

} // verus!

verus! {

/// The first `n` section headers of a table that starts at `off`.
pub open spec fn spec_sections(raw: Seq<u8>, off: int, n: nat) -> Seq<ImageSectionHeader> {
    Seq::new(n, |k: int| ImageSectionHeader::spec_load(raw, off + SECTION_HEADER_SZ * k))
}

/// The file offset that `vaddr` maps to, scanning the section table from index
/// `i`: the first section whose `[virtual_address, virtual_address +
/// virtual_size)` holds `vaddr` decides; zero when that section has no file
/// bytes there, or when no section holds `vaddr`.
pub open spec fn spec_vaddr_to_off_from(sects: Seq<ImageSectionHeader>, vaddr: u32, i: int) -> u32
    decreases sects.len() - i,
{
    if i < 0 || i >= sects.len() {
        0
    } else {
        let s = sects[i];
        if vaddr >= s.virtual_address && vaddr < s.virtual_address + s.virtual_size {
            if vaddr - s.virtual_address >= s.size_of_raw_data {
                0
            } else {
                (s.pointer_to_raw_data + (vaddr - s.virtual_address)) as u32
            }
        } else {
            spec_vaddr_to_off_from(sects, vaddr, i + 1)
        }
    }
}

/// The scan of [`spec_vaddr_to_off_from`] does no 32-bit arithmetic that
/// overflows: each section end it computes, and the offset it returns, fit in
/// a `u32`.
pub open spec fn vaddr_to_off_ok_from(sects: Seq<ImageSectionHeader>, vaddr: u32, i: int) -> bool
    decreases sects.len() - i,
{
    if i < 0 || i >= sects.len() {
        true
    } else {
        let s = sects[i];
        if vaddr >= s.virtual_address {
            &&& s.virtual_address + s.virtual_size <= u32::MAX
            &&& if vaddr < s.virtual_address + s.virtual_size {
                vaddr - s.virtual_address >= s.size_of_raw_data || s.pointer_to_raw_data + (vaddr
                    - s.virtual_address) <= u32::MAX
            } else {
                vaddr_to_off_ok_from(sects, vaddr, i + 1)
            }
        } else {
            vaddr_to_off_ok_from(sects, vaddr, i + 1)
        }
    }
}

/// The file offset of virtual address `vaddr` under the section table `sects`.
pub open spec fn spec_vaddr_to_off(sects: Seq<ImageSectionHeader>, vaddr: u32) -> u32 {
    spec_vaddr_to_off_from(sects, vaddr, 0)
}

/// Mapping `vaddr` under `sects` does not overflow.
pub open spec fn vaddr_to_off_ok(sects: Seq<ImageSectionHeader>, vaddr: u32) -> bool {
    vaddr_to_off_ok_from(sects, vaddr, 0)
}

} // verus!

verus! {

/// A parsed PE32 image. It keeps only metadata: accessors that need the file
/// bytes take them as an argument.
pub struct PE32 {
    pub filename: String,
    pub dos: ImageDosHeader,
    pub fh: ImageFileHeader,
    pub nt: ImageNtHeaders,
    pub opt: ImageOptionalHeader,
    pub sect_hdr: Vec<ImageSectionHeader>,
    pub delay_load_dir: Vec<DelayLoadDirectory>,
    pub image_import_descriptor: Vec<ImageImportDescriptor>,
    /// Import address (or unresolved name-entry RVA) -> `"dll!function"`,
    /// filled in by binding.
    pub iat_names: HashMap<u32, String>,
}

impl PE32 {
    /// `self` and `other` agree on everything but the import-name table.
    pub open spec fn same_image(&self, other: &PE32) -> bool {
        &&& self.filename == other.filename
        &&& self.dos == other.dos
        &&& self.fh == other.fh
        &&& self.nt == other.nt
        &&& self.opt == other.opt
        &&& self.sect_hdr == other.sect_hdr
        &&& self.delay_load_dir == other.delay_load_dir
        &&& self.image_import_descriptor == other.image_import_descriptor
    }
}

} // verus!
