//! The 64-bit (PE32+) image: its optional header, TLS directory and parsed form.
use std::collections::HashMap;
use vstd::prelude::*;

use crate::pe::readers::{byte_at, le_u16, le_u32, le_u64, read_u16_le, read_u32_le, read_u64_le, read_u8};

pub use crate::pe::pe32::{
    spec_data_directories, load_data_directories, DelayLoadDirectory, HintNameItem,
    ImageDataDirectory, ImageDosHeader, ImageFileHeader, ImageImportDescriptor, ImageNtHeaders,
    ImageSectionHeader, IMAGE_DIRECTORY_ENTRY_BASERELOC, IMAGE_DIRECTORY_ENTRY_DELAY_LOAD,
    IMAGE_DIRECTORY_ENTRY_EXPORT, IMAGE_DIRECTORY_ENTRY_IAT, IMAGE_DIRECTORY_ENTRY_IMPORT,
    IMAGE_DIRECTORY_ENTRY_RESOURCE, IMAGE_DIRECTORY_ENTRY_TLS, IMAGE_FILE_DLL,
    IMAGE_NUMBEROF_DIRECTORY_ENTRIES, SECTION_HEADER_SZ,
};

pub mod binding;
pub mod parser;
pub mod relocation;
pub mod resource;

verus! {

/// The 64-bit (PE32+) optional header.
#[derive(Clone, Debug)]
pub struct ImageOptionalHeader64 {
    pub magic: u16,
    pub major_linker_version: u8,
    pub minor_linker_version: u8,
    pub size_of_code: u32,
    pub size_of_initialized_data: u32,
    pub size_of_uninitialized_data: u32,
    pub address_of_entry_point: u32,
    pub base_of_code: u32,
    pub image_base: u64,
    pub section_alignment: u32,
    pub file_alignment: u32,
    pub major_operating_system_version: u16,
    pub minor_operating_system_version: u16,
    pub major_image_version: u16,
    pub minor_image_version: u16,
    pub major_subsystem_version: u16,
    pub minor_subsystem_version: u16,
    pub win32_version_value: u32,
    pub size_of_image: u32,
    pub size_of_headers: u32,
    pub checksum: u32,
    pub subsystem: u16,
    pub dll_characteristics: u16,
    pub size_of_stack_reserve: u64,
    pub size_of_stack_commit: u64,
    pub size_of_heap_reserve: u64,
    pub size_of_heap_commit: u64,
    pub loader_flags: u32,
    pub number_of_rva_and_sizes: u32,
    pub data_directory: Vec<ImageDataDirectory>,
}

impl ImageOptionalHeader64 {
    /// `self` is the PE32+ optional header decoded from `raw` at `off`.
    pub open spec fn loaded_from(&self, raw: Seq<u8>, off: int) -> bool {
        &&& self.magic == le_u16(raw, off)
        &&& self.major_linker_version as int == byte_at(raw, off + 2)
        &&& self.minor_linker_version as int == byte_at(raw, off + 3)
        &&& self.size_of_code == le_u32(raw, off + 4)
        &&& self.size_of_initialized_data == le_u32(raw, off + 8)
        &&& self.size_of_uninitialized_data == le_u32(raw, off + 12)
        &&& self.address_of_entry_point == le_u32(raw, off + 16)
        &&& self.base_of_code == le_u32(raw, off + 20)
        &&& self.image_base == le_u64(raw, off + 24)
        &&& self.section_alignment == le_u32(raw, off + 32)
        &&& self.file_alignment == le_u32(raw, off + 36)
        &&& self.major_operating_system_version == le_u16(raw, off + 40)
        &&& self.minor_operating_system_version == le_u16(raw, off + 42)
        &&& self.major_image_version == le_u16(raw, off + 44)
        &&& self.minor_image_version == le_u16(raw, off + 46)
        &&& self.major_subsystem_version == le_u16(raw, off + 48)
        &&& self.minor_subsystem_version == le_u16(raw, off + 50)
        &&& self.win32_version_value == le_u32(raw, off + 52)
        &&& self.size_of_image == le_u32(raw, off + 56)
        &&& self.size_of_headers == le_u32(raw, off + 60)
        &&& self.checksum == le_u32(raw, off + 64)
        &&& self.subsystem == le_u16(raw, off + 68)
        &&& self.dll_characteristics == le_u16(raw, off + 70)
        &&& self.size_of_stack_reserve == le_u64(raw, off + 72)
        &&& self.size_of_stack_commit == le_u64(raw, off + 80)
        &&& self.size_of_heap_reserve == le_u64(raw, off + 88)
        &&& self.size_of_heap_commit == le_u64(raw, off + 96)
        &&& self.loader_flags == le_u32(raw, off + 104)
        &&& self.number_of_rva_and_sizes == le_u32(raw, off + 108)
        &&& self.data_directory@ == spec_data_directories(raw, off + 112)
    }

    /// Decodes the PE32+ optional header at `off`.
    pub fn load(raw: &[u8], off: u64) -> (h: ImageOptionalHeader64)
        requires
            off + 240 <= u64::MAX,
        ensures
            h.loaded_from(raw@, off as int),
    {
        ImageOptionalHeader64 {
            magic: read_u16_le(raw, off),
            major_linker_version: read_u8(raw, off + 2),
            minor_linker_version: read_u8(raw, off + 3),
            size_of_code: read_u32_le(raw, off + 4),
            size_of_initialized_data: read_u32_le(raw, off + 8),
            size_of_uninitialized_data: read_u32_le(raw, off + 12),
            address_of_entry_point: read_u32_le(raw, off + 16),
            base_of_code: read_u32_le(raw, off + 20),
            image_base: read_u64_le(raw, off + 24),
            section_alignment: read_u32_le(raw, off + 32),
            file_alignment: read_u32_le(raw, off + 36),
            major_operating_system_version: read_u16_le(raw, off + 40),
            minor_operating_system_version: read_u16_le(raw, off + 42),
            major_image_version: read_u16_le(raw, off + 44),
            minor_image_version: read_u16_le(raw, off + 46),
            major_subsystem_version: read_u16_le(raw, off + 48),
            minor_subsystem_version: read_u16_le(raw, off + 50),
            win32_version_value: read_u32_le(raw, off + 52),
            size_of_image: read_u32_le(raw, off + 56),
            size_of_headers: read_u32_le(raw, off + 60),
            checksum: read_u32_le(raw, off + 64),
            subsystem: read_u16_le(raw, off + 68),
            dll_characteristics: read_u16_le(raw, off + 70),
            size_of_stack_reserve: read_u64_le(raw, off + 72),
            size_of_stack_commit: read_u64_le(raw, off + 80),
            size_of_heap_reserve: read_u64_le(raw, off + 88),
            size_of_heap_commit: read_u64_le(raw, off + 96),
            loader_flags: read_u32_le(raw, off + 104),
            number_of_rva_and_sizes: read_u32_le(raw, off + 108),
            data_directory: load_data_directories(raw, off + 112),
        }
    }
}

/// The 64-bit TLS directory.
#[derive(Clone, Copy, Debug)]
pub struct TlsDirectory64 {
    pub tls_data_start: u64,
    pub tls_data_end: u64,
    pub tls_index: u64,
    pub tls_callbacks: u64,
    pub zero_fill_size: u32,
    pub characteristic: u32,
}

impl TlsDirectory64 {
    pub open spec fn spec_load(raw: Seq<u8>, off: int) -> TlsDirectory64 {
        TlsDirectory64 {
            tls_data_start: le_u64(raw, off),
            tls_data_end: le_u64(raw, off + 8),
            tls_index: le_u64(raw, off + 16),
            tls_callbacks: le_u64(raw, off + 24),
            zero_fill_size: le_u32(raw, off + 32),
            characteristic: le_u32(raw, off + 36),
        }
    }

    /// Decodes the TLS directory at `off`.
    pub fn load(raw: &[u8], off: u64) -> (t: TlsDirectory64)
        requires
            off + 40 <= u64::MAX,
        ensures
            t == Self::spec_load(raw@, off as int),
    {
        TlsDirectory64 {
            tls_data_start: read_u64_le(raw, off),
            tls_data_end: read_u64_le(raw, off + 8),
            tls_index: read_u64_le(raw, off + 16),
            tls_callbacks: read_u64_le(raw, off + 24),
            zero_fill_size: read_u32_le(raw, off + 32),
            characteristic: read_u32_le(raw, off + 36),
        }
    }
}

/// A parsed PE32+ image. It keeps only metadata: accessors that need the
/// file bytes take them as an argument.
pub struct PE64 {
    pub filename: String,
    pub dos: ImageDosHeader,
    pub fh: ImageFileHeader,
    pub nt: ImageNtHeaders,
    pub opt: ImageOptionalHeader64,
    pub sect_hdr: Vec<ImageSectionHeader>,
    pub delay_load_dir: Vec<DelayLoadDirectory>,
    pub image_import_descriptor: Vec<ImageImportDescriptor>,
    /// Resolved import address -> `"dll!function"`, filled in by binding.
    pub iat_names: HashMap<u64, String>,
}

impl PE64 {
    /// `self` and `other` agree on everything but the import-name table.
    pub open spec fn same_image(&self, other: &PE64) -> bool {
        &&& self.filename == other.filename
        &&& self.dos == other.dos
        &&& self.fh == other.fh
        &&& self.nt == other.nt
        &&& self.opt == other.opt
        &&& self.sect_hdr == other.sect_hdr
        &&& self.delay_load_dir == other.delay_load_dir
        &&& self.image_import_descriptor == other.image_import_descriptor
    }
}

} // verus!
