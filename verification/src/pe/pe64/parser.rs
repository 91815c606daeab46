//! Parsing a PE32+ image and the accessors over its parsed form.
use std::collections::HashMap;
use vstd::prelude::*;

use crate::pe::pe32::{
    spec_sections, spec_vaddr_to_off, spec_vaddr_to_off_from, vaddr_to_off_ok,
    vaddr_to_off_ok_from,
};
use crate::pe::readers::{
    c_string, le_u16, le_u32, le_u64, lemma_read_past_end, read_c_string, read_u32_le, read_u64_le,
};
use crate::pe::shared::{spec_pe_machine_type, IMAGE_FILE_MACHINE_AMD64, IMAGE_FILE_MACHINE_ARM64};
use super::{
    TlsDirectory64, IMAGE_DIRECTORY_ENTRY_IAT, IMAGE_DIRECTORY_ENTRY_TLS, IMAGE_FILE_DLL,
    DelayLoadDirectory, ImageDosHeader, ImageFileHeader, ImageImportDescriptor, ImageNtHeaders,
    ImageOptionalHeader64, ImageSectionHeader, PE64, IMAGE_DIRECTORY_ENTRY_DELAY_LOAD,
    IMAGE_DIRECTORY_ENTRY_IMPORT, SECTION_HEADER_SZ,
};

verus! {

/// Offset of the NT headers, from the DOS header's `e_lfanew`.
pub open spec fn spec_pe_off(raw: Seq<u8>) -> int {
    le_u32(raw, 60) as int
}

/// The COFF file header of the image in `raw`.
pub open spec fn spec_file_header(raw: Seq<u8>) -> ImageFileHeader {
    ImageFileHeader::spec_load(raw, spec_pe_off(raw) + 4)
}

/// File offset of the optional header.
pub open spec fn spec_opt_off(raw: Seq<u8>) -> int {
    spec_pe_off(raw) + 24
}

/// The section table of the image in `raw`: `number_of_sections` headers that
/// follow the optional header.
pub open spec fn spec_section_table(raw: Seq<u8>) -> Seq<ImageSectionHeader> {
    let fh = spec_file_header(raw);
    spec_sections(
        raw,
        spec_opt_off(raw) + fh.size_of_optional_header,
        fh.number_of_sections as nat,
    )
}

/// Offset of the data directories within a PE32+ optional header.
pub const DATA_DIRECTORY_OFFSET64: usize = 112;
/// Offset of the data directories within a PE32 optional header.
pub const DATA_DIRECTORY_OFFSET32: usize = 96;

/// `VirtualAddress` of data directory `idx`, the directories lying at
/// `dirs_rel` within the optional header.
pub open spec fn spec_dir_va(raw: Seq<u8>, dirs_rel: int, idx: int) -> u32 {
    le_u32(raw, spec_opt_off(raw) + dirs_rel + 8 * idx)
}

/// Offsets of the delay-load descriptors of a table at `off`: consecutive
/// 32-byte records up to the first whose handle or name pointer is zero.
pub open spec fn spec_delay_walk(raw: Seq<u8>, off: int) -> Seq<int>
    decreases raw.len() + 32 - off,
{
    if off < 0 || off >= raw.len() || le_u32(raw, off + 8) == 0 || le_u32(raw, off + 4) == 0 {
        Seq::empty()
    } else {
        seq![off] + spec_delay_walk(raw, off + 32)
    }
}

/// Offsets of the import descriptors of a table at `off`: consecutive 20-byte
/// records up to the first whose name pointer is zero.
pub open spec fn spec_import_walk(raw: Seq<u8>, off: int) -> Seq<int>
    decreases raw.len() + 20 - off,
{
    if off < 0 || off >= raw.len() || le_u32(raw, off + 12) == 0 {
        Seq::empty()
    } else {
        seq![off] + spec_import_walk(raw, off + 20)
    }
}

/// File offset of the table that data directory `va` points at, or zero when
/// the directory is absent or does not map into the file.
pub open spec fn spec_table_off(sects: Seq<ImageSectionHeader>, va: u32) -> int {
    if va > 0 {
        spec_vaddr_to_off(sects, va) as int
    } else {
        0
    }
}

/// The descriptor offsets of a table that starts at `start` (none when zero).
pub open spec fn spec_table(start: int, walk: Seq<int>) -> Seq<int> {
    if start > 0 {
        walk
    } else {
        Seq::empty()
    }
}

/// Offsets of the delay-load descriptors that parsing reads.
pub open spec fn spec_delay_descriptors(raw: Seq<u8>, dirs_rel: int) -> Seq<int> {
    let start = spec_table_off(
        spec_section_table(raw),
        spec_dir_va(raw, dirs_rel, IMAGE_DIRECTORY_ENTRY_DELAY_LOAD as int),
    );
    spec_table(start, spec_delay_walk(raw, start))
}

/// Offsets of the import descriptors that parsing reads.
pub open spec fn spec_import_descriptors(raw: Seq<u8>, dirs_rel: int) -> Seq<int> {
    let start = spec_table_off(
        spec_section_table(raw),
        spec_dir_va(raw, dirs_rel, IMAGE_DIRECTORY_ENTRY_IMPORT as int),
    );
    spec_table(start, spec_import_walk(raw, start))
}

/// A descriptor's name pointer maps without overflow to an offset no
/// larger than the file.
pub open spec fn name_ptr_ok(raw: Seq<u8>, sects: Seq<ImageSectionHeader>, ptr: u32) -> bool {
    vaddr_to_off_ok(sects, ptr) && spec_vaddr_to_off(sects, ptr) <= raw.len()
}

/// The name a descriptor's name pointer leads to.
pub open spec fn spec_descriptor_name(raw: Seq<u8>, sects: Seq<ImageSectionHeader>, ptr: u32) -> Seq<char> {
    c_string(raw, spec_vaddr_to_off(sects, ptr) as int)
}

/// The inputs on which [`PE64::parse`] runs to completion.
pub open spec fn parse_ok(raw: Seq<u8>) -> bool {
    tables_ok(raw, DATA_DIRECTORY_OFFSET64 as int)
}

/// Reading the import and delay-load tables runs to completion: the table
/// directories and every descriptor name pointer map without overflow,
/// and each name lies inside the file.
pub open spec fn tables_ok(raw: Seq<u8>, dirs_rel: int) -> bool {
    let sects = spec_section_table(raw);
    let delay_va = spec_dir_va(raw, dirs_rel, IMAGE_DIRECTORY_ENTRY_DELAY_LOAD as int);
    let import_va = spec_dir_va(raw, dirs_rel, IMAGE_DIRECTORY_ENTRY_IMPORT as int);
    &&& delay_va > 0 ==> vaddr_to_off_ok(sects, delay_va)
    &&& import_va > 0 ==> vaddr_to_off_ok(sects, import_va)
    &&& forall|k: int|
        0 <= k < spec_delay_descriptors(raw, dirs_rel).len() ==> name_ptr_ok(
            raw,
            sects,
            le_u32(raw, #[trigger] spec_delay_descriptors(raw, dirs_rel)[k] + 4),
        )
    &&& forall|k: int|
        0 <= k < spec_import_descriptors(raw, dirs_rel).len() ==> name_ptr_ok(
            raw,
            sects,
            le_u32(raw, #[trigger] spec_import_descriptors(raw, dirs_rel)[k] + 12),
        )
}

/// Memory footprint of the first `n` sections: for each, the larger of its
/// virtual size and its raw size.
pub open spec fn spec_mem_size(sects: Seq<ImageSectionHeader>, n: int) -> int
    decreases n,
{
    if n <= 0 || n > sects.len() {
        0
    } else {
        let s = sects[n - 1];
        spec_mem_size(sects, n - 1) + if s.virtual_size > s.size_of_raw_data {
            s.virtual_size as int
        } else {
            s.size_of_raw_data as int
        }
    }
}

/// Index of the first section, from `i` on, whose name is `name`; `None`
/// when there is none.
pub open spec fn spec_find_section(sects: Seq<ImageSectionHeader>, name: Seq<char>, i: int) -> Option<int>
    decreases sects.len() - i,
{
    if i < 0 || i >= sects.len() {
        None
    } else if sects[i].spec_name() == name {
        Some(i)
    } else {
        spec_find_section(sects, name, i + 1)
    }
}

/// The TLS callback pointers stored from file offset `off` on: consecutive
/// qwords up to the first zero one.
pub open spec fn spec_tls_walk(raw: Seq<u8>, off: int) -> Seq<u64>
    decreases raw.len() + 8 - off,
{
    if off < 0 || off >= raw.len() || le_u64(raw, off) == 0 {
        Seq::empty()
    } else {
        seq![le_u64(raw, off)] + spec_tls_walk(raw, off + 8)
    }
}

impl PE64 {
    /// `self` holds what parsing `raw` yields, before any binding.
    pub open spec fn parsed_from(&self, raw: Seq<u8>) -> bool {
        let sects = spec_section_table(raw);
        let delays = spec_delay_descriptors(raw, DATA_DIRECTORY_OFFSET64 as int);
        let imports = spec_import_descriptors(raw, DATA_DIRECTORY_OFFSET64 as int);
        &&& self.dos == ImageDosHeader::spec_load(raw, 0)
        &&& self.nt == ImageNtHeaders::spec_load(raw, spec_pe_off(raw))
        &&& self.fh == spec_file_header(raw)
        &&& self.opt.loaded_from(raw, spec_opt_off(raw))
        &&& self.sect_hdr@ == sects
        &&& self.delay_load_dir@.len() == delays.len()
        &&& forall|k: int|
            0 <= k < delays.len() ==> {
                &&& (#[trigger] self.delay_load_dir@[k]).fields_from(raw, delays[k])
                &&& self.delay_load_dir@[k].name@ == spec_descriptor_name(
                    raw,
                    sects,
                    self.delay_load_dir@[k].name_ptr,
                )
            }
        &&& self.image_import_descriptor@.len() == imports.len()
        &&& forall|k: int|
            0 <= k < imports.len() ==> {
                &&& (#[trigger] self.image_import_descriptor@[k]).fields_from(raw, imports[k])
                &&& self.image_import_descriptor@[k].name@ == spec_descriptor_name(
                    raw,
                    sects,
                    self.image_import_descriptor@[k].name_ptr,
                )
            }
        &&& self.iat_names@ == Map::<u64, String>::empty()
    }

    /// Parses the metadata of the PE32+ image in `raw`: the DOS, NT, file and
    /// optional headers, the section table, and the delay-load and import
    /// descriptors with their DLL names. The bytes are not kept.
    pub fn parse(filename: &str, raw: &[u8]) -> (p: PE64)
        requires
            raw@.len() <= isize::MAX,
            parse_ok(raw@),
        ensures
            p.filename@ == filename@,
            p.parsed_from(raw@),
    {
        let dos = ImageDosHeader::load(raw, 0);
        let pe_off = dos.e_lfanew as u64;
        let nt = ImageNtHeaders::load(raw, pe_off);
        let fh = ImageFileHeader::load(raw, pe_off + 4);
        let opt = ImageOptionalHeader64::load(raw, pe_off + 24);
        let first_off = pe_off + 24 + fh.size_of_optional_header as u64;
        let sect = load_sections(raw, first_off, fh.number_of_sections);
        assert(sect@ == spec_section_table(raw@));

        let import_va = opt.data_directory[IMAGE_DIRECTORY_ENTRY_IMPORT].virtual_address;
        let delay_load_va = opt.data_directory[IMAGE_DIRECTORY_ENTRY_DELAY_LOAD].virtual_address;

        let mut image_import_descriptor: Vec<ImageImportDescriptor> = Vec::new();
        let mut delay_load_dir: Vec<DelayLoadDirectory> = Vec::new();

        if delay_load_va > 0 {
            let delay_load_off = PE64::vaddr_to_off(&sect, delay_load_va);
            if delay_load_off > 0 {
                assert(spec_delay_descriptors(raw@, DATA_DIRECTORY_OFFSET64 as int) == spec_delay_walk(raw@, delay_load_off as int));
                delay_load_dir = load_delay_dirs(raw, &sect, delay_load_off as u64);
            }
        }
        if import_va > 0 {
            let import_off = PE64::vaddr_to_off(&sect, import_va);
            if import_off > 0 {
                assert(spec_import_descriptors(raw@, DATA_DIRECTORY_OFFSET64 as int) == spec_import_walk(raw@, import_off as int));
                image_import_descriptor = load_import_descriptors(raw, &sect, import_off as u64);
            }
        }

        PE64 {
            filename: String::from_str(filename),
            dos,
            fh,
            nt,
            opt,
            sect_hdr: sect,
            delay_load_dir,
            image_import_descriptor,
            iat_names: HashMap::new(),
        }
    }

    /// Maps virtual address `vaddr` to a file offset: the first section
    /// whose virtual range holds `vaddr` decides; zero when it has no file
    /// bytes there or no section holds `vaddr`.
    pub fn vaddr_to_off(sections: &Vec<ImageSectionHeader>, vaddr: u32) -> (off: u32)
        requires
            vaddr_to_off_ok(sections@, vaddr),
        ensures
            off == spec_vaddr_to_off(sections@, vaddr),
    {
        let mut i: usize = 0;
        while i < sections.len()
            invariant
                i <= sections.len(),
                vaddr_to_off_ok_from(sections@, vaddr, i as int),
                spec_vaddr_to_off_from(sections@, vaddr, 0) == spec_vaddr_to_off_from(
                    sections@,
                    vaddr,
                    i as int,
                ),
            decreases sections.len() - i,
        {
            let sect = &sections[i];
            if vaddr >= sect.virtual_address && vaddr < sect.virtual_address + sect.virtual_size {
                let offset_within_section = vaddr - sect.virtual_address;
                if offset_within_section >= sect.size_of_raw_data {
                    return 0;
                }
                return sect.pointer_to_raw_data + offset_within_section;
            }
            i = i + 1;
        }
        0
    }

    /// True when mapping `vaddr` through `sections` (as [`PE64::vaddr_to_off`]
    /// does) involves no 32-bit arithmetic that overflows.
    pub fn vaddr_to_off_fits(sections: &Vec<ImageSectionHeader>, vaddr: u32) -> (b: bool)
        ensures
            b == vaddr_to_off_ok(sections@, vaddr),
    {
        let mut i: usize = 0;
        while i < sections.len()
            invariant
                i <= sections.len(),
                vaddr_to_off_ok_from(sections@, vaddr, 0) == vaddr_to_off_ok_from(sections@, vaddr, i as int),
            decreases sections.len() - i,
        {
            let sect = &sections[i];
            if vaddr >= sect.virtual_address {
                if sect.virtual_address as u64 + sect.virtual_size as u64 > 0xffff_ffff {
                    return false;
                }
                if vaddr < sect.virtual_address + sect.virtual_size {
                    let o = vaddr - sect.virtual_address;
                    return o >= sect.size_of_raw_data || sect.pointer_to_raw_data as u64 + o as u64 <= 0xffff_ffff;
                }
            }
            i = i + 1;
        }
        true
    }

    /// True if `raw` is a 64-bit PE image (x86-64 or ARM64) by its COFF `Machine`.
    pub fn is_pe64(raw: &[u8]) -> (b: bool)
        ensures
            b == (spec_pe_machine_type(raw@) == Some(IMAGE_FILE_MACHINE_AMD64)
                || spec_pe_machine_type(raw@) == Some(IMAGE_FILE_MACHINE_ARM64)),
    {
        match crate::pe::shared::pe_machine_type(raw) {
            Some(m) => m == IMAGE_FILE_MACHINE_AMD64 || m == IMAGE_FILE_MACHINE_ARM64,
            None => false,
        }
    }

    /// Sum over the sections of the larger of virtual size and raw size.
    pub fn mem_size(&self) -> (sz: usize)
        requires
            spec_mem_size(self.sect_hdr@, self.sect_hdr@.len() as int) <= usize::MAX,
        ensures
            sz == spec_mem_size(self.sect_hdr@, self.sect_hdr@.len() as int),
    {
        let mut sz: usize = 0;
        let mut i: usize = 0;
        while i < self.sect_hdr.len()
            invariant
                i <= self.sect_hdr@.len(),
                sz == spec_mem_size(self.sect_hdr@, i as int),
                spec_mem_size(self.sect_hdr@, self.sect_hdr@.len() as int) <= usize::MAX,
            decreases self.sect_hdr@.len() - i,
        {
            proof {
                lemma_mem_size_monotonic(self.sect_hdr@, i as int + 1, self.sect_hdr@.len() as int);
            }
            let sect = &self.sect_hdr[i];
            if sect.virtual_size > sect.size_of_raw_data {
                sz = sz + sect.virtual_size as usize;
            } else {
                sz = sz + sect.size_of_raw_data as usize;
            }
            i = i + 1;
        }
        sz
    }

    /// True if the `IMAGE_FILE_DLL` characteristic is set.
    pub fn is_dll(&self) -> (b: bool)
        ensures
            b == (self.fh.characteristics & IMAGE_FILE_DLL != 0),
    {
        self.fh.characteristics & IMAGE_FILE_DLL != 0
    }

    /// The PE headers: the first `size_of_headers` bytes of `raw`.
    pub fn headers<'a>(&self, raw: &'a [u8]) -> (h: &'a [u8])
        requires
            self.opt.size_of_headers <= raw@.len(),
        ensures
            h@ == raw@.subrange(0, self.opt.size_of_headers as int),
    {
        &raw[0..self.opt.size_of_headers as usize]
    }

    /// The NUL-terminated string at `off` in `raw`, as lossy UTF-8.
    pub fn read_string(raw: &[u8], off: usize) -> (s: String)
        ensures
            s@ == c_string(raw@, off as int),
    {
        read_c_string(raw, off as u64)
    }

    /// Number of section headers.
    pub fn num_of_sections(&self) -> (n: usize)
        ensures
            n == self.sect_hdr@.len(),
    {
        self.sect_hdr.len()
    }

    /// The file bytes of the first section named `name`: `virtual_size` bytes
    /// from its raw-data pointer; `None` when no section has that name.
    pub fn get_section_ptr_by_name<'a>(&self, raw: &'a [u8], name: &str) -> (r: Option<&'a [u8]>)
        requires
            spec_find_section(self.sect_hdr@, name@, 0) matches Some(i) ==> self.sect_hdr@[i].pointer_to_raw_data
                + self.sect_hdr@[i].virtual_size <= raw@.len(),
        ensures
            match spec_find_section(self.sect_hdr@, name@, 0) {
                None => r is None,
                Some(i) => r matches Some(b) && b@ == raw@.subrange(
                    self.sect_hdr@[i].pointer_to_raw_data as int,
                    self.sect_hdr@[i].pointer_to_raw_data + self.sect_hdr@[i].virtual_size,
                ),
            },
    {
        let wanted = String::from_str(name);
        let mut i: usize = 0;
        while i < self.sect_hdr.len()
            invariant
                i <= self.sect_hdr@.len(),
                wanted@ == name@,
                spec_find_section(self.sect_hdr@, name@, 0) matches Some(j) ==> self.sect_hdr@[j].pointer_to_raw_data
                    + self.sect_hdr@[j].virtual_size <= raw@.len(),
                spec_find_section(self.sect_hdr@, name@, 0) == spec_find_section(
                    self.sect_hdr@,
                    name@,
                    i as int,
                ),
            decreases self.sect_hdr@.len() - i,
        {
            let sect = &self.sect_hdr[i];
            let sect_name = sect.get_name();
            if sect_name == wanted {
                assert(spec_find_section(self.sect_hdr@, name@, i as int) == Some(i as int));
                let off = sect.pointer_to_raw_data as usize;
                let sz = sect.virtual_size as usize;
                let raw_len = raw.len();
                assert(off + sz <= raw_len);
                return Some(&raw[off..off + sz]);
            }
            i = i + 1;
        }
        None
    }

    /// Section header number `id`.
    pub fn get_section(&self, id: usize) -> (s: &ImageSectionHeader)
        requires
            id < self.sect_hdr@.len(),
        ensures
            *s == self.sect_hdr@[id as int],
    {
        &self.sect_hdr[id]
    }

    /// Offset of the NT headers (`e_lfanew`).
    pub fn get_pe_off(&self) -> (off: u32)
        ensures
            off == self.dos.e_lfanew,
    {
        self.dos.e_lfanew
    }

    /// The file bytes of section `id`: `size_of_raw_data` bytes from its
    /// raw-data pointer, cut at the end of `raw` (empty when it starts past it).
    pub fn get_section_ptr<'a>(&self, raw: &'a [u8], id: usize) -> (r: &'a [u8])
        requires
            id < self.sect_hdr@.len(),
        ensures
            ({
                let off = self.sect_hdr@[id as int].pointer_to_raw_data as int;
                let sz = self.sect_hdr@[id as int].size_of_raw_data as int;
                r@ == if off + sz <= raw@.len() {
                    raw@.subrange(off, off + sz)
                } else if off > raw@.len() {
                    Seq::empty()
                } else {
                    raw@.subrange(off, raw@.len() as int)
                }
            }),
    {
        let off = self.sect_hdr[id].pointer_to_raw_data as usize;
        let sz = self.sect_hdr[id].size_of_raw_data as usize;
        if off as u64 + sz as u64 > raw.len() as u64 {
            if off > raw.len() {
                let empty: &[u8] = &[];
                assert(empty@ =~= Seq::<u8>::empty());
                return empty;
            }
            return &raw[off..raw.len()];
        }
        &raw[off..off + sz]
    }

    /// Virtual address of section `id`.
    pub fn get_section_vaddr(&self, id: usize) -> (va: u32)
        requires
            id < self.sect_hdr@.len(),
        ensures
            va == self.sect_hdr@[id as int].virtual_address,
    {
        self.sect_hdr[id].virtual_address
    }

    /// Offset that TLS callback scanning starts at: the TLS directory's
    /// callback pointer, cut to its low 16 bits and mapped to the file.
    pub open spec fn spec_tls_callbacks_off(&self, raw: Seq<u8>) -> u32 {
        let entry_tls = self.opt.data_directory@[IMAGE_DIRECTORY_ENTRY_TLS as int].virtual_address;
        let tls_off = spec_vaddr_to_off(self.sect_hdr@, entry_tls);
        let tls = TlsDirectory64::spec_load(raw, tls_off as int);
        spec_vaddr_to_off(self.sect_hdr@, (tls.tls_callbacks & 0xffff) as u32)
    }

    /// The inputs on which [`PE64::get_tls_callbacks`] runs to completion.
    pub open spec fn tls_callbacks_ok(&self, raw: Seq<u8>) -> bool {
        let dirs = self.opt.data_directory@;
        dirs.len() < IMAGE_DIRECTORY_ENTRY_TLS || {
            let entry_tls = dirs[IMAGE_DIRECTORY_ENTRY_TLS as int].virtual_address;
            let tls_off = spec_vaddr_to_off(self.sect_hdr@, entry_tls);
            let tls = TlsDirectory64::spec_load(raw, tls_off as int);
            let start = self.spec_tls_callbacks_off(raw);
            &&& dirs.len() > IMAGE_DIRECTORY_ENTRY_IAT
            &&& vaddr_to_off_ok(self.sect_hdr@, entry_tls)
            &&& vaddr_to_off_ok(self.sect_hdr@, (tls.tls_callbacks & 0xffff) as u32)
            &&& start + 8 * spec_tls_walk(raw, start as int).len() <= u32::MAX
        }
    }

    /// The TLS callbacks of the image in `raw`: none without a TLS directory
    /// entry, else the nonzero qwords from the callback array on. They depend
    /// on the image and its bytes alone.
    pub open spec fn spec_tls_callbacks(&self, raw: Seq<u8>) -> Seq<u64> {
        if self.opt.data_directory@.len() < IMAGE_DIRECTORY_ENTRY_TLS {
            Seq::empty()
        } else {
            spec_tls_walk(raw, self.spec_tls_callbacks_off(raw) as int)
        }
    }

    /// True when [`PE64::get_tls_callbacks`] can run on `raw`: its
    /// precondition [`PE64::tls_callbacks_ok`], checked.
    pub fn tls_callbacks_fit(&self, raw: &[u8]) -> (b: bool)
        ensures
            b == self.tls_callbacks_ok(raw@),
    {
        if self.opt.data_directory.len() < IMAGE_DIRECTORY_ENTRY_TLS {
            return true;
        }
        if self.opt.data_directory.len() <= IMAGE_DIRECTORY_ENTRY_IAT {
            return false;
        }
        let entry_tls = self.opt.data_directory[IMAGE_DIRECTORY_ENTRY_TLS].virtual_address;
        if !PE64::vaddr_to_off_fits(&self.sect_hdr, entry_tls) {
            return false;
        }
        let tls_off = PE64::vaddr_to_off(&self.sect_hdr, entry_tls);
        let tls = TlsDirectory64::load(raw, tls_off as u64);
        if !PE64::vaddr_to_off_fits(&self.sect_hdr, (tls.tls_callbacks & 0xffff) as u32) {
            return false;
        }
        let start = PE64::vaddr_to_off(&self.sect_hdr, (tls.tls_callbacks & 0xffff) as u32) as u64;
        let ghost walk = spec_tls_walk(raw@, start as int);
        let ghost mut n: int = 0;
        let mut cb_off: u64 = start;
        loop
            invariant
                start == self.spec_tls_callbacks_off(raw@),
                walk == spec_tls_walk(raw@, start as int),
                self.opt.data_directory@.len() > IMAGE_DIRECTORY_ENTRY_IAT,
                vaddr_to_off_ok(self.sect_hdr@, entry_tls),
                entry_tls == self.opt.data_directory@[IMAGE_DIRECTORY_ENTRY_TLS as int].virtual_address,
                vaddr_to_off_ok(self.sect_hdr@, (tls.tls_callbacks & 0xffff) as u32),
                tls == TlsDirectory64::spec_load(raw@, spec_vaddr_to_off(self.sect_hdr@, entry_tls) as int),
                cb_off == start + 8 * n,
                cb_off <= u32::MAX,
                walk.len() == n + spec_tls_walk(raw@, cb_off as int).len(),
            decreases u32::MAX - cb_off,
        {
            let v = read_u64_le(raw, cb_off);
            proof {
                if cb_off >= raw@.len() {
                    lemma_read_past_end(raw@, cb_off as int);
                }
            }
            if v == 0 {
                return true;
            }
            if cb_off + 8 > 0xffff_ffff {
                return false;
            }
            cb_off = cb_off + 8;
            proof {
                n = n + 1;
            }
        }
    }

    /// The TLS callback addresses: the zero-terminated qword array the TLS
    /// directory points at (by the low 16 bits of its callback pointer). Empty
    /// when the optional header has no TLS directory slot.
    pub fn get_tls_callbacks(&self, raw: &[u8], _vaddr: u32) -> (callbacks: Vec<u64>)
        requires
            self.tls_callbacks_ok(raw@),
        ensures
            callbacks@ == self.spec_tls_callbacks(raw@),
    {
        let mut callbacks: Vec<u64> = Vec::new();

        if self.opt.data_directory.len() < IMAGE_DIRECTORY_ENTRY_TLS {
            return callbacks;
        }

        let entry_tls = self.opt.data_directory[IMAGE_DIRECTORY_ENTRY_TLS].virtual_address;
        let _iat = self.opt.data_directory[IMAGE_DIRECTORY_ENTRY_IAT].virtual_address;

        let tls_off = PE64::vaddr_to_off(&self.sect_hdr, entry_tls);
        let tls = TlsDirectory64::load(raw, tls_off as u64);

        let start = PE64::vaddr_to_off(&self.sect_hdr, (tls.tls_callbacks & 0xffff) as u32);
        let ghost walk = spec_tls_walk(raw@, start as int);
        let mut cb_off = start;
        loop
            invariant_except_break
                callbacks@.len() <= walk.len(),
                cb_off == start + 8 * callbacks@.len(),
                spec_tls_walk(raw@, cb_off as int) == walk.skip(callbacks@.len() as int),
            invariant
                walk == spec_tls_walk(raw@, start as int),
                start + 8 * walk.len() <= u32::MAX,
                callbacks@ == walk.take(callbacks@.len() as int),
            ensures
                callbacks@ == walk,
            decreases walk.len() - callbacks@.len(),
        {
            let callback: u64 = read_u64_le(raw, cb_off as u64);
            if callback == 0 {
                assert(walk.skip(callbacks@.len() as int).len() == 0);
                assert(walk.take(callbacks@.len() as int) =~= walk);
                break;
            }
            proof {
                if cb_off >= raw@.len() {
                    lemma_read_past_end(raw@, cb_off as int);
                }
            }
            let ghost n = callbacks@.len() as int;
            assert(walk.skip(n) =~= seq![callback] + spec_tls_walk(raw@, cb_off + 8));
            assert(walk.skip(n)[0] == walk[n]);
            assert(walk.skip(n + 1) =~= walk.skip(n).skip(1));
            assert(walk.skip(n).skip(1) =~= spec_tls_walk(raw@, cb_off + 8));
            callbacks.push(callback);
            assert(callbacks@ =~= walk.take(n + 1));
            cb_off = cb_off + 8;
        }

        callbacks
    }
}

/// Reads the delay-load descriptors of the table at `start`, naming each.
pub(crate) fn load_delay_dirs(raw: &[u8], sect: &Vec<ImageSectionHeader>, start: u64) -> (v: Vec<
    DelayLoadDirectory,
>)
    requires
        start <= u32::MAX,
        raw@.len() <= isize::MAX,
        forall|k: int|
            0 <= k < spec_delay_walk(raw@, start as int).len() ==> name_ptr_ok(
                raw@,
                sect@,
                le_u32(raw@, #[trigger] spec_delay_walk(raw@, start as int)[k] + 4),
            ),
    ensures
        v@.len() == spec_delay_walk(raw@, start as int).len(),
        forall|k: int|
            0 <= k < v@.len() ==> {
                &&& (#[trigger] v@[k]).fields_from(raw@, spec_delay_walk(raw@, start as int)[k])
                &&& v@[k].name@ == spec_descriptor_name(raw@, sect@, v@[k].name_ptr)
            },
{
    let ghost walk = spec_delay_walk(raw@, start as int);
    let mut v: Vec<DelayLoadDirectory> = Vec::new();
    let mut cur: u64 = start;
    loop
        invariant_except_break
            cur <= u32::MAX || cur < raw@.len() + 32,
            v@.len() <= walk.len(),
            spec_delay_walk(raw@, cur as int) == walk.skip(v@.len() as int),
        invariant
            raw@.len() <= isize::MAX,
            walk == spec_delay_walk(raw@, start as int),
            forall|k: int|
                0 <= k < walk.len() ==> name_ptr_ok(raw@, sect@, le_u32(raw@, #[trigger] walk[k] + 4)),
            forall|k: int|
                0 <= k < v@.len() ==> {
                    &&& (#[trigger] v@[k]).fields_from(raw@, walk[k])
                    &&& v@[k].name@ == spec_descriptor_name(raw@, sect@, v@[k].name_ptr)
                },
        ensures
            v@.len() == walk.len(),
        decreases walk.len() - v@.len(),
    {
        let mut d = DelayLoadDirectory::load(raw, cur);
        if d.handle == 0 || d.name_ptr == 0 {
            assert(walk.skip(v@.len() as int).len() == 0);
            break;
        }
        proof {
            if cur >= raw.len() {
                lemma_read_past_end(raw@, cur + 8);
            }
        }
        let ghost n = v@.len() as int;
        assert(walk.skip(n) =~= seq![cur as int] + spec_delay_walk(raw@, cur + 32));
        assert(walk.skip(n)[0] == walk[n]);
        assert(walk.skip(n + 1) =~= walk.skip(n).skip(1));
        assert(walk.skip(n).skip(1) =~= spec_delay_walk(raw@, cur + 32));
        let off = PE64::vaddr_to_off(sect, d.name_ptr);
        d.name = read_c_string(raw, off as u64);
        v.push(d);
        cur = cur + 32;
    }
    v
}

/// True when the name pointer `ptr` maps without overflow to an offset no
/// larger than the file ([`name_ptr_ok`]).
fn name_ptr_fits(raw: &[u8], sect: &Vec<ImageSectionHeader>, ptr: u32) -> (b: bool)
    ensures
        b == name_ptr_ok(raw@, sect@, ptr),
{
    PE64::vaddr_to_off_fits(sect, ptr) && PE64::vaddr_to_off(sect, ptr) as usize <= raw.len()
}

/// True when every delay-load descriptor of the table at `start` has a name
/// pointer that [`name_ptr_ok`] accepts.
fn delay_names_fit(raw: &[u8], sect: &Vec<ImageSectionHeader>, start: u64) -> (b: bool)
    requires
        start <= u32::MAX,
        raw@.len() <= isize::MAX,
    ensures
        b == (forall|k: int|
            0 <= k < spec_delay_walk(raw@, start as int).len() ==> name_ptr_ok(
                raw@,
                sect@,
                le_u32(raw@, #[trigger] spec_delay_walk(raw@, start as int)[k] + 4),
            )),
{
    let ghost walk = spec_delay_walk(raw@, start as int);
    let ghost mut n: int = 0;
    let mut cur: u64 = start;
    loop
        invariant
            cur <= u32::MAX || cur < raw@.len() + 32,
            raw@.len() <= isize::MAX,
            0 <= n <= walk.len(),
            walk == spec_delay_walk(raw@, start as int),
            spec_delay_walk(raw@, cur as int) == walk.skip(n),
            forall|k: int| 0 <= k < n ==> name_ptr_ok(raw@, sect@, le_u32(raw@, #[trigger] walk[k] + 4)),
        decreases walk.len() - n,
    {
        let handle = read_u32_le(raw, cur + 8);
        let name_ptr = read_u32_le(raw, cur + 4);
        proof {
            if cur >= raw.len() {
                lemma_read_past_end(raw@, cur + 8);
                lemma_read_past_end(raw@, cur + 4);
            }
        }
        if handle == 0 || name_ptr == 0 {
            assert(walk.skip(n).len() == 0);
            return true;
        }
        assert(walk.skip(n) =~= seq![cur as int] + spec_delay_walk(raw@, cur + 32));
        assert(walk.skip(n)[0] == walk[n]);
        if !name_ptr_fits(raw, sect, name_ptr) {
            return false;
        }
        assert(walk.skip(n + 1) =~= walk.skip(n).skip(1));
        assert(walk.skip(n).skip(1) =~= spec_delay_walk(raw@, cur + 32));
        cur = cur + 32;
        proof {
            n = n + 1;
        }
    }
}

/// True when every import descriptor of the table at `start` has a name
/// pointer that [`name_ptr_ok`] accepts.
fn import_names_fit(raw: &[u8], sect: &Vec<ImageSectionHeader>, start: u64) -> (b: bool)
    requires
        start <= u32::MAX,
        raw@.len() <= isize::MAX,
    ensures
        b == (forall|k: int|
            0 <= k < spec_import_walk(raw@, start as int).len() ==> name_ptr_ok(
                raw@,
                sect@,
                le_u32(raw@, #[trigger] spec_import_walk(raw@, start as int)[k] + 12),
            )),
{
    let ghost walk = spec_import_walk(raw@, start as int);
    let ghost mut n: int = 0;
    let mut cur: u64 = start;
    loop
        invariant
            cur <= u32::MAX || cur < raw@.len() + 20,
            raw@.len() <= isize::MAX,
            0 <= n <= walk.len(),
            walk == spec_import_walk(raw@, start as int),
            spec_import_walk(raw@, cur as int) == walk.skip(n),
            forall|k: int| 0 <= k < n ==> name_ptr_ok(raw@, sect@, le_u32(raw@, #[trigger] walk[k] + 12)),
        decreases walk.len() - n,
    {
        let name_ptr = read_u32_le(raw, cur + 12);
        proof {
            if cur >= raw.len() {
                lemma_read_past_end(raw@, cur + 12);
            }
        }
        if name_ptr == 0 {
            assert(walk.skip(n).len() == 0);
            return true;
        }
        assert(walk.skip(n) =~= seq![cur as int] + spec_import_walk(raw@, cur + 20));
        assert(walk.skip(n)[0] == walk[n]);
        if !name_ptr_fits(raw, sect, name_ptr) {
            return false;
        }
        assert(walk.skip(n + 1) =~= walk.skip(n).skip(1));
        assert(walk.skip(n).skip(1) =~= spec_import_walk(raw@, cur + 20));
        cur = cur + 20;
        proof {
            n = n + 1;
        }
    }
}

impl PE64 {
    /// True when [`PE64::parse`] can run on `raw`: its precondition
    /// [`parse_ok`], checked.
    pub fn parse_fits(raw: &[u8]) -> (b: bool)
        requires
            raw@.len() <= isize::MAX,
        ensures
            b == parse_ok(raw@),
    {
        let dos = ImageDosHeader::load(raw, 0);
        let pe_off = dos.e_lfanew as u64;
        let fh = ImageFileHeader::load(raw, pe_off + 4);
        let opt = ImageOptionalHeader64::load(raw, pe_off + 24);
        let first_off = pe_off + 24 + fh.size_of_optional_header as u64;
        let sect = load_sections(raw, first_off, fh.number_of_sections);
        assert(sect@ == spec_section_table(raw@));
        let import_va = opt.data_directory[IMAGE_DIRECTORY_ENTRY_IMPORT].virtual_address;
        let delay_load_va = opt.data_directory[IMAGE_DIRECTORY_ENTRY_DELAY_LOAD].virtual_address;
        let mut delay_ok = true;
        if delay_load_va > 0 {
            if !PE64::vaddr_to_off_fits(&sect, delay_load_va) {
                return false;
            }
            let delay_load_off = PE64::vaddr_to_off(&sect, delay_load_va);
            if delay_load_off > 0 {
                assert(spec_delay_descriptors(raw@, DATA_DIRECTORY_OFFSET64 as int) == spec_delay_walk(
                    raw@,
                    delay_load_off as int,
                ));
                delay_ok = delay_names_fit(raw, &sect, delay_load_off as u64);
            } else {
                assert(spec_delay_descriptors(raw@, DATA_DIRECTORY_OFFSET64 as int).len() == 0);
            }
        } else {
            assert(spec_delay_descriptors(raw@, DATA_DIRECTORY_OFFSET64 as int).len() == 0);
        }
        let mut import_ok = true;
        if import_va > 0 {
            if !PE64::vaddr_to_off_fits(&sect, import_va) {
                return false;
            }
            let import_off = PE64::vaddr_to_off(&sect, import_va);
            if import_off > 0 {
                assert(spec_import_descriptors(raw@, DATA_DIRECTORY_OFFSET64 as int) == spec_import_walk(
                    raw@,
                    import_off as int,
                ));
                import_ok = import_names_fit(raw, &sect, import_off as u64);
            } else {
                assert(spec_import_descriptors(raw@, DATA_DIRECTORY_OFFSET64 as int).len() == 0);
            }
        } else {
            assert(spec_import_descriptors(raw@, DATA_DIRECTORY_OFFSET64 as int).len() == 0);
        }
        delay_ok && import_ok
    }
}

/// Reads the import descriptors of the table at `start`, naming each.
pub(crate) fn load_import_descriptors(raw: &[u8], sect: &Vec<ImageSectionHeader>, start: u64) -> (v: Vec<
    ImageImportDescriptor,
>)
    requires
        start <= u32::MAX,
        raw@.len() <= isize::MAX,
        forall|k: int|
            0 <= k < spec_import_walk(raw@, start as int).len() ==> name_ptr_ok(
                raw@,
                sect@,
                le_u32(raw@, #[trigger] spec_import_walk(raw@, start as int)[k] + 12),
            ),
    ensures
        v@.len() == spec_import_walk(raw@, start as int).len(),
        forall|k: int|
            0 <= k < v@.len() ==> {
                &&& (#[trigger] v@[k]).fields_from(raw@, spec_import_walk(raw@, start as int)[k])
                &&& v@[k].name@ == spec_descriptor_name(raw@, sect@, v@[k].name_ptr)
            },
{
    let ghost walk = spec_import_walk(raw@, start as int);
    let mut v: Vec<ImageImportDescriptor> = Vec::new();
    let mut cur: u64 = start;
    loop
        invariant_except_break
            cur <= u32::MAX || cur < raw@.len() + 20,
            v@.len() <= walk.len(),
            spec_import_walk(raw@, cur as int) == walk.skip(v@.len() as int),
        invariant
            raw@.len() <= isize::MAX,
            walk == spec_import_walk(raw@, start as int),
            forall|k: int|
                0 <= k < walk.len() ==> name_ptr_ok(raw@, sect@, le_u32(raw@, #[trigger] walk[k] + 12)),
            forall|k: int|
                0 <= k < v@.len() ==> {
                    &&& (#[trigger] v@[k]).fields_from(raw@, walk[k])
                    &&& v@[k].name@ == spec_descriptor_name(raw@, sect@, v@[k].name_ptr)
                },
        ensures
            v@.len() == walk.len(),
        decreases walk.len() - v@.len(),
    {
        let mut d = ImageImportDescriptor::load(raw, cur);
        if d.name_ptr == 0 {
            assert(walk.skip(v@.len() as int).len() == 0);
            break;
        }
        proof {
            if cur >= raw.len() {
                lemma_read_past_end(raw@, cur + 12);
            }
        }
        let ghost n = v@.len() as int;
        assert(walk.skip(n) =~= seq![cur as int] + spec_import_walk(raw@, cur + 20));
        assert(walk.skip(n)[0] == walk[n]);
        assert(walk.skip(n + 1) =~= walk.skip(n).skip(1));
        assert(walk.skip(n).skip(1) =~= spec_import_walk(raw@, cur + 20));
        let off = PE64::vaddr_to_off(sect, d.name_ptr);
        d.name = read_c_string(raw, off as u64);
        v.push(d);
        cur = cur + 20;
    }
    v
}

/// Reads `n` consecutive section headers starting at `first_off`.
pub(crate) fn load_sections(raw: &[u8], first_off: u64, n: u16) -> (sect: Vec<ImageSectionHeader>)
    requires
        first_off <= u32::MAX + 24 + u16::MAX,
    ensures
        sect@ == spec_sections(raw@, first_off as int, n as nat),
{
    let mut sect: Vec<ImageSectionHeader> = Vec::new();
    let mut off = first_off;
    let mut k: u16 = 0;
    while k < n
        invariant
            k <= n,
            off == first_off + SECTION_HEADER_SZ * k,
            first_off <= u32::MAX + 24 + u16::MAX,
            sect@ =~= spec_sections(raw@, first_off as int, k as nat),
        decreases n - k,
    {
        let s = ImageSectionHeader::load(raw, off);
        sect.push(s);
        off = off + SECTION_HEADER_SZ as u64;
        k = k + 1;
    }
    sect
}

pub proof fn lemma_mem_size_monotonic(sects: Seq<ImageSectionHeader>, i: int, j: int)
    requires
        0 <= i <= j <= sects.len(),
    ensures
        spec_mem_size(sects, i) <= spec_mem_size(sects, j),
    decreases j - i,
{
    if i < j {
        lemma_mem_size_monotonic(sects, i, j - 1);
    }
}

/// Law: a nonzero file offset that address mapping yields points into
/// the file bytes of a section whose virtual range holds the address, at the
/// address's distance from the section start.
pub proof fn lemma_vaddr_to_off_in_section(sects: Seq<ImageSectionHeader>, vaddr: u32)
    requires
        vaddr_to_off_ok(sects, vaddr),
        spec_vaddr_to_off(sects, vaddr) != 0,
    ensures
        exists|i: int|
            0 <= i < sects.len() && {
                let s = #[trigger] sects[i];
                &&& s.virtual_address <= vaddr < s.virtual_address + s.virtual_size
                &&& vaddr - s.virtual_address < s.size_of_raw_data
                &&& spec_vaddr_to_off(sects, vaddr) == s.pointer_to_raw_data + (vaddr
                    - s.virtual_address)
            },
{
    lemma_vaddr_to_off_from_in_section(sects, vaddr, 0);
}

proof fn lemma_vaddr_to_off_from_in_section(sects: Seq<ImageSectionHeader>, vaddr: u32, i: int)
    requires
        0 <= i,
        vaddr_to_off_ok_from(sects, vaddr, i),
        spec_vaddr_to_off_from(sects, vaddr, i) != 0,
    ensures
        exists|n: int|
            i <= n < sects.len() && {
                let s = #[trigger] sects[n];
                &&& s.virtual_address <= vaddr < s.virtual_address + s.virtual_size
                &&& vaddr - s.virtual_address < s.size_of_raw_data
                &&& spec_vaddr_to_off_from(sects, vaddr, i) == s.pointer_to_raw_data + (vaddr
                    - s.virtual_address)
            },
    decreases sects.len() - i,
{
    let s = sects[i];
    if !(vaddr >= s.virtual_address && vaddr < s.virtual_address + s.virtual_size) {
        lemma_vaddr_to_off_from_in_section(sects, vaddr, i + 1);
    } else {
        assert(sects[i] == s);
    }
}

/// Law: a parsed image holds one section header per section its file header
/// declares, and no recorded import names.
pub proof fn lemma_parsed_section_count(pe: &PE64, raw: Seq<u8>)
    requires
        pe.parsed_from(raw),
    ensures
        pe.sect_hdr@.len() == pe.fh.number_of_sections,
        pe.iat_names@.len() == 0,
{
}


/// Law (import descriptor layout): the table walk starting at `off` visits
/// consecutive 20-byte records, the `k`-th at `off + 20 * k`, each inside the
/// file with a nonzero name pointer, and it ends exactly at the first record
/// that lies past the file or has a zero name pointer.
pub proof fn lemma_import_walk_layout(raw: Seq<u8>, off: int)
    requires
        off >= 0,
    ensures
        forall|k: int|
            0 <= k < spec_import_walk(raw, off).len() ==> {
                &&& #[trigger] spec_import_walk(raw, off)[k] == off + 20 * k
                &&& off + 20 * k < raw.len()
                &&& le_u32(raw, off + 20 * k + 12) != 0
            },
        ({
            let n = spec_import_walk(raw, off).len();
            off + 20 * n >= raw.len() || le_u32(raw, off + 20 * n + 12) == 0
        }),
    decreases raw.len() + 20 - off,
{
    if !(off >= raw.len() || le_u32(raw, off + 12) == 0) {
        lemma_import_walk_layout(raw, off + 20);
        let w = spec_import_walk(raw, off);
        let w2 = spec_import_walk(raw, off + 20);
        assert forall|k: int| 0 <= k < w.len() implies {
            &&& #[trigger] w[k] == off + 20 * k
            &&& off + 20 * k < raw.len()
            &&& le_u32(raw, off + 20 * k + 12) != 0
        } by {
            if k > 0 {
                assert(w[k] == w2[k - 1]);
            }
        }
        assert(off + 20 * w.len() == (off + 20) + 20 * w2.len());
    }
}

/// Law (delay-load descriptor layout): the table walk starting at `off`
/// visits consecutive 32-byte records, the `k`-th at `off + 32 * k`, each
/// inside the file with nonzero handle and name pointer, and it ends exactly
/// at the first record that lies past the file or has a zero handle or name
/// pointer.
pub proof fn lemma_delay_walk_layout(raw: Seq<u8>, off: int)
    requires
        off >= 0,
    ensures
        forall|k: int|
            0 <= k < spec_delay_walk(raw, off).len() ==> {
                &&& #[trigger] spec_delay_walk(raw, off)[k] == off + 32 * k
                &&& off + 32 * k < raw.len()
                &&& le_u32(raw, off + 32 * k + 8) != 0
                &&& le_u32(raw, off + 32 * k + 4) != 0
            },
        ({
            let n = spec_delay_walk(raw, off).len();
            off + 32 * n >= raw.len() || le_u32(raw, off + 32 * n + 8) == 0 || le_u32(raw, off + 32 * n + 4) == 0
        }),
    decreases raw.len() + 32 - off,
{
    if !(off >= raw.len() || le_u32(raw, off + 8) == 0 || le_u32(raw, off + 4) == 0) {
        lemma_delay_walk_layout(raw, off + 32);
        let w = spec_delay_walk(raw, off);
        let w2 = spec_delay_walk(raw, off + 32);
        assert forall|k: int| 0 <= k < w.len() implies {
            &&& #[trigger] w[k] == off + 32 * k
            &&& off + 32 * k < raw.len()
            &&& le_u32(raw, off + 32 * k + 8) != 0
            &&& le_u32(raw, off + 32 * k + 4) != 0
        } by {
            if k > 0 {
                assert(w[k] == w2[k - 1]);
            }
        }
        assert(off + 32 * w.len() == (off + 32) + 32 * w2.len());
    }
}

/// Law (parsed import descriptors): the `k`-th import descriptor of a parsed
/// image is decoded from the import table's file offset plus `20 * k`, has a
/// nonzero name pointer, and the descriptors end at the first record past the
/// file or with a zero name pointer (none without an import table in the file).
pub proof fn lemma_parsed_import_descriptors(p: &PE64, raw: Seq<u8>)
    requires
        p.parsed_from(raw),
    ensures
        ({
            let t = spec_table_off(
                spec_section_table(raw),
                spec_dir_va(raw, DATA_DIRECTORY_OFFSET64 as int, IMAGE_DIRECTORY_ENTRY_IMPORT as int),
            );
            let n = p.image_import_descriptor@.len();
            &&& forall|k: int|
                0 <= k < n ==> {
                    &&& (#[trigger] p.image_import_descriptor@[k]).fields_from(raw, t + 20 * k)
                    &&& p.image_import_descriptor@[k].name_ptr != 0
                }
            &&& t > 0 ==> (t + 20 * n >= raw.len() || le_u32(raw, t + 20 * n + 12) == 0)
            &&& t <= 0 ==> n == 0
        }),
{
    let t = spec_table_off(
        spec_section_table(raw),
        spec_dir_va(raw, DATA_DIRECTORY_OFFSET64 as int, IMAGE_DIRECTORY_ENTRY_IMPORT as int),
    );
    if t > 0 {
        lemma_import_walk_layout(raw, t);
        let w = spec_import_walk(raw, t);
        assert forall|k: int| 0 <= k < p.image_import_descriptor@.len() implies {
            &&& (#[trigger] p.image_import_descriptor@[k]).fields_from(raw, t + 20 * k)
            &&& p.image_import_descriptor@[k].name_ptr != 0
        } by {
            assert(w[k] == t + 20 * k);
        }
    }
}

/// Law (parsed delay-load descriptors): the `k`-th delay-load descriptor of a
/// parsed image is decoded from the delay-load table's file offset plus
/// `32 * k`, with nonzero handle and name pointer, and the descriptors end at
/// the first record past the file or with a zero handle or name pointer.
pub proof fn lemma_parsed_delay_descriptors(p: &PE64, raw: Seq<u8>)
    requires
        p.parsed_from(raw),
    ensures
        ({
            let t = spec_table_off(
                spec_section_table(raw),
                spec_dir_va(raw, DATA_DIRECTORY_OFFSET64 as int, IMAGE_DIRECTORY_ENTRY_DELAY_LOAD as int),
            );
            let n = p.delay_load_dir@.len();
            &&& forall|k: int|
                0 <= k < n ==> {
                    &&& (#[trigger] p.delay_load_dir@[k]).fields_from(raw, t + 32 * k)
                    &&& p.delay_load_dir@[k].name_ptr != 0
                    &&& p.delay_load_dir@[k].handle != 0
                }
            &&& t > 0 ==> (t + 32 * n >= raw.len() || le_u32(raw, t + 32 * n + 8) == 0 || le_u32(
                raw,
                t + 32 * n + 4,
            ) == 0)
            &&& t <= 0 ==> n == 0
        }),
{
    let t = spec_table_off(
        spec_section_table(raw),
        spec_dir_va(raw, DATA_DIRECTORY_OFFSET64 as int, IMAGE_DIRECTORY_ENTRY_DELAY_LOAD as int),
    );
    if t > 0 {
        lemma_delay_walk_layout(raw, t);
        let w = spec_delay_walk(raw, t);
        assert forall|k: int| 0 <= k < p.delay_load_dir@.len() implies {
            &&& (#[trigger] p.delay_load_dir@[k]).fields_from(raw, t + 32 * k)
            &&& p.delay_load_dir@[k].name_ptr != 0
            &&& p.delay_load_dir@[k].handle != 0
        } by {
            assert(w[k] == t + 32 * k);
        }
    }
}

} // verus!
