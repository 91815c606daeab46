//! Parsing a PE32 image and the accessors over its parsed form.
use std::collections::HashMap;
use vstd::prelude::*;

use crate::pe::pe64::parser::{
    load_delay_dirs, load_import_descriptors, load_sections, spec_delay_descriptors,
    spec_delay_walk, spec_descriptor_name, spec_file_header, spec_import_descriptors,
    spec_import_walk, spec_opt_off, spec_pe_off, spec_section_table, tables_ok,
    DATA_DIRECTORY_OFFSET32, spec_table_off, spec_dir_va, lemma_import_walk_layout,
    lemma_delay_walk_layout,
};
use crate::pe::pe64::PE64;
use crate::pe::readers::{c_string, le_u32};
use super::{
    spec_vaddr_to_off, vaddr_to_off_ok, DelayLoadDirectory, ImageDosHeader, ImageFileHeader,
    ImageImportDescriptor, ImageNtHeaders, ImageOptionalHeader, ImageSectionHeader, PE32,
    IMAGE_DIRECTORY_ENTRY_DELAY_LOAD, IMAGE_DIRECTORY_ENTRY_IMPORT,
};

verus! {

impl PE32 {
    /// `self` holds what parsing `raw` as a PE32 image yields, before any
    /// binding.
    pub open spec fn parsed_from(&self, raw: Seq<u8>) -> bool {
        let sects = spec_section_table(raw);
        let delays = spec_delay_descriptors(raw, DATA_DIRECTORY_OFFSET32 as int);
        let imports = spec_import_descriptors(raw, DATA_DIRECTORY_OFFSET32 as int);
        &&& self.dos == ImageDosHeader::spec_load(raw, 0)
        &&& self.nt == ImageNtHeaders::spec_load(raw, spec_pe_off(raw))
        &&& self.fh == spec_file_header(raw)
        &&& self.opt.loaded_from(raw, spec_opt_off(raw))
        &&& self.sect_hdr@ == sects
        &&& self.delay_load_dir@.len() == delays.len()
        &&& forall|k: int|
            0 <= k < delays.len() ==> {
                &&& (#[trigger] self.delay_load_dir@[k]).fields_from(raw, delays[k])
                &&& self.delay_load_dir@[k].name@ == spec_descriptor_name(
                    raw,
                    sects,
                    self.delay_load_dir@[k].name_ptr,
                )
            }
        &&& self.image_import_descriptor@.len() == imports.len()
        &&& forall|k: int|
            0 <= k < imports.len() ==> {
                &&& (#[trigger] self.image_import_descriptor@[k]).fields_from(raw, imports[k])
                &&& self.image_import_descriptor@[k].name@ == spec_descriptor_name(
                    raw,
                    sects,
                    self.image_import_descriptor@[k].name_ptr,
                )
            }
        &&& self.iat_names@ == Map::<u32, String>::empty()
    }

    /// Parses the metadata of the PE32 image in `raw`: the DOS, NT, file and
    /// optional headers, the section table, and the delay-load and import
    /// descriptors with their DLL names. The bytes are not kept.
    pub fn parse(filename: &str, raw: &[u8]) -> (p: PE32)
        requires
            raw@.len() <= isize::MAX,
            tables_ok(raw@, DATA_DIRECTORY_OFFSET32 as int),
        ensures
            p.filename@ == filename@,
            p.parsed_from(raw@),
    {
        let dos = ImageDosHeader::load(raw, 0);
        let pe_off = dos.e_lfanew as u64;
        let nt = ImageNtHeaders::load(raw, pe_off);
        let fh = ImageFileHeader::load(raw, pe_off + 4);
        let opt = ImageOptionalHeader::load(raw, pe_off + 24);
        let first_off = pe_off + 24 + fh.size_of_optional_header as u64;
        let sect = load_sections(raw, first_off, fh.number_of_sections);
        assert(sect@ == spec_section_table(raw@));

        let import_va = opt.data_directory[IMAGE_DIRECTORY_ENTRY_IMPORT].virtual_address;
        let delay_load_va = opt.data_directory[IMAGE_DIRECTORY_ENTRY_DELAY_LOAD].virtual_address;

        let mut image_import_descriptor: Vec<ImageImportDescriptor> = Vec::new();
        let mut delay_load_dir: Vec<DelayLoadDirectory> = Vec::new();

        if delay_load_va > 0 {
            let delay_load_off = PE64::vaddr_to_off(&sect, delay_load_va);
            if delay_load_off > 0 {
                assert(spec_delay_descriptors(raw@, DATA_DIRECTORY_OFFSET32 as int) == spec_delay_walk(
                    raw@,
                    delay_load_off as int,
                ));
                delay_load_dir = load_delay_dirs(raw, &sect, delay_load_off as u64);
            }
        }
        if import_va > 0 {
            let import_off = PE64::vaddr_to_off(&sect, import_va);
            if import_off > 0 {
                assert(spec_import_descriptors(raw@, DATA_DIRECTORY_OFFSET32 as int)
                    == spec_import_walk(raw@, import_off as int));
                image_import_descriptor = load_import_descriptors(raw, &sect, import_off as u64);
            }
        }

        PE32 {
            filename: String::from_str(filename),
            dos,
            fh,
            nt,
            opt,
            sect_hdr: sect,
            delay_load_dir,
            image_import_descriptor,
            iat_names: HashMap::new(),
        }
    }

    /// Maps virtual address `vaddr` to a file offset (see
    /// [`PE64::vaddr_to_off`]).
    pub fn vaddr_to_off(sections: &Vec<ImageSectionHeader>, vaddr: u32) -> (off: u32)
        requires
            vaddr_to_off_ok(sections@, vaddr),
        ensures
            off == spec_vaddr_to_off(sections@, vaddr),
    {
        PE64::vaddr_to_off(sections, vaddr)
    }

    /// The NUL-terminated string at `off` in `raw`, as lossy UTF-8.
    pub fn read_string(raw: &[u8], off: usize) -> (s: String)
        ensures
            s@ == c_string(raw@, off as int),
    {
        PE64::read_string(raw, off)
    }

    /// Number of section headers.
    pub fn num_of_sections(&self) -> (n: usize)
        ensures
            n == self.sect_hdr@.len(),
    {
        self.sect_hdr.len()
    }

    /// The PE headers: the first `size_of_headers` bytes of `raw`.
    pub fn headers<'a>(&self, raw: &'a [u8]) -> (h: &'a [u8])
        requires
            self.opt.size_of_headers <= raw@.len(),
        ensures
            h@ == raw@.subrange(0, self.opt.size_of_headers as int),
    {
        &raw[0..self.opt.size_of_headers as usize]
    }
}


/// Law (parsed 32-bit import descriptors): the `k`-th import descriptor of a
/// parsed PE32 image is decoded from the import table's file offset plus
/// `20 * k`, has a nonzero name pointer, and the descriptors end at the first
/// record past the file or with a zero name pointer.
pub proof fn lemma_parsed_import_descriptors32(p: &PE32, raw: Seq<u8>)
    requires
        p.parsed_from(raw),
    ensures
        ({
            let t = spec_table_off(
                spec_section_table(raw),
                spec_dir_va(raw, DATA_DIRECTORY_OFFSET32 as int, IMAGE_DIRECTORY_ENTRY_IMPORT as int),
            );
            let n = p.image_import_descriptor@.len();
            &&& forall|k: int|
                0 <= k < n ==> {
                    &&& (#[trigger] p.image_import_descriptor@[k]).fields_from(raw, t + 20 * k)
                    &&& p.image_import_descriptor@[k].name_ptr != 0
                }
            &&& t > 0 ==> (t + 20 * n >= raw.len() || le_u32(raw, t + 20 * n + 12) == 0)
            &&& t <= 0 ==> n == 0
        }),
{
    let t = spec_table_off(
        spec_section_table(raw),
        spec_dir_va(raw, DATA_DIRECTORY_OFFSET32 as int, IMAGE_DIRECTORY_ENTRY_IMPORT as int),
    );
    if t > 0 {
        lemma_import_walk_layout(raw, t);
        let w = spec_import_walk(raw, t);
        assert forall|k: int| 0 <= k < p.image_import_descriptor@.len() implies {
            &&& (#[trigger] p.image_import_descriptor@[k]).fields_from(raw, t + 20 * k)
            &&& p.image_import_descriptor@[k].name_ptr != 0
        } by {
            assert(w[k] == t + 20 * k);
        }
    }
}

/// Law (parsed 32-bit delay-load descriptors): the `k`-th delay-load
/// descriptor of a parsed PE32 image is decoded from the delay-load table's
/// file offset plus `32 * k`, with nonzero handle and name pointer.
pub proof fn lemma_parsed_delay_descriptors32(p: &PE32, raw: Seq<u8>)
    requires
        p.parsed_from(raw),
    ensures
        ({
            let t = spec_table_off(
                spec_section_table(raw),
                spec_dir_va(raw, DATA_DIRECTORY_OFFSET32 as int, IMAGE_DIRECTORY_ENTRY_DELAY_LOAD as int),
            );
            &&& forall|k: int|
                0 <= k < p.delay_load_dir@.len() ==> {
                    &&& (#[trigger] p.delay_load_dir@[k]).fields_from(raw, t + 32 * k)
                    &&& p.delay_load_dir@[k].name_ptr != 0
                    &&& p.delay_load_dir@[k].handle != 0
                }
            &&& t <= 0 ==> p.delay_load_dir@.len() == 0
        }),
{
    let t = spec_table_off(
        spec_section_table(raw),
        spec_dir_va(raw, DATA_DIRECTORY_OFFSET32 as int, IMAGE_DIRECTORY_ENTRY_DELAY_LOAD as int),
    );
    if t > 0 {
        lemma_delay_walk_layout(raw, t);
        let w = spec_delay_walk(raw, t);
        assert forall|k: int| 0 <= k < p.delay_load_dir@.len() implies {
            &&& (#[trigger] p.delay_load_dir@[k]).fields_from(raw, t + 32 * k)
            &&& p.delay_load_dir@[k].name_ptr != 0
            &&& p.delay_load_dir@[k].handle != 0
        } by {
            assert(w[k] == t + 32 * k);
        }
    }
}

} // verus!
