//! Loader tests: bind imports and apply relocations through an in-memory
//! `PeLoader`.

use std::collections::HashMap;

use rs_header::pe::pe32::binding::DwordPatch;
use rs_header::pe::pe32::PE32;
use rs_header::pe::pe64::binding::{binds_descriptor, slots_fit};
use rs_header::pe::pe64::relocation::QwordPatch;
use rs_header::pe::pe64::PE64;
use rs_header::pe::loader::LoaderCall;
use rs_header::pe::PeLoader;

/// Minimal in-memory PeLoader: records writes and hands out fake, stable
/// addresses for resolved imports. Names in `missing` do not resolve.
struct Mock {
    mem: HashMap<u64, u8>,
    next: u64,
    resolved: HashMap<String, u64>,
    missing: Vec<String>,
    unloadable: Vec<String>,
    calls: Vec<String>,
    qwords: Vec<(u64, u64)>,
    dwords: Vec<(u64, u32)>,
}

impl Mock {
    fn new() -> Self {
        Mock {
            mem: HashMap::new(),
            next: 0x7000_0000,
            resolved: HashMap::new(),
            missing: Vec::new(),
            unloadable: Vec::new(),
            calls: Vec::new(),
            qwords: Vec::new(),
            dwords: Vec::new(),
        }
    }
}

impl PeLoader for Mock {
    // The call history is a specification-only item: it is never called at
    // run time.
    fn calls(&self) -> vstd::seq::Seq<LoaderCall> {
        unreachable!("specification-only")
    }
    fn is_mapped(&self, _addr: u64) -> bool {
        true
    }
    fn write_bytes(&mut self, addr: u64, data: &[u8]) -> bool {
        for (i, b) in data.iter().enumerate() {
            self.mem.insert(addr + i as u64, *b);
        }
        true
    }
    fn write_dword(&mut self, addr: u64, val: u32) -> bool {
        self.dwords.push((addr, val));
        self.write_bytes(addr, &val.to_le_bytes())
    }
    fn write_qword(&mut self, addr: u64, val: u64) -> bool {
        self.qwords.push((addr, val));
        self.write_bytes(addr, &val.to_le_bytes())
    }
    fn load_library(&mut self, libname: &str) -> u64 {
        if self.unloadable.iter().any(|m| m == libname) {
            0
        } else {
            0x1000
        }
    }
    fn resolve_api_name(&mut self, name: &str) -> u64 {
        self.resolve_api_name_in_module("?", name)
    }
    fn resolve_api_name_in_module(&mut self, module: &str, name: &str) -> u64 {
        self.calls.push(format!("{}!{}", module, name));
        if self.missing.iter().any(|m| m == name) {
            return 0;
        }
        if let Some(a) = self.resolved.get(name) {
            return *a;
        }
        let a = self.next;
        self.next += 0x10;
        self.resolved.insert(name.to_string(), a);
        a
    }
    fn search_api_name(&mut self, name: &str) -> (u64, String, String) {
        (self.resolve_api_name(name), "mock".to_string(), name.to_string())
    }
}

fn put_u16(b: &mut [u8], off: usize, v: u16) {
    b[off..off + 2].copy_from_slice(&v.to_le_bytes());
}
fn put_u32(b: &mut [u8], off: usize, v: u32) {
    b[off..off + 4].copy_from_slice(&v.to_le_bytes());
}
fn put_u64(b: &mut [u8], off: usize, v: u64) {
    b[off..off + 8].copy_from_slice(&v.to_le_bytes());
}
fn put_str(b: &mut [u8], off: usize, s: &str) {
    b[off..off + s.len()].copy_from_slice(s.as_bytes());
    b[off + s.len()] = 0;
}

const PE_OFF: usize = 0x80;
const OPT_OFF: usize = PE_OFF + 24;

fn put_section(b: &mut [u8], idx: usize, opt_size: usize, name: &str, va: u32, vs: u32, ptr: u32, srd: u32) {
    let s = OPT_OFF + opt_size + 40 * idx;
    b[s..s + name.len()].copy_from_slice(name.as_bytes());
    put_u32(b, s + 8, vs);
    put_u32(b, s + 12, va);
    put_u32(b, s + 16, srd);
    put_u32(b, s + 20, ptr);
    put_u32(b, s + 36, 0x4000_0040);
}

/// A small PE32+ image: `.text` (VA 0x1000, file 0x400), `.idata` (VA 0x2000,
/// file 0x600) importing `KERNEL32.dll!ExitProcess` and `!GetStdHandle`,
/// `.reloc` (VA 0x3000, file 0x800) with one DIR64 entry at RVA 0x1010, and
/// `.rsrc` (VA 0x4000, file 0xA00) with one resource of type 3, id 7.
fn build_pe64(image_base: u64) -> Vec<u8> {
    let mut b = vec![0u8; 0xC00];
    b[0] = b'M';
    b[1] = b'Z';
    put_u32(&mut b, 0x3c, PE_OFF as u32);
    b[PE_OFF..PE_OFF + 4].copy_from_slice(b"PE\0\0");
    put_u16(&mut b, PE_OFF + 4, 0x8664); // machine
    put_u16(&mut b, PE_OFF + 6, 4); // number_of_sections
    put_u16(&mut b, PE_OFF + 20, 240); // size_of_optional_header
    put_u16(&mut b, PE_OFF + 22, 0x0022); // characteristics: executable, large address aware
    put_u16(&mut b, OPT_OFF, 0x20b);
    put_u64(&mut b, OPT_OFF + 24, image_base);
    put_u32(&mut b, OPT_OFF + 32, 0x1000);
    put_u32(&mut b, OPT_OFF + 36, 0x200);
    put_u32(&mut b, OPT_OFF + 56, 0x5000); // size_of_image
    put_u32(&mut b, OPT_OFF + 60, 0x400); // size_of_headers
    put_u32(&mut b, OPT_OFF + 108, 16);
    let dirs = OPT_OFF + 112;
    put_u32(&mut b, dirs + 8, 0x2000); // import
    put_u32(&mut b, dirs + 8 + 4, 40);
    put_u32(&mut b, dirs + 5 * 8, 0x3000); // base relocations
    put_u32(&mut b, dirs + 5 * 8 + 4, 12);
    put_u32(&mut b, dirs + 2 * 8, 0x4000); // resources
    put_u32(&mut b, dirs + 2 * 8 + 4, 0x200);
    put_u32(&mut b, dirs + 9 * 8, 0x1100); // TLS
    put_u32(&mut b, dirs + 9 * 8 + 4, 40);

    put_section(&mut b, 0, 240, ".text", 0x1000, 0x1000, 0x400, 0x200);
    put_section(&mut b, 1, 240, ".idata", 0x2000, 0x1000, 0x600, 0x200);
    put_section(&mut b, 2, 240, ".reloc", 0x3000, 0x1000, 0x800, 0x200);
    put_section(&mut b, 3, 240, ".rsrc", 0x4000, 0x200, 0xA00, 0x200);

    // .text: a relocated qword at RVA 0x1010 (file 0x410), a TLS directory at
    // RVA 0x1100 (file 0x500) whose callback array at RVA 0x1180 (file 0x580)
    // holds two callbacks.
    put_u64(&mut b, 0x410, image_base + 0x1234);
    put_u64(&mut b, 0x500 + 24, image_base + 0x1180);
    put_u64(&mut b, 0x580, image_base + 0x1000);
    put_u64(&mut b, 0x588, image_base + 0x1010);

    // .idata: one import descriptor, then the null descriptor.
    put_u32(&mut b, 0x600, 0x2040); // original_first_thunk
    put_u32(&mut b, 0x600 + 12, 0x2080); // name
    put_u32(&mut b, 0x600 + 16, 0x2060); // first_thunk
    put_u64(&mut b, 0x640, 0x20A0);
    put_u64(&mut b, 0x648, 0x20B0);
    put_u64(&mut b, 0x660, 0x20A0);
    put_u64(&mut b, 0x668, 0x20B0);
    put_str(&mut b, 0x680, "KERNEL32.dll");
    put_str(&mut b, 0x6A2, "ExitProcess");
    put_str(&mut b, 0x6B2, "GetStdHandle");

    // .reloc: one block for page 0x1000 with a DIR64 entry at offset 0x10
    // and a padding entry.
    put_u32(&mut b, 0x800, 0x1000);
    put_u32(&mut b, 0x804, 12);
    put_u16(&mut b, 0x808, 0xA010);
    put_u16(&mut b, 0x80A, 0x0000);

    // .rsrc: root directory with one id entry (type 3) -> subdirectory with
    // one id entry (id 7) -> subdirectory with one entry -> data entry.
    let r = 0xA00;
    put_u16(&mut b, r + 14, 1);
    put_u32(&mut b, r + 16, 3);
    put_u32(&mut b, r + 20, 0x8000_0000 | 0x18);
    put_u16(&mut b, r + 0x18 + 14, 1);
    put_u32(&mut b, r + 0x18 + 16, 7);
    put_u32(&mut b, r + 0x18 + 20, 0x8000_0000 | 0x30);
    put_u16(&mut b, r + 0x30 + 14, 1);
    put_u32(&mut b, r + 0x30 + 16, 0x409);
    put_u32(&mut b, r + 0x30 + 20, 0x48);
    put_u32(&mut b, r + 0x48, 0x4100); // offset_to_data (RVA)
    put_u32(&mut b, r + 0x48 + 4, 0x20); // size
    put_u32(&mut b, r + 0x48 + 8, 1252); // code page
    b
}

/// A small PE32 image: `.text` (VA 0x1000, file 0x400) and `.idata`
/// (VA 0x2000, file 0x600) importing `USER32.dll!MessageBoxA`, an ordinal,
/// and `USER32.dll!GetDC`, plus a delay-load descriptor for
/// `COMDLG32.dll!PrintDlgA`.
fn build_pe32() -> Vec<u8> {
    let mut b = vec![0u8; 0x800];
    b[0] = b'M';
    b[1] = b'Z';
    put_u32(&mut b, 0x3c, PE_OFF as u32);
    b[PE_OFF..PE_OFF + 4].copy_from_slice(b"PE\0\0");
    put_u16(&mut b, PE_OFF + 4, 0x014c);
    put_u16(&mut b, PE_OFF + 6, 2);
    put_u16(&mut b, PE_OFF + 20, 224);
    put_u16(&mut b, PE_OFF + 22, 0x2102); // executable, 32-bit, DLL
    put_u16(&mut b, OPT_OFF, 0x10b);
    put_u32(&mut b, OPT_OFF + 28, 0x40_0000); // image_base
    put_u32(&mut b, OPT_OFF + 60, 0x400); // size_of_headers
    put_u32(&mut b, OPT_OFF + 92, 16);
    let dirs = OPT_OFF + 96;
    put_u32(&mut b, dirs + 8, 0x2000); // import
    put_u32(&mut b, dirs + 8 + 4, 40);
    put_u32(&mut b, dirs + 13 * 8, 0x2100); // delay load
    put_u32(&mut b, dirs + 13 * 8 + 4, 64);

    put_section(&mut b, 0, 224, ".text", 0x1000, 0x1000, 0x400, 0x200);
    put_section(&mut b, 1, 224, ".idata", 0x2000, 0x1000, 0x600, 0x200);

    put_u32(&mut b, 0x600, 0x2040);
    put_u32(&mut b, 0x600 + 12, 0x2080);
    put_u32(&mut b, 0x600 + 16, 0x2060);
    put_u32(&mut b, 0x640, 0x20A0);
    put_u32(&mut b, 0x644, 0x8000_0005);
    put_u32(&mut b, 0x648, 0x20B0);
    put_u32(&mut b, 0x660, 0x20A0);
    put_u32(&mut b, 0x664, 0x8000_0005);
    put_u32(&mut b, 0x668, 0x20B0);
    put_str(&mut b, 0x680, "USER32.dll");
    put_str(&mut b, 0x6A2, "MessageBoxA");
    put_str(&mut b, 0x6B2, "GetDC");

    put_u32(&mut b, 0x700, 1); // attributes
    put_u32(&mut b, 0x704, 0x2180); // name
    put_u32(&mut b, 0x708, 0x2190); // module handle
    put_u32(&mut b, 0x70C, 0x21A0); // address table
    put_u32(&mut b, 0x710, 0x21C0); // name table
    put_u32(&mut b, 0x714, 0x21E0); // bound table
    put_str(&mut b, 0x780, "COMDLG32.dll");
    put_u32(&mut b, 0x7C0, 0x21F0);
    put_str(&mut b, 0x7F2, "PrintDlgA");
    b
}

#[test]
fn iat_binding_generic_roundtrip() {
    let raw = build_pe64(0x1_4000_0000);
    let mut pe = PE64::parse("loader64.exe", &raw);
    let mut mock = Mock::new();
    let base = 0x4000_0000u64;

    pe.iat_binding(&raw, &mut mock, base);
    pe.delay_load_binding(&raw, &mut mock, base);
    pe.apply_relocations(&raw, &mut mock, base);

    assert_eq!(pe.iat_names.len(), 2);
    for (&addr, full) in pe.iat_names.iter() {
        let name = full.split_once('!').expect("dll!name").1;
        assert_eq!(pe.import_addr_to_name(addr), name);
        assert_eq!(pe.import_addr_to_dll_and_name(addr), *full);
    }

    assert_eq!(pe.import_addr_to_name(0xdead_beef), "");
}

#[test]
fn iat_binding_patches_each_slot_with_the_resolved_address() {
    let raw = build_pe64(0x1_4000_0000);
    let mut pe = PE64::parse("a.exe", &raw);
    let mut mock = Mock::new();
    pe.iat_binding(&raw, &mut mock, 0x4000_0000);
    assert_eq!(mock.qwords, vec![(0x4000_2060, 0x7000_0000), (0x4000_2068, 0x7000_0010)]);
    assert_eq!(pe.import_addr_to_dll_and_name(0x7000_0000), "KERNEL32.dll!ExitProcess");
    assert_eq!(pe.import_addr_to_name(0x7000_0010), "GetStdHandle");
}

#[test]
fn iat_binding_names_unresolved_imports_by_slot_value() {
    let raw = build_pe64(0x1_4000_0000);
    let mut pe = PE64::parse("a.exe", &raw);
    let mut mock = Mock::new();
    mock.missing.push("ExitProcess".to_string());
    pe.iat_binding(&raw, &mut mock, 0x4000_0000);
    // the unresolved slot is not written, later imports are still bound
    assert_eq!(mock.qwords, vec![(0x4000_2068, 0x7000_0000)]);
    assert_eq!(pe.iat_names.len(), 2);
    assert_eq!(pe.import_addr_to_name(0x7000_0000), "GetStdHandle");
    // the unbound slot keeps its on-disk value, which names the import
    assert_eq!(pe.import_addr_to_dll_and_name(0x20A0), "KERNEL32.dll!ExitProcess");
}

#[test]
fn iat_binding_resolves_each_name_once_ignoring_case() {
    let mut raw = build_pe64(0x1_4000_0000);
    // a third slot naming "EXITPROCESS"
    raw[0x650..0x658].copy_from_slice(&0x20C0u64.to_le_bytes());
    raw[0x670..0x678].copy_from_slice(&0x20C0u64.to_le_bytes());
    raw[0x6C2..0x6CD].copy_from_slice(b"EXITPROCESS");
    let mut pe = PE64::parse("a.exe", &raw);
    let mut mock = Mock::new();
    pe.iat_binding(&raw, &mut mock, 0x4000_0000);
    assert_eq!(mock.calls, vec!["KERNEL32.dll!ExitProcess", "KERNEL32.dll!GetStdHandle"]);
    assert_eq!(mock.qwords[2], (0x4000_2070, 0x7000_0000));
    // the later binding of the same address records the later name
    assert_eq!(pe.import_addr_to_name(0x7000_0000), "EXITPROCESS");
}

#[test]
fn iat_binding_without_original_first_thunk_walks_the_iat() {
    let mut raw = build_pe64(0x1_4000_0000);
    raw[0x600..0x604].copy_from_slice(&0u32.to_le_bytes());
    let mut pe = PE64::parse("a.exe", &raw);
    let mut mock = Mock::new();
    pe.iat_binding(&raw, &mut mock, 0x4000_0000);
    assert_eq!(mock.qwords, vec![(0x4000_2060, 0x7000_0000), (0x4000_2068, 0x7000_0010)]);
    assert_eq!(pe.import_addr_to_name(0x7000_0010), "GetStdHandle");
}

#[test]
fn delay_load_binding_goes_on_past_unresolved() {
    let raw = build_pe64(0x1_4000_0000);
    let mut pe = PE64::parse("a.exe", &raw);
    let mut d = rs_header::pe::pe32::DelayLoadDirectory {
        attributes: 1,
        name_ptr: 0x2080,
        handle: 1,
        address_table: 0x2060,
        name_table: 0x2090,
        bound_delay_import_table: 0,
        unload_delay_import_table: 0,
        tstamp: 0,
        name: "KERNEL32.dll".to_string(),
    };
    let mut raw2 = raw.clone();
    // 32-bit name table at RVA 0x2090 (file 0x690): ExitProcess, GetStdHandle
    raw2[0x690..0x694].copy_from_slice(&0x20A0u32.to_le_bytes());
    raw2[0x694..0x698].copy_from_slice(&0x20B0u32.to_le_bytes());
    pe.delay_load_dir.push(d.clone());
    let mut mock = Mock::new();
    mock.missing.push("ExitProcess".to_string());
    pe.delay_load_binding(&raw2, &mut mock, 0x4000_0000);
    // the walk goes on past the unresolved import (and on through the rest
    // of the file: the name table has no terminator)
    assert_eq!(mock.calls[..2], ["KERNEL32.dll!ExitProcess", "KERNEL32.dll!GetStdHandle"]);
    assert_eq!(mock.qwords[0], (0x4000_2068, 0x7000_0000));
    assert_eq!(pe.import_addr_to_dll_and_name(0x7000_0000), "KERNEL32.dll!GetStdHandle");
    assert_eq!(pe.import_addr_to_name(0x20A0), "");

    d.name = String::new();
    let mut pe2 = PE64::parse("a.exe", &raw2);
    pe2.delay_load_dir.push(d);
    let mut mock2 = Mock::new();
    pe2.delay_load_binding(&raw2, &mut mock2, 0x4000_0000);
    assert!(mock2.calls.is_empty());
}

#[test]
fn relocations_add_the_load_delta() {
    let raw = build_pe64(0x1_4000_0000);
    let pe = PE64::parse("a.exe", &raw);
    let base = 0x4000_0000u64;
    let delta = base.wrapping_sub(0x1_4000_0000);
    assert_eq!(
        pe.relocation_patches(&raw, base),
        vec![QwordPatch { addr: base + 0x1010, value: 0x1_4000_1234u64.wrapping_add(delta) }]
    );
    let mut mock = Mock::new();
    pe.apply_relocations(&raw, &mut mock, base);
    assert_eq!(mock.qwords, vec![(0x4000_1010, 0x4000_1234)]);
}

#[test]
fn relocation_at_preferred_base_patches_nothing() {
    let raw = build_pe64(0x1_4000_0000);
    let pe = PE64::parse("a.exe", &raw);
    assert!(pe.relocation_patches(&raw, 0x1_4000_0000).is_empty());
    let mut mock = Mock::new();
    pe.apply_relocations(&raw, &mut mock, 0x1_4000_0000);
    assert!(mock.qwords.is_empty());
}

#[test]
fn pe32_iat_binding_falls_back_and_names_unresolved_slots() {
    let raw = build_pe32();
    let mut pe = PE32::parse("b.exe", &raw);
    let mut mock = Mock::new();
    mock.missing.push("GetDC".to_string());
    pe.iat_binding(&raw, &mut mock, 0x40_0000);
    // MessageBoxA resolved in its module; the ordinal is skipped; GetDC is
    // tried in its module and globally, then named by its name-table value.
    assert_eq!(mock.calls, vec!["USER32.dll!MessageBoxA", "USER32.dll!GetDC", "?!GetDC"]);
    assert_eq!(mock.dwords, vec![(0x40_2060, 0x7000_0000)]);
    assert_eq!(pe.import_addr_to_name(0x7000_0000), "MessageBoxA");
    assert_eq!(pe.import_addr_to_name(0x20B0), "GetDC");
    assert_eq!(pe.import_addr_to_name(0x1234), "");
}

#[test]
fn pe32_delay_load_binding_patches_dwords() {
    let raw = build_pe32();
    let mut pe = PE32::parse("b.exe", &raw);
    let mut mock = Mock::new();
    pe.delay_load_binding(&raw, &mut mock, 0x40_0000);
    assert_eq!(mock.calls, vec!["?!PrintDlgA"]);
    assert_eq!(mock.dwords, vec![(0x40_21E0, 0x7000_0000)]);
    assert_eq!(pe.import_addr_to_name(0x7000_0000), "PrintDlgA");
}

#[test]
fn iat_binding_skips_dlls_that_do_not_load_unless_api_sets() {
    let raw = build_pe64(0x1_4000_0000);
    let mut pe = PE64::parse("a.exe", &raw);
    let mut mock = Mock::new();
    mock.unloadable.push("KERNEL32.dll".to_string());
    pe.iat_binding(&raw, &mut mock, 0x4000_0000);
    assert!(mock.calls.is_empty());
    assert!(pe.iat_names.is_empty());

    let mut raw2 = build_pe64(0x1_4000_0000);
    raw2[0x680..0x68D].copy_from_slice(b"api-ms-win-x\0");
    let mut pe2 = PE64::parse("a.exe", &raw2);
    let mut mock2 = Mock::new();
    mock2.unloadable.push("api-ms-win-x".to_string());
    pe2.iat_binding(&raw2, &mut mock2, 0x4000_0000);
    assert_eq!(mock2.calls, vec!["api-ms-win-x!ExitProcess", "api-ms-win-x!GetStdHandle"]);
    assert_eq!(pe2.import_addr_to_dll_and_name(0x7000_0010), "api-ms-win-x!GetStdHandle");
}

#[test]
fn pe32_binding_skips_dlls_that_do_not_load() {
    let raw = build_pe32();
    let mut pe = PE32::parse("b.exe", &raw);
    let mut mock = Mock::new();
    mock.unloadable.push("USER32.dll".to_string());
    mock.unloadable.push("COMDLG32.dll".to_string());
    pe.iat_binding(&raw, &mut mock, 0x40_0000);
    pe.delay_load_binding(&raw, &mut mock, 0x40_0000);
    assert!(mock.calls.is_empty());
    assert!(pe.iat_names.is_empty());
}

#[test]
fn import_slots_of_each_table_kind() {
    let raw = build_pe64(0x1_4000_0000);
    let pe = PE64::parse("a.exe", &raw);
    let slots = pe.original_thunk_slots(&raw, 0x2040, 0x2060);
    assert_eq!(slots.len(), 2);
    assert_eq!((slots[0].slot_rva, slots[0].name_off, slots[0].thunk), (0x2060, 0x6A2, 0x20A0));
    assert_eq!((slots[1].slot_rva, slots[1].name_off, slots[1].thunk), (0x2068, 0x6B2, 0x20B0));
    let alt = pe.alternative_thunk_slots(&raw, 0x2060);
    assert_eq!(alt, slots);

    let raw32 = build_pe32();
    let pe32 = PE32::parse("b.exe", &raw32);
    let s32 = pe32.thunk32_slots(&raw32, 0x2040, 0x2060);
    // the ordinal entry in between is skipped, its slot RVA still counted
    assert_eq!(s32.len(), 2);
    assert_eq!((s32[0].slot_rva, s32[0].name_off, s32[0].thunk), (0x2060, 0x6A2, 0x20A0));
    assert_eq!((s32[1].slot_rva, s32[1].name_off, s32[1].thunk), (0x2068, 0x6B2, 0x20B0));
}

#[test]
fn binding_one_resolved_import() {
    let raw = build_pe64(0x1_4000_0000);
    let mut pe = PE64::parse("a.exe", &raw);
    let slot64 = pe.original_thunk_slots(&raw, 0x2040, 0x2060)[0];
    assert_eq!(pe.bind_resolved("K.dll", "F", &slot64, 0x4000_0000, 0, false), None);
    assert!(pe.iat_names.is_empty());
    assert_eq!(pe.bind_resolved("K.dll", "F", &slot64, 0x4000_0000, 0, true), None);
    assert_eq!(pe.import_addr_to_dll_and_name(0x20A0), "K.dll!F");
    assert_eq!(
        pe.bind_resolved("K.dll", "F", &slot64, 0x4000_0000, 0x7777, true),
        Some(QwordPatch { addr: 0x4000_2060, value: 0x7777 })
    );
    assert_eq!(pe.import_addr_to_dll_and_name(0x7777), "K.dll!F");
    assert_eq!(pe.import_addr_to_name(0x7777), "F");

    let raw32 = build_pe32();
    let mut pe32 = PE32::parse("b.exe", &raw32);
    let slot = pe32.thunk32_slots(&raw32, 0x2040, 0x2060)[1];
    assert_eq!(pe32.bind_resolved32("U.dll", "G", &slot, 0x40_0000, 0, false), None);
    assert!(pe32.iat_names.is_empty());
    assert_eq!(pe32.bind_resolved32("U.dll", "G", &slot, 0x40_0000, 0, true), None);
    assert_eq!(pe32.import_addr_to_name(0x20B0), "G");
    assert_eq!(
        pe32.bind_resolved32("U.dll", "H", &slot, 0x40_0000, 0x1_0000_5555, true),
        Some(DwordPatch { addr: 0x40_2068, value: 0x5555 })
    );
    assert_eq!(pe32.import_addr_to_name(0x5555), "H");
}

#[test]
fn descriptor_binding_decision() {
    assert!(binds_descriptor(0x1000, "KERNEL32.dll"));
    assert!(!binds_descriptor(0, "KERNEL32.dll"));
    assert!(binds_descriptor(0, "api-ms-win-core-synch-l1-2-0.dll"));
    assert!(binds_descriptor(0, " EXT-MS-win-ntuser.dll"));
    assert!(!binds_descriptor(0, "xapi-ms-win.dll"));
}

#[test]
fn table_walks_are_checked_before_binding() {
    let raw = build_pe64(0x1_4000_0000);
    let pe = PE64::parse("a.exe", &raw);
    assert!(pe.original_walk_fits(&raw, 0x2040, 0x2060));
    assert!(pe.alternative_walk_fits(&raw, 0x2060));
    let slots = pe.original_thunk_slots(&raw, 0x2040, 0x2060);
    assert!(slots_fit(&slots, 0x4000_0000));
    assert!(!slots_fit(&slots, u64::MAX - 0x2000));

    let raw32 = build_pe32();
    let pe32 = PE32::parse("b.exe", &raw32);
    assert!(pe32.table32_fits(&raw32, 0x2040, 0x2060));
    // a name table whose slot RVAs would run past 32 bits
    assert!(!pe32.table32_fits(&raw32, 0x2040, 0xffff_fffe));
}

#[test]
fn iat_binding_skips_descriptors_whose_slots_cannot_be_patched() {
    let raw = build_pe64(0x1_4000_0000);
    let mut pe = PE64::parse("a.exe", &raw);
    let mut mock = Mock::new();
    pe.iat_binding(&raw, &mut mock, u64::MAX - 0x2000);
    // the library is still asked for, but no import is resolved or recorded
    assert!(mock.calls.is_empty());
    assert!(mock.qwords.is_empty());
    assert!(pe.iat_names.is_empty());
}

#[test]
fn relocation_and_delay_load_preconditions_can_be_checked_first() {
    let raw = build_pe64(0x1_4000_0000);
    let pe = PE64::parse("a.exe", &raw);
    assert!(pe.relocations_fit(&raw, 0x4000_0000));
    assert!(pe.relocations_fit(&raw, 0x1_4000_0000));
    // the patch address would run past 64 bits
    assert!(!pe.relocations_fit(&raw, u64::MAX - 0x100));
    assert!(pe.delay_load_binding_fits(&raw, 0x4000_0000));
    assert!(pe.delay_walk_fits(&raw, 0x2040, 0x2060));
}

#[test]
fn relocating_at_two_bases_shifts_addresses_and_values_alike() {
    let raw = build_pe64(0x1_4000_0000);
    let pe = PE64::parse("a.exe", &raw);
    let (b1, b2) = (0x4000_0000u64, 0x7_0000_0000u64);
    let p1 = pe.relocation_patches(&raw, b1);
    let p2 = pe.relocation_patches(&raw, b2);
    assert_eq!(p1.len(), p2.len());
    for (a, b) in p1.iter().zip(p2.iter()) {
        assert_eq!(b.addr - a.addr, b2 - b1);
        assert_eq!(b.value.wrapping_sub(a.value), b2.wrapping_sub(b1));
    }
}
