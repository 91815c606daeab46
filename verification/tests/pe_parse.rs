//! Parsing tests over small PE images built in memory.

use rs_header::pe::pe32::PE32;
use rs_header::pe::pe64::PE64;
use rs_header::pe::{pe_machine_type, IMAGE_FILE_MACHINE_AMD64, IMAGE_FILE_MACHINE_I386};

fn put_u16(b: &mut [u8], off: usize, v: u16) {
    b[off..off + 2].copy_from_slice(&v.to_le_bytes());
}
fn put_u32(b: &mut [u8], off: usize, v: u32) {
    b[off..off + 4].copy_from_slice(&v.to_le_bytes());
}
fn put_u64(b: &mut [u8], off: usize, v: u64) {
    b[off..off + 8].copy_from_slice(&v.to_le_bytes());
}
fn put_str(b: &mut [u8], off: usize, s: &str) {
    b[off..off + s.len()].copy_from_slice(s.as_bytes());
    b[off + s.len()] = 0;
}

const PE_OFF: usize = 0x80;
const OPT_OFF: usize = PE_OFF + 24;

fn put_section(b: &mut [u8], idx: usize, opt_size: usize, name: &str, va: u32, vs: u32, ptr: u32, srd: u32) {
    let s = OPT_OFF + opt_size + 40 * idx;
    b[s..s + name.len()].copy_from_slice(name.as_bytes());
    put_u32(b, s + 8, vs);
    put_u32(b, s + 12, va);
    put_u32(b, s + 16, srd);
    put_u32(b, s + 20, ptr);
    put_u32(b, s + 36, 0x4000_0040);
}

/// A small PE32+ image: `.text` (VA 0x1000, file 0x400), `.idata` (VA 0x2000,
/// file 0x600) importing `KERNEL32.dll!ExitProcess` and `!GetStdHandle`,
/// `.reloc` (VA 0x3000, file 0x800) with one DIR64 entry at RVA 0x1010, and
/// `.rsrc` (VA 0x4000, file 0xA00) with one resource of type 3, id 7.
fn build_pe64(image_base: u64) -> Vec<u8> {
    let mut b = vec![0u8; 0xC00];
    b[0] = b'M';
    b[1] = b'Z';
    put_u32(&mut b, 0x3c, PE_OFF as u32);
    b[PE_OFF..PE_OFF + 4].copy_from_slice(b"PE\0\0");
    put_u16(&mut b, PE_OFF + 4, 0x8664); // machine
    put_u16(&mut b, PE_OFF + 6, 4); // number_of_sections
    put_u16(&mut b, PE_OFF + 20, 240); // size_of_optional_header
    put_u16(&mut b, PE_OFF + 22, 0x0022); // characteristics: executable, large address aware
    put_u16(&mut b, OPT_OFF, 0x20b);
    put_u64(&mut b, OPT_OFF + 24, image_base);
    put_u32(&mut b, OPT_OFF + 32, 0x1000);
    put_u32(&mut b, OPT_OFF + 36, 0x200);
    put_u32(&mut b, OPT_OFF + 56, 0x5000); // size_of_image
    put_u32(&mut b, OPT_OFF + 60, 0x400); // size_of_headers
    put_u32(&mut b, OPT_OFF + 108, 16);
    let dirs = OPT_OFF + 112;
    put_u32(&mut b, dirs + 8, 0x2000); // import
    put_u32(&mut b, dirs + 8 + 4, 40);
    put_u32(&mut b, dirs + 5 * 8, 0x3000); // base relocations
    put_u32(&mut b, dirs + 5 * 8 + 4, 12);
    put_u32(&mut b, dirs + 2 * 8, 0x4000); // resources
    put_u32(&mut b, dirs + 2 * 8 + 4, 0x200);
    put_u32(&mut b, dirs + 9 * 8, 0x1100); // TLS
    put_u32(&mut b, dirs + 9 * 8 + 4, 40);

    put_section(&mut b, 0, 240, ".text", 0x1000, 0x1000, 0x400, 0x200);
    put_section(&mut b, 1, 240, ".idata", 0x2000, 0x1000, 0x600, 0x200);
    put_section(&mut b, 2, 240, ".reloc", 0x3000, 0x1000, 0x800, 0x200);
    put_section(&mut b, 3, 240, ".rsrc", 0x4000, 0x200, 0xA00, 0x200);

    // .text: a relocated qword at RVA 0x1010 (file 0x410), a TLS directory at
    // RVA 0x1100 (file 0x500) whose callback array at RVA 0x1180 (file 0x580)
    // holds two callbacks.
    put_u64(&mut b, 0x410, image_base + 0x1234);
    put_u64(&mut b, 0x500 + 24, image_base + 0x1180);
    put_u64(&mut b, 0x580, image_base + 0x1000);
    put_u64(&mut b, 0x588, image_base + 0x1010);

    // .idata: one import descriptor, then the null descriptor.
    put_u32(&mut b, 0x600, 0x2040); // original_first_thunk
    put_u32(&mut b, 0x600 + 12, 0x2080); // name
    put_u32(&mut b, 0x600 + 16, 0x2060); // first_thunk
    put_u64(&mut b, 0x640, 0x20A0);
    put_u64(&mut b, 0x648, 0x20B0);
    put_u64(&mut b, 0x660, 0x20A0);
    put_u64(&mut b, 0x668, 0x20B0);
    put_str(&mut b, 0x680, "KERNEL32.dll");
    put_str(&mut b, 0x6A2, "ExitProcess");
    put_str(&mut b, 0x6B2, "GetStdHandle");

    // .reloc: one block for page 0x1000 with a DIR64 entry at offset 0x10
    // and a padding entry.
    put_u32(&mut b, 0x800, 0x1000);
    put_u32(&mut b, 0x804, 12);
    put_u16(&mut b, 0x808, 0xA010);
    put_u16(&mut b, 0x80A, 0x0000);

    // .rsrc: root directory with one id entry (type 3) -> subdirectory with
    // one id entry (id 7) -> subdirectory with one entry -> data entry.
    let r = 0xA00;
    put_u16(&mut b, r + 14, 1);
    put_u32(&mut b, r + 16, 3);
    put_u32(&mut b, r + 20, 0x8000_0000 | 0x18);
    put_u16(&mut b, r + 0x18 + 14, 1);
    put_u32(&mut b, r + 0x18 + 16, 7);
    put_u32(&mut b, r + 0x18 + 20, 0x8000_0000 | 0x30);
    put_u16(&mut b, r + 0x30 + 14, 1);
    put_u32(&mut b, r + 0x30 + 16, 0x409);
    put_u32(&mut b, r + 0x30 + 20, 0x48);
    put_u32(&mut b, r + 0x48, 0x4100); // offset_to_data (RVA)
    put_u32(&mut b, r + 0x48 + 4, 0x20); // size
    put_u32(&mut b, r + 0x48 + 8, 1252); // code page
    b
}

/// A small PE32 image: `.text` (VA 0x1000, file 0x400) and `.idata`
/// (VA 0x2000, file 0x600) importing `USER32.dll!MessageBoxA`, an ordinal,
/// and `USER32.dll!GetDC`, plus a delay-load descriptor for
/// `COMDLG32.dll!PrintDlgA`.
fn build_pe32() -> Vec<u8> {
    let mut b = vec![0u8; 0x800];
    b[0] = b'M';
    b[1] = b'Z';
    put_u32(&mut b, 0x3c, PE_OFF as u32);
    b[PE_OFF..PE_OFF + 4].copy_from_slice(b"PE\0\0");
    put_u16(&mut b, PE_OFF + 4, 0x014c);
    put_u16(&mut b, PE_OFF + 6, 2);
    put_u16(&mut b, PE_OFF + 20, 224);
    put_u16(&mut b, PE_OFF + 22, 0x2102); // executable, 32-bit, DLL
    put_u16(&mut b, OPT_OFF, 0x10b);
    put_u32(&mut b, OPT_OFF + 28, 0x40_0000); // image_base
    put_u32(&mut b, OPT_OFF + 60, 0x400); // size_of_headers
    put_u32(&mut b, OPT_OFF + 92, 16);
    let dirs = OPT_OFF + 96;
    put_u32(&mut b, dirs + 8, 0x2000); // import
    put_u32(&mut b, dirs + 8 + 4, 40);
    put_u32(&mut b, dirs + 13 * 8, 0x2100); // delay load
    put_u32(&mut b, dirs + 13 * 8 + 4, 64);

    put_section(&mut b, 0, 224, ".text", 0x1000, 0x1000, 0x400, 0x200);
    put_section(&mut b, 1, 224, ".idata", 0x2000, 0x1000, 0x600, 0x200);

    put_u32(&mut b, 0x600, 0x2040);
    put_u32(&mut b, 0x600 + 12, 0x2080);
    put_u32(&mut b, 0x600 + 16, 0x2060);
    put_u32(&mut b, 0x640, 0x20A0);
    put_u32(&mut b, 0x644, 0x8000_0005);
    put_u32(&mut b, 0x648, 0x20B0);
    put_u32(&mut b, 0x660, 0x20A0);
    put_u32(&mut b, 0x664, 0x8000_0005);
    put_u32(&mut b, 0x668, 0x20B0);
    put_str(&mut b, 0x680, "USER32.dll");
    put_str(&mut b, 0x6A2, "MessageBoxA");
    put_str(&mut b, 0x6B2, "GetDC");

    put_u32(&mut b, 0x700, 1); // attributes
    put_u32(&mut b, 0x704, 0x2180); // name
    put_u32(&mut b, 0x708, 0x2190); // module handle
    put_u32(&mut b, 0x70C, 0x21A0); // address table
    put_u32(&mut b, 0x710, 0x21C0); // name table
    put_u32(&mut b, 0x714, 0x21E0); // bound table
    put_str(&mut b, 0x780, "COMDLG32.dll");
    put_u32(&mut b, 0x7C0, 0x21F0);
    put_str(&mut b, 0x7F2, "PrintDlgA");
    b
}

#[test]
fn parse_pe64() {
    let raw = build_pe64(0x1_4000_0000);
    let pe = PE64::parse("loader64.exe", &raw);

    assert_eq!(pe.dos.e_magic, 0x5a4d, "MZ signature");
    assert!(pe.num_of_sections() > 0, "should have sections");

    let headers = pe.headers(&raw);
    assert!(!headers.is_empty());
    assert_eq!(&headers[0..2], b"MZ");

    for i in 0..pe.num_of_sections() {
        let _ = pe.get_section_ptr(&raw, i);
        assert!(!pe.get_section(i).get_name().is_empty());
    }

    assert_eq!(pe.iat_names.len(), 0, "iat_names is filled during load, not parse");
}

#[test]
fn parse_pe32() {
    let raw = build_pe32();
    let pe = PE32::parse("loader32.exe", &raw);

    assert_eq!(pe.dos.e_magic, 0x5a4d, "MZ signature");
    assert!(pe.num_of_sections() > 0, "should have sections");

    let headers = pe.headers(&raw);
    assert_eq!(&headers[0..2], b"MZ");
}

#[test]
fn pe64_rejects_pe32_and_viceversa_by_magic() {
    let pe64 = PE64::parse("x", &build_pe64(0x1_4000_0000));
    let pe32 = PE32::parse("x", &build_pe32());
    assert_eq!(pe64.opt.magic, 0x20b, "PE32+ optional header magic");
    assert_eq!(pe32.opt.magic, 0x10b, "PE32 optional header magic");
}

#[test]
fn parse_pe64_reads_headers_sections_and_imports() {
    let raw = build_pe64(0x1_4000_0000);
    let pe = PE64::parse("a.exe", &raw);
    assert_eq!(pe.filename, "a.exe");
    assert_eq!(pe.nt.signature, 0x4550);
    assert_eq!(pe.get_pe_off(), 0x80);
    assert_eq!(pe.fh.machine, 0x8664);
    assert_eq!(pe.fh.number_of_sections, 4);
    assert_eq!(pe.opt.image_base, 0x1_4000_0000);
    assert_eq!(pe.opt.data_directory.len(), 16);
    assert_eq!(pe.num_of_sections(), 4);
    assert_eq!(pe.get_section(1).get_name(), ".idata");
    assert_eq!(pe.get_section_vaddr(2), 0x3000);
    assert_eq!(pe.image_import_descriptor.len(), 1);
    assert_eq!(pe.image_import_descriptor[0].name, "KERNEL32.dll");
    assert_eq!(pe.image_import_descriptor[0].original_first_thunk, 0x2040);
    assert_eq!(pe.image_import_descriptor[0].first_thunk, 0x2060);
    assert!(pe.delay_load_dir.is_empty());
}

#[test]
fn parse_pe32_reads_imports_and_delay_loads() {
    let raw = build_pe32();
    let pe = PE32::parse("b.exe", &raw);
    assert_eq!(pe.opt.image_base, 0x40_0000);
    assert_eq!(pe.image_import_descriptor.len(), 1);
    assert_eq!(pe.image_import_descriptor[0].name, "USER32.dll");
    assert_eq!(pe.delay_load_dir.len(), 1);
    assert_eq!(pe.delay_load_dir[0].name, "COMDLG32.dll");
    assert_eq!(pe.delay_load_dir[0].name_table, 0x21C0);
    assert_eq!(pe.delay_load_dir[0].bound_delay_import_table, 0x21E0);
}

#[test]
fn vaddr_to_off_maps_through_sections() {
    let pe = PE64::parse("a.exe", &build_pe64(0x1_4000_0000));
    // inside .idata's file bytes
    assert_eq!(PE64::vaddr_to_off(&pe.sect_hdr, 0x2080), 0x680);
    // first byte of .text
    assert_eq!(PE64::vaddr_to_off(&pe.sect_hdr, 0x1000), 0x400);
    // inside .text's virtual range but past its file bytes
    assert_eq!(PE64::vaddr_to_off(&pe.sect_hdr, 0x1800), 0);
    // inside no section
    assert_eq!(PE64::vaddr_to_off(&pe.sect_hdr, 0x9000), 0);
    assert_eq!(PE64::vaddr_to_off(&pe.sect_hdr, 0x10), 0);
}

#[test]
fn mem_size_sums_larger_of_virtual_and_raw_sizes() {
    let pe = PE64::parse("a.exe", &build_pe64(0x1_4000_0000));
    // .text 0x1000, .idata 0x1000, .reloc 0x1000, .rsrc 0x200
    assert_eq!(pe.mem_size(), 0x3200);
}

#[test]
fn is_dll_reads_the_characteristic() {
    let pe = PE64::parse("a.exe", &build_pe64(0x1_4000_0000));
    assert!(!pe.is_dll());
    let mut raw = build_pe64(0x1_4000_0000);
    raw[0x80 + 23] |= 0x20;
    let dll = PE64::parse("a.dll", &raw);
    assert!(dll.is_dll());
}

#[test]
fn machine_type_detection() {
    let raw64 = build_pe64(0x1_4000_0000);
    let raw32 = build_pe32();
    assert_eq!(pe_machine_type(&raw64), Some(IMAGE_FILE_MACHINE_AMD64));
    assert_eq!(pe_machine_type(&raw32), Some(IMAGE_FILE_MACHINE_I386));
    assert!(PE64::is_pe64(&raw64));
    assert!(!PE64::is_pe64(&raw32));
    assert_eq!(pe_machine_type(&raw64[..10]), None);
    assert!(!PE64::is_pe64(b"not a pe file at all"));
    let mut arm = build_pe64(0x1_4000_0000);
    arm[0x84] = 0x64;
    arm[0x85] = 0xaa;
    assert!(PE64::is_pe64(&arm));
}

#[test]
fn section_bytes_by_name_and_index() {
    let raw = build_pe64(0x1_4000_0000);
    let pe = PE64::parse("a.exe", &raw);
    let rsrc = pe.get_section_ptr_by_name(&raw, ".rsrc").expect(".rsrc present");
    assert_eq!(rsrc.len(), 0x200);
    assert_eq!(rsrc.as_ptr(), raw[0xA00..].as_ptr());
    assert!(pe.get_section_ptr_by_name(&raw, ".bss").is_none());

    let text = pe.get_section_ptr(&raw, 0);
    assert_eq!(text.len(), 0x200);
    assert_eq!(text[0x10..0x18], 0x1_4000_1234u64.to_le_bytes());
}

#[test]
fn section_bytes_are_cut_at_the_end_of_the_file() {
    let raw = build_pe64(0x1_4000_0000);
    let pe = PE64::parse("a.exe", &raw);
    let cut = &raw[..0xA80];
    assert_eq!(pe.get_section_ptr(cut, 3).len(), 0x80);
    let shorter = &raw[..0x900];
    assert!(pe.get_section_ptr(shorter, 3).is_empty());
}

#[test]
fn read_string_stops_at_nul_and_at_end() {
    let raw = build_pe64(0x1_4000_0000);
    assert_eq!(PE64::read_string(&raw, 0x680), "KERNEL32.dll");
    assert_eq!(PE64::read_string(&raw, 0x684), "EL32.dll");
    assert_eq!(PE64::read_string(&raw, raw.len()), "");
    assert_eq!(PE64::read_string(b"abc", 1), "bc");
    assert_eq!(PE32::read_string(b"x\xffy\0z", 0), "x\u{fffd}y");
}

#[test]
fn tls_callbacks_are_read_until_zero() {
    let raw = build_pe64(0x1_4000_0000);
    let pe = PE64::parse("a.exe", &raw);
    assert_eq!(pe.get_tls_callbacks(&raw, 0), vec![0x1_4000_1000, 0x1_4000_1010]);
}

#[test]
fn dependencies_collapse_api_sets() {
    let raw = build_pe64(0x1_4000_0000);
    let mut pe = PE64::parse("a.exe", &raw);
    assert_eq!(pe.get_dependencies(), vec!["KERNEL32.dll".to_string()]);
    let mut extra = pe.image_import_descriptor[0].clone();
    extra.name = "api-ms-win-core-synch-l1-2-0.dll".to_string();
    pe.image_import_descriptor.push(extra.clone());
    extra.name = String::new();
    pe.image_import_descriptor.push(extra.clone());
    extra.name = "API-MS-WIN-crt.dll".to_string();
    pe.image_import_descriptor.push(extra.clone());
    extra.name = " ext-ms-win-ntuser.dll".to_string();
    pe.image_import_descriptor.push(extra.clone());
    extra.name = "xapi-ms-win.dll".to_string();
    pe.image_import_descriptor.push(extra);
    assert_eq!(
        pe.get_dependencies(),
        vec![
            "KERNEL32.dll".to_string(),
            "kernelbase".to_string(),
            "kernelbase".to_string(),
            "kernelbase".to_string(),
            "xapi-ms-win.dll".to_string()
        ]
    );
}

#[test]
fn resource_lookup_by_type_and_id() {
    let raw = build_pe64(0);
    let pe = PE64::parse("a.exe", &raw);
    // data RVA 0x4100 -> file offset 0xB00 (image base 0)
    assert_eq!(pe.get_resource(&raw, Some(3), Some(7), None, None), Some((0xB00, 0x20)));
    assert_eq!(pe.get_resource(&raw, Some(4), Some(7), None, None), None);
    assert_eq!(pe.get_resource(&raw, Some(3), Some(8), None, None), None);

    let rsrc = pe.get_section_ptr_by_name(&raw, ".rsrc").unwrap();
    let entry = pe
        .locate_resource_data_entry(rsrc, 0, 0, Some(3), Some(7), None, None)
        .expect("data entry");
    assert_eq!(entry.offset_to_data, 0x4100);
    assert_eq!(entry.size, 0x20);
    assert_eq!(entry.code_page, 1252);
    assert!(pe.locate_resource_data_entry(rsrc, 0, 10, Some(3), Some(7), None, None).is_none());
    assert!(pe.locate_resource_data_entry(rsrc, 0x1F8, 0, Some(3), Some(7), None, None).is_none());
}

#[test]
fn resource_lookup_by_name() {
    let mut raw = build_pe64(0);
    // turn the root entry into a named one whose name "ICON" is at 0x100
    let r = 0xA00;
    raw[r + 12..r + 14].copy_from_slice(&1u16.to_le_bytes());
    raw[r + 14..r + 16].copy_from_slice(&0u16.to_le_bytes());
    raw[r + 16..r + 20].copy_from_slice(&(0x8000_0000u32 | 0x100).to_le_bytes());
    raw[r + 0x100..r + 0x102].copy_from_slice(&4u16.to_le_bytes());
    for (i, c) in "ICON".encode_utf16().enumerate() {
        raw[r + 0x102 + 2 * i..r + 0x104 + 2 * i].copy_from_slice(&c.to_le_bytes());
    }
    let pe = PE64::parse("a.exe", &raw);
    assert_eq!(pe.get_resource(&raw, None, Some(7), Some("ICON"), None), Some((0xB00, 0x20)));
    assert_eq!(pe.get_resource(&raw, Some(3), Some(7), None, None), None);
    assert_eq!(pe.get_resource(&raw, None, Some(7), Some("icon"), None), None);

    let rsrc = pe.get_section_ptr_by_name(&raw, ".rsrc").unwrap();
    assert_eq!(pe.read_resource_name_from_rsrc(rsrc, 0x100), "ICON");
    assert_eq!(pe.read_resource_name_from_rsrc(rsrc, 0x1FF), "");
    let mut entry = rs_header::pe::structures::ImageResourceDirectoryEntry::new();
    entry.name_or_id = 0x8000_0100;
    assert!(entry.is_name());
    assert!(!entry.is_id());
    assert_eq!(entry.get_name_or_id(), 0x100);
    assert_eq!(pe.get_resource_name(&raw, &entry), "ICON");
}

#[test]
fn resource_names_decode_utf16_with_replacement() {
    let pe = PE64::parse("a.exe", &build_pe64(0));
    // "a", U+1F600 as a surrogate pair, an unpaired high surrogate, "b"
    let units: [u16; 5] = [0x61, 0xD83D, 0xDE00, 0xD800, 0x62];
    let mut rsrc = vec![5u8, 0];
    for u in units {
        rsrc.extend_from_slice(&u.to_le_bytes());
    }
    assert_eq!(pe.read_resource_name_from_rsrc(&rsrc, 0), "a\u{1F600}\u{FFFD}b");
}

#[test]
fn resource_name_without_rsrc_section_is_empty() {
    let mut raw = build_pe64(0);
    // rename .rsrc so the image has none
    raw[0x80 + 24 + 240 + 3 * 40 + 1] = b'x';
    let pe = PE64::parse("a.exe", &raw);
    let entry = rs_header::pe::structures::ImageResourceDirectoryEntry {
        name_or_id: 0x8000_0100,
        data_or_directory: 0,
    };
    assert_eq!(pe.get_resource_name(&raw, &entry), "");
    assert_eq!(pe.get_resource(&raw, Some(3), Some(7), None, None), None);
}

#[test]
fn resource_name_too_long_for_the_section_is_empty() {
    let pe = PE64::parse("a.exe", &build_pe64(0));
    let rsrc = [3u8, 0, b'a', 0, b'b', 0];
    assert_eq!(pe.read_resource_name_from_rsrc(&rsrc, 0), "");
    let rsrc = [2u8, 0, b'a', 0, b'b', 0];
    assert_eq!(pe.read_resource_name_from_rsrc(&rsrc, 0), "ab");
}

#[test]
fn preconditions_can_be_checked_first() {
    let raw = build_pe64(0);
    assert!(PE64::parse_fits(&raw));
    let pe = PE64::parse("a.exe", &raw);
    assert!(pe.tls_callbacks_fit(&raw));
    assert!(pe.get_resource_fits(&raw, Some(3), Some(7), None, None));
    let rsrc = pe.get_section_ptr_by_name(&raw, ".rsrc").unwrap();
    assert!(pe.locate_fits(rsrc, 0, 0, Some(3), Some(7), None, None));
    assert_eq!(pe.find_section(".rsrc"), Some(3));
    assert_eq!(pe.find_section(".none"), None);

    // a resource whose data maps below the image base cannot be returned
    let raw2 = build_pe64(0x1_4000_0000);
    let pe2 = PE64::parse("a.exe", &raw2);
    assert!(!pe2.get_resource_fits(&raw2, Some(3), Some(7), None, None));
    assert!(pe2.get_resource_fits(&raw2, Some(4), Some(7), None, None));

    // an import table whose directory entry overflows when mapped
    let mut raw3 = build_pe64(0);
    put_u32(&mut raw3, 0x80 + 24 + 240 + 8, 0xffff_ff00); // .text virtual_size
    assert!(!PE64::parse_fits(&raw3));
}
