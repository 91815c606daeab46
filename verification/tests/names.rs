use rs_header::pe::names::{is_api_set_contract, make_cache_key, qualify, split_after_bang};
use rs_header::pe::pe64::PE64;
use rs_header::pe::readers::{read_c_string, read_u16_le, read_u32_le, read_u64_le, read_u8};

#[test]
fn api_set_contract_names() {
    assert!(is_api_set_contract("api-ms-win-core-synch-l1-2-0.dll"));
    assert!(is_api_set_contract("  API-MS-Win-crt-runtime.dll\t"));
    assert!(is_api_set_contract("ext-ms-win-foo.dll"));
    assert!(is_api_set_contract("\u{3000}Ext-MS-bar"));
    assert!(!is_api_set_contract("kernel32.dll"));
    assert!(!is_api_set_contract("api-ms-wi"));
    assert!(!is_api_set_contract("x api-ms-win-core.dll"));
}

#[test]
fn qualified_names_and_split() {
    assert_eq!(qualify("KERNEL32.dll", "ExitProcess"), "KERNEL32.dll!ExitProcess");
    assert_eq!(split_after_bang("a!b!c"), Some("b!c".to_string()));
    assert_eq!(split_after_bang("abc"), None);
    assert_eq!(split_after_bang("abc!"), Some(String::new()));
    assert_eq!(make_cache_key("KERNEL32.DLL", "ExitProcess"), "kernel32.dll!exitprocess");
    assert_eq!(make_cache_key("ÄB", "Ω"), "äb!ω");
}

#[test]
fn little_endian_readers_zero_fill_past_the_end() {
    let raw = [0x01u8, 0x02, 0x03, 0x04, 0x05, 0x06, 0x07, 0x08, 0x09];
    assert_eq!(read_u8(&raw, 8), 0x09);
    assert_eq!(read_u8(&raw, 9), 0);
    assert_eq!(read_u16_le(&raw, 0), 0x0201);
    assert_eq!(read_u32_le(&raw, 1), 0x0504_0302);
    assert_eq!(read_u64_le(&raw, 0), 0x0807_0605_0403_0201);
    assert_eq!(read_u64_le(&raw, 4), 0x0000_0009_0807_0605);
    assert_eq!(read_u32_le(&raw, 100), 0);
}

#[test]
fn c_strings_decode_lossy_utf8() {
    assert_eq!(read_c_string(b"ab\0cd", 0), "ab");
    assert_eq!(read_c_string(b"ab\0cd", 3), "cd");
    assert_eq!(read_c_string(b"ab\0cd", 2), "");
    assert_eq!(read_c_string(b"ab", 7), "");
    assert_eq!(read_c_string("héllo\0".as_bytes(), 0), "héllo");
    assert_eq!(PE64::read_string(b"\xc3\0", 0), "\u{fffd}");
}
