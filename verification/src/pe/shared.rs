//! Format detection shared by both image widths.
use vstd::prelude::*;

use crate::pe::readers::{le_u16, le_u32, read_u16_le, read_u32_le};

verus! {

pub const IMAGE_FILE_MACHINE_I386: u16 = 0x014c;
pub const IMAGE_FILE_MACHINE_AMD64: u16 = 0x8664;
pub const IMAGE_FILE_MACHINE_ARM64: u16 = 0xaa64;

/// `MZ`, the DOS header magic.
pub const IMAGE_DOS_SIGNATURE: u16 = 0x5a4d;
/// `PE\0\0`, the NT headers signature.
pub const IMAGE_NT_SIGNATURE: u32 = 0x0000_4550;

/// The COFF `Machine` of the image in `raw`: present when the DOS magic and the
/// NT signature (at `e_lfanew`) are both in place.
pub open spec fn spec_pe_machine_type(raw: Seq<u8>) -> Option<u16> {
    let pe_off = le_u32(raw, 60) as int;
    if le_u16(raw, 0) == IMAGE_DOS_SIGNATURE && le_u32(raw, pe_off) == IMAGE_NT_SIGNATURE {
        Some(le_u16(raw, pe_off + 4))
    } else {
        None
    }
}

/// The COFF `Machine` field of the PE image in `raw`, or `None` when `raw` does
/// not carry the DOS magic and the NT signature.
pub fn pe_machine_type(raw: &[u8]) -> (m: Option<u16>)
    ensures
        m == spec_pe_machine_type(raw@),
{
    if read_u16_le(raw, 0) != IMAGE_DOS_SIGNATURE {
        return None;
    }
    let pe_off = read_u32_le(raw, 60) as u64;
    if read_u32_le(raw, pe_off) != IMAGE_NT_SIGNATURE {
        return None;
    }
    Some(read_u16_le(raw, pe_off + 4))
}

} // verus!
