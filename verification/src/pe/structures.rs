//! PE resource-directory structures.
use vstd::prelude::*;

verus! {

/// High bit of a resource directory entry field: "name" / "subdirectory".
pub const RESOURCE_HIGH_BIT: u32 = 0x8000_0000;
/// The offset / id part of a resource directory entry field.
pub const RESOURCE_LOW_MASK: u32 = 0x7FFF_FFFF;

/// Head of a resource directory (16 bytes), followed by its entries.
#[derive(Clone, Copy, Debug)]
pub struct ImageResourceDirectory {
    pub characteristics: u32,
    pub time_date_stamp: u32,
    pub major_version: u16,
    pub minor_version: u16,
    pub number_of_named_entries: u16,
    pub number_of_id_entries: u16,
}

impl ImageResourceDirectory {
    /// A directory head with every field zero.
    pub fn new() -> (d: ImageResourceDirectory)
        ensures
            d.characteristics == 0 && d.time_date_stamp == 0 && d.major_version == 0
                && d.minor_version == 0 && d.number_of_named_entries == 0
                && d.number_of_id_entries == 0,
    {
        ImageResourceDirectory {
            characteristics: 0,
            time_date_stamp: 0,
            major_version: 0,
            minor_version: 0,
            number_of_named_entries: 0,
            number_of_id_entries: 0,
        }
    }
}

/// One resource directory entry (8 bytes): a name or id, and the offset of a
/// subdirectory or of a data entry.
#[derive(Clone, Copy, Debug)]
pub struct ImageResourceDirectoryEntry {
    pub name_or_id: u32,
    pub data_or_directory: u32,
}

impl ImageResourceDirectoryEntry {
    /// An entry with both fields zero.
    pub fn new() -> (e: ImageResourceDirectoryEntry)
        ensures
            e.name_or_id == 0 && e.data_or_directory == 0,
    {
        ImageResourceDirectoryEntry { name_or_id: 0, data_or_directory: 0 }
    }

    /// The entry is named (its name field points at a length-prefixed string).
    pub open spec fn spec_is_name(&self) -> bool {
        self.name_or_id & RESOURCE_HIGH_BIT != 0
    }

    /// The entry is named (its name field points at a length-prefixed string).
    #[verifier::when_used_as_spec(spec_is_name)]
    pub fn is_name(&self) -> (b: bool)
        ensures
            b == self.spec_is_name(),
    {
        self.name_or_id & RESOURCE_HIGH_BIT != 0
    }

    /// The entry is identified by an integer id.
    pub open spec fn spec_is_id(&self) -> bool {
        self.name_or_id & RESOURCE_HIGH_BIT == 0
    }

    /// The entry is identified by an integer id.
    #[verifier::when_used_as_spec(spec_is_id)]
    pub fn is_id(&self) -> (b: bool)
        ensures
            b == self.spec_is_id(),
    {
        self.name_or_id & RESOURCE_HIGH_BIT == 0
    }

    /// The id, or the offset of the name string, without the high bit.
    pub open spec fn spec_get_name_or_id(&self) -> u32 {
        self.name_or_id & RESOURCE_LOW_MASK
    }

    /// The id, or the offset of the name string, without the high bit.
    #[verifier::when_used_as_spec(spec_get_name_or_id)]
    pub fn get_name_or_id(&self) -> (v: u32)
        ensures
            v == self.spec_get_name_or_id(),
    {
        self.name_or_id & RESOURCE_LOW_MASK
    }

    /// The entry points at a subdirectory rather than at a data entry.
    pub open spec fn spec_is_directory(&self) -> bool {
        self.data_or_directory & RESOURCE_HIGH_BIT != 0
    }

    /// The entry points at a subdirectory rather than at a data entry.
    #[verifier::when_used_as_spec(spec_is_directory)]
    pub fn is_directory(&self) -> (b: bool)
        ensures
            b == self.spec_is_directory(),
    {
        self.data_or_directory & RESOURCE_HIGH_BIT != 0
    }

    /// Offset of the subdirectory or data entry, without the high bit.
    pub open spec fn spec_get_offset(&self) -> u32 {
        self.data_or_directory & RESOURCE_LOW_MASK
    }

    /// Offset of the subdirectory or data entry, without the high bit.
    #[verifier::when_used_as_spec(spec_get_offset)]
    pub fn get_offset(&self) -> (v: u32)
        ensures
            v == self.spec_get_offset(),
    {
        self.data_or_directory & RESOURCE_LOW_MASK
    }
}

/// A resource data entry with 32-bit fields.
#[derive(Clone, Copy, Debug)]
pub struct ImageResourceDataEntry32 {
    pub offset_to_data: u32,
    pub size: u32,
    pub code_page: u32,
    pub reserved: u32,
}

impl ImageResourceDataEntry32 {
    /// A data entry with every field zero.
    pub fn new() -> (d: ImageResourceDataEntry32)
        ensures
            d.offset_to_data == 0 && d.size == 0 && d.code_page == 0 && d.reserved == 0,
    {
        ImageResourceDataEntry32 { offset_to_data: 0, size: 0, code_page: 0, reserved: 0 }
    }
}

/// A resource data entry with 64-bit fields.
#[derive(Clone, Copy, Debug)]
pub struct ImageResourceDataEntry64 {
    pub offset_to_data: u64,
    pub size: u64,
    pub code_page: u64,
    pub reserved: u64,
}

impl ImageResourceDataEntry64 {
    /// A data entry with every field zero.
    pub fn new() -> (d: ImageResourceDataEntry64)
        ensures
            d.offset_to_data == 0 && d.size == 0 && d.code_page == 0 && d.reserved == 0,
    {
        ImageResourceDataEntry64 { offset_to_data: 0, size: 0, code_page: 0, reserved: 0 }
    }
}

} // verus!
