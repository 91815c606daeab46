//! The coupling point between the ELF loader and the memory it writes into.
use vstd::prelude::*;

verus! {

/// Runtime memory permissions for a mapped region.
#[derive(Clone, Copy, Debug, PartialEq, Eq)]
pub struct Perm {
    pub read: bool,
    pub write: bool,
    pub execute: bool,
}

impl Perm {
    /// Builds the permission set from its three flags.
    pub fn from_flags(read: bool, write: bool, execute: bool) -> (p: Perm)
        ensures
            p.read == read,
            p.write == write,
            p.execute == execute,
    {
        Perm { read, write, execute }
    }

    /// Readable and writable, not executable.
    pub fn read_write() -> (p: Perm)
        ensures
            p.read && p.write && !p.execute,
    {
        Perm { read: true, write: true, execute: false }
    }
}

/// Backend the ELF loader writes through: the implementor maps regions into its
/// own address space and patches relocation slots.
pub trait ElfLoader {
    /// Map `size` bytes named `name` at `addr` with `perm`; returns the base the
    /// region actually landed at, or `None` if it could not be mapped.
    fn map(&mut self, name: &str, addr: u64, size: u64, perm: Perm) -> Option<u64>;

    /// Reserve shared-library address space of `size`; returns its base.
    fn lib_alloc(&mut self, size: u64) -> Option<u64>;

    /// Write `data` into mapped memory at `addr`, bypassing permissions.
    fn write_bytes(&mut self, addr: u64, data: &[u8]) -> bool;

    /// Read a little-endian qword from mapped memory, or `None` if unmapped.
    fn read_qword(&self, addr: u64) -> Option<u64>;

    /// Patch a little-endian qword in mapped memory; `false` if unmapped.
    fn write_qword(&mut self, addr: u64, val: u64) -> bool;
}

} // verus!
