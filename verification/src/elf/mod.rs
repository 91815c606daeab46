//! ELF front-end: memory permissions, the backend trait and the error type.
use vstd::prelude::*;

pub mod loader;

pub use loader::{ElfLoader, Perm};

verus! {

/// Error returned when an ELF image is too small or malformed to parse.
#[derive(Debug, Clone, PartialEq, Eq)]
pub struct ElfError(pub String);

impl ElfError {
    /// Builds an error that carries `msg`.
    pub fn new(msg: &str) -> (e: ElfError)
        ensures
            e.0@ == msg@,
    {
        ElfError(String::from_str(msg))
    }

    /// The text a user sees for this error: `elf: ` followed by the message.
    pub fn to_string(&self) -> (s: String)
        ensures
            s@ == "elf: "@ + self.0@,
    {
        let mut s = String::from_str("elf: ");
        s.append(self.0.as_str());
        s
    }
}

} // verus!
