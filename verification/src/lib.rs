//! Executable-header parsers and loaders for PE32/PE64 images, verified with Verus.
use vstd::prelude::*;

pub mod elf;
pub mod pe;
