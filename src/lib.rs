//! Loader for ELF64 executable images on a three-level, 4 KiB-page paging
//! scheme: address arithmetic, the mapping plan of an image, the splice of a
//! shared runtime region and the fix-ups of its relocations.
use vstd::prelude::*;

pub mod mem;
pub mod loader;
pub mod elf;
