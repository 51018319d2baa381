//! Export-table inspection of executable images held in a caller-supplied
//! byte region.
//!
//! `memory` models the region and its checked reads, `mem_utils` decodes
//! strings and typed sequences from it, `text` turns code units into text,
//! and `pe_image` walks an image's header chain to its Export Directory.

pub mod mem_slice;
pub mod mem_utils;
pub mod memory;
pub mod text;
pub mod pe_image;
