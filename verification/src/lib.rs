//! The memory core of a small 64-bit kernel: a physical frame allocator,
//! four-level page tables, and the text console used for diagnostics.
//!
//! Everything here works on values the crate owns. Page tables are kept as an
//! owned hierarchy, the screen as a grid of cells; code that touches the
//! machine itself (boot information, the translation cache, the video
//! memory) lives with the caller and exchanges plain values with this crate.

pub mod boot;
pub mod memory;
pub mod vga;
