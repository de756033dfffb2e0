//! A memory-mapped text-display driver for a fixed character grid: a
//! synchronized writer with cursor, scroll and sanitization for the normal
//! output path, a lock-free reentrant fallback writer for fault reporting,
//! and the diagnostic and entry routines built on them.

pub mod color;
pub mod surface;
pub mod writer;
pub mod fallback;
pub mod diagnostics;
pub mod laws;
pub mod entry;
