//! Locating masked byte patterns in a captured image of another process's module.
//!
//! The library holds the rules: the grammar of a pattern's text, what it means
//! for a pattern to match, which position a scan reports, and the life cycle
//! of a module's snapshot. It opens no process and reads no memory itself: a
//! caller hands it what the operating system answered, as plain values.

pub mod memory;
pub mod module;
pub mod pattern;
pub mod process;
pub mod scan;
pub mod text;
