//! Address-to-source-location resolution over DWARF debug information.
//!
//! Given the debug sections of a loaded binary image, this crate parses the
//! compilation-unit catalog, resolves each unit's address range, decodes
//! line-number programs into rows, and answers "which source line does this
//! program counter belong to?".

pub mod error;
pub mod facade;
pub mod lines;
pub mod ranges;
pub mod raw;
pub mod section;
pub mod units;
