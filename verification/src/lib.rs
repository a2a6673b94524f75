//! Verified core of a spreadsheet normalization service.
//!
//! The library ingests workbook bytes (single files or archives of them),
//! normalizes every populated cell of the first sheet into a canonical
//! textual form, names an output workbook per input, keeps a registry of
//! the produced files, and scans registered workbooks for substring
//! matches.  Workbook parsing, archive coding and the clock are outside
//! crates behind trusted declarations; everything around them is
//! verified.  Writing the output workbook file itself is left to the
//! program around the library, which hands the native spreadsheet writer
//! the prepared cells in the order given here.

pub mod archive;
pub mod cell;
pub mod classify;
pub mod normalize;
pub mod pipeline;
pub mod registry;
pub mod render;
pub mod search;
pub mod sheetio;
pub mod transform;
