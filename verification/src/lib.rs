//! Recovers a structured screenplay model from positioned text extracted out
//! of a typeset screenplay PDF: pages, lines, scenes, a location forest,
//! characters, and read-only reports over the result.
//!
//! All horizontal and vertical measurements are integers in hundredths of a
//! typographic point (1/7200 inch), so the layout arithmetic is exact.

pub mod assemble;
pub mod classify;
pub mod pdf_document;
pub mod pdf_parser;
pub mod reports;
pub mod scene_build;
pub mod screenplay_document;
pub mod strings;
