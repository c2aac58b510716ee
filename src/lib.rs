//! Terminal reflow helpers for e-book chapters: styled runs, image
//! footprints, accent-insensitive search and highlight placement.

pub mod style;
pub mod text;
pub mod chars;
pub mod image;
pub mod parser;
pub mod deunicode;
pub mod book;
