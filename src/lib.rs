//! Format-language tokenizer and element renderer for extracting text from
//! HTML elements chosen by CSS selectors.

pub mod driver;
pub mod escape;
pub mod format;
pub mod render;
