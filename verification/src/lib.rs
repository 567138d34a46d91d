//! A two-pass assembler for the Hack machine language.
//!
//! Source text is cleaned into instruction lines, symbolic addresses are resolved to
//! numbers, and every instruction is encoded as a word of sixteen binary digits.

pub mod assembler;
pub mod encoder;
pub mod error;
pub mod output;
pub mod preprocess;
pub mod resolver;
pub mod symbol_table;
pub mod syntax;
pub mod tables;
pub mod text;

pub use crate::assembler::{assemble, assemble_source, encode_program};
pub use crate::encoder::{
    a_instruction, binary_converter, c_instruction, comparing_for_comp, encode,
    handle_instruction,
};
pub use crate::error::AsmError;
pub use crate::output::output_name;
pub use crate::preprocess::{clean_source, source_lines, strip};
pub use crate::resolver::{extract_labels, resolve_symbols, symbols};
pub use crate::symbol_table::SymbolTable;
