//! A two-pass assembler for a small 8-bit register machine: source text is
//! parsed into lines, labels are resolved to addresses, and every instruction
//! is encoded into one or two bytes.
pub mod compiler;
pub mod data_holder;
pub mod instruction;
pub mod jumps;
pub mod labels;
pub mod laws;
pub mod operation;
pub mod parser;
pub mod types;

pub use compiler::{compile, generate_label_table};
pub use data_holder::DataHolder;
pub use instruction::{BinaryInstruction, Instruction};
pub use jumps::{JRCond, JumpTarget};
pub use labels::LabelTable;
pub use operation::Operation;
pub use parser::parse_program;
pub use types::{Error, ErrorKind, Line};
