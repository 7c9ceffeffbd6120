use vstd::prelude::*;

use crate::instruction::Instruction;

verus! {

/// The class of a fatal assembly error.
#[derive(Debug, Clone, Copy, PartialEq, Eq, Structural)]
pub enum ErrorKind {
    /// The source text does not follow the grammar.
    Parse,
    /// A label is defined more than once.
    DuplicateLabel,
    /// The program does not fit in the 256-byte address space.
    AddressOverflow,
    /// An operand stands where its instruction cannot encode it.
    Operand,
    /// A jump names a label that is never defined.
    UndefinedLabel,
    /// A relative jump does not fit in a signed 5-bit offset.
    Range,
}

/// A fatal error, with its class and a human-readable description.
#[derive(Debug)]
pub struct Error {
    pub kind: ErrorKind,
    pub message: String,
}

impl Error {
    pub fn new(kind: ErrorKind, message: &str) -> (r: Error)
        ensures
            r.kind == kind,
            r.message@ == message@,
    {
        Error { kind, message: String::from_str(message) }
    }

    /// An error whose description is `prefix` followed by `subject`.
    pub fn with_subject(kind: ErrorKind, prefix: &str, subject: &str) -> (r: Error)
        ensures
            r.kind == kind,
            r.message@ == prefix@ + subject@,
    {
        let mut message = String::from_str(prefix);
        message.append(subject);
        Error { kind, message }
    }
}

/// One source line: an optional label and the instruction it carries.
pub type Line = (Option<String>, Instruction);

} // verus!
