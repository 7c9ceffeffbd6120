use vstd::prelude::*;

use crate::types::{Error, ErrorKind};

verus! {

/// An operand: a register, an immediate, or a memory cell.
#[derive(Debug, Clone, Copy, PartialEq, Eq, Structural)]
pub enum DataHolder {
    /// Register A.
    A,
    /// Register B.
    B,
    /// A signed 8-bit immediate.
    Const(i8),
    /// The memory cell addressed by register A.
    AAddr,
    /// The memory cell at a literal address.
    ConstAddr(i8),
}

/// The bit of an operand in the register-only slot: A is 0, B is 1.
pub open spec fn arg1_bit(d: DataHolder) -> Option<u8> {
    match d {
        DataHolder::A => Some(0u8),
        DataHolder::B => Some(1u8),
        _ => None,
    }
}

/// The bit of an operand in the register-or-immediate slot: A is 0, an
/// immediate is 1.
pub open spec fn arg2_bit(d: DataHolder) -> Option<u8> {
    match d {
        DataHolder::A => Some(0u8),
        DataHolder::Const(_) => Some(1u8),
        _ => None,
    }
}

/// The bit of a register destination: A is 0, B is 1.
pub open spec fn dest_bit(d: DataHolder) -> Option<u8> {
    arg1_bit(d)
}

impl DataHolder {
    pub fn encode_arg1(&self) -> (r: Result<u8, Error>)
        ensures
            match r {
                Ok(v) => arg1_bit(*self) == Some(v),
                Err(e) => arg1_bit(*self) is None && e.kind == ErrorKind::Operand,
            },
    {
        match *self {
            DataHolder::A => Ok(0),
            DataHolder::B => Ok(1),
            _ => Err(Error::new(ErrorKind::Operand, "Argument arg1 non applicable")),
        }
    }

    pub fn encode_dest(&self) -> (r: Result<u8, Error>)
        ensures
            match r {
                Ok(v) => dest_bit(*self) == Some(v),
                Err(e) => dest_bit(*self) is None && e.kind == ErrorKind::Operand,
            },
    {
        match *self {
            DataHolder::A => Ok(0),
            DataHolder::B => Ok(1),
            _ => Err(Error::new(ErrorKind::Operand, "Argument dest non applicable")),
        }
    }

    pub fn encode_arg2(&self) -> (r: Result<u8, Error>)
        ensures
            match r {
                Ok(v) => arg2_bit(*self) == Some(v),
                Err(e) => arg2_bit(*self) is None && e.kind == ErrorKind::Operand,
            },
    {
        match *self {
            DataHolder::A => Ok(0),
            DataHolder::Const(_) => Ok(1),
            _ => Err(Error::new(ErrorKind::Operand, "Argument arg2 non applicable")),
        }
    }
}

} // verus!
