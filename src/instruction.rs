use vstd::prelude::*;

use crate::data_holder::{arg1_bit, arg2_bit, dest_bit, DataHolder};
use crate::jumps::{cond_bits, JRCond, JumpTarget, TargetView};
use crate::labels::{lookup, LabelTable};
use crate::operation::Operation;
use crate::types::{Error, ErrorKind};

verus! {

/// One machine instruction.
#[derive(Debug)]
pub enum Instruction {
    /// Computes `op` and stores the result in `dest`.
    Assignment { op: Operation, dest: DataHolder },
    /// Jumps to an absolute address.
    JA(JumpTarget),
    /// Jumps by a signed offset when the condition holds.
    JR(JRCond, JumpTarget),
    /// Compares two operands by subtraction, setting the flags only.
    Check(DataHolder, DataHolder),
    /// Returns from the interrupt service routine.
    RetI,
}

/// An instruction with its jump target seen through its view.
pub enum InstrView {
    Assignment { op: Operation, dest: DataHolder },
    JA(TargetView),
    JR(JRCond, TargetView),
    Check(DataHolder, DataHolder),
    RetI,
}

impl View for Instruction {
    type V = InstrView;

    open spec fn view(&self) -> InstrView {
        match self {
            Instruction::Assignment { op, dest } => InstrView::Assignment { op: *op, dest: *dest },
            Instruction::JA(t) => InstrView::JA(t@),
            Instruction::JR(c, t) => InstrView::JR(*c, t@),
            Instruction::Check(a, b) => InstrView::Check(*a, *b),
            Instruction::RetI => InstrView::RetI,
        }
    }
}

/// The encoding of one instruction.
pub enum BinaryInstruction {
    SingleByte([u8; 1]),
    DoubleByte([u8; 2]),
}

impl BinaryInstruction {
    pub open spec fn bytes(&self) -> Seq<u8> {
        match self {
            BinaryInstruction::SingleByte(a) => a@,
            BinaryInstruction::DoubleByte(a) => a@,
        }
    }
}

/// Opcode of an absolute jump.
pub const JA_OPCODE: u8 = 0b01111000;

/// Opcode of a return from interrupt.
pub const RETI_OPCODE: u8 = 0b01011000;

/// The byte that carries an immediate value: its two's complement form.
pub open spec fn byte_of(c: i8) -> u8 {
    c as u8
}

/// How many bytes the instruction occupies.
pub open spec fn instr_size(i: Instruction) -> u8 {
    match i {
        Instruction::JA(_) => 2,
        Instruction::Check(_, DataHolder::Const(_)) => 2,
        Instruction::Assignment { op, dest } => {
            if dest is ConstAddr {
                2
            } else {
                match op {
                    Operation::Add(_, DataHolder::Const(_)) => 2,
                    Operation::Sub(_, DataHolder::Const(_)) => 2,
                    Operation::And(_, DataHolder::Const(_)) => 2,
                    Operation::Or(_, DataHolder::Const(_)) => 2,
                    Operation::Xor(_, DataHolder::Const(_)) => 2,
                    Operation::Identity(DataHolder::Const(_)) => 2,
                    Operation::Identity(DataHolder::ConstAddr(_)) => 2,
                    _ => 1,
                }
            }
        },
        _ => 1,
    }
}

/// The value of a byte read as a signed 8-bit integer.
pub open spec fn signed_of(v: u8) -> int {
    if v < 128 {
        v as int
    } else {
        v - 256
    }
}

/// A difference of two bytes narrowed to a signed 8-bit integer.
pub open spec fn narrow_i8(d: int) -> int {
    if d > 127 {
        d - 256
    } else if d < -128 {
        d + 256
    } else {
        d
    }
}

pub open spec fn fits_offset(o: int) -> bool {
    -16 <= o <= 15
}

/// The offset of a relative jump at `addr`.
pub open spec fn jr_offset(target: JumpTarget, addr: u8, table: Seq<(Seq<char>, u8)>) -> Result<
    int,
    ErrorKind,
> {
    match target {
        JumpTarget::Const(v) => if fits_offset(signed_of(v)) {
            Ok(signed_of(v))
        } else {
            Err(ErrorKind::Range)
        },
        JumpTarget::Label(l) => match lookup(table, l@) {
            None => Err(ErrorKind::UndefinedLabel),
            Some(t) => {
                let o = narrow_i8(t - addr);
                if fits_offset(o) {
                    Ok(o)
                } else {
                    Err(ErrorKind::Range)
                }
            },
        },
    }
}

/// A signed 5-bit offset in two's complement.
pub open spec fn offset_bits(o: int) -> int {
    if o >= 0 {
        o
    } else {
        o + 32
    }
}

/// The instruction's first byte followed, for an immediate, by its value.
pub open spec fn with_immediate(first: int, arg: DataHolder) -> Seq<u8> {
    match arg {
        DataHolder::Const(c) => seq![first as u8, byte_of(c)],
        DataHolder::ConstAddr(c) => seq![first as u8, byte_of(c)],
        _ => seq![first as u8],
    }
}

/// The opcode nibble of a two-operand operation.
pub open spec fn binary_opcode(op: Operation) -> int {
    match op {
        Operation::Add(..) => 0,
        Operation::Sub(..) => 1,
        Operation::And(..) => 2,
        Operation::Or(..) => 3,
        _ => 4,
    }
}

/// 0 for a memory cell addressed by A, 1 for one at a literal address.
pub open spec fn indirect_bit(d: DataHolder) -> int {
    if d is ConstAddr {
        1
    } else {
        0
    }
}

pub open spec fn is_indirect(d: DataHolder) -> bool {
    d is AAddr || d is ConstAddr
}

/// The encoding of an assignment.
pub open spec fn encode_assignment(op: Operation, dest: DataHolder) -> Result<Seq<u8>, ErrorKind> {
    match op {
        Operation::Add(a1, a2)
        | Operation::Sub(a1, a2)
        | Operation::And(a1, a2)
        | Operation::Or(a1, a2)
        | Operation::Xor(a1, a2) => {
            if arg1_bit(a1) is None || arg2_bit(a2) is None || dest_bit(dest) is None {
                Err(ErrorKind::Operand)
            } else {
                Ok(
                    with_immediate(
                        binary_opcode(op) * 8 + arg2_bit(a2)->0 * 4 + arg1_bit(a1)->0 * 2
                            + dest_bit(dest)->0,
                        a2,
                    ),
                )
            }
        },
        Operation::LShiftRight(a1) | Operation::Not(a1) => {
            if arg1_bit(a1) is None || dest_bit(dest) is None {
                Err(ErrorKind::Operand)
            } else {
                let base = if op is Not {
                    0b1000 * 8 + 4
                } else {
                    0b0101 * 8
                };
                Ok(seq![(base + arg1_bit(a1)->0 * 2 + dest_bit(dest)->0) as u8])
            }
        },
        Operation::Identity(arg) => match dest_bit(dest) {
            Some(d) => match arg {
                DataHolder::A | DataHolder::Const(_) => Ok(
                    with_immediate(0b1001 * 8 + arg2_bit(arg)->0 * 4 + d, arg),
                ),
                DataHolder::AAddr | DataHolder::ConstAddr(_) => Ok(
                    with_immediate(0b1101 * 8 + indirect_bit(arg) * 4 + d, arg),
                ),
                DataHolder::B => Ok(seq![(0b1000 * 8 + 2 + d) as u8]),
            },
            None => if is_indirect(dest) && arg1_bit(arg) is Some {
                Ok(with_immediate(0b1110 * 8 + indirect_bit(dest) * 4 + arg1_bit(arg)->0 * 2, dest))
            } else {
                Err(ErrorKind::Operand)
            },
        },
    }
}

/// The encoding of `i` placed at `addr`, with labels bound as in `table`.
pub open spec fn encode(i: Instruction, addr: u8, table: Seq<(Seq<char>, u8)>) -> Result<
    Seq<u8>,
    ErrorKind,
> {
    match i {
        Instruction::JA(target) => match target {
            JumpTarget::Const(v) => Ok(seq![JA_OPCODE, v]),
            JumpTarget::Label(l) => match lookup(table, l@) {
                Some(t) => Ok(seq![JA_OPCODE, t]),
                None => Err(ErrorKind::UndefinedLabel),
            },
        },
        Instruction::JR(cond, target) => match jr_offset(target, addr, table) {
            Ok(o) => Ok(seq![(128 + cond_bits(cond) * 32 + offset_bits(o)) as u8]),
            Err(e) => Err(e),
        },
        Instruction::Check(a1, a2) => {
            if arg1_bit(a1) is None || arg2_bit(a2) is None {
                Err(ErrorKind::Operand)
            } else {
                Ok(with_immediate(0b00110 * 8 + arg2_bit(a2)->0 * 4 + arg1_bit(a1)->0 * 2, a2))
            }
        },
        Instruction::Assignment { op, dest } => encode_assignment(op, dest),
        Instruction::RetI => Ok(seq![RETI_OPCODE]),
    }
}

/// The label a jump names, or the empty name for any other instruction.
pub open spec fn jump_label(i: Instruction) -> Seq<char> {
    match i {
        Instruction::JA(JumpTarget::Label(l)) => l@,
        Instruction::JR(_, JumpTarget::Label(l)) => l@,
        _ => Seq::empty(),
    }
}

/// The description of an error on an undefined label.
pub open spec fn undefined_label_message(label: Seq<char>) -> Seq<char> {
    "Undefined label : "@ + label
}

/// The one- or two-byte encoding whose first byte is `first`, followed by the
/// value of `arg` where it is an immediate or a literal address.
fn emit(first: u8, arg: &DataHolder) -> (r: BinaryInstruction)
    ensures
        r.bytes() == with_immediate(first as int, *arg),
{
    match *arg {
        DataHolder::Const(c) | DataHolder::ConstAddr(c) => {
            let r = BinaryInstruction::DoubleByte([first, c as u8]);
            assert(r.bytes() =~= with_immediate(first as int, *arg));
            r
        },
        _ => {
            let r = BinaryInstruction::SingleByte([first]);
            assert(r.bytes() =~= with_immediate(first as int, *arg));
            r
        },
    }
}

/// The offset of a relative jump, checked against the signed 5-bit range.
fn relative_offset(target: &JumpTarget, current_addr: u8, label_table: &LabelTable) -> (r: Result<
    i16,
    Error,
>)
    ensures
        match r {
            Ok(o) => jr_offset(*target, current_addr, label_table@) == Ok::<int, ErrorKind>(o as int),
            Err(e) => jr_offset(*target, current_addr, label_table@) == Err::<int, ErrorKind>(e.kind),
        },
        r matches Err(e) ==> (e.kind == ErrorKind::UndefinedLabel ==> e.message@
            == undefined_label_message(target->Label_0@)),
{
    match target {
        JumpTarget::Const(v) => {
            let o: i16 = if *v < 128 {
                *v as i16
            } else {
                *v as i16 - 256
            };
            if o < -16 || o > 15 {
                return Err(Error::new(ErrorKind::Range, "Relative jump out of range"));
            }
            Ok(o)
        },
        JumpTarget::Label(label) => match label_table.get(label) {
            None => Err(Error::with_subject(ErrorKind::UndefinedLabel, "Undefined label : ", label.as_str())),
            Some(t) => {
                let d: i16 = t as i16 - current_addr as i16;
                let o: i16 = if d > 127 {
                    d - 256
                } else if d < -128 {
                    d + 256
                } else {
                    d
                };
                if o < -16 || o > 15 {
                    return Err(
                        Error::with_subject(
                            ErrorKind::Range,
                            "Relative jump to a label too far away : ",
                            label.as_str(),
                        ),
                    );
                }
                Ok(o)
            },
        },
    }
}

impl Instruction {
    /// Encodes the instruction placed at `current_addr`.
    pub fn to_binary(&self, current_addr: u8, label_table: &LabelTable) -> (r: Result<
        BinaryInstruction,
        Error,
    >)
        ensures
            match r {
                Ok(b) => encode(*self, current_addr, label_table@) == Ok::<Seq<u8>, ErrorKind>(b.bytes()),
                Err(e) => encode(*self, current_addr, label_table@) == Err::<Seq<u8>, ErrorKind>(e.kind),
            },
            r matches Err(e) ==> (e.kind == ErrorKind::UndefinedLabel ==> e.message@
                == undefined_label_message(jump_label(*self))),
    {
        match self {
            Instruction::JA(target) => {
                let addr: u8 = match target {
                    JumpTarget::Const(v) => *v,
                    JumpTarget::Label(label) => match label_table.get(label) {
                        Some(t) => t,
                        None => {
                            return Err(
                                Error::with_subject(
                                    ErrorKind::UndefinedLabel,
                                    "Undefined label : ",
                                    label.as_str(),
                                ),
                            );
                        },
                    },
                };
                let r = BinaryInstruction::DoubleByte([JA_OPCODE, addr]);
                assert(r.bytes() =~= seq![JA_OPCODE, addr]);
                Ok(r)
            },
            Instruction::JR(cond, target) => {
                let c: u8 = match cond {
                    JRCond::True => 0b00,
                    JRCond::IfZ => 0b01,
                    JRCond::IfC => 0b10,
                    JRCond::IfN => 0b11,
                };
                let o = relative_offset(target, current_addr, label_table)?;
                let bits: u8 = if o >= 0 {
                    o as u8
                } else {
                    (o + 32) as u8
                };
                let byte: u8 = 128 + c * 32 + bits;
                let r = BinaryInstruction::SingleByte([byte]);
                assert(r.bytes() =~= seq![byte]);
                Ok(r)
            },
            Instruction::Check(arg1, arg2) => {
                let a1 = arg1.encode_arg1()?;
                let a2 = arg2.encode_arg2()?;
                Ok(emit(0b00110 * 8 + a2 * 4 + a1 * 2, arg2))
            },
            Instruction::Assignment { op, dest } => encode_assignment_exec(op, dest),
            Instruction::RetI => {
                let r = BinaryInstruction::SingleByte([RETI_OPCODE]);
                assert(r.bytes() =~= seq![RETI_OPCODE]);
                Ok(r)
            },
        }
    }

    /// How many bytes the instruction occupies.
    pub fn get_byte_size(&self) -> (r: u8)
        ensures
            r == instr_size(*self),
    {
        match self {
            Instruction::JA(_) => 2,
            Instruction::Check(_, DataHolder::Const(_)) => 2,
            Instruction::Assignment { op, dest } => {
                if let DataHolder::ConstAddr(_) = dest {
                    2
                } else {
                    match op {
                        Operation::Add(_, DataHolder::Const(_))
                        | Operation::Sub(_, DataHolder::Const(_))
                        | Operation::And(_, DataHolder::Const(_))
                        | Operation::Or(_, DataHolder::Const(_))
                        | Operation::Xor(_, DataHolder::Const(_))
                        | Operation::Identity(DataHolder::Const(_))
                        | Operation::Identity(DataHolder::ConstAddr(_)) => 2,
                        _ => 1,
                    }
                }
            },
            _ => 1,
        }
    }
}

/// Encodes the assignment of `op` to `dest`.
fn encode_assignment_exec(op: &Operation, dest: &DataHolder) -> (r: Result<BinaryInstruction, Error>)
    ensures
        match r {
            Ok(b) => encode_assignment(*op, *dest) == Ok::<Seq<u8>, ErrorKind>(b.bytes()),
            Err(e) => encode_assignment(*op, *dest) == Err::<Seq<u8>, ErrorKind>(e.kind),
        },
{
    match op {
        Operation::Add(arg1, arg2)
        | Operation::Sub(arg1, arg2)
        | Operation::And(arg1, arg2)
        | Operation::Or(arg1, arg2)
        | Operation::Xor(arg1, arg2) => {
            let a1 = arg1.encode_arg1()?;
            let a2 = arg2.encode_arg2()?;
            let d = dest.encode_dest()?;
            let opcode: u8 = match op {
                Operation::Add(..) => 0b0000,
                Operation::Sub(..) => 0b0001,
                Operation::And(..) => 0b0010,
                Operation::Or(..) => 0b0011,
                _ => 0b0100,
            };
            Ok(emit(opcode * 8 + a2 * 4 + a1 * 2 + d, arg2))
        },
        Operation::LShiftRight(arg1) | Operation::Not(arg1) => {
            let a1 = arg1.encode_arg1()?;
            let d = dest.encode_dest()?;
            let base: u8 = match op {
                Operation::Not(..) => 0b1000 * 8 + 4,
                _ => 0b0101 * 8,
            };
            let byte: u8 = base + a1 * 2 + d;
            let r = BinaryInstruction::SingleByte([byte]);
            assert(r.bytes() =~= seq![byte]);
            Ok(r)
        },
        Operation::Identity(arg) => {
            if let Ok(d) = dest.encode_dest() {
                match arg {
                    DataHolder::A | DataHolder::Const(_) => {
                        let a2 = arg.encode_arg2()?;
                        Ok(emit(0b1001 * 8 + a2 * 4 + d, arg))
                    },
                    DataHolder::AAddr | DataHolder::ConstAddr(_) => {
                        let k: u8 = if let DataHolder::ConstAddr(_) = arg {
                            1
                        } else {
                            0
                        };
                        Ok(emit(0b1101 * 8 + k * 4 + d, arg))
                    },
                    DataHolder::B => {
                        let a1 = arg.encode_arg1()?;
                        let byte: u8 = 0b1000 * 8 + a1 * 2 + d;
                        let r = BinaryInstruction::SingleByte([byte]);
                        assert(r.bytes() =~= seq![byte]);
                        Ok(r)
                    },
                }
            } else {
                match dest {
                    DataHolder::AAddr | DataHolder::ConstAddr(_) => {
                        let k: u8 = if let DataHolder::ConstAddr(_) = dest {
                            1
                        } else {
                            0
                        };
                        let a1 = arg.encode_arg1()?;
                        Ok(emit(0b1110 * 8 + k * 4 + a1 * 2, dest))
                    },
                    _ => Err(Error::new(ErrorKind::Operand, "Argument dest or *arg2 non applicable")),
                }
            }
        },
    }
}

/// Every encoding that succeeds is as long as the size of its instruction.
pub proof fn lemma_encoded_size(i: Instruction, addr: u8, table: Seq<(Seq<char>, u8)>)
    ensures
        encode(i, addr, table) matches Ok(b) ==> b.len() == instr_size(i),
{
}

} // verus!
