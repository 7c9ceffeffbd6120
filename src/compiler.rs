use vstd::prelude::*;

use crate::instruction::{encode, instr_size, lemma_encoded_size, BinaryInstruction};
use crate::labels::{lookup, LabelTable};
use crate::types::{Error, ErrorKind, Line};

verus! {

/// The address at which the interrupt service routine begins.
pub const ISR_ADDR: u8 = 0xA0;

/// The reserved label of the interrupt service routine.
pub open spec fn isr_name() -> Seq<char> {
    seq!['i', 's', 'r']
}

pub open spec fn is_isr_label(label: Option<String>) -> bool {
    label matches Some(l) && l@ == isr_name()
}

/// Where the instruction of a line begins, given the labels bound so far and
/// the address reached by the lines before it.
pub open spec fn line_start(
    table: Seq<(Seq<char>, u8)>,
    addr: int,
    label: Option<String>,
) -> Result<int, ErrorKind> {
    match label {
        None => Ok(addr),
        Some(l) => if lookup(table, l@) is Some {
            Err(ErrorKind::DuplicateLabel)
        } else if l@ == isr_name() {
            if addr > ISR_ADDR {
                Err(ErrorKind::AddressOverflow)
            } else {
                Ok(ISR_ADDR as int)
            }
        } else {
            Ok(addr)
        },
    }
}

/// The label table and the address reached after the first `n` lines.
pub open spec fn resolve_prefix(lines: Seq<Line>, n: nat) -> Result<
    (Seq<(Seq<char>, u8)>, int),
    ErrorKind,
>
    decreases n,
{
    if n == 0 || n > lines.len() {
        Ok((Seq::empty(), 0))
    } else {
        match resolve_prefix(lines, (n - 1) as nat) {
            Err(e) => Err(e),
            Ok((table, addr)) => {
                let line = lines[n - 1];
                match line_start(table, addr, line.0) {
                    Err(e) => Err(e),
                    Ok(start) => {
                        let next = start + instr_size(line.1);
                        if next > 255 {
                            Err(ErrorKind::AddressOverflow)
                        } else {
                            match line.0 {
                                Some(l) => Ok((table.push((l@, start as u8)), next)),
                                None => Ok((table, next)),
                            }
                        }
                    },
                }
            },
        }
    }
}

/// The label table of a whole program.
pub open spec fn resolve(lines: Seq<Line>) -> Result<Seq<(Seq<char>, u8)>, ErrorKind> {
    match resolve_prefix(lines, lines.len()) {
        Ok((table, _)) => Ok(table),
        Err(e) => Err(e),
    }
}

/// The bytes emitted for the first `n` lines, with `table` bound.
pub open spec fn emit_prefix(lines: Seq<Line>, table: Seq<(Seq<char>, u8)>, n: nat) -> Result<
    Seq<u8>,
    ErrorKind,
>
    decreases n,
{
    if n == 0 || n > lines.len() {
        Ok(Seq::empty())
    } else {
        match emit_prefix(lines, table, (n - 1) as nat) {
            Err(e) => Err(e),
            Ok(bytes) => {
                let line = lines[n - 1];
                let padded = if is_isr_label(line.0) && bytes.len() < ISR_ADDR {
                    bytes + Seq::new((ISR_ADDR - bytes.len()) as nat, |i: int| 0u8)
                } else {
                    bytes
                };
                match encode(line.1, padded.len() as u8, table) {
                    Err(e) => Err(e),
                    Ok(b) => Ok(padded + b),
                }
            },
        }
    }
}

/// The memory image of a whole program.
pub open spec fn compile_spec(lines: Seq<Line>) -> Result<Seq<u8>, ErrorKind> {
    match resolve(lines) {
        Err(e) => Err(e),
        Ok(table) => emit_prefix(lines, table, lines.len()),
    }
}

/// Whether `s` is the reserved label `isr`.
fn is_isr(s: &String) -> (r: bool)
    ensures
        r == (s@ == isr_name()),
{
    let t = s.as_str();
    let n = t.unicode_len();
    if n != 3 {
        return false;
    }
    let r = t.get_char(0) == 'i' && t.get_char(1) == 's' && t.get_char(2) == 'r';
    assert(r ==> t@ =~= isr_name());
    r
}

/// A walk that succeeds succeeds on each of its prefixes.
pub(crate) proof fn lemma_resolve_prefix_ok(lines: Seq<Line>, i: nat, n: nat)
    requires
        i <= n <= lines.len(),
        resolve_prefix(lines, n) is Ok,
    ensures
        resolve_prefix(lines, i) is Ok,
    decreases n - i,
{
    if i < n {
        lemma_resolve_prefix_ok(lines, i, (n - 1) as nat);
    }
}

/// A failed prefix makes the whole walk fail the same way.
proof fn lemma_resolve_prefix_err(lines: Seq<Line>, i: nat, n: nat)
    requires
        i <= n <= lines.len(),
        resolve_prefix(lines, i) is Err,
    ensures
        resolve_prefix(lines, n) == resolve_prefix(lines, i),
    decreases n - i,
{
    if i < n {
        lemma_resolve_prefix_err(lines, i, (n - 1) as nat);
    }
}

/// A failed prefix makes the whole emission fail the same way.
proof fn lemma_emit_prefix_err(lines: Seq<Line>, table: Seq<(Seq<char>, u8)>, i: nat, n: nat)
    requires
        i <= n <= lines.len(),
        emit_prefix(lines, table, i) is Err,
    ensures
        emit_prefix(lines, table, n) == emit_prefix(lines, table, i),
    decreases n - i,
{
    if i < n {
        lemma_emit_prefix_err(lines, table, i, (n - 1) as nat);
    }
}

/// Builds the table of label addresses.
pub fn generate_label_table(program: &[Line]) -> (r: Result<LabelTable, Error>)
    ensures
        match r {
            Ok(t) => resolve(program@) == Ok::<Seq<(Seq<char>, u8)>, ErrorKind>(t@),
            Err(e) => resolve(program@) == Err::<Seq<(Seq<char>, u8)>, ErrorKind>(e.kind),
        },
{
    let mut table = LabelTable::new();
    let mut addr: u8 = 0;
    let mut i: usize = 0;
    while i < program.len()
        invariant
            i <= program@.len(),
            resolve_prefix(program@, i as nat) == Ok::<(Seq<(Seq<char>, u8)>, int), ErrorKind>(
                (table@, addr as int),
            ),
        ensures
            resolve_prefix(program@, program@.len()) == Ok::<(Seq<(Seq<char>, u8)>, int), ErrorKind>(
                (table@, addr as int),
            ),
        decreases program@.len() - i,
    {
        let (label, instr) = &program[i];
        let ghost before = table@;
        if let Some(label) = label {
            if table.get(label).is_some() {
                proof {
                    lemma_resolve_prefix_err(program@, (i + 1) as nat, program@.len());
                }
                return Err(
                    Error::with_subject(
                        ErrorKind::DuplicateLabel,
                        "Label defined multiple times : ",
                        label.as_str(),
                    ),
                );
            }
            if is_isr(label) {
                if addr > ISR_ADDR {
                    proof {
                        lemma_resolve_prefix_err(program@, (i + 1) as nat, program@.len());
                    }
                    return Err(
                        Error::new(
                            ErrorKind::AddressOverflow,
                            "Code before the interrupt service routine is too large",
                        ),
                    );
                }
                addr = ISR_ADDR;
            }
        }
        let size = instr.get_byte_size();
        if addr > 255 - size {
            proof {
                lemma_resolve_prefix_err(program@, (i + 1) as nat, program@.len());
            }
            return Err(Error::new(ErrorKind::AddressOverflow, "Overflowing address (Program too large)"));
        }
        if let Some(label) = label {
            table.insert(label.clone(), addr);
        }
        addr = addr + size;
        i = i + 1;
        assert(resolve_prefix(program@, i as nat) == Ok::<(Seq<(Seq<char>, u8)>, int), ErrorKind>(
            (table@, addr as int),
        ));
    }
    Ok(table)
}

/// Assembles a program into its memory image.
pub fn compile(program: &[Line]) -> (r: Result<Vec<u8>, Error>)
    ensures
        match r {
            Ok(bytes) => compile_spec(program@) == Ok::<Seq<u8>, ErrorKind>(bytes@),
            Err(e) => compile_spec(program@) == Err::<Seq<u8>, ErrorKind>(e.kind),
        },
{
    let label_table = generate_label_table(program)?;
    let mut bytes: Vec<u8> = Vec::new();
    let mut i: usize = 0;
    while i < program.len()
        invariant
            i <= program@.len(),
            resolve_prefix(program@, program@.len()) is Ok,
            resolve(program@) == Ok::<Seq<(Seq<char>, u8)>, ErrorKind>(label_table@),
            emit_prefix(program@, label_table@, i as nat) == Ok::<Seq<u8>, ErrorKind>(bytes@),
            resolve_prefix(program@, i as nat) matches Ok((_, a)) && a == bytes@.len(),
        decreases program@.len() - i,
    {
        proof {
            lemma_resolve_prefix_ok(program@, (i + 1) as nat, program@.len());
        }
        let (label, instr) = &program[i];
        let ghost before = bytes@;
        if let Some(label) = label {
            if is_isr(label) && bytes.len() < ISR_ADDR as usize {
                bytes.resize(ISR_ADDR as usize, 0);
                assert(bytes@ =~= before + Seq::new((ISR_ADDR - before.len()) as nat, |k: int| 0u8));
            }
        }
        let ghost padded = bytes@;
        let bin = match instr.to_binary(bytes.len() as u8, &label_table) {
            Ok(b) => b,
            Err(e) => {
                proof {
                    lemma_emit_prefix_err(program@, label_table@, (i + 1) as nat, program@.len());
                }
                return Err(e);
            },
        };
        proof {
            lemma_encoded_size(*instr, padded.len() as u8, label_table@);
        }
        match bin {
            BinaryInstruction::SingleByte(arr) => {
                bytes.push(arr[0]);
            },
            BinaryInstruction::DoubleByte(arr) => {
                bytes.push(arr[0]);
                bytes.push(arr[1]);
            },
        }
        assert(bytes@ =~= padded + bin.bytes());
        i = i + 1;
    }
    Ok(bytes)
}

} // verus!
