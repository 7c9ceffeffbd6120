use vstd::prelude::*;

use crate::compiler::{
    compile_spec, emit_prefix, is_isr_label, isr_name, lemma_resolve_prefix_ok, line_start, resolve,
    resolve_prefix, ISR_ADDR,
};
use crate::instruction::{encode, fits_offset, instr_size, lemma_encoded_size, signed_of, Instruction};
use crate::jumps::{JRCond, JumpTarget};
use crate::labels::lookup;
use crate::parser::{line_view, lines_view, program_rule};
use crate::types::{ErrorKind, Line};

verus! {

/// The bytes emitted for a prefix of the program are exactly as many as the
/// resolver counted for it, padding included.
proof fn lemma_emit_len(lines: Seq<Line>, table: Seq<(Seq<char>, u8)>, n: nat)
    requires
        n <= lines.len(),
        resolve_prefix(lines, n) is Ok,
        emit_prefix(lines, table, n) is Ok,
    ensures
        emit_prefix(lines, table, n)->Ok_0.len() == resolve_prefix(lines, n)->Ok_0.1,
    decreases n,
{
    if n > 0 {
        lemma_emit_len(lines, table, (n - 1) as nat);
        let bytes = emit_prefix(lines, table, (n - 1) as nat)->Ok_0;
        let line = lines[n - 1];
        let padded = if is_isr_label(line.0) && bytes.len() < ISR_ADDR {
            bytes + Seq::new((ISR_ADDR - bytes.len()) as nat, |i: int| 0u8)
        } else {
            bytes
        };
        lemma_encoded_size(line.1, padded.len() as u8, table);
    }
}

/// A prefix that walks without error keeps its bytes as more lines follow.
proof fn lemma_emit_prefix_grows(lines: Seq<Line>, table: Seq<(Seq<char>, u8)>, k: nat, n: nat)
    requires
        k <= n <= lines.len(),
        emit_prefix(lines, table, n) is Ok,
    ensures
        emit_prefix(lines, table, k) is Ok,
        emit_prefix(lines, table, k)->Ok_0.len() <= emit_prefix(lines, table, n)->Ok_0.len(),
        emit_prefix(lines, table, k)->Ok_0 == emit_prefix(lines, table, n)->Ok_0.subrange(
            0,
            emit_prefix(lines, table, k)->Ok_0.len() as int,
        ),
    decreases n - k,
{
    if k < n {
        lemma_emit_prefix_grows(lines, table, k, (n - 1) as nat);
        let a = emit_prefix(lines, table, k)->Ok_0;
        let b = emit_prefix(lines, table, (n - 1) as nat)->Ok_0;
        let c = emit_prefix(lines, table, n)->Ok_0;
        assert(b == c.subrange(0, b.len() as int));
        assert(a =~= c.subrange(0, a.len() as int));
    } else {
        let a = emit_prefix(lines, table, k)->Ok_0;
        assert(a =~= a.subrange(0, a.len() as int));
    }
}

/// Once a label is bound, a successful walk keeps it bound to the address
/// at which its line starts.
proof fn lemma_label_kept(lines: Seq<Line>, k: nat, n: nat)
    requires
        k < n <= lines.len(),
        lines[k as int].0 is Some,
        resolve_prefix(lines, n) is Ok,
    ensures
        ({
            let (t, a) = resolve_prefix(lines, k)->Ok_0;
            lookup(resolve_prefix(lines, n)->Ok_0.0, lines[k as int].0->Some_0@) == Some(
                line_start(t, a, lines[k as int].0)->Ok_0 as u8,
            )
        }),
    decreases n - k,
{
    lemma_resolve_prefix_ok(lines, k, n);
    lemma_resolve_prefix_ok(lines, (n - 1) as nat, n);
    let (t, a) = resolve_prefix(lines, (n - 1) as nat)->Ok_0;
    let line = lines[n - 1];
    if let Some(l) = line.0 {
        let start = line_start(t, a, line.0)->Ok_0;
        assert(t.push((l@, start as u8)).drop_last() =~= t);
        assert(t.push((l@, start as u8)).last() == (l@, start as u8));
    }
    if k + 1 < n {
        lemma_label_kept(lines, k, (n - 1) as nat);
    }
}

/// Sizing: a program's image is exactly as long as the resolver's final
/// address, that is the sum of the sizes of its instructions plus the zero
/// padding in front of the interrupt service routine.
pub proof fn lemma_image_length(lines: Seq<Line>)
    requires
        compile_spec(lines) is Ok,
    ensures
        resolve_prefix(lines, lines.len()) is Ok,
        compile_spec(lines)->Ok_0.len() == resolve_prefix(lines, lines.len())->Ok_0.1,
{
    lemma_emit_len(lines, resolve(lines)->Ok_0, lines.len());
}

/// Two lines that carry the same label make the program fail with a
/// duplicate-label error, whatever their instructions.
pub proof fn lemma_duplicate_label(first: Line, second: Line)
    requires
        first.0 is Some,
        second.0 is Some,
        first.0->Some_0@ == second.0->Some_0@,
    ensures
        resolve(seq![first, second]) == Err::<Seq<(Seq<char>, u8)>, ErrorKind>(ErrorKind::DuplicateLabel),
        compile_spec(seq![first, second]) == Err::<Seq<u8>, ErrorKind>(ErrorKind::DuplicateLabel),
{
    let lines = seq![first, second];
    assert(resolve_prefix(lines, 0) == Ok::<(Seq<(Seq<char>, u8)>, int), ErrorKind>(
        (Seq::empty(), 0),
    ));
    let (t, a) = resolve_prefix(lines, 1)->Ok_0;
    assert(t.last() == (first.0->Some_0@, t.last().1));
    assert(resolve_prefix(lines, 2) == Err::<(Seq<(Seq<char>, u8)>, int), ErrorKind>(
        ErrorKind::DuplicateLabel,
    ));
}

/// Any program in which two lines carry the same label fails.
pub proof fn lemma_duplicate_label_fails(lines: Seq<Line>, i: int, j: int)
    requires
        0 <= i < j < lines.len(),
        lines[i].0 is Some,
        lines[j].0 is Some,
        lines[i].0->Some_0@ == lines[j].0->Some_0@,
    ensures
        resolve(lines) is Err,
        compile_spec(lines) is Err,
{
    if resolve_prefix(lines, lines.len()) is Ok {
        lemma_resolve_prefix_ok(lines, j as nat, lines.len());
        lemma_resolve_prefix_ok(lines, (j + 1) as nat, lines.len());
        lemma_label_kept(lines, i as nat, j as nat);
        assert(false);
    }
}

/// The label `isr` is bound to the fixed routine address, and every byte
/// between the end of the code before it and that address is zero.
pub proof fn lemma_isr_pinned(lines: Seq<Line>, k: int)
    requires
        0 <= k < lines.len(),
        is_isr_label(lines[k].0),
        compile_spec(lines) is Ok,
    ensures
        resolve_prefix(lines, k as nat) is Ok,
        resolve_prefix(lines, k as nat)->Ok_0.1 <= ISR_ADDR,
        lookup(resolve(lines)->Ok_0, isr_name()) == Some(ISR_ADDR),
        compile_spec(lines)->Ok_0.len() > ISR_ADDR,
        forall|j: int|
            resolve_prefix(lines, k as nat)->Ok_0.1 <= j < ISR_ADDR ==> compile_spec(lines)->Ok_0[j]
                == 0,
{
    let n = lines.len();
    let table = resolve(lines)->Ok_0;
    lemma_resolve_prefix_ok(lines, (k + 1) as nat, n);
    lemma_label_kept(lines, k as nat, n);
    lemma_emit_prefix_grows(lines, table, k as nat, n);
    lemma_emit_prefix_grows(lines, table, (k + 1) as nat, n);
    lemma_resolve_prefix_ok(lines, k as nat, n);
    lemma_emit_len(lines, table, k as nat);
    lemma_emit_len(lines, table, (k + 1) as nat);
    let before = emit_prefix(lines, table, k as nat)->Ok_0;
    let after = emit_prefix(lines, table, (k + 1) as nat)->Ok_0;
    let all = compile_spec(lines)->Ok_0;
    assert forall|j: int|
        resolve_prefix(lines, k as nat)->Ok_0.1 <= j < ISR_ADDR implies all[j] == 0 by {
        assert(all[j] == after[j]);
    }
}

/// A relative jump to a literal offset encodes exactly when the offset, read
/// as a signed byte, lies in [-16, 15]; otherwise it is a range error.
pub proof fn lemma_jr_literal_range(cond: JRCond, v: u8, addr: u8, table: Seq<(Seq<char>, u8)>)
    ensures
        encode(Instruction::JR(cond, JumpTarget::Const(v)), addr, table) is Ok <==> fits_offset(
            signed_of(v),
        ),
        !fits_offset(signed_of(v)) ==> encode(Instruction::JR(cond, JumpTarget::Const(v)), addr, table)
            == Err::<Seq<u8>, ErrorKind>(ErrorKind::Range),
{
}

/// Two instructions that read alike have the same size and encoding.
proof fn lemma_instr_view(i1: Instruction, i2: Instruction, addr: u8, table: Seq<(Seq<char>, u8)>)
    requires
        i1@ == i2@,
    ensures
        instr_size(i1) == instr_size(i2),
        encode(i1, addr, table) == encode(i2, addr, table),
{
    match (i1, i2) {
        (Instruction::JA(t1), Instruction::JA(t2)) => {
            assert(t1@ == t2@);
        },
        (Instruction::JR(c1, t1), Instruction::JR(c2, t2)) => {
            assert(t1@ == t2@);
        },
        _ => {},
    }
}

/// Two programs whose lines read alike resolve and emit alike, prefix by
/// prefix.
proof fn lemma_prefix_view(a: Seq<Line>, b: Seq<Line>, table: Seq<(Seq<char>, u8)>, n: nat)
    requires
        lines_view(a) == lines_view(b),
        n <= a.len(),
    ensures
        resolve_prefix(a, n) == resolve_prefix(b, n),
        emit_prefix(a, table, n) == emit_prefix(b, table, n),
    decreases n,
{
    assert(a.len() == lines_view(a).len());
    assert(b.len() == lines_view(b).len());
    if n > 0 {
        lemma_prefix_view(a, b, table, (n - 1) as nat);
        let k = n - 1;
        assert(lines_view(a)[k] == line_view(a[k]));
        assert(lines_view(b)[k] == line_view(b[k]));
        match resolve_prefix(a, (n - 1) as nat) {
            Ok((t, x)) => lemma_instr_view(a[k].1, b[k].1, 0, t),
            Err(_) => {},
        }
        match emit_prefix(a, table, (n - 1) as nat) {
            Ok(bytes) => {
                let padded_len = if is_isr_label(a[k].0) && bytes.len() < ISR_ADDR {
                    ISR_ADDR as int
                } else {
                    bytes.len() as int
                };
                lemma_instr_view(a[k].1, b[k].1, padded_len as u8, table);
            },
            Err(_) => {},
        }
    }
}

/// Compiling is deterministic: two parses of the same text compile to the
/// same bytes, or fail the same way.
pub proof fn lemma_compile_deterministic(text: Seq<char>, a: Seq<Line>, b: Seq<Line>)
    requires
        program_rule(text) == Some(lines_view(a)),
        program_rule(text) == Some(lines_view(b)),
    ensures
        compile_spec(a) == compile_spec(b),
{
    assert(a.len() == lines_view(a).len());
    assert(b.len() == lines_view(b).len());
    lemma_prefix_view(a, b, Seq::empty(), a.len());
    if resolve(a) is Ok {
        lemma_prefix_view(a, b, resolve(a)->Ok_0, a.len());
    }
}

} // verus!
