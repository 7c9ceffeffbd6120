use vstd::prelude::*;

use crate::data_holder::DataHolder;
use crate::instruction::{InstrView, Instruction};
use crate::jumps::{JRCond, JumpTarget, TargetView};
use crate::operation::Operation;
use crate::types::{Error, ErrorKind, Line};

verus! {

// The grammar, stated over the characters of the source text. Each rule takes
// the text and a position and, where it matches there, gives the value read
// and the position just past it.

/// A space or a tab.
pub open spec fn is_blank(c: char) -> bool {
    c == ' ' || c == '\t'
}

pub open spec fn is_digit(c: char) -> bool {
    '0' <= c <= '9'
}

/// An ASCII letter or digit.
pub open spec fn is_alnum(c: char) -> bool {
    is_digit(c) || ('a' <= c <= 'z') || ('A' <= c <= 'Z')
}

pub open spec fn at(s: Seq<char>, p: int, c: char) -> bool {
    0 <= p < s.len() && s[p] == c
}

/// Whether `t` occurs in `s` at `p`.
pub open spec fn tag(s: Seq<char>, p: int, t: Seq<char>) -> bool {
    0 <= p && p + t.len() <= s.len() && s.subrange(p, p + t.len()) == t
}

/// The length of the line break at `p`: 1 for `\n`, 2 for `\r\n`, else 0.
pub open spec fn line_end_len(s: Seq<char>, p: int) -> int {
    if at(s, p, '\n') {
        1
    } else if at(s, p, '\r') && at(s, p + 1, '\n') {
        2
    } else {
        0
    }
}

/// The position past the spaces and tabs that start at `p`.
pub open spec fn skip_blanks(s: Seq<char>, p: int) -> int
    decreases s.len() - p,
{
    if 0 <= p < s.len() && is_blank(s[p]) {
        skip_blanks(s, p + 1)
    } else {
        p
    }
}

/// The position past the spaces, tabs and line breaks that start at `p`.
pub open spec fn skip_ws(s: Seq<char>, p: int) -> int
    decreases s.len() - p,
{
    if 0 <= p < s.len() && is_blank(s[p]) {
        skip_ws(s, p + 1)
    } else if 0 <= p && line_end_len(s, p) > 0 {
        skip_ws(s, p + line_end_len(s, p))
    } else {
        p
    }
}

/// The position of the first character at or after `p` that is not a digit.
pub open spec fn digits_end(s: Seq<char>, p: int) -> int
    decreases s.len() - p,
{
    if 0 <= p < s.len() && is_digit(s[p]) {
        digits_end(s, p + 1)
    } else {
        p
    }
}

/// The position of the first character at or after `p` that is not a letter
/// or digit.
pub open spec fn alnum_end(s: Seq<char>, p: int) -> int
    decreases s.len() - p,
{
    if 0 <= p < s.len() && is_alnum(s[p]) {
        alnum_end(s, p + 1)
    } else {
        p
    }
}

/// The value of a run of decimal digits.
pub open spec fn digits_value(d: Seq<char>) -> int
    decreases d.len(),
{
    if d.len() == 0 {
        0
    } else {
        10 * digits_value(d.drop_last()) + (d.last() as int - '0' as int)
    }
}

/// An 8-bit integer literal: a signed one in [-128, 127], or an unsigned
/// one in [0, 255] read back as the signed byte with the same bits.
pub open spec fn number(s: Seq<char>, p: int) -> Option<(i8, int)> {
    let neg = at(s, p, '-');
    let signed = neg || at(s, p, '+');
    let q = if signed {
        p + 1
    } else {
        p
    };
    let e = digits_end(s, q);
    let v = digits_value(s.subrange(q, e));
    if e == q {
        None
    } else if signed {
        let x = if neg {
            -v
        } else {
            v
        };
        if -128 <= x <= 127 {
            Some((x as i8, e))
        } else {
            None
        }
    } else if v <= 127 {
        Some((v as i8, e))
    } else if v <= 255 {
        Some(((v - 256) as i8, e))
    } else {
        None
    }
}

} // verus!

verus! {

/// The characters of `text`.
fn chars_of(text: &str) -> (r: Vec<char>)
    ensures
        r@ == text@,
{
    let n = text.unicode_len();
    let mut r: Vec<char> = Vec::new();
    let mut i: usize = 0;
    while i < n
        invariant
            n == text@.len(),
            i <= n,
            r@ == text@.subrange(0, i as int),
        decreases n - i,
    {
        r.push(text.get_char(i));
        i = i + 1;
        assert(r@ =~= text@.subrange(0, i as int));
    }
    assert(r@ =~= text@);
    r
}

fn char_at(s: &Vec<char>, p: usize, c: char) -> (r: bool)
    ensures
        r == at(s@, p as int, c),
        s@.len() <= usize::MAX,
{
    let _ = s.len();
    p < s.len() && s[p] == c
}

fn blank(c: char) -> (r: bool)
    ensures
        r == is_blank(c),
{
    c == ' ' || c == '\t'
}

fn digit(c: char) -> (r: bool)
    ensures
        r == is_digit(c),
{
    '0' <= c && c <= '9'
}

fn alnum(c: char) -> (r: bool)
    ensures
        r == is_alnum(c),
{
    ('0' <= c && c <= '9') || ('a' <= c && c <= 'z') || ('A' <= c && c <= 'Z')
}

/// Whether `t` occurs in `s` at `p`.
fn tag_at(s: &Vec<char>, p: usize, t: &[char]) -> (r: bool)
    ensures
        r == tag(s@, p as int, t@),
        s@.len() <= usize::MAX,
{
    if p > s.len() || t.len() > s.len() - p {
        return false;
    }
    let n = s.len();
    let mut i: usize = 0;
    while i < t.len()
        invariant
            n == s@.len(),
            p + t@.len() <= s@.len(),
            i <= t@.len(),
            forall|k: int| 0 <= k < i ==> s@[p + k] == t@[k],
        decreases t@.len() - i,
    {
        if s[p + i] != t[i] {
            assert(s@.subrange(p as int, p + t@.len())[i as int] != t@[i as int]);
            return false;
        }
        i = i + 1;
    }
    assert(s@.subrange(p as int, p + t@.len()) =~= t@);
    true
}

fn line_end(s: &Vec<char>, p: usize) -> (r: usize)
    requires
        p <= s@.len(),
    ensures
        r as int == line_end_len(s@, p as int),
{
    if char_at(s, p, '\n') {
        1
    } else if p < s.len() && s[p] == '\r' && char_at(s, p + 1, '\n') {
        2
    } else {
        0
    }
}

fn blanks(s: &Vec<char>, p: usize) -> (r: usize)
    requires
        p <= s@.len(),
    ensures
        r as int == skip_blanks(s@, p as int),
        p <= r <= s@.len() <= usize::MAX,
{
    let mut i = p;
    while i < s.len() && blank(s[i])
        invariant
            p <= i <= s@.len(),
            skip_blanks(s@, i as int) == skip_blanks(s@, p as int),
        decreases s@.len() - i,
    {
        i = i + 1;
    }
    i
}

fn whitespace(s: &Vec<char>, p: usize) -> (r: usize)
    requires
        p <= s@.len(),
    ensures
        r as int == skip_ws(s@, p as int),
        p <= r <= s@.len(),
{
    let mut i = p;
    loop
        invariant
            p <= i <= s@.len(),
            skip_ws(s@, i as int) == skip_ws(s@, p as int),
        decreases s@.len() - i,
    {
        if i < s.len() && blank(s[i]) {
            i = i + 1;
        } else {
            let n = line_end(s, i);
            if n == 0 {
                return i;
            }
            i = i + n;
        }
    }
}

fn alnums(s: &Vec<char>, p: usize) -> (r: usize)
    requires
        p <= s@.len(),
    ensures
        r as int == alnum_end(s@, p as int),
        p <= r <= s@.len(),
{
    let mut i = p;
    while i < s.len() && alnum(s[i])
        invariant
            p <= i <= s@.len(),
            alnum_end(s@, i as int) == alnum_end(s@, p as int),
        decreases s@.len() - i,
    {
        i = i + 1;
    }
    i
}

proof fn lemma_digits_value_nonneg(d: Seq<char>)
    requires
        forall|k: int| 0 <= k < d.len() ==> is_digit(#[trigger] d[k]),
    ensures
        digits_value(d) >= 0,
    decreases d.len(),
{
    if d.len() > 0 {
        lemma_digits_value_nonneg(d.drop_last());
    }
}

/// Reads an 8-bit integer literal.
pub fn sign_or_unsigned_int8(s: &Vec<char>, p: usize) -> (r: Option<(i8, usize)>)
    requires
        p <= s@.len(),
    ensures
        match r {
            Some((v, e)) => number(s@, p as int) == Some((v, e as int)) && e <= s@.len(),
            None => number(s@, p as int) is None,
        },
{
    let neg = p < s.len() && s[p] == '-';
    let signed = neg || (p < s.len() && s[p] == '+');
    let q: usize = if signed {
        p + 1
    } else {
        p
    };
    let mut i = q;
    let mut v: u32 = 0;
    while i < s.len() && digit(s[i])
        invariant
            q <= i <= s@.len(),
            digits_end(s@, i as int) == digits_end(s@, q as int),
            forall|k: int| q <= k < i ==> is_digit(#[trigger] s@[k]),
            digits_value(s@.subrange(q as int, i as int)) < 1000 ==> v == digits_value(
                s@.subrange(q as int, i as int),
            ),
            digits_value(s@.subrange(q as int, i as int)) >= 1000 ==> v == 1000,
        decreases s@.len() - i,
    {
        let ghost prev = s@.subrange(q as int, i as int);
        proof {
            lemma_digits_value_nonneg(prev);
            assert(s@.subrange(q as int, i + 1).drop_last() =~= prev);
        }
        let d = s[i] as u32 - '0' as u32;
        if v < 1000 {
            v = v * 10 + d;
            if v > 1000 {
                v = 1000;
            }
        }
        i = i + 1;
    }
    if i == q {
        return None;
    }
    proof {
        lemma_digits_value_nonneg(s@.subrange(q as int, i as int));
    }
    if signed {
        let x: i16 = if neg {
            -(v as i16)
        } else {
            v as i16
        };
        if -128 <= x && x <= 127 {
            Some((x as i8, i))
        } else {
            None
        }
    } else if v <= 127 {
        Some((v as i8, i))
    } else if v <= 255 {
        Some(((v as i16 - 256) as i8, i))
    } else {
        None
    }
}

} // verus!

verus! {

/// A register in the register-only slot.
pub open spec fn arg1_rule(s: Seq<char>, p: int) -> Option<(DataHolder, int)> {
    if at(s, p, 'A') {
        Some((DataHolder::A, p + 1))
    } else if at(s, p, 'B') {
        Some((DataHolder::B, p + 1))
    } else {
        None
    }
}

/// Register A or an immediate.
pub open spec fn arg2_rule(s: Seq<char>, p: int) -> Option<(DataHolder, int)> {
    if at(s, p, 'A') {
        Some((DataHolder::A, p + 1))
    } else {
        match number(s, p) {
            Some((v, e)) => Some((DataHolder::Const(v), e)),
            None => None,
        }
    }
}

/// `*` followed by register A or a literal address.
pub open spec fn indirect_rule(s: Seq<char>, p: int) -> Option<(DataHolder, int)> {
    if at(s, p, '*') {
        match arg2_rule(s, p + 1) {
            Some((DataHolder::Const(v), e)) => Some((DataHolder::ConstAddr(v), e)),
            Some((_, e)) => Some((DataHolder::AAddr, e)),
            None => None,
        }
    } else {
        None
    }
}

/// `arg1 sym arg2`, with optional blanks around the symbol.
pub open spec fn operands_rule(s: Seq<char>, p: int, sym: Seq<char>) -> Option<
    (DataHolder, DataHolder, int),
> {
    match arg1_rule(s, p) {
        None => None,
        Some((a, q)) => {
            let r = skip_blanks(s, q);
            if tag(s, r, sym) {
                match arg2_rule(s, skip_blanks(s, r + sym.len())) {
                    Some((b, e)) => Some((a, b, e)),
                    None => None,
                }
            } else {
                None
            }
        },
    }
}

/// A keyword, at least one blank, then a register.
pub open spec fn unary_rule(s: Seq<char>, p: int, kw: Seq<char>) -> Option<(DataHolder, int)> {
    if tag(s, p, kw) && skip_blanks(s, p + kw.len()) > p + kw.len() {
        arg1_rule(s, skip_blanks(s, p + kw.len()))
    } else {
        None
    }
}

/// A bare operand: a register, an immediate or a memory cell.
pub open spec fn identity_rule(s: Seq<char>, p: int) -> Option<(DataHolder, int)> {
    if arg1_rule(s, p) is Some {
        arg1_rule(s, p)
    } else if arg2_rule(s, p) is Some {
        arg2_rule(s, p)
    } else {
        indirect_rule(s, p)
    }
}

pub open spec fn binary_rule(s: Seq<char>, p: int) -> Option<(Operation, int)> {
    if operands_rule(s, p, seq!['+']) is Some {
        let (a, b, e) = operands_rule(s, p, seq!['+'])->Some_0;
        Some((Operation::Add(a, b), e))
    } else if operands_rule(s, p, seq!['-']) is Some {
        let (a, b, e) = operands_rule(s, p, seq!['-'])->Some_0;
        Some((Operation::Sub(a, b), e))
    } else if operands_rule(s, p, seq!['a', 'n', 'd']) is Some {
        let (a, b, e) = operands_rule(s, p, seq!['a', 'n', 'd'])->Some_0;
        Some((Operation::And(a, b), e))
    } else if operands_rule(s, p, seq!['o', 'r']) is Some {
        let (a, b, e) = operands_rule(s, p, seq!['o', 'r'])->Some_0;
        Some((Operation::Or(a, b), e))
    } else if operands_rule(s, p, seq!['x', 'o', 'r']) is Some {
        let (a, b, e) = operands_rule(s, p, seq!['x', 'o', 'r'])->Some_0;
        Some((Operation::Xor(a, b), e))
    } else {
        None
    }
}

/// The right-hand side of an assignment; the first form that matches wins.
pub open spec fn operation_rule(s: Seq<char>, p: int) -> Option<(Operation, int)> {
    if binary_rule(s, p) is Some {
        binary_rule(s, p)
    } else if unary_rule(s, p, seq!['L', 'S', 'R']) is Some {
        let (a, e) = unary_rule(s, p, seq!['L', 'S', 'R'])->Some_0;
        Some((Operation::LShiftRight(a), e))
    } else if unary_rule(s, p, seq!['n', 'o', 't']) is Some {
        let (a, e) = unary_rule(s, p, seq!['n', 'o', 't'])->Some_0;
        Some((Operation::Not(a), e))
    } else if identity_rule(s, p) is Some {
        let (a, e) = identity_rule(s, p)->Some_0;
        Some((Operation::Identity(a), e))
    } else {
        None
    }
}

/// A register or a memory cell.
pub open spec fn dest_rule(s: Seq<char>, p: int) -> Option<(DataHolder, int)> {
    if arg1_rule(s, p) is Some {
        arg1_rule(s, p)
    } else {
        indirect_rule(s, p)
    }
}

/// `operation -> destination`.
pub open spec fn assignment_rule(s: Seq<char>, p: int) -> Option<(InstrView, int)> {
    match operation_rule(s, p) {
        None => None,
        Some((op, q)) => {
            let r = skip_blanks(s, q);
            if tag(s, r, seq!['-', '>']) {
                match dest_rule(s, skip_blanks(s, r + 2)) {
                    Some((d, e)) => Some((InstrView::Assignment { op, dest: d }, e)),
                    None => None,
                }
            } else {
                None
            }
        },
    }
}

/// A literal address or a label name.
pub open spec fn target_rule(s: Seq<char>, p: int) -> Option<(TargetView, int)> {
    match number(s, p) {
        Some((v, e)) => Some((TargetView::Const(v as u8), e)),
        None => if alnum_end(s, p) > p {
            Some((TargetView::Label(s.subrange(p, alnum_end(s, p))), alnum_end(s, p)))
        } else {
            None
        },
    }
}

/// Whether `p` is the end of the text, a line break or a comment.
pub open spec fn ends_statement(s: Seq<char>, p: int) -> bool {
    p == s.len() || line_end_len(s, p) > 0 || at(s, p, '#')
}

/// The condition of a relative jump; none at the end of the statement means
/// always.
pub open spec fn cond_rule(s: Seq<char>, p: int) -> Option<(JRCond, int)> {
    let q = skip_blanks(s, p);
    if q > p && tag(s, q, seq!['I', 'F', 'Z']) {
        Some((JRCond::IfZ, q + 3))
    } else if q > p && tag(s, q, seq!['I', 'F', 'C']) {
        Some((JRCond::IfC, q + 3))
    } else if q > p && tag(s, q, seq!['I', 'F', 'N']) {
        Some((JRCond::IfN, q + 3))
    } else if ends_statement(s, q) {
        Some((JRCond::True, q))
    } else {
        None
    }
}

/// A keyword of two letters followed by at least one blank and a target.
pub open spec fn jump_rule(s: Seq<char>, p: int, kw: Seq<char>) -> Option<(TargetView, int)> {
    if tag(s, p, kw) && skip_blanks(s, p + 2) > p + 2 {
        target_rule(s, skip_blanks(s, p + 2))
    } else {
        None
    }
}

pub open spec fn jr_rule(s: Seq<char>, p: int) -> Option<(InstrView, int)> {
    match jump_rule(s, p, seq!['J', 'R']) {
        Some((t, e)) => match cond_rule(s, e) {
            Some((c, f)) => Some((InstrView::JR(c, t), f)),
            None => None,
        },
        None => None,
    }
}

pub open spec fn ja_rule(s: Seq<char>, p: int) -> Option<(InstrView, int)> {
    match jump_rule(s, p, seq!['J', 'A']) {
        Some((t, e)) => Some((InstrView::JA(t), e)),
        None => None,
    }
}

/// `arg1 - arg2 ?`.
pub open spec fn check_rule(s: Seq<char>, p: int) -> Option<(InstrView, int)> {
    match operands_rule(s, p, seq!['-']) {
        Some((a, b, q)) => if at(s, skip_blanks(s, q), '?') {
            Some((InstrView::Check(a, b), skip_blanks(s, q) + 1))
        } else {
            None
        },
        None => None,
    }
}

pub open spec fn reti_rule(s: Seq<char>, p: int) -> Option<(InstrView, int)> {
    if tag(s, p, seq!['r', 'e', 't', 'i']) {
        Some((InstrView::RetI, p + 4))
    } else {
        None
    }
}

/// An instruction; the first form that matches wins.
pub open spec fn instruction_rule(s: Seq<char>, p: int) -> Option<(InstrView, int)> {
    if jr_rule(s, p) is Some {
        jr_rule(s, p)
    } else if assignment_rule(s, p) is Some {
        assignment_rule(s, p)
    } else if ja_rule(s, p) is Some {
        ja_rule(s, p)
    } else if check_rule(s, p) is Some {
        check_rule(s, p)
    } else {
        reti_rule(s, p)
    }
}

/// A label definition: a name followed by `:`.
pub open spec fn label_rule(s: Seq<char>, p: int) -> Option<(Seq<char>, int)> {
    let e = alnum_end(s, p);
    if e > p && at(s, e, ':') {
        Some((s.subrange(p, e), e + 1))
    } else {
        None
    }
}

/// The position of the first line break at or after `p`, or the end.
pub open spec fn line_rest_end(s: Seq<char>, p: int) -> int
    decreases s.len() - p,
{
    if 0 <= p < s.len() && line_end_len(s, p) == 0 {
        line_rest_end(s, p + 1)
    } else {
        p
    }
}

/// The position past a comment at `p`, if one stands there.
pub open spec fn comment_end(s: Seq<char>, p: int) -> int {
    if at(s, skip_blanks(s, p), '#') {
        line_rest_end(s, skip_blanks(s, p))
    } else {
        p
    }
}

/// A line as read: its label's name and its instruction.
pub type LineView = (Option<Seq<char>>, InstrView);

/// An optional label, blanks or line breaks, an instruction and an optional
/// comment.
pub open spec fn line_rule(s: Seq<char>, p: int) -> Option<(LineView, int)> {
    let (label, q) = match label_rule(s, p) {
        Some((l, e)) => (Some(l), e),
        None => (None, p),
    };
    match instruction_rule(s, skip_ws(s, q)) {
        Some((i, e)) => Some(((label, i), comment_end(s, e))),
        None => None,
    }
}

/// The lines from `p` on: each one is followed by blanks and then a line
/// break or the end of the text; blank lines are skipped.
pub open spec fn lines_from(s: Seq<char>, p: int) -> Option<Seq<LineView>>
    decreases s.len() - p,
{
    let q = skip_ws(s, p);
    if q >= s.len() {
        Some(Seq::empty())
    } else {
        match line_rule(s, q) {
            None => None,
            Some((l, e)) => {
                let r = skip_blanks(s, e);
                if r == s.len() {
                    Some(seq![l])
                } else if line_end_len(s, r) > 0 && r + line_end_len(s, r) > p {
                    match lines_from(s, r + line_end_len(s, r)) {
                        Some(rest) => Some(seq![l] + rest),
                        None => None,
                    }
                } else {
                    None
                }
            },
        }
    }
}

/// The lines of a whole program text.
pub open spec fn program_rule(s: Seq<char>) -> Option<Seq<LineView>> {
    lines_from(s, 0)
}

/// A parsed line seen through the views of its label and instruction.
pub open spec fn line_view(l: Line) -> LineView {
    (
        match l.0 {
            Some(name) => Some(name@),
            None => None,
        },
        l.1@,
    )
}

pub open spec fn lines_view(v: Seq<Line>) -> Seq<LineView> {
    v.map_values(|l: Line| line_view(l))
}

} // verus!

verus! {

/// Reads register A or B.
pub fn arg1(s: &Vec<char>, p: usize) -> (r: Option<(DataHolder, usize)>)
    requires
        p <= s@.len(),
    ensures
        match r {
            Some((d, e)) => arg1_rule(s@, p as int) == Some((d, e as int)) && e <= s@.len(),
            None => arg1_rule(s@, p as int) is None,
        },
{
    if char_at(s, p, 'A') {
        Some((DataHolder::A, p + 1))
    } else if char_at(s, p, 'B') {
        Some((DataHolder::B, p + 1))
    } else {
        None
    }
}

/// Reads register A or an immediate.
pub fn arg2(s: &Vec<char>, p: usize) -> (r: Option<(DataHolder, usize)>)
    requires
        p <= s@.len(),
    ensures
        match r {
            Some((d, e)) => arg2_rule(s@, p as int) == Some((d, e as int)) && e <= s@.len(),
            None => arg2_rule(s@, p as int) is None,
        },
{
    if char_at(s, p, 'A') {
        Some((DataHolder::A, p + 1))
    } else {
        match sign_or_unsigned_int8(s, p) {
            Some((v, e)) => Some((DataHolder::Const(v), e)),
            None => None,
        }
    }
}

/// Reads `*A` or `*` followed by a literal address.
pub fn arg2_addr(s: &Vec<char>, p: usize) -> (r: Option<(DataHolder, usize)>)
    requires
        p <= s@.len(),
    ensures
        match r {
            Some((d, e)) => indirect_rule(s@, p as int) == Some((d, e as int)) && e <= s@.len(),
            None => indirect_rule(s@, p as int) is None,
        },
{
    if !char_at(s, p, '*') {
        return None;
    }
    match arg2(s, p + 1) {
        Some((DataHolder::Const(v), e)) => Some((DataHolder::ConstAddr(v), e)),
        Some((_, e)) => Some((DataHolder::AAddr, e)),
        None => None,
    }
}

/// Reads `arg1 sym arg2`.
fn operands(s: &Vec<char>, p: usize, sym: &[char]) -> (r: Option<(DataHolder, DataHolder, usize)>)
    requires
        p <= s@.len(),
    ensures
        match r {
            Some((a, b, e)) => operands_rule(s@, p as int, sym@) == Some((a, b, e as int)) && e
                <= s@.len(),
            None => operands_rule(s@, p as int, sym@) is None,
        },
{
    let (a, q) = match arg1(s, p) {
        Some(x) => x,
        None => return None,
    };
    let r = blanks(s, q);
    if !tag_at(s, r, sym) {
        return None;
    }
    let t = blanks(s, r + sym.len());
    match arg2(s, t) {
        Some((b, e)) => Some((a, b, e)),
        None => None,
    }
}

/// Reads a keyword, at least one blank, then a register.
fn unary(s: &Vec<char>, p: usize, kw: &[char]) -> (r: Option<(DataHolder, usize)>)
    requires
        p <= s@.len(),
    ensures
        match r {
            Some((d, e)) => unary_rule(s@, p as int, kw@) == Some((d, e as int)) && e <= s@.len(),
            None => unary_rule(s@, p as int, kw@) is None,
        },
{
    if !tag_at(s, p, kw) {
        return None;
    }
    let q = blanks(s, p + kw.len());
    if q == p + kw.len() {
        return None;
    }
    arg1(s, q)
}

/// Reads a bare operand.
pub fn none(s: &Vec<char>, p: usize) -> (r: Option<(DataHolder, usize)>)
    requires
        p <= s@.len(),
    ensures
        match r {
            Some((d, e)) => identity_rule(s@, p as int) == Some((d, e as int)) && e <= s@.len(),
            None => identity_rule(s@, p as int) is None,
        },
{
    if let Some(x) = arg1(s, p) {
        return Some(x);
    }
    if let Some(x) = arg2(s, p) {
        return Some(x);
    }
    arg2_addr(s, p)
}

fn binary(s: &Vec<char>, p: usize) -> (r: Option<(Operation, usize)>)
    requires
        p <= s@.len(),
    ensures
        match r {
            Some((o, e)) => binary_rule(s@, p as int) == Some((o, e as int)) && e <= s@.len(),
            None => binary_rule(s@, p as int) is None,
        },
{
    let plus: &[char] = &['+'];
    assert(plus@ =~= seq!['+']);
    if let Some((a, b, e)) = operands(s, p, plus) {
        return Some((Operation::Add(a, b), e));
    }
    let minus: &[char] = &['-'];
    assert(minus@ =~= seq!['-']);
    if let Some((a, b, e)) = operands(s, p, minus) {
        return Some((Operation::Sub(a, b), e));
    }
    let kw_and: &[char] = &['a', 'n', 'd'];
    assert(kw_and@ =~= seq!['a', 'n', 'd']);
    if let Some((a, b, e)) = operands(s, p, kw_and) {
        return Some((Operation::And(a, b), e));
    }
    let kw_or: &[char] = &['o', 'r'];
    assert(kw_or@ =~= seq!['o', 'r']);
    if let Some((a, b, e)) = operands(s, p, kw_or) {
        return Some((Operation::Or(a, b), e));
    }
    let kw_xor: &[char] = &['x', 'o', 'r'];
    assert(kw_xor@ =~= seq!['x', 'o', 'r']);
    if let Some((a, b, e)) = operands(s, p, kw_xor) {
        return Some((Operation::Xor(a, b), e));
    }
    None
}

/// Reads the right-hand side of an assignment.
pub fn operation(s: &Vec<char>, p: usize) -> (r: Option<(Operation, usize)>)
    requires
        p <= s@.len(),
    ensures
        match r {
            Some((o, e)) => operation_rule(s@, p as int) == Some((o, e as int)) && e <= s@.len(),
            None => operation_rule(s@, p as int) is None,
        },
{
    if let Some(x) = binary(s, p) {
        return Some(x);
    }
    let kw_lsr: &[char] = &['L', 'S', 'R'];
    assert(kw_lsr@ =~= seq!['L', 'S', 'R']);
    if let Some((a, e)) = unary(s, p, kw_lsr) {
        return Some((Operation::LShiftRight(a), e));
    }
    let kw_not: &[char] = &['n', 'o', 't'];
    assert(kw_not@ =~= seq!['n', 'o', 't']);
    if let Some((a, e)) = unary(s, p, kw_not) {
        return Some((Operation::Not(a), e));
    }
    match none(s, p) {
        Some((a, e)) => Some((Operation::Identity(a), e)),
        None => None,
    }
}

/// Reads `operation -> destination`.
pub fn assignment(s: &Vec<char>, p: usize) -> (r: Option<(Instruction, usize)>)
    requires
        p <= s@.len(),
    ensures
        match r {
            Some((i, e)) => assignment_rule(s@, p as int) == Some((i@, e as int)) && e <= s@.len(),
            None => assignment_rule(s@, p as int) is None,
        },
{
    let (op, q) = match operation(s, p) {
        Some(x) => x,
        None => return None,
    };
    let r = blanks(s, q);
    if !tag_at(s, r, &['-', '>']) {
        return None;
    }
    let t = blanks(s, r + 2);
    let d = match arg1(s, t) {
        Some(x) => Some(x),
        None => arg2_addr(s, t),
    };
    match d {
        Some((dest, e)) => Some((Instruction::Assignment { op, dest }, e)),
        None => None,
    }
}

/// A string holding the characters of `text` in [a, b).
fn slice_string(text: &str, a: usize, b: usize) -> (r: String)
    requires
        a <= b <= text@.len(),
    ensures
        r@ == text@.subrange(a as int, b as int),
{
    String::from_str(text.substring_char(a, b))
}

/// Reads a literal address or a label name.
pub fn jump_target(text: &str, s: &Vec<char>, p: usize) -> (r: Option<(JumpTarget, usize)>)
    requires
        s@ == text@,
        p <= s@.len(),
    ensures
        match r {
            Some((t, e)) => target_rule(s@, p as int) == Some((t@, e as int)) && e <= s@.len(),
            None => target_rule(s@, p as int) is None,
        },
{
    if let Some((v, e)) = sign_or_unsigned_int8(s, p) {
        return Some((JumpTarget::Const(v as u8), e));
    }
    let e = alnums(s, p);
    if e == p {
        return None;
    }
    Some((JumpTarget::Label(slice_string(text, p, e)), e))
}

/// Reads the condition of a relative jump.
pub fn jr_cond(s: &Vec<char>, p: usize) -> (r: Option<(JRCond, usize)>)
    requires
        p <= s@.len(),
    ensures
        match r {
            Some((c, e)) => cond_rule(s@, p as int) == Some((c, e as int)) && e <= s@.len(),
            None => cond_rule(s@, p as int) is None,
        },
{
    let q = blanks(s, p);
    if q > p && tag_at(s, q, &['I', 'F', 'Z']) {
        Some((JRCond::IfZ, q + 3))
    } else if q > p && tag_at(s, q, &['I', 'F', 'C']) {
        Some((JRCond::IfC, q + 3))
    } else if q > p && tag_at(s, q, &['I', 'F', 'N']) {
        Some((JRCond::IfN, q + 3))
    } else if q == s.len() || line_end(s, q) > 0 || char_at(s, q, '#') {
        Some((JRCond::True, q))
    } else {
        None
    }
}

/// Reads a two-letter jump keyword, at least one blank, and a target.
fn jump(text: &str, s: &Vec<char>, p: usize, kw: &[char]) -> (r: Option<(JumpTarget, usize)>)
    requires
        s@ == text@,
        p <= s@.len(),
        kw@.len() == 2,
    ensures
        match r {
            Some((t, e)) => jump_rule(s@, p as int, kw@) == Some((t@, e as int)) && e <= s@.len(),
            None => jump_rule(s@, p as int, kw@) is None,
        },
{
    if !tag_at(s, p, kw) {
        return None;
    }
    let q = blanks(s, p + 2);
    if q == p + 2 {
        return None;
    }
    jump_target(text, s, q)
}

/// Reads a relative jump.
pub fn jr(text: &str, s: &Vec<char>, p: usize) -> (r: Option<(Instruction, usize)>)
    requires
        s@ == text@,
        p <= s@.len(),
    ensures
        match r {
            Some((i, e)) => jr_rule(s@, p as int) == Some((i@, e as int)) && e <= s@.len(),
            None => jr_rule(s@, p as int) is None,
        },
{
    let kw_jr: &[char] = &['J', 'R'];
    assert(kw_jr@ =~= seq!['J', 'R']);
    let (t, e) = match jump(text, s, p, kw_jr) {
        Some(x) => x,
        None => return None,
    };
    match jr_cond(s, e) {
        Some((c, f)) => Some((Instruction::JR(c, t), f)),
        None => None,
    }
}

/// Reads an absolute jump.
pub fn ja(text: &str, s: &Vec<char>, p: usize) -> (r: Option<(Instruction, usize)>)
    requires
        s@ == text@,
        p <= s@.len(),
    ensures
        match r {
            Some((i, e)) => ja_rule(s@, p as int) == Some((i@, e as int)) && e <= s@.len(),
            None => ja_rule(s@, p as int) is None,
        },
{
    let kw_ja: &[char] = &['J', 'A'];
    assert(kw_ja@ =~= seq!['J', 'A']);
    match jump(text, s, p, kw_ja) {
        Some((t, e)) => Some((Instruction::JA(t), e)),
        None => None,
    }
}

/// Reads a comparison `arg1 - arg2 ?`.
pub fn check(s: &Vec<char>, p: usize) -> (r: Option<(Instruction, usize)>)
    requires
        p <= s@.len(),
    ensures
        match r {
            Some((i, e)) => check_rule(s@, p as int) == Some((i@, e as int)) && e <= s@.len(),
            None => check_rule(s@, p as int) is None,
        },
{
    let minus: &[char] = &['-'];
    assert(minus@ =~= seq!['-']);
    let (a, b, q) = match operands(s, p, minus) {
        Some(x) => x,
        None => return None,
    };
    let r = blanks(s, q);
    if char_at(s, r, '?') {
        Some((Instruction::Check(a, b), r + 1))
    } else {
        None
    }
}

/// Reads `reti`.
pub fn ret_i(s: &Vec<char>, p: usize) -> (r: Option<(Instruction, usize)>)
    requires
        p <= s@.len(),
    ensures
        match r {
            Some((i, e)) => reti_rule(s@, p as int) == Some((i@, e as int)) && e <= s@.len(),
            None => reti_rule(s@, p as int) is None,
        },
{
    if tag_at(s, p, &['r', 'e', 't', 'i']) {
        Some((Instruction::RetI, p + 4))
    } else {
        None
    }
}

/// Reads one instruction.
pub fn instruction(text: &str, s: &Vec<char>, p: usize) -> (r: Option<(Instruction, usize)>)
    requires
        s@ == text@,
        p <= s@.len(),
    ensures
        match r {
            Some((i, e)) => instruction_rule(s@, p as int) == Some((i@, e as int)) && e <= s@.len(),
            None => instruction_rule(s@, p as int) is None,
        },
{
    if let Some(x) = jr(text, s, p) {
        return Some(x);
    }
    if let Some(x) = assignment(s, p) {
        return Some(x);
    }
    if let Some(x) = ja(text, s, p) {
        return Some(x);
    }
    if let Some(x) = check(s, p) {
        return Some(x);
    }
    ret_i(s, p)
}

} // verus!

verus! {

/// Reads a label definition `name:`.
pub fn l(text: &str, s: &Vec<char>, p: usize) -> (r: Option<(String, usize)>)
    requires
        s@ == text@,
        p <= s@.len(),
    ensures
        match r {
            Some((name, e)) => label_rule(s@, p as int) == Some((name@, e as int)) && e <= s@.len(),
            None => label_rule(s@, p as int) is None,
        },
{
    let e = alnums(s, p);
    if e > p && char_at(s, e, ':') {
        Some((slice_string(text, p, e), e + 1))
    } else {
        None
    }
}

/// The position of the first line break at or after `p`, or the end.
fn line_rest(s: &Vec<char>, p: usize) -> (r: usize)
    requires
        p <= s@.len(),
    ensures
        r as int == line_rest_end(s@, p as int),
        p <= r <= s@.len(),
{
    let mut i = p;
    while i < s.len() && line_end(s, i) == 0
        invariant
            p <= i <= s@.len(),
            line_rest_end(s@, i as int) == line_rest_end(s@, p as int),
        decreases s@.len() - i,
    {
        i = i + 1;
    }
    i
}

/// Skips a comment at `p`, if one stands there.
pub fn comment(s: &Vec<char>, p: usize) -> (r: usize)
    requires
        p <= s@.len(),
    ensures
        r as int == comment_end(s@, p as int),
        r <= s@.len(),
{
    let q = blanks(s, p);
    if char_at(s, q, '#') {
        line_rest(s, q)
    } else {
        p
    }
}

/// Reads one line: an optional label, an instruction and an optional
/// comment.
pub fn line(text: &str, s: &Vec<char>, p: usize) -> (r: Option<(Line, usize)>)
    requires
        s@ == text@,
        p <= s@.len(),
    ensures
        match r {
            Some((ln, e)) => line_rule(s@, p as int) == Some((line_view(ln), e as int)) && e
                <= s@.len(),
            None => line_rule(s@, p as int) is None,
        },
{
    let (label, q) = match l(text, s, p) {
        Some((name, e)) => (Some(name), e),
        None => (None, p),
    };
    let t = whitespace(s, q);
    match instruction(text, s, t) {
        Some((i, e)) => Some(((label, i), comment(s, e))),
        None => None,
    }
}

/// Parses a whole program into its lines; on malformed text, no line is
/// returned and the error shows where reading stopped.
pub fn parse_program(text: &str) -> (r: Result<Vec<Line>, Error>)
    ensures
        match r {
            Ok(lines) => program_rule(text@) == Some(lines_view(lines@)),
            Err(e) => program_rule(text@) is None && e.kind == ErrorKind::Parse,
        },
{
    let s = chars_of(text);
    let mut lines: Vec<Line> = Vec::new();
    let mut p: usize = 0;
    assert(lines_view(lines@) =~= Seq::<LineView>::empty());
    loop
        invariant
            s@ == text@,
            p <= s@.len(),
            program_rule(s@) is Some <==> lines_from(s@, p as int) is Some,
            lines_from(s@, p as int) is Some ==> program_rule(s@)->Some_0 == lines_view(lines@)
                + lines_from(s@, p as int)->Some_0,
        decreases s@.len() - p,
    {
        let q = whitespace(&s, p);
        if q >= s.len() {
            assert(lines_view(lines@) + Seq::<LineView>::empty() =~= lines_view(lines@));
            return Ok(lines);
        }
        let (ln, e) = match line(text, &s, q) {
            Some(x) => x,
            None => {
                let end = line_rest(&s, q);
                return Err(
                    Error::with_subject(
                        ErrorKind::Parse,
                        "Invalid syntax: ",
                        text.substring_char(q, end),
                    ),
                );
            },
        };
        let r = blanks(&s, e);
        let ghost before = lines_view(lines@);
        let ghost lv = line_view(ln);
        let n = line_end(&s, r);
        if r == s.len() {
            lines.push(ln);
            assert(lines_view(lines@) =~= before + seq![lv]);
            return Ok(lines);
        }
        if n == 0 || r + n <= p {
            let end = line_rest(&s, r);
            return Err(
                Error::with_subject(ErrorKind::Parse, "Invalid syntax: ", text.substring_char(r, end)),
            );
        }
        lines.push(ln);
        p = r + n;
        proof {
            assert(lines_view(lines@) =~= before.push(lv));
            if lines_from(s@, p as int) is Some {
                assert(before + (seq![lv] + lines_from(s@, p as int)->Some_0) =~= before.push(lv)
                    + lines_from(s@, p as int)->Some_0);
            }
        }
    }
}

} // verus!
