use vstd::prelude::*;

verus! {

/// The condition under which a relative jump is taken.
#[derive(Debug, Clone, Copy, PartialEq, Eq, Structural)]
pub enum JRCond {
    True,
    IfZ,
    IfC,
    IfN,
}

/// Where a jump goes: a literal address (or offset) or a named label.
#[derive(Debug)]
pub enum JumpTarget {
    Const(u8),
    Label(String),
}

/// A jump target with its label as a sequence of characters.
pub enum TargetView {
    Const(u8),
    Label(Seq<char>),
}

impl View for JumpTarget {
    type V = TargetView;

    open spec fn view(&self) -> TargetView {
        match self {
            JumpTarget::Const(v) => TargetView::Const(*v),
            JumpTarget::Label(l) => TargetView::Label(l@),
        }
    }
}

/// The two condition bits of a relative jump.
pub open spec fn cond_bits(c: JRCond) -> u8 {
    match c {
        JRCond::True => 0u8,
        JRCond::IfZ => 1u8,
        JRCond::IfC => 2u8,
        JRCond::IfN => 3u8,
    }
}

} // verus!
