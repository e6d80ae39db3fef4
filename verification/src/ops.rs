//! Instruction kinds and the folded instruction.

use vstd::prelude::*;
use crate::brackets::{Delim, Delimited};

verus! {

/// The kind of an instruction. `NullOp` stands for any character that is
/// not one of the eight commands.
#[derive(Clone, Copy, Debug, PartialEq, Eq, Structural)]
pub enum BFOpsType {
    NullOp,
    IncrPtr,
    DecrPtr,
    IncrByte,
    DecrByte,
    WriteChar,
    ReadChar,
    BeginLoop,
    EndLoop,
}

/// A folded instruction. For the six repeatable kinds `n` is the run
/// length; for a loop delimiter it is 1 until the delimiters are linked,
/// and the index of the partner afterwards.
#[derive(Clone, Copy, Debug, PartialEq, Eq, Structural)]
pub struct BFOp {
    pub bftype: BFOpsType,
    pub n: usize,
}

/// The kind that a source character denotes.
pub open spec fn kind_of(c: char) -> BFOpsType {
    if c == '>' {
        BFOpsType::IncrPtr
    } else if c == '<' {
        BFOpsType::DecrPtr
    } else if c == '+' {
        BFOpsType::IncrByte
    } else if c == '-' {
        BFOpsType::DecrByte
    } else if c == '.' {
        BFOpsType::WriteChar
    } else if c == ',' {
        BFOpsType::ReadChar
    } else if c == '[' {
        BFOpsType::BeginLoop
    } else if c == ']' {
        BFOpsType::EndLoop
    } else {
        BFOpsType::NullOp
    }
}

/// Whether a character is one of the eight commands.
pub open spec fn is_command(c: char) -> bool {
    kind_of(c) != BFOpsType::NullOp
}

/// The character that denotes a kind; for `NullOp`, which many
/// characters denote, a blank.
pub open spec fn symbol_of(kind: BFOpsType) -> char {
    match kind {
        BFOpsType::IncrPtr => '>',
        BFOpsType::DecrPtr => '<',
        BFOpsType::IncrByte => '+',
        BFOpsType::DecrByte => '-',
        BFOpsType::WriteChar => '.',
        BFOpsType::ReadChar => ',',
        BFOpsType::BeginLoop => '[',
        BFOpsType::EndLoop => ']',
        BFOpsType::NullOp => ' ',
    }
}

/// Classifies one source character.
pub fn classify(c: char) -> (kind: BFOpsType)
    ensures
        kind == kind_of(c),
{
    match c {
        '>' => BFOpsType::IncrPtr,
        '<' => BFOpsType::DecrPtr,
        '+' => BFOpsType::IncrByte,
        '-' => BFOpsType::DecrByte,
        '.' => BFOpsType::WriteChar,
        ',' => BFOpsType::ReadChar,
        '[' => BFOpsType::BeginLoop,
        ']' => BFOpsType::EndLoop,
        _ => BFOpsType::NullOp,
    }
}

/// Whether adjacent instructions of this kind fold into one.
pub open spec fn repeatable(kind: BFOpsType) -> bool {
    kind != BFOpsType::BeginLoop && kind != BFOpsType::EndLoop && kind != BFOpsType::NullOp
}

/// Computes whether adjacent instructions of this kind fold into one.
pub fn is_repeatable(kind: BFOpsType) -> (r: bool)
    ensures
        r == repeatable(kind),
{
    match kind {
        BFOpsType::BeginLoop | BFOpsType::EndLoop | BFOpsType::NullOp => false,
        _ => true,
    }
}

/// How a kind counts for matching.
pub open spec fn delim_of(kind: BFOpsType) -> Delim {
    match kind {
        BFOpsType::BeginLoop => Delim::Open,
        BFOpsType::EndLoop => Delim::Close,
        _ => Delim::Other,
    }
}

/// Computes how a kind counts for matching.
pub fn kind_delimiter(kind: BFOpsType) -> (d: Delim)
    ensures
        d == delim_of(kind),
{
    match kind {
        BFOpsType::BeginLoop => Delim::Open,
        BFOpsType::EndLoop => Delim::Close,
        _ => Delim::Other,
    }
}

impl Delimited for char {
    open spec fn delim(&self) -> Delim {
        delim_of(kind_of(*self))
    }

    fn delimiter(&self) -> (d: Delim) {
        kind_delimiter(classify(*self))
    }
}

impl Delimited for BFOp {
    open spec fn delim(&self) -> Delim {
        delim_of(self.bftype)
    }

    fn delimiter(&self) -> (d: Delim) {
        kind_delimiter(self.bftype)
    }
}

} // verus!
