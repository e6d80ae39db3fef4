//! The state that the three tiers share, and what one instruction does
//! to it.
//!
//! Two policies are fixed here. Moving the cell pointer off either end of
//! the tape is a fault: the run fails with `PointerOutOfBounds` and the
//! pointer stays where it was. Reading when the input stream is at its
//! end is a fault too: the run fails with `InputExhausted`.

use vstd::prelude::*;
use crate::cells::{add_wrapping, sub_wrapping, wrap_add, wrap_sub};
use crate::error::RunError;
use crate::ops::BFOpsType;

verus! {

/// The number of cells on the tape.
pub const TAPE_LEN: usize = 30000;

/// The line terminator that ends the output of every completed run.
pub const LINE_END: u8 = 10;

/// Where a run stands.
#[derive(Clone, Copy, Debug, PartialEq, Eq, Structural)]
pub enum Status {
    /// There may be more to execute.
    Running,
    /// The program counter passed the last instruction.
    Halted,
    /// The run was aborted.
    Failed(RunError),
}

/// The mathematical state of a run.
pub struct State {
    /// The index of the next instruction.
    pub pc: int,
    /// The index of the addressed cell.
    pub ptr: int,
    /// The cells.
    pub tape: Seq<u8>,
    /// How many bytes of the input stream have been read.
    pub consumed: int,
    /// The bytes written so far; in a machine, those written since its
    /// output was last taken.
    pub output: Seq<u8>,
    /// Where the run stands.
    pub status: Status,
}

impl State {
    /// The state in which every run begins.
    pub open spec fn initial() -> State {
        State {
            pc: 0,
            ptr: 0,
            tape: Seq::new(TAPE_LEN as nat, |i: int| 0u8),
            consumed: 0,
            output: Seq::empty(),
            status: Status::Running,
        }
    }

    /// The tape has its size and the pointer is on it.
    pub open spec fn wf(self) -> bool {
        &&& self.tape.len() == TAPE_LEN
        &&& 0 <= self.ptr < TAPE_LEN
        &&& 0 <= self.pc
        &&& 0 <= self.consumed
    }

    /// The addressed cell.
    pub open spec fn cell(self) -> u8 {
        self.tape[self.ptr]
    }

    /// This state, aborted.
    pub open spec fn failed(self, e: RunError) -> State {
        State { status: Status::Failed(e), ..self }
    }

    /// This state with the program counter at `pc`.
    pub open spec fn at(self, pc: int) -> State {
        State { pc, ..self }
    }

    /// This state with `v` in the addressed cell.
    pub open spec fn store(self, v: u8) -> State {
        State { tape: self.tape.update(self.ptr, v), ..self }
    }

    /// This state at the end of its program: the line terminator is
    /// written and the run is over.
    pub open spec fn finished(self) -> State {
        State { status: Status::Halted, output: self.output.push(LINE_END), ..self }
    }
}

/// The state after one instruction of kind `kind`, applied `n` times in
/// one step. `target` is the index of the partner where `kind` is a loop
/// delimiter, and is not looked at otherwise; `n` is not looked at for a
/// loop delimiter. A step that faults changes nothing but the status.
pub open spec fn apply(kind: BFOpsType, n: int, target: int, input: Seq<u8>, s: State) -> State {
    match kind {
        BFOpsType::IncrPtr => if s.ptr + n < TAPE_LEN {
            State { ptr: s.ptr + n, ..s }.at(s.pc + 1)
        } else {
            s.failed(RunError::PointerOutOfBounds)
        },
        BFOpsType::DecrPtr => if s.ptr - n >= 0 {
            State { ptr: s.ptr - n, ..s }.at(s.pc + 1)
        } else {
            s.failed(RunError::PointerOutOfBounds)
        },
        BFOpsType::IncrByte => s.store(wrap_add(s.cell(), n)).at(s.pc + 1),
        BFOpsType::DecrByte => s.store(wrap_sub(s.cell(), n)).at(s.pc + 1),
        BFOpsType::WriteChar => State {
            output: s.output + Seq::new(n as nat, |i: int| s.cell()),
            ..s
        }.at(s.pc + 1),
        BFOpsType::ReadChar => if n <= 0 {
            s.at(s.pc + 1)
        } else if s.consumed + n <= input.len() {
            State { consumed: s.consumed + n, ..s }.store(input[s.consumed + n - 1]).at(s.pc + 1)
        } else {
            s.failed(RunError::InputExhausted)
        },
        BFOpsType::BeginLoop => if s.cell() == 0 {
            s.at(target + 1)
        } else {
            s.at(s.pc + 1)
        },
        BFOpsType::EndLoop => if s.cell() != 0 {
            s.at(target + 1)
        } else {
            s.at(s.pc + 1)
        },
        BFOpsType::NullOp => s.at(s.pc + 1),
    }
}

/// Cell arithmetic never fails: whatever the count, the cell changes by
/// it modulo 256, nothing else changes, and the run goes on.
pub proof fn lemma_cell_arithmetic_goes_on(n: int, target: int, input: Seq<u8>, s: State)
    requires
        s.wf(),
    ensures
        apply(BFOpsType::IncrByte, n, target, input, s).cell() == wrap_add(s.cell(), n),
        apply(BFOpsType::DecrByte, n, target, input, s).cell() == wrap_sub(s.cell(), n),
        apply(BFOpsType::IncrByte, n, target, input, s).status == s.status,
        apply(BFOpsType::DecrByte, n, target, input, s).status == s.status,
{
}

/// The state of one run: program counter, cell pointer, tape, how much
/// input was read, and the output written so far.
pub struct Machine {
    pc: usize,
    ptr: usize,
    tape: Vec<u8>,
    consumed: usize,
    output: Vec<u8>,
    status: Status,
}

impl View for Machine {
    type V = State;

    closed spec fn view(&self) -> State {
        State {
            pc: self.pc as int,
            ptr: self.ptr as int,
            tape: self.tape@,
            consumed: self.consumed as int,
            output: self.output@,
            status: self.status,
        }
    }
}

impl Machine {
    /// A machine at the start of a run: all cells zero, pointer and
    /// program counter at 0, nothing read or written.
    pub fn new() -> (m: Machine)
        ensures
            m@ == State::initial(),
    {
        let m = Machine {
            pc: 0,
            ptr: 0,
            tape: vec![0u8; TAPE_LEN],
            consumed: 0,
            output: Vec::new(),
            status: Status::Running,
        };
        assert(m@.tape =~= State::initial().tape);
        m
    }

    /// The index of the next instruction.
    pub fn pc(&self) -> (r: usize)
        ensures
            r == self@.pc,
    {
        self.pc
    }

    /// The index of the addressed cell.
    pub fn ptr(&self) -> (r: usize)
        ensures
            r == self@.ptr,
    {
        self.ptr
    }

    /// How many bytes of the input stream have been read.
    pub fn consumed(&self) -> (r: usize)
        ensures
            r == self@.consumed,
    {
        self.consumed
    }

    /// Where the run stands.
    pub fn status(&self) -> (r: Status)
        ensures
            r == self@.status,
    {
        self.status
    }

    /// The value of the addressed cell.
    pub fn cell(&self) -> (r: u8)
        requires
            self@.wf(),
        ensures
            r == self@.cell(),
    {
        self.tape[self.ptr]
    }

    /// The cells.
    pub fn tape(&self) -> (r: &Vec<u8>)
        ensures
            r@ == self@.tape,
    {
        &self.tape
    }

    /// The bytes written since the output was last taken.
    pub fn output(&self) -> (r: &Vec<u8>)
        ensures
            r@ == self@.output,
    {
        &self.output
    }

    /// Hands out the bytes written so far and forgets them, so that a
    /// driver can pass output on as it comes.
    pub fn take_output(&mut self) -> (out: Vec<u8>)
        ensures
            out@ == old(self)@.output,
            final(self)@ == (State { output: Seq::empty(), ..old(self)@ }),
    {
        let mut out: Vec<u8> = Vec::new();
        std::mem::swap(&mut self.output, &mut out);
        out
    }

    /// Ends the run at the end of its program: writes the line terminator
    /// and halts.
    pub fn finish(&mut self)
        ensures
            final(self)@ == old(self)@.finished(),
    {
        self.output.push(LINE_END);
        self.status = Status::Halted;
    }

    /// Moves the pointer `n` cells to the right.
    fn move_right(&mut self, n: usize)
        requires
            old(self)@.wf(),
            old(self)@.pc < usize::MAX,
        ensures
            final(self)@ == apply(BFOpsType::IncrPtr, n as int, 0, Seq::empty(), old(self)@),
            final(self)@.wf(),
    {
        if n < TAPE_LEN - self.ptr {
            self.ptr = self.ptr + n;
            self.pc = self.pc + 1;
        } else {
            self.status = Status::Failed(RunError::PointerOutOfBounds);
        }
    }

    /// Moves the pointer `n` cells to the left.
    fn move_left(&mut self, n: usize)
        requires
            old(self)@.wf(),
            old(self)@.pc < usize::MAX,
        ensures
            final(self)@ == apply(BFOpsType::DecrPtr, n as int, 0, Seq::empty(), old(self)@),
            final(self)@.wf(),
    {
        if n <= self.ptr {
            self.ptr = self.ptr - n;
            self.pc = self.pc + 1;
        } else {
            self.status = Status::Failed(RunError::PointerOutOfBounds);
        }
    }

    /// Adds `n` to the addressed cell, modulo 256.
    fn increment(&mut self, n: usize)
        requires
            old(self)@.wf(),
            old(self)@.pc < usize::MAX,
        ensures
            final(self)@ == apply(BFOpsType::IncrByte, n as int, 0, Seq::empty(), old(self)@),
            final(self)@.wf(),
    {
        let cell: u8 = self.tape[self.ptr];
        self.tape.set(self.ptr, add_wrapping(cell, n));
        self.pc = self.pc + 1;
    }

    /// Subtracts `n` from the addressed cell, modulo 256.
    fn decrement(&mut self, n: usize)
        requires
            old(self)@.wf(),
            old(self)@.pc < usize::MAX,
        ensures
            final(self)@ == apply(BFOpsType::DecrByte, n as int, 0, Seq::empty(), old(self)@),
            final(self)@.wf(),
    {
        let cell: u8 = self.tape[self.ptr];
        self.tape.set(self.ptr, sub_wrapping(cell, n));
        self.pc = self.pc + 1;
    }

    /// Writes the addressed cell `n` times.
    fn write(&mut self, n: usize)
        requires
            old(self)@.wf(),
            old(self)@.pc < usize::MAX,
        ensures
            final(self)@ == apply(BFOpsType::WriteChar, n as int, 0, Seq::empty(), old(self)@),
            final(self)@.wf(),
    {
        let cell: u8 = self.tape[self.ptr];
        let mut written: usize = 0;
        while written < n
            invariant
                written <= n,
                self.output@ == old(self).output@ + Seq::new(written as nat, |i: int| cell),
                self.pc == old(self).pc,
                self.ptr == old(self).ptr,
                self.tape == old(self).tape,
                self.consumed == old(self).consumed,
                self.status == old(self).status,
            decreases n - written,
        {
            self.output.push(cell);
            written += 1;
        }
        self.pc = self.pc + 1;
    }

    /// Reads `n` bytes of `input` into the addressed cell, one after the
    /// other, so that the last one stays; fails where fewer are left.
    fn read(&mut self, n: usize, input: &Vec<u8>)
        requires
            old(self)@.wf(),
            old(self)@.pc < usize::MAX,
        ensures
            final(self)@ == apply(BFOpsType::ReadChar, n as int, 0, input@, old(self)@),
            final(self)@.wf(),
    {
        if n == 0 {
            self.pc = self.pc + 1;
        } else if self.consumed <= input.len() && n <= input.len() - self.consumed {
            self.consumed = self.consumed + n;
            self.tape.set(self.ptr, input[self.consumed - 1]);
            self.pc = self.pc + 1;
        } else {
            self.status = Status::Failed(RunError::InputExhausted);
        }
    }

    /// Moves the program counter behind `target` where `jump` holds, and
    /// to the next instruction otherwise.
    fn branch(&mut self, jump: bool, target: usize)
        requires
            old(self)@.pc < usize::MAX,
            target < usize::MAX,
        ensures
            final(self)@ == old(self)@.at(
                if jump {
                    target + 1
                } else {
                    old(self)@.pc + 1
                },
            ),
    {
        if jump {
            self.pc = target + 1;
        } else {
            self.pc = self.pc + 1;
        }
    }

    /// Executes one instruction: `kind`, applied `n` times, with `target`
    /// as the partner's index where `kind` is a loop delimiter.
    pub fn execute(&mut self, kind: BFOpsType, n: usize, target: usize, input: &Vec<u8>)
        requires
            old(self)@.wf(),
            old(self)@.pc < usize::MAX,
            target < usize::MAX,
        ensures
            final(self)@ == apply(kind, n as int, target as int, input@, old(self)@),
            final(self)@.wf(),
    {
        match kind {
            BFOpsType::IncrPtr => self.move_right(n),
            BFOpsType::DecrPtr => self.move_left(n),
            BFOpsType::IncrByte => self.increment(n),
            BFOpsType::DecrByte => self.decrement(n),
            BFOpsType::WriteChar => self.write(n),
            BFOpsType::ReadChar => self.read(n, input),
            BFOpsType::BeginLoop => {
                let jump: bool = self.cell() == 0;
                self.branch(jump, target)
            },
            BFOpsType::EndLoop => {
                let jump: bool = self.cell() != 0;
                self.branch(jump, target)
            },
            BFOpsType::NullOp => self.branch(false, target),
        }
    }
}

} // verus!
