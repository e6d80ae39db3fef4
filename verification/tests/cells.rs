use bf_interpreter::error::RunError;
use bf_interpreter::machine::{Machine, Status, LINE_END, TAPE_LEN};
use bf_interpreter::ops::BFOpsType;

fn fresh() -> (Machine, Vec<u8>) {
    (Machine::new(), Vec::new())
}

#[test]
fn a_new_machine_is_all_zero() {
    let m = Machine::new();
    assert_eq!(m.pc(), 0);
    assert_eq!(m.ptr(), 0);
    assert_eq!(m.consumed(), 0);
    assert_eq!(m.status(), Status::Running);
    assert!(m.output().is_empty());
    assert_eq!(m.tape().len(), 30000);
    assert_eq!(TAPE_LEN, 30000);
    assert!(m.tape().iter().all(|cell| *cell == 0));
    assert_eq!(m.cell(), 0);
}

#[test]
fn a_cell_at_255_incremented_once_reads_0() {
    let (mut m, input) = fresh();
    m.execute(BFOpsType::IncrByte, 255, 0, &input);
    assert_eq!(m.cell(), 255);
    m.execute(BFOpsType::IncrByte, 1, 0, &input);
    assert_eq!(m.cell(), 0);
    assert_eq!(m.status(), Status::Running);
}

#[test]
fn a_cell_at_0_decremented_once_reads_255() {
    let (mut m, input) = fresh();
    m.execute(BFOpsType::DecrByte, 1, 0, &input);
    assert_eq!(m.cell(), 255);
    assert_eq!(m.status(), Status::Running);
}

#[test]
fn counted_cell_arithmetic_is_modulo_256() {
    let (mut m, input) = fresh();
    m.execute(BFOpsType::IncrByte, 250, 0, &input);
    m.execute(BFOpsType::IncrByte, 10, 0, &input);
    assert_eq!(m.cell(), 4);
    m.execute(BFOpsType::DecrByte, 10, 0, &input);
    assert_eq!(m.cell(), 250);
    m.execute(BFOpsType::IncrByte, 256, 0, &input);
    assert_eq!(m.cell(), 250);
    m.execute(BFOpsType::IncrByte, 1000, 0, &input);
    assert_eq!(m.cell(), ((250 + 1000) % 256) as u8);
    m.execute(BFOpsType::DecrByte, 1000, 0, &input);
    assert_eq!(m.cell(), 250);
    m.execute(BFOpsType::DecrByte, usize::MAX, 0, &input);
    m.execute(BFOpsType::IncrByte, usize::MAX, 0, &input);
    assert_eq!(m.cell(), 250);
    assert_eq!(m.pc(), 8);
}

#[test]
fn pointer_moves_by_the_count() {
    let (mut m, input) = fresh();
    m.execute(BFOpsType::IncrPtr, 12, 0, &input);
    assert_eq!(m.ptr(), 12);
    m.execute(BFOpsType::DecrPtr, 5, 0, &input);
    assert_eq!(m.ptr(), 7);
    m.execute(BFOpsType::IncrPtr, TAPE_LEN - 8, 0, &input);
    assert_eq!(m.ptr(), TAPE_LEN - 1);
    assert_eq!(m.status(), Status::Running);
    assert_eq!(m.pc(), 3);
}

#[test]
fn pointer_leaving_the_tape_on_the_right_is_a_fault() {
    let (mut m, input) = fresh();
    m.execute(BFOpsType::IncrPtr, 7, 0, &input);
    m.execute(BFOpsType::IncrPtr, TAPE_LEN - 7, 0, &input);
    assert_eq!(m.status(), Status::Failed(RunError::PointerOutOfBounds));
    assert_eq!(m.ptr(), 7);
    assert_eq!(m.pc(), 1);
    let (mut m, input) = fresh();
    m.execute(BFOpsType::IncrPtr, usize::MAX, 0, &input);
    assert_eq!(m.status(), Status::Failed(RunError::PointerOutOfBounds));
}

#[test]
fn pointer_leaving_the_tape_on_the_left_is_a_fault() {
    let (mut m, input) = fresh();
    m.execute(BFOpsType::IncrPtr, 3, 0, &input);
    m.execute(BFOpsType::DecrPtr, 4, 0, &input);
    assert_eq!(m.status(), Status::Failed(RunError::PointerOutOfBounds));
    assert_eq!(m.ptr(), 3);
}

#[test]
fn write_appends_the_cell_count_times() {
    let (mut m, input) = fresh();
    m.execute(BFOpsType::IncrByte, 72, 0, &input);
    m.execute(BFOpsType::WriteChar, 3, 0, &input);
    assert_eq!(m.output(), &vec![72, 72, 72]);
    m.execute(BFOpsType::WriteChar, 0, 0, &input);
    assert_eq!(m.output(), &vec![72, 72, 72]);
    assert_eq!(m.pc(), 3);
}

#[test]
fn read_keeps_the_last_of_the_bytes_it_takes() {
    let mut m = Machine::new();
    let input = vec![10, 20, 30, 40];
    m.execute(BFOpsType::ReadChar, 1, 0, &input);
    assert_eq!(m.cell(), 10);
    assert_eq!(m.consumed(), 1);
    m.execute(BFOpsType::ReadChar, 3, 0, &input);
    assert_eq!(m.cell(), 40);
    assert_eq!(m.consumed(), 4);
    m.execute(BFOpsType::ReadChar, 0, 0, &input);
    assert_eq!(m.cell(), 40);
    assert_eq!(m.status(), Status::Running);
    assert_eq!(m.pc(), 3);
}

#[test]
fn read_past_the_end_of_input_is_a_fault() {
    let mut m = Machine::new();
    let input = vec![10, 20];
    m.execute(BFOpsType::ReadChar, 3, 0, &input);
    assert_eq!(m.status(), Status::Failed(RunError::InputExhausted));
    assert_eq!(m.consumed(), 0);
    assert_eq!(m.cell(), 0);
    let (mut m, input) = fresh();
    m.execute(BFOpsType::ReadChar, 1, 0, &input);
    assert_eq!(m.status(), Status::Failed(RunError::InputExhausted));
}

#[test]
fn loop_open_jumps_behind_its_partner_on_zero() {
    let (mut m, input) = fresh();
    m.execute(BFOpsType::BeginLoop, 1, 9, &input);
    assert_eq!(m.pc(), 10);
    let (mut m, input) = fresh();
    m.execute(BFOpsType::IncrByte, 1, 0, &input);
    m.execute(BFOpsType::BeginLoop, 1, 9, &input);
    assert_eq!(m.pc(), 2);
}

#[test]
fn loop_close_jumps_behind_its_partner_on_nonzero() {
    let (mut m, input) = fresh();
    m.execute(BFOpsType::IncrByte, 1, 0, &input);
    m.execute(BFOpsType::IncrByte, 1, 0, &input);
    m.execute(BFOpsType::IncrByte, 1, 0, &input);
    m.execute(BFOpsType::EndLoop, 1, 0, &input);
    assert_eq!(m.pc(), 1);
    let (mut m, input) = fresh();
    m.execute(BFOpsType::EndLoop, 1, 0, &input);
    assert_eq!(m.pc(), 1);
    m.execute(BFOpsType::NullOp, 1, 0, &input);
    assert_eq!(m.pc(), 2);
    assert_eq!(m.status(), Status::Running);
}

#[test]
fn finishing_writes_the_terminator_once() {
    let mut m = Machine::new();
    m.finish();
    assert_eq!(m.status(), Status::Halted);
    assert_eq!(m.output(), &vec![LINE_END]);
    assert_eq!(LINE_END, b'\n');
}

#[test]
fn taking_the_output_empties_it() {
    let (mut m, input) = fresh();
    m.execute(BFOpsType::IncrByte, 5, 0, &input);
    m.execute(BFOpsType::WriteChar, 2, 0, &input);
    assert_eq!(m.take_output(), vec![5, 5]);
    assert!(m.output().is_empty());
    m.execute(BFOpsType::WriteChar, 1, 0, &input);
    assert_eq!(m.take_output(), vec![5]);
    assert_eq!(m.cell(), 5);
    assert_eq!(m.pc(), 3);
}
