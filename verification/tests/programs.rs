use bf_interpreter::error::RunError;
use bf_interpreter::fold::translate_program;
use bf_interpreter::folded::optiterp2;
use bf_interpreter::jumps::bracket_jumptable;
use bf_interpreter::machine::{Machine, Status, LINE_END, TAPE_LEN};
use bf_interpreter::run::run;
use bf_interpreter::simple::simpleinterp;
use bf_interpreter::source::filter_tokens;
use bf_interpreter::table::optinterp1;

const FUEL: u64 = 1_000_000;
const NAMES: [&str; 3] = ["simple", "optiterp1", "optiterp2"];

fn all_tiers(source: &str, input: &[u8]) -> Vec<Machine> {
    let tokens = filter_tokens(source);
    let input = input.to_vec();
    let table = bracket_jumptable(&tokens).unwrap();
    let mut program = translate_program(&tokens);
    vec![
        simpleinterp(&tokens, &input, FUEL).unwrap(),
        optinterp1(&tokens, &table, &input, FUEL),
        optiterp2(&mut program, &input, FUEL).unwrap(),
    ]
}

#[test]
fn three_increments_then_write() {
    for m in all_tiers("+++.", &[]) {
        assert_eq!(m.status(), Status::Halted);
        assert_eq!(m.ptr(), 0);
        assert_eq!(m.tape()[0], 3);
        assert_eq!(m.output(), &vec![3, LINE_END]);
    }
}

#[test]
fn three_increments_write_one_byte_before_the_terminator() {
    for name in NAMES {
        let m = run("+++.", name, &vec![], FUEL).unwrap().unwrap();
        let out = m.output();
        assert_eq!(out.len(), 2);
        assert_eq!(out[0], 3);
        assert_eq!(out[1], b'\n');
    }
}

#[test]
fn multiplication_loop_writes_capital_a() {
    for m in all_tiers("++++++++[>++++++++<-]>+.", &[]) {
        assert_eq!(m.status(), Status::Halted);
        assert_eq!(m.output(), &vec![65, LINE_END]);
        assert_eq!(m.output()[0] as char, 'A');
        assert_eq!(m.ptr(), 1);
        assert_eq!(m.tape()[0], 0);
        assert_eq!(m.tape()[1], 65);
    }
}

#[test]
fn read_then_write_echoes_the_byte() {
    for m in all_tiers(",.", &[0x41]) {
        assert_eq!(m.status(), Status::Halted);
        assert_eq!(m.output(), &vec![b'A', LINE_END]);
        assert_eq!(m.consumed(), 1);
    }
}

#[test]
fn lone_loop_open_fails_in_every_tier_before_any_output() {
    for name in NAMES {
        let r = run("[", name, &vec![], FUEL);
        assert!(matches!(r, Err(RunError::UnbalancedBracket)));
    }
    // Output in front of the stray delimiter is not written either.
    for name in NAMES {
        let r = run("+.[", name, &vec![], FUEL);
        assert!(matches!(r, Err(RunError::UnbalancedBracket)));
    }
    let tokens = filter_tokens("[");
    assert_eq!(bracket_jumptable(&tokens), Err(RunError::UnbalancedBracket));
    let mut program = translate_program(&tokens);
    let before = program.clone();
    assert!(matches!(optiterp2(&mut program, &vec![], FUEL), Err(RunError::UnbalancedBracket)));
    assert_eq!(program, before);
}

#[test]
fn thirty_thousand_moves_right_fault_at_the_edge() {
    let source = ">".repeat(TAPE_LEN);
    for m in all_tiers(&source, &[]) {
        assert_eq!(m.status(), Status::Failed(RunError::PointerOutOfBounds));
        assert!(m.output().is_empty());
        assert!(m.ptr() < TAPE_LEN);
    }
}

#[test]
fn one_move_less_stays_on_the_tape() {
    let source = ">".repeat(TAPE_LEN - 1);
    for m in all_tiers(&source, &[]) {
        assert_eq!(m.status(), Status::Halted);
        assert_eq!(m.ptr(), TAPE_LEN - 1);
        assert_eq!(m.output(), &vec![LINE_END]);
    }
}

#[test]
fn the_fault_is_the_same_on_every_run() {
    let source = ">".repeat(TAPE_LEN) + ".";
    let first = all_tiers(&source, &[]);
    let second = all_tiers(&source, &[]);
    for (a, b) in first.iter().zip(second.iter()) {
        assert_eq!(a.status(), b.status());
        assert_eq!(a.output(), b.output());
        assert_eq!(a.status(), Status::Failed(RunError::PointerOutOfBounds));
    }
}

#[test]
fn moving_left_from_the_first_cell_faults() {
    for m in all_tiers("+.<.", &[]) {
        assert_eq!(m.status(), Status::Failed(RunError::PointerOutOfBounds));
        assert_eq!(m.output(), &vec![1]);
        assert_eq!(m.ptr(), 0);
    }
}

#[test]
fn empty_program_writes_the_terminator_only() {
    for m in all_tiers("", &[]) {
        assert_eq!(m.status(), Status::Halted);
        assert_eq!(m.output(), &vec![LINE_END]);
    }
}

#[test]
fn first_and_third_tier_check_the_delimiters_themselves() {
    for source in ["[", "]", "+[.", ".]", "[[]", "[]]"] {
        let tokens = filter_tokens(source);
        assert!(matches!(
            simpleinterp(&tokens, &vec![], FUEL),
            Err(RunError::UnbalancedBracket)
        ));
        let mut program = translate_program(&tokens);
        assert!(matches!(
            optiterp2(&mut program, &vec![], FUEL),
            Err(RunError::UnbalancedBracket)
        ));
    }
}
