use bf_interpreter::error::RunError;
use bf_interpreter::fold::translate_program;
use bf_interpreter::folded::{optiterp2, step_optiterp2};
use bf_interpreter::input::{demand_folded, demand_tokens};
use bf_interpreter::jumps::{bracket_jumptable, bracket_offset};
use bf_interpreter::machine::{Machine, Status, LINE_END};
use bf_interpreter::simple::{simpleinterp, step_simple};
use bf_interpreter::source::filter_tokens;
use bf_interpreter::table::{optinterp1, step_optinterp1};

const HELLO: &str = "++++++++[>++++[>++>+++>+++>+<<<<-]>+>+>->>+[<]<-]>>.>---.+++++++..+++.\
                     >>.<-.<.+++.------.--------.>>+.>++.";

fn three_tiers(tokens: &Vec<char>, input: &Vec<u8>, fuel: u64) -> [Machine; 3] {
    let table = bracket_jumptable(tokens).unwrap();
    let mut program = translate_program(tokens);
    [
        simpleinterp(tokens, input, fuel).unwrap(),
        optinterp1(tokens, &table, input, fuel),
        optiterp2(&mut program, input, fuel).unwrap(),
    ]
}

fn same_to_the_outside(a: &Machine, b: &Machine) {
    assert_eq!(a.status(), b.status());
    assert_eq!(a.output(), b.output());
    if !matches!(a.status(), Status::Failed(_)) {
        assert_eq!(a.tape(), b.tape());
        assert_eq!(a.ptr(), b.ptr());
        assert_eq!(a.consumed(), b.consumed());
    }
}

/// A balanced program made from a seed: a linear congruential sequence
/// picks the commands.
fn program_from(seed: u64, len: usize) -> Vec<char> {
    let mut state = seed;
    let mut open = 0;
    let mut out = Vec::new();
    for _ in 0..len {
        state = state.wrapping_mul(6364136223846793005).wrapping_add(1442695040888963407);
        let c = match (state >> 33) % 12 {
            0 | 1 => '+',
            2 | 3 => '-',
            4 | 5 => '>',
            6 => '<',
            7 => '.',
            8 => ',',
            9 | 10 => {
                open += 1;
                '['
            }
            _ => {
                if open > 0 {
                    open -= 1;
                    ']'
                } else {
                    '+'
                }
            }
        };
        out.push(c);
    }
    for _ in 0..open {
        out.push(']');
    }
    out
}

#[test]
fn hello_world_in_all_tiers() {
    let tokens = filter_tokens(HELLO);
    for m in three_tiers(&tokens, &vec![], 100_000) {
        assert_eq!(m.status(), Status::Halted);
        let mut expected = b"Hello World!\n".to_vec();
        expected.push(LINE_END);
        assert_eq!(m.output(), &expected);
    }
}

#[test]
fn first_and_second_tier_are_in_the_same_state_after_any_number_of_steps() {
    let tokens = filter_tokens(HELLO);
    let table = bracket_jumptable(&tokens).unwrap();
    for fuel in [0, 1, 2, 10, 57, 300, 901, 5000] {
        let a = simpleinterp(&tokens, &vec![], fuel).unwrap();
        let b = optinterp1(&tokens, &table, &vec![], fuel);
        assert_eq!(a.pc(), b.pc());
        assert_eq!(a.ptr(), b.ptr());
        assert_eq!(a.tape(), b.tape());
        assert_eq!(a.output(), b.output());
        assert_eq!(a.status(), b.status());
        assert_eq!(a.consumed(), b.consumed());
    }
}

#[test]
fn stepping_by_hand_is_running_with_fuel() {
    let tokens = filter_tokens("++[>+++<-]>.");
    let table = bracket_jumptable(&tokens).unwrap();
    let mut program = translate_program(&tokens);
    bracket_offset(&mut program).unwrap();
    let input = Vec::new();
    let mut a = Machine::new();
    let mut b = Machine::new();
    let mut c = Machine::new();
    for fuel in 0..40 {
        let ra = simpleinterp(&tokens, &input, fuel).unwrap();
        let rb = optinterp1(&tokens, &table, &input, fuel);
        let mut unlinked = translate_program(&tokens);
        let rc = optiterp2(&mut unlinked, &input, fuel).unwrap();
        assert_eq!(unlinked, program);
        for (stepped, run) in [(&a, &ra), (&b, &rb), (&c, &rc)] {
            assert_eq!(stepped.pc(), run.pc());
            assert_eq!(stepped.ptr(), run.ptr());
            assert_eq!(stepped.tape(), run.tape());
            assert_eq!(stepped.output(), run.output());
            assert_eq!(stepped.status(), run.status());
        }
        step_simple(&tokens, &input, &mut a);
        step_optinterp1(&tokens, &table, &input, &mut b);
        step_optiterp2(&program, &input, &mut c);
    }
    assert_eq!(a.status(), Status::Halted);
    assert_eq!(a.output(), &vec![6, LINE_END]);
    assert_eq!(c.status(), Status::Halted);
    assert_eq!(c.output(), &vec![6, LINE_END]);
}

#[test]
fn a_folded_step_is_as_many_token_steps_as_it_stands_for() {
    let tokens = filter_tokens("+++>>..");
    let mut program = translate_program(&tokens);
    let folded = optiterp2(&mut program, &vec![], 2).unwrap();
    let plain = simpleinterp(&tokens, &vec![], 5).unwrap();
    same_to_the_outside(&plain, &folded);
    assert_eq!(folded.pc(), 2);
    assert_eq!(plain.pc(), 5);
    assert_eq!(folded.ptr(), 2);
}

#[test]
fn tiers_agree_on_generated_programs() {
    let fuel = 20_000;
    let mut finished = 0;
    for seed in 0..300u64 {
        let tokens = program_from(seed, 5 + (seed % 40) as usize);
        let input: Vec<u8> = (0..8).map(|i| (seed as u8).wrapping_mul(31).wrapping_add(i)).collect();
        let [a, b, c] = three_tiers(&tokens, &input, fuel);
        assert_eq!(a.pc(), b.pc());
        same_to_the_outside(&a, &b);
        if a.status() != Status::Running {
            same_to_the_outside(&a, &c);
            finished += 1;
        }
    }
    assert!(finished > 100);
}

#[test]
fn a_run_that_is_over_stays_as_it_is() {
    let tokens = filter_tokens("+.");
    let short = simpleinterp(&tokens, &vec![], 3).unwrap();
    let long = simpleinterp(&tokens, &vec![], 3000).unwrap();
    assert_eq!(short.status(), Status::Halted);
    assert_eq!(short.output(), long.output());
    assert_eq!(short.pc(), long.pc());
    let none = simpleinterp(&tokens, &vec![], 0).unwrap();
    assert_eq!(none.status(), Status::Running);
    assert!(none.output().is_empty());
}

#[test]
fn a_loop_that_never_ends_runs_out_of_fuel() {
    let tokens = filter_tokens("+[]");
    for m in three_tiers(&tokens, &vec![], 1000) {
        assert_eq!(m.status(), Status::Running);
        assert!(m.output().is_empty());
    }
}

#[test]
fn input_runs_out_in_all_tiers_alike() {
    let tokens = filter_tokens(",.,.,,.");
    for m in three_tiers(&tokens, &vec![7, 8, 9], 100) {
        assert_eq!(m.status(), Status::Failed(RunError::InputExhausted));
        assert_eq!(m.output(), &vec![7, 8]);
    }
}

#[test]
fn demand_is_what_the_next_step_reads() {
    let tokens = filter_tokens("+,,,.");
    let mut program = translate_program(&tokens);
    bracket_offset(&mut program).unwrap();
    let input = vec![1, 2, 3];
    let mut plain = Machine::new();
    let mut folded = Machine::new();
    assert_eq!(demand_tokens(&tokens, &plain), 0);
    assert_eq!(demand_folded(&program, &folded), 0);
    step_simple(&tokens, &input, &mut plain);
    step_optiterp2(&program, &input, &mut folded);
    assert_eq!(demand_tokens(&tokens, &plain), 1);
    assert_eq!(demand_folded(&program, &folded), 3);
    step_simple(&tokens, &input, &mut plain);
    step_optiterp2(&program, &input, &mut folded);
    assert_eq!(plain.consumed(), 1);
    assert_eq!(folded.consumed(), 3);
    assert_eq!(folded.cell(), 3);
    assert_eq!(demand_folded(&program, &folded), 0);
    step_optiterp2(&program, &input, &mut folded);
    step_optiterp2(&program, &input, &mut folded);
    assert_eq!(folded.status(), Status::Halted);
    assert_eq!(demand_folded(&program, &folded), 0);
}
