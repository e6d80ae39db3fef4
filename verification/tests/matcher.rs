use bf_interpreter::brackets::{Delim, Delimited};
use bf_interpreter::matcher::{find_close, find_open, is_balanced, match_brackets};
use bf_interpreter::error::RunError;
use bf_interpreter::fold::translate_program;
use bf_interpreter::jumps::{bracket_jumptable, bracket_offset};
use bf_interpreter::ops::{BFOp, BFOpsType};

fn tokens(source: &str) -> Vec<char> {
    source.chars().collect()
}

#[test]
fn jump_table_of_nested_loops() {
    let t = bracket_jumptable(&tokens("[+[-]>[<]]")).unwrap();
    assert_eq!(t, vec![9, 0, 4, 0, 2, 0, 8, 0, 6, 0]);
}

#[test]
fn jump_table_of_loops_side_by_side() {
    let t = bracket_jumptable(&tokens("[][]")).unwrap();
    assert_eq!(t, vec![1, 0, 3, 2]);
}

#[test]
fn jump_table_without_loops_is_all_zero() {
    let t = bracket_jumptable(&tokens("+-<>.,")).unwrap();
    assert_eq!(t, vec![0; 6]);
    assert_eq!(bracket_jumptable(&tokens("")).unwrap(), Vec::<usize>::new());
}

#[test]
fn jumping_twice_leads_back_and_opens_come_first() {
    let program = tokens("++[>[-]+[[<]>]]-[.[,]]");
    let t = bracket_jumptable(&program).unwrap();
    assert_eq!(t.len(), program.len());
    let mut pairs = 0;
    for (i, c) in program.iter().enumerate() {
        match c {
            '[' => {
                assert!(i < t[i]);
                assert_eq!(program[t[i]], ']');
                assert_eq!(t[t[i]], i);
                pairs += 1;
            }
            ']' => {
                assert!(t[i] < i);
                assert_eq!(program[t[i]], '[');
                assert_eq!(t[t[i]], i);
            }
            _ => assert_eq!(t[i], 0),
        }
    }
    assert_eq!(pairs, 6);
    assert_eq!(program.iter().filter(|c| **c == ']').count(), 6);
}

#[test]
fn loops_never_cross() {
    let program = tokens("[[][[]]][]");
    let t = bracket_jumptable(&program).unwrap();
    for i1 in 0..program.len() {
        for i2 in (i1 + 1)..program.len() {
            if program[i1] == '[' && program[i2] == '[' {
                assert!(t[i1] < i2 || t[i2] < t[i1]);
            }
        }
    }
}

#[test]
fn unmatched_loop_open_is_unbalanced() {
    for source in ["[", "[[]", "+[+", "[][", "[[[]]"] {
        assert_eq!(bracket_jumptable(&tokens(source)), Err(RunError::UnbalancedBracket));
    }
}

#[test]
fn loop_close_without_open_loop_is_unbalanced() {
    for source in ["]", "][", "[]]", "+]+[", "[]][[]"] {
        assert_eq!(bracket_jumptable(&tokens(source)), Err(RunError::UnbalancedBracket));
    }
}

#[test]
fn forward_scan_finds_the_close_of_its_own_loop() {
    let program = tokens("[[]+[]]");
    assert_eq!(find_close(&program, 0), Some(6));
    assert_eq!(find_close(&program, 1), Some(2));
    assert_eq!(find_close(&program, 4), Some(5));
    assert_eq!(find_close(&tokens("[[]"), 0), None);
}

#[test]
fn backward_scan_finds_the_open_of_its_own_loop() {
    let program = tokens("[[]+[]]");
    assert_eq!(find_open(&program, 6), Some(0));
    assert_eq!(find_open(&program, 2), Some(1));
    assert_eq!(find_open(&program, 5), Some(4));
    assert_eq!(find_open(&tokens("[]]"), 2), None);
}

#[test]
fn characters_and_instructions_classify_alike() {
    assert_eq!('['.delimiter(), Delim::Open);
    assert_eq!(']'.delimiter(), Delim::Close);
    for c in ['+', '-', '<', '>', '.', ',', 'x', ' '] {
        assert_eq!(c.delimiter(), Delim::Other);
    }
    assert_eq!(BFOp { bftype: BFOpsType::BeginLoop, n: 7 }.delimiter(), Delim::Open);
    assert_eq!(BFOp { bftype: BFOpsType::EndLoop, n: 7 }.delimiter(), Delim::Close);
    assert_eq!(BFOp { bftype: BFOpsType::IncrByte, n: 7 }.delimiter(), Delim::Other);
    assert_eq!(BFOp { bftype: BFOpsType::NullOp, n: 1 }.delimiter(), Delim::Other);
}

#[test]
fn the_matcher_works_on_folded_instructions_too() {
    let program = translate_program(&tokens("+++[>>[-]<<-]"));
    let t = match_brackets(&program).unwrap();
    assert_eq!(t, vec![0, 8, 0, 5, 0, 3, 0, 0, 1]);
}

#[test]
fn linking_writes_partner_indices_into_the_delimiters() {
    let mut program = translate_program(&tokens("+++[>>[-]<<-]"));
    assert_eq!(bracket_offset(&mut program), Ok(()));
    let expected = vec![
        BFOp { bftype: BFOpsType::IncrByte, n: 3 },
        BFOp { bftype: BFOpsType::BeginLoop, n: 8 },
        BFOp { bftype: BFOpsType::IncrPtr, n: 2 },
        BFOp { bftype: BFOpsType::BeginLoop, n: 5 },
        BFOp { bftype: BFOpsType::DecrByte, n: 1 },
        BFOp { bftype: BFOpsType::EndLoop, n: 3 },
        BFOp { bftype: BFOpsType::DecrPtr, n: 2 },
        BFOp { bftype: BFOpsType::DecrByte, n: 1 },
        BFOp { bftype: BFOpsType::EndLoop, n: 1 },
    ];
    assert_eq!(program, expected);
}

#[test]
fn linking_leaves_an_unbalanced_program_alone() {
    let mut program = translate_program(&tokens("+[[-]"));
    let before = program.clone();
    assert_eq!(bracket_offset(&mut program), Err(RunError::UnbalancedBracket));
    assert_eq!(program, before);
}

#[test]
fn balance_is_decided_in_one_pass() {
    for source in ["", "+", "[]", "[[]]", "[][]", "+[-[>]<]."] {
        assert!(is_balanced(&tokens(source)));
    }
    for source in ["[", "]", "][", "[[]", "[]]", "+[-[>]<."] {
        assert!(!is_balanced(&tokens(source)));
    }
    assert!(is_balanced(&translate_program(&tokens("++[>>[-]]"))));
    assert!(!is_balanced(&translate_program(&tokens("++[>>[-]"))));
}
