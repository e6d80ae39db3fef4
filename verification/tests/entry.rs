use bf_interpreter::error::RunError;
use bf_interpreter::machine::{Status, LINE_END};
use bf_interpreter::run::{run, select_strategy, Strategy};
use bf_interpreter::source::filter_tokens;

#[test]
fn filter_keeps_the_eight_commands_in_order() {
    assert_eq!(
        filter_tokens("a+b-c<d>e.f,g[h]i"),
        vec!['+', '-', '<', '>', '.', ',', '[', ']']
    );
}

#[test]
fn filter_drops_everything_else() {
    assert_eq!(filter_tokens("hello world\n\t 123 (){}"), Vec::<char>::new());
    assert_eq!(filter_tokens(""), Vec::<char>::new());
    assert_eq!(filter_tokens("add 1: +\nthen write: .\n"), vec!['+', '.']);
    assert_eq!(filter_tokens("\u{e9}+\u{1f600}-"), vec!['+', '-']);
}

#[test]
fn names_select_their_tiers() {
    assert_eq!(select_strategy("simple"), Some(Strategy::Simple));
    assert_eq!(select_strategy("optiterp1"), Some(Strategy::Optinterp1));
    assert_eq!(select_strategy("optiterp2"), Some(Strategy::Optiterp2));
}

#[test]
fn other_names_select_nothing() {
    for name in ["", "Simple", "optinterp1", "optiterp3", "simple ", "jit"] {
        assert_eq!(select_strategy(name), None);
    }
}

#[test]
fn run_filters_then_executes() {
    for name in ["simple", "optiterp1", "optiterp2"] {
        let m = run("two plus: ++ then write: . \n", name, &vec![], 100).unwrap().unwrap();
        assert_eq!(m.status(), Status::Halted);
        assert_eq!(m.output(), &vec![2, LINE_END]);
    }
}

#[test]
fn run_with_an_unknown_name_executes_nothing() {
    assert!(matches!(run("+.", "fast", &vec![], 100), Ok(None)));
}

#[test]
fn run_rejects_an_unbalanced_program_whatever_the_name() {
    for name in ["simple", "optiterp1", "optiterp2", "fast"] {
        assert!(matches!(run("+.]", name, &vec![], 100), Err(RunError::UnbalancedBracket)));
        assert!(matches!(run("[[+.]", name, &vec![], 100), Err(RunError::UnbalancedBracket)));
    }
}

#[test]
fn run_reports_faults_in_the_status() {
    for name in ["simple", "optiterp1", "optiterp2"] {
        let m = run(",", name, &vec![], 100).unwrap().unwrap();
        assert_eq!(m.status(), Status::Failed(RunError::InputExhausted));
        let m = run("<", name, &vec![], 100).unwrap().unwrap();
        assert_eq!(m.status(), Status::Failed(RunError::PointerOutOfBounds));
    }
}

#[test]
fn run_stops_when_the_fuel_is_spent() {
    for name in ["simple", "optiterp1", "optiterp2"] {
        let m = run("+[.]", name, &vec![], 11).unwrap().unwrap();
        assert_eq!(m.status(), Status::Running);
        assert_eq!(m.output(), &vec![1, 1, 1, 1, 1]);
    }
}
