use bf_interp::brackets::BracketError;
use bf_interp::interpreter::{Interpreter, Step, Stop, TAPE_LEN};

fn loaded(code: &str) -> Interpreter {
    let mut it = Interpreter::new();
    it.add_code(code.to_string());
    it
}

#[test]
fn new_interpreter_has_full_zero_tape() {
    let it = Interpreter::new();
    assert_eq!(it.tape().len(), TAPE_LEN);
    assert_eq!(it.tape().position(), 0);
    assert_eq!(it.tape().get(), 0);
}

#[test]
fn increment_then_output() {
    let mut it = loaded("+++.");
    let o = it.run(&vec![], 100).unwrap();
    assert_eq!(o.output, vec![3]);
    assert_eq!(o.stop, Stop::Halted);
}

#[test]
fn copy_cell_via_loop() {
    let mut it = loaded("+++[>+<-]");
    let o = it.run(&vec![], 1000).unwrap();
    assert_eq!(o.stop, Stop::Halted);
    assert!(o.output.is_empty());
    assert_eq!(it.tape().cell(0), 0);
    assert_eq!(it.tape().cell(1), 3);
    assert_eq!(it.tape().position(), 0);
}

#[test]
fn loop_skipped_on_zero() {
    let mut it = loaded("[+++]");
    let o = it.run(&vec![], 1).unwrap();
    assert!(o.output.is_empty());
    assert_eq!(o.stop, Stop::Halted);
    assert_eq!(it.tape().cell(0), 0);
    assert_eq!(it.position(), 5);
}

#[test]
fn clear_loop_takes_three_steps_per_pass() {
    let mut it = loaded("+++++[-]");
    let o = it.run(&vec![], 5 + 3 * 5 + 1).unwrap();
    assert_eq!(o.stop, Stop::Halted);
    assert_eq!(it.tape().cell(0), 0);
    let mut it = loaded("+++++[-]");
    let o = it.run(&vec![], 5 + 3 * 5).unwrap();
    assert_eq!(o.stop, Stop::OutOfSteps);
    assert_eq!(it.tape().cell(0), 0);
    assert_eq!(it.position(), 5);
}

#[test]
fn clear_loop_from_wrapped_value() {
    let mut it = loaded("-[-]");
    let o = it.run(&vec![], 1 + 3 * 255 + 1).unwrap();
    assert_eq!(o.stop, Stop::Halted);
    assert_eq!(it.tape().cell(0), 0);
}

#[test]
fn lone_close_rejected_before_running() {
    let mut it = loaded("]");
    assert_eq!(it.run(&vec![], 10), Err(BracketError::UnmatchedClose(0)));
    assert_eq!(it.tape().get(), 0);
}

#[test]
fn lone_open_rejected_before_running() {
    let mut it = loaded("[");
    assert_eq!(it.run(&vec![], 10), Err(BracketError::UnclosedOpen));
    assert_eq!(it.tape().get(), 0);
}

#[test]
fn rejected_program_leaves_tape_untouched() {
    let mut it = loaded("++>");
    it.run(&vec![], 10).unwrap();
    it.add_code("+[".to_string());
    assert_eq!(it.run(&vec![], 10), Err(BracketError::UnclosedOpen));
    assert_eq!(it.tape().cell(0), 2);
    assert_eq!(it.tape().position(), 1);
}

#[test]
fn comments_change_nothing() {
    let mut it = loaded("ab c\nxyz");
    it.resolve().unwrap();
    for i in 0..8 {
        assert_eq!(it.position(), i);
        assert_eq!(it.step(), Step::Ran);
        assert_eq!(it.tape().get(), 0);
        assert_eq!(it.tape().position(), 0);
    }
    assert_eq!(it.step(), Step::Halted);
}

#[test]
fn comments_between_commands_are_ignored() {
    let mut it = loaded("+ plus + two.");
    let o = it.run(&vec![], 100).unwrap();
    assert_eq!(o.output, vec![2]);
}

#[test]
fn input_is_stored_under_cursor() {
    let mut it = loaded(",+.,.");
    let o = it.run(&vec![7, 65], 100).unwrap();
    assert_eq!(o.output, vec![8, 65]);
    assert_eq!(o.stop, Stop::Halted);
}

#[test]
fn input_exhaustion_stops_the_run() {
    let mut it = loaded(",.,.");
    let o = it.run(&vec![9], 100).unwrap();
    assert_eq!(o.output, vec![9]);
    assert_eq!(o.stop, Stop::InputExhausted);
    assert_eq!(it.position(), 2);
}

#[test]
fn step_reports_input_and_output() {
    let mut it = loaded(",.");
    it.resolve().unwrap();
    assert_eq!(it.step(), Step::NeedsInput);
    assert_eq!(it.position(), 0);
    assert!(it.give_input(b'x'));
    assert!(!it.give_input(b'y'));
    assert_eq!(it.step(), Step::Output(b'x'));
    assert_eq!(it.step(), Step::Halted);
}

#[test]
fn retreat_from_first_cell_wraps_to_last() {
    let mut it = loaded("<+");
    it.run(&vec![], 10).unwrap();
    assert_eq!(it.tape().position(), TAPE_LEN - 1);
    assert_eq!(it.tape().cell(TAPE_LEN - 1), 1);
}

#[test]
fn hello_program() {
    let mut it = loaded("++++++++[>++++++++<-]>+.+.");
    let o = it.run(&vec![], 10000).unwrap();
    assert_eq!(o.output, vec![b'A', b'B']);
}

#[test]
fn endless_loop_runs_out_of_steps() {
    let mut it = loaded("+[]");
    let o = it.run(&vec![], 50).unwrap();
    assert_eq!(o.stop, Stop::OutOfSteps);
}
