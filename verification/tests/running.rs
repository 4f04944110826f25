use stackvm::bytecode::ByteCode;
use stackvm::decode::load_memory;
use stackvm::error::VmError;
use stackvm::interp::{pop_from_stack, Interpreter, RunStatus, StepStatus};
use stackvm::opcode::OpCode;

fn load(text: &str) -> Vec<ByteCode> {
    let mut mem = Vec::new();
    load_memory(&mut mem, String::from(text)).expect("program text must decode");
    mem
}

#[test]
fn add_program_returns_seven_with_empty_stack() {
    let mem = load("LOAD_VAL 3\nLOAD_VAL 4\nADD\nRETURN_VALUE\n");
    let mut vm = Interpreter::new(mem);
    assert_eq!(vm.run(100), RunStatus::Returned(7));
    assert!(vm.stack_contents().is_empty());
}

#[test]
fn divide_by_zero_aborts_without_a_return_value() {
    let mem = load("LOAD_VAL 10\nLOAD_VAL 0\nDIVIDE\n");
    let mut vm = Interpreter::new(mem);
    let outcome = vm.run(100);
    assert_eq!(outcome, RunStatus::Aborted(VmError::DivideByZero, 2));
    assert!(!matches!(outcome, RunStatus::Returned(_)));
}

#[test]
fn subtract_uses_the_earlier_pushed_operand_on_the_left() {
    let mem = load("LOAD_VAL 9\nLOAD_VAL 4\nSUBTRACT\nRETURN_VALUE\n");
    let mut vm = Interpreter::new(mem);
    assert_eq!(vm.run(100), RunStatus::Returned(5));
}

#[test]
fn divide_uses_the_earlier_pushed_operand_on_the_left() {
    let mem = load("LOAD_VAL 10\nLOAD_VAL 2\nDIVIDE\nRETURN_VALUE\n");
    let mut vm = Interpreter::new(mem);
    assert_eq!(vm.run(100), RunStatus::Returned(5));
}

#[test]
fn multiply_program_computes_the_product() {
    let mem = load("LOAD_VAL 6\nLOAD_VAL 7\nMULTIPLY\nRETURN_VALUE\n");
    let mut vm = Interpreter::new(mem);
    assert_eq!(vm.run(100), RunStatus::Returned(42));
}

const LOOP_PROGRAM: &str = "LOAD_VAL 0\nWRITE_VAR 'i'\nLOAD_VAL 3\nWRITE_VAR 'm'\nREAD_VAR 'i'\nLOAD_VAL 1\nADD\nWRITE_VAR 'i'\nDO_WHILE_LT 'i' 'm' 4\n";

#[test]
fn loop_halts_after_exactly_three_iterations() {
    // Four set-up instructions, then three five-instruction iterations:
    // nineteen steps in all.
    let mut vm = Interpreter::new(load(LOOP_PROGRAM));
    assert_eq!(vm.run(1000), RunStatus::Finished);
    assert_eq!(vm.locals_contents(), &vec![3, 3]);

    let mut vm = Interpreter::new(load(LOOP_PROGRAM));
    assert_eq!(vm.run(19), RunStatus::Finished);

    let mut vm = Interpreter::new(load(LOOP_PROGRAM));
    assert_eq!(vm.run(18), RunStatus::OutOfSteps);
}

#[test]
fn an_out_of_steps_run_resumes_where_it_stopped() {
    let mut vm = Interpreter::new(load(LOOP_PROGRAM));
    assert_eq!(vm.run(7), RunStatus::OutOfSteps);
    assert_eq!(vm.run(7), RunStatus::OutOfSteps);
    assert_eq!(vm.run(7), RunStatus::Finished);
}

#[test]
fn add_on_an_empty_stack_fails_without_touching_it() {
    let mem = load("ADD\n");
    let mut vm = Interpreter::new(mem);
    assert_eq!(vm.run(100), RunStatus::Aborted(VmError::EmptyStack, 0));
    assert!(vm.stack_contents().is_empty());
}

#[test]
fn add_on_a_single_element_stack_fails_without_touching_it() {
    let mem = load("LOAD_VAL 1\nADD\n");
    let mut vm = Interpreter::new(mem);
    assert_eq!(vm.run(100), RunStatus::Aborted(VmError::EmptyStack, 1));
    assert_eq!(vm.stack_contents(), &vec![1]);
}

#[test]
fn first_write_allocates_and_second_write_updates_in_place() {
    let mem = load(
        "LOAD_VAL 1\nWRITE_VAR 'x'\nLOAD_VAL 2\nWRITE_VAR 'y'\nLOAD_VAL 9\nWRITE_VAR 'x'\n",
    );
    let mut vm = Interpreter::new(mem);
    assert_eq!(vm.run(100), RunStatus::Finished);
    assert_eq!(vm.names_contents(), &vec!['x', 'y']);
    assert_eq!(vm.locals_contents(), &vec![9, 2]);
}

#[test]
fn read_var_duplicates_instead_of_moving() {
    let mem = load("LOAD_VAL 5\nWRITE_VAR 'x'\nREAD_VAR 'x'\nREAD_VAR 'x'\nADD\nRETURN_VALUE\n");
    let mut vm = Interpreter::new(mem);
    assert_eq!(vm.run(100), RunStatus::Returned(10));
    assert_eq!(vm.locals_contents(), &vec![5]);
}

#[test]
fn reading_an_unbound_variable_aborts() {
    let mem = load("READ_VAR 'z'\n");
    let mut vm = Interpreter::new(mem);
    assert_eq!(vm.run(100), RunStatus::Aborted(VmError::UnboundVariable, 0));
}

#[test]
fn a_loop_with_unbound_counters_aborts() {
    let mem = load("DO_WHILE_LT 'i' 'm' 0\n");
    let mut vm = Interpreter::new(mem);
    assert_eq!(vm.run(100), RunStatus::Aborted(VmError::UnboundVariable, 0));
}

#[test]
fn a_taken_branch_with_an_out_of_range_target_aborts() {
    let mem = load(
        "LOAD_VAL 0\nWRITE_VAR 'i'\nLOAD_VAL 2\nWRITE_VAR 'm'\nDO_WHILE_LT 'i' 'm' 9\n",
    );
    let mut vm = Interpreter::new(mem);
    assert_eq!(vm.run(100), RunStatus::Aborted(VmError::OutOfRangeTarget, 4));
}

#[test]
fn a_branch_not_taken_ignores_its_target() {
    let mem = load(
        "LOAD_VAL 5\nWRITE_VAR 'i'\nLOAD_VAL 2\nWRITE_VAR 'm'\nDO_WHILE_LT 'i' 'm' 9\n",
    );
    let mut vm = Interpreter::new(mem);
    assert_eq!(vm.run(100), RunStatus::Finished);
}

#[test]
fn return_value_on_an_empty_stack_aborts() {
    let mem = load("RETURN_VALUE\n");
    let mut vm = Interpreter::new(mem);
    assert_eq!(vm.run(100), RunStatus::Aborted(VmError::EmptyStack, 0));
}

#[test]
fn falling_off_the_end_finishes_without_a_value() {
    let mem = load("LOAD_VAL 1\n");
    let mut vm = Interpreter::new(mem);
    assert_eq!(vm.run(100), RunStatus::Finished);
    assert_eq!(vm.stack_contents(), &vec![1]);
    assert_eq!(vm.pc(), 1);
    assert_eq!(vm.program_len(), 1);
}

#[test]
fn an_empty_program_finishes_at_once() {
    let mut vm = Interpreter::new(Vec::new());
    assert_eq!(vm.run(0), RunStatus::Finished);
}

#[test]
fn single_steps_report_each_transition() {
    let mem = load("LOAD_VAL 2\nLOAD_VAL 3\nADD\nRETURN_VALUE\n");
    let mut vm = Interpreter::new(mem);
    assert_eq!(vm.step(), StepStatus::Continue);
    assert_eq!(vm.step(), StepStatus::Continue);
    assert_eq!(vm.stack_contents(), &vec![2, 3]);
    assert_eq!(vm.step(), StepStatus::Continue);
    assert_eq!(vm.stack_contents(), &vec![5]);
    assert_eq!(vm.step(), StepStatus::Returned(5));
    assert_eq!(vm.pc(), 4);
}

#[test]
fn pop_from_stack_takes_the_top_or_reports_empty() {
    let mut stack = vec![1, 2];
    assert_eq!(pop_from_stack(&mut stack), Ok(2));
    assert_eq!(stack, vec![1]);
    assert_eq!(pop_from_stack(&mut stack), Ok(1));
    assert_eq!(pop_from_stack(&mut stack), Err(VmError::EmptyStack));
    assert!(stack.is_empty());
}

#[test]
fn opcode_text_joins_keyword_and_operand() {
    let with = OpCode::new(String::from("LOAD_VAL"), Some(String::from("5")));
    assert_eq!(with.text(), "LOAD_VAL 5");
    let without = OpCode::new(String::from("ADD"), None);
    assert_eq!(without.text(), "ADD");
}
