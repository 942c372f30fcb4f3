use brainfuck::array_handler::ArrayHandler;
use brainfuck::compiler::Compiler;
use brainfuck::dispatcher::ParseError;
use brainfuck::exec_io::ExecIo;
use brainfuck::function::FunctionHolder;
use brainfuck::operation::{Fault, Operation};
use brainfuck::optimiser::{loop_optimiser, optimise_code};
use brainfuck::stack_handler::StackHandler;

const FUEL: u64 = 1_000_000;

#[test]
fn stack_pop_sum() {
    let mut st = StackHandler::new();
    st.push(5);
    st.push(3);
    st.push(2);
    assert_eq!(st.pop(2), 5);
    assert_eq!(st.len(), 1);
    assert_eq!(st.peek(), 5);
}

#[test]
fn pop_nothing_is_zero() {
    let mut st = StackHandler::new();
    st.push(9);
    assert_eq!(st.pop(0), 0);
    assert_eq!(st.len(), 1);
}

#[test]
fn clear_loops_become_assign() {
    assert!(matches!(loop_optimiser(vec![Operation::Add(-1)]), Operation::Assign(0)));
    assert!(matches!(loop_optimiser(vec![Operation::Add(1)]), Operation::Assign(0)));
    let mut c = Compiler::new();
    assert!(c.compile_string(String::from("+++++[-]")).is_ok());
    let mut io = ExecIo::new();
    assert!(c.execute(&mut io, FUEL).is_ok());
    assert_eq!(c.current_cell(), 0);
}

#[test]
fn scan_loop_becomes_skip() {
    assert!(matches!(loop_optimiser(vec![Operation::Move(1)]), Operation::SkipMove(1)));
}

#[test]
fn peephole_idempotent_on_merged_output() {
    let once = optimise_code(vec![
        Operation::Add(1),
        Operation::Add(2),
        Operation::Move(1),
        Operation::Move(-1),
        Operation::Assign(5),
    ]);
    assert_eq!(once.len(), 1);
    assert!(matches!(once[0], Operation::Assign(5)));
    let twice = optimise_code(once);
    assert_eq!(twice.len(), 1);
    assert!(matches!(twice[0], Operation::Assign(5)));
}

#[test]
fn end_to_end_transfer() {
    let mut c = Compiler::new();
    assert!(c.compile_string(String::from("++++[->+<]")).is_ok());
    {
        let ops = c.ready_ops();
        assert_eq!(ops.len(), 2);
        assert!(matches!(ops[0], Operation::Add(4)));
        match &ops[1] {
            Operation::MoveTo(points) => assert_eq!(points, &vec![(1, 1)]),
            other => panic!("expected a multiply-and-clear, found {:?}", other),
        }
    }
    let mut io = ExecIo::new();
    assert!(c.execute(&mut io, FUEL).is_ok());
    assert_eq!(c.current_cell(), 0);
    assert_eq!(c.cell_at(1), 4);
}

#[test]
fn atomic_commit_discards_whole_unit() {
    let mut c = Compiler::new();
    assert!(c.compile_string(String::from("+")).is_ok());
    assert_eq!(c.ready_ops().len(), 1);
    let r = c.compile_string(String::from("~+~["));
    assert!(matches!(r, Err(ParseError::UnterminatedLoop)));
    assert_eq!(c.functions(), 0);
    assert_eq!(c.ready_ops().len(), 1);
    assert!(c.compile_string(String::from("~+~+")).is_ok());
    assert_eq!(c.functions(), 1);
}

#[test]
fn function_index_fatality() {
    let mut fh = FunctionHolder::new();
    fh.add_temp(vec![Operation::Add(1)]);
    fh.push_funs();
    let mut ah = ArrayHandler::new(8, false);
    let mut st = StackHandler::new();
    let mut io = ExecIo::new();
    ah.set(1);
    let r = Operation::CallFun.execute(&mut ah, &fh, &mut st, &mut io, FUEL);
    assert!(matches!(r, Err(Fault::FunctionIndex)));
    ah.set(0);
    let r = Operation::CallFun.execute(&mut ah, &fh, &mut st, &mut io, FUEL);
    assert!(r.is_ok());
    assert_eq!(ah.get(), 1);
}

#[test]
fn stray_close_is_an_error() {
    let mut c = Compiler::new();
    assert!(matches!(
        c.compile_string(String::from("]")),
        Err(ParseError::StrayClose)
    ));
}

#[test]
fn stray_backslash_is_an_error() {
    let mut c = Compiler::new();
    assert!(matches!(
        c.compile_string(String::from("\\")),
        Err(ParseError::StrayBackslash)
    ));
}

#[test]
fn function_in_loop_is_an_error() {
    let mut c = Compiler::new();
    assert!(matches!(
        c.compile_string(String::from("[~+~]")),
        Err(ParseError::FunInLoop)
    ));
}

#[test]
fn unterminated_function_is_an_error() {
    let mut c = Compiler::new();
    assert!(matches!(
        c.compile_string(String::from("~+")),
        Err(ParseError::UnterminatedFun)
    ));
}

#[test]
fn runs_merge_into_counts() {
    let mut c = Compiler::new();
    assert!(c.compile_string(String::from(">>><")).is_ok());
    let ops = c.ready_ops();
    assert_eq!(ops.len(), 1);
    assert!(matches!(ops[0], Operation::Move(2)));
}

#[test]
fn step_budget_faults_infinite_loop() {
    let mut c = Compiler::new();
    assert!(c.compile_string(String::from("+[++]")).is_ok());
    let mut io = ExecIo::new();
    let r = c.execute(&mut io, 1000);
    assert!(matches!(r, Err(Fault::StepLimit)));
}

#[test]
fn write_emits_low_byte() {
    let mut ah = ArrayHandler::new(8, false);
    let fh = FunctionHolder::new();
    let mut st = StackHandler::new();
    let mut io = ExecIo::new();
    Operation::Assign(65).execute(&mut ah, &fh, &mut st, &mut io, FUEL).unwrap();
    Operation::Write.execute(&mut ah, &fh, &mut st, &mut io, FUEL).unwrap();
    Operation::Assign(-1).execute(&mut ah, &fh, &mut st, &mut io, FUEL).unwrap();
    Operation::Write.execute(&mut ah, &fh, &mut st, &mut io, FUEL).unwrap();
    assert_eq!(io.output, vec![65u8, 255u8]);
}

#[test]
fn read_consumes_input_then_faults() {
    let mut ah = ArrayHandler::new(8, false);
    let fh = FunctionHolder::new();
    let mut st = StackHandler::new();
    let mut io = ExecIo::new();
    io.input.supply("A");
    Operation::Read.execute(&mut ah, &fh, &mut st, &mut io, FUEL).unwrap();
    assert_eq!(ah.get(), 65);
    let r = Operation::Read.execute(&mut ah, &fh, &mut st, &mut io, FUEL);
    assert!(matches!(r, Err(Fault::InputExhausted)));
}

#[test]
fn stack_underflow_faults() {
    let mut ah = ArrayHandler::new(8, false);
    let fh = FunctionHolder::new();
    let mut st = StackHandler::new();
    let mut io = ExecIo::new();
    let r = Operation::PopStack(1).execute(&mut ah, &fh, &mut st, &mut io, FUEL);
    assert!(matches!(r, Err(Fault::StackUnderflow)));
    let r = Operation::PeekStack.execute(&mut ah, &fh, &mut st, &mut io, FUEL);
    assert!(matches!(r, Err(Fault::StackUnderflow)));
}

#[test]
fn stack_operations_through_source() {
    let mut c = Compiler::new();
    assert!(c.compile_string(String::from("+&@")).is_ok());
    let mut io = ExecIo::new();
    assert!(c.execute(&mut io, FUEL).is_ok());
    assert_eq!(c.current_cell(), 2);
    assert_eq!(c.stack_len(), 1);
}

#[test]
fn pop_through_source_sums() {
    let mut c = Compiler::new();
    assert!(c.compile_string(String::from("+&+&^")).is_ok());
    let mut io = ExecIo::new();
    assert!(c.execute(&mut io, FUEL).is_ok());
    assert_eq!(c.current_cell(), 4);
    assert_eq!(c.stack_len(), 1);
}

#[test]
fn separate_call_leaves_caller_tape() {
    let mut c = Compiler::new();
    assert!(c.compile_string(String::from("~&~/?")).is_ok());
    let mut io = ExecIo::new();
    assert!(c.execute(&mut io, FUEL).is_ok());
    assert_eq!(c.current_cell(), 1);
}

#[test]
fn committed_count_lands_in_cell() {
    let mut c = Compiler::new();
    assert!(c.compile_string(String::from("~+~!")).is_ok());
    let mut io = ExecIo::new();
    assert!(c.execute(&mut io, FUEL).is_ok());
    assert_eq!(c.current_cell(), 1);
}

#[test]
fn staged_count_resolves_at_parse_time() {
    let mut c = Compiler::new();
    assert!(c.compile_string(String::from("~+~!!")).is_ok());
    let mut io = ExecIo::new();
    assert!(c.execute(&mut io, FUEL).is_ok());
    assert_eq!(c.current_cell(), 1);
}

#[test]
fn debug_records_a_snapshot() {
    let mut c = Compiler::new();
    assert!(c.compile_string(String::from("++#")).is_ok());
    let mut io = ExecIo::new();
    assert!(c.execute(&mut io, FUEL).is_ok());
    assert_eq!(io.debug_log.len(), 1);
    assert_eq!(io.debug_log[0].pointer, 0);
    assert_eq!(io.debug_log[0].functions, 0);
    assert_eq!(io.debug_log[0].cells, vec![(0i64, 2i32)]);
}

#[test]
fn scan_idiom_runs() {
    let mut c = Compiler::new();
    assert!(c.compile_string(String::from("+[>]")).is_ok());
    let mut io = ExecIo::new();
    assert!(c.execute(&mut io, FUEL).is_ok());
    assert_eq!(c.current_cell(), 0);
}

#[test]
fn separate_call_copies_arguments() {
    let mut c = Compiler::new();
    // the function pushes the cell one right of its own cursor; the call
    // copies two cells (the index and one argument) into a fresh frame
    assert!(c.compile_string(String::from("~>&~>+++++++</\\^")).is_ok());
    let mut io = ExecIo::new();
    assert!(c.execute(&mut io, FUEL).is_ok());
    assert_eq!(c.current_cell(), 7);
    assert_eq!(c.stack_len(), 0);
}

#[test]
fn error_messages_are_the_reported_texts() {
    assert_eq!(ParseError::StrayClose.message(), "Found ']' without matching '['");
    assert_eq!(ParseError::StrayBackslash.message(), "Found '\\' without '/' function call");
    assert_eq!(ParseError::UnterminatedLoop.message(), "Error: loop has no end point");
    assert_eq!(ParseError::UnterminatedFun.message(), "Error: function has no end point");
    assert_eq!(
        ParseError::FunInLoop.message(),
        "Error: functions cannot be declared in loops"
    );
}

#[test]
fn scan_stops_at_first_zero() {
    let mut ah = ArrayHandler::new(16, false);
    ah.set(1);
    assert!(ah.add_at(1, 5));
    // a zero at offset 2, then another nonzero at offset 3: the scan must
    // stop on the first zero, not a later one
    assert!(ah.add_at(3, 9));
    let r = ah.skip_move(1, 1000);
    assert!(r.is_ok());
    assert_eq!(ah.pos(), 2);
    assert_eq!(ah.get(), 0);
}

#[test]
fn scan_spends_the_budget_and_faults() {
    let mut ah = ArrayHandler::new(4, false);
    ah.set(1);
    assert!(ah.add_at(1, 1));
    assert!(ah.add_at(2, 1));
    let r = ah.skip_move(1, 2);
    assert!(matches!(r, Err(Fault::StepLimit)));
}

#[test]
fn valid_index_runs_the_body_to_completion() {
    let mut fh = FunctionHolder::new();
    fh.add_temp(vec![Operation::Add(3), Operation::Move(1), Operation::Add(7)]);
    fh.push_funs();
    let mut ah = ArrayHandler::new(8, false);
    let mut st = StackHandler::new();
    let mut io = ExecIo::new();
    let r = Operation::CallFun.execute(&mut ah, &fh, &mut st, &mut io, FUEL);
    assert!(r.is_ok());
    // index cell 0 gained 3, the cell to its right gained 7, and the
    // cursor followed the body's move
    assert_eq!(ah.get(), 7);
    assert_eq!(ah.get_at(-1), 3);
}

#[test]
fn repeated_execute_runs_nothing() {
    let mut c = Compiler::new();
    assert!(c.compile_string(String::from("+++")).is_ok());
    let mut io = ExecIo::new();
    assert!(c.execute(&mut io, FUEL).is_ok());
    assert_eq!(c.current_cell(), 3);
    assert!(c.execute(&mut io, FUEL).is_ok());
    assert_eq!(c.current_cell(), 3);
    assert_eq!(c.ready_ops().len(), 0);
}
