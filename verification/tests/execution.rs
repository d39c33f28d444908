use brnfk::engine::{Brainfuck, BufferInput, BufferOutput, Input, Output, RunError, RunStatus};
use brnfk::loader::Program;
use brnfk::tape::Tape;

const HELLO_WORLD: &[u8] =
    b"++++++++[>++++[>++>+++>+++>+<<<<-]>+>+>->>+[<]<-]>>.>---.+++++++..+++.>>.<-.<.+++.------.--------.>>+.>++.";

fn interpreter(input: Vec<u8>) -> Brainfuck<BufferInput, BufferOutput> {
    Brainfuck::new(BufferInput::new(input), BufferOutput::new())
}

#[test]
fn hello_world() {
    let program = Program::load(HELLO_WORLD).unwrap();
    let mut interp = interpreter(Vec::new());
    let status = interp.run(&program, u64::MAX).unwrap();
    assert_eq!(status, RunStatus::Halted);
    let (_, out) = interp.into_inner();
    assert_eq!(String::from_utf8(out.bytes().clone()).unwrap(), "Hello World!\n");
}

#[test]
fn hello_world_speed() {
    let program = Program::load(HELLO_WORLD).unwrap();
    let mut interp = interpreter(Vec::new());
    interp.run(&program, u64::MAX).unwrap();
    println!("{}", program.commands().len());
}

#[test]
fn echo_one_byte() {
    let program = Program::load(b",.").unwrap();
    let mut interp = interpreter(vec![65]);
    let status = interp.run(&program, u64::MAX).unwrap();
    assert_eq!(status, RunStatus::Halted);
    let (_, out) = interp.into_inner();
    assert_eq!(*out.bytes(), vec![65]);
}

#[test]
fn program_is_reusable_across_runs() {
    let program = Program::load(b",.").unwrap();
    let mut interp = interpreter(vec![1, 2]);
    interp.run(&program, u64::MAX).unwrap();
    interp.run(&program, u64::MAX).unwrap();
    let (_, out) = interp.into_inner();
    assert_eq!(*out.bytes(), vec![1, 2]);
}

#[test]
fn loop_arithmetic() {
    // 3 * 4, computed in the second cell and emitted.
    let program = Program::load(b"+++[>++++<-]>.").unwrap();
    let mut interp = interpreter(Vec::new());
    let status = interp.run(&program, u64::MAX).unwrap();
    assert_eq!(status, RunStatus::Halted);
    let (_, out) = interp.into_inner();
    assert_eq!(*out.bytes(), vec![12]);
}

#[test]
fn cell_wraps_around() {
    // A cell decremented from 0 reads 255; incrementing it again reads 0.
    let program = Program::load(b"-.+.").unwrap();
    let mut interp = interpreter(Vec::new());
    interp.run(&program, u64::MAX).unwrap();
    let (_, out) = interp.into_inner();
    assert_eq!(*out.bytes(), vec![255, 0]);
}

#[test]
fn pointer_underflow_fails() {
    let program = Program::load(b"<").unwrap();
    let mut interp = interpreter(Vec::new());
    assert_eq!(interp.run(&program, u64::MAX).unwrap_err(), RunError::PointerUnderflow);
}

#[test]
fn input_exhaustion_fails() {
    let program = Program::load(b",").unwrap();
    let mut interp = interpreter(Vec::new());
    assert_eq!(interp.run(&program, u64::MAX).unwrap_err(), RunError::InputExhausted);
}

#[test]
fn input_exhaustion_after_last_byte() {
    let program = Program::load(b",,").unwrap();
    let mut interp = interpreter(vec![9]);
    assert_eq!(interp.run(&program, u64::MAX).unwrap_err(), RunError::InputExhausted);
}

#[test]
fn step_budget_runs_out() {
    // An endless loop: the budget is exhausted, not the program.
    let program = Program::load(b"+[]").unwrap();
    let mut interp = interpreter(Vec::new());
    assert_eq!(interp.run(&program, 1000).unwrap(), RunStatus::OutOfSteps);
}

#[test]
fn empty_program_halts_immediately() {
    let program = Program::load(b"").unwrap();
    let mut interp = interpreter(Vec::new());
    assert_eq!(interp.run(&program, 0).unwrap(), RunStatus::Halted);
}

#[test]
fn tape_round_trip() {
    let mut tape = Tape::default();
    assert_eq!(tape.get(0), 0);
    tape.set(3, 7);
    assert_eq!(tape.get(3), 7);
    // A never-written index, and the index one past the highest written one,
    // both read 0.
    assert_eq!(tape.get(1), 0);
    assert_eq!(tape.get(4), 0);
}

#[test]
fn tape_inc_dec_wrap() {
    let mut tape = Tape::new();
    tape.set(0, 255);
    tape.inc(0);
    assert_eq!(tape.get(0), 0);
    let mut tape = Tape::new();
    tape.dec(5);
    assert_eq!(tape.get(5), 255);
    assert_eq!(tape.get(4), 0);
}

#[test]
fn buffer_input_hands_bytes_in_order() {
    let mut src = BufferInput::new(vec![10, 20]);
    assert_eq!(src.next(), Some(10));
    assert_eq!(src.next(), Some(20));
    assert_eq!(src.next(), None);
}

#[test]
fn buffer_output_records_in_order() {
    let mut sink = BufferOutput::new();
    sink.write(1);
    sink.write(2);
    assert_eq!(*sink.bytes(), vec![1, 2]);
}

#[test]
fn capability_accessors() {
    let mut interp = interpreter(vec![42]);
    assert_eq!(*interp.output().bytes(), Vec::<u8>::new());
    interp.output_mut().write(7);
    assert_eq!(*interp.output().bytes(), vec![7]);
    assert_eq!(interp.input_mut().next(), Some(42));
    assert_eq!(interp.input_mut().next(), None);
    let (src, out) = interp.into_inner();
    assert_eq!(*out.bytes(), vec![7]);
    let mut src = src;
    assert_eq!(src.next(), None);
}
