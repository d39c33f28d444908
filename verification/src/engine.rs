//! The execution engine: a tape-based virtual machine that interprets a
//! resolved program, driving an instruction pointer and a data pointer and
//! calling the caller-supplied input and output capabilities for the two I/O
//! instructions.

use vstd::prelude::*;

use crate::command::Command;
use crate::loader::{cmd_matched_at, Program};
use crate::tape::{tape_read, tape_write, wrap_dec, wrap_inc, Tape};

verus! {

/// A runtime failure that aborts a run.
#[derive(Debug, Clone, Copy, PartialEq, Eq, Structural)]
pub enum RunError {
    /// The data pointer was about to move left of position 0.
    PointerUnderflow,
    /// The data pointer was about to leave the machine-addressable range.
    PointerOverflow,
    /// An input instruction executed with no byte left to supply.
    InputExhausted,
}

/// How a run that did not fail came to rest.
#[derive(Debug, Clone, Copy, PartialEq, Eq, Structural)]
pub enum RunStatus {
    /// The instruction pointer left the program: the terminal state.
    Halted,
    /// The step budget ran out while the program was still going.
    OutOfSteps,
}

/// The whole state of one run, as the mathematical model sees it.
pub struct ExecState {
    /// Index into the program of the instruction to execute next.
    pub ip: int,
    /// Index into the tape of the cell being operated on.
    pub dp: int,
    /// The tape's storage; indices beyond it read 0.
    pub tape: Seq<u8>,
    /// Input bytes not yet consumed.
    pub input: Seq<u8>,
    /// Output bytes emitted since the run began.
    pub output: Seq<u8>,
}

/// Where a run stands: still going, halted, or aborted by a runtime failure.
/// The carried state is the one reached so far; a halted or failed run keeps
/// it unchanged from then on.
pub enum Outcome {
    Running(ExecState),
    Done(ExecState),
    Failed(RunError, ExecState),
}

/// Classifies a state: the run is over exactly when the instruction pointer
/// has reached or passed the program's length.
pub open spec fn norm(prog: Seq<Command>, s: ExecState) -> Outcome {
    if s.ip >= prog.len() {
        Outcome::Done(s)
    } else {
        Outcome::Running(s)
    }
}

/// The state a run starts from: both pointers at 0, a fresh zero tape, the
/// given input still untouched, nothing emitted.
pub open spec fn start_state(input: Seq<u8>) -> ExecState {
    ExecState { ip: 0, dp: 0, tape: Seq::empty(), input, output: Seq::empty() }
}

/// Where a run of `prog` on `input` stands before any instruction executes.
pub open spec fn initial_outcome(prog: Seq<Command>, input: Seq<u8>) -> Outcome {
    norm(prog, start_state(input))
}

/// One instruction executed. The data pointer lives in `0 .. usize::MAX - 1`;
/// moving below 0 or above that bound is a runtime failure (the documented
/// pointer policy), as is consuming input that has run out. Cell arithmetic
/// wraps modulo 256. A loop start falls through when the current cell is
/// non-zero and otherwise jumps just past its partner; a loop end does the
/// reverse.
pub open spec fn spec_step(prog: Seq<Command>, s: ExecState) -> Outcome
    recommends
        0 <= s.ip < prog.len(),
{
    match prog[s.ip] {
        Command::IncPtr => if s.dp + 1 >= usize::MAX as int {
            Outcome::Failed(RunError::PointerOverflow, s)
        } else {
            norm(
                prog,
                ExecState {
                    ip: s.ip + 1,
                    dp: s.dp + 1,
                    tape: s.tape,
                    input: s.input,
                    output: s.output,
                },
            )
        },
        Command::DecPtr => if s.dp == 0 {
            Outcome::Failed(RunError::PointerUnderflow, s)
        } else {
            norm(
                prog,
                ExecState {
                    ip: s.ip + 1,
                    dp: s.dp - 1,
                    tape: s.tape,
                    input: s.input,
                    output: s.output,
                },
            )
        },
        Command::Inc => norm(
            prog,
            ExecState {
                ip: s.ip + 1,
                dp: s.dp,
                tape: tape_write(s.tape, s.dp, wrap_inc(tape_read(s.tape, s.dp))),
                input: s.input,
                output: s.output,
            },
        ),
        Command::Dec => norm(
            prog,
            ExecState {
                ip: s.ip + 1,
                dp: s.dp,
                tape: tape_write(s.tape, s.dp, wrap_dec(tape_read(s.tape, s.dp))),
                input: s.input,
                output: s.output,
            },
        ),
        Command::Output => norm(
            prog,
            ExecState {
                ip: s.ip + 1,
                dp: s.dp,
                tape: s.tape,
                input: s.input,
                output: s.output.push(tape_read(s.tape, s.dp)),
            },
        ),
        Command::Input => if s.input.len() == 0 {
            Outcome::Failed(RunError::InputExhausted, s)
        } else {
            norm(
                prog,
                ExecState {
                    ip: s.ip + 1,
                    dp: s.dp,
                    tape: tape_write(s.tape, s.dp, s.input[0]),
                    input: s.input.drop_first(),
                    output: s.output,
                },
            )
        },
        Command::JmpStart(t) => norm(
            prog,
            ExecState {
                ip: if tape_read(s.tape, s.dp) == 0 {
                    t + 1
                } else {
                    s.ip + 1
                },
                dp: s.dp,
                tape: s.tape,
                input: s.input,
                output: s.output,
            },
        ),
        Command::JmpEnd(t) => norm(
            prog,
            ExecState {
                ip: if tape_read(s.tape, s.dp) != 0 {
                    t + 1
                } else {
                    s.ip + 1
                },
                dp: s.dp,
                tape: s.tape,
                input: s.input,
                output: s.output,
            },
        ),
    }
}

/// One step of a run: a going run executes its next instruction; a halted or
/// failed run stays exactly where it is.
pub open spec fn step_outcome(prog: Seq<Command>, o: Outcome) -> Outcome {
    match o {
        Outcome::Running(s) => spec_step(prog, s),
        _ => o,
    }
}

/// Where a run stands after at most `n` instructions have executed.
pub open spec fn advance(prog: Seq<Command>, o: Outcome, n: nat) -> Outcome
    decreases n,
{
    if n == 0 {
        o
    } else {
        advance(prog, step_outcome(prog, o), (n - 1) as nat)
    }
}

proof fn lemma_advance_snoc(prog: Seq<Command>, o: Outcome, n: nat)
    ensures
        advance(prog, o, n + 1) == step_outcome(prog, advance(prog, o, n)),
    decreases n,
{
    assert(advance(prog, o, n + 1) == advance(prog, step_outcome(prog, o), n));
    if n == 0 {
        assert(advance(prog, step_outcome(prog, o), 0) == step_outcome(prog, o));
    } else {
        lemma_advance_snoc(prog, step_outcome(prog, o), (n - 1) as nat);
        assert(advance(prog, o, n) == advance(prog, step_outcome(prog, o), (n - 1) as nat));
    }
}

proof fn lemma_advance_absorbs(prog: Seq<Command>, o: Outcome, n: nat, m: nat)
    requires
        n <= m,
        !(advance(prog, o, n) is Running),
    ensures
        advance(prog, o, m) == advance(prog, o, n),
    decreases m - n,
{
    if n < m {
        lemma_advance_snoc(prog, o, n);
        lemma_advance_absorbs(prog, o, n + 1, m);
    }
}

/// A source of input bytes, supplied by the caller: a test harness, a file, a
/// console. `pending` is the sequence of bytes it stands ready to deliver, in
/// order; `next` hands them out one at a time and answers `None` exactly when
/// nothing is left.
pub trait Input {
    /// The bytes this source has yet to deliver, in delivery order. A source
    /// that does not say otherwise promises nothing.
    open spec fn pending(&self) -> Seq<u8> {
        Seq::empty()
    }

    /// The next byte on demand, or `None` when the source is exhausted.
    fn next(&mut self) -> (r: Option<u8>)
        ensures
            match r {
                Some(b) => old(self).pending().len() > 0 && b == old(self).pending()[0]
                    && final(self).pending() == old(self).pending().drop_first(),
                None => old(self).pending().len() == 0
                    && final(self).pending() == old(self).pending(),
            },
    ;
}

/// A sink of output bytes, supplied by the caller. `stream` is everything the
/// sink has accepted so far, in order; `write` appends one byte to it.
pub trait Output {
    /// Every byte this sink has accepted so far, in order. A sink that does
    /// not say otherwise records nothing.
    open spec fn stream(&self) -> Seq<u8> {
        Seq::empty()
    }

    /// Accepts one byte.
    fn write(&mut self, value: u8)
        ensures
            final(self).stream() == old(self).stream().push(value),
    ;
}

/// An input source that delivers the bytes of a buffer, front to back.
pub struct BufferInput {
    bytes: Vec<u8>,
    pos: usize,
}

impl BufferInput {
    /// A source that will deliver exactly the bytes of `bytes`, in order.
    pub fn new(bytes: Vec<u8>) -> (r: BufferInput)
        ensures
            r.pending() == bytes@,
    {
        BufferInput { bytes, pos: 0 }
    }
}

impl Input for BufferInput {
    closed spec fn pending(&self) -> Seq<u8> {
        if self.pos <= self.bytes@.len() {
            self.bytes@.skip(self.pos as int)
        } else {
            Seq::empty()
        }
    }

    fn next(&mut self) -> (r: Option<u8>) {
        if self.pos < self.bytes.len() {
            let b = self.bytes[self.pos];
            self.pos = self.pos + 1;
            proof {
                assert(self.pending() =~= old(self).pending().drop_first());
            }
            Some(b)
        } else {
            None
        }
    }
}

/// An output sink that records every byte it accepts.
pub struct BufferOutput {
    bytes: Vec<u8>,
}

impl BufferOutput {
    /// A fresh sink with nothing accepted yet.
    pub fn new() -> (r: BufferOutput)
        ensures
            r.stream() == Seq::<u8>::empty(),
    {
        BufferOutput { bytes: Vec::new() }
    }

    /// Every byte accepted so far, in order.
    pub fn bytes(&self) -> (r: &Vec<u8>)
        ensures
            r@ == self.stream(),
    {
        &self.bytes
    }
}

impl Output for BufferOutput {
    closed spec fn stream(&self) -> Seq<u8> {
        self.bytes@
    }

    fn write(&mut self, value: u8) {
        self.bytes.push(value);
    }
}

/// The interpreter: an input capability and an output capability, driving any
/// number of independent runs, each against a fresh tape and fresh pointers.
pub struct Brainfuck<I, O> {
    input: I,
    output: O,
}

impl<I, O> Brainfuck<I, O> {
    /// The input capability, as contracts see it.
    pub closed spec fn spec_input(&self) -> I {
        self.input
    }

    /// The output capability, as contracts see it.
    pub closed spec fn spec_output(&self) -> O {
        self.output
    }
}

impl<I: Input, O: Output> Brainfuck<I, O> {
    /// An interpreter reading from `input` and emitting to `output`.
    pub fn new(input: I, output: O) -> (r: Brainfuck<I, O>)
        ensures
            r.spec_input() == input,
            r.spec_output() == output,
    {
        Brainfuck { input, output }
    }

    /// Interprets `program` against a fresh zero tape, both pointers starting
    /// at 0, until the instruction pointer leaves the program, a runtime
    /// failure aborts the run, or `max_steps` instructions have executed.
    ///
    /// The result and the bytes emitted are exactly what the model reaches
    /// after `max_steps` steps: on `Done` the run halted and `Halted` comes
    /// back, on `Running` the budget ran out first, and on `Failed` the run
    /// aborted with that error. In every case the sink has accepted precisely
    /// the model's output and the source retains precisely the model's
    /// remaining input.
    pub fn run(&mut self, program: &Program, max_steps: u64) -> (r: Result<RunStatus, RunError>)
        requires
            program.wf(),
        ensures
            ({
                let fin = advance(
                    program@,
                    initial_outcome(program@, old(self).spec_input().pending()),
                    max_steps as nat,
                );
                &&& (fin matches Outcome::Done(s) ==> r == Ok::<RunStatus, RunError>(
                    RunStatus::Halted,
                ) && final(self).spec_output().stream() == old(self).spec_output().stream() + s.output
                    && final(self).spec_input().pending() == s.input)
                &&& (fin matches Outcome::Running(s) ==> r == Ok::<RunStatus, RunError>(
                    RunStatus::OutOfSteps,
                ) && final(self).spec_output().stream() == old(self).spec_output().stream() + s.output
                    && final(self).spec_input().pending() == s.input)
                &&& (fin matches Outcome::Failed(e, s) ==> r == Err::<RunStatus, RunError>(e)
                    && final(self).spec_output().stream() == old(self).spec_output().stream() + s.output
                    && final(self).spec_input().pending() == s.input)
            }),
    {
        let commands = program.commands();
        let len = commands.len();
        let mut tape = Tape::new();
        let mut d_ptr: usize = 0;
        let mut i_ptr: usize = 0;
        let mut steps: u64 = 0;
        let ghost prog = program@;
        let ghost in0 = self.input.pending();
        let ghost out0 = self.output.stream();
        let ghost start = initial_outcome(prog, in0);
        let ghost mut cur = start_state(in0);
        while i_ptr < len && steps < max_steps
            invariant
                program.wf(),
                prog == program@,
                len == prog.len(),
                commands@ == prog,
                in0 == old(self).spec_input().pending(),
                out0 == old(self).spec_output().stream(),
                start == initial_outcome(prog, in0),
                steps <= max_steps,
                i_ptr <= len,
                i_ptr as int == cur.ip,
                d_ptr as int == cur.dp,
                d_ptr < usize::MAX,
                tape@ == cur.tape,
                self.input.pending() == cur.input,
                self.output.stream() == out0 + cur.output,
                advance(prog, start, steps as nat) == norm(prog, cur),
            decreases max_steps - steps,
        {
            let ghost prev = cur;
            let cmd = commands[i_ptr];
            proof {
                assert(advance(prog, start, steps as nat) == Outcome::Running(cur));
                assert(cmd_matched_at(prog, cur.ip));
            }
            match cmd {
                Command::IncPtr => {
                    if d_ptr == usize::MAX - 1 {
                        proof {
                            lemma_advance_snoc(prog, start, steps as nat);
                            lemma_advance_absorbs(
                                prog,
                                start,
                                (steps + 1) as nat,
                                max_steps as nat,
                            );
                        }
                        return Err(RunError::PointerOverflow);
                    }
                    d_ptr = d_ptr + 1;
                    i_ptr = i_ptr + 1;
                    proof {
                        cur = ExecState {
                            ip: prev.ip + 1,
                            dp: prev.dp + 1,
                            tape: prev.tape,
                            input: prev.input,
                            output: prev.output,
                        };
                    }
                },
                Command::DecPtr => {
                    if d_ptr == 0 {
                        proof {
                            lemma_advance_snoc(prog, start, steps as nat);
                            lemma_advance_absorbs(
                                prog,
                                start,
                                (steps + 1) as nat,
                                max_steps as nat,
                            );
                        }
                        return Err(RunError::PointerUnderflow);
                    }
                    d_ptr = d_ptr - 1;
                    i_ptr = i_ptr + 1;
                    proof {
                        cur = ExecState {
                            ip: prev.ip + 1,
                            dp: prev.dp - 1,
                            tape: prev.tape,
                            input: prev.input,
                            output: prev.output,
                        };
                    }
                },
                Command::Inc => {
                    tape.inc(d_ptr);
                    i_ptr = i_ptr + 1;
                    proof {
                        cur = ExecState {
                            ip: prev.ip + 1,
                            dp: prev.dp,
                            tape: tape@,
                            input: prev.input,
                            output: prev.output,
                        };
                    }
                },
                Command::Dec => {
                    tape.dec(d_ptr);
                    i_ptr = i_ptr + 1;
                    proof {
                        cur = ExecState {
                            ip: prev.ip + 1,
                            dp: prev.dp,
                            tape: tape@,
                            input: prev.input,
                            output: prev.output,
                        };
                    }
                },
                Command::Output => {
                    let b = tape.get(d_ptr);
                    self.output.write(b);
                    i_ptr = i_ptr + 1;
                    proof {
                        cur = ExecState {
                            ip: prev.ip + 1,
                            dp: prev.dp,
                            tape: prev.tape,
                            input: prev.input,
                            output: prev.output.push(b),
                        };
                        assert(out0 + prev.output.push(b) =~= (out0 + prev.output).push(b));
                    }
                },
                Command::Input => {
                    match self.input.next() {
                        Some(b) => {
                            tape.set(d_ptr, b);
                            i_ptr = i_ptr + 1;
                            proof {
                                cur = ExecState {
                                    ip: prev.ip + 1,
                                    dp: prev.dp,
                                    tape: tape@,
                                    input: prev.input.drop_first(),
                                    output: prev.output,
                                };
                            }
                        },
                        None => {
                            proof {
                                lemma_advance_snoc(prog, start, steps as nat);
                                lemma_advance_absorbs(
                                    prog,
                                    start,
                                    (steps + 1) as nat,
                                    max_steps as nat,
                                );
                            }
                            return Err(RunError::InputExhausted);
                        },
                    }
                },
                Command::JmpStart(t) => {
                    if tape.get(d_ptr) == 0 {
                        i_ptr = t + 1;
                    } else {
                        i_ptr = i_ptr + 1;
                    }
                    proof {
                        cur = ExecState {
                            ip: i_ptr as int,
                            dp: prev.dp,
                            tape: prev.tape,
                            input: prev.input,
                            output: prev.output,
                        };
                    }
                },
                Command::JmpEnd(t) => {
                    if tape.get(d_ptr) != 0 {
                        i_ptr = t + 1;
                    } else {
                        i_ptr = i_ptr + 1;
                    }
                    proof {
                        cur = ExecState {
                            ip: i_ptr as int,
                            dp: prev.dp,
                            tape: prev.tape,
                            input: prev.input,
                            output: prev.output,
                        };
                    }
                },
            }
            steps = steps + 1;
            proof {
                lemma_advance_snoc(prog, start, (steps - 1) as nat);
                assert(spec_step(prog, prev) == norm(prog, cur));
            }
        }
        if i_ptr < len {
            Ok(RunStatus::OutOfSteps)
        } else {
            proof {
                lemma_advance_absorbs(prog, start, steps as nat, max_steps as nat);
            }
            Ok(RunStatus::Halted)
        }
    }

    /// The output capability.
    pub fn output(&self) -> (r: &O)
        ensures
            *r == self.spec_output(),
    {
        &self.output
    }

    /// The output capability, mutably.
    pub fn output_mut(&mut self) -> (r: &mut O)
        ensures
            *r == old(self).spec_output(),
            final(self).spec_output() == *final(r),
            final(self).spec_input() == old(self).spec_input(),
    {
        &mut self.output
    }

    /// The input capability.
    pub fn input(&self) -> (r: &I)
        ensures
            *r == self.spec_input(),
    {
        &self.input
    }

    /// The input capability, mutably.
    pub fn input_mut(&mut self) -> (r: &mut I)
        ensures
            *r == old(self).spec_input(),
            final(self).spec_input() == *final(r),
            final(self).spec_output() == old(self).spec_output(),
    {
        &mut self.input
    }

    /// Takes the interpreter apart into its two capabilities.
    pub fn into_inner(self) -> (r: (I, O))
        ensures
            r.0 == self.spec_input(),
            r.1 == self.spec_output(),
    {
        (self.input, self.output)
    }
}

} // verus!
