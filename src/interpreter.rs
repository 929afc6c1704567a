use vstd::prelude::*;

use crate::brackets::{
    BracketError,
    balanced,
    depth,
    first_unmatched_close,
    is_jump_table,
    never_negative,
    resolve_brackets,
};
use crate::machine::{Machine, halted, lemma_next_frame, lemma_next_wf, next, run_steps, starved};
use crate::tape::Tape;

verus! {

/// The number of cells on the tape of a new interpreter.
pub const TAPE_LEN: usize = 30000;

/// What one call of [`Interpreter::step`] did.
#[derive(Debug, Clone, Copy, PartialEq, Eq, Structural)]
pub enum Step {
    /// The pointer is past the end of the program; nothing was done.
    Halted,
    /// The pointer is at `,`; nothing was done until a byte is given.
    NeedsInput,
    /// A `.` was executed and wrote this byte.
    Output(u8),
    /// Some other instruction was executed.
    Ran,
}

/// Why [`Interpreter::run`] came back.
#[derive(Debug, Clone, Copy, PartialEq, Eq, Structural)]
pub enum Stop {
    /// The program ran off its end.
    Halted,
    /// The program reached `,` after the last input byte was read.
    InputExhausted,
    /// The budget of instructions was spent first.
    OutOfSteps,
}

/// The output of a bounded run and the reason it stopped.
#[derive(Debug, PartialEq, Eq)]
pub struct Outcome {
    pub output: Vec<u8>,
    pub stop: Stop,
}

/// What [`Interpreter::step`] reports for a machine about to execute one instruction.
pub open spec fn step_report(code: Seq<char>, m: Machine) -> Step {
    if halted(code, m) {
        Step::Halted
    } else if starved(code, m) {
        Step::NeedsInput
    } else if code[m.ip] == '.' {
        Step::Output(m.cells[m.cursor])
    } else {
        Step::Ran
    }
}

/// Why a bounded run from `m` came back.
pub open spec fn stop_reason(code: Seq<char>, m: Machine) -> Stop {
    if halted(code, m) {
        Stop::Halted
    } else if starved(code, m) {
        Stop::InputExhausted
    } else {
        Stop::OutOfSteps
    }
}

/// Bracket pairing of `s` ends as `r` says: `Ok` when `s` is balanced, else
/// the error that describes the first fault.
pub open spec fn bracket_verdict(s: Seq<char>, r: Result<(), BracketError>) -> bool {
    match r {
        Ok(()) => balanced(s),
        Err(BracketError::UnmatchedClose(k)) => first_unmatched_close(s, k as int),
        Err(BracketError::UnclosedOpen) => never_negative(s, 0, s.len() as int) && depth(
            s,
            0,
            s.len() as int,
        ) > 0,
    }
}

/// Relies on `str::chars`, collected into a `Vec`: the characters of `s`, in order.
#[verifier::external_body]
fn chars_of(s: &str) -> (r: Vec<char>)
    ensures
        r@ == s@,
{
    s.chars().collect()
}

/// A program, its jump table once the brackets are paired, the tape it runs
/// on and its instruction pointer.
pub struct Interpreter {
    code: Vec<char>,
    jumps: Vec<usize>,
    tape: Tape,
    pos: usize,
    ready: bool,
}

impl Interpreter {
    /// The program text.
    pub closed spec fn code(&self) -> Seq<char> {
        self.code@
    }

    /// The jump table, meaningful once the brackets are paired.
    pub closed spec fn jumps(&self) -> Seq<usize> {
        self.jumps@
    }

    /// The tape.
    pub closed spec fn spec_tape(&self) -> Tape {
        self.tape
    }

    /// The instruction pointer.
    pub closed spec fn ip(&self) -> int {
        self.pos as int
    }

    /// The brackets of the current program have been paired.
    pub closed spec fn resolved(&self) -> bool {
        self.ready
    }

    /// The tape is well formed, and once the brackets are paired the table
    /// fits the program and the pointer is within it or just past its end.
    pub open spec fn wf(&self) -> bool {
        &&& self.spec_tape().wf()
        &&& self.ip() >= 0
        &&& self.resolved() ==> {
            &&& is_jump_table(self.code(), self.jumps())
            &&& self.ip() <= self.code().len()
        }
    }

    /// The interpreter as an abstract machine with the given input and output.
    pub open spec fn machine(&self, input: Seq<u8>, output: Seq<u8>) -> Machine {
        Machine {
            cells: self.spec_tape().cells(),
            cursor: self.spec_tape().cursor(),
            ip: self.ip(),
            input,
            output,
        }
    }

    /// An interpreter with no program and a zeroed tape of `TAPE_LEN` cells.
    pub fn new() -> (r: Interpreter)
        ensures
            r.wf(),
            r.code() == Seq::<char>::empty(),
            !r.resolved(),
            r.ip() == 0,
            r.spec_tape().cells() == Seq::new(TAPE_LEN as nat, |i: int| 0u8),
            r.spec_tape().cursor() == 0,
    {
        Interpreter {
            code: Vec::new(),
            jumps: Vec::new(),
            tape: Tape::new(TAPE_LEN),
            pos: 0,
            ready: false,
        }
    }

    /// Loads a program; its brackets still have to be paired. The tape is kept.
    pub fn add_code(&mut self, code: String)
        requires
            old(self).wf(),
        ensures
            final(self).wf(),
            final(self).code() == code@,
            !final(self).resolved(),
            final(self).ip() == 0,
            final(self).spec_tape() == old(self).spec_tape(),
    {
        self.code = chars_of(code.as_str());
        self.ready = false;
        self.pos = 0;
    }

    /// Pairs the brackets of the program and puts the pointer at its start.
    ///
    /// Fails, before anything runs, exactly when the brackets are not
    /// balanced. The tape is left alone either way.
    pub fn resolve(&mut self) -> (r: Result<(), BracketError>)
        requires
            old(self).wf(),
        ensures
            final(self).wf(),
            bracket_verdict(old(self).code(), r),
            final(self).resolved() <==> r is Ok,
            final(self).code() == old(self).code(),
            final(self).spec_tape() == old(self).spec_tape(),
            r is Ok ==> final(self).ip() == 0,
            r is Err ==> final(self).ip() == old(self).ip(),
    {
        match resolve_brackets(&self.code) {
            Ok(t) => {
                self.jumps = t;
                self.ready = true;
                self.pos = 0;
                Ok(())
            },
            Err(e) => {
                self.ready = false;
                Err(e)
            },
        }
    }

    /// Executes the instruction at the pointer, unless the program has
    /// halted or waits at `,` for input.
    pub fn step(&mut self) -> (r: Step)
        requires
            old(self).wf(),
            old(self).resolved(),
        ensures
            final(self).wf(),
            final(self).resolved(),
            final(self).code() == old(self).code(),
            final(self).jumps() == old(self).jumps(),
            r == step_report(old(self).code(), old(self).machine(Seq::empty(), Seq::empty())),
            final(self).machine(Seq::empty(), Seq::empty()) == (Machine {
                output: Seq::empty(),
                ..next(
                    old(self).code(),
                    old(self).jumps(),
                    old(self).machine(Seq::empty(), Seq::empty()),
                )
            }),
    {
        proof {
            lemma_next_wf(self.code@, self.jumps@, self.machine(Seq::empty(), Seq::empty()));
        }
        if self.pos >= self.code.len() {
            return Step::Halted;
        }
        let c = self.code[self.pos];
        if c == '>' {
            self.tape.ptr_inc();
            self.pos = self.pos + 1;
            Step::Ran
        } else if c == '<' {
            self.tape.ptr_dec();
            self.pos = self.pos + 1;
            Step::Ran
        } else if c == '+' {
            self.tape.inc();
            self.pos = self.pos + 1;
            Step::Ran
        } else if c == '-' {
            self.tape.dec();
            self.pos = self.pos + 1;
            Step::Ran
        } else if c == '.' {
            let v = self.tape.get();
            self.pos = self.pos + 1;
            Step::Output(v)
        } else if c == ',' {
            Step::NeedsInput
        } else if c == '[' {
            if self.tape.get() == 0 {
                self.pos = self.jumps[self.pos] + 1;
            } else {
                self.pos = self.pos + 1;
            }
            Step::Ran
        } else if c == ']' {
            self.pos = self.jumps[self.pos];
            Step::Ran
        } else {
            self.pos = self.pos + 1;
            Step::Ran
        }
    }

    /// Where the pointer is at `,`, stores `value` under the cursor and moves
    /// on; elsewhere does nothing and returns `false`.
    pub fn give_input(&mut self, value: u8) -> (r: bool)
        requires
            old(self).wf(),
            old(self).resolved(),
        ensures
            final(self).wf(),
            final(self).resolved(),
            final(self).code() == old(self).code(),
            final(self).jumps() == old(self).jumps(),
            r == (old(self).ip() < old(self).code().len() && old(self).code()[old(self).ip()]
                == ','),
            r ==> final(self).machine(Seq::empty(), Seq::empty()) == next(
                old(self).code(),
                old(self).jumps(),
                old(self).machine(seq![value], Seq::empty()),
            ),
            !r ==> *final(self) == *old(self),
    {
        if self.pos < self.code.len() && self.code[self.pos] == ',' {
            self.tape.set(value);
            self.pos = self.pos + 1;
            proof {
                assert(seq![value].drop_first() =~= Seq::<u8>::empty());
            }
            true
        } else {
            false
        }
    }

    /// The tape.
    pub fn tape(&self) -> (r: &Tape)
        ensures
            *r == self.spec_tape(),
    {
        &self.tape
    }

    /// The instruction pointer.
    pub fn position(&self) -> (r: usize)
        ensures
            r as int == self.ip(),
    {
        self.pos
    }

    /// Whether `run` can execute another instruction: the program has not
    /// halted, and is not at `,` when no input is left.
    fn can_step(&self, has_input: bool) -> (r: bool)
        requires
            self.wf(),
        ensures
            r == !(self.ip() >= self.code().len() || (self.code()[self.ip()] == ',' && !has_input)),
    {
        if self.pos >= self.code.len() {
            false
        } else {
            has_input || self.code[self.pos] != ','
        }
    }

    /// Pairs the brackets and then runs the program from its start for at
    /// most `fuel` instructions, reading `,` bytes from `input` in order.
    ///
    /// Fails, before anything runs and with the tape untouched, exactly when
    /// the brackets are not balanced. Otherwise the interpreter ends in the
    /// state that `fuel` steps of the abstract machine reach, the output is
    /// what those steps wrote, and the stop reason says whether the program
    /// halted, ran out of input at `,`, or still had instructions to run.
    pub fn run(&mut self, input: &Vec<u8>, fuel: usize) -> (r: Result<Outcome, BracketError>)
        requires
            old(self).wf(),
        ensures
            final(self).wf(),
            final(self).code() == old(self).code(),
            r is Err ==> final(self).spec_tape() == old(self).spec_tape(),
            r is Ok ==> final(self).resolved() && is_jump_table(final(self).code(), final(self).jumps()),
            match r {
                Ok(o) => {
                    let start = Machine { ip: 0, ..old(self).machine(input@, Seq::empty()) };
                    let end = run_steps(final(self).code(), final(self).jumps(), start, fuel as nat);
                    &&& final(self).machine(end.input, end.output) == end
                    &&& o.output@ == end.output
                    &&& o.stop == stop_reason(final(self).code(), end)
                    &&& bracket_verdict(old(self).code(), Ok(()))
                },
                Err(e) => bracket_verdict(old(self).code(), Err(e)),
            },
    {
        match self.resolve() {
            Ok(()) => {},
            Err(e) => {
                return Err(e);
            },
        }
        let ghost code = self.code@;
        let ghost jumps = self.jumps@;
        let ghost start = self.machine(input@, Seq::empty());
        let mut out: Vec<u8> = Vec::new();
        let mut idx: usize = 0;
        let mut steps: usize = 0;
        proof {
            assert(input@.skip(0) =~= input@);
        }
        while steps < fuel && self.can_step(idx < input.len())
            invariant
                self.wf(),
                self.resolved(),
                self.code() == code,
                self.jumps() == jumps,
                idx <= input@.len(),
                steps <= fuel,
                run_steps(code, jumps, start, fuel as nat) == run_steps(
                    code,
                    jumps,
                    self.machine(input@.skip(idx as int), out@),
                    (fuel - steps) as nat,
                ),
            decreases fuel - steps,
        {
            let ghost m = self.machine(input@.skip(idx as int), out@);
            if self.code[self.pos] == ',' {
                let value = input[idx];
                self.give_input(value);
                idx = idx + 1;
                proof {
                    assert(input@.skip(idx - 1).drop_first() =~= input@.skip(idx as int));
                    assert(self.machine(input@.skip(idx as int), out@) == next(code, jumps, m));
                }
            } else {
                let ghost m0 = self.machine(Seq::empty(), Seq::empty());
                let ghost before = out@;
                let r = self.step();
                match r {
                    Step::Output(v) => {
                        out.push(v);
                    },
                    _ => {},
                }
                proof {
                    lemma_next_frame(code, jumps, m0, input@.skip(idx as int), before);
                    let n0 = next(code, jumps, m0);
                    if r is Output {
                        assert(n0.output =~= seq![r->Output_0]);
                    } else {
                        assert(n0.output =~= Seq::<u8>::empty());
                    }
                    assert(out@ =~= before + n0.output);
                }
            }
            steps = steps + 1;
        }
        let ghost end = self.machine(input@.skip(idx as int), out@);
        proof {
            if steps < fuel {
                assert(halted(code, end) || starved(code, end));
            }
        }
        let stop = if self.pos >= self.code.len() {
            Stop::Halted
        } else if self.code[self.pos] == ',' && idx >= input.len() {
            Stop::InputExhausted
        } else {
            Stop::OutOfSteps
        };
        Ok(Outcome { output: out, stop })
    }
}

} // verus!
