//! Runs resolved operations on a tape of byte cells.
use vstd::prelude::*;
use crate::lexer::{Token, TokenType, tokens_of};
use crate::parser::{Parser, ParserError, lemma_resolved_wf, ops_wf, resolution_of};

verus! {

/// The number of cells on the tape.
pub const TAPE_SIZE: usize = 30000;

/// Why a run stopped with an error.
#[derive(Debug, Clone, Copy, PartialEq, Eq, Structural)]
pub enum InterpreterError {
    /// An operation at this source position lacks its run length.
    UnexpectedNoneSize(usize),
    /// The input ran out.
    InputError,
    /// The source text does not resolve.
    ParserError(ParserError),
    /// A move right at this source position left the tape.
    TapeOverflow(usize),
    /// A move left at this source position left the tape.
    TapeUnderflow(usize),
}

/// How the interpreter treats the ends of the tape.
#[derive(Debug, Default, Clone, Copy, PartialEq, Eq, Structural)]
pub struct InterpreterSettings {
    /// Whether a move past one end of the tape comes back in at the other.
    pub wrap: bool,
}

/// A state of the machine: the tape, the program counter and the data pointer.
pub struct Machine {
    pub tape: Seq<u8>,
    pub pc: int,
    pub dp: int,
}

/// The cell value after adding `n` to `v`, modulo 256.
pub open spec fn cell_add(v: u8, n: int) -> u8 {
    ((v as int + n) % 256) as u8
}

/// The cell value after subtracting `n` from `v`, modulo 256.
pub open spec fn cell_sub(v: u8, n: int) -> u8 {
    ((v as int - n) % 256) as u8
}

/// What running the operation at `m.pc` does: the next state, the input
/// position after the bytes it read from `pos` on, the bytes it wrote, and
/// its error if it failed.
///
/// Cells take values modulo 256. An input of `n` bytes stores each byte in
/// turn, so the cell keeps the last one; if fewer than `n` are left, it reads
/// and stores those that are, then fails. A move that leaves the tape
/// without `wrap` fails and changes nothing.
/// A `[` on a zero cell jumps to its target, just past its `]`; a `]` on a
/// non-zero cell jumps to just past its `[`. An end token ends the run.
pub open spec fn step_spec(ops: Seq<Token>, wrap: bool, m: Machine, input: Seq<u8>, pos: int) -> (
    Machine,
    int,
    Seq<u8>,
    Option<InterpreterError>,
) {
    let op = ops[m.pc];
    let n = op.size->0 as int;
    let cell = m.tape[m.dp];
    let size = TAPE_SIZE as int;
    let next = Machine { pc: m.pc + 1, ..m };
    match op.token_type {
        TokenType::Eof => (Machine { pc: ops.len() as int, ..m }, pos, Seq::empty(), None),
        TokenType::Plus => (Machine { tape: m.tape.update(m.dp, cell_add(cell, n)), ..next }, pos, Seq::empty(), None),
        TokenType::Minus => (Machine { tape: m.tape.update(m.dp, cell_sub(cell, n)), ..next }, pos, Seq::empty(), None),
        TokenType::ShiftRight => if m.dp + n < size {
            (Machine { dp: m.dp + n, ..next }, pos, Seq::empty(), None)
        } else if wrap {
            (Machine { dp: (m.dp + n) % size, ..next }, pos, Seq::empty(), None)
        } else {
            (m, pos, Seq::empty(), Some(InterpreterError::TapeOverflow(op.loc)))
        },
        TokenType::ShiftLeft => if n <= m.dp {
            (Machine { dp: m.dp - n, ..next }, pos, Seq::empty(), None)
        } else if wrap {
            (Machine { dp: (m.dp - n) % size, ..next }, pos, Seq::empty(), None)
        } else {
            (m, pos, Seq::empty(), Some(InterpreterError::TapeUnderflow(op.loc)))
        },
        TokenType::Dot => (next, pos, Seq::new(n as nat, |i: int| cell), None),
        TokenType::Comma => if n == 0 {
            (next, pos, Seq::empty(), None)
        } else if pos + n <= input.len() {
            (Machine { tape: m.tape.update(m.dp, input[pos + n - 1]), ..next }, pos + n, Seq::empty(), None)
        } else if pos < input.len() {
            (
                Machine { tape: m.tape.update(m.dp, input[input.len() - 1]), ..m },
                input.len() as int,
                Seq::empty(),
                Some(InterpreterError::InputError),
            )
        } else {
            (m, pos, Seq::empty(), Some(InterpreterError::InputError))
        },
        TokenType::OpenBracket => if cell == 0 {
            (Machine { pc: n, ..m }, pos, Seq::empty(), None)
        } else {
            (next, pos, Seq::empty(), None)
        },
        TokenType::CloseBracket => if cell != 0 {
            (Machine { pc: n + 1, ..m }, pos, Seq::empty(), None)
        } else {
            (next, pos, Seq::empty(), None)
        },
    }
}

/// Runs the program for at most `fuel` steps from `m`, reading input from
/// `pos` on: the state reached, the input position, all bytes written, and
/// the error that stopped the run, if one did.
pub open spec fn run_spec(ops: Seq<Token>, wrap: bool, m: Machine, input: Seq<u8>, pos: int, fuel: nat) -> (
    Machine,
    int,
    Seq<u8>,
    Option<InterpreterError>,
)
    decreases fuel,
{
    if fuel == 0 || m.pc >= ops.len() || m.pc < 0 {
        (m, pos, Seq::empty(), None)
    } else {
        let (m2, pos2, out, e) = step_spec(ops, wrap, m, input, pos);
        if e is Some {
            (m2, pos2, out, e)
        } else {
            let (m3, pos3, out3, e3) = run_spec(ops, wrap, m2, input, pos2, (fuel - 1) as nat);
            (m3, pos3, out + out3, e3)
        }
    }
}

/// Cell arithmetic is modulo 256: an increment by `n` stores the old value
/// plus `n` modulo 256 and moves on, so an increment by a multiple of 256,
/// such as a run of 256 `+`, leaves the tape as it was.
pub proof fn lemma_increment_modulo(ops: Seq<Token>, wrap: bool, m: Machine, input: Seq<u8>, pos: int)
    requires
        0 <= m.pc < ops.len(),
        0 <= m.dp < m.tape.len(),
        ops[m.pc].token_type == TokenType::Plus,
        ops[m.pc].size is Some,
    ensures
        ({
            let n = ops[m.pc].size->0 as int;
            let (m2, p2, out, e) = step_spec(ops, wrap, m, input, pos);
            {
                &&& e is None
                &&& m2.tape[m.dp] as int == (m.tape[m.dp] as int + n) % 256
                &&& n % 256 == 0 ==> m2.tape == m.tape
                &&& m2.dp == m.dp
                &&& m2.pc == m.pc + 1
                &&& p2 == pos
                &&& out.len() == 0
            }
        }),
{
    let n = ops[m.pc].size->0 as int;
    let v = m.tape[m.dp];
    assert(0 <= (v as int + n) % 256 < 256) by (nonlinear_arith)
        requires n >= 0;
    if n % 256 == 0 {
        assert((v as int + n) % 256 == v as int) by (nonlinear_arith)
            requires n % 256 == 0, 0 <= v < 256, n >= 0;
        assert(m.tape.update(m.dp, cell_add(v, n)) =~= m.tape);
    }
}

/// Runs resolved operations on a tape of `TAPE_SIZE` cells.
pub struct Interpreter {
    tape: Vec<u8>,
    ops: Vec<Token>,
    pc: usize,
    dp: usize,
    settings: InterpreterSettings,
}

impl Interpreter {
    /// The state of the machine.
    pub closed spec fn machine(&self) -> Machine {
        Machine { tape: self.tape@, pc: self.pc as int, dp: self.dp as int }
    }

    /// The operations being run.
    pub closed spec fn ops_view(&self) -> Seq<Token> {
        self.ops@
    }

    /// Whether moves wrap around the ends of the tape.
    pub closed spec fn wrap(&self) -> bool {
        self.settings.wrap
    }

    pub closed spec fn wf(&self) -> bool {
        &&& self.tape@.len() == TAPE_SIZE
        &&& self.dp < TAPE_SIZE
        &&& self.pc <= self.ops@.len()
        &&& ops_wf(self.ops@)
    }

    /// A well-formed interpreter has a tape of `TAPE_SIZE` cells, a data
    /// pointer on it, and a program counter within or just past the program.
    pub proof fn lemma_wf(&self)
        requires
            self.wf(),
        ensures
            self.machine().tape.len() == TAPE_SIZE,
            0 <= self.machine().dp < TAPE_SIZE,
            0 <= self.machine().pc <= self.ops_view().len(),
            ops_wf(self.ops_view()),
    {
    }

    /// The run has ended: the program counter stands past the last operation.
    pub open spec fn halted(&self) -> bool {
        self.machine().pc >= self.ops_view().len()
    }

    /// Whether the run has ended.
    pub fn is_halted(&self) -> (r: bool)
        requires
            self.wf(),
        ensures
            r == self.halted(),
    {
        self.pc >= self.ops.len()
    }

    /// How many input bytes the next step reads: the run length of an input
    /// operation, else 0.
    pub fn input_needed(&self) -> (r: usize)
        requires
            self.wf(),
        ensures
            r == if !self.halted() && self.ops_view()[self.machine().pc].token_type == TokenType::Comma {
                self.ops_view()[self.machine().pc].size->0 as int
            } else {
                0
            },
    {
        if self.pc < self.ops.len() && self.ops[self.pc].token_type == TokenType::Comma {
            match self.ops[self.pc].size {
                Some(n) => n,
                None => 0,
            }
        } else {
            0
        }
    }

    /// The value of cell `i` of the tape.
    pub fn cell(&self, i: usize) -> (r: u8)
        requires
            self.wf(),
            i < TAPE_SIZE,
        ensures
            r == self.machine().tape[i as int],
    {
        self.tape[i]
    }

    /// The data pointer.
    pub fn data_pointer(&self) -> (r: usize)
        ensures
            r == self.machine().dp,
    {
        self.dp
    }

    /// The program counter.
    pub fn program_counter(&self) -> (r: usize)
        ensures
            r == self.machine().pc,
    {
        self.pc
    }

    /// Runs one operation, reading input from `input[*pos..]` and appending
    /// what it writes to `output`; on a halted machine, does nothing.
    ///
    /// A move that leaves the tape fails with nothing changed. An input that
    /// runs out stores the bytes that were left, the last one remaining in
    /// the cell, moves `pos` to the end of `input`, and fails.
    #[verifier::rlimit(80)]
    pub fn step(&mut self, input: &Vec<u8>, pos: &mut usize, output: &mut Vec<u8>) -> (r: Result<(), InterpreterError>)
        requires
            old(self).wf(),
            *old(pos) <= input@.len(),
        ensures
            final(self).wf(),
            final(self).ops_view() == old(self).ops_view(),
            final(self).wrap() == old(self).wrap(),
            *final(pos) <= input@.len(),
            old(self).halted() ==> r is Ok && final(self).machine() == old(self).machine()
                && *final(pos) == *old(pos) && final(output)@ == old(output)@,
            !old(self).halted() ==> ({
                let (m, p, out, e) = step_spec(old(self).ops_view(), old(self).wrap(), old(self).machine(), input@, *old(pos) as int);
                &&& final(self).machine() == m
                &&& *final(pos) == p
                &&& final(output)@ == old(output)@ + out
                &&& match e {
                    Some(e) => r == Err::<(), InterpreterError>(e),
                    None => r is Ok,
                }
            }),
    {
        if self.pc >= self.ops.len() {
            return Ok(());
        }
        let op = self.ops[self.pc];
        let ghost m = self.machine();
        let ghost out0 = output@;
        let n = match op.size {
            Some(n) => n,
            None => 0,
        };
        match op.token_type {
            TokenType::Eof => {
                self.pc = self.ops.len();
            },
            TokenType::Plus => {
                let cell = self.tape[self.dp];
                let v = ((cell as usize + n % 256) % 256) as u8;
                assert(v == cell_add(cell, n as int)) by (nonlinear_arith)
                    requires v == ((cell as int + n as int % 256) % 256) as u8, n >= 0, cell >= 0;
                self.tape.set(self.dp, v);
                self.pc = self.pc + 1;
            },
            TokenType::Minus => {
                let cell = self.tape[self.dp];
                let v = ((cell as usize + 256 - n % 256) % 256) as u8;
                assert(v == cell_sub(cell, n as int)) by (nonlinear_arith)
                    requires v == ((cell as int + 256 - n as int % 256) % 256) as u8, n >= 0, cell >= 0;
                self.tape.set(self.dp, v);
                self.pc = self.pc + 1;
            },
            TokenType::ShiftRight => {
                if n < TAPE_SIZE - self.dp {
                    self.dp = self.dp + n;
                } else if self.settings.wrap {
                    let d = (n % TAPE_SIZE + self.dp) % TAPE_SIZE;
                    assert(d == (self.dp as int + n as int) % (TAPE_SIZE as int)) by (nonlinear_arith)
                        requires d == (n as int % 30000 + self.dp as int) % 30000, n >= 0, self.dp >= 0;
                    self.dp = d;
                } else {
                    return Err(InterpreterError::TapeOverflow(op.loc));
                }
                self.pc = self.pc + 1;
            },
            TokenType::ShiftLeft => {
                if n <= self.dp {
                    self.dp = self.dp - n;
                } else if self.settings.wrap {
                    let back = (n - self.dp) % TAPE_SIZE;
                    let d = (TAPE_SIZE - back) % TAPE_SIZE;
                    assert(d == (self.dp as int - n as int) % (TAPE_SIZE as int)) by (nonlinear_arith)
                        requires d == (30000 - back) % 30000, back == (n - self.dp) % 30000, n > self.dp >= 0;
                    self.dp = d;
                } else {
                    return Err(InterpreterError::TapeUnderflow(op.loc));
                }
                self.pc = self.pc + 1;
            },
            TokenType::Dot => {
                let cell = self.tape[self.dp];
                let mut k: usize = 0;
                while k < n
                    invariant
                        k <= n,
                        output@ == out0 + Seq::new(k as nat, |i: int| cell),
                    decreases n - k,
                {
                    output.push(cell);
                    k = k + 1;
                    assert(output@ =~= out0 + Seq::new(k as nat, |i: int| cell));
                }
                self.pc = self.pc + 1;
            },
            TokenType::Comma => {
                if n > 0 {
                    if n > input.len() - *pos {
                        if *pos < input.len() {
                            let last = input[input.len() - 1];
                            self.tape.set(self.dp, last);
                            *pos = input.len();
                        }
                        return Err(InterpreterError::InputError);
                    }
                    let v = input[*pos + n - 1];
                    *pos = *pos + n;
                    self.tape.set(self.dp, v);
                }
                self.pc = self.pc + 1;
            },
            TokenType::OpenBracket => {
                if self.tape[self.dp] == 0 {
                    self.pc = n;
                } else {
                    self.pc = self.pc + 1;
                }
            },
            TokenType::CloseBracket => {
                if self.tape[self.dp] != 0 {
                    self.pc = n + 1;
                } else {
                    self.pc = self.pc + 1;
                }
            },
        }
        Ok(())
    }

    /// Runs at most `max_steps` operations, reading input bytes from the
    /// start of `input` and appending the bytes written to `output`.
    ///
    /// Gives `Ok(true)` once the program has ended, `Ok(false)` if the steps
    /// ran out first, or the first error; bytes written before an error stay
    /// in `output`.
    pub fn interpret(&mut self, input: &Vec<u8>, output: &mut Vec<u8>, max_steps: usize) -> (r: Result<bool, InterpreterError>)
        requires
            old(self).wf(),
        ensures
            final(self).wf(),
            final(self).ops_view() == old(self).ops_view(),
            final(self).wrap() == old(self).wrap(),
            ({
                let (m, p, out, e) = run_spec(old(self).ops_view(), old(self).wrap(), old(self).machine(), input@, 0, max_steps as nat);
                &&& final(self).machine() == m
                &&& final(output)@ == old(output)@ + out
                &&& match e {
                    Some(e) => r == Err::<bool, InterpreterError>(e),
                    None => r == Ok::<bool, InterpreterError>(m.pc >= old(self).ops_view().len()),
                }
            }),
    {
        let ghost ops = self.ops@;
        let ghost wrap = self.settings.wrap;
        let ghost goal = run_spec(ops, wrap, self.machine(), input@, 0, max_steps as nat);
        let ghost out0 = output@;
        let ghost mut written: Seq<u8> = Seq::empty();
        let mut pos: usize = 0;
        let mut steps: usize = 0;
        let mut failed: Option<InterpreterError> = None;
        while failed.is_none() && steps < max_steps && self.pc < self.ops.len()
            invariant
                self.wf(),
                self.ops@ == ops,
                self.settings.wrap == wrap,
                pos <= input@.len(),
                steps <= max_steps,
                output@ == out0 + written,
                failed is None ==> ({
                    let (m, p, out, e) = run_spec(ops, wrap, self.machine(), input@, pos as int, (max_steps - steps) as nat);
                    goal == (m, p, written + out, e)
                }),
                failed matches Some(e) ==> goal == (self.machine(), pos as int, written, Some(e)),
            decreases max_steps - steps + (if failed is None { 1int } else { 0int }),
        {
            let ghost m = self.machine();
            let ghost p = pos as int;
            let ghost w = output@;
            let r = self.step(input, &mut pos, output);
            proof {
                written = written + (output@.subrange(w.len() as int, output@.len() as int));
                assert(output@ =~= out0 + written);
            }
            match r {
                Ok(()) => {
                    steps = steps + 1;
                },
                Err(e) => {
                    failed = Some(e);
                },
            }
        }
        match failed {
            Some(e) => Err(e),
            None => {
                assert(written + Seq::<u8>::empty() =~= written);
                Ok(self.pc >= self.ops.len())
            },
        }
    }

    /// Parses `code` and sets up a zeroed tape, with both counters at 0.
    pub fn new(code: String, settings: InterpreterSettings) -> (r: Result<Interpreter, InterpreterError>)
        ensures
            match r {
                Ok(it) => {
                    &&& it.wf()
                    &&& resolution_of(tokens_of(code@), Ok(it.ops_view()))
                    &&& it.machine().tape == Seq::new(TAPE_SIZE as nat, |i: int| 0u8)
                    &&& it.machine().pc == 0
                    &&& it.machine().dp == 0
                    &&& it.wrap() == settings.wrap
                },
                Err(e) => exists|pe: ParserError| {
                    &&& e == InterpreterError::ParserError(pe)
                    &&& resolution_of(tokens_of(code@), Err(pe))
                },
            },
    {
        let mut parser = Parser::new(code);
        let ops = match parser.parse() {
            Ok(ops) => ops,
            Err(e) => return Err(InterpreterError::ParserError(e)),
        };
        proof {
            lemma_resolved_wf(code@, ops@);
        }
        let tape = vec![0u8; TAPE_SIZE];
        assert(tape@ =~= Seq::new(TAPE_SIZE as nat, |i: int| 0u8));
        Ok(Interpreter { tape, ops, pc: 0, dp: 0, settings })
    }
}

} // verus!
