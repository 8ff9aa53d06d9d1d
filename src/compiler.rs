//! Generates assembly text from resolved operations.
use vstd::prelude::*;
use vstd::string::StringExecFns;
use crate::lexer::{Token, TokenType, is_repeatable, tokens_of};
use crate::parser::{Parser, ParserError, lemma_resolved_wf, ops_wf, resolution_of};

verus! {

/// Why a program could not be compiled.
#[derive(Debug, Clone, Copy, PartialEq, Eq, Structural)]
pub enum CompilerError {
    /// The source text does not resolve.
    ParsingError(ParserError),
    /// An operation at this source position lacks its run length.
    UnexpectedNoneSize(usize),
    /// The text ended inside a loop.
    UnexpectedEof,
}

/// How the generated program treats the ends of the tape.
#[derive(Debug, Default, Clone, Copy, PartialEq, Eq, Structural)]
pub struct CompilerSettings {
    /// Whether a move past one end of the tape comes back in at the other.
    pub wrap: bool,
    /// Whether, without `wrap`, a move that would leave the tape ends the
    /// program with exit status 1 instead.
    pub bounds_check: bool,
}

/// The decimal digit `d`.
pub open spec fn digit_char(d: int) -> char {
    if d == 0 {
        '0'
    } else if d == 1 {
        '1'
    } else if d == 2 {
        '2'
    } else if d == 3 {
        '3'
    } else if d == 4 {
        '4'
    } else if d == 5 {
        '5'
    } else if d == 6 {
        '6'
    } else if d == 7 {
        '7'
    } else if d == 8 {
        '8'
    } else {
        '9'
    }
}

/// `n` written in decimal, without leading zeros.
pub open spec fn decimal(n: nat) -> Seq<char>
    decreases n,
{
    if n < 10 {
        seq![digit_char(n as int)]
    } else {
        decimal(n / 10) + seq![digit_char((n % 10) as int)]
    }
}

/// `n` copies of `s`, one after the other.
pub open spec fn repeat(s: Seq<char>, n: nat) -> Seq<char>
    decreases n,
{
    if n == 0 {
        Seq::empty()
    } else {
        repeat(s, (n - 1) as nat) + s
    }
}

/// The fixed start of every program: the file format, the helper routines
/// for reading a byte, writing a byte and exiting, and the entry point,
/// which points `r12` at the first cell.
pub open spec fn prologue() -> Seq<char> {
    "format ELF64 executable 3\n\n; Helper functions\nSYS_read = 0\nSYS_write = 1\nSYS_exit = 60\n\nSTDIN = 0\nSTDOUT = 1\n\nWRITE_TO_STDOUT:\nmov rax, SYS_write\nmov rdi, STDOUT\nmov rsi, r12\nmov rdx, 1\nsyscall\nret\n\nREAD_FROM_STDIN:\nmov rax, SYS_read\nmov rdi, STDIN\nmov rsi, r12\nmov rdx, 1\nsyscall\nret\n\nEXIT:\nmov rax, SYS_exit\nmov rdi, 0\nsyscall\nsegment readable executable\nentry main\n\nmain:\nmov r12, (TAPE)\n"@
}

/// Whether moves are checked against the ends of the tape.
pub open spec fn checks_bounds(settings: CompilerSettings) -> bool {
    !settings.wrap && settings.bounds_check
}

/// The routine that moves out of the tape jump to: it exits with status 1.
pub open spec fn bounds_handler() -> Seq<char> {
    "\nOUT_OF_BOUNDS:\nmov rax, SYS_exit\nmov rdi, 1\nsyscall\n"@
}

/// The tape: `TAPE_SIZE` bytes.
pub open spec fn data_segment() -> Seq<char> {
    "\nsegment readable writeable\nTAPE_SIZE = 30000\nTAPE rb TAPE_SIZE\n"@
}

/// The end of every program: the exit call, the out-of-bounds routine once
/// if moves are checked, and the tape.
pub open spec fn epilogue(settings: CompilerSettings) -> Seq<char> {
    "; TokenType::Eof\ncall EXIT\n"@ + (if checks_bounds(settings) {
        bounds_handler()
    } else {
        Seq::empty()
    }) + data_segment()
}

/// The assembly for the operation `op` at index `i`.
///
/// A loop's two ends share the label number of the index just after its `]`:
/// a `[` takes it from its jump target, a `]` from its own index. A cell
/// changes by the run length modulo 256, the range of a byte operand. A move
/// with `wrap` is corrected back onto the tape; without it, but with
/// `bounds_check`, it first jumps to the out-of-bounds routine if it would
/// leave the tape.
pub open spec fn op_text(op: Token, i: int, settings: CompilerSettings) -> Seq<char> {
    let n = op.size->0 as nat;
    match op.token_type {
        TokenType::Plus => "; TokenType::Plus\nadd byte [r12], "@ + decimal(n % 256) + "\n"@,
        TokenType::Minus => "; TokenType::Minus\nsub byte [r12], "@ + decimal(n % 256) + "\n"@,
        TokenType::ShiftRight => if settings.wrap {
            "; TokenType::ShiftRight\nadd r12, "@ + decimal(n) + "\ncmp r12, (TAPE + TAPE_SIZE)\njl no_wrap_"@ + decimal(op.loc as nat) + "\nsub r12, TAPE_SIZE\nno_wrap_"@ + decimal(op.loc as nat) + ":\n"@
        } else if settings.bounds_check {
            "; TokenType::ShiftRight\ncmp r12, (TAPE + TAPE_SIZE - "@ + decimal(n) + ")\njge OUT_OF_BOUNDS\nadd r12, "@ + decimal(n) + "\n"@
        } else {
            "; TokenType::ShiftRight\nadd r12, "@ + decimal(n) + "\n"@
        },
        TokenType::ShiftLeft => if settings.wrap {
            "; TokenType::ShiftLeft\nsub r12, "@ + decimal(n) + "\ncmp r12, (TAPE)\njge no_wrap_"@ + decimal(op.loc as nat) + "\nadd r12, TAPE_SIZE\nno_wrap_"@ + decimal(op.loc as nat) + ":\n"@
        } else if settings.bounds_check {
            "; TokenType::ShiftLeft\ncmp r12, (TAPE + "@ + decimal(n) + ")\njl OUT_OF_BOUNDS\nsub r12, "@ + decimal(n) + "\n"@
        } else {
            "; TokenType::ShiftLeft\nsub r12, "@ + decimal(n) + "\n"@
        },
        TokenType::Dot => "; TokenType::Dot\n"@ + repeat("  call WRITE_TO_STDOUT\n"@, n),
        TokenType::Comma => "; TokenType::Comma\n"@ + repeat("call READ_FROM_STDIN\nmov rax, [r12]\n"@, n),
        TokenType::OpenBracket => "\n; TokenType::OpenBracket\ncmp byte [r12], 0\nje after_loop_"@ + decimal(n) + "\n\nloop_"@ + decimal(n) + ":\n\n"@,
        TokenType::CloseBracket => "\n; TokenType::CloseBracket\ncmp byte [r12], 0\njne loop_"@ + decimal((i + 1) as nat) + "\n\nafter_loop_"@ + decimal((i + 1) as nat) + ":\n"@,
        TokenType::Eof => Seq::empty(),
    }
}

/// The assembly for the first `n` operations.
pub open spec fn body_text(ops: Seq<Token>, settings: CompilerSettings, n: int) -> Seq<char>
    decreases n,
{
    if n <= 0 {
        Seq::empty()
    } else {
        body_text(ops, settings, n - 1) + op_text(ops[n - 1], n - 1, settings)
    }
}

/// The whole assembly program for `ops`.
pub open spec fn program_text(ops: Seq<Token>, settings: CompilerSettings) -> Seq<char> {
    prologue() + body_text(ops, settings, ops.len() as int) + epilogue(settings)
}

/// The text of the decimal digit `d`.
fn digit_text(d: usize) -> (r: &'static str)
    requires
        d < 10,
    ensures
        r@ == seq![digit_char(d as int)],
{
    proof {
        reveal_strlit("0");
        reveal_strlit("1");
        reveal_strlit("2");
        reveal_strlit("3");
        reveal_strlit("4");
        reveal_strlit("5");
        reveal_strlit("6");
        reveal_strlit("7");
        reveal_strlit("8");
        reveal_strlit("9");
    }
    match d {
        0 => "0",
        1 => "1",
        2 => "2",
        3 => "3",
        4 => "4",
        5 => "5",
        6 => "6",
        7 => "7",
        8 => "8",
        _ => "9",
    }
}

/// Appends `n` in decimal.
fn push_decimal(out: &mut String, n: usize)
    ensures
        final(out)@ == old(out)@ + decimal(n as nat),
    decreases n,
{
    let ghost start = out@;
    if n >= 10 {
        push_decimal(out, n / 10);
    }
    out.append(digit_text(n % 10));
    assert(out@ =~= start + decimal(n as nat));
}

/// Appends `n` copies of `s`.
fn push_repeated(out: &mut String, s: &str, n: usize)
    ensures
        final(out)@ == old(out)@ + repeat(s@, n as nat),
{
    let ghost start = out@;
    let mut k: usize = 0;
    while k < n
        invariant
            k <= n,
            out@ == start + repeat(s@, k as nat),
        decreases n - k,
    {
        out.append(s);
        k = k + 1;
        assert(out@ =~= start + repeat(s@, k as nat));
    }
}

/// Generates assembly text from resolved operations.
pub struct Compiler {
    ops: Vec<Token>,
    settings: CompilerSettings,
}

impl Compiler {
    /// The operations being compiled.
    pub closed spec fn ops_view(&self) -> Seq<Token> {
        self.ops@
    }

    /// How the generated program treats the ends of the tape.
    pub closed spec fn settings_view(&self) -> CompilerSettings {
        self.settings
    }

    pub closed spec fn wf(&self) -> bool {
        &&& ops_wf(self.ops@)
        &&& forall|i: int| 0 <= i < self.ops@.len() ==> (#[trigger] self.ops@[i]).token_type != TokenType::Eof
    }

    /// Parses `code` for compiling with `settings`.
    pub fn new(code: String, settings: CompilerSettings) -> (r: Result<Compiler, CompilerError>)
        ensures
            match r {
                Ok(c) => {
                    &&& c.wf()
                    &&& resolution_of(tokens_of(code@), Ok(c.ops_view()))
                    &&& c.settings_view() == settings
                },
                Err(e) => exists|pe: ParserError| {
                    &&& e == CompilerError::ParsingError(pe)
                    &&& resolution_of(tokens_of(code@), Err(pe))
                },
            },
    {
        let mut parser = Parser::new(code);
        let ops = match parser.parse() {
            Ok(ops) => ops,
            Err(e) => return Err(CompilerError::ParsingError(e)),
        };
        proof {
            lemma_resolved_wf(code@, ops@);
            crate::lexer::lemma_tokens_sized(code@, 0);
            assert forall|i: int| 0 <= i < ops@.len() implies (#[trigger] ops@[i]).token_type != TokenType::Eof by {
                assert(tokens_of(code@)[i].token_type != TokenType::Eof);
            }
        }
        Ok(Compiler { ops, settings })
    }

    /// Appends the assembly for the operation `op` at index `i`.
    fn push_op(out: &mut String, op: Token, i: usize, settings: CompilerSettings)
        requires
            i < usize::MAX,
            op.token_type != TokenType::Eof,
            is_repeatable(op.token_type) || op.token_type == TokenType::OpenBracket ==> op.size is Some,
        ensures
            final(out)@ == old(out)@ + op_text(op, i as int, settings),
    {
        let ghost start = out@;
        let n = match op.size {
            Some(n) => n,
            None => 0,
        };
        match op.token_type {
            TokenType::Plus => {
                out.append("; TokenType::Plus\nadd byte [r12], ");
                push_decimal(out, n % 256);
                out.append("\n");
            },
            TokenType::Minus => {
                out.append("; TokenType::Minus\nsub byte [r12], ");
                push_decimal(out, n % 256);
                out.append("\n");
            },
            TokenType::ShiftRight => {
                if settings.wrap {
                    out.append("; TokenType::ShiftRight\nadd r12, ");
                    push_decimal(out, n);
                    out.append("\ncmp r12, (TAPE + TAPE_SIZE)\njl no_wrap_");
                    push_decimal(out, op.loc);
                    out.append("\nsub r12, TAPE_SIZE\nno_wrap_");
                    push_decimal(out, op.loc);
                    out.append(":\n");
                } else if settings.bounds_check {
                    out.append("; TokenType::ShiftRight\ncmp r12, (TAPE + TAPE_SIZE - ");
                    push_decimal(out, n);
                    out.append(")\njge OUT_OF_BOUNDS\nadd r12, ");
                    push_decimal(out, n);
                    out.append("\n");
                } else {
                    out.append("; TokenType::ShiftRight\nadd r12, ");
                    push_decimal(out, n);
                    out.append("\n");
                }
            },
            TokenType::ShiftLeft => {
                if settings.wrap {
                    out.append("; TokenType::ShiftLeft\nsub r12, ");
                    push_decimal(out, n);
                    out.append("\ncmp r12, (TAPE)\njge no_wrap_");
                    push_decimal(out, op.loc);
                    out.append("\nadd r12, TAPE_SIZE\nno_wrap_");
                    push_decimal(out, op.loc);
                    out.append(":\n");
                } else if settings.bounds_check {
                    out.append("; TokenType::ShiftLeft\ncmp r12, (TAPE + ");
                    push_decimal(out, n);
                    out.append(")\njl OUT_OF_BOUNDS\nsub r12, ");
                    push_decimal(out, n);
                    out.append("\n");
                } else {
                    out.append("; TokenType::ShiftLeft\nsub r12, ");
                    push_decimal(out, n);
                    out.append("\n");
                }
            },
            TokenType::Dot => {
                out.append("; TokenType::Dot\n");
                push_repeated(out, "  call WRITE_TO_STDOUT\n", n);
            },
            TokenType::Comma => {
                out.append("; TokenType::Comma\n");
                push_repeated(out, "call READ_FROM_STDIN\nmov rax, [r12]\n", n);
            },
            TokenType::OpenBracket => {
                out.append("\n; TokenType::OpenBracket\ncmp byte [r12], 0\nje after_loop_");
                push_decimal(out, n);
                out.append("\n\nloop_");
                push_decimal(out, n);
                out.append(":\n\n");
            },
            TokenType::CloseBracket => {
                out.append("\n; TokenType::CloseBracket\ncmp byte [r12], 0\njne loop_");
                push_decimal(out, i + 1);
                out.append("\n\nafter_loop_");
                push_decimal(out, i + 1);
                out.append(":\n");
            },
            TokenType::Eof => {},
        }
        assert(out@ =~= start + op_text(op, i as int, settings));
    }

    /// The assembly program: the prologue, the text of each operation in
    /// turn, and the epilogue.
    pub fn compile_code(&self) -> (r: String)
        requires
            self.wf(),
        ensures
            r@ == program_text(self.ops_view(), self.settings_view()),
    {
        let mut out = String::new();
        out.append("format ELF64 executable 3\n\n; Helper functions\nSYS_read = 0\nSYS_write = 1\nSYS_exit = 60\n\nSTDIN = 0\nSTDOUT = 1\n\nWRITE_TO_STDOUT:\nmov rax, SYS_write\nmov rdi, STDOUT\nmov rsi, r12\nmov rdx, 1\nsyscall\nret\n\nREAD_FROM_STDIN:\nmov rax, SYS_read\nmov rdi, STDIN\nmov rsi, r12\nmov rdx, 1\nsyscall\nret\n\nEXIT:\nmov rax, SYS_exit\nmov rdi, 0\nsyscall\nsegment readable executable\nentry main\n\nmain:\nmov r12, (TAPE)\n");
        let mut i: usize = 0;
        while i < self.ops.len()
            invariant
                self.wf(),
                i <= self.ops@.len(),
                out@ == prologue() + body_text(self.ops@, self.settings, i as int),
            decreases self.ops@.len() - i,
        {
            Self::push_op(&mut out, self.ops[i], i, self.settings);
            i = i + 1;
        }
        out.append("; TokenType::Eof\ncall EXIT\n");
        if !self.settings.wrap && self.settings.bounds_check {
            out.append("\nOUT_OF_BOUNDS:\nmov rax, SYS_exit\nmov rdi, 1\nsyscall\n");
        }
        out.append("\nsegment readable writeable\nTAPE_SIZE = 30000\nTAPE rb TAPE_SIZE\n");
        assert(out@ =~= program_text(self.ops@, self.settings));
        out
    }
}

} // verus!
