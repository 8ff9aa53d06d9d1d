use rbfc::compiler::{Compiler, CompilerError, CompilerSettings};
use rbfc::parser::ParserError;

const PROLOGUE: &str = "format ELF64 executable 3

; Helper functions
SYS_read = 0
SYS_write = 1
SYS_exit = 60

STDIN = 0
STDOUT = 1

WRITE_TO_STDOUT:
mov rax, SYS_write
mov rdi, STDOUT
mov rsi, r12
mov rdx, 1
syscall
ret

READ_FROM_STDIN:
mov rax, SYS_read
mov rdi, STDIN
mov rsi, r12
mov rdx, 1
syscall
ret

EXIT:
mov rax, SYS_exit
mov rdi, 0
syscall
segment readable executable
entry main

main:
mov r12, (TAPE)
";

const EPILOGUE: &str = "; TokenType::Eof
call EXIT

segment readable writeable
TAPE_SIZE = 30000
TAPE rb TAPE_SIZE
";

fn compile(code: &str, wrap: bool) -> String {
    compile_with(code, CompilerSettings { wrap, bounds_check: false })
}

fn compile_with(code: &str, settings: CompilerSettings) -> String {
    Compiler::new(code.to_string(), settings).unwrap().compile_code()
}

#[test]
fn compiler_test() {
    let compiler = Compiler::new("+++".to_string(), CompilerSettings::default()).unwrap();
    let text = compiler.compile_code();
    assert_eq!(
        text,
        "format ELF64 executable 3

; Helper functions
SYS_read = 0
SYS_write = 1
SYS_exit = 60

STDIN = 0
STDOUT = 1

WRITE_TO_STDOUT:
mov rax, SYS_write
mov rdi, STDOUT
mov rsi, r12
mov rdx, 1
syscall
ret

READ_FROM_STDIN:
mov rax, SYS_read
mov rdi, STDIN
mov rsi, r12
mov rdx, 1
syscall
ret

EXIT:
mov rax, SYS_exit
mov rdi, 0
syscall
segment readable executable
entry main

main:
mov r12, (TAPE)
; TokenType::Plus
add byte [r12], 3
; TokenType::Eof
call EXIT

segment readable writeable
TAPE_SIZE = 30000
TAPE rb TAPE_SIZE
"
    );
}

#[test]
fn one_increment_and_no_labels() {
    let text = compile("+++", false);
    assert_eq!(text.matches("add byte [r12], ").count(), 1);
    assert!(text.contains("add byte [r12], 3\n"));
    assert!(!text.contains("loop_"));
}

#[test]
fn empty_program() {
    assert_eq!(compile("no code", false), format!("{}{}", PROLOGUE, EPILOGUE));
}

#[test]
fn multi_digit_operands() {
    let text = compile(&"-".repeat(123), false);
    assert_eq!(text, format!("{}; TokenType::Minus\nsub byte [r12], 123\n{}", PROLOGUE, EPILOGUE));
    let text = compile(&"+".repeat(1234), false);
    assert_eq!(text, format!("{}; TokenType::Plus\nadd byte [r12], 210\n{}", PROLOGUE, EPILOGUE));
    let text = compile(&"-".repeat(256), false);
    assert_eq!(text, format!("{}; TokenType::Minus\nsub byte [r12], 0\n{}", PROLOGUE, EPILOGUE));
}

#[test]
fn moves_without_wrap() {
    let text = compile(">><", false);
    assert_eq!(
        text,
        format!("{}; TokenType::ShiftRight\nadd r12, 2\n; TokenType::ShiftLeft\nsub r12, 1\n{}", PROLOGUE, EPILOGUE)
    );
}

#[test]
fn moves_with_wrap() {
    let text = compile(">> <", true);
    let body = "; TokenType::ShiftRight\nadd r12, 2\ncmp r12, (TAPE + TAPE_SIZE)\njl no_wrap_0\nsub r12, TAPE_SIZE\nno_wrap_0:\n\
                ; TokenType::ShiftLeft\nsub r12, 1\ncmp r12, (TAPE)\njge no_wrap_3\nadd r12, TAPE_SIZE\nno_wrap_3:\n";
    assert_eq!(text, format!("{}{}{}", PROLOGUE, body, EPILOGUE));
}

#[test]
fn output_and_input_are_unrolled() {
    let text = compile("..,", false);
    let body = "; TokenType::Dot\n  call WRITE_TO_STDOUT\n  call WRITE_TO_STDOUT\n\
                ; TokenType::Comma\ncall READ_FROM_STDIN\nmov rax, [r12]\n";
    assert_eq!(text, format!("{}{}{}", PROLOGUE, body, EPILOGUE));
}

#[test]
fn loop_ends_share_a_label() {
    let text = compile("[-]", false);
    let body = "\n; TokenType::OpenBracket\ncmp byte [r12], 0\nje after_loop_3\n\nloop_3:\n\n\
                ; TokenType::Minus\nsub byte [r12], 1\n\
                \n; TokenType::CloseBracket\ncmp byte [r12], 0\njne loop_3\n\nafter_loop_3:\n";
    assert_eq!(text, format!("{}{}{}", PROLOGUE, body, EPILOGUE));
}

#[test]
fn unresolved_source_is_not_compiled() {
    let r = Compiler::new("+++[".to_string(), CompilerSettings::default());
    assert!(matches!(r, Err(CompilerError::ParsingError(ParserError::UnexpectedEof(2, 1)))));
    let r = Compiler::new("+]".to_string(), CompilerSettings::default());
    assert!(matches!(r, Err(CompilerError::ParsingError(ParserError::UnmatchedBracket(1)))));
}

#[test]
fn bounds_checked_moves() {
    let text = compile_with(">><", CompilerSettings { wrap: false, bounds_check: true });
    let body = "; TokenType::ShiftRight\ncmp r12, (TAPE + TAPE_SIZE - 2)\njge OUT_OF_BOUNDS\nadd r12, 2\n\
                ; TokenType::ShiftLeft\ncmp r12, (TAPE + 1)\njl OUT_OF_BOUNDS\nsub r12, 1\n";
    let end = "; TokenType::Eof\ncall EXIT\n\nOUT_OF_BOUNDS:\nmov rax, SYS_exit\nmov rdi, 1\nsyscall\n\
               \nsegment readable writeable\nTAPE_SIZE = 30000\nTAPE rb TAPE_SIZE\n";
    assert_eq!(text, format!("{}{}{}", PROLOGUE, body, end));
    assert_eq!(text.matches("OUT_OF_BOUNDS:").count(), 1);
}

#[test]
fn wrap_takes_precedence_over_bounds_check() {
    let checked = compile_with(">", CompilerSettings { wrap: true, bounds_check: true });
    assert_eq!(checked, compile(">", true));
    assert!(!checked.contains("OUT_OF_BOUNDS"));
}
