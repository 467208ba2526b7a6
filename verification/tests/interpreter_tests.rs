//! Validates the arithmetic of generated code by simulating the emitted
//! push/pop/arithmetic trace against a tiny stack-machine interpreter, since
//! true execution would require an external assembler and linker.

use hydrogen::compile_source;

/// Runs generated text on a tiny model of the target machine and returns the
/// status handed to the exit system call.
fn run(code: &str) -> u64 {
    let mut stack: Vec<u64> = Vec::new();
    let mut rax: u64 = 0;
    let mut rbx: u64 = 0;
    let mut rdi: u64 = 0;
    for line in code.lines() {
        let line = line.trim();
        if line.is_empty() || line == "global _start" || line == "_start:" {
            continue;
        }
        if let Some(rest) = line.strip_prefix("mov rax, ") {
            rax = rest.parse().unwrap();
        } else if let Some(rest) = line.strip_prefix("mov rdi, ") {
            rdi = rest.parse().unwrap();
        } else if let Some(rest) = line.strip_prefix("push QWORD [rsp + ") {
            let bytes: usize = rest.strip_suffix("]").unwrap().parse().unwrap();
            assert!(bytes % 8 == 0, "offset must be a multiple of eight");
            let slot = stack.len() - 1 - bytes / 8;
            let value = stack[slot];
            stack.push(value);
        } else if line == "push rax" {
            stack.push(rax);
        } else if line == "pop rax" {
            rax = stack.pop().unwrap();
        } else if line == "pop rbx" {
            rbx = stack.pop().unwrap();
        } else if line == "pop rdi" {
            rdi = stack.pop().unwrap();
        } else if line == "add rax, rbx" {
            rax = rax + rbx;
        } else if line == "syscall" {
            assert_eq!(rax, 60, "the only system call is process exit");
            return rdi;
        } else {
            panic!("unrecognized instruction: {line}");
        }
    }
    panic!("generated code never invoked the exit system call");
}

#[test]
fn sum_of_two_bindings_exits_with_three() {
    // The arithmetic step adds the two pushed values, and the exit argument
    // is their sum.
    let code = compile_source("let a = 1; let b = 2; exit(a + b);").unwrap();
    assert_eq!(run(&code), 3);
}

#[test]
fn exit_literal_exits_with_that_value() {
    let code = compile_source("exit(42);").unwrap();
    assert_eq!(run(&code), 42);
}

#[test]
fn empty_program_exits_with_zero() {
    let code = compile_source("").unwrap();
    assert_eq!(run(&code), 0);
}

#[test]
fn chained_additions_sum_all_terms() {
    let code = compile_source("exit(1 + 2 + 3);").unwrap();
    assert_eq!(run(&code), 6);
}

#[test]
fn interleaved_bindings_and_reads_compute_correctly() {
    let code = compile_source("let a = 5; let b = a + a; let c = b + a; exit(c + b);").unwrap();
    assert_eq!(run(&code), 25);
}

#[test]
fn reads_of_early_bindings_survive_later_pushes() {
    let code =
        compile_source("let a = 9; let b = 1; let c = 2; let d = 3; exit(a + d);").unwrap();
    assert_eq!(run(&code), 12);
}
