use hydrogen::compile_source;
use hydrogen::generator::GeneratorError;
use hydrogen::parser::parse_program;
use hydrogen::parser::NodeStatement;
use hydrogen::parser::ParseError;
use hydrogen::tokenizer::tokenize_source;
use hydrogen::CompileError;

const HEADER: &str = "global _start\n_start:\n";
const DEFAULT_EXIT: &str = "\tmov rax, 60\n\tmov rdi, 0\n\tsyscall\n";

#[test]
fn exit_literal_compiles_to_that_status() {
    // The exit-status operand is the literal, exactly as written.
    let code = compile_source("exit(42);").unwrap();
    let expected = format!(
        "{HEADER}\tmov rax, 42\n\tpush rax\n\tmov rax, 60\n\tpop rdi\n\tsyscall\n{DEFAULT_EXIT}"
    );
    assert_eq!(code, expected);
}

#[test]
fn exit_zero_compiles() {
    let code = compile_source("exit(0);").unwrap();
    let expected = format!(
        "{HEADER}\tmov rax, 0\n\tpush rax\n\tmov rax, 60\n\tpop rdi\n\tsyscall\n{DEFAULT_EXIT}"
    );
    assert_eq!(code, expected);
}

#[test]
fn empty_program_generates_default_zero_exit() {
    let expected = format!("{HEADER}{DEFAULT_EXIT}");
    assert_eq!(compile_source("").unwrap(), expected);
    assert_eq!(compile_source(" \n\t \r ").unwrap(), expected);
}

#[test]
fn empty_program_parses_to_end_sentinel_only() {
    let tokens = tokenize_source("").unwrap();
    let tree = parse_program(&tokens).unwrap();
    assert_eq!(tree.statements, vec![NodeStatement::End]);
}

#[test]
fn pipeline_is_deterministic() {
    let src = "let a = 1; let b = 2; exit(a + b);";
    let tokens_one = tokenize_source(src).unwrap();
    let tokens_two = tokenize_source(src).unwrap();
    assert_eq!(tokens_one, tokens_two);
    let tree_one = parse_program(&tokens_one).unwrap();
    let tree_two = parse_program(&tokens_two).unwrap();
    assert_eq!(tree_one, tree_two);
    assert_eq!(compile_source(src).unwrap(), compile_source(src).unwrap());
}

#[test]
fn redeclaration_fails_with_identifier_in_use() {
    let err = compile_source("let x = 1; let x = 2; exit(x);").unwrap_err();
    assert_eq!(
        err,
        CompileError::Generate(GeneratorError::IdentifierInUse("x".to_string()))
    );
}

#[test]
fn undeclared_identifier_fails_with_not_found() {
    let err = compile_source("exit(y);").unwrap_err();
    assert_eq!(
        err,
        CompileError::Generate(GeneratorError::IdentifierNotFound("y".to_string()))
    );
}

#[test]
fn self_referential_initializer_fails_with_not_found() {
    // The binding's slot exists but holds no value yet when the initializer
    // reads it first.
    let err = compile_source("let x = x; exit(x);").unwrap_err();
    assert_eq!(
        err,
        CompileError::Generate(GeneratorError::IdentifierNotFound("x".to_string()))
    );
}

#[test]
fn variable_reads_resolve_to_top_relative_offsets() {
    // With `a` in slot 0: read at height 1 gives offset 0, reads at height 2
    // give offset 8 — the offset is recomputed against the current height.
    let code = compile_source("let a = 1; let b = a + a; exit(a);").unwrap();
    let body = "\tmov rax, 1\n\tpush rax\n\tpush QWORD [rsp + 0]\n\tpush QWORD [rsp + 8]\n\tpop rax\n\tpop rbx\n\tadd rax, rbx\n\tpush rax\n\tpush QWORD [rsp + 8]\n\tmov rax, 60\n\tpop rdi\n\tsyscall\n";
    let expected = format!("{HEADER}{body}{DEFAULT_EXIT}");
    assert_eq!(code, expected);
}

#[test]
fn offsets_grow_with_the_stack() {
    // Sixteen bindings, then a read of the first: its slot is 0 and the
    // height 16, so the offset is (16 - 0 - 1) * 8 = 120 bytes.
    let mut src = String::new();
    src.push_str("let v0 = 7;");
    for i in 1..16 {
        src.push_str(&format!(" let v{} = v{};", i, i - 1));
    }
    src.push_str(" exit(v0);");
    let code = compile_source(&src).unwrap();
    assert!(code.contains("\tpush QWORD [rsp + 120]\n"));
}

#[test]
fn missing_open_parenthesis_is_expected_token_error() {
    let err = compile_source("exit 5;").unwrap_err();
    assert_eq!(
        err,
        CompileError::Parse(ParseError::ExpectedToken("(".to_string()))
    );
}

#[test]
fn missing_close_parenthesis_is_expected_token_error() {
    let err = compile_source("exit(5;").unwrap_err();
    assert_eq!(
        err,
        CompileError::Parse(ParseError::ExpectedToken(")".to_string()))
    );
}

#[test]
fn missing_semicolon_is_expected_token_error() {
    let err = compile_source("exit(5)").unwrap_err();
    assert_eq!(
        err,
        CompileError::Parse(ParseError::ExpectedToken(";".to_string()))
    );
}

#[test]
fn let_without_identifier_is_expected_token_error() {
    let err = compile_source("let = 5;").unwrap_err();
    assert_eq!(
        err,
        CompileError::Parse(ParseError::ExpectedToken("Ident".to_string()))
    );
}

#[test]
fn let_without_assignment_is_expected_token_error() {
    let err = compile_source("let x 5;").unwrap_err();
    assert_eq!(
        err,
        CompileError::Parse(ParseError::ExpectedToken("=".to_string()))
    );
}

#[test]
fn literal_in_statement_position_is_unknown_token() {
    let err = compile_source("5;").unwrap_err();
    assert_eq!(
        err,
        CompileError::Parse(ParseError::Parse("Unknown Token: 5".to_string()))
    );
}

#[test]
fn stray_keyword_in_statement_position_is_unknown_keyword() {
    let err = compile_source(");").unwrap_err();
    assert_eq!(
        err,
        CompileError::Parse(ParseError::Parse(
            "Unknown Keyword: CloseParenthesis".to_string()
        ))
    );
}

#[test]
fn keyword_after_term_is_unexpected_keyword() {
    let err = compile_source("exit(5 let);").unwrap_err();
    assert_eq!(
        err,
        CompileError::Parse(ParseError::Parse("Unexpected keyword: Let".to_string()))
    );
}

#[test]
fn missing_term_is_expected_token_error() {
    let err = compile_source("exit();").unwrap_err();
    assert_eq!(
        err,
        CompileError::Parse(ParseError::ExpectedToken(
            "Identifier or literal".to_string()
        ))
    );
}

#[test]
fn nested_additions_compile_right_associated() {
    let code = compile_source("exit(1 + 2 + 3);").unwrap();
    let body = "\tmov rax, 1\n\tpush rax\n\tmov rax, 2\n\tpush rax\n\tmov rax, 3\n\tpush rax\n\tpop rax\n\tpop rbx\n\tadd rax, rbx\n\tpush rax\n\tpop rax\n\tpop rbx\n\tadd rax, rbx\n\tpush rax\n\tmov rax, 60\n\tpop rdi\n\tsyscall\n";
    let expected = format!("{HEADER}{body}{DEFAULT_EXIT}");
    assert_eq!(code, expected);
}
