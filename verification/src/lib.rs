//! A small ahead-of-time compiler for a tiny imperative language with
//! variable bindings, integer addition and an explicit process exit.
//!
//! The pipeline has three stages: the tokenizer turns source text into a
//! sequence of classified tokens, the parser builds a program tree from the
//! tokens, and the generator lowers the tree into textual assembly for a
//! 64-bit register machine with a Linux-style exit system call.
//!
//! Every stage is specified by a mathematical function over sequences of
//! characters (`spec_tokenize`, `spec_parse`, `spec_generate`), and each
//! executable stage is proved to return exactly what its specification says.

use vstd::prelude::*;

pub mod generator;
pub mod parser;
pub mod tokenizer;

verus! {

use crate::generator::{
    spec_end_text, spec_gen_statement, spec_gen_statements, spec_gen_term, spec_generate,
    spec_header_text, spec_pop_text, spec_push_text, GeneratorError, SpecGenState,
    SpecGeneratorError,
};
use crate::parser::{
    lemma_parse_program_pushes, parse_program, spec_parse, spec_parse_bin_expr, spec_parse_exit,
    spec_parse_expr, spec_parse_program, spec_parse_statement, spec_parse_term,
    spec_program_pushes, ParseError, SpecExpr, SpecParseError, SpecProgram, SpecStatement,
    SpecTerm,
};
use crate::tokenizer::{
    is_digit_char, is_space_char, lemma_split_ws_from_all_space, lemma_tokenize_exit_literal,
    spec_apply_split, spec_keep_nonempty, spec_split_tokens, spec_split_whitespace, spec_tokenize,
    tokenize_source, tokens_view, Keywords, SpecToken, SpecTokenError, TokenError,
};

/// A compilation error: the failing stage's error, wrapped without losing
/// its detail.
#[derive(Debug, PartialEq, Eq)]
pub enum CompileError {
    Token(TokenError),
    Parse(ParseError),
    Generate(GeneratorError),
}

/// The mathematical value of a [`CompileError`].
pub enum SpecCompileError {
    Token(SpecTokenError),
    Parse(SpecParseError),
    Generate(SpecGeneratorError),
}

impl View for CompileError {
    type V = SpecCompileError;

    open spec fn view(&self) -> SpecCompileError {
        match self {
            CompileError::Token(e) => SpecCompileError::Token(e@),
            CompileError::Parse(e) => SpecCompileError::Parse(e@),
            CompileError::Generate(e) => SpecCompileError::Generate(e@),
        }
    }
}

/// The whole pipeline over source text: tokenize, parse, generate. The first
/// failing stage's error is the result.
pub open spec fn spec_compile(src: Seq<char>) -> Result<Seq<char>, SpecCompileError> {
    match spec_tokenize(src) {
        Err(e) => Err(SpecCompileError::Token(e)),
        Ok(toks) => match spec_parse(toks) {
            Err(e) => Err(SpecCompileError::Parse(e)),
            Ok(prog) => match spec_generate(prog) {
                Err(e) => Err(SpecCompileError::Generate(e)),
                Ok(text) => Ok(text),
            },
        },
    }
}

/// Compiles one source unit to assembly text, as [`spec_compile`] describes:
/// the result is a function of the source characters alone.
pub fn compile_source(src: &str) -> (r: Result<String, CompileError>)
    ensures
        match r {
            Ok(s) => spec_compile(src@) == Ok::<Seq<char>, SpecCompileError>(s@),
            Err(e) => spec_compile(src@) == Err::<Seq<char>, SpecCompileError>(e@),
        },
{
    let tokens = match tokenize_source(src) {
        Ok(t) => t,
        Err(e) => {
            return Err(CompileError::Token(e));
        },
    };
    let tree = match parse_program(&tokens) {
        Ok(t) => t,
        Err(e) => {
            return Err(CompileError::Parse(e));
        },
    };
    let token_count = tokens.len();
    proof {
        let toks = tokens_view(tokens@);
        assert(toks.len() == tokens@.len());
        lemma_parse_program_pushes(toks, 0);
        assert(spec_program_pushes(tree@.statements) <= token_count as nat);
    }
    match tree.generate() {
        Ok(text) => Ok(text),
        Err(e) => Err(CompileError::Generate(e)),
    }
}

/// Lexical and syntactic analysis are deterministic: the same source text
/// always yields an identical token sequence and an identical program tree,
/// and the whole pipeline one identical result. Every stage is a function of
/// its input alone.
pub proof fn lemma_lex_parse_deterministic(src1: Seq<char>, src2: Seq<char>)
    requires
        src1 == src2,
    ensures
        spec_tokenize(src1) == spec_tokenize(src2),
        spec_tokenize(src1) matches Ok(toks) ==> spec_parse(toks) == spec_parse(
            spec_tokenize(src2)->Ok_0,
        ),
        spec_compile(src1) == spec_compile(src2),
{
}

/// A source with no statements at all — empty, or whitespace only — parses
/// to a tree holding only the `End` sentinel and compiles to the header
/// followed by the default zero-exit sequence.
pub proof fn lemma_empty_program(src: Seq<char>)
    requires
        forall|i: int| 0 <= i < src.len() ==> is_space_char(#[trigger] src[i]),
    ensures
        spec_tokenize(src) == Ok::<Seq<SpecToken>, SpecTokenError>(Seq::empty()),
        spec_parse(Seq::<SpecToken>::empty()) == Ok::<SpecProgram, SpecParseError>(
            SpecProgram { statements: seq![SpecStatement::End] },
        ),
        spec_compile(src) == Ok::<Seq<char>, SpecCompileError>(
            spec_header_text() + spec_end_text(),
        ),
{
    lemma_split_ws_from_all_space(src, 0, Seq::empty());
    let none = Seq::<Seq<char>>::empty();
    assert(spec_split_whitespace(src) == none);
    assert(spec_apply_split(none, ';') =~= none);
    assert(spec_apply_split(none, '(') =~= none);
    assert(spec_apply_split(none, ')') =~= none);
    assert(spec_apply_split(none, '=') =~= none);
    assert(spec_apply_split(none, '+') =~= none);
    assert(spec_keep_nonempty(none) =~= none);
    assert(spec_split_tokens(src) == none);
    assert(spec_tokenize(src) == Ok::<Seq<SpecToken>, SpecTokenError>(Seq::empty()));

    let toks = Seq::<SpecToken>::empty();
    assert(spec_parse_program(toks, 0) == Ok::<Seq<SpecStatement>, SpecParseError>(
        seq![SpecStatement::End],
    ));

    let prog = SpecProgram { statements: seq![SpecStatement::End] };
    let st0 = SpecGenState { stack: 0, vars: Seq::<(Seq<char>, nat)>::empty() };
    assert(spec_gen_statements(prog.statements, st0) == Ok::<
        (Seq<char>, SpecGenState),
        SpecGeneratorError,
    >((spec_end_text() + Seq::<char>::empty(), st0))) by {
        assert(prog.statements.skip(1) =~= Seq::<SpecStatement>::empty());
        assert(spec_gen_statements(Seq::<SpecStatement>::empty(), st0) == Ok::<
            (Seq<char>, SpecGenState),
            SpecGeneratorError,
        >((Seq::<char>::empty(), st0)));
    }
    assert(spec_end_text() + Seq::<char>::empty() =~= spec_end_text());
    assert(spec_generate(prog) == Ok::<Seq<char>, SpecGeneratorError>(
        spec_header_text() + spec_end_text(),
    ));
}

/// For every source program of the form `exit(<digits>);`, the generated
/// code's exit-status operand is that digit string itself: the value loaded
/// into the status register before the termination call is the literal,
/// exactly as written.
pub proof fn lemma_exit_literal_program(d: Seq<char>)
    requires
        d.len() > 0,
        forall|i: int| 0 <= i < d.len() ==> is_digit_char(#[trigger] d[i]),
    ensures
        spec_compile("exit("@ + d + ");"@) == Ok::<Seq<char>, SpecCompileError>(
            spec_header_text() + "\tmov rax, "@ + d + "\n"@ + spec_push_text("rax"@)
                + "\tmov rax, 60\n"@ + spec_pop_text("rdi"@) + "\tsyscall\n"@ + spec_end_text(),
        ),
{
    let src = "exit("@ + d + ");"@;
    lemma_tokenize_exit_literal(d);
    let toks = seq![
        SpecToken::Keyword(Keywords::Exit),
        SpecToken::Keyword(Keywords::OpenParenthesis),
        SpecToken::IntLit(d),
        SpecToken::Keyword(Keywords::CloseParenthesis),
        SpecToken::Keyword(Keywords::Semi),
    ];
    assert(spec_tokenize(src) == Ok::<Seq<SpecToken>, SpecTokenError>(toks));

    // Parsing: `exit` dispatches, the literal is a bare term, and the
    // parentheses and semicolon close the statement; the cursor is then
    // exhausted and `End` closes the list.
    let term = SpecTerm::IntLit(SpecToken::IntLit(d));
    let expr = SpecExpr::Term(term);
    let stmt = SpecStatement::Exit(expr);
    assert(spec_parse_term(toks, 2) == Ok::<(SpecTerm, int), SpecParseError>((term, 3)));
    assert(spec_parse_bin_expr(toks, 2) == Ok::<Option<(SpecExpr, int)>, SpecParseError>(None));
    assert(spec_parse_expr(toks, 2) == Ok::<(SpecExpr, int), SpecParseError>((expr, 3)));
    assert(spec_parse_exit(toks, 1) == Ok::<(SpecStatement, int), SpecParseError>((stmt, 5)));
    assert(spec_parse_statement(toks, 0) == Ok::<(SpecStatement, int), SpecParseError>((
        stmt,
        5,
    )));
    assert(spec_parse_statement(toks, 5) == Ok::<(SpecStatement, int), SpecParseError>((
        SpecStatement::End,
        5,
    )));
    assert(spec_parse_program(toks, 5) == Ok::<Seq<SpecStatement>, SpecParseError>(
        seq![SpecStatement::End],
    ));
    let stmts = seq![stmt, SpecStatement::End];
    assert(spec_parse_program(toks, 0) == Ok::<Seq<SpecStatement>, SpecParseError>(stmts)) by {
        assert(seq![stmt] + seq![SpecStatement::End] =~= stmts);
    }
    let prog = SpecProgram { statements: stmts };
    assert(spec_parse(toks) == Ok::<SpecProgram, SpecParseError>(prog));

    // Generation: load the literal, push it, pop it into the status register
    // and invoke the termination call; then the sentinel's fallback sequence.
    let st0 = SpecGenState { stack: 0, vars: Seq::<(Seq<char>, nat)>::empty() };
    let term_text = "\tmov rax, "@ + d + "\n"@ + spec_push_text("rax"@);
    let st1 = SpecGenState { stack: 1, vars: st0.vars };
    assert(spec_gen_term(term, st0) == Ok::<(Seq<char>, SpecGenState), SpecGeneratorError>((
        term_text,
        st1,
    )));
    let exit_text = term_text + "\tmov rax, 60\n"@ + spec_pop_text("rdi"@) + "\tsyscall\n"@;
    assert(spec_gen_statement(stmt, st0) == Ok::<
        (Seq<char>, SpecGenState),
        SpecGeneratorError,
    >((exit_text, st0)));
    assert(spec_gen_statements(stmts, st0) == Ok::<
        (Seq<char>, SpecGenState),
        SpecGeneratorError,
    >((exit_text + (spec_end_text() + Seq::<char>::empty()), st0))) by {
        assert(stmts.skip(1) =~= seq![SpecStatement::End]);
        assert(seq![SpecStatement::End].skip(1) =~= Seq::<SpecStatement>::empty());
        assert(spec_gen_statement(SpecStatement::End, st0) == Ok::<
            (Seq<char>, SpecGenState),
            SpecGeneratorError,
        >((spec_end_text(), st0)));
        assert(spec_gen_statements(Seq::<SpecStatement>::empty(), st0) == Ok::<
            (Seq<char>, SpecGenState),
            SpecGeneratorError,
        >((Seq::<char>::empty(), st0)));
        assert(spec_gen_statements(seq![SpecStatement::End], st0) == Ok::<
            (Seq<char>, SpecGenState),
            SpecGeneratorError,
        >((spec_end_text() + Seq::<char>::empty(), st0)));
    }
    assert(spec_generate(prog) == Ok::<Seq<char>, SpecGeneratorError>(
        spec_header_text() + (exit_text + (spec_end_text() + Seq::<char>::empty())),
    ));
    assert(spec_header_text() + (exit_text + (spec_end_text() + Seq::<char>::empty()))
        =~= spec_header_text() + "\tmov rax, "@ + d + "\n"@ + spec_push_text("rax"@)
        + "\tmov rax, 60\n"@ + spec_pop_text("rdi"@) + "\tsyscall\n"@ + spec_end_text());
}

} // verus!
