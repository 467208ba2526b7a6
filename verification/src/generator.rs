//! Code generation: lowers the program tree into textual assembly with a
//! stack-machine evaluation model, a virtual stack-height counter and a
//! symbol table mapping identifiers to stack slots.

use crate::parser::{
    spec_expr_pushes, spec_program_pushes, spec_statement_pushes, NodeBinExpr, NodeExpr,
    NodeProgram, NodeStatement, NodeTerm, SpecBinExpr, SpecExpr, SpecProgram, SpecStatement,
    SpecTerm,
};
use crate::tokenizer::{spec_token_text, SpecToken};
use vstd::prelude::*;

verus! {

/// A code-generation error.
#[derive(Debug, PartialEq, Eq)]
pub enum GeneratorError {
    /// A `let` re-declares an identifier already bound earlier.
    IdentifierInUse(String),
    /// An identifier is referenced before its value exists on the stack.
    IdentifierNotFound(String),
}

/// The mathematical value of a [`GeneratorError`].
pub enum SpecGeneratorError {
    IdentifierInUse(Seq<char>),
    IdentifierNotFound(Seq<char>),
}

impl View for GeneratorError {
    type V = SpecGeneratorError;

    open spec fn view(&self) -> SpecGeneratorError {
        match self {
            GeneratorError::IdentifierInUse(s) => SpecGeneratorError::IdentifierInUse(s@),
            GeneratorError::IdentifierNotFound(s) => SpecGeneratorError::IdentifierNotFound(s@),
        }
    }
}

/// The decimal digit character of a value below ten.
pub open spec fn spec_dec_digit(n: nat) -> char {
    if n == 0 {
        '0'
    } else if n == 1 {
        '1'
    } else if n == 2 {
        '2'
    } else if n == 3 {
        '3'
    } else if n == 4 {
        '4'
    } else if n == 5 {
        '5'
    } else if n == 6 {
        '6'
    } else if n == 7 {
        '7'
    } else if n == 8 {
        '8'
    } else {
        '9'
    }
}

/// The decimal notation of a number, most significant digit first.
pub open spec fn spec_dec_str(n: nat) -> Seq<char>
    decreases n,
{
    if n < 10 {
        seq![spec_dec_digit(n)]
    } else {
        spec_dec_str(n / 10) + seq![spec_dec_digit(n % 10)]
    }
}

/// The digit character of a value below ten.
fn digit_str(n: u128) -> (r: &'static str)
    requires
        n < 10,
    ensures
        r@ == seq![spec_dec_digit(n as nat)],
{
    proof {
        reveal_strlit("0");
        reveal_strlit("1");
        reveal_strlit("2");
        reveal_strlit("3");
        reveal_strlit("4");
        reveal_strlit("5");
        reveal_strlit("6");
        reveal_strlit("7");
        reveal_strlit("8");
        reveal_strlit("9");
    }
    let r = if n == 0 {
        "0"
    } else if n == 1 {
        "1"
    } else if n == 2 {
        "2"
    } else if n == 3 {
        "3"
    } else if n == 4 {
        "4"
    } else if n == 5 {
        "5"
    } else if n == 6 {
        "6"
    } else if n == 7 {
        "7"
    } else if n == 8 {
        "8"
    } else {
        "9"
    };
    proof {
        assert(r@ =~= seq![spec_dec_digit(n as nat)]);
    }
    r
}

/// Formats a number in decimal notation.
fn u128_to_string(n: u128) -> (r: String)
    ensures
        r@ == spec_dec_str(n as nat),
    decreases n,
{
    if n < 10 {
        String::from_str(digit_str(n))
    } else {
        let s = u128_to_string(n / 10);
        s.concat(digit_str(n % 10))
    }
}

/// The state the generator carries across one compilation: the virtual stack
/// height and the symbol table, each entry a name with the slot index at
/// which its value was stored at definition time.
pub struct SpecGenState {
    pub stack: nat,
    pub vars: Seq<(Seq<char>, nat)>,
}

/// The first slot recorded under a name, scanning from entry `i`.
pub open spec fn spec_lookup_from(vars: Seq<(Seq<char>, nat)>, name: Seq<char>, i: int) -> Option<
    nat,
>
    decreases vars.len() - i,
{
    if i < 0 || i >= vars.len() {
        None
    } else if vars[i].0 == name {
        Some(vars[i].1)
    } else {
        spec_lookup_from(vars, name, i + 1)
    }
}

/// The slot recorded under a name. Entries are inserted at most once per
/// name, so the first match is the only one.
pub open spec fn spec_lookup(vars: Seq<(Seq<char>, nat)>, name: Seq<char>) -> Option<nat> {
    spec_lookup_from(vars, name, 0)
}

/// The instruction that pushes a register or memory operand.
pub open spec fn spec_push_text(register: Seq<char>) -> Seq<char> {
    "\tpush "@ + register + "\n"@
}

/// The instruction that pops into a register.
pub open spec fn spec_pop_text(register: Seq<char>) -> Seq<char> {
    "\tpop "@ + register + "\n"@
}

/// The fallback termination sequence emitted for the `End` sentinel.
pub open spec fn spec_end_text() -> Seq<char> {
    "\tmov rax, 60\n\tmov rdi, 0\n\tsyscall\n"@
}

/// The program-entry header that every generated program begins with.
pub open spec fn spec_header_text() -> Seq<char> {
    "global _start\n_start:\n"@
}

/// Code generation for one term. An integer literal loads the value and
/// pushes it. An identifier pushes a copy of the value at stack offset
/// `(height - slot - 1) * 8` bytes from the current stack top, recomputed at
/// every reference because the height grows as more values are pushed; a name
/// with no slot, or whose slot has not been filled yet, is not found.
pub open spec fn spec_gen_term(t: SpecTerm, st: SpecGenState) -> Result<
    (Seq<char>, SpecGenState),
    SpecGeneratorError,
> {
    match t {
        SpecTerm::IntLit(tok) => Ok(
            (
                "\tmov rax, "@ + spec_token_text(tok) + "\n"@ + spec_push_text("rax"@),
                SpecGenState { stack: st.stack + 1, vars: st.vars },
            ),
        ),
        SpecTerm::Ident(tok) => {
            let name = spec_token_text(tok);
            match spec_lookup(st.vars, name) {
                None => Err(SpecGeneratorError::IdentifierNotFound(name)),
                Some(slot) => if slot >= st.stack {
                    Err(SpecGeneratorError::IdentifierNotFound(name))
                } else {
                    Ok(
                        (
                            spec_push_text(
                                "QWORD [rsp + "@ + spec_dec_str(
                                    ((st.stack - slot - 1) * 8) as nat,
                                ) + "]"@,
                            ),
                            SpecGenState { stack: st.stack + 1, vars: st.vars },
                        ),
                    )
                },
            }
        },
    }
}

/// Code generation for one expression. Both operands of an addition are
/// generated in order, each leaving one value pushed; the addition pops both,
/// adds them and pushes the sum.
pub open spec fn spec_gen_expr(e: SpecExpr, st: SpecGenState) -> Result<
    (Seq<char>, SpecGenState),
    SpecGeneratorError,
>
    decreases e,
{
    match e {
        SpecExpr::Term(t) => spec_gen_term(t, st),
        SpecExpr::Add(b) => match spec_gen_expr(*b.lhs, st) {
            Err(err) => Err(err),
            Ok((lhs_text, st1)) => match spec_gen_expr(*b.rhs, st1) {
                Err(err) => Err(err),
                Ok((rhs_text, st2)) => Ok(
                    (
                        lhs_text + rhs_text + spec_pop_text("rax"@) + spec_pop_text("rbx"@)
                            + "\tadd rax, rbx\n"@ + spec_push_text("rax"@),
                        SpecGenState { stack: (st2.stack - 1) as nat, vars: st2.vars },
                    ),
                ),
            },
        },
    }
}

/// Code generation for one statement. A `let` records its name at the
/// current height before generating the initializer, whose pushed result
/// becomes the variable's permanent cell. An `exit` pops the value into the
/// exit-status register and invokes the termination system call.
pub open spec fn spec_gen_statement(s: SpecStatement, st: SpecGenState) -> Result<
    (Seq<char>, SpecGenState),
    SpecGeneratorError,
> {
    match s {
        SpecStatement::End => Ok((spec_end_text(), st)),
        SpecStatement::Exit(e) => match spec_gen_expr(e, st) {
            Err(err) => Err(err),
            Ok((text, st1)) => Ok(
                (
                    text + "\tmov rax, 60\n"@ + spec_pop_text("rdi"@) + "\tsyscall\n"@,
                    SpecGenState { stack: (st1.stack - 1) as nat, vars: st1.vars },
                ),
            ),
        },
        SpecStatement::Let((tok, e)) => {
            let name = spec_token_text(tok);
            if spec_lookup(st.vars, name) is Some {
                Err(SpecGeneratorError::IdentifierInUse(name))
            } else {
                spec_gen_expr(
                    e,
                    SpecGenState { stack: st.stack, vars: st.vars.push((name, st.stack)) },
                )
            }
        },
    }
}

/// Code generation for a statement list, in source order.
pub open spec fn spec_gen_statements(stmts: Seq<SpecStatement>, st: SpecGenState) -> Result<
    (Seq<char>, SpecGenState),
    SpecGeneratorError,
>
    decreases stmts.len(),
{
    if stmts.len() == 0 {
        Ok((Seq::empty(), st))
    } else {
        match spec_gen_statement(stmts[0], st) {
            Err(err) => Err(err),
            Ok((text, st1)) => match spec_gen_statements(stmts.skip(1), st1) {
                Err(err) => Err(err),
                Ok((rest, st2)) => Ok((text + rest, st2)),
            },
        }
    }
}

/// The whole generation stage: the header, then every statement's code, from
/// an empty symbol table and height zero.
pub open spec fn spec_generate(p: SpecProgram) -> Result<Seq<char>, SpecGeneratorError> {
    match spec_gen_statements(
        p.statements,
        SpecGenState { stack: 0, vars: Seq::empty() },
    ) {
        Err(err) => Err(err),
        Ok((text, _)) => Ok(spec_header_text() + text),
    }
}

/// Successful expression generation raises the height by exactly one and
/// leaves the symbol table unchanged.
pub proof fn lemma_gen_expr_state(e: SpecExpr, st: SpecGenState)
    ensures
        spec_gen_expr(e, st) matches Ok((_, st1)) ==> st1.stack == st.stack + 1 && st1.vars
            == st.vars,
    decreases e,
{
    match e {
        SpecExpr::Term(_) => {},
        SpecExpr::Add(b) => {
            lemma_gen_expr_state(*b.lhs, st);
            match spec_gen_expr(*b.lhs, st) {
                Err(_) => {},
                Ok((_, st1)) => {
                    lemma_gen_expr_state(*b.rhs, st1);
                },
            }
        },
    }
}

/// Successful statement generation raises the height by no more than the
/// statement's push count.
pub proof fn lemma_gen_statement_state(s: SpecStatement, st: SpecGenState)
    ensures
        spec_gen_statement(s, st) matches Ok((_, st1)) ==> st1.stack <= st.stack
            + spec_statement_pushes(s),
{
    match s {
        SpecStatement::End => {},
        SpecStatement::Exit(e) => {
            lemma_gen_expr_state(e, st);
        },
        SpecStatement::Let((tok, e)) => {
            let name = spec_token_text(tok);
            lemma_gen_expr_state(
                e,
                SpecGenState { stack: st.stack, vars: st.vars.push((name, st.stack)) },
            );
            assert(spec_expr_pushes(e) >= 1) by {
                match e {
                    SpecExpr::Term(_) => {},
                    SpecExpr::Add(_) => {},
                }
            }
        },
    }
}

/// Re-declaring an identifier already bound earlier in the same program
/// fails with an identifier-in-use error, whatever the new initializer: a
/// binding is never silently shadowed.
pub proof fn lemma_redeclaration_fails(tok: SpecToken, e: SpecExpr, st: SpecGenState)
    requires
        spec_lookup(st.vars, spec_token_text(tok)) is Some,
    ensures
        spec_gen_statement(SpecStatement::Let((tok, e)), st) == Err::<
            (Seq<char>, SpecGenState),
            SpecGeneratorError,
        >(SpecGeneratorError::IdentifierInUse(spec_token_text(tok))),
{
}

/// Referencing an identifier that no symbol-table entry binds fails with an
/// identifier-not-found error.
pub proof fn lemma_unknown_identifier_fails(tok: SpecToken, st: SpecGenState)
    requires
        spec_lookup(st.vars, spec_token_text(tok)) is None,
    ensures
        spec_gen_term(SpecTerm::Ident(tok), st) == Err::<
            (Seq<char>, SpecGenState),
            SpecGeneratorError,
        >(SpecGeneratorError::IdentifierNotFound(spec_token_text(tok))),
{
}

/// A variable read resolves to the stack offset
/// `(current height - declaration-time height - 1) * 8` bytes from the
/// current stack top, recomputed against the height at the read.
pub proof fn lemma_variable_offset(tok: SpecToken, st: SpecGenState, slot: nat)
    requires
        spec_lookup(st.vars, spec_token_text(tok)) == Some(slot),
        slot < st.stack,
    ensures
        spec_gen_term(SpecTerm::Ident(tok), st) == Ok::<
            (Seq<char>, SpecGenState),
            SpecGeneratorError,
        >(
            (
                spec_push_text(
                    "QWORD [rsp + "@ + spec_dec_str(((st.stack - slot - 1) * 8) as nat) + "]"@,
                ),
                SpecGenState { stack: st.stack + 1, vars: st.vars },
            ),
        ),
{
}

/// The code generator: the virtual stack height and the symbol table, both
/// scoped to one compilation run.
pub struct Generator {
    stack_location: usize,
    variables: Vec<(String, usize)>,
}

impl View for Generator {
    type V = SpecGenState;

    closed spec fn view(&self) -> SpecGenState {
        SpecGenState {
            stack: self.stack_location as nat,
            vars: self.variables@.map_values(|p: (String, usize)| (p.0@, p.1 as nat)),
        }
    }
}

impl Generator {
    /// A fresh generator: height zero, no bindings.
    pub fn new() -> (g: Generator)
        ensures
            g@ == (SpecGenState { stack: 0, vars: Seq::<(Seq<char>, nat)>::empty() }),
    {
        let g = Generator { stack_location: 0, variables: Vec::new() };
        proof {
            assert(g@.vars =~= Seq::<(Seq<char>, nat)>::empty());
        }
        g
    }

    /// Emits a push of the given operand and counts the new stack slot.
    pub fn push(&mut self, register: &str) -> (r: String)
        requires
            old(self)@.stack < usize::MAX,
        ensures
            final(self)@.stack == old(self)@.stack + 1,
            final(self)@.vars == old(self)@.vars,
            r@ == spec_push_text(register@),
    {
        self.stack_location = self.stack_location + 1;
        String::from_str("\tpush ").concat(register).concat("\n")
    }

    /// Emits a pop into the given register and releases the top stack slot.
    pub fn pop(&mut self, register: &str) -> (r: String)
        requires
            old(self)@.stack >= 1,
        ensures
            final(self)@.stack == old(self)@.stack - 1,
            final(self)@.vars == old(self)@.vars,
            r@ == spec_pop_text(register@),
    {
        self.stack_location = self.stack_location - 1;
        String::from_str("\tpop ").concat(register).concat("\n")
    }

    /// The slot bound to a name, if any.
    fn lookup(&self, name: &String) -> (r: Option<usize>)
        ensures
            match r {
                Some(slot) => spec_lookup(self@.vars, name@) == Some(slot as nat),
                None => spec_lookup(self@.vars, name@) is None,
            },
    {
        let mut i: usize = 0;
        while i < self.variables.len()
            invariant
                i <= self.variables@.len(),
                self@.vars.len() == self.variables@.len(),
                spec_lookup(self@.vars, name@) == spec_lookup_from(self@.vars, name@, i as int),
            decreases self.variables@.len() - i,
        {
            proof {
                assert(self@.vars[i as int] == (self.variables@[i as int].0@, self.variables@[
                    i as int].1 as nat));
            }
            if self.variables[i].0 == *name {
                return Some(self.variables[i].1);
            }
            i += 1;
        }
        None
    }
}

impl NodeTerm {
    /// Lowers one term, as [`spec_gen_term`] describes.
    pub(crate) fn generate(&self, generator: &mut Generator) -> (r: Result<String, GeneratorError>)
        requires
            old(generator)@.stack < usize::MAX,
        ensures
            match r {
                Ok(s) => spec_gen_term(self@, old(generator)@) == Ok::<
                    (Seq<char>, SpecGenState),
                    SpecGeneratorError,
                >((s@, final(generator)@)),
                Err(e) => spec_gen_term(self@, old(generator)@) == Err::<
                    (Seq<char>, SpecGenState),
                    SpecGeneratorError,
                >(e@),
            },
    {
        match self {
            NodeTerm::IntLit(t) => {
                let text = t.to_string();
                let mut code = String::from_str("\tmov rax, ").concat(text.as_str()).concat("\n");
                let push_s = generator.push("rax");
                code.append(push_s.as_str());
                Ok(code)
            },
            NodeTerm::Ident(t) => {
                let name = t.to_string();
                match generator.lookup(&name) {
                    None => Err(GeneratorError::IdentifierNotFound(name)),
                    Some(slot) => {
                        if slot >= generator.stack_location {
                            return Err(GeneratorError::IdentifierNotFound(name));
                        }
                        let diff = generator.stack_location - slot - 1;
                        proof {
                            assert(diff as u128 * 8 <= u128::MAX);
                        }
                        let off: u128 = (diff as u128) * 8;
                        let num = u128_to_string(off);
                        let reg = String::from_str("QWORD [rsp + ").concat(num.as_str()).concat(
                            "]",
                        );
                        let code = generator.push(reg.as_str());
                        Ok(code)
                    },
                }
            },
        }
    }
}

impl NodeBinExpr {
    /// Lowers one binary expression, as [`spec_gen_expr`] describes: both
    /// operands in order, then pop, pop, add, push.
    pub(crate) fn generate(&self, generator: &mut Generator) -> (r: Result<
        String,
        GeneratorError,
    >)
        requires
            old(generator)@.stack + spec_expr_pushes(self@) <= usize::MAX,
        ensures
            match r {
                Ok(s) => spec_gen_expr(self@, old(generator)@) == Ok::<
                    (Seq<char>, SpecGenState),
                    SpecGeneratorError,
                >((s@, final(generator)@)),
                Err(e) => spec_gen_expr(self@, old(generator)@) == Err::<
                    (Seq<char>, SpecGenState),
                    SpecGeneratorError,
                >(e@),
            },
        decreases *self,
    {
        let ghost st0 = generator@;
        match self {
            NodeBinExpr::Add(bin_expr) => {
                let ghost lv = bin_expr.lhs@;
                let ghost rv = bin_expr.rhs@;
                proof {
                    assert(self@ == SpecExpr::Add(
                        SpecBinExpr {
                            lhs: Box::new(lv),
                            rhs: Box::new(rv),
                            precedence: bin_expr.precedence as nat,
                        },
                    ));
                    assert(spec_expr_pushes(self@) == spec_expr_pushes(lv) + spec_expr_pushes(rv)
                        + 1);
                    assert(spec_expr_pushes(rv) >= 1) by {
                        match rv {
                            SpecExpr::Term(_) => {},
                            SpecExpr::Add(_) => {},
                        }
                    }
                }
                let mut code = match bin_expr.lhs.generate(generator) {
                    Ok(s) => s,
                    Err(e) => {
                        return Err(e);
                    },
                };
                proof {
                    lemma_gen_expr_state(lv, st0);
                }
                let rhs_text = match bin_expr.rhs.generate(generator) {
                    Ok(s) => s,
                    Err(e) => {
                        return Err(e);
                    },
                };
                proof {
                    lemma_gen_expr_state(rv, SpecGenState { stack: st0.stack + 1, vars: st0.vars });
                }
                code.append(rhs_text.as_str());
                let pop_rax = generator.pop("rax");
                code.append(pop_rax.as_str());
                let pop_rbx = generator.pop("rbx");
                code.append(pop_rbx.as_str());
                code.append("\tadd rax, rbx\n");
                let push_s = generator.push("rax");
                code.append(push_s.as_str());
                Ok(code)
            },
        }
    }
}

impl NodeExpr {
    /// Lowers one expression, as [`spec_gen_expr`] describes.
    pub(crate) fn generate(&self, generator: &mut Generator) -> (r: Result<String, GeneratorError>)
        requires
            old(generator)@.stack + spec_expr_pushes(self@) <= usize::MAX,
        ensures
            match r {
                Ok(s) => spec_gen_expr(self@, old(generator)@) == Ok::<
                    (Seq<char>, SpecGenState),
                    SpecGeneratorError,
                >((s@, final(generator)@)),
                Err(e) => spec_gen_expr(self@, old(generator)@) == Err::<
                    (Seq<char>, SpecGenState),
                    SpecGeneratorError,
                >(e@),
            },
        decreases *self,
    {
        match self {
            NodeExpr::Term(t) => t.generate(generator),
            NodeExpr::BinExpr(b) => {
                proof {
                    assert(self@ == b@);
                }
                b.generate(generator)
            },
        }
    }
}

impl NodeStatement {
    /// Lowers one statement, as [`spec_gen_statement`] describes.
    pub(crate) fn generate(&self, generator: &mut Generator) -> (r: Result<
        String,
        GeneratorError,
    >)
        requires
            old(generator)@.stack + spec_statement_pushes(self@) <= usize::MAX,
        ensures
            match r {
                Ok(s) => spec_gen_statement(self@, old(generator)@) == Ok::<
                    (Seq<char>, SpecGenState),
                    SpecGeneratorError,
                >((s@, final(generator)@)),
                Err(e) => spec_gen_statement(self@, old(generator)@) == Err::<
                    (Seq<char>, SpecGenState),
                    SpecGeneratorError,
                >(e@),
            },
    {
        let ghost st0 = generator@;
        match self {
            NodeStatement::End => Ok(String::from_str("\tmov rax, 60\n\tmov rdi, 0\n\tsyscall\n")),
            NodeStatement::Exit(expr) => {
                let ghost ev = expr@;
                let mut code = match expr.generate(generator) {
                    Ok(s) => s,
                    Err(e) => {
                        return Err(e);
                    },
                };
                proof {
                    lemma_gen_expr_state(ev, st0);
                }
                code.append("\tmov rax, 60\n");
                let pop_s = generator.pop("rdi");
                code.append(pop_s.as_str());
                code.append("\tsyscall\n");
                Ok(code)
            },
            NodeStatement::Let((ident, expr)) => {
                let name = ident.to_string();
                let ghost nv = name@;
                match generator.lookup(&name) {
                    Some(_) => {
                        return Err(GeneratorError::IdentifierInUse(name));
                    },
                    None => {},
                }
                let slot = generator.stack_location;
                generator.variables.push((name, slot));
                proof {
                    assert(generator@.vars =~= st0.vars.push((nv, st0.stack)));
                    assert(generator@.stack == st0.stack);
                }
                expr.generate(generator)
            },
        }
    }
}

impl NodeProgram {
    /// The whole generation stage: emits the program-entry header, then every
    /// statement's instruction block in source order, as [`spec_generate`]
    /// describes. The push count fits the machine because every push comes
    /// from a source token.
    pub fn generate(&self) -> (r: Result<String, GeneratorError>)
        requires
            spec_program_pushes(self@.statements) <= usize::MAX,
        ensures
            match r {
                Ok(s) => spec_generate(self@) == Ok::<Seq<char>, SpecGeneratorError>(s@),
                Err(e) => spec_generate(self@) == Err::<Seq<char>, SpecGeneratorError>(e@),
            },
    {
        let ghost sv = self@.statements;
        let ghost st0 = SpecGenState { stack: 0, vars: Seq::<(Seq<char>, nat)>::empty() };
        let mut generator = Generator::new();
        let mut body = String::new();
        let mut i: usize = 0;
        proof {
            assert(sv.skip(0) =~= sv);
        }
        while i < self.statements.len()
            invariant
                i <= self.statements@.len(),
                sv == self@.statements,
                st0 == (SpecGenState { stack: 0, vars: Seq::<(Seq<char>, nat)>::empty() }),
                sv.len() == self.statements@.len(),
                generator@.stack + spec_program_pushes(sv.skip(i as int)) <= usize::MAX,
                match spec_gen_statements(sv.skip(i as int), generator@) {
                    Ok((rest, stf)) => spec_gen_statements(sv, st0) == Ok::<
                        (Seq<char>, SpecGenState),
                        SpecGeneratorError,
                    >((body@ + rest, stf)),
                    Err(e) => spec_gen_statements(sv, st0) == Err::<
                        (Seq<char>, SpecGenState),
                        SpecGeneratorError,
                    >(e),
                },
            decreases self.statements@.len() - i,
        {
            let ghost pre_gen = generator@;
            proof {
                assert(sv[i as int] == self.statements@[i as int]@);
                assert(sv.skip(i as int)[0] == sv[i as int]);
                assert(sv.skip(i as int).skip(1) =~= sv.skip(i + 1));
                assert(spec_program_pushes(sv.skip(i as int)) == spec_statement_pushes(
                    sv[i as int],
                ) + spec_program_pushes(sv.skip(i + 1)));
            }
            let stmt_text = match self.statements[i].generate(&mut generator) {
                Ok(s) => s,
                Err(e) => {
                    proof {
                        assert(spec_gen_statements(sv.skip(i as int), pre_gen) == Err::<
                            (Seq<char>, SpecGenState),
                            SpecGeneratorError,
                        >(e@));
                        assert(spec_gen_statements(sv, st0) == Err::<
                            (Seq<char>, SpecGenState),
                            SpecGeneratorError,
                        >(e@));
                        assert(spec_gen_statements(
                            self@.statements,
                            SpecGenState { stack: 0, vars: Seq::empty() },
                        ) == Err::<(Seq<char>, SpecGenState), SpecGeneratorError>(e@));
                        assert(spec_generate(self@) == Err::<Seq<char>, SpecGeneratorError>(e@));
                    }
                    return Err(e);
                },
            };
            proof {
                lemma_gen_statement_state(sv[i as int], pre_gen);
            }
            let ghost pre_body = body@;
            body.append(stmt_text.as_str());
            proof {
                match spec_gen_statements(sv.skip(i + 1), generator@) {
                    Ok((rest2, _)) => {
                        assert((pre_body + stmt_text@) + rest2 =~= pre_body + (stmt_text@
                            + rest2));
                    },
                    Err(_) => {},
                }
            }
            i += 1;
        }
        proof {
            assert(sv.skip(sv.len() as int) =~= Seq::<SpecStatement>::empty());
            assert(body@ + Seq::<char>::empty() =~= body@);
        }
        Ok(String::from_str("global _start\n_start:\n").concat(body.as_str()))
    }
}

} // verus!
