//! Syntactic analysis: a recursive-descent parser that builds a program tree
//! from the token sequence, with one speculative lookahead to decide between
//! a binary expression and a bare term.

use crate::tokenizer::{
    spec_keyword_name, spec_token_text, tokens_view, Keywords, Operators, SpecToken, Token,
};
use vstd::prelude::*;

verus! {

/// A syntactic error.
#[derive(Debug, PartialEq, Eq)]
pub enum ParseError {
    /// A token that no grammar rule can dispatch.
    Parse(String),
    /// A required token is missing at a specific grammar position; the
    /// message names what was expected.
    ExpectedToken(String),
}

/// The mathematical value of a [`ParseError`].
pub enum SpecParseError {
    Parse(Seq<char>),
    ExpectedToken(Seq<char>),
}

impl View for ParseError {
    type V = SpecParseError;

    open spec fn view(&self) -> SpecParseError {
        match self {
            ParseError::Parse(s) => SpecParseError::Parse(s@),
            ParseError::ExpectedToken(s) => SpecParseError::ExpectedToken(s@),
        }
    }
}

/// A term: an integer literal or an identifier, carrying its token.
#[derive(Debug, PartialEq, Eq)]
pub enum NodeTerm {
    IntLit(Token),
    Ident(Token),
}

/// The mathematical value of a [`NodeTerm`].
pub enum SpecTerm {
    IntLit(SpecToken),
    Ident(SpecToken),
}

impl View for NodeTerm {
    type V = SpecTerm;

    open spec fn view(&self) -> SpecTerm {
        match self {
            NodeTerm::IntLit(t) => SpecTerm::IntLit(t@),
            NodeTerm::Ident(t) => SpecTerm::Ident(t@),
        }
    }
}

/// A binary expression: two sub-expressions and a precedence tag. Only one
/// precedence tier exists, so the tag is always zero; it is kept for future
/// extension and unused in code generation.
#[derive(Debug, PartialEq, Eq)]
pub struct BinExpr {
    pub lhs: Box<NodeExpr>,
    pub rhs: Box<NodeExpr>,
    pub precedence: usize,
}

/// The lowered binary operations. Only addition has a lowering rule.
#[derive(Debug, PartialEq, Eq)]
pub enum NodeBinExpr {
    Add(BinExpr),
}

/// An expression: a bare term or a binary expression.
#[derive(Debug, PartialEq, Eq)]
pub enum NodeExpr {
    Term(NodeTerm),
    BinExpr(NodeBinExpr),
}

/// The mathematical value of a [`BinExpr`].
pub struct SpecBinExpr {
    pub lhs: Box<SpecExpr>,
    pub rhs: Box<SpecExpr>,
    pub precedence: nat,
}

/// The mathematical value of a [`NodeExpr`] or a [`NodeBinExpr`].
pub enum SpecExpr {
    Term(SpecTerm),
    Add(SpecBinExpr),
}

/// The view of an expression tree.
pub open spec fn spec_expr_view(e: NodeExpr) -> SpecExpr
    decreases e,
{
    match e {
        NodeExpr::Term(t) => SpecExpr::Term(t@),
        NodeExpr::BinExpr(NodeBinExpr::Add(b)) => SpecExpr::Add(
            SpecBinExpr {
                lhs: Box::new(spec_expr_view(*b.lhs)),
                rhs: Box::new(spec_expr_view(*b.rhs)),
                precedence: b.precedence as nat,
            },
        ),
    }
}

impl View for NodeExpr {
    type V = SpecExpr;

    open spec fn view(&self) -> SpecExpr {
        spec_expr_view(*self)
    }
}

impl View for NodeBinExpr {
    type V = SpecExpr;

    open spec fn view(&self) -> SpecExpr {
        spec_expr_view(NodeExpr::BinExpr(*self))
    }
}

/// A statement: a binding, an explicit exit, or the `End` sentinel that
/// closes every statement list.
#[derive(Debug, PartialEq, Eq)]
pub enum NodeStatement {
    Let((Token, NodeExpr)),
    Exit(NodeExpr),
    End,
}

/// The mathematical value of a [`NodeStatement`].
pub enum SpecStatement {
    Let((SpecToken, SpecExpr)),
    Exit(SpecExpr),
    End,
}

impl View for NodeStatement {
    type V = SpecStatement;

    open spec fn view(&self) -> SpecStatement {
        match self {
            NodeStatement::Let((t, e)) => SpecStatement::Let((t@, e@)),
            NodeStatement::Exit(e) => SpecStatement::Exit(e@),
            NodeStatement::End => SpecStatement::End,
        }
    }
}

/// A whole program: its statements in source order, ending with `End`.
#[derive(Debug, PartialEq, Eq)]
pub struct NodeProgram {
    pub statements: Vec<NodeStatement>,
}

/// The mathematical value of a [`NodeProgram`].
pub struct SpecProgram {
    pub statements: Seq<SpecStatement>,
}

/// The view of a statement list.
pub open spec fn stmts_view(ss: Seq<NodeStatement>) -> Seq<SpecStatement> {
    ss.map_values(|s: NodeStatement| s@)
}

impl View for NodeProgram {
    type V = SpecProgram;

    open spec fn view(&self) -> SpecProgram {
        SpecProgram { statements: stmts_view(self.statements@) }
    }
}

/// Parsing one term at position `pos`: an integer literal or identifier
/// token, consumed as-is.
pub open spec fn spec_parse_term(toks: Seq<SpecToken>, pos: int) -> Result<
    (SpecTerm, int),
    SpecParseError,
> {
    if 0 <= pos < toks.len() {
        match toks[pos] {
            SpecToken::IntLit(_) => Ok((SpecTerm::IntLit(toks[pos]), pos + 1)),
            SpecToken::Ident(_) => Ok((SpecTerm::Ident(toks[pos]), pos + 1)),
            SpecToken::Keyword(_) => Err(
                SpecParseError::ExpectedToken("Identifier or literal"@),
            ),
        }
    } else {
        Err(SpecParseError::ExpectedToken("Identifier or literal"@))
    }
}

/// The speculative attempt at a binary expression: a term, then an operator,
/// then a recursively parsed right-hand expression. `Ok(None)` means the
/// position holds a bare term followed by a statement delimiter (or nothing),
/// and no token is committed.
pub open spec fn spec_parse_bin_expr(toks: Seq<SpecToken>, pos: int) -> Result<
    Option<(SpecExpr, int)>,
    SpecParseError,
>
    decreases toks.len() - pos, 0int,
{
    match spec_parse_term(toks, pos) {
        Err(e) => Err(e),
        Ok((lhs, _)) => {
            let p1 = pos + 1;
            if p1 >= toks.len() {
                Ok(None)
            } else {
                match toks[p1] {
                    SpecToken::Keyword(Keywords::Operator(Operators::Plus)) => match
                    spec_parse_expr(toks, p1 + 1) {
                        Err(e) => Err(e),
                        Ok((rhs, p2)) => Ok(
                            Some(
                                (
                                    SpecExpr::Add(
                                        SpecBinExpr {
                                            lhs: Box::new(SpecExpr::Term(lhs)),
                                            rhs: Box::new(rhs),
                                            precedence: 0,
                                        },
                                    ),
                                    p2,
                                ),
                            ),
                        ),
                    },
                    SpecToken::Keyword(Keywords::Semi) => Ok(None),
                    SpecToken::Keyword(Keywords::Assign) => Ok(None),
                    SpecToken::Keyword(Keywords::OpenParenthesis) => Ok(None),
                    SpecToken::Keyword(Keywords::CloseParenthesis) => Ok(None),
                    SpecToken::Keyword(kw) => Err(
                        SpecParseError::Parse("Unexpected keyword: "@ + spec_keyword_name(kw)),
                    ),
                    t => Err(
                        SpecParseError::Parse("Unexpected token: "@ + spec_token_text(t)),
                    ),
                }
            }
        },
    }
}

/// Parsing one expression: the binary attempt if it commits, else a bare
/// term re-parsed from the same position.
pub open spec fn spec_parse_expr(toks: Seq<SpecToken>, pos: int) -> Result<
    (SpecExpr, int),
    SpecParseError,
>
    decreases toks.len() - pos, 1int,
{
    match spec_parse_bin_expr(toks, pos) {
        Err(e) => Err(e),
        Ok(Some((e, p2))) => Ok((e, p2)),
        Ok(None) => match spec_parse_term(toks, pos) {
            Err(e) => Err(e),
            Ok((t, p1)) => Ok((SpecExpr::Term(t), p1)),
        },
    }
}

/// Parsing an exit statement, after its `exit` keyword has been consumed:
/// `'(' Expr ')' ';'`.
pub open spec fn spec_parse_exit(toks: Seq<SpecToken>, pos: int) -> Result<
    (SpecStatement, int),
    SpecParseError,
> {
    if 0 <= pos < toks.len() && toks[pos] == SpecToken::Keyword(Keywords::OpenParenthesis) {
        match spec_parse_expr(toks, pos + 1) {
            Err(e) => Err(e),
            Ok((e, p2)) => if p2 < toks.len() && toks[p2] == SpecToken::Keyword(
                Keywords::CloseParenthesis,
            ) {
                if p2 + 1 < toks.len() && toks[p2 + 1] == SpecToken::Keyword(Keywords::Semi) {
                    Ok((SpecStatement::Exit(e), p2 + 2))
                } else {
                    Err(SpecParseError::ExpectedToken(";"@))
                }
            } else {
                Err(SpecParseError::ExpectedToken(")"@))
            },
        }
    } else {
        Err(SpecParseError::ExpectedToken("("@))
    }
}

/// Parsing a let statement, after its `let` keyword has been consumed:
/// `Identifier '=' Expr ';'`.
pub open spec fn spec_parse_let(toks: Seq<SpecToken>, pos: int) -> Result<
    (SpecStatement, int),
    SpecParseError,
> {
    if 0 <= pos < toks.len() && toks[pos] is Ident {
        let ident = toks[pos];
        if pos + 1 < toks.len() && toks[pos + 1] == SpecToken::Keyword(Keywords::Assign) {
            match spec_parse_expr(toks, pos + 2) {
                Err(e) => Err(e),
                Ok((e, p2)) => if p2 < toks.len() && toks[p2] == SpecToken::Keyword(
                    Keywords::Semi,
                ) {
                    Ok((SpecStatement::Let((ident, e)), p2 + 1))
                } else {
                    Err(SpecParseError::ExpectedToken(";"@))
                },
            }
        } else {
            Err(SpecParseError::ExpectedToken("="@))
        }
    } else {
        Err(SpecParseError::ExpectedToken("Ident"@))
    }
}

/// Statement dispatch on the first token: `exit` and `let` route to their
/// rules, exhaustion yields the `End` sentinel, anything else is a hard
/// error.
pub open spec fn spec_parse_statement(toks: Seq<SpecToken>, pos: int) -> Result<
    (SpecStatement, int),
    SpecParseError,
> {
    if 0 <= pos < toks.len() {
        match toks[pos] {
            SpecToken::Keyword(Keywords::Exit) => spec_parse_exit(toks, pos + 1),
            SpecToken::Keyword(Keywords::Let) => spec_parse_let(toks, pos + 1),
            SpecToken::Keyword(kw) => Err(
                SpecParseError::Parse("Unknown Keyword: "@ + spec_keyword_name(kw)),
            ),
            t => Err(SpecParseError::Parse("Unknown Token: "@ + spec_token_text(t))),
        }
    } else {
        Ok((SpecStatement::End, pos))
    }
}

/// Parsing the statement list from `pos` to exhaustion. A non-`End`
/// statement always consumes at least one token, so the guard on `p2` never
/// fails; its alternative branch is unreachable.
pub open spec fn spec_parse_program(toks: Seq<SpecToken>, pos: int) -> Result<
    Seq<SpecStatement>,
    SpecParseError,
>
    decreases toks.len() - pos,
{
    match spec_parse_statement(toks, pos) {
        Err(e) => Err(e),
        Ok((stmt, p2)) => if stmt is End {
            Ok(seq![SpecStatement::End])
        } else if pos < p2 <= toks.len() {
            match spec_parse_program(toks, p2) {
                Err(e) => Err(e),
                Ok(rest) => Ok(seq![stmt] + rest),
            }
        } else {
            Ok(seq![stmt, SpecStatement::End])
        },
    }
}

/// The whole syntactic stage: the statement list parsed from the start of
/// the token sequence.
pub open spec fn spec_parse(toks: Seq<SpecToken>) -> Result<SpecProgram, SpecParseError> {
    match spec_parse_program(toks, 0) {
        Err(e) => Err(e),
        Ok(stmts) => Ok(SpecProgram { statements: stmts }),
    }
}

/// How many values the generated code of an expression pushes: one per term
/// and one per addition.
pub open spec fn spec_expr_pushes(e: SpecExpr) -> nat
    decreases e,
{
    match e {
        SpecExpr::Term(_) => 1,
        SpecExpr::Add(b) => spec_expr_pushes(*b.lhs) + spec_expr_pushes(*b.rhs) + 1,
    }
}

/// How many values the generated code of a statement pushes.
pub open spec fn spec_statement_pushes(s: SpecStatement) -> nat {
    match s {
        SpecStatement::Let((_, e)) => spec_expr_pushes(e),
        SpecStatement::Exit(e) => spec_expr_pushes(e),
        SpecStatement::End => 0,
    }
}

/// How many values the generated code of a statement list pushes in all.
pub open spec fn spec_program_pushes(stmts: Seq<SpecStatement>) -> nat
    decreases stmts.len(),
{
    if stmts.len() == 0 {
        0
    } else {
        spec_statement_pushes(stmts[0]) + spec_program_pushes(stmts.skip(1))
    }
}

/// A successfully parsed binary expression consumes at least its two leading
/// tokens, never runs past the input, and pushes no more values than the
/// tokens it consumed.
pub proof fn lemma_parse_bin_expr_bounds(toks: Seq<SpecToken>, pos: int)
    requires
        0 <= pos,
    ensures
        spec_parse_bin_expr(toks, pos) matches Ok(Some((e, p))) ==> pos + 2 < p <= toks.len()
            && spec_expr_pushes(e) <= p - pos,
    decreases toks.len() - pos, 0int,
{
    match spec_parse_term(toks, pos) {
        Err(_) => {},
        Ok((lhs, _)) => {
            if pos + 1 < toks.len() && toks[pos + 1] == SpecToken::Keyword(
                Keywords::Operator(Operators::Plus),
            ) {
                lemma_parse_expr_bounds(toks, pos + 2);
                match spec_parse_expr(toks, pos + 2) {
                    Err(_) => {},
                    Ok((rhs, p2)) => {
                        let b = SpecBinExpr {
                            lhs: Box::new(SpecExpr::Term(lhs)),
                            rhs: Box::new(rhs),
                            precedence: 0,
                        };
                        assert(*b.lhs == SpecExpr::Term(lhs));
                        assert(*b.rhs == rhs);
                        assert(spec_expr_pushes(SpecExpr::Term(lhs)) == 1);
                        assert(spec_expr_pushes(SpecExpr::Add(b)) == 2 + spec_expr_pushes(rhs));
                    },
                }
            }
        },
    }
}

/// A successfully parsed expression consumes at least one token, never runs
/// past the input, and pushes no more values than the tokens it consumed.
pub proof fn lemma_parse_expr_bounds(toks: Seq<SpecToken>, pos: int)
    requires
        0 <= pos,
    ensures
        spec_parse_expr(toks, pos) matches Ok((e, p)) ==> pos < p <= toks.len()
            && spec_expr_pushes(e) <= p - pos,
    decreases toks.len() - pos, 1int,
{
    lemma_parse_bin_expr_bounds(toks, pos);
}

/// A successfully parsed statement other than `End` consumes at least one
/// token and never runs past the input; `End` consumes nothing. Either way
/// it pushes no more values than the tokens it consumed.
pub proof fn lemma_parse_statement_bounds(toks: Seq<SpecToken>, pos: int)
    requires
        0 <= pos,
    ensures
        spec_parse_statement(toks, pos) matches Ok((s, p)) ==> {
            &&& s is End ==> p == pos
            &&& !(s is End) ==> pos < p <= toks.len()
            &&& spec_statement_pushes(s) <= p - pos
        },
{
    if 0 <= pos < toks.len() {
        match toks[pos] {
            SpecToken::Keyword(Keywords::Exit) => {
                lemma_parse_expr_bounds(toks, pos + 2);
            },
            SpecToken::Keyword(Keywords::Let) => {
                lemma_parse_expr_bounds(toks, pos + 3);
            },
            _ => {},
        }
    }
}

/// A successfully parsed statement list pushes no more values than there are
/// tokens left.
pub proof fn lemma_parse_program_pushes(toks: Seq<SpecToken>, pos: int)
    requires
        0 <= pos <= toks.len(),
    ensures
        spec_parse_program(toks, pos) matches Ok(stmts) ==> spec_program_pushes(stmts)
            <= toks.len() - pos,
    decreases toks.len() - pos,
{
    lemma_parse_statement_bounds(toks, pos);
    match spec_parse_statement(toks, pos) {
        Err(_) => {},
        Ok((stmt, p2)) => {
            if stmt is End {
                assert(seq![SpecStatement::End].skip(1) =~= Seq::<SpecStatement>::empty());
                assert(spec_program_pushes(Seq::<SpecStatement>::empty()) == 0);
                assert(spec_statement_pushes(SpecStatement::End) == 0);
                assert(spec_program_pushes(seq![SpecStatement::End]) == 0);
            } else if pos < p2 <= toks.len() {
                lemma_parse_program_pushes(toks, p2);
                match spec_parse_program(toks, p2) {
                    Err(_) => {},
                    Ok(rest) => {
                        assert((seq![stmt] + rest).skip(1) =~= rest);
                        assert((seq![stmt] + rest)[0] == stmt);
                        assert(spec_program_pushes(seq![stmt] + rest) == spec_statement_pushes(
                            stmt,
                        ) + spec_program_pushes(rest));
                    },
                }
            }
        },
    }
}

/// The message of an unexpected keyword after a term.
fn unexpected_keyword_msg(kw: Keywords) -> (r: String)
    ensures
        r@ == "Unexpected keyword: "@ + spec_keyword_name(kw),
{
    String::from_str("Unexpected keyword: ").concat(crate::tokenizer::keyword_name(kw))
}

/// The message of an unexpected non-keyword token after a term.
fn unexpected_token_msg(t: &Token) -> (r: String)
    ensures
        r@ == "Unexpected token: "@ + spec_token_text(t@),
{
    let text = t.to_string();
    String::from_str("Unexpected token: ").concat(text.as_str())
}

/// The message of a keyword that no statement rule dispatches.
fn unknown_keyword_msg(kw: Keywords) -> (r: String)
    ensures
        r@ == "Unknown Keyword: "@ + spec_keyword_name(kw),
{
    String::from_str("Unknown Keyword: ").concat(crate::tokenizer::keyword_name(kw))
}

/// The message of a non-keyword token in statement position.
fn unknown_token_msg(t: &Token) -> (r: String)
    ensures
        r@ == "Unknown Token: "@ + spec_token_text(t@),
{
    let text = t.to_string();
    String::from_str("Unknown Token: ").concat(text.as_str())
}

/// Parses one term, as [`spec_parse_term`] describes.
fn parse_term(tokens: &Vec<Token>, pos: usize) -> (r: Result<(NodeTerm, usize), ParseError>)
    ensures
        match r {
            Ok((t, p)) => spec_parse_term(tokens_view(tokens@), pos as int) == Ok::<
                (SpecTerm, int),
                SpecParseError,
            >((t@, p as int)),
            Err(e) => spec_parse_term(tokens_view(tokens@), pos as int) == Err::<
                (SpecTerm, int),
                SpecParseError,
            >(e@),
        },
{
    proof {
        if pos < tokens@.len() {
            assert(tokens_view(tokens@)[pos as int] == tokens@[pos as int]@);
        }
    }
    if pos < tokens.len() {
        match &tokens[pos] {
            Token::IntLit(_) => Ok((NodeTerm::IntLit(tokens[pos].duplicate()), pos + 1)),
            Token::Ident(_) => Ok((NodeTerm::Ident(tokens[pos].duplicate()), pos + 1)),
            Token::Keyword(_) => Err(
                ParseError::ExpectedToken(String::from_str("Identifier or literal")),
            ),
        }
    } else {
        Err(ParseError::ExpectedToken(String::from_str("Identifier or literal")))
    }
}

/// The speculative binary-expression attempt, as [`spec_parse_bin_expr`]
/// describes: `Ok(None)` commits nothing and the caller re-parses a bare
/// term.
fn parse_bin_expr(tokens: &Vec<Token>, pos: usize) -> (r: Result<
    Option<(NodeBinExpr, usize)>,
    ParseError,
>)
    ensures
        match r {
            Ok(Some((b, p))) => spec_parse_bin_expr(tokens_view(tokens@), pos as int) == Ok::<
                Option<(SpecExpr, int)>,
                SpecParseError,
            >(Some((b@, p as int))),
            Ok(None) => spec_parse_bin_expr(tokens_view(tokens@), pos as int) == Ok::<
                Option<(SpecExpr, int)>,
                SpecParseError,
            >(None),
            Err(e) => spec_parse_bin_expr(tokens_view(tokens@), pos as int) == Err::<
                Option<(SpecExpr, int)>,
                SpecParseError,
            >(e@),
        },
    decreases tokens@.len() - pos, 0int,
{
    let ghost toks = tokens_view(tokens@);
    let (lhs, p1) = match parse_term(tokens, pos) {
        Ok(v) => v,
        Err(e) => {
            return Err(e);
        },
    };
    if p1 >= tokens.len() {
        return Ok(None);
    }
    proof {
        assert(toks[p1 as int] == tokens@[p1 as int]@);
    }
    match &tokens[p1] {
        Token::Keyword(Keywords::Operator(op)) => {
            match parse_expr(tokens, p1 + 1) {
                Err(e) => Err(e),
                Ok((rhs, p2)) => match op {
                    Operators::Plus => {
                        let ghost lv = lhs@;
                        let ghost rv = rhs@;
                        let lhs_box = Box::new(NodeExpr::Term(lhs));
                        let rhs_box = Box::new(rhs);
                        let ghost lbv = *lhs_box;
                        let ghost rbv = *rhs_box;
                        proof {
                            assert(spec_expr_view(lbv) == SpecExpr::Term(lv));
                            assert(spec_expr_view(rbv) == rv);
                        }
                        let node = NodeBinExpr::Add(
                            BinExpr { lhs: lhs_box, rhs: rhs_box, precedence: 0 },
                        );
                        proof {
                            assert(node@ == SpecExpr::Add(
                                SpecBinExpr {
                                    lhs: Box::new(SpecExpr::Term(lv)),
                                    rhs: Box::new(rv),
                                    precedence: 0,
                                },
                            ));
                        }
                        Ok(Some((node, p2)))
                    },
                },
            }
        },
        Token::Keyword(Keywords::Semi) => Ok(None),
        Token::Keyword(Keywords::Assign) => Ok(None),
        Token::Keyword(Keywords::OpenParenthesis) => Ok(None),
        Token::Keyword(Keywords::CloseParenthesis) => Ok(None),
        Token::Keyword(kw) => Err(ParseError::Parse(unexpected_keyword_msg(*kw))),
        t => Err(ParseError::Parse(unexpected_token_msg(t))),
    }
}

/// Parses one expression, as [`spec_parse_expr`] describes.
fn parse_expr(tokens: &Vec<Token>, pos: usize) -> (r: Result<(NodeExpr, usize), ParseError>)
    ensures
        match r {
            Ok((e, p)) => spec_parse_expr(tokens_view(tokens@), pos as int) == Ok::<
                (SpecExpr, int),
                SpecParseError,
            >((e@, p as int)),
            Err(e) => spec_parse_expr(tokens_view(tokens@), pos as int) == Err::<
                (SpecExpr, int),
                SpecParseError,
            >(e@),
        },
    decreases tokens@.len() - pos, 1int,
{
    match parse_bin_expr(tokens, pos) {
        Err(e) => Err(e),
        Ok(Some((b, p2))) => Ok((NodeExpr::BinExpr(b), p2)),
        Ok(None) => match parse_term(tokens, pos) {
            Err(e) => Err(e),
            Ok((t, p1)) => Ok((NodeExpr::Term(t), p1)),
        },
    }
}

/// Parses an exit statement after its keyword, as [`spec_parse_exit`]
/// describes.
fn parse_exit(tokens: &Vec<Token>, pos: usize) -> (r: Result<(NodeStatement, usize), ParseError>)
    ensures
        match r {
            Ok((s, p)) => spec_parse_exit(tokens_view(tokens@), pos as int) == Ok::<
                (SpecStatement, int),
                SpecParseError,
            >((s@, p as int)),
            Err(e) => spec_parse_exit(tokens_view(tokens@), pos as int) == Err::<
                (SpecStatement, int),
                SpecParseError,
            >(e@),
        },
{
    let ghost toks = tokens_view(tokens@);
    proof {
        if pos < tokens@.len() {
            assert(toks[pos as int] == tokens@[pos as int]@);
        }
    }
    let open_ok = pos < tokens.len() && matches!(
        &tokens[pos],
        Token::Keyword(Keywords::OpenParenthesis)
    );
    if !open_ok {
        return Err(ParseError::ExpectedToken(String::from_str("(")));
    }
    let (expr, p2) = match parse_expr(tokens, pos + 1) {
        Ok(v) => v,
        Err(e) => {
            return Err(e);
        },
    };
    proof {
        if p2 < tokens@.len() {
            assert(toks[p2 as int] == tokens@[p2 as int]@);
        }
    }
    let close_ok = p2 < tokens.len() && matches!(
        &tokens[p2],
        Token::Keyword(Keywords::CloseParenthesis)
    );
    if !close_ok {
        return Err(ParseError::ExpectedToken(String::from_str(")")));
    }
    proof {
        if p2 + 1 < tokens@.len() {
            assert(toks[p2 + 1] == tokens@[p2 + 1]@);
        }
    }
    let semi_ok = p2 + 1 < tokens.len() && matches!(
        &tokens[p2 + 1],
        Token::Keyword(Keywords::Semi)
    );
    if !semi_ok {
        return Err(ParseError::ExpectedToken(String::from_str(";")));
    }
    Ok((NodeStatement::Exit(expr), p2 + 2))
}

/// Parses a let statement after its keyword, as [`spec_parse_let`]
/// describes.
fn parse_let(tokens: &Vec<Token>, pos: usize) -> (r: Result<(NodeStatement, usize), ParseError>)
    ensures
        match r {
            Ok((s, p)) => spec_parse_let(tokens_view(tokens@), pos as int) == Ok::<
                (SpecStatement, int),
                SpecParseError,
            >((s@, p as int)),
            Err(e) => spec_parse_let(tokens_view(tokens@), pos as int) == Err::<
                (SpecStatement, int),
                SpecParseError,
            >(e@),
        },
{
    let ghost toks = tokens_view(tokens@);
    proof {
        if pos < tokens@.len() {
            assert(toks[pos as int] == tokens@[pos as int]@);
        }
    }
    let ident_ok = pos < tokens.len() && matches!(&tokens[pos], Token::Ident(_));
    if !ident_ok {
        return Err(ParseError::ExpectedToken(String::from_str("Ident")));
    }
    let ident = tokens[pos].duplicate();
    proof {
        if pos + 1 < tokens@.len() {
            assert(toks[pos + 1] == tokens@[pos + 1]@);
        }
    }
    let assign_ok = pos + 1 < tokens.len() && matches!(
        &tokens[pos + 1],
        Token::Keyword(Keywords::Assign)
    );
    if !assign_ok {
        return Err(ParseError::ExpectedToken(String::from_str("=")));
    }
    let (expr, p2) = match parse_expr(tokens, pos + 2) {
        Ok(v) => v,
        Err(e) => {
            return Err(e);
        },
    };
    proof {
        if p2 < tokens@.len() {
            assert(toks[p2 as int] == tokens@[p2 as int]@);
        }
    }
    let semi_ok = p2 < tokens.len() && matches!(&tokens[p2], Token::Keyword(Keywords::Semi));
    if !semi_ok {
        return Err(ParseError::ExpectedToken(String::from_str(";")));
    }
    Ok((NodeStatement::Let((ident, expr)), p2 + 1))
}

/// Statement dispatch, as [`spec_parse_statement`] describes.
pub fn parse_statement(tokens: &Vec<Token>, pos: usize) -> (r: Result<
    (NodeStatement, usize),
    ParseError,
>)
    ensures
        match r {
            Ok((s, p)) => spec_parse_statement(tokens_view(tokens@), pos as int) == Ok::<
                (SpecStatement, int),
                SpecParseError,
            >((s@, p as int)),
            Err(e) => spec_parse_statement(tokens_view(tokens@), pos as int) == Err::<
                (SpecStatement, int),
                SpecParseError,
            >(e@),
        },
{
    proof {
        if pos < tokens@.len() {
            assert(tokens_view(tokens@)[pos as int] == tokens@[pos as int]@);
        }
    }
    if pos < tokens.len() {
        match &tokens[pos] {
            Token::Keyword(Keywords::Exit) => parse_exit(tokens, pos + 1),
            Token::Keyword(Keywords::Let) => parse_let(tokens, pos + 1),
            Token::Keyword(kw) => Err(ParseError::Parse(unknown_keyword_msg(*kw))),
            t => Err(ParseError::Parse(unknown_token_msg(t))),
        }
    } else {
        Ok((NodeStatement::End, pos))
    }
}

/// The whole syntactic stage: builds the program tree that [`spec_parse`]
/// describes, or fails with the first grammar error.
pub fn parse_program(tokens: &Vec<Token>) -> (r: Result<NodeProgram, ParseError>)
    ensures
        match r {
            Ok(p) => spec_parse(tokens_view(tokens@)) == Ok::<SpecProgram, SpecParseError>(
                p@,
            ),
            Err(e) => spec_parse(tokens_view(tokens@)) == Err::<SpecProgram, SpecParseError>(
                e@,
            ),
        },
{
    let ghost toks = tokens_view(tokens@);
    let mut statements = Vec::<NodeStatement>::new();
    let mut pos: usize = 0;
    let mut finished: bool = false;
    proof {
        assert(stmts_view(statements@) =~= Seq::<SpecStatement>::empty());
    }
    while !finished
        invariant
            toks == tokens_view(tokens@),
            tokens@.len() == toks.len(),
            pos <= toks.len(),
            finished ==> spec_parse_program(toks, 0) == Ok::<Seq<SpecStatement>, SpecParseError>(
                stmts_view(statements@),
            ),
            !finished ==> match spec_parse_program(toks, pos as int) {
                Ok(rest) => spec_parse_program(toks, 0) == Ok::<
                    Seq<SpecStatement>,
                    SpecParseError,
                >(stmts_view(statements@) + rest),
                Err(e) => spec_parse_program(toks, 0) == Err::<
                    Seq<SpecStatement>,
                    SpecParseError,
                >(e),
            },
        decreases toks.len() - pos + (if finished { 0int } else { 1int }),
    {
        match parse_statement(tokens, pos) {
            Err(e) => {
                return Err(e);
            },
            Ok((s, p2)) => {
                proof {
                    lemma_parse_statement_bounds(toks, pos as int);
                }
                let ghost pre = stmts_view(statements@);
                let ghost sv = s@;
                let is_end = matches!(s, NodeStatement::End);
                statements.push(s);
                proof {
                    assert(stmts_view(statements@) =~= pre + seq![sv]);
                    if is_end {
                        assert(pre + seq![SpecStatement::End] =~= pre + spec_parse_program(
                            toks,
                            pos as int,
                        )->Ok_0);
                    } else {
                        match spec_parse_program(toks, p2 as int) {
                            Ok(rest) => {
                                assert((pre + seq![sv]) + rest =~= pre + (seq![sv] + rest));
                            },
                            Err(_) => {},
                        }
                    }
                }
                if is_end {
                    finished = true;
                } else {
                    pos = p2;
                }
            },
        }
    }
    Ok(NodeProgram { statements })
}

} // verus!
