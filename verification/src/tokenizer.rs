//! Lexical analysis: splitting source text into fragments and classifying
//! each fragment as an integer literal, an identifier or a keyword.

use vstd::prelude::*;

verus! {

/// A lexical error.
#[derive(Debug, PartialEq, Eq)]
pub enum TokenError {
    /// The fragment is not one of the fixed keyword strings.
    Keyword(String),
    /// The fragment cannot be classified at all: it is empty, or it is a
    /// reserved keyword with no token mapping.
    InvalidToken(String),
}

/// The mathematical value of a [`TokenError`]: the same shape over `Seq<char>`.
pub enum SpecTokenError {
    Keyword(Seq<char>),
    InvalidToken(Seq<char>),
}

impl View for TokenError {
    type V = SpecTokenError;

    open spec fn view(&self) -> SpecTokenError {
        match self {
            TokenError::Keyword(s) => SpecTokenError::Keyword(s@),
            TokenError::InvalidToken(s) => SpecTokenError::InvalidToken(s@),
        }
    }
}

/// The operators of the language. Only addition is lowered to code; the
/// reserved multiplication symbol is rejected during classification.
#[derive(Clone, Copy, Debug, PartialEq, Eq, Structural)]
pub enum Operators {
    Plus,
}

/// The closed set of keywords: statement keywords, punctuation and operators.
#[derive(Clone, Copy, Debug, PartialEq, Eq, Structural)]
pub enum Keywords {
    Exit,
    Semi,
    OpenParenthesis,
    CloseParenthesis,
    Let,
    Assign,
    Operator(Operators),
}

/// One classified token. The text of a literal or an identifier is kept
/// exactly as it stood in the source.
#[derive(Debug, PartialEq, Eq)]
pub enum Token {
    IntLit(String),
    Ident(String),
    Keyword(Keywords),
}

/// The mathematical value of a [`Token`]: the same shape over `Seq<char>`.
pub enum SpecToken {
    IntLit(Seq<char>),
    Ident(Seq<char>),
    Keyword(Keywords),
}

impl View for Token {
    type V = SpecToken;

    open spec fn view(&self) -> SpecToken {
        match self {
            Token::IntLit(s) => SpecToken::IntLit(s@),
            Token::Ident(s) => SpecToken::Ident(s@),
            Token::Keyword(kw) => SpecToken::Keyword(*kw),
        }
    }
}

/// The name of a keyword, as [`Token::to_string`] prints it.
pub open spec fn spec_keyword_name(kw: Keywords) -> Seq<char> {
    match kw {
        Keywords::Exit => "Exit"@,
        Keywords::Semi => "Semi"@,
        Keywords::OpenParenthesis => "OpenParenthesis"@,
        Keywords::CloseParenthesis => "CloseParenthesis"@,
        Keywords::Let => "Let"@,
        Keywords::Assign => "Assign"@,
        Keywords::Operator(Operators::Plus) => "Operator(Plus)"@,
    }
}

/// The text of a token: the literal or identifier text itself, or the
/// keyword's name.
pub open spec fn spec_token_text(t: SpecToken) -> Seq<char> {
    match t {
        SpecToken::IntLit(s) => s,
        SpecToken::Ident(s) => s,
        SpecToken::Keyword(kw) => spec_keyword_name(kw),
    }
}

impl Token {
    /// The text of the token, used for assembly emission, symbol-table keys
    /// and error messages.
    pub fn to_string(&self) -> (r: String)
        ensures
            r@ == spec_token_text(self@),
    {
        match self {
            Token::IntLit(s) => s.clone(),
            Token::Ident(s) => s.clone(),
            Token::Keyword(kw) => String::from_str(keyword_name(*kw)),
        }
    }

    /// An owned copy of the token with the same mathematical value.
    pub fn duplicate(&self) -> (r: Token)
        ensures
            r@ == self@,
    {
        match self {
            Token::IntLit(s) => Token::IntLit(s.clone()),
            Token::Ident(s) => Token::Ident(s.clone()),
            Token::Keyword(kw) => Token::Keyword(*kw),
        }
    }
}

/// The printed name of a keyword.
pub(crate) fn keyword_name(kw: Keywords) -> (r: &'static str)
    ensures
        r@ == spec_keyword_name(kw),
{
    match kw {
        Keywords::Exit => "Exit",
        Keywords::Semi => "Semi",
        Keywords::OpenParenthesis => "OpenParenthesis",
        Keywords::CloseParenthesis => "CloseParenthesis",
        Keywords::Let => "Let",
        Keywords::Assign => "Assign",
        Keywords::Operator(Operators::Plus) => "Operator(Plus)",
    }
}

/// True of the whitespace characters on which source text is first split.
pub open spec fn is_space_char(c: char) -> bool {
    c == ' ' || c == '\t' || c == '\n' || c == '\r'
}

/// True of a decimal digit.
pub open spec fn is_digit_char(c: char) -> bool {
    48 <= c as u32 <= 57
}

/// The view of a fragment list: each string as its character sequence.
pub open spec fn frags_view(fs: Seq<String>) -> Seq<Seq<char>> {
    fs.map_values(|s: String| s@)
}

/// The view of a token list.
pub open spec fn tokens_view(ts: Seq<Token>) -> Seq<SpecToken> {
    ts.map_values(|t: Token| t@)
}

/// Splitting on whitespace from position `i` onwards, carrying the fragment
/// accumulated since the last boundary. Whitespace never reaches a fragment
/// and empty fragments are never produced.
pub open spec fn spec_split_whitespace_from(s: Seq<char>, i: int, cur: Seq<char>) -> Seq<Seq<char>>
    decreases s.len() - i,
{
    if i >= s.len() {
        if cur.len() > 0 {
            seq![cur]
        } else {
            seq![]
        }
    } else if is_space_char(s[i]) {
        (if cur.len() > 0 {
            seq![cur]
        } else {
            seq![]
        }) + spec_split_whitespace_from(s, i + 1, seq![])
    } else {
        spec_split_whitespace_from(s, i + 1, cur.push(s[i]))
    }
}

/// Splitting source text on whitespace boundaries.
pub open spec fn spec_split_whitespace(s: Seq<char>) -> Seq<Seq<char>> {
    spec_split_whitespace_from(s, 0, seq![])
}

/// Splitting one fragment at every occurrence of the symbol `c` from position
/// `i` onwards, inserting the symbol itself as its own fragment. The piece
/// before an occurrence is kept even when empty; the trailing piece is kept
/// only when non-empty.
pub open spec fn spec_split_at_from(s: Seq<char>, c: char, i: int, cur: Seq<char>) -> Seq<
    Seq<char>,
>
    decreases s.len() - i,
{
    if i >= s.len() {
        if cur.len() > 0 {
            seq![cur]
        } else {
            seq![]
        }
    } else if s[i] == c {
        seq![cur, seq![c]] + spec_split_at_from(s, c, i + 1, seq![])
    } else {
        spec_split_at_from(s, c, i + 1, cur.push(s[i]))
    }
}

/// Splitting one fragment at every occurrence of the symbol `c`.
pub open spec fn spec_split_at(s: Seq<char>, c: char) -> Seq<Seq<char>> {
    spec_split_at_from(s, c, 0, seq![])
}

/// [`spec_split_at`] applied to every fragment of a list, in order.
pub open spec fn spec_apply_split_from(frags: Seq<Seq<char>>, c: char, i: int) -> Seq<Seq<char>>
    decreases frags.len() - i,
{
    if i >= frags.len() {
        seq![]
    } else {
        spec_split_at(frags[i], c) + spec_apply_split_from(frags, c, i + 1)
    }
}

/// One pass of symbol splitting over a whole fragment list.
pub open spec fn spec_apply_split(frags: Seq<Seq<char>>, c: char) -> Seq<Seq<char>> {
    spec_apply_split_from(frags, c, 0)
}

/// The non-empty fragments of a list, in order.
pub open spec fn spec_keep_nonempty_from(frags: Seq<Seq<char>>, i: int) -> Seq<Seq<char>>
    decreases frags.len() - i,
{
    if i >= frags.len() {
        seq![]
    } else if frags[i].len() > 0 {
        seq![frags[i]] + spec_keep_nonempty_from(frags, i + 1)
    } else {
        spec_keep_nonempty_from(frags, i + 1)
    }
}

/// The non-empty fragments of a list, in order.
pub open spec fn spec_keep_nonempty(frags: Seq<Seq<char>>) -> Seq<Seq<char>> {
    spec_keep_nonempty_from(frags, 0)
}

/// The whole fragmentation pass: split on whitespace, then split at each
/// keyword symbol in turn, then discard empty fragments.
pub open spec fn spec_split_tokens(src: Seq<char>) -> Seq<Seq<char>> {
    spec_keep_nonempty(
        spec_apply_split(
            spec_apply_split(
                spec_apply_split(
                    spec_apply_split(spec_apply_split(spec_split_whitespace(src), ';'), '('),
                    ')',
                ),
                '=',
            ),
            '+',
        ),
    )
}

/// The keyword a fragment names, if any.
pub open spec fn spec_keyword_of(s: Seq<char>) -> Option<Keywords> {
    if s == "exit"@ {
        Some(Keywords::Exit)
    } else if s == ";"@ {
        Some(Keywords::Semi)
    } else if s == "("@ {
        Some(Keywords::OpenParenthesis)
    } else if s == ")"@ {
        Some(Keywords::CloseParenthesis)
    } else if s == "let"@ {
        Some(Keywords::Let)
    } else if s == "="@ {
        Some(Keywords::Assign)
    } else if s == "+"@ {
        Some(Keywords::Operator(Operators::Plus))
    } else {
        None
    }
}

/// Classification of one fragment: a keyword string becomes its keyword
/// token; the reserved multiplication symbol has no token mapping and is
/// invalid, as is an empty fragment; a non-empty run of digits is an integer
/// literal; everything else is an identifier.
pub open spec fn spec_classify(frag: Seq<char>) -> Result<SpecToken, SpecTokenError> {
    match spec_keyword_of(frag) {
        Some(kw) => Ok(SpecToken::Keyword(kw)),
        None => if frag == "*"@ {
            Err(SpecTokenError::InvalidToken(frag))
        } else if frag.len() == 0 {
            Err(SpecTokenError::InvalidToken(frag))
        } else if forall|i: int| 0 <= i < frag.len() ==> is_digit_char(frag[i]) {
            Ok(SpecToken::IntLit(frag))
        } else {
            Ok(SpecToken::Ident(frag))
        },
    }
}

/// Classification of a fragment list from position `i` onwards; the first
/// invalid fragment fails the whole list.
pub open spec fn spec_classify_all_from(frags: Seq<Seq<char>>, i: int) -> Result<
    Seq<SpecToken>,
    SpecTokenError,
>
    decreases frags.len() - i,
{
    if i >= frags.len() {
        Ok(seq![])
    } else {
        match spec_classify(frags[i]) {
            Err(e) => Err(e),
            Ok(t) => match spec_classify_all_from(frags, i + 1) {
                Err(e) => Err(e),
                Ok(ts) => Ok(seq![t] + ts),
            },
        }
    }
}

/// Classification of a whole fragment list.
pub open spec fn spec_classify_all(frags: Seq<Seq<char>>) -> Result<
    Seq<SpecToken>,
    SpecTokenError,
> {
    spec_classify_all_from(frags, 0)
}

/// The whole lexical stage: fragmentation followed by classification.
pub open spec fn spec_tokenize(src: Seq<char>) -> Result<Seq<SpecToken>, SpecTokenError> {
    spec_classify_all(spec_split_tokens(src))
}

/// True of a fragment that a split at `c` may produce: the symbol itself, or
/// a piece free of the symbol.
pub open spec fn spec_fragment_isolated(frag: Seq<char>, c: char) -> bool {
    frag == seq![c] || (forall|j: int| 0 <= j < frag.len() ==> frag[j] != c)
}

proof fn lemma_split_at_from_no_loss(s: Seq<char>, c: char, i: int, cur: Seq<char>)
    requires
        0 <= i <= s.len(),
    ensures
        spec_split_at_from(s, c, i, cur).flatten() == cur + s.skip(i),
    decreases s.len() - i,
{
    if i >= s.len() {
        assert(s.skip(i) =~= Seq::<char>::empty());
        if cur.len() > 0 {
            seq![cur].lemma_flatten_one_element();
            assert(cur + s.skip(i) =~= cur);
        } else {
            assert(Seq::<Seq<char>>::empty().flatten() =~= Seq::<char>::empty());
            assert(cur + s.skip(i) =~= Seq::<char>::empty());
        }
    } else if s[i] == c {
        let rest = spec_split_at_from(s, c, i + 1, Seq::empty());
        lemma_split_at_from_no_loss(s, c, i + 1, Seq::empty());
        vstd::seq_lib::lemma_flatten_concat(seq![cur, seq![c]], rest);
        assert(seq![cur, seq![c]].flatten() =~= cur + seq![c]) by {
            assert(seq![cur, seq![c]].drop_first() =~= seq![seq![c]]);
            seq![seq![c]].lemma_flatten_one_element();
        }
        assert((cur + seq![c]) + (Seq::<char>::empty() + s.skip(i + 1)) =~= cur + s.skip(i));
    } else {
        lemma_split_at_from_no_loss(s, c, i + 1, cur.push(s[i]));
        assert(cur.push(s[i]) + s.skip(i + 1) =~= cur + s.skip(i));
    }
}

/// Symbol splitting loses and merges nothing: the fragments of
/// [`spec_split_at`], concatenated back together, are exactly the original
/// text.
pub proof fn lemma_split_at_no_loss(s: Seq<char>, c: char)
    ensures
        spec_split_at(s, c).flatten() == s,
{
    lemma_split_at_from_no_loss(s, c, 0, Seq::empty());
    assert(Seq::<char>::empty() + s.skip(0) =~= s);
}

proof fn lemma_split_at_from_isolates(s: Seq<char>, c: char, i: int, cur: Seq<char>)
    requires
        0 <= i <= s.len(),
        forall|j: int| 0 <= j < cur.len() ==> cur[j] != c,
    ensures
        forall|k: int|
            0 <= k < spec_split_at_from(s, c, i, cur).len() ==> spec_fragment_isolated(
                #[trigger] spec_split_at_from(s, c, i, cur)[k],
                c,
            ),
    decreases s.len() - i,
{
    let out = spec_split_at_from(s, c, i, cur);
    if i >= s.len() {
        assert forall|k: int| 0 <= k < out.len() implies spec_fragment_isolated(out[k], c) by {
            assert(out[k] == cur);
        }
    } else if s[i] == c {
        lemma_split_at_from_isolates(s, c, i + 1, Seq::empty());
        let rest = spec_split_at_from(s, c, i + 1, Seq::empty());
        assert forall|k: int| 0 <= k < out.len() implies spec_fragment_isolated(out[k], c) by {
            if k == 0 {
                assert(out[k] == cur);
            } else if k == 1 {
                assert(out[k] == seq![c]);
            } else {
                assert(out[k] == rest[k - 2]);
                assert(spec_fragment_isolated(rest[k - 2], c));
            }
        }
    } else {
        lemma_split_at_from_isolates(s, c, i + 1, cur.push(s[i]));
        let rest = spec_split_at_from(s, c, i + 1, cur.push(s[i]));
        assert forall|k: int| 0 <= k < out.len() implies spec_fragment_isolated(out[k], c) by {
            assert(out[k] == rest[k]);
            assert(spec_fragment_isolated(rest[k], c));
        }
    }
}

/// A keyword symbol adjacent to other characters is always a fragment of its
/// own: every fragment of a symbol split is either the symbol itself or free
/// of it, never a merger.
pub proof fn lemma_split_at_isolates(s: Seq<char>, c: char)
    ensures
        forall|k: int|
            0 <= k < spec_split_at(s, c).len() ==> spec_fragment_isolated(
                #[trigger] spec_split_at(s, c)[k],
                c,
            ),
{
    lemma_split_at_from_isolates(s, c, 0, Seq::empty());
}

/// Text between positions `i` and `k` free of the symbol is accumulated
/// unchanged: splitting from `i` equals splitting from `k` with that text
/// appended to the open fragment.
pub proof fn lemma_split_at_from_skip_clean(s: Seq<char>, c: char, i: int, k: int, cur: Seq<char>)
    requires
        0 <= i <= k <= s.len(),
        forall|j: int| i <= j < k ==> s[j] != c,
    ensures
        spec_split_at_from(s, c, i, cur) == spec_split_at_from(
            s,
            c,
            k,
            cur + s.subrange(i, k),
        ),
    decreases k - i,
{
    if i == k {
        assert(cur + s.subrange(i, k) =~= cur);
    } else {
        lemma_split_at_from_skip_clean(s, c, i + 1, k, cur.push(s[i]));
        assert(cur.push(s[i]) + s.subrange(i + 1, k) =~= cur + s.subrange(i, k));
    }
}

/// Whitespace-free text between `i` and `k` is accumulated unchanged by the
/// whitespace split.
pub proof fn lemma_split_ws_from_skip_clean(s: Seq<char>, i: int, k: int, cur: Seq<char>)
    requires
        0 <= i <= k <= s.len(),
        forall|j: int| i <= j < k ==> !is_space_char(s[j]),
    ensures
        spec_split_whitespace_from(s, i, cur) == spec_split_whitespace_from(
            s,
            k,
            cur + s.subrange(i, k),
        ),
    decreases k - i,
{
    if i == k {
        assert(cur + s.subrange(i, k) =~= cur);
    } else {
        lemma_split_ws_from_skip_clean(s, i + 1, k, cur.push(s[i]));
        assert(cur.push(s[i]) + s.subrange(i + 1, k) =~= cur + s.subrange(i, k));
    }
}

/// A run of whitespace to the end of the text closes the open fragment and
/// produces nothing more.
pub proof fn lemma_split_ws_from_all_space(s: Seq<char>, i: int, cur: Seq<char>)
    requires
        0 <= i <= s.len(),
        forall|j: int| i <= j < s.len() ==> is_space_char(s[j]),
    ensures
        spec_split_whitespace_from(s, i, cur) == if cur.len() > 0 {
            seq![cur]
        } else {
            Seq::<Seq<char>>::empty()
        },
    decreases s.len() - i,
{
    if i >= s.len() {
        if cur.len() > 0 {
        } else {
            assert(spec_split_whitespace_from(s, i, cur) =~= Seq::<Seq<char>>::empty());
        }
    } else {
        lemma_split_ws_from_all_space(s, i + 1, Seq::empty());
        if cur.len() > 0 {
            assert(seq![cur] + Seq::<Seq<char>>::empty() =~= seq![cur]);
        } else {
            assert(Seq::<Seq<char>>::empty() + Seq::<Seq<char>>::empty() =~= Seq::<
                Seq<char>,
            >::empty());
        }
    }
}

/// A non-empty fragment free of the symbol passes a symbol split unchanged.
pub proof fn lemma_split_at_clean_string(s: Seq<char>, c: char)
    requires
        s.len() > 0,
        forall|j: int| 0 <= j < s.len() ==> s[j] != c,
    ensures
        spec_split_at(s, c) == seq![s],
{
    lemma_split_at_from_skip_clean(s, c, 0, s.len() as int, Seq::empty());
    assert(Seq::<char>::empty() + s.subrange(0, s.len() as int) =~= s);
}

/// A fragment holding the symbol exactly once splits into the piece before
/// it, the symbol, and the piece after it if that piece is non-empty.
pub proof fn lemma_split_at_single(s: Seq<char>, c: char, p: int)
    requires
        0 <= p < s.len(),
        s[p] == c,
        forall|j: int| 0 <= j < s.len() && j != p ==> s[j] != c,
    ensures
        spec_split_at(s, c) == seq![s.subrange(0, p), seq![c]] + (if p + 1 < s.len() {
            seq![s.subrange(p + 1, s.len() as int)]
        } else {
            Seq::<Seq<char>>::empty()
        }),
{
    lemma_split_at_from_skip_clean(s, c, 0, p, Seq::empty());
    assert(Seq::<char>::empty() + s.subrange(0, p) =~= s.subrange(0, p));
    lemma_split_at_from_skip_clean(s, c, p + 1, s.len() as int, Seq::empty());
    assert(Seq::<char>::empty() + s.subrange(p + 1, s.len() as int) =~= s.subrange(
        p + 1,
        s.len() as int,
    ));
}

/// Tokenization of an exit statement around one integer literal: the source
/// `exit(<digits>);`, with no whitespace, always yields these five tokens.
pub proof fn lemma_tokenize_exit_literal(d: Seq<char>)
    requires
        d.len() > 0,
        forall|i: int| 0 <= i < d.len() ==> is_digit_char(#[trigger] d[i]),
    ensures
        spec_tokenize("exit("@ + d + ");"@) == Ok::<Seq<SpecToken>, SpecTokenError>(
            seq![
                SpecToken::Keyword(Keywords::Exit),
                SpecToken::Keyword(Keywords::OpenParenthesis),
                SpecToken::IntLit(d),
                SpecToken::Keyword(Keywords::CloseParenthesis),
                SpecToken::Keyword(Keywords::Semi),
            ],
        ),
{
    reveal_strlit("exit(");
    reveal_strlit(");");
    reveal_strlit("exit");
    reveal_strlit("let");
    reveal_strlit(";");
    reveal_strlit("(");
    reveal_strlit(")");
    reveal_strlit("=");
    reveal_strlit("+");
    reveal_strlit("*");
    let x = "exit("@ + d + ");"@;
    let n = x.len() as int;
    assert(n == d.len() + 7);
    assert(forall|i: int| 0 <= i < d.len() ==> x[5 + i] == d[i]);

    // Whitespace split: no character of the source is whitespace.
    assert(forall|j: int| 0 <= j < n ==> !is_space_char(x[j]));
    lemma_split_ws_from_skip_clean(x, 0, n, Seq::empty());
    assert(Seq::<char>::empty() + x.subrange(0, n) =~= x);
    let f0 = seq![x];
    assert(spec_split_whitespace(x) == f0);

    // Split at ';': one occurrence, at the very end.
    assert(x[n - 1] == ';');
    lemma_split_at_single(x, ';', n - 1);
    let a = x.subrange(0, n - 1);
    assert(spec_split_at(x, ';') == seq![a, seq![';']]);
    let f1 = seq![a, seq![';']];
    assert(spec_apply_split(f0, ';') =~= f1) by {
        assert(spec_apply_split_from(f0, ';', 1) =~= Seq::<Seq<char>>::empty());
        assert(spec_split_at(x, ';') + Seq::<Seq<char>>::empty() =~= spec_split_at(x, ';'));
    }

    // Split at '(': one occurrence, after `exit`.
    assert(a[4] == '(');
    lemma_split_at_single(a, '(', 4);
    let ex = a.subrange(0, 4);
    let dp = a.subrange(5, a.len() as int);
    assert(ex =~= "exit"@);
    assert(dp =~= d + seq![')']);
    assert(spec_split_at(a, '(') == seq![ex, seq!['('], dp]) by {
        assert(seq![a.subrange(0, 4), seq!['(']] + seq![dp] =~= seq![ex, seq!['('], dp]);
    }
    lemma_split_at_clean_string(seq![';'], '(');
    let f2 = seq![ex, seq!['('], dp, seq![';']];
    assert(spec_apply_split(f1, '(') =~= f2) by {
        assert(spec_apply_split_from(f1, '(', 2) =~= Seq::<Seq<char>>::empty());
        assert(spec_apply_split_from(f1, '(', 1) =~= seq![seq![';']]);
        assert(seq![ex, seq!['('], dp] + seq![seq![';']] =~= f2);
    }

    // Split at ')': one occurrence, right after the digits.
    lemma_split_at_clean_string(ex, ')');
    lemma_split_at_clean_string(seq!['('], ')');
    assert(dp[d.len() as int] == ')');
    lemma_split_at_single(dp, ')', d.len() as int);
    assert(dp.subrange(0, d.len() as int) =~= d);
    assert(spec_split_at(dp, ')') == seq![d, seq![')']]) by {
        assert(seq![dp.subrange(0, d.len() as int), seq![')']] + Seq::<Seq<char>>::empty()
            =~= seq![d, seq![')']]);
    }
    lemma_split_at_clean_string(seq![';'], ')');
    let f3 = seq![ex, seq!['('], d, seq![')'], seq![';']];
    assert(spec_apply_split(f2, ')') =~= f3) by {
        assert(spec_apply_split_from(f2, ')', 4) =~= Seq::<Seq<char>>::empty());
        assert(spec_apply_split_from(f2, ')', 3) =~= seq![seq![';']]);
        assert(spec_apply_split_from(f2, ')', 2) =~= seq![d, seq![')'], seq![';']]);
        assert(spec_apply_split_from(f2, ')', 1) =~= seq![seq!['('], d, seq![')'], seq![';']]);
    }

    // Splits at '=' and '+' touch nothing.
    lemma_split_at_clean_string(ex, '=');
    lemma_split_at_clean_string(seq!['('], '=');
    lemma_split_at_clean_string(d, '=');
    lemma_split_at_clean_string(seq![')'], '=');
    lemma_split_at_clean_string(seq![';'], '=');
    assert(spec_apply_split(f3, '=') =~= f3) by {
        assert(spec_apply_split_from(f3, '=', 5) =~= Seq::<Seq<char>>::empty());
        assert(spec_apply_split_from(f3, '=', 4) =~= seq![seq![';']]);
        assert(spec_apply_split_from(f3, '=', 3) =~= seq![seq![')'], seq![';']]);
        assert(spec_apply_split_from(f3, '=', 2) =~= seq![d, seq![')'], seq![';']]);
        assert(spec_apply_split_from(f3, '=', 1) =~= seq![seq!['('], d, seq![')'], seq![';']]);
    }
    lemma_split_at_clean_string(ex, '+');
    lemma_split_at_clean_string(seq!['('], '+');
    lemma_split_at_clean_string(d, '+');
    lemma_split_at_clean_string(seq![')'], '+');
    lemma_split_at_clean_string(seq![';'], '+');
    assert(spec_apply_split(f3, '+') =~= f3) by {
        assert(spec_apply_split_from(f3, '+', 5) =~= Seq::<Seq<char>>::empty());
        assert(spec_apply_split_from(f3, '+', 4) =~= seq![seq![';']]);
        assert(spec_apply_split_from(f3, '+', 3) =~= seq![seq![')'], seq![';']]);
        assert(spec_apply_split_from(f3, '+', 2) =~= seq![d, seq![')'], seq![';']]);
        assert(spec_apply_split_from(f3, '+', 1) =~= seq![seq!['('], d, seq![')'], seq![';']]);
    }

    // No fragment is empty.
    assert(spec_keep_nonempty(f3) =~= f3) by {
        assert(spec_keep_nonempty_from(f3, 5) =~= Seq::<Seq<char>>::empty());
        assert(spec_keep_nonempty_from(f3, 4) =~= seq![seq![';']]);
        assert(spec_keep_nonempty_from(f3, 3) =~= seq![seq![')'], seq![';']]);
        assert(spec_keep_nonempty_from(f3, 2) =~= seq![d, seq![')'], seq![';']]);
        assert(spec_keep_nonempty_from(f3, 1) =~= seq![seq!['('], d, seq![')'], seq![';']]);
    }
    assert(spec_split_tokens(x) == f3);

    // Classification of the five fragments.
    assert(spec_classify(ex) == Ok::<SpecToken, SpecTokenError>(
        SpecToken::Keyword(Keywords::Exit),
    ));
    assert(spec_classify(seq!['(']) == Ok::<SpecToken, SpecTokenError>(
        SpecToken::Keyword(Keywords::OpenParenthesis),
    )) by {
        if seq!['('] == ";"@ {
            assert(seq!['('][0] == ';');
        }
        assert(seq!['('] =~= "("@);
    }
    assert(spec_classify(seq![')']) == Ok::<SpecToken, SpecTokenError>(
        SpecToken::Keyword(Keywords::CloseParenthesis),
    )) by {
        if seq![')'] == ";"@ {
            assert(seq![')'][0] == ';');
        }
        if seq![')'] == "("@ {
            assert(seq![')'][0] == '(');
        }
        assert(seq![')'] =~= ")"@);
    }
    assert(spec_classify(seq![';']) == Ok::<SpecToken, SpecTokenError>(
        SpecToken::Keyword(Keywords::Semi),
    )) by {
        assert(seq![';'] =~= ";"@);
    }
    assert(spec_classify(d) == Ok::<SpecToken, SpecTokenError>(SpecToken::IntLit(d))) by {
        assert(d != "exit"@ && d != "let"@) by {
            if d == "exit"@ {
                assert(d[0] == 'e' && is_digit_char(d[0]));
            }
            if d == "let"@ {
                assert(d[0] == 'l' && is_digit_char(d[0]));
            }
        }
        assert(d != ";"@ && d != "("@ && d != ")"@ && d != "="@ && d != "+"@ && d != "*"@) by {
            if d == ";"@ {
                assert(d[0] == ';' && is_digit_char(d[0]));
            }
            if d == "("@ {
                assert(d[0] == '(' && is_digit_char(d[0]));
            }
            if d == ")"@ {
                assert(d[0] == ')' && is_digit_char(d[0]));
            }
            if d == "="@ {
                assert(d[0] == '=' && is_digit_char(d[0]));
            }
            if d == "+"@ {
                assert(d[0] == '+' && is_digit_char(d[0]));
            }
            if d == "*"@ {
                assert(d[0] == '*' && is_digit_char(d[0]));
            }
        }
    }
    let toks = seq![
        SpecToken::Keyword(Keywords::Exit),
        SpecToken::Keyword(Keywords::OpenParenthesis),
        SpecToken::IntLit(d),
        SpecToken::Keyword(Keywords::CloseParenthesis),
        SpecToken::Keyword(Keywords::Semi),
    ];
    assert(spec_classify_all(f3) == Ok::<Seq<SpecToken>, SpecTokenError>(toks)) by {
        assert(spec_classify_all_from(f3, 5) == Ok::<Seq<SpecToken>, SpecTokenError>(seq![]));
        assert(spec_classify_all_from(f3, 4) == Ok::<Seq<SpecToken>, SpecTokenError>(
            seq![SpecToken::Keyword(Keywords::Semi)] + seq![],
        ));
        assert(spec_classify_all_from(f3, 3) matches Ok(ts3));
        assert(spec_classify_all_from(f3, 2) matches Ok(ts2));
        assert(spec_classify_all_from(f3, 1) matches Ok(ts1));
        assert(spec_classify_all_from(f3, 0) matches Ok(ts0) && ts0 =~= toks);
    }
}

/// Character-by-character string equality.
fn str_eq(a: &str, b: &str) -> (r: bool)
    ensures
        r == (a@ == b@),
{
    let n = a.unicode_len();
    if n != b.unicode_len() {
        return false;
    }
    let mut i: usize = 0;
    while i < n
        invariant
            i <= n,
            n == a@.len(),
            n == b@.len(),
            forall|j: int| 0 <= j < i ==> a@[j] == b@[j],
        decreases n - i,
    {
        if a.get_char(i) != b.get_char(i) {
            return false;
        }
        i += 1;
    }
    proof {
        assert(a@ =~= b@);
    }
    true
}

/// Whitespace test for the fragmentation pass.
fn is_space(c: char) -> (r: bool)
    ensures
        r == is_space_char(c),
{
    c == ' ' || c == '\t' || c == '\n' || c == '\r'
}

/// Splits every string of the list at every occurrence of the given
/// one-character symbol, keeping the symbol itself as a fragment of its own,
/// so that symbols need no surrounding whitespace in the source.
pub fn split_with_char(strings: &[String], character: &'static str) -> (r: Vec<String>)
    requires
        character@.len() == 1,
    ensures
        frags_view(r@) == spec_apply_split(frags_view(strings@), character@[0]),
{
    let ghost c = character@[0];
    let ghost all = frags_view(strings@);
    let mut new_vec = Vec::<String>::new();
    let mut k: usize = 0;
    while k < strings.len()
        invariant
            k <= strings.len(),
            character@.len() == 1,
            c == character@[0],
            all == frags_view(strings@),
            strings@.len() == all.len(),
            frags_view(new_vec@) + spec_apply_split_from(all, c, k as int) == spec_apply_split(
                all,
                c,
            ),
        decreases strings.len() - k,
    {
        let s: &String = &strings[k];
        let n = s.as_str().unicode_len();
        let ghost sv = s@;
        let ghost base = frags_view(new_vec@);
        proof {
            assert(all[k as int] == sv);
        }
        let mut start: usize = 0;
        let mut i: usize = 0;
        proof {
            assert(sv.subrange(0, 0) =~= Seq::<char>::empty());
        }
        while i < n
            invariant
                start <= i <= n,
                n == sv.len(),
                sv == s@,
                c == character@[0],
                character@.len() == 1,
                base + spec_split_at(sv, c) == frags_view(new_vec@) + spec_split_at_from(
                    sv,
                    c,
                    i as int,
                    sv.subrange(start as int, i as int),
                ),
            decreases n - i,
        {
            let ch = s.as_str().get_char(i);
            if ch == character.get_char(0) {
                let ghost pre = frags_view(new_vec@);
                let head = s.as_str().substring_char(start, i);
                new_vec.push(String::from_str(head));
                new_vec.push(String::from_str(character));
                proof {
                    assert(character@ =~= seq![c]);
                    assert(frags_view(new_vec@) =~= pre + seq![
                        sv.subrange(start as int, i as int),
                        seq![c],
                    ]);
                    assert(spec_split_at_from(sv, c, i as int, sv.subrange(start as int, i as int))
                        == seq![sv.subrange(start as int, i as int), seq![c]]
                        + spec_split_at_from(sv, c, i + 1, seq![]));
                    assert((pre + seq![sv.subrange(start as int, i as int), seq![c]])
                        + spec_split_at_from(sv, c, i + 1, seq![]) =~= pre + (seq![
                        sv.subrange(start as int, i as int),
                        seq![c],
                    ] + spec_split_at_from(sv, c, i + 1, seq![])));
                    assert(sv.subrange(i + 1, i + 1) =~= Seq::<char>::empty());
                }
                start = i + 1;
            } else {
                proof {
                    assert(sv.subrange(start as int, i as int).push(sv[i as int]) =~= sv.subrange(
                        start as int,
                        i + 1,
                    ));
                }
            }
            i += 1;
        }
        if start < n {
            let ghost pre = frags_view(new_vec@);
            let tail = s.as_str().substring_char(start, n);
            new_vec.push(String::from_str(tail));
            proof {
                assert(frags_view(new_vec@) =~= pre + seq![sv.subrange(start as int, n as int)]);
            }
        } else {
            proof {
                assert(sv.subrange(start as int, n as int).len() == 0);
                assert(frags_view(new_vec@) + seq![] =~= frags_view(new_vec@));
            }
        }
        proof {
            assert(frags_view(new_vec@) =~= base + spec_split_at(sv, c));
            assert(spec_apply_split_from(all, c, k as int) == spec_split_at(sv, c)
                + spec_apply_split_from(all, c, k + 1));
            assert((base + spec_split_at(sv, c)) + spec_apply_split_from(all, c, k + 1) =~= base + (
            spec_split_at(sv, c) + spec_apply_split_from(all, c, k + 1)));
        }
        k += 1;
    }
    new_vec
}

/// Splits source text into fragments at whitespace boundaries.
fn split_on_whitespace(src: &str) -> (r: Vec<String>)
    ensures
        frags_view(r@) == spec_split_whitespace(src@),
{
    let ghost sv = src@;
    let n = src.unicode_len();
    let mut out = Vec::<String>::new();
    let mut start: usize = 0;
    let mut i: usize = 0;
    proof {
        assert(sv.subrange(0, 0) =~= Seq::<char>::empty());
    }
    while i < n
        invariant
            start <= i <= n,
            n == sv.len(),
            sv == src@,
            spec_split_whitespace(sv) == frags_view(out@) + spec_split_whitespace_from(
                sv,
                i as int,
                sv.subrange(start as int, i as int),
            ),
        decreases n - i,
    {
        let ch = src.get_char(i);
        if is_space(ch) {
            if start < i {
                let ghost pre = frags_view(out@);
                let head = src.substring_char(start, i);
                out.push(String::from_str(head));
                proof {
                    assert(frags_view(out@) =~= pre + seq![sv.subrange(start as int, i as int)]);
                    assert((pre + seq![sv.subrange(start as int, i as int)])
                        + spec_split_whitespace_from(sv, i + 1, seq![]) =~= pre + (seq![
                        sv.subrange(start as int, i as int),
                    ] + spec_split_whitespace_from(sv, i + 1, seq![])));
                }
            } else {
                proof {
                    assert(sv.subrange(start as int, i as int).len() == 0);
                    assert(seq![] + spec_split_whitespace_from(sv, i + 1, seq![])
                        =~= spec_split_whitespace_from(sv, i + 1, seq![]));
                }
            }
            start = i + 1;
            proof {
                assert(sv.subrange(i + 1, i + 1) =~= Seq::<char>::empty());
            }
        } else {
            proof {
                assert(sv.subrange(start as int, i as int).push(sv[i as int]) =~= sv.subrange(
                    start as int,
                    i + 1,
                ));
            }
        }
        i += 1;
    }
    if start < n {
        let ghost pre = frags_view(out@);
        let tail = src.substring_char(start, n);
        out.push(String::from_str(tail));
        proof {
            assert(frags_view(out@) =~= pre + seq![sv.subrange(start as int, n as int)]);
        }
    } else {
        proof {
            assert(sv.subrange(start as int, n as int).len() == 0);
            assert(frags_view(out@) + seq![] =~= frags_view(out@));
        }
    }
    out
}

/// Fragmentation: whitespace split, one symbol-splitting pass for each
/// keyword symbol, and removal of empty fragments.
pub fn split_tokens(src: &str) -> (r: Vec<String>)
    ensures
        frags_view(r@) == spec_split_tokens(src@),
{
    let ws = split_on_whitespace(src);
    proof {
        reveal_strlit(";");
        reveal_strlit("(");
        reveal_strlit(")");
        reveal_strlit("=");
        reveal_strlit("+");
    }
    let s1 = split_with_char(ws.as_slice(), ";");
    let s2 = split_with_char(s1.as_slice(), "(");
    let s3 = split_with_char(s2.as_slice(), ")");
    let s4 = split_with_char(s3.as_slice(), "=");
    let s5 = split_with_char(s4.as_slice(), "+");
    let ghost full = frags_view(s5@);
    let mut out = Vec::<String>::new();
    let mut k: usize = 0;
    while k < s5.len()
        invariant
            k <= s5.len(),
            full == frags_view(s5@),
            s5@.len() == full.len(),
            spec_keep_nonempty(full) == frags_view(out@) + spec_keep_nonempty_from(
                full,
                k as int,
            ),
        decreases s5.len() - k,
    {
        proof {
            assert(full[k as int] == s5@[k as int]@);
        }
        if !s5[k].as_str().is_empty() {
            let ghost pre = frags_view(out@);
            let kept = s5[k].clone();
            out.push(kept);
            proof {
                assert(frags_view(out@) =~= pre + seq![full[k as int]]);
                assert((pre + seq![full[k as int]]) + spec_keep_nonempty_from(full, k + 1) =~= pre
                    + (seq![full[k as int]] + spec_keep_nonempty_from(full, k + 1)));
            }
        }
        k += 1;
    }
    proof {
        assert(frags_view(out@) + seq![] =~= frags_view(out@));
    }
    out
}

/// Digit test for the fragmentation pass.
fn all_digits(s: &str) -> (r: bool)
    ensures
        r == (forall|i: int| 0 <= i < s@.len() ==> is_digit_char(s@[i])),
{
    let n = s.unicode_len();
    let mut i: usize = 0;
    while i < n
        invariant
            i <= n,
            n == s@.len(),
            forall|j: int| 0 <= j < i ==> is_digit_char(s@[j]),
        decreases n - i,
    {
        let c = s.get_char(i);
        let v = c as u32;
        if v < 48 || v > 57 {
            return false;
        }
        i += 1;
    }
    true
}

impl Keywords {
    /// The keyword a fragment names, or a `Keyword` error for any other
    /// fragment.
    pub fn try_from_str(value: &str) -> (r: Result<Keywords, TokenError>)
        ensures
            match r {
                Ok(kw) => spec_keyword_of(value@) == Some(kw),
                Err(e) => spec_keyword_of(value@) is None && e@ == SpecTokenError::Keyword(
                    value@,
                ),
            },
    {
        if str_eq(value, "exit") {
            Ok(Keywords::Exit)
        } else if str_eq(value, ";") {
            Ok(Keywords::Semi)
        } else if str_eq(value, "(") {
            Ok(Keywords::OpenParenthesis)
        } else if str_eq(value, ")") {
            Ok(Keywords::CloseParenthesis)
        } else if str_eq(value, "let") {
            Ok(Keywords::Let)
        } else if str_eq(value, "=") {
            Ok(Keywords::Assign)
        } else if str_eq(value, "+") {
            Ok(Keywords::Operator(Operators::Plus))
        } else {
            Err(TokenError::Keyword(String::from_str(value)))
        }
    }
}

impl Token {
    /// Classifies one fragment, as [`spec_classify`] describes.
    pub fn try_from_str(val: &str) -> (r: Result<Token, TokenError>)
        ensures
            match r {
                Ok(t) => spec_classify(val@) == Ok::<SpecToken, SpecTokenError>(t@),
                Err(e) => spec_classify(val@) == Err::<SpecToken, SpecTokenError>(e@),
            },
    {
        match Keywords::try_from_str(val) {
            Ok(keyword) => {
                return Ok(Token::Keyword(keyword));
            },
            Err(_) => {},
        }
        if str_eq(val, "*") {
            return Err(TokenError::InvalidToken(String::from_str(val)));
        }
        if val.is_empty() {
            return Err(TokenError::InvalidToken(String::from_str(val)));
        }
        if all_digits(val) {
            return Ok(Token::IntLit(String::from_str(val)));
        }
        Ok(Token::Ident(String::from_str(val)))
    }
}

/// The lexical stage: turns source text into the token sequence that
/// [`spec_tokenize`] describes, or the first classification error.
pub fn tokenize_source(src: &str) -> (r: Result<Vec<Token>, TokenError>)
    ensures
        match r {
            Ok(ts) => spec_tokenize(src@) == Ok::<Seq<SpecToken>, SpecTokenError>(
                tokens_view(ts@),
            ),
            Err(e) => spec_tokenize(src@) == Err::<Seq<SpecToken>, SpecTokenError>(e@),
        },
{
    let split_src = split_tokens(src);
    let ghost frags = frags_view(split_src@);
    let mut tokens = Vec::<Token>::new();
    let mut k: usize = 0;
    while k < split_src.len()
        invariant
            k <= split_src.len(),
            frags == frags_view(split_src@),
            split_src@.len() == frags.len(),
            frags == spec_split_tokens(src@),
            forall|j: int| 0 <= j < k ==> spec_classify(frags[j]) is Ok,
            spec_classify_all(frags) == match spec_classify_all_from(frags, k as int) {
                Ok(ts) => Ok::<Seq<SpecToken>, SpecTokenError>(tokens_view(tokens@) + ts),
                Err(e) => Err::<Seq<SpecToken>, SpecTokenError>(e),
            },
        decreases split_src.len() - k,
    {
        proof {
            assert(frags[k as int] == split_src@[k as int]@);
        }
        match Token::try_from_str(split_src[k].as_str()) {
            Ok(t) => {
                let ghost pre = tokens_view(tokens@);
                let ghost tv = t@;
                tokens.push(t);
                proof {
                    assert(tokens_view(tokens@) =~= pre + seq![tv]);
                    if spec_classify_all_from(frags, k + 1) is Ok {
                        let ts = spec_classify_all_from(frags, k + 1)->Ok_0;
                        assert((pre + seq![tv]) + ts =~= pre + (seq![tv] + ts));
                    }
                }
            },
            Err(e) => {
                return Err(e);
            },
        }
        k += 1;
    }
    proof {
        assert(tokens_view(tokens@) + seq![] =~= tokens_view(tokens@));
    }
    Ok(tokens)
}

} // verus!
