use hydrogen::tokenizer::split_tokens;
use hydrogen::tokenizer::split_with_char;
use hydrogen::tokenizer::tokenize_source;
use hydrogen::tokenizer::Keywords;
use hydrogen::tokenizer::Operators;
use hydrogen::tokenizer::Token;
use hydrogen::tokenizer::TokenError;

#[test]
fn splits_symbol_adjacent_to_text_into_three_fragments() {
    // A keyword symbol glued to other characters is always its own fragment.
    let frags = split_tokens(";x;");
    assert_eq!(frags, vec![";".to_string(), "x".to_string(), ";".to_string()]);
}

#[test]
fn split_with_char_inserts_symbol_fragments() {
    let input = vec!["a;b".to_string()];
    let out = split_with_char(&input, ";");
    assert_eq!(out, vec!["a".to_string(), ";".to_string(), "b".to_string()]);
}

#[test]
fn split_with_char_keeps_empty_head_fragments() {
    // The piece before an occurrence is pushed even when empty; the
    // trailing piece only when non-empty. Empties are dropped later.
    let input = vec![";x;".to_string()];
    let out = split_with_char(&input, ";");
    assert_eq!(
        out,
        vec!["".to_string(), ";".to_string(), "x".to_string(), ";".to_string()]
    );
}

#[test]
fn split_with_char_handles_many_strings() {
    let input = vec!["x=1".to_string(), "y".to_string(), "".to_string()];
    let out = split_with_char(&input, "=");
    assert_eq!(
        out,
        vec!["x".to_string(), "=".to_string(), "1".to_string(), "y".to_string()]
    );
}

#[test]
fn tokenizes_exit_statement_without_whitespace() {
    let tokens = tokenize_source("exit(42);").unwrap();
    assert_eq!(
        tokens,
        vec![
            Token::Keyword(Keywords::Exit),
            Token::Keyword(Keywords::OpenParenthesis),
            Token::IntLit("42".to_string()),
            Token::Keyword(Keywords::CloseParenthesis),
            Token::Keyword(Keywords::Semi),
        ]
    );
}

#[test]
fn tokenizes_let_statement_with_mixed_spacing() {
    let tokens = tokenize_source("let x=5 ;").unwrap();
    assert_eq!(
        tokens,
        vec![
            Token::Keyword(Keywords::Let),
            Token::Ident("x".to_string()),
            Token::Keyword(Keywords::Assign),
            Token::IntLit("5".to_string()),
            Token::Keyword(Keywords::Semi),
        ]
    );
}

#[test]
fn tokenizes_plus_as_operator_keyword() {
    let tokens = tokenize_source("a+b").unwrap();
    assert_eq!(
        tokens,
        vec![
            Token::Ident("a".to_string()),
            Token::Keyword(Keywords::Operator(Operators::Plus)),
            Token::Ident("b".to_string()),
        ]
    );
}

#[test]
fn empty_source_yields_no_tokens() {
    assert_eq!(tokenize_source("").unwrap(), Vec::<Token>::new());
    assert_eq!(tokenize_source(" \t\n\r ").unwrap(), Vec::<Token>::new());
}

#[test]
fn reserved_multiplication_symbol_is_invalid() {
    let err = tokenize_source("exit(1 * 2);").unwrap_err();
    assert_eq!(err, TokenError::InvalidToken("*".to_string()));
}

#[test]
fn non_keyword_non_digit_fragment_is_identifier() {
    let tokens = tokenize_source("exit42 _x 1a").unwrap();
    assert_eq!(
        tokens,
        vec![
            Token::Ident("exit42".to_string()),
            Token::Ident("_x".to_string()),
            Token::Ident("1a".to_string()),
        ]
    );
}

#[test]
fn keywords_try_from_str_rejects_other_text() {
    assert_eq!(Keywords::try_from_str("exit").unwrap(), Keywords::Exit);
    assert_eq!(Keywords::try_from_str("let").unwrap(), Keywords::Let);
    assert_eq!(
        Keywords::try_from_str("+").unwrap(),
        Keywords::Operator(Operators::Plus)
    );
    let err = Keywords::try_from_str("foo").unwrap_err();
    assert_eq!(err, TokenError::Keyword("foo".to_string()));
}

#[test]
fn token_try_from_str_classifies_fragments() {
    assert_eq!(
        Token::try_from_str("123").unwrap(),
        Token::IntLit("123".to_string())
    );
    assert_eq!(
        Token::try_from_str("abc").unwrap(),
        Token::Ident("abc".to_string())
    );
    assert_eq!(
        Token::try_from_str(";").unwrap(),
        Token::Keyword(Keywords::Semi)
    );
    assert_eq!(
        Token::try_from_str("*").unwrap_err(),
        TokenError::InvalidToken("*".to_string())
    );
    assert_eq!(
        Token::try_from_str("").unwrap_err(),
        TokenError::InvalidToken("".to_string())
    );
}

#[test]
fn token_to_string_gives_text_or_keyword_name() {
    assert_eq!(Token::IntLit("7".to_string()).to_string(), "7");
    assert_eq!(Token::Ident("count".to_string()).to_string(), "count");
    assert_eq!(Token::Keyword(Keywords::Exit).to_string(), "Exit");
    assert_eq!(Token::Keyword(Keywords::Semi).to_string(), "Semi");
    assert_eq!(
        Token::Keyword(Keywords::OpenParenthesis).to_string(),
        "OpenParenthesis"
    );
    assert_eq!(
        Token::Keyword(Keywords::Operator(Operators::Plus)).to_string(),
        "Operator(Plus)"
    );
}

#[test]
fn duplicate_copies_a_token_exactly() {
    let t = Token::IntLit("42".to_string());
    assert_eq!(t.duplicate(), t);
    let k = Token::Keyword(Keywords::Let);
    assert_eq!(k.duplicate(), k);
    let i = Token::Ident("abc".to_string());
    assert_eq!(i.duplicate(), i);
}

#[test]
fn tokenization_is_deterministic() {
    let src = "let a = 1; let b = a + 2; exit(a + b);";
    let first = tokenize_source(src).unwrap();
    let second = tokenize_source(src).unwrap();
    assert_eq!(first, second);
}
