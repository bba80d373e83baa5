use c_compiler::tokenise::{
    is_keyword, is_math_char, is_punc_char, is_str_literal_char, tokenise, LexError, Token,
};

fn s(x: &str) -> String {
    String::from(x)
}

#[test]
fn tokenises_declaration() {
    let toks = tokenise("int x = 5;").unwrap();
    assert_eq!(
        toks,
        vec![
            Token::Keyword(s("int")),
            Token::StringLiteral(s("x")),
            Token::Punctuation('='),
            Token::Int(5),
            Token::Punctuation(';'),
        ]
    );
}

#[test]
fn comparison_equal_is_reordered_ahead() {
    // The two-character comparison symbol is folded and re-ordered ahead of
    // the token emitted just before it, the prefix order the parser's
    // comparison grammar consumes.
    let toks = tokenise("x == 5").unwrap();
    assert_eq!(
        toks,
        vec![
            Token::MathSymbol(s("==")),
            Token::StringLiteral(s("x")),
            Token::Int(5),
        ]
    );
}

#[test]
fn negative_literal_is_one_token() {
    assert_eq!(tokenise("-5").unwrap(), vec![Token::Int(-5)]);
}

#[test]
fn plus_sign_folds_into_literal() {
    assert_eq!(tokenise("+5").unwrap(), vec![Token::Int(5)]);
}

#[test]
fn two_char_less_equal_reorders() {
    let toks = tokenise("x <= 5").unwrap();
    assert_eq!(
        toks,
        vec![
            Token::MathSymbol(s("<=")),
            Token::StringLiteral(s("x")),
            Token::Int(5),
        ]
    );
}

#[test]
fn math_symbol_reorders_past_left_operand() {
    let toks = tokenise("x + y").unwrap();
    assert_eq!(
        toks,
        vec![
            Token::MathSymbol(s("+")),
            Token::StringLiteral(s("x")),
            Token::StringLiteral(s("y")),
        ]
    );
}

#[test]
fn float_literal_keeps_its_text() {
    assert_eq!(tokenise("1.5").unwrap(), vec![Token::Float(s("1.5"))]);
    assert_eq!(tokenise("-2.25").unwrap(), vec![Token::Float(s("-2.25"))]);
}

#[test]
fn char_literal() {
    assert_eq!(tokenise("'a'").unwrap(), vec![Token::CharValue('a')]);
}

#[test]
fn string_value() {
    assert_eq!(tokenise("\"hello\"").unwrap(), vec![Token::StringValue(s("hello"))]);
}

#[test]
fn string_value_escaped_quote_does_not_terminate() {
    assert_eq!(
        tokenise("\"a\\\"b\"").unwrap(),
        vec![Token::StringValue(s("a\\\"b"))]
    );
}

#[test]
fn comment_is_discarded() {
    let toks = tokenise("x // the rest\ny").unwrap();
    assert_eq!(
        toks,
        vec![Token::StringLiteral(s("x")), Token::StringLiteral(s("y"))]
    );
}

#[test]
fn comment_at_end_of_input() {
    assert_eq!(tokenise("x // trailing").unwrap(), vec![Token::StringLiteral(s("x"))]);
}

#[test]
fn int_boundaries() {
    assert_eq!(tokenise("2147483647").unwrap(), vec![Token::Int(2147483647)]);
    assert_eq!(tokenise("-2147483648").unwrap(), vec![Token::Int(i32::MIN)]);
    assert_eq!(tokenise("2147483648"), Err(LexError::IntOutOfRange));
    assert_eq!(tokenise("-2147483649"), Err(LexError::IntOutOfRange));
}

#[test]
fn malformed_number() {
    assert_eq!(tokenise("1.2.3"), Err(LexError::MalformedNumber));
}

#[test]
fn unrecognised_character() {
    assert_eq!(tokenise("@"), Err(LexError::UnrecognisedChar('@')));
}

#[test]
fn unterminated_char_literal() {
    assert_eq!(tokenise("'a"), Err(LexError::UnterminatedCharLiteral));
    assert_eq!(tokenise("'ab'"), Err(LexError::UnterminatedCharLiteral));
}

#[test]
fn unterminated_string_value() {
    assert_eq!(tokenise("\"abc"), Err(LexError::UnterminatedStringLiteral));
}

#[test]
fn stray_slash() {
    assert_eq!(tokenise("/x"), Err(LexError::StraySlash));
}

#[test]
fn symbol_with_nothing_before_it() {
    assert_eq!(tokenise("< x"), Err(LexError::LeadingSymbol));
}

#[test]
fn symbol_at_end_of_input() {
    assert_eq!(tokenise("x +"), Err(LexError::SymbolAtEnd));
}

#[test]
fn extract_string_literal_only_from_barewords() {
    assert_eq!(
        Token::StringLiteral(s("name")).extract_string_literal(),
        Some(s("name"))
    );
    assert_eq!(Token::Keyword(s("int")).extract_string_literal(), None);
    assert_eq!(Token::Int(3).extract_string_literal(), None);
}

#[test]
fn character_classes() {
    assert!(is_keyword("int"));
    assert!(is_keyword("void"));
    assert!(is_keyword("char"));
    assert!(is_keyword("return"));
    assert!(is_keyword("if"));
    assert!(!is_keyword("while"));
    assert!(is_str_literal_char('a'));
    assert!(is_str_literal_char('_'));
    assert!(!is_str_literal_char('A'));
    assert!(is_punc_char('('));
    assert!(is_punc_char('='));
    assert!(!is_punc_char('+'));
    assert!(is_math_char('+'));
    assert!(is_math_char('<'));
    assert!(!is_math_char('='));
}
