use myparse::lexer::{LexErrorKind, Lexer, Loc, Token};

#[test]
fn test_lexer() {
    let mut lexer = Lexer::new("1 + 2 * 3 - -10");
    assert_eq!(
        lexer.lex(),
        Ok(vec![
            Token::number(1, Loc(0, 1)),
            Token::plus(Loc(2, 3)),
            Token::number(2, Loc(4, 5)),
            Token::asterisk(Loc(6, 7)),
            Token::number(3, Loc(8, 9)),
            Token::minus(Loc(10, 11)),
            Token::minus(Loc(12, 13)),
            Token::number(10, Loc(13, 15)),
        ])
    )
}

#[test]
fn test_lexer_empty_and_whitespace() {
    let mut lexer = Lexer::new("");
    assert_eq!(lexer.lex(), Ok(vec![]));
    let mut lexer = Lexer::new(" \t\n ");
    assert_eq!(lexer.lex(), Ok(vec![]));
}

#[test]
fn test_lexer_parens() {
    let mut lexer = Lexer::new("(7)/2");
    assert_eq!(
        lexer.lex(),
        Ok(vec![
            Token::lparen(Loc(0, 1)),
            Token::number(7, Loc(1, 2)),
            Token::rparen(Loc(2, 3)),
            Token::slash(Loc(3, 4)),
            Token::number(2, Loc(4, 5)),
        ])
    )
}

#[test]
fn test_lexer_invalid_char() {
    let mut lexer = Lexer::new("1 + a");
    let err = lexer.lex().unwrap_err();
    assert_eq!(err.value, LexErrorKind::InvalidChar('a'));
    assert_eq!(err.loc, Loc(4, 5));
}

#[test]
fn test_lexer_number_at_u64_max() {
    let mut lexer = Lexer::new("18446744073709551615");
    assert_eq!(
        lexer.lex(),
        Ok(vec![Token::number(u64::MAX, Loc(0, 20))])
    );
}

#[test]
fn test_lexer_number_overflow() {
    let mut lexer = Lexer::new("18446744073709551616");
    let err = lexer.lex().unwrap_err();
    assert_eq!(err.value, LexErrorKind::NumberOverflow);
    assert_eq!(err.loc, Loc(0, 20));
}

#[test]
fn test_consume_byte_eof_and_mismatch() {
    let mut lexer = Lexer::new("");
    let err = lexer.consume_byte(b'+').unwrap_err();
    assert_eq!(err.value, LexErrorKind::Eof);
    assert_eq!(err.loc, Loc(0, 0));

    let mut lexer = Lexer::new("*");
    let err = lexer.consume_byte(b'+').unwrap_err();
    assert_eq!(err.value, LexErrorKind::InvalidChar('*'));
    assert_eq!(err.loc, Loc(0, 1));

    let mut lexer = Lexer::new("+");
    assert_eq!(lexer.consume_byte(b'+'), Ok((b'+', 1)));
}

#[test]
fn test_merge_commutative_and_idempotent() {
    // Overlapping spans: the covering span either way around.
    assert_eq!(Loc(0, 2).merge(&Loc(1, 5)), Loc(0, 5));
    assert_eq!(Loc(1, 5).merge(&Loc(0, 2)), Loc(0, 5));
    // Disjoint spans: still the same covering span either way around.
    assert_eq!(Loc(0, 1).merge(&Loc(4, 5)), Loc(0, 5));
    assert_eq!(Loc(4, 5).merge(&Loc(0, 1)), Loc(0, 5));
    // Merging a span with itself gives it back.
    assert_eq!(Loc(3, 7).merge(&Loc(3, 7)), Loc(3, 7));
}

#[test]
fn test_lexer_whitespace_same_kinds() {
    let mut tight = Lexer::new("1-2");
    let mut spaced = Lexer::new("1 - 2");
    let tight_tokens = tight.lex().unwrap();
    let spaced_tokens = spaced.lex().unwrap();
    let tight_kinds: Vec<_> = tight_tokens.iter().map(|t| t.value).collect();
    let spaced_kinds: Vec<_> = spaced_tokens.iter().map(|t| t.value).collect();
    assert_eq!(tight_kinds, spaced_kinds);
}
