use myparse::lexer::{Lexer, Loc, Token};
use myparse::parser::{parse, parse_expr3_op, Ast, BinOp, ParseError, UniOp};

#[test]
fn test_parser() {
    // 1 + 2 * 3 - -10
    let ast = parse(vec![
        Token::number(1, Loc(0, 1)),
        Token::plus(Loc(2, 3)),
        Token::number(2, Loc(4, 5)),
        Token::asterisk(Loc(6, 7)),
        Token::number(3, Loc(8, 9)),
        Token::minus(Loc(10, 11)),
        Token::minus(Loc(12, 13)),
        Token::number(10, Loc(13, 15)),
    ]);
    assert_eq!(
        ast,
        Ok(Ast::binop(
            BinOp::sub(Loc(10, 11)),
            Ast::binop(
                BinOp::add(Loc(2, 3)),
                Ast::num(1, Loc(0, 1)),
                Ast::binop(
                    BinOp::mul(Loc(6, 7)),
                    Ast::num(2, Loc(4, 5)),
                    Ast::num(3, Loc(8, 9)),
                    Loc(4, 9)
                ),
                Loc(0, 9)
            ),
            Ast::uniop(
                UniOp::minus(Loc(12, 13)),
                Ast::num(10, Loc(13, 15)),
                Loc(12, 15)
            ),
            Loc(0, 15)
        ))
    )
}

fn lex_all(input: &str) -> Vec<Token> {
    let mut lexer = Lexer::new(input);
    lexer.lex().unwrap()
}

#[test]
fn test_parser_division() {
    // 1/0 parses to Div(1, 0); the zero denominator is the
    // evaluator's business, not the parser's.
    let tokens = lex_all("1/0");
    assert_eq!(tokens.len(), 3);
    assert_eq!(
        parse(tokens),
        Ok(Ast::binop(
            BinOp::div(Loc(1, 2)),
            Ast::num(1, Loc(0, 1)),
            Ast::num(0, Loc(2, 3)),
            Loc(0, 3)
        ))
    );
}

#[test]
fn test_parser_unclosed_paren() {
    let err = parse(lex_all("(1 + 2")).unwrap_err();
    assert_eq!(err, ParseError::UnclosedOpenParen(Token::lparen(Loc(0, 1))));
}

#[test]
fn test_parser_redundant_expression() {
    let err = parse(lex_all("1 + 2)")).unwrap_err();
    assert_eq!(
        err,
        ParseError::RedundantExpression(Token::rparen(Loc(5, 6)))
    );
}

#[test]
fn test_parser_not_expression() {
    let err = parse(lex_all("1 + * 2")).unwrap_err();
    assert_eq!(err, ParseError::NotExpression(Token::asterisk(Loc(4, 5))));
}

#[test]
fn test_parser_eof() {
    let err = parse(lex_all("1 +")).unwrap_err();
    assert_eq!(err, ParseError::Eof);
    let err = parse(vec![]).unwrap_err();
    assert_eq!(err, ParseError::Eof);
}

#[test]
fn test_parser_not_operator_is_internal_signal() {
    // `NotOperator` is the control signal a tier's fold uses to stop:
    // the operator recognizer reports it without consuming anything,
    // and a whole parse never surfaces it.
    let tokens = vec![Token::number(1, Loc(0, 1))];
    let mut pos: usize = 0;
    let err = parse_expr3_op(&tokens, &mut pos).unwrap_err();
    assert_eq!(err, ParseError::NotOperator(Token::number(1, Loc(0, 1))));
    assert_eq!(pos, 0);
    assert_eq!(parse(tokens), Ok(Ast::num(1, Loc(0, 1))));
}

#[test]
fn test_parser_parens_keep_inner_span() {
    // The parentheses leave no trace: the tree is the inner
    // expression with its own span.
    assert_eq!(
        parse(lex_all("(7)")),
        Ok(Ast::num(7, Loc(1, 2)))
    );
}

#[test]
fn test_parser_full_span_covers_input() {
    // Lexing then parsing consumes every token, and with no outer
    // parentheses or surrounding whitespace the root span is the
    // whole input.
    let input = "1 + (2 * 3) - 4";
    let ast = parse(lex_all(input)).unwrap();
    assert_eq!(ast.loc, Loc(0, input.len()));
}

#[test]
fn test_parser_whitespace_insensitive_structure() {
    let tight = parse(lex_all("1-2")).unwrap();
    let spaced = parse(lex_all("1 - 2")).unwrap();
    // Structurally identical up to spans.
    assert_eq!(
        tight,
        Ast::binop(
            BinOp::sub(Loc(1, 2)),
            Ast::num(1, Loc(0, 1)),
            Ast::num(2, Loc(2, 3)),
            Loc(0, 3)
        )
    );
    assert_eq!(
        spaced,
        Ast::binop(
            BinOp::sub(Loc(2, 3)),
            Ast::num(1, Loc(0, 1)),
            Ast::num(2, Loc(4, 5)),
            Loc(0, 5)
        )
    );
}
