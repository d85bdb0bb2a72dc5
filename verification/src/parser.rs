//! The parser: a recursive-descent state machine turning the token
//! sequence into a precedence-correct abstract syntax tree.
//!
//! The grammar, precedence low to high, both binary tiers
//! left-associative:
//!
//! ```text
//! EXPR  := EXPR3
//! EXPR3 := EXPR2 ( ("+" | "-") EXPR2 )*
//! EXPR2 := EXPR1 ( ("*" | "/") EXPR1 )*
//! EXPR1 := ("+" | "-")? ATOM
//! ATOM  := NUMBER | "(" EXPR3 ")"
//! ```

use vstd::prelude::*;
use crate::lexer::{
    spec_lex_from,
    token_spans_ordered,
    lemma_lex_token_spans,
    Annot,
    LexError,
    Loc,
    Token,
    TokenKind,
};

verus! {

/// The grammar violations parsing can fail with.
#[derive(Debug, Clone, PartialEq, Eq, Hash)]
pub enum ParseError {
    /// Reserved for structurally unexpected tokens outside the
    /// taxonomy below; the grammar here never raises it.
    UnexpectedToken(Token),
    /// A token that cannot start an atom stands where an atom is
    /// expected.
    NotExpression(Token),
    /// A control signal inside a binary tier's loop: the next token is
    /// no operator of that tier. Never the outward-facing error of a
    /// whole parse.
    NotOperator(Token),
    /// Input ended before a matching `)` was found.
    UnclosedOpenParen(Token),
    /// Unconsumed tokens remain after a complete expression.
    RedundantExpression(Token),
    /// An operator or subexpression was expected but the tokens were
    /// exhausted.
    Eof,
}

/// The shapes of a syntax tree node.
#[derive(Debug, PartialEq, Eq, Hash)]
pub enum AstNode {
    /// A number literal.
    Num(u64),
    /// A unary operator applied to one operand.
    UniOp { op: UniOp, e: Box<Ast> },
    /// A binary operator applied to two operands.
    BinOp { op: BinOp, l: Box<Ast>, r: Box<Ast> },
}

/// A syntax tree node with the span of the source it covers: the
/// same pairing as [`Annot`], as its own type because the tree nests
/// within itself.
#[derive(Debug, PartialEq, Eq, Hash)]
pub struct Ast {
    pub value: AstNode,
    pub loc: Loc,
}

impl Ast {
    /// Pairs a node shape with the span it covers.
    pub fn new(value: AstNode, loc: Loc) -> (r: Self)
        ensures
            r.value == value,
            r.loc == loc,
    {
        Self { value, loc }
    }

    pub fn num(n: u64, loc: Loc) -> (r: Self)
        ensures
            r == (Ast { value: AstNode::Num(n), loc }),
    {
        Self::new(AstNode::Num(n), loc)
    }

    pub fn uniop(op: UniOp, e: Ast, loc: Loc) -> (r: Self)
        ensures
            r == (Ast { value: AstNode::UniOp { op, e: Box::new(e) }, loc }),
    {
        Self::new(AstNode::UniOp { op, e: Box::new(e) }, loc)
    }

    pub fn binop(op: BinOp, l: Ast, r: Ast, loc: Loc) -> (res: Self)
        ensures
            res == (Ast {
                value: AstNode::BinOp { op, l: Box::new(l), r: Box::new(r) },
                loc,
            }),
    {
        Self::new(AstNode::BinOp { op, l: Box::new(l), r: Box::new(r) }, loc)
    }
}

/// The kinds of unary operator.
#[derive(Debug, Clone, Copy, PartialEq, Eq, Hash)]
pub enum UniOpKind {
    Plus,
    Minus,
}

/// A unary operator with the span of its token.
pub type UniOp = Annot<UniOpKind>;

impl UniOp {
    pub fn plus(loc: Loc) -> (r: Self)
        ensures
            r == (Annot { value: UniOpKind::Plus, loc }),
    {
        Self::new(UniOpKind::Plus, loc)
    }

    pub fn minus(loc: Loc) -> (r: Self)
        ensures
            r == (Annot { value: UniOpKind::Minus, loc }),
    {
        Self::new(UniOpKind::Minus, loc)
    }
}

/// The kinds of binary operator.
#[derive(Debug, Clone, Copy, PartialEq, Eq, Hash)]
pub enum BinOpKind {
    Add,
    Sub,
    Mul,
    Div,
}

/// A binary operator with the span of its token.
pub type BinOp = Annot<BinOpKind>;

impl BinOp {
    pub fn add(loc: Loc) -> (r: Self)
        ensures
            r == (Annot { value: BinOpKind::Add, loc }),
    {
        Self::new(BinOpKind::Add, loc)
    }

    pub fn sub(loc: Loc) -> (r: Self)
        ensures
            r == (Annot { value: BinOpKind::Sub, loc }),
    {
        Self::new(BinOpKind::Sub, loc)
    }

    pub fn mul(loc: Loc) -> (r: Self)
        ensures
            r == (Annot { value: BinOpKind::Mul, loc }),
    {
        Self::new(BinOpKind::Mul, loc)
    }

    pub fn div(loc: Loc) -> (r: Self)
        ensures
            r == (Annot { value: BinOpKind::Div, loc }),
    {
        Self::new(BinOpKind::Div, loc)
    }
}

/// The two binary-operator tiers of the grammar: `EXPR3` folds `+`
/// and `-`, `EXPR2` folds `*` and `/`. The tier decides which tokens
/// count as operators and which parser handles the next-tighter
/// subexpression.
#[derive(Debug, Clone, Copy, PartialEq, Eq)]
pub enum BinOpTier {
    /// The additive tier, `EXPR3`.
    AddSub,
    /// The multiplicative tier, `EXPR2`.
    MulDiv,
}

/// The additive-tier operator at `pos`: `+` or `-` becomes a
/// consumed `Add`/`Sub` operator, any other token is refused with
/// `NotOperator` (unconsumed), exhausted input with `Eof`.
pub open spec fn spec_parse_expr3_op(toks: Seq<Token>, pos: int) -> Result<
    (BinOp, int),
    ParseError,
> {
    if pos < 0 || pos >= toks.len() {
        Err(ParseError::Eof)
    } else {
        match toks[pos].value {
            TokenKind::Plus => Ok(
                (Annot { value: BinOpKind::Add, loc: toks[pos].loc }, pos + 1),
            ),
            TokenKind::Minus => Ok(
                (Annot { value: BinOpKind::Sub, loc: toks[pos].loc }, pos + 1),
            ),
            _ => Err(ParseError::NotOperator(toks[pos])),
        }
    }
}

/// The multiplicative-tier operator at `pos`, as for the additive
/// tier with `*`/`/` and `Mul`/`Div`.
pub open spec fn spec_parse_expr2_op(toks: Seq<Token>, pos: int) -> Result<
    (BinOp, int),
    ParseError,
> {
    if pos < 0 || pos >= toks.len() {
        Err(ParseError::Eof)
    } else {
        match toks[pos].value {
            TokenKind::Asterisk => Ok(
                (Annot { value: BinOpKind::Mul, loc: toks[pos].loc }, pos + 1),
            ),
            TokenKind::Slash => Ok(
                (Annot { value: BinOpKind::Div, loc: toks[pos].loc }, pos + 1),
            ),
            _ => Err(ParseError::NotOperator(toks[pos])),
        }
    }
}

/// The operator recognizer of tier `tier`.
pub open spec fn spec_parse_tier_op(toks: Seq<Token>, pos: int, tier: BinOpTier) -> Result<
    (BinOp, int),
    ParseError,
> {
    match tier {
        BinOpTier::AddSub => spec_parse_expr3_op(toks, pos),
        BinOpTier::MulDiv => spec_parse_expr2_op(toks, pos),
    }
}

/// `ATOM`: a number token becomes a leaf; `(` parses a full `EXPR3`
/// and requires the very next token to be `)`, the parentheses
/// leaving no trace in the tree (the node keeps the inner span); any
/// other token fails with `NotExpression`, exhausted input with
/// `Eof`.
///
/// In this and the following parsing functions, a position handed
/// back by a recursive call is checked to lie beyond `pos` before it
/// feeds further recursion, so that the mutual recursion visibly
/// terminates; parsing never actually yields a non-advancing position
/// (`lemma_parse_atom_bounds` and its companions), so the `Eof`
/// fallbacks of those checks are dead.
pub open spec fn spec_parse_atom(toks: Seq<Token>, pos: int) -> Result<(Ast, int), ParseError>
    decreases toks.len() - pos, 0int,
{
    if pos < 0 || pos >= toks.len() {
        Err(ParseError::Eof)
    } else {
        let t = toks[pos];
        match t.value {
            TokenKind::Number(n) => Ok((Ast { value: AstNode::Num(n), loc: t.loc }, pos + 1)),
            TokenKind::LParen => match spec_parse_expr3(toks, pos + 1) {
                Ok((e, p)) => if p < toks.len() {
                    if toks[p].value is RParen {
                        Ok((e, p + 1))
                    } else {
                        Err(ParseError::RedundantExpression(toks[p]))
                    }
                } else {
                    Err(ParseError::UnclosedOpenParen(t))
                },
                Err(err) => Err(err),
            },
            _ => Err(ParseError::NotExpression(t)),
        }
    }
}

/// `EXPR1`: an optional sign applied to an `ATOM`; the node's span
/// covers the sign and the operand.
pub open spec fn spec_parse_expr1(toks: Seq<Token>, pos: int) -> Result<(Ast, int), ParseError>
    decreases toks.len() - pos, 1int,
{
    if 0 <= pos < toks.len() && (toks[pos].value is Plus || toks[pos].value is Minus) {
        let op = Annot {
            value: if toks[pos].value is Plus {
                UniOpKind::Plus
            } else {
                UniOpKind::Minus
            },
            loc: toks[pos].loc,
        };
        match spec_parse_atom(toks, pos + 1) {
            Ok((e, p)) => Ok(
                (
                    Ast {
                        value: AstNode::UniOp { op, e: Box::new(e) },
                        loc: op.loc.spec_merge(e.loc),
                    },
                    p,
                ),
            ),
            Err(err) => Err(err),
        }
    } else {
        spec_parse_atom(toks, pos)
    }
}

/// The subexpression parser of tier `tier`: one tier tighter for the
/// additive tier, `EXPR1` for the multiplicative one.
pub open spec fn spec_parse_tier_sub(toks: Seq<Token>, pos: int, tier: BinOpTier) -> Result<
    (Ast, int),
    ParseError,
>
    decreases toks.len() - pos, 3int,
{
    match tier {
        BinOpTier::AddSub => spec_parse_expr2(toks, pos),
        BinOpTier::MulDiv => spec_parse_expr1(toks, pos),
    }
}

/// `EXPR2`: an `EXPR1` followed by the fold of any `*`/`/` chain.
pub open spec fn spec_parse_expr2(toks: Seq<Token>, pos: int) -> Result<(Ast, int), ParseError>
    decreases toks.len() - pos, 2int,
{
    match spec_parse_expr1(toks, pos) {
        Ok((e, p)) => if pos < p <= toks.len() {
            spec_parse_binop_loop(toks, p, e, BinOpTier::MulDiv)
        } else {
            Err(ParseError::Eof)
        },
        Err(err) => Err(err),
    }
}

/// `EXPR3`: an `EXPR2` followed by the fold of any `+`/`-` chain.
pub open spec fn spec_parse_expr3(toks: Seq<Token>, pos: int) -> Result<(Ast, int), ParseError>
    decreases toks.len() - pos, 4int,
{
    match spec_parse_expr2(toks, pos) {
        Ok((e, p)) => if pos < p <= toks.len() {
            spec_parse_binop_loop(toks, p, e, BinOpTier::AddSub)
        } else {
            Err(ParseError::Eof)
        },
        Err(err) => Err(err),
    }
}

/// The left-associative fold shared by the two binary tiers: with
/// `acc` already parsed, as long as the next token is an operator of
/// the tier, consume it, parse one more subexpression, and fold the
/// two into a `BinOp` node whose span covers both operands; stop
/// without consuming on any other token or at the end of input. An
/// operator of another tier, a closing parenthesis, and exhausted
/// input all end the fold cleanly.
pub open spec fn spec_parse_binop_loop(toks: Seq<Token>, pos: int, acc: Ast, tier: BinOpTier) -> Result<
    (Ast, int),
    ParseError,
>
    decreases toks.len() - pos, 5int,
{
    if pos < 0 || pos >= toks.len() {
        Ok((acc, pos))
    } else {
        match spec_parse_tier_op(toks, pos, tier) {
            Err(_) => Ok((acc, pos)),
            Ok((op, p1)) => match spec_parse_tier_sub(toks, pos + 1, tier) {
                Ok((r, p2)) => if pos + 1 < p2 <= toks.len() {
                    spec_parse_binop_loop(
                        toks,
                        p2,
                        Ast {
                            value: AstNode::BinOp {
                                op,
                                l: Box::new(acc),
                                r: Box::new(r),
                            },
                            loc: acc.loc.spec_merge(r.loc),
                        },
                        tier,
                    )
                } else {
                    Err(ParseError::Eof)
                },
                Err(err) => Err(err),
            },
        }
    }
}

/// `EXPR`, the whole grammar: an `EXPR3`.
pub open spec fn spec_parse_expr(toks: Seq<Token>, pos: int) -> Result<(Ast, int), ParseError> {
    spec_parse_expr3(toks, pos)
}

/// A whole parse: one `EXPR` that must consume every token; anything
/// left over fails with `RedundantExpression` carrying the first
/// leftover token.
pub open spec fn spec_parse(toks: Seq<Token>) -> Result<Ast, ParseError> {
    match spec_parse_expr(toks, 0) {
        Ok((ast, p)) => if p < toks.len() {
            Err(ParseError::RedundantExpression(toks[p]))
        } else {
            Ok(ast)
        },
        Err(e) => Err(e),
    }
}

/// What every tier of the parser guarantees of its result: a success
/// consumes at least one token and never passes the end of input, and
/// a failure is never the internal `NotOperator` signal.
pub open spec fn parse_result_bounded(
    toks: Seq<Token>,
    pos: int,
    r: Result<(Ast, int), ParseError>,
) -> bool {
    match r {
        Ok((a, p)) => pos < p <= toks.len(),
        Err(e) => !(e is NotOperator),
    }
}

/// `ATOM` consumes at least one token on success, stays within the
/// input, and never fails with `NotOperator`.
pub proof fn lemma_parse_atom_bounds(toks: Seq<Token>, pos: int)
    ensures
        parse_result_bounded(toks, pos, spec_parse_atom(toks, pos)),
    decreases toks.len() - pos, 0int,
{
    if 0 <= pos < toks.len() && toks[pos].value is LParen {
        lemma_parse_expr3_bounds(toks, pos + 1);
    }
}

/// `EXPR1` consumes at least one token on success, stays within the
/// input, and never fails with `NotOperator`.
pub proof fn lemma_parse_expr1_bounds(toks: Seq<Token>, pos: int)
    ensures
        parse_result_bounded(toks, pos, spec_parse_expr1(toks, pos)),
    decreases toks.len() - pos, 1int,
{
    if 0 <= pos < toks.len() && (toks[pos].value is Plus || toks[pos].value is Minus) {
        lemma_parse_atom_bounds(toks, pos + 1);
    } else {
        lemma_parse_atom_bounds(toks, pos);
    }
}

/// The subexpression parser of each tier consumes at least one token
/// on success, stays within the input, and never fails with
/// `NotOperator`.
pub proof fn lemma_parse_tier_sub_bounds(toks: Seq<Token>, pos: int, tier: BinOpTier)
    ensures
        parse_result_bounded(toks, pos, spec_parse_tier_sub(toks, pos, tier)),
    decreases toks.len() - pos, 3int,
{
    match tier {
        BinOpTier::AddSub => lemma_parse_expr2_bounds(toks, pos),
        BinOpTier::MulDiv => lemma_parse_expr1_bounds(toks, pos),
    }
}

/// `EXPR2` consumes at least one token on success, stays within the
/// input, and never fails with `NotOperator`.
pub proof fn lemma_parse_expr2_bounds(toks: Seq<Token>, pos: int)
    ensures
        parse_result_bounded(toks, pos, spec_parse_expr2(toks, pos)),
    decreases toks.len() - pos, 2int,
{
    lemma_parse_expr1_bounds(toks, pos);
    if let Ok((e, p)) = spec_parse_expr1(toks, pos) {
        lemma_parse_binop_loop_bounds(toks, p, e, BinOpTier::MulDiv);
    }
}

/// `EXPR3` consumes at least one token on success, stays within the
/// input, and never fails with `NotOperator`.
pub proof fn lemma_parse_expr3_bounds(toks: Seq<Token>, pos: int)
    ensures
        parse_result_bounded(toks, pos, spec_parse_expr3(toks, pos)),
    decreases toks.len() - pos, 4int,
{
    lemma_parse_expr2_bounds(toks, pos);
    if let Ok((e, p)) = spec_parse_expr2(toks, pos) {
        lemma_parse_binop_loop_bounds(toks, p, e, BinOpTier::AddSub);
    }
}

/// The binary fold never moves the cursor backwards or past the end,
/// and never fails with `NotOperator`.
pub proof fn lemma_parse_binop_loop_bounds(toks: Seq<Token>, pos: int, acc: Ast, tier: BinOpTier)
    requires
        0 <= pos <= toks.len(),
    ensures
        match spec_parse_binop_loop(toks, pos, acc, tier) {
            Ok((a, p)) => pos <= p <= toks.len(),
            Err(e) => !(e is NotOperator),
        },
    decreases toks.len() - pos, 5int,
{
    if 0 <= pos < toks.len() {
        if let Ok((op, p1)) = spec_parse_tier_op(toks, pos, tier) {
            lemma_parse_tier_sub_bounds(toks, pos + 1, tier);
            if let Ok((r, p2)) = spec_parse_tier_sub(toks, pos + 1, tier) {
                let folded = Ast {
                    value: AstNode::BinOp { op, l: Box::new(acc), r: Box::new(r) },
                    loc: acc.loc.spec_merge(r.loc),
                };
                lemma_parse_binop_loop_bounds(toks, p2, folded, tier);
            }
        }
    }
}

/// A whole successful parse consumes the token stream exactly: no
/// token is left over, and none is read past the end.
pub proof fn lemma_parse_consumes_all(toks: Seq<Token>)
    ensures
        spec_parse(toks) matches Ok(ast) ==> spec_parse_expr(toks, 0) == Ok::<
            (Ast, int),
            ParseError,
        >((ast, toks.len() as int)),
{
    lemma_parse_expr3_bounds(toks, 0);
}

/// `NotOperator` is only ever a control signal inside a binary tier's
/// fold; a whole parse never fails with it.
pub proof fn lemma_parse_never_not_operator(toks: Seq<Token>)
    ensures
        spec_parse(toks) matches Err(e) ==> !(e is NotOperator),
{
    lemma_parse_expr3_bounds(toks, 0);
}

/// The place of each tier's fold in the termination order of the
/// mutually recursive parsing functions.
pub open spec fn tier_rank(tier: BinOpTier) -> int {
    match tier {
        BinOpTier::AddSub => 4,
        BinOpTier::MulDiv => 2,
    }
}

/// How the span of a successfully parsed subexpression sits among the
/// spans of the tokens it was parsed from: it starts at the first
/// token (exactly, unless that token is an opening parenthesis, which
/// the tree drops) and ends at the last consumed token (exactly,
/// unless that token is a closing parenthesis).
pub open spec fn parse_spans_cover(
    toks: Seq<Token>,
    pos: int,
    r: Result<(Ast, int), ParseError>,
) -> bool {
    r matches Ok((a, p)) ==> {
        &&& toks[pos].loc.0 <= a.loc.0
        &&& !(toks[pos].value is LParen) ==> a.loc.0 == toks[pos].loc.0
        &&& a.loc.1 <= toks[p - 1].loc.1
        &&& !(toks[p - 1].value is RParen) ==> a.loc.1 == toks[p - 1].loc.1
        &&& a.loc.0 <= a.loc.1
    }
}

/// A successful `ATOM` covers its tokens as `parse_spans_cover` says.
pub proof fn lemma_parse_atom_spans(toks: Seq<Token>, pos: int)
    requires
        token_spans_ordered(toks),
        0 <= pos,
    ensures
        parse_spans_cover(toks, pos, spec_parse_atom(toks, pos)),
    decreases toks.len() - pos, 0int,
{
    if 0 <= pos < toks.len() && toks[pos].value is LParen {
        lemma_parse_expr3_bounds(toks, pos + 1);
        lemma_parse_expr3_spans(toks, pos + 1);
        if let Ok((e, p2)) = spec_parse_expr3(toks, pos + 1) {
            assert(toks[pos].loc.1 <= toks[pos + 1].loc.0);
            if p2 < toks.len() && toks[p2].value is RParen {
                assert(toks[p2 - 1].loc.1 <= toks[p2].loc.0);
                assert(toks[p2].loc.0 < toks[p2].loc.1);
            }
        }
    }
}

/// A successful `EXPR1` covers its tokens as `parse_spans_cover` says.
pub proof fn lemma_parse_expr1_spans(toks: Seq<Token>, pos: int)
    requires
        token_spans_ordered(toks),
        0 <= pos,
    ensures
        parse_spans_cover(toks, pos, spec_parse_expr1(toks, pos)),
    decreases toks.len() - pos, 1int,
{
    if 0 <= pos < toks.len() && (toks[pos].value is Plus || toks[pos].value is Minus) {
        lemma_parse_atom_bounds(toks, pos + 1);
        lemma_parse_atom_spans(toks, pos + 1);
        if let Ok((e, p)) = spec_parse_atom(toks, pos + 1) {
            assert(toks[pos].loc.1 <= toks[pos + 1].loc.0);
            assert(toks[pos].loc.0 < toks[pos].loc.1);
        }
    } else {
        lemma_parse_atom_spans(toks, pos);
    }
}

/// A successful tier subexpression covers its tokens as
/// `parse_spans_cover` says.
pub proof fn lemma_parse_tier_sub_spans(toks: Seq<Token>, pos: int, tier: BinOpTier)
    requires
        token_spans_ordered(toks),
        0 <= pos,
    ensures
        parse_spans_cover(toks, pos, spec_parse_tier_sub(toks, pos, tier)),
    decreases toks.len() - pos, 3int,
{
    match tier {
        BinOpTier::AddSub => lemma_parse_expr2_spans(toks, pos),
        BinOpTier::MulDiv => lemma_parse_expr1_spans(toks, pos),
    }
}

/// A successful `EXPR2` covers its tokens as `parse_spans_cover` says.
pub proof fn lemma_parse_expr2_spans(toks: Seq<Token>, pos: int)
    requires
        token_spans_ordered(toks),
        0 <= pos,
    ensures
        parse_spans_cover(toks, pos, spec_parse_expr2(toks, pos)),
    decreases toks.len() - pos, 2int,
{
    lemma_parse_expr1_bounds(toks, pos);
    lemma_parse_expr1_spans(toks, pos);
    if let Ok((e, p)) = spec_parse_expr1(toks, pos) {
        lemma_parse_binop_loop_spans(toks, p, e, BinOpTier::MulDiv);
    }
}

/// A successful `EXPR3` covers its tokens as `parse_spans_cover` says.
pub proof fn lemma_parse_expr3_spans(toks: Seq<Token>, pos: int)
    requires
        token_spans_ordered(toks),
        0 <= pos,
    ensures
        parse_spans_cover(toks, pos, spec_parse_expr3(toks, pos)),
    decreases toks.len() - pos, 4int,
{
    lemma_parse_expr2_bounds(toks, pos);
    lemma_parse_expr2_spans(toks, pos);
    if let Ok((e, p)) = spec_parse_expr2(toks, pos) {
        lemma_parse_binop_loop_spans(toks, p, e, BinOpTier::AddSub);
    }
}

/// The binary fold keeps the left end of the accumulated span and
/// moves its right end to the last consumed token.
pub proof fn lemma_parse_binop_loop_spans(toks: Seq<Token>, pos: int, acc: Ast, tier: BinOpTier)
    requires
        token_spans_ordered(toks),
        1 <= pos <= toks.len(),
        acc.loc.0 <= acc.loc.1,
        acc.loc.1 <= toks[pos - 1].loc.1,
        !(toks[pos - 1].value is RParen) ==> acc.loc.1 == toks[pos - 1].loc.1,
    ensures
        match spec_parse_binop_loop(toks, pos, acc, tier) {
            Ok((a, p)) => {
                &&& a.loc.0 == acc.loc.0
                &&& a.loc.0 <= a.loc.1
                &&& 1 <= p
                &&& a.loc.1 <= toks[p - 1].loc.1
                &&& !(toks[p - 1].value is RParen) ==> a.loc.1 == toks[p - 1].loc.1
            },
            Err(_) => true,
        },
    decreases toks.len() - pos, 5int,
{
    if 0 <= pos < toks.len() {
        if let Ok((op, p1)) = spec_parse_tier_op(toks, pos, tier) {
            lemma_parse_tier_sub_bounds(toks, pos + 1, tier);
            lemma_parse_tier_sub_spans(toks, pos + 1, tier);
            if let Ok((r, p2)) = spec_parse_tier_sub(toks, pos + 1, tier) {
                assert(toks[pos - 1].loc.1 <= toks[pos + 1].loc.0);
                let folded = Ast {
                    value: AstNode::BinOp { op, l: Box::new(acc), r: Box::new(r) },
                    loc: acc.loc.spec_merge(r.loc),
                };
                lemma_parse_binop_loop_spans(toks, p2, folded, tier);
            }
        }
    }
}

/// For a line whose tokens tile it completely — it neither starts nor
/// ends with whitespace — and whose first and last tokens are not
/// parentheses, a successful lex followed by a successful parse
/// consumes the whole token sequence and yields a tree whose span is
/// the full input, `[0, length)`. (With an outer parenthesis the tree
/// keeps the inner span instead, and leading or trailing whitespace
/// lies outside every token.)
pub proof fn lemma_parse_spans_whole_input(s: Seq<u8>, toks: Seq<Token>, ast: Ast)
    requires
        s.len() <= usize::MAX,
        spec_lex_from(s, 0) == Ok::<Seq<Token>, LexError>(toks),
        spec_parse(toks) == Ok::<Ast, ParseError>(ast),
        toks.len() > 0,
        toks[0].loc.0 == 0,
        toks[toks.len() - 1].loc.1 == s.len(),
        !(toks[0].value is LParen),
        !(toks[toks.len() - 1].value is RParen),
    ensures
        spec_parse_expr(toks, 0) == Ok::<(Ast, int), ParseError>((ast, toks.len() as int)),
        ast.loc == Loc(0usize, s.len() as usize),
{
    lemma_lex_token_spans(s, 0);
    lemma_parse_expr3_bounds(toks, 0);
    lemma_parse_expr3_spans(toks, 0);
}

/// Whether two trees are structurally identical: the same shapes, the
/// same numbers, and the same operator kinds throughout, with the
/// spans free to differ.
pub open spec fn same_shape(a: Ast, b: Ast) -> bool
    decreases a,
{
    match a.value {
        AstNode::Num(n) => b.value matches AstNode::Num(m) && m == n,
        AstNode::UniOp { op, e } => b.value matches AstNode::UniOp { op: op2, e: e2 }
            && op2.value == op.value && same_shape(*e, *e2),
        AstNode::BinOp { op, l, r } => b.value matches AstNode::BinOp { op: op2, l: l2, r: r2 }
            && op2.value == op.value && same_shape(*l, *l2) && same_shape(*r, *r2),
    }
}

/// Whether two parse outcomes agree up to spans: both succeed with
/// structurally identical trees after consuming the same number of
/// tokens, or both fail.
pub open spec fn similar_parse(
    r1: Result<(Ast, int), ParseError>,
    r2: Result<(Ast, int), ParseError>,
) -> bool {
    &&& r1 is Ok <==> r2 is Ok
    &&& r1 matches Ok((a1, p1)) ==> (r2 matches Ok((a2, p2)) && p1 == p2 && same_shape(a1, a2))
}

/// Whether two token sequences have the same kinds in the same order,
/// their spans free to differ.
pub open spec fn same_token_kinds(t1: Seq<Token>, t2: Seq<Token>) -> bool {
    &&& t1.len() == t2.len()
    &&& forall|i: int| 0 <= i < t1.len() ==> (#[trigger] t1[i]).value == (#[trigger] t2[i]).value
}

/// On token sequences of the same kinds, `ATOM` behaves the same up
/// to spans.
pub proof fn lemma_parse_atom_kinds(t1: Seq<Token>, t2: Seq<Token>, pos: int)
    requires
        same_token_kinds(t1, t2),
    ensures
        similar_parse(spec_parse_atom(t1, pos), spec_parse_atom(t2, pos)),
    decreases t1.len() - pos, 0int,
{
    if 0 <= pos < t1.len() {
        match t1[pos].value {
            TokenKind::Number(n) => {
                let a1 = Ast { value: AstNode::Num(n), loc: t1[pos].loc };
                let a2 = Ast { value: AstNode::Num(n), loc: t2[pos].loc };
                assert(same_shape(a1, a2));
            },
            TokenKind::LParen => {
                lemma_parse_expr3_kinds(t1, t2, pos + 1);
                lemma_parse_expr3_bounds(t1, pos + 1);
                if let Ok((e1, p1)) = spec_parse_expr3(t1, pos + 1) {
                    if let Ok((e2, p2)) = spec_parse_expr3(t2, pos + 1) {
                        if 0 <= p1 < t1.len() {
                            assert(t1[p1].value == t2[p1].value);
                        }
                    }
                }
            },
            _ => {},
        }
    }
}

/// On token sequences of the same kinds, `EXPR1` behaves the same up
/// to spans.
pub proof fn lemma_parse_expr1_kinds(t1: Seq<Token>, t2: Seq<Token>, pos: int)
    requires
        same_token_kinds(t1, t2),
    ensures
        similar_parse(spec_parse_expr1(t1, pos), spec_parse_expr1(t2, pos)),
    decreases t1.len() - pos, 1int,
{
    if 0 <= pos < t1.len() && (t1[pos].value is Plus || t1[pos].value is Minus) {
        lemma_parse_atom_kinds(t1, t2, pos + 1);
    } else {
        lemma_parse_atom_kinds(t1, t2, pos);
    }
}

/// On token sequences of the same kinds, each tier's subexpression
/// parser behaves the same up to spans.
pub proof fn lemma_parse_tier_sub_kinds(t1: Seq<Token>, t2: Seq<Token>, pos: int, tier: BinOpTier)
    requires
        same_token_kinds(t1, t2),
    ensures
        similar_parse(spec_parse_tier_sub(t1, pos, tier), spec_parse_tier_sub(t2, pos, tier)),
    decreases t1.len() - pos, 3int,
{
    match tier {
        BinOpTier::AddSub => lemma_parse_expr2_kinds(t1, t2, pos),
        BinOpTier::MulDiv => lemma_parse_expr1_kinds(t1, t2, pos),
    }
}

/// On token sequences of the same kinds, `EXPR2` behaves the same up
/// to spans.
pub proof fn lemma_parse_expr2_kinds(t1: Seq<Token>, t2: Seq<Token>, pos: int)
    requires
        same_token_kinds(t1, t2),
    ensures
        similar_parse(spec_parse_expr2(t1, pos), spec_parse_expr2(t2, pos)),
    decreases t1.len() - pos, 2int,
{
    lemma_parse_expr1_kinds(t1, t2, pos);
    lemma_parse_expr1_bounds(t1, pos);
    lemma_parse_expr1_bounds(t2, pos);
    if let Ok((e1, p1)) = spec_parse_expr1(t1, pos) {
        if let Ok((e2, p2)) = spec_parse_expr1(t2, pos) {
            lemma_parse_binop_loop_kinds(t1, t2, p1, e1, e2, BinOpTier::MulDiv);
        }
    }
}

/// On token sequences of the same kinds, `EXPR3` behaves the same up
/// to spans.
pub proof fn lemma_parse_expr3_kinds(t1: Seq<Token>, t2: Seq<Token>, pos: int)
    requires
        same_token_kinds(t1, t2),
    ensures
        similar_parse(spec_parse_expr3(t1, pos), spec_parse_expr3(t2, pos)),
    decreases t1.len() - pos, 4int,
{
    lemma_parse_expr2_kinds(t1, t2, pos);
    lemma_parse_expr2_bounds(t1, pos);
    lemma_parse_expr2_bounds(t2, pos);
    if let Ok((e1, p1)) = spec_parse_expr2(t1, pos) {
        if let Ok((e2, p2)) = spec_parse_expr2(t2, pos) {
            lemma_parse_binop_loop_kinds(t1, t2, p1, e1, e2, BinOpTier::AddSub);
        }
    }
}

/// On token sequences of the same kinds, the binary fold behaves the
/// same up to spans, given structurally identical accumulators.
pub proof fn lemma_parse_binop_loop_kinds(
    t1: Seq<Token>,
    t2: Seq<Token>,
    pos: int,
    acc1: Ast,
    acc2: Ast,
    tier: BinOpTier,
)
    requires
        same_token_kinds(t1, t2),
        same_shape(acc1, acc2),
    ensures
        similar_parse(
            spec_parse_binop_loop(t1, pos, acc1, tier),
            spec_parse_binop_loop(t2, pos, acc2, tier),
        ),
    decreases t1.len() - pos, 5int,
{
    if 0 <= pos < t1.len() {
        if let Ok((op1, q1)) = spec_parse_tier_op(t1, pos, tier) {
            if let Ok((op2, q2)) = spec_parse_tier_op(t2, pos, tier) {
                lemma_parse_tier_sub_kinds(t1, t2, pos + 1, tier);
                lemma_parse_tier_sub_bounds(t1, pos + 1, tier);
                lemma_parse_tier_sub_bounds(t2, pos + 1, tier);
                if let Ok((r1, p1)) = spec_parse_tier_sub(t1, pos + 1, tier) {
                    if let Ok((r2, p2)) = spec_parse_tier_sub(t2, pos + 1, tier) {
                        let folded1 = Ast {
                            value: AstNode::BinOp { op: op1, l: Box::new(acc1), r: Box::new(r1) },
                            loc: acc1.loc.spec_merge(r1.loc),
                        };
                        let folded2 = Ast {
                            value: AstNode::BinOp { op: op2, l: Box::new(acc2), r: Box::new(r2) },
                            loc: acc2.loc.spec_merge(r2.loc),
                        };
                        assert(same_shape(folded1, folded2));
                        lemma_parse_binop_loop_kinds(t1, t2, p1, folded1, folded2, tier);
                    }
                }
            }
        }
    }
}

/// Whitespace insensitivity of the grammar: two token sequences with
/// the same kinds in the same order — such as the lexes of one
/// expression with and without whitespace, whose spans differ only by
/// the whitespace offsets — either both parse or both fail, and when
/// they parse, the trees are structurally identical.
pub proof fn lemma_parse_structure_depends_on_kinds(t1: Seq<Token>, t2: Seq<Token>)
    requires
        same_token_kinds(t1, t2),
    ensures
        spec_parse(t1) is Ok <==> spec_parse(t2) is Ok,
        spec_parse(t1) matches Ok(a1) ==> (spec_parse(t2) matches Ok(a2) && same_shape(a1, a2)),
{
    lemma_parse_expr3_kinds(t1, t2, 0);
}

/// The tier parsed by [`parse_left_binop`] for each tier value.
pub open spec fn spec_parse_tier(toks: Seq<Token>, pos: int, tier: BinOpTier) -> Result<
    (Ast, int),
    ParseError,
> {
    match tier {
        BinOpTier::AddSub => spec_parse_expr3(toks, pos),
        BinOpTier::MulDiv => spec_parse_expr2(toks, pos),
    }
}

/// Consumes the additive-tier operator under the cursor, or leaves
/// the cursor alone and says why there is none.
pub fn parse_expr3_op(tokens: &Vec<Token>, pos: &mut usize) -> (r: Result<BinOp, ParseError>)
    requires
        *old(pos) <= tokens@.len(),
    ensures
        *old(pos) <= *final(pos) <= tokens@.len(),
        match spec_parse_expr3_op(tokens@, *old(pos) as int) {
            Ok((op, p)) => r == Ok::<BinOp, ParseError>(op) && *final(pos) == p,
            Err(e) => r == Err::<BinOp, ParseError>(e) && *final(pos) == *old(pos),
        },
{
    if *pos >= tokens.len() {
        return Err(ParseError::Eof);
    }
    let t: Token = tokens[*pos];
    match t.value {
        TokenKind::Plus => {
            *pos = *pos + 1;
            Ok(BinOp::add(t.loc))
        },
        TokenKind::Minus => {
            *pos = *pos + 1;
            Ok(BinOp::sub(t.loc))
        },
        _ => Err(ParseError::NotOperator(t)),
    }
}

/// Consumes the multiplicative-tier operator under the cursor, or
/// leaves the cursor alone and says why there is none.
pub fn parse_expr2_op(tokens: &Vec<Token>, pos: &mut usize) -> (r: Result<BinOp, ParseError>)
    requires
        *old(pos) <= tokens@.len(),
    ensures
        *old(pos) <= *final(pos) <= tokens@.len(),
        match spec_parse_expr2_op(tokens@, *old(pos) as int) {
            Ok((op, p)) => r == Ok::<BinOp, ParseError>(op) && *final(pos) == p,
            Err(e) => r == Err::<BinOp, ParseError>(e) && *final(pos) == *old(pos),
        },
{
    if *pos >= tokens.len() {
        return Err(ParseError::Eof);
    }
    let t: Token = tokens[*pos];
    match t.value {
        TokenKind::Asterisk => {
            *pos = *pos + 1;
            Ok(BinOp::mul(t.loc))
        },
        TokenKind::Slash => {
            *pos = *pos + 1;
            Ok(BinOp::div(t.loc))
        },
        _ => Err(ParseError::NotOperator(t)),
    }
}

/// Parses an `ATOM` at the cursor.
pub fn parse_atom(tokens: &Vec<Token>, pos: &mut usize) -> (r: Result<Ast, ParseError>)
    requires
        *old(pos) <= tokens@.len(),
    ensures
        *old(pos) <= *final(pos) <= tokens@.len(),
        match spec_parse_atom(tokens@, *old(pos) as int) {
            Ok((a, p)) => r == Ok::<Ast, ParseError>(a) && *final(pos) == p,
            Err(e) => r == Err::<Ast, ParseError>(e),
        },
    decreases tokens@.len() - *old(pos), 0int,
{
    if *pos >= tokens.len() {
        return Err(ParseError::Eof);
    }
    let t: Token = tokens[*pos];
    *pos = *pos + 1;
    match t.value {
        TokenKind::Number(n) => Ok(Ast::num(n, t.loc)),
        TokenKind::LParen => {
            match parse_expr3(tokens, pos) {
                Ok(e) => {
                    if *pos < tokens.len() {
                        let t2: Token = tokens[*pos];
                        match t2.value {
                            TokenKind::RParen => {
                                *pos = *pos + 1;
                                Ok(e)
                            },
                            _ => Err(ParseError::RedundantExpression(t2)),
                        }
                    } else {
                        Err(ParseError::UnclosedOpenParen(t))
                    }
                },
                Err(err) => Err(err),
            }
        },
        _ => Err(ParseError::NotExpression(t)),
    }
}

/// Parses an `EXPR1` at the cursor: an optional sign, then an atom.
pub fn parse_expr1(tokens: &Vec<Token>, pos: &mut usize) -> (r: Result<Ast, ParseError>)
    requires
        *old(pos) <= tokens@.len(),
    ensures
        *old(pos) <= *final(pos) <= tokens@.len(),
        match spec_parse_expr1(tokens@, *old(pos) as int) {
            Ok((a, p)) => r == Ok::<Ast, ParseError>(a) && *final(pos) == p,
            Err(e) => r == Err::<Ast, ParseError>(e),
        },
    decreases tokens@.len() - *old(pos), 1int,
{
    if *pos < tokens.len() {
        let t: Token = tokens[*pos];
        match t.value {
            TokenKind::Plus | TokenKind::Minus => {
                *pos = *pos + 1;
                let op: UniOp = if matches!(t.value, TokenKind::Plus) {
                    UniOp::plus(t.loc)
                } else {
                    UniOp::minus(t.loc)
                };
                match parse_atom(tokens, pos) {
                    Ok(e) => {
                        let loc: Loc = op.loc.merge(&e.loc);
                        Ok(Ast::uniop(op, e, loc))
                    },
                    Err(err) => Err(err),
                }
            },
            _ => parse_atom(tokens, pos),
        }
    } else {
        parse_atom(tokens, pos)
    }
}

/// The left-associative fold shared by the two binary tiers: one
/// subexpression, then repeatedly an operator of the tier and another
/// subexpression, folded left. A token of any other kind ends the
/// fold without being consumed.
pub fn parse_left_binop(tokens: &Vec<Token>, pos: &mut usize, tier: BinOpTier) -> (r: Result<
    Ast,
    ParseError,
>)
    requires
        *old(pos) <= tokens@.len(),
    ensures
        *old(pos) <= *final(pos) <= tokens@.len(),
        match spec_parse_tier(tokens@, *old(pos) as int, tier) {
            Ok((a, p)) => r == Ok::<Ast, ParseError>(a) && *final(pos) == p,
            Err(e) => r == Err::<Ast, ParseError>(e),
        },
    decreases tokens@.len() - *old(pos), tier_rank(tier),
{
    let ghost toks = tokens@;
    let ghost pos0 = *old(pos) as int;
    let sub0 = match tier {
        BinOpTier::AddSub => parse_expr2(tokens, pos),
        BinOpTier::MulDiv => parse_expr1(tokens, pos),
    };
    proof {
        lemma_parse_tier_sub_bounds(toks, pos0, tier);
    }
    let mut e: Ast = match sub0 {
        Ok(a) => a,
        Err(err) => {
            return Err(err);
        },
    };
    let ghost p1 = *pos as int;
    let ghost e1 = e;
    loop
        invariant
            *pos <= tokens@.len(),
            toks == tokens@,
            pos0 == *old(pos) as int,
            pos0 < p1 <= *pos as int,
            spec_parse_tier(toks, pos0, tier) == spec_parse_binop_loop(
                toks,
                p1,
                e1,
                tier,
            ),
            spec_parse_binop_loop(toks, p1, e1, tier) == spec_parse_binop_loop(
                toks,
                *pos as int,
                e,
                tier,
            ),
        ensures
            *pos <= tokens@.len(),
            pos0 < *pos as int,
            spec_parse_tier(toks, pos0, tier) == Ok::<(Ast, int), ParseError>(
                (e, *pos as int),
            ),
        decreases tokens@.len() - *pos,
    {
        let ghost q = *pos as int;
        let ghost eq = e;
        if *pos >= tokens.len() {
            break ;
        }
        let opr = match tier {
            BinOpTier::AddSub => parse_expr3_op(tokens, pos),
            BinOpTier::MulDiv => parse_expr2_op(tokens, pos),
        };
        let op: BinOp = match opr {
            Ok(op) => op,
            Err(_) => {
                break ;
            },
        };
        let sub = match tier {
            BinOpTier::AddSub => parse_expr2(tokens, pos),
            BinOpTier::MulDiv => parse_expr1(tokens, pos),
        };
        proof {
            lemma_parse_tier_sub_bounds(toks, q + 1, tier);
        }
        match sub {
            Ok(rr) => {
                let loc: Loc = e.loc.merge(&rr.loc);
                e = Ast::binop(op, e, rr, loc);
            },
            Err(err) => {
                proof {
                    assert(spec_parse_binop_loop(toks, q, eq, tier) == Err::<
                        (Ast, int),
                        ParseError,
                    >(err));
                }
                return Err(err);
            },
        }
    }
    Ok(e)
}

/// Parses an `EXPR2` at the cursor: the multiplicative tier.
pub fn parse_expr2(tokens: &Vec<Token>, pos: &mut usize) -> (r: Result<Ast, ParseError>)
    requires
        *old(pos) <= tokens@.len(),
    ensures
        *old(pos) <= *final(pos) <= tokens@.len(),
        match spec_parse_expr2(tokens@, *old(pos) as int) {
            Ok((a, p)) => r == Ok::<Ast, ParseError>(a) && *final(pos) == p,
            Err(e) => r == Err::<Ast, ParseError>(e),
        },
    decreases tokens@.len() - *old(pos), 3int,
{
    parse_left_binop(tokens, pos, BinOpTier::MulDiv)
}

/// Parses an `EXPR3` at the cursor: the additive tier.
pub fn parse_expr3(tokens: &Vec<Token>, pos: &mut usize) -> (r: Result<Ast, ParseError>)
    requires
        *old(pos) <= tokens@.len(),
    ensures
        *old(pos) <= *final(pos) <= tokens@.len(),
        match spec_parse_expr3(tokens@, *old(pos) as int) {
            Ok((a, p)) => r == Ok::<Ast, ParseError>(a) && *final(pos) == p,
            Err(e) => r == Err::<Ast, ParseError>(e),
        },
    decreases tokens@.len() - *old(pos), 5int,
{
    parse_left_binop(tokens, pos, BinOpTier::AddSub)
}

/// Parses an `EXPR` at the cursor: the whole grammar.
pub fn parse_expr(tokens: &Vec<Token>, pos: &mut usize) -> (r: Result<Ast, ParseError>)
    requires
        *old(pos) <= tokens@.len(),
    ensures
        *old(pos) <= *final(pos) <= tokens@.len(),
        match spec_parse_expr(tokens@, *old(pos) as int) {
            Ok((a, p)) => r == Ok::<Ast, ParseError>(a) && *final(pos) == p,
            Err(e) => r == Err::<Ast, ParseError>(e),
        },
{
    parse_expr3(tokens, pos)
}

/// Parses the whole token sequence into one tree covering all of it,
/// or fails with the first grammar violation; tokens left over after
/// a complete expression fail with `RedundantExpression`.
pub fn parse(tokens: Vec<Token>) -> (r: Result<Ast, ParseError>)
    ensures
        r == spec_parse(tokens@),
{
    let mut pos: usize = 0;
    match parse_expr(&tokens, &mut pos) {
        Ok(ast) => {
            if pos < tokens.len() {
                Err(ParseError::RedundantExpression(tokens[pos]))
            } else {
                Ok(ast)
            }
        },
        Err(e) => Err(e),
    }
}

} // verus!
