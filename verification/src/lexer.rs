//! The lexer: one line of text becomes an ordered sequence of spanned
//! tokens, or the first lexical error.

use vstd::prelude::*;

verus! {

use vstd::string::StringSliceAdditionalSpecFns;

/// A half-open byte range `[start, end)` into the source line,
/// identifying where a token (or a tree node, or an error) came from.
#[derive(Debug, Clone, Copy, PartialEq, Eq, Hash)]
pub struct Loc(pub usize, pub usize);

impl Loc {
    /// The smallest span covering both `self` and `other`.
    pub open spec fn spec_merge(self, other: Loc) -> Loc {
        Loc(
            if self.0 <= other.0 {
                self.0
            } else {
                other.0
            },
            if self.1 >= other.1 {
                self.1
            } else {
                other.1
            },
        )
    }

    /// Returns the smallest span covering both `self` and `other`.
    pub fn merge(&self, other: &Loc) -> (r: Loc)
        ensures
            r == self.spec_merge(*other),
    {
        let start: usize = if self.0 <= other.0 {
            self.0
        } else {
            other.0
        };
        let end: usize = if self.1 >= other.1 {
            self.1
        } else {
            other.1
        };
        Loc(start, end)
    }
}

/// Merging spans is commutative in its result: the covering span does
/// not depend on the order of the arguments.
pub proof fn lemma_merge_commutative(a: Loc, b: Loc)
    ensures
        a.spec_merge(b) == b.spec_merge(a),
{
}

/// Merging a span with itself gives the span back unchanged.
pub proof fn lemma_merge_idempotent(a: Loc)
    ensures
        a.spec_merge(a) == a,
{
}

/// A value of any kind paired with the source span it came from.
#[derive(Debug, Clone, Copy, PartialEq, Eq, Hash)]
pub struct Annot<T> {
    pub value: T,
    pub loc: Loc,
}

impl<T> Annot<T> {
    /// Pairs `value` with `loc`.
    pub fn new(value: T, loc: Loc) -> (r: Self)
        ensures
            r.value == value,
            r.loc == loc,
    {
        Self { value, loc }
    }
}

/// The kinds of token the lexer can produce.
#[derive(Debug, Clone, Copy, PartialEq, Eq, Hash)]
pub enum TokenKind {
    /// An unsigned integer literal, `[0-9]+`.
    Number(u64),
    /// `+`
    Plus,
    /// `-`
    Minus,
    /// `*`
    Asterisk,
    /// `/`
    Slash,
    /// `(`
    LParen,
    /// `)`
    RParen,
}

/// A token: a [`TokenKind`] with the span of the characters it came from.
pub type Token = Annot<TokenKind>;

impl Token {
    pub fn number(n: u64, loc: Loc) -> (r: Self)
        ensures
            r == (Annot { value: TokenKind::Number(n), loc }),
    {
        Self::new(TokenKind::Number(n), loc)
    }

    pub fn plus(loc: Loc) -> (r: Self)
        ensures
            r == (Annot { value: TokenKind::Plus, loc }),
    {
        Self::new(TokenKind::Plus, loc)
    }

    pub fn minus(loc: Loc) -> (r: Self)
        ensures
            r == (Annot { value: TokenKind::Minus, loc }),
    {
        Self::new(TokenKind::Minus, loc)
    }

    pub fn asterisk(loc: Loc) -> (r: Self)
        ensures
            r == (Annot { value: TokenKind::Asterisk, loc }),
    {
        Self::new(TokenKind::Asterisk, loc)
    }

    pub fn slash(loc: Loc) -> (r: Self)
        ensures
            r == (Annot { value: TokenKind::Slash, loc }),
    {
        Self::new(TokenKind::Slash, loc)
    }

    pub fn lparen(loc: Loc) -> (r: Self)
        ensures
            r == (Annot { value: TokenKind::LParen, loc }),
    {
        Self::new(TokenKind::LParen, loc)
    }

    pub fn rparen(loc: Loc) -> (r: Self)
        ensures
            r == (Annot { value: TokenKind::RParen, loc }),
    {
        Self::new(TokenKind::RParen, loc)
    }
}

/// The kinds of lexical error.
#[derive(Debug, Clone, Copy, PartialEq, Eq, Hash)]
pub enum LexErrorKind {
    /// A byte that cannot start any token.
    InvalidChar(char),
    /// Input ended where a specific byte was expected.
    Eof,
    /// A numeric literal too large for an unsigned 64-bit integer.
    /// Out-of-range literals are rejected at lex time rather than
    /// silently truncated.
    NumberOverflow,
}

/// A lexical error: a [`LexErrorKind`] with the span it was found at.
pub type LexError = Annot<LexErrorKind>;

impl LexError {
    pub fn invalid_char(c: char, loc: Loc) -> (r: Self)
        ensures
            r == (Annot { value: LexErrorKind::InvalidChar(c), loc }),
    {
        LexError::new(LexErrorKind::InvalidChar(c), loc)
    }

    pub fn eof(loc: Loc) -> (r: Self)
        ensures
            r == (Annot { value: LexErrorKind::Eof, loc }),
    {
        LexError::new(LexErrorKind::Eof, loc)
    }

    pub fn number_overflow(loc: Loc) -> (r: Self)
        ensures
            r == (Annot { value: LexErrorKind::NumberOverflow, loc }),
    {
        LexError::new(LexErrorKind::NumberOverflow, loc)
    }
}

/// The ASCII bytes the scanner distinguishes, by value.
pub const B_ZERO: u8 = 48;

pub const B_NINE: u8 = 57;

pub const B_SPACE: u8 = 32;

pub const B_NEWLINE: u8 = 10;

pub const B_TAB: u8 = 9;

pub const B_PLUS: u8 = 43;

pub const B_MINUS: u8 = 45;

pub const B_ASTERISK: u8 = 42;

pub const B_SLASH: u8 = 47;

pub const B_LPAREN: u8 = 40;

pub const B_RPAREN: u8 = 41;

/// The two classes of byte the lexer consumes in maximal runs.
#[derive(Debug, Clone, Copy, PartialEq, Eq)]
pub enum ByteClass {
    /// ASCII decimal digits.
    Digit,
    /// Space, tab, or newline.
    Space,
}

/// Whether byte `b` belongs to class `c`.
pub open spec fn byte_in_class(c: ByteClass, b: u8) -> bool {
    match c {
        ByteClass::Digit => B_ZERO <= b <= B_NINE,
        ByteClass::Space => b == B_SPACE || b == B_NEWLINE || b == B_TAB,
    }
}

/// The end of the maximal run of bytes of class `c` starting at `pos`:
/// the first position at or after `pos` holding no byte of the class.
pub open spec fn class_run_end(c: ByteClass, s: Seq<u8>, pos: int) -> int
    decreases s.len() - pos,
{
    if 0 <= pos < s.len() && byte_in_class(c, s[pos]) {
        class_run_end(c, s, pos + 1)
    } else {
        pos
    }
}

/// The run `[pos, class_run_end)` stays within the input, consists of
/// bytes of the class only, and is maximal.
pub proof fn lemma_class_run_end(c: ByteClass, s: Seq<u8>, pos: int)
    requires
        0 <= pos <= s.len(),
    ensures
        pos <= class_run_end(c, s, pos) <= s.len(),
        forall|i: int|
            pos <= i < class_run_end(c, s, pos) ==> byte_in_class(c, s[i]),
        class_run_end(c, s, pos) < s.len() ==> !byte_in_class(
            c,
            s[class_run_end(c, s, pos)],
        ),
        pos < s.len() && byte_in_class(c, s[pos]) ==> pos < class_run_end(c, s, pos),
    decreases s.len() - pos,
{
    if pos < s.len() && byte_in_class(c, s[pos]) {
        lemma_class_run_end(c, s, pos + 1);
    }
}

/// The value of the decimal digits `s[start..end)`, most significant
/// first; `0` for an empty range.
pub open spec fn digits_value(s: Seq<u8>, start: int, end: int) -> int
    decreases end - start,
{
    if start >= end {
        0
    } else {
        digits_value(s, start, end - 1) * 10 + (s[end - 1] - B_ZERO)
    }
}

/// The value of an all-digit range is nonnegative.
pub proof fn lemma_digits_value_nonneg(s: Seq<u8>, start: int, i: int)
    requires
        start <= i,
        forall|k: int| start <= k < i ==> byte_in_class(ByteClass::Digit, s[k]),
    ensures
        0 <= digits_value(s, start, i),
    decreases i - start,
{
    if start < i {
        lemma_digits_value_nonneg(s, start, i - 1);
    }
}

/// On an all-digit range the value is nonnegative and grows (weakly)
/// with the length of the range.
pub proof fn lemma_digits_value_monotone(s: Seq<u8>, start: int, i: int, j: int)
    requires
        start <= i <= j,
        forall|k: int| start <= k < j ==> byte_in_class(ByteClass::Digit, s[k]),
    ensures
        0 <= digits_value(s, start, i) <= digits_value(s, start, j),
    decreases j - i,
{
    if i < j {
        lemma_digits_value_monotone(s, start, i, j - 1);
        assert(digits_value(s, start, j) == digits_value(s, start, j - 1) * 10 + (s[j - 1]
            - B_ZERO));
    } else {
        lemma_digits_value_nonneg(s, start, i);
    }
}

/// The token kind of a single punctuation byte.
pub open spec fn punct_kind(b: u8) -> TokenKind {
    if b == B_PLUS {
        TokenKind::Plus
    } else if b == B_MINUS {
        TokenKind::Minus
    } else if b == B_ASTERISK {
        TokenKind::Asterisk
    } else if b == B_SLASH {
        TokenKind::Slash
    } else if b == B_LPAREN {
        TokenKind::LParen
    } else {
        TokenKind::RParen
    }
}

/// Whether `b` is one of the six punctuation bytes `+ - * / ( )`.
pub open spec fn is_punct_byte(b: u8) -> bool {
    b == B_PLUS || b == B_MINUS || b == B_ASTERISK || b == B_SLASH || b == B_LPAREN || b == B_RPAREN
}

/// The tokens of `s` from position `pos` on, or the first lexical
/// error. A maximal digit run becomes one `Number` token (rejected if
/// its value exceeds `u64::MAX`), a punctuation byte becomes a
/// one-byte token, whitespace is skipped, and any other byte stops
/// lexing with `InvalidChar`.
pub open spec fn spec_lex_from(s: Seq<u8>, pos: int) -> Result<Seq<Token>, LexError>
    decreases s.len() - pos,
        via spec_lex_from_decreases
{
    if pos < 0 || pos >= s.len() {
        Ok(Seq::empty())
    } else {
        let b = s[pos];
        if byte_in_class(ByteClass::Digit, b) {
            let end = class_run_end(ByteClass::Digit, s, pos);
            let v = digits_value(s, pos, end);
            if v > u64::MAX {
                Err(Annot {
                    value: LexErrorKind::NumberOverflow,
                    loc: Loc(pos as usize, end as usize),
                })
            } else {
                match spec_lex_from(s, end) {
                    Ok(rest) => Ok(
                        seq![
                            Annot {
                                value: TokenKind::Number(v as u64),
                                loc: Loc(pos as usize, end as usize),
                            },
                        ] + rest,
                    ),
                    Err(e) => Err(e),
                }
            }
        } else if is_punct_byte(b) {
            match spec_lex_from(s, pos + 1) {
                Ok(rest) => Ok(
                    seq![
                        Annot {
                            value: punct_kind(b),
                            loc: Loc(pos as usize, (pos + 1) as usize),
                        },
                    ] + rest,
                ),
                Err(e) => Err(e),
            }
        } else if byte_in_class(ByteClass::Space, b) {
            spec_lex_from(s, pos + 1)
        } else {
            Err(Annot {
                value: LexErrorKind::InvalidChar(b as char),
                loc: Loc(pos as usize, (pos + 1) as usize),
            })
        }
    }
}

#[via_fn]
proof fn spec_lex_from_decreases(s: Seq<u8>, pos: int) {
    if 0 <= pos < s.len() {
        lemma_class_run_end(ByteClass::Digit, s, pos);
    }
}

/// The tokens of a `lex` result as a mathematical value.
pub open spec fn lex_output(r: Result<Vec<Token>, LexError>) -> Result<
    Seq<Token>,
    LexError,
> {
    match r {
        Ok(toks) => Ok(toks@),
        Err(e) => Err(e),
    }
}

/// `rest` with the already-produced tokens `pre` put in front; an
/// error swallows the prefix.
pub open spec fn lex_prepend(pre: Seq<Token>, rest: Result<Seq<Token>, LexError>) -> Result<
    Seq<Token>,
    LexError,
> {
    match rest {
        Ok(ts) => Ok(pre + ts),
        Err(e) => Err(e),
    }
}

/// Token spans are nonempty and strictly ordered: each token ends at
/// or before the next one starts.
pub open spec fn token_spans_ordered(toks: Seq<Token>) -> bool {
    &&& forall|i: int| 0 <= i < toks.len() ==> (#[trigger] toks[i]).loc.0 < toks[i].loc.1
    &&& forall|i: int, j: int|
        0 <= i < j < toks.len() ==> (#[trigger] toks[i]).loc.1 <= (#[trigger] toks[j]).loc.0
}

/// Lexing yields tokens whose spans are nonempty, ordered left to
/// right without overlap, within the lexed part of the input.
pub proof fn lemma_lex_token_spans(s: Seq<u8>, pos: int)
    requires
        0 <= pos <= s.len() <= usize::MAX,
    ensures
        spec_lex_from(s, pos) matches Ok(toks) ==> {
            &&& token_spans_ordered(toks)
            &&& forall|i: int| 0 <= i < toks.len() ==> pos <= (#[trigger] toks[i]).loc.0
            &&& forall|i: int| 0 <= i < toks.len() ==> (#[trigger] toks[i]).loc.1 <= s.len()
        },
    decreases s.len() - pos,
{
    if pos < s.len() {
        let b = s[pos];
        if byte_in_class(ByteClass::Digit, b) {
            lemma_class_run_end(ByteClass::Digit, s, pos);
            let end = class_run_end(ByteClass::Digit, s, pos);
            let v = digits_value(s, pos, end);
            if v <= u64::MAX {
                lemma_lex_token_spans(s, end);
                if let Ok(rest) = spec_lex_from(s, end) {
                    let t = Annot {
                        value: TokenKind::Number(v as u64),
                        loc: Loc(pos as usize, end as usize),
                    };
                    lemma_cons_token_spans(t, rest, pos, end, s.len() as int);
                }
            }
        } else if is_punct_byte(b) {
            lemma_lex_token_spans(s, pos + 1);
            if let Ok(rest) = spec_lex_from(s, pos + 1) {
                let t = Annot { value: punct_kind(b), loc: Loc(pos as usize, (pos + 1) as usize) };
                lemma_cons_token_spans(t, rest, pos, pos + 1, s.len() as int);
            }
        } else if byte_in_class(ByteClass::Space, b) {
            lemma_lex_token_spans(s, pos + 1);
        }
    }
}

/// Putting a token in front of an ordered token sequence it precedes
/// keeps the sequence ordered.
proof fn lemma_cons_token_spans(t: Token, rest: Seq<Token>, start: int, end: int, len: int)
    requires
        token_spans_ordered(rest),
        forall|i: int| 0 <= i < rest.len() ==> end <= (#[trigger] rest[i]).loc.0,
        forall|i: int| 0 <= i < rest.len() ==> (#[trigger] rest[i]).loc.1 <= len,
        t.loc.0 == start,
        t.loc.1 == end,
        0 <= start < end <= len,
    ensures
        token_spans_ordered(seq![t] + rest),
        forall|i: int| 0 <= i < (seq![t] + rest).len() ==> start <= (#[trigger] (seq![t]
            + rest)[i]).loc.0,
        forall|i: int| 0 <= i < (seq![t] + rest).len() ==> (#[trigger] (seq![t]
            + rest)[i]).loc.1 <= len,
{
    let toks = seq![t] + rest;
    assert forall|i: int| 0 <= i < toks.len() implies (#[trigger] toks[i]).loc.0 < toks[i].loc.1
        && start <= toks[i].loc.0 && toks[i].loc.1 <= len by {
        if i > 0 {
            assert(toks[i] == rest[i - 1]);
        }
    }
    assert forall|i: int, j: int| 0 <= i < j < toks.len() implies (#[trigger] toks[i]).loc.1 <= (
    #[trigger] toks[j]).loc.0 by {
        assert(toks[j] == rest[j - 1]);
        if i > 0 {
            assert(toks[i] == rest[i - 1]);
        } else {
            if j - 1 > 0 {
                assert(rest[0].loc.1 <= rest[j - 1].loc.0);
                assert(rest[0].loc.0 < rest[0].loc.1);
            }
        }
    }
}

/// Skipping a whitespace run does not change what is lexed.
proof fn lemma_lex_skip_spaces(s: Seq<u8>, pos: int)
    requires
        0 <= pos <= s.len(),
    ensures
        spec_lex_from(s, pos) == spec_lex_from(s, class_run_end(ByteClass::Space, s, pos)),
    decreases s.len() - pos,
{
    if pos < s.len() && byte_in_class(ByteClass::Space, s[pos]) {
        lemma_lex_skip_spaces(s, pos + 1);
    }
}

/// The lexer: a read cursor advancing monotonically over the bytes of
/// one line of input.
#[derive(Debug, Clone, PartialEq, Eq)]
pub struct Lexer<'a> {
    pub input: &'a [u8],
    pub pos: usize,
}

impl<'a> Lexer<'a> {
    /// The cursor never passes the end of the input.
    pub open spec fn wf(self) -> bool {
        self.pos <= self.input@.len()
    }

    /// A lexer over the bytes of `input`, with the cursor at the start.
    pub fn new(input: &'a str) -> (r: Self)
        ensures
            r.input@ == input.spec_bytes(),
            r.pos == 0,
            r.wf(),
    {
        Self { input: input.as_bytes(), pos: 0 }
    }

    /// Consumes the byte `b` under the cursor; fails with `Eof` at the
    /// end of input and with `InvalidChar` on any other byte.
    pub fn consume_byte(&mut self, b: u8) -> (r: Result<(u8, usize), LexError>)
        requires
            old(self).wf(),
        ensures
            final(self).input@ == old(self).input@,
            final(self).wf(),
            old(self).pos >= old(self).input@.len() ==> {
                &&& r == Err::<(u8, usize), LexError>(
                    Annot {
                        value: LexErrorKind::Eof,
                        loc: Loc(old(self).pos, old(self).pos),
                    },
                )
                &&& final(self).pos == old(self).pos
            },
            old(self).pos < old(self).input@.len() && old(self).input@[old(self).pos as int]
                != b ==> {
                &&& r == Err::<(u8, usize), LexError>(
                    Annot {
                        value: LexErrorKind::InvalidChar(
                            old(self).input@[old(self).pos as int] as char,
                        ),
                        loc: Loc(old(self).pos, (old(self).pos + 1) as usize),
                    },
                )
                &&& final(self).pos == old(self).pos
            },
            old(self).pos < old(self).input@.len() && old(self).input@[old(self).pos as int]
                == b ==> {
                &&& r == Ok::<(u8, usize), LexError>((b, (old(self).pos + 1) as usize))
                &&& final(self).pos == old(self).pos + 1
            },
    {
        if self.input.len() <= self.pos {
            return Err(LexError::eof(Loc(self.pos, self.pos)));
        }
        let got: u8 = self.input[self.pos];
        if got != b {
            return Err(LexError::invalid_char(got as char, Loc(self.pos, self.pos + 1)));
        }
        self.pos = self.pos + 1;
        Ok((b, self.pos))
    }

    /// Advances the cursor over the maximal run of bytes of class
    /// `class` and returns the new cursor position.
    pub fn recognize_many(&mut self, class: ByteClass) -> (end: usize)
        requires
            old(self).wf(),
        ensures
            final(self).input@ == old(self).input@,
            final(self).wf(),
            final(self).pos == class_run_end(class, old(self).input@, old(self).pos as int),
            end == final(self).pos,
            old(self).pos <= final(self).pos,
    {
        proof {
            lemma_class_run_end(class, self.input@, self.pos as int);
        }
        while self.pos < self.input.len() && byte_matches(class, self.input[self.pos])
            invariant
                self.wf(),
                self.input@ == old(self).input@,
                old(self).pos <= self.pos,
                class_run_end(class, self.input@, self.pos as int) == class_run_end(
                    class,
                    old(self).input@,
                    old(self).pos as int,
                ),
            decreases self.input@.len() - self.pos,
        {
            self.pos = self.pos + 1;
        }
        self.pos
    }

    /// Lexes the maximal digit run under the cursor into a `Number`
    /// token, or fails with `NumberOverflow` when the literal exceeds
    /// `u64::MAX`. Either way the cursor ends after the run.
    #[verifier::loop_isolation(false)]
    pub fn lex_number(&mut self) -> (r: Result<Token, LexError>)
        requires
            old(self).wf(),
            old(self).pos < old(self).input@.len(),
            byte_in_class(ByteClass::Digit, old(self).input@[old(self).pos as int]),
        ensures
            final(self).input@ == old(self).input@,
            final(self).wf(),
            final(self).pos == class_run_end(
                ByteClass::Digit,
                old(self).input@,
                old(self).pos as int,
            ),
            ({
                let s = old(self).input@;
                let start = old(self).pos as int;
                let end = class_run_end(ByteClass::Digit, s, start);
                let v = digits_value(s, start, end);
                if v <= u64::MAX {
                    r == Ok::<Token, LexError>(
                        Annot {
                            value: TokenKind::Number(v as u64),
                            loc: Loc(start as usize, end as usize),
                        },
                    )
                } else {
                    r == Err::<Token, LexError>(
                        Annot {
                            value: LexErrorKind::NumberOverflow,
                            loc: Loc(start as usize, end as usize),
                        },
                    )
                }
            }),
    {
        let ghost s = self.input@;
        let start: usize = self.pos;
        let end: usize = self.recognize_many(ByteClass::Digit);
        proof {
            lemma_class_run_end(ByteClass::Digit, s, start as int);
        }
        let mut n: u64 = 0;
        let mut i: usize = start;
        while i < end
            invariant
                start <= i <= end <= self.input@.len(),
                self.input@ == s,
                end == class_run_end(ByteClass::Digit, s, start as int),
                forall|k: int| start <= k < end ==> byte_in_class(ByteClass::Digit, s[k]),
                n == digits_value(s, start as int, i as int),
            decreases end - i,
        {
            let d: u8 = self.input[i] - B_ZERO;
            let scaled: Option<u64> = n.checked_mul(10);
            proof {
                lemma_digits_value_nonneg(s, start as int, i as int);
            }
            match scaled {
                Some(m) => {
                    match m.checked_add(d as u64) {
                        Some(next) => {
                            n = next;
                            i = i + 1;
                        },
                        None => {
                            proof {
                                lemma_digits_value_monotone(s, start as int, i + 1, end as int);
                            }
                            return Err(LexError::number_overflow(Loc(start, end)));
                        },
                    }
                },
                None => {
                    proof {
                        lemma_digits_value_monotone(s, start as int, i + 1, end as int);
                        assert(digits_value(s, start as int, i + 1) == n * 10 + (s[i as int]
                            - B_ZERO));
                    }
                    return Err(LexError::number_overflow(Loc(start, end)));
                },
            }
        }
        Ok(Token::number(n, Loc(start, end)))
    }

    /// Lexes a `+` token at the cursor.
    pub fn lex_plus(&mut self) -> (r: Result<Token, LexError>)
        requires
            old(self).wf(),
        ensures
            final(self).input@ == old(self).input@,
            final(self).wf(),
            consumed_punct(*old(self), *final(self), B_PLUS, r),
    {
        match self.consume_byte(B_PLUS) {
            Ok((_, end)) => Ok(Token::plus(Loc(end - 1, end))),
            Err(e) => Err(e),
        }
    }

    /// Lexes a `-` token at the cursor.
    pub fn lex_minus(&mut self) -> (r: Result<Token, LexError>)
        requires
            old(self).wf(),
        ensures
            final(self).input@ == old(self).input@,
            final(self).wf(),
            consumed_punct(*old(self), *final(self), B_MINUS, r),
    {
        match self.consume_byte(B_MINUS) {
            Ok((_, end)) => Ok(Token::minus(Loc(end - 1, end))),
            Err(e) => Err(e),
        }
    }

    /// Lexes a `*` token at the cursor.
    pub fn lex_asterisk(&mut self) -> (r: Result<Token, LexError>)
        requires
            old(self).wf(),
        ensures
            final(self).input@ == old(self).input@,
            final(self).wf(),
            consumed_punct(*old(self), *final(self), B_ASTERISK, r),
    {
        match self.consume_byte(B_ASTERISK) {
            Ok((_, end)) => Ok(Token::asterisk(Loc(end - 1, end))),
            Err(e) => Err(e),
        }
    }

    /// Lexes a `/` token at the cursor.
    pub fn lex_slash(&mut self) -> (r: Result<Token, LexError>)
        requires
            old(self).wf(),
        ensures
            final(self).input@ == old(self).input@,
            final(self).wf(),
            consumed_punct(*old(self), *final(self), B_SLASH, r),
    {
        match self.consume_byte(B_SLASH) {
            Ok((_, end)) => Ok(Token::slash(Loc(end - 1, end))),
            Err(e) => Err(e),
        }
    }

    /// Lexes a `(` token at the cursor.
    pub fn lex_lparen(&mut self) -> (r: Result<Token, LexError>)
        requires
            old(self).wf(),
        ensures
            final(self).input@ == old(self).input@,
            final(self).wf(),
            consumed_punct(*old(self), *final(self), B_LPAREN, r),
    {
        match self.consume_byte(B_LPAREN) {
            Ok((_, end)) => Ok(Token::lparen(Loc(end - 1, end))),
            Err(e) => Err(e),
        }
    }

    /// Lexes a `)` token at the cursor.
    pub fn lex_rparen(&mut self) -> (r: Result<Token, LexError>)
        requires
            old(self).wf(),
        ensures
            final(self).input@ == old(self).input@,
            final(self).wf(),
            consumed_punct(*old(self), *final(self), B_RPAREN, r),
    {
        match self.consume_byte(B_RPAREN) {
            Ok((_, end)) => Ok(Token::rparen(Loc(end - 1, end))),
            Err(e) => Err(e),
        }
    }

    /// Silently consumes the whitespace run under the cursor.
    pub fn skip_spaces(&mut self) -> (r: Result<(), LexError>)
        requires
            old(self).wf(),
        ensures
            final(self).input@ == old(self).input@,
            final(self).wf(),
            final(self).pos == class_run_end(
                ByteClass::Space,
                old(self).input@,
                old(self).pos as int,
            ),
            r == Ok::<(), LexError>(()),
    {
        self.recognize_many(ByteClass::Space);
        Ok(())
    }

    /// Lexes the whole remaining input into its token sequence, or
    /// fails with the first lexical error; nothing is returned of the
    /// tokens before the error.
    #[verifier::loop_isolation(false)]
    pub fn lex(&mut self) -> (r: Result<Vec<Token>, LexError>)
        requires
            old(self).wf(),
        ensures
            final(self).input@ == old(self).input@,
            final(self).wf(),
            lex_output(r) == spec_lex_from(old(self).input@, old(self).pos as int),
    {
        let ghost s = self.input@;
        let ghost p0 = self.pos as int;
        let mut tokens: Vec<Token> = Vec::new();
        proof {
            assert(Seq::<Token>::empty() + spec_lex_from(s, p0)->Ok_0 =~= spec_lex_from(
                s,
                p0,
            )->Ok_0);
        }
        while self.pos < self.input.len()
            invariant
                self.wf(),
                self.input@ == s,
                lex_prepend(tokens@, spec_lex_from(s, self.pos as int)) == spec_lex_from(s, p0),
            decreases self.input@.len() - self.pos,
        {
            let pos: usize = self.pos;
            let ghost pre = tokens@;
            let b: u8 = self.input[pos];
            if B_ZERO <= b && b <= B_NINE {
                proof {
                    lemma_class_run_end(ByteClass::Digit, s, pos as int);
                }
                match self.lex_number() {
                    Ok(tok) => {
                        tokens.push(tok);
                        proof {
                            let rest = spec_lex_from(s, self.pos as int);
                            assert(tokens@ =~= pre + seq![tok]);
                            if rest is Ok {
                                assert(pre + (seq![tok] + rest->Ok_0) =~= (pre + seq![tok])
                                    + rest->Ok_0);
                            }
                        }
                    },
                    Err(e) => {
                        proof {
                            assert(spec_lex_from(s, pos as int) == Err::<Seq<Token>, LexError>(e));
                        }
                        return Err(e);
                    },
                }
            } else if b == B_PLUS || b == B_MINUS || b == B_ASTERISK || b == B_SLASH || b
                == B_LPAREN || b == B_RPAREN {
                let r = if b == B_PLUS {
                    self.lex_plus()
                } else if b == B_MINUS {
                    self.lex_minus()
                } else if b == B_ASTERISK {
                    self.lex_asterisk()
                } else if b == B_SLASH {
                    self.lex_slash()
                } else if b == B_LPAREN {
                    self.lex_lparen()
                } else {
                    self.lex_rparen()
                };
                match r {
                    Ok(tok) => {
                        tokens.push(tok);
                        proof {
                            let rest = spec_lex_from(s, self.pos as int);
                            assert(tokens@ =~= pre + seq![tok]);
                            if rest is Ok {
                                assert(pre + (seq![tok] + rest->Ok_0) =~= (pre + seq![tok])
                                    + rest->Ok_0);
                            }
                        }
                    },
                    Err(e) => {
                        proof {
                            assert(spec_lex_from(s, pos as int) == Err::<Seq<Token>, LexError>(e));
                        }
                        return Err(e);
                    },
                }
            } else if b == B_SPACE || b == B_NEWLINE || b == B_TAB {
                let skipped = self.skip_spaces();
                proof {
                    lemma_class_run_end(ByteClass::Space, s, pos as int);
                    lemma_lex_skip_spaces(s, pos as int);
                }
                match skipped {
                    Ok(_) => {},
                    Err(e) => {
                        return Err(e);
                    },
                }
            } else {
                return Err(LexError::invalid_char(b as char, Loc(pos, pos + 1)));
            }
        }
        proof {
            assert(tokens@ + Seq::<Token>::empty() =~= tokens@);
        }
        Ok(tokens)
    }
}

/// What a successful or failed single-punctuation lex step says of the
/// lexer before and after: `Eof` at the end of input, `InvalidChar` on
/// the wrong byte, and a one-byte token of `b`'s kind otherwise.
pub open spec fn consumed_punct(
    pre: Lexer<'_>,
    post: Lexer<'_>,
    b: u8,
    r: Result<Token, LexError>,
) -> bool {
    &&& pre.pos >= pre.input@.len() ==> {
        &&& r == Err::<Token, LexError>(
            Annot { value: LexErrorKind::Eof, loc: Loc(pre.pos, pre.pos) },
        )
        &&& post.pos == pre.pos
    }
    &&& pre.pos < pre.input@.len() && pre.input@[pre.pos as int] != b ==> {
        &&& r == Err::<Token, LexError>(
            Annot {
                value: LexErrorKind::InvalidChar(pre.input@[pre.pos as int] as char),
                loc: Loc(pre.pos, (pre.pos + 1) as usize),
            },
        )
        &&& post.pos == pre.pos
    }
    &&& pre.pos < pre.input@.len() && pre.input@[pre.pos as int] == b ==> {
        &&& r == Ok::<Token, LexError>(
            Annot { value: punct_kind(b), loc: Loc(pre.pos, (pre.pos + 1) as usize) },
        )
        &&& post.pos == pre.pos + 1
    }
}

/// Whether byte `b` belongs to class `class`, executably.
fn byte_matches(class: ByteClass, b: u8) -> (r: bool)
    ensures
        r == byte_in_class(class, b),
{
    match class {
        ByteClass::Digit => B_ZERO <= b && b <= B_NINE,
        ByteClass::Space => b == B_SPACE || b == B_NEWLINE || b == B_TAB,
    }
}

} // verus!
