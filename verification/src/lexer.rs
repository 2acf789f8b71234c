//! The lexer: source text to tokens. What it gives for each input is stated
//! by spec functions over the characters of the text.
use vstd::prelude::*;
use crate::ast::Type;
use crate::text::{is_white, white, is_digit, is_lower, is_upper_hex, is_lower_hex, chars_of, push_char, string_of, push_seq, push_dec, dec_digits};

verus! {

#[derive(Debug, Clone, PartialEq)]
pub enum Token {
    Var,
    Array,
    Func,
    Loop,
    Try,
    Catch,
    Throw,
    Type(Type),
    Variable(String),
    Function(String),
    /// (value, is_negative)
    HexLiteral(u64, bool),
    /// `~`
    BitwiseNot,
    /// `?`
    Exists,
    /// `<<`
    ShiftLeft,
    /// `>>`
    ShiftRight,
    /// `&`
    BitwiseAnd,
    /// `|`
    BitwiseOr,
    /// `+`
    Plus,
    /// `-`
    Minus,
    /// `<`
    LessThan,
    /// `>`
    GreaterThan,
    /// `=`
    Equal,
    /// `@`
    At,
    /// `.`
    Dot,
    /// `,`
    Comma,
    /// `*`
    Asterisk,
    /// `{`
    LBrace,
    /// `}`
    RBrace,
    /// `(`
    LParen,
    /// `)`
    RParen,
    /// `[`
    LBracket,
    /// `]`
    RBracket,
}

/// The kind of a token, without what it carries.
#[derive(Debug, Clone, Copy, PartialEq, Eq, Structural)]
pub enum TokenKind {
    Var,
    Array,
    Func,
    Loop,
    Try,
    Catch,
    Throw,
    Type,
    Variable,
    Function,
    HexLiteral,
    BitwiseNot,
    Exists,
    ShiftLeft,
    ShiftRight,
    BitwiseAnd,
    BitwiseOr,
    Plus,
    Minus,
    LessThan,
    GreaterThan,
    Equal,
    At,
    Dot,
    Comma,
    Asterisk,
    LBrace,
    RBrace,
    LParen,
    RParen,
    LBracket,
    RBracket,
}

/// The model of a token: its kind and what it carries (the others are
/// left at fixed values).
pub struct TokenModel {
    pub kind: TokenKind,
    pub text: Seq<char>,
    pub value: u64,
    pub neg: bool,
    pub ty: Type,
}

pub open spec fn simple(kind: TokenKind) -> TokenModel {
    TokenModel { kind, text: Seq::empty(), value: 0, neg: false, ty: Type::I8 }
}

pub open spec fn named(kind: TokenKind, text: Seq<char>) -> TokenModel {
    TokenModel { kind, text, value: 0, neg: false, ty: Type::I8 }
}

pub open spec fn hex_token(value: u64, neg: bool) -> TokenModel {
    TokenModel { kind: TokenKind::HexLiteral, text: Seq::empty(), value, neg, ty: Type::I8 }
}

pub open spec fn type_token(ty: Type) -> TokenModel {
    TokenModel { kind: TokenKind::Type, text: Seq::empty(), value: 0, neg: false, ty }
}

pub open spec fn token_kind(t: Token) -> TokenKind {
    match t {
        Token::Var => TokenKind::Var,
        Token::Array => TokenKind::Array,
        Token::Func => TokenKind::Func,
        Token::Loop => TokenKind::Loop,
        Token::Try => TokenKind::Try,
        Token::Catch => TokenKind::Catch,
        Token::Throw => TokenKind::Throw,
        Token::Type(_) => TokenKind::Type,
        Token::Variable(_) => TokenKind::Variable,
        Token::Function(_) => TokenKind::Function,
        Token::HexLiteral(_, _) => TokenKind::HexLiteral,
        Token::BitwiseNot => TokenKind::BitwiseNot,
        Token::Exists => TokenKind::Exists,
        Token::ShiftLeft => TokenKind::ShiftLeft,
        Token::ShiftRight => TokenKind::ShiftRight,
        Token::BitwiseAnd => TokenKind::BitwiseAnd,
        Token::BitwiseOr => TokenKind::BitwiseOr,
        Token::Plus => TokenKind::Plus,
        Token::Minus => TokenKind::Minus,
        Token::LessThan => TokenKind::LessThan,
        Token::GreaterThan => TokenKind::GreaterThan,
        Token::Equal => TokenKind::Equal,
        Token::At => TokenKind::At,
        Token::Dot => TokenKind::Dot,
        Token::Comma => TokenKind::Comma,
        Token::Asterisk => TokenKind::Asterisk,
        Token::LBrace => TokenKind::LBrace,
        Token::RBrace => TokenKind::RBrace,
        Token::LParen => TokenKind::LParen,
        Token::RParen => TokenKind::RParen,
        Token::LBracket => TokenKind::LBracket,
        Token::RBracket => TokenKind::RBracket,
    }
}

pub open spec fn token_model(t: Token) -> TokenModel {
    match t {
        Token::Type(ty) => type_token(ty),
        Token::Variable(s) => named(TokenKind::Variable, s@),
        Token::Function(s) => named(TokenKind::Function, s@),
        Token::HexLiteral(v, n) => hex_token(v, n),
        _ => simple(token_kind(t)),
    }
}

impl View for Token {
    type V = TokenModel;

    open spec fn view(&self) -> TokenModel {
        token_model(*self)
    }
}

impl Token {
    /// The kind of this token.
    pub fn kind(&self) -> (k: TokenKind)
        ensures
            k == token_kind(*self),
            k == self@.kind,
    {
        match self {
            Token::Var => TokenKind::Var,
            Token::Array => TokenKind::Array,
            Token::Func => TokenKind::Func,
            Token::Loop => TokenKind::Loop,
            Token::Try => TokenKind::Try,
            Token::Catch => TokenKind::Catch,
            Token::Throw => TokenKind::Throw,
            Token::Type(_) => TokenKind::Type,
            Token::Variable(_) => TokenKind::Variable,
            Token::Function(_) => TokenKind::Function,
            Token::HexLiteral(_, _) => TokenKind::HexLiteral,
            Token::BitwiseNot => TokenKind::BitwiseNot,
            Token::Exists => TokenKind::Exists,
            Token::ShiftLeft => TokenKind::ShiftLeft,
            Token::ShiftRight => TokenKind::ShiftRight,
            Token::BitwiseAnd => TokenKind::BitwiseAnd,
            Token::BitwiseOr => TokenKind::BitwiseOr,
            Token::Plus => TokenKind::Plus,
            Token::Minus => TokenKind::Minus,
            Token::LessThan => TokenKind::LessThan,
            Token::GreaterThan => TokenKind::GreaterThan,
            Token::Equal => TokenKind::Equal,
            Token::At => TokenKind::At,
            Token::Dot => TokenKind::Dot,
            Token::Comma => TokenKind::Comma,
            Token::Asterisk => TokenKind::Asterisk,
            Token::LBrace => TokenKind::LBrace,
            Token::RBrace => TokenKind::RBrace,
            Token::LParen => TokenKind::LParen,
            Token::RParen => TokenKind::RParen,
            Token::LBracket => TokenKind::LBracket,
            Token::RBracket => TokenKind::RBracket,
        }
    }
}

#[derive(Debug, PartialEq)]
pub enum LexerError {
    InvalidCharacter(char, usize),
    UnterminatedComment(usize),
    InvalidIdentifier(String, usize),
    InvalidHexLiteral(String, usize),
}

pub enum LexErr {
    InvalidCharacter(char, int),
    UnterminatedComment(int),
    InvalidIdentifier(Seq<char>, int),
    InvalidHexLiteral(Seq<char>, int),
}

pub open spec fn lex_err_model(e: LexerError) -> LexErr {
    match e {
        LexerError::InvalidCharacter(c, l) => LexErr::InvalidCharacter(c, l as int),
        LexerError::UnterminatedComment(l) => LexErr::UnterminatedComment(l as int),
        LexerError::InvalidIdentifier(s, l) => LexErr::InvalidIdentifier(s@, l as int),
        LexerError::InvalidHexLiteral(s, l) => LexErr::InvalidHexLiteral(s@, l as int),
    }
}

impl View for LexerError {
    type V = LexErr;

    open spec fn view(&self) -> LexErr {
        lex_err_model(*self)
    }
}

/// The message of a lexer error.
pub open spec fn lex_error_text(e: LexErr) -> Seq<char> {
    match e {
        LexErr::InvalidCharacter(c, l) => "Invalid character '"@ + seq![c] + "' at line "@ + dec_digits(l as nat),
        LexErr::UnterminatedComment(l) => "Unterminated comment at line "@ + dec_digits(l as nat),
        LexErr::InvalidIdentifier(w, l) => "Invalid identifier '"@ + w + "' at line "@ + dec_digits(l as nat),
        LexErr::InvalidHexLiteral(w, l) => "Invalid hex literal '"@ + w + "' at line "@ + dec_digits(l as nat),
    }
}

impl LexerError {
    /// The message of the error.
    pub fn message(&self) -> (r: String)
        ensures
            r@ == lex_error_text(self@),
    {
        let mut m = String::new();
        let line = match self {
            LexerError::InvalidCharacter(c, l) => {
                push_seq(&mut m, &string_of("Invalid character '"));
                push_char(&mut m, *c);
                push_seq(&mut m, &string_of("' at line "));
                *l
            },
            LexerError::UnterminatedComment(l) => {
                push_seq(&mut m, &string_of("Unterminated comment at line "));
                *l
            },
            LexerError::InvalidIdentifier(w, l) => {
                push_seq(&mut m, &string_of("Invalid identifier '"));
                push_seq(&mut m, w);
                push_seq(&mut m, &string_of("' at line "));
                *l
            },
            LexerError::InvalidHexLiteral(w, l) => {
                push_seq(&mut m, &string_of("Invalid hex literal '"));
                push_seq(&mut m, w);
                push_seq(&mut m, &string_of("' at line "));
                *l
            },
        };
        push_dec(&mut m, line as u64);
        assert(m@ =~= lex_error_text(self@));
        m
    }
}

// ---------------------------------------------------------------------------
// Hexadecimal numerals.

pub open spec fn is_hex_char(c: char) -> bool {
    is_digit(c) || is_upper_hex(c)
}

pub open spec fn hex_char_value(c: char) -> nat {
    if is_digit(c) {
        (c as nat - 48) as nat
    } else {
        (c as nat - 55) as nat
    }
}

/// The value of a numeral of hexadecimal digits (upper-case letters).
pub open spec fn hex_value(s: Seq<char>) -> nat
    decreases s.len(),
{
    if s.len() == 0 {
        0
    } else {
        hex_value(s.drop_last()) * 16 + hex_char_value(s.last())
    }
}

proof fn lemma_hex_value_grows(s: Seq<char>, k: int)
    requires
        0 <= k <= s.len(),
    ensures
        hex_value(s.take(k)) <= hex_value(s),
    decreases s.len() - k,
{
    if k < s.len() {
        lemma_hex_value_grows(s, k + 1);
        assert(s.take(k + 1).drop_last() =~= s.take(k));
    } else {
        assert(s.take(k) =~= s);
    }
}

/// The value of `digits` in base 16, if a `u64` holds it.
fn parse_hex(digits: &Vec<char>) -> (r: Option<u64>)
    requires
        forall|i: int| 0 <= i < digits@.len() ==> is_hex_char(#[trigger] digits@[i]),
    ensures
        r == (if hex_value(digits@) <= u64::MAX {
            Some(hex_value(digits@) as u64)
        } else {
            None
        }),
{
    let mut v: u64 = 0;
    let mut i: usize = 0;
    while i < digits.len()
        invariant
            i <= digits@.len(),
            forall|j: int| 0 <= j < digits@.len() ==> is_hex_char(#[trigger] digits@[j]),
            v as nat == hex_value(digits@.take(i as int)),
        decreases digits@.len() - i,
    {
        let c = digits[i];
        let d: u64 = if '0' <= c && c <= '9' {
            (c as u32 - 48) as u64
        } else {
            (c as u32 - 55) as u64
        };
        assert(digits@.take(i + 1).drop_last() =~= digits@.take(i as int));
        assert(d as nat == hex_char_value(c));
        match v.checked_mul(16) {
            None => {
                proof {
                    lemma_hex_value_grows(digits@, i + 1);
                }
                return None;
            },
            Some(w) => match w.checked_add(d) {
                None => {
                    proof {
                        lemma_hex_value_grows(digits@, i + 1);
                    }
                    return None;
                },
                Some(x) => {
                    v = x;
                },
            },
        }
        i = i + 1;
    }
    assert(digits@.take(digits@.len() as int) =~= digits@);
    Some(v)
}

// ---------------------------------------------------------------------------
// What the lexer gives, over the characters `cs` of the text, from the
// position `pos` on line `line`.

pub open spec fn line_after(cs: Seq<char>, pos: int, line: int) -> int {
    if 0 <= pos < cs.len() && cs[pos] == '\n' {
        line + 1
    } else {
        line
    }
}

/// Past the white space at `pos`.
pub open spec fn skip_ws(cs: Seq<char>, pos: int, line: int) -> (int, int)
    decreases cs.len() - pos,
{
    if 0 <= pos < cs.len() && is_white(cs[pos]) {
        skip_ws(cs, pos + 1, line_after(cs, pos, line))
    } else {
        (pos, line)
    }
}

/// The end of the run of lower-case letters and digits (and `_` where
/// `underscore`) that starts at `pos`.
pub open spec fn word_end(cs: Seq<char>, pos: int, underscore: bool) -> int
    decreases cs.len() - pos,
{
    if 0 <= pos < cs.len() && (is_lower(cs[pos]) || is_digit(cs[pos]) || (underscore && cs[pos] == '_')) {
        word_end(cs, pos + 1, underscore)
    } else {
        pos
    }
}

/// The end of the run of hexadecimal digits that starts at `pos`.
pub open spec fn hex_end(cs: Seq<char>, pos: int) -> int
    decreases cs.len() - pos,
{
    if 0 <= pos < cs.len() && is_hex_char(cs[pos]) {
        hex_end(cs, pos + 1)
    } else {
        pos
    }
}

/// The token of a character that is a token by itself.
pub open spec fn single_token(c: char) -> Option<TokenKind> {
    if c == '~' {
        Some(TokenKind::BitwiseNot)
    } else if c == '?' {
        Some(TokenKind::Exists)
    } else if c == '&' {
        Some(TokenKind::BitwiseAnd)
    } else if c == '|' {
        Some(TokenKind::BitwiseOr)
    } else if c == '+' {
        Some(TokenKind::Plus)
    } else if c == '=' {
        Some(TokenKind::Equal)
    } else if c == '@' {
        Some(TokenKind::At)
    } else if c == '.' {
        Some(TokenKind::Dot)
    } else if c == ',' {
        Some(TokenKind::Comma)
    } else if c == '*' {
        Some(TokenKind::Asterisk)
    } else if c == '{' {
        Some(TokenKind::LBrace)
    } else if c == '}' {
        Some(TokenKind::RBrace)
    } else if c == '[' {
        Some(TokenKind::LBracket)
    } else if c == ']' {
        Some(TokenKind::RBracket)
    } else if c == '(' {
        Some(TokenKind::LParen)
    } else if c == ')' {
        Some(TokenKind::RParen)
    } else {
        None
    }
}

/// The token of a keyword.
pub open spec fn keyword_token(w: Seq<char>) -> Option<TokenModel> {
    if w == "var"@ {
        Some(simple(TokenKind::Var))
    } else if w == "array"@ {
        Some(simple(TokenKind::Array))
    } else if w == "func"@ {
        Some(simple(TokenKind::Func))
    } else if w == "loop"@ {
        Some(simple(TokenKind::Loop))
    } else if w == "try"@ {
        Some(simple(TokenKind::Try))
    } else if w == "catch"@ {
        Some(simple(TokenKind::Catch))
    } else if w == "throw"@ {
        Some(simple(TokenKind::Throw))
    } else if w == "i8"@ {
        Some(type_token(Type::I8))
    } else if w == "u8"@ {
        Some(type_token(Type::U8))
    } else if w == "i16"@ {
        Some(type_token(Type::I16))
    } else if w == "u16"@ {
        Some(type_token(Type::U16))
    } else if w == "i32"@ {
        Some(type_token(Type::I32))
    } else if w == "u32"@ {
        Some(type_token(Type::U32))
    } else if w == "i64"@ {
        Some(type_token(Type::I64))
    } else if w == "u64"@ {
        Some(type_token(Type::U64))
    } else {
        None
    }
}

/// What the lexer gives: a result, then the position and line after it.
pub type LexStep = (Result<Option<TokenModel>, LexErr>, int, int);

/// A variable (`$`) or function (`#`) name at `pos`.
pub open spec fn lex_ident(cs: Seq<char>, pos: int, line: int) -> LexStep {
    let e = word_end(cs, pos + 1, true);
    let name = cs.subrange(pos + 1, e);
    if name.len() == 0 {
        (Err(LexErr::InvalidIdentifier(seq![cs[pos]], line)), e, line)
    } else if cs[pos] == '$' {
        (Ok(Some(named(TokenKind::Variable, name))), e, line)
    } else {
        (Ok(Some(named(TokenKind::Function, name))), e, line)
    }
}

/// A hexadecimal literal at `pos`, with an optional `-`; lower-case digits
/// and values that a `u64` does not hold are errors.
pub open spec fn lex_hex(cs: Seq<char>, pos: int, line: int) -> LexStep {
    let neg = 0 <= pos < cs.len() && cs[pos] == '-';
    let p1 = if neg { pos + 1 } else { pos };
    let e = hex_end(cs, p1);
    let digits = cs.subrange(p1, e);
    if 0 <= e < cs.len() && is_lower_hex(cs[e]) {
        (Err(LexErr::InvalidHexLiteral(digits.push(cs[e]), line)), e, line)
    } else if digits.len() == 0 {
        (Err(LexErr::InvalidHexLiteral(if neg { seq!['-'] } else { Seq::empty() }, line)), e, line)
    } else if hex_value(digits) <= u64::MAX {
        (Ok(Some(hex_token(hex_value(digits) as u64, neg))), e, line)
    } else {
        (Err(LexErr::InvalidHexLiteral(digits, line)), e, line)
    }
}

/// A keyword at `pos`.
pub open spec fn lex_kw(cs: Seq<char>, pos: int, line: int) -> LexStep {
    let e = word_end(cs, pos, false);
    let w = cs.subrange(pos, e);
    match keyword_token(w) {
        Some(t) => (Ok(Some(t)), e, line),
        None => (Err(LexErr::InvalidIdentifier(w, line)), e, line),
    }
}

/// The next token after any white space at `pos`, `None` at the end.
pub open spec fn next_token(cs: Seq<char>, pos: int, line: int) -> LexStep {
    let (p, l) = skip_ws(cs, pos, line);
    if !(0 <= p < cs.len()) {
        (Ok(None), p, l)
    } else {
        let c = cs[p];
        match single_token(c) {
            Some(k) => (Ok(Some(simple(k))), p + 1, l),
            None => if c == '<' {
                if p + 1 < cs.len() && cs[p + 1] == '<' {
                    (Ok(Some(simple(TokenKind::ShiftLeft))), p + 2, l)
                } else {
                    (Ok(Some(simple(TokenKind::LessThan))), p + 1, l)
                }
            } else if c == '>' {
                if p + 1 < cs.len() && cs[p + 1] == '>' {
                    (Ok(Some(simple(TokenKind::ShiftRight))), p + 2, l)
                } else {
                    (Ok(Some(simple(TokenKind::GreaterThan))), p + 1, l)
                }
            } else if c == '-' {
                if p + 1 < cs.len() && is_hex_char(cs[p + 1]) {
                    lex_hex(cs, p, l)
                } else {
                    (Ok(Some(simple(TokenKind::Minus))), p + 1, l)
                }
            } else if c == '$' || c == '#' {
                lex_ident(cs, p, l)
            } else if is_hex_char(c) {
                lex_hex(cs, p, l)
            } else if is_lower(c) {
                lex_kw(cs, p, l)
            } else {
                (Err(LexErr::InvalidCharacter(c, l)), p, l)
            },
        }
    }
}

/// The tokens lexed from `pos` (just after a `(`) up to a `)` met where a
/// token would start: whether no error came, whether the `)` was met,
/// the tokens, and the position and line after them.
pub open spec fn tentative(cs: Seq<char>, pos: int, line: int, inner: Seq<TokenModel>) -> (
    bool,
    bool,
    Seq<TokenModel>,
    int,
    int,
)
    decreases cs.len() - pos,
{
    if !(0 <= pos < cs.len()) {
        (true, false, inner, pos, line)
    } else if cs[pos] == ')' {
        (true, true, inner, pos + 1, line)
    } else {
        let (r, q, ql) = next_token(cs, pos, line);
        match r {
            Ok(Some(t)) => {
                proof {
                    lemma_next_token(cs, pos, line);
                }
                tentative(cs, q, ql, inner.push(t))
            },
            Ok(None) => (true, false, inner, q, ql),
            Err(_) => (false, false, inner, q, ql),
        }
    }
}

/// The end of a comment whose `(` signs are `depth` deep at `pos`.
pub open spec fn comment_end(cs: Seq<char>, pos: int, line: int, depth: int) -> Option<(int, int)>
    decreases cs.len() - pos,
{
    if !(0 <= pos < cs.len()) {
        None
    } else {
        let nl = line_after(cs, pos, line);
        if cs[pos] == '(' {
            comment_end(cs, pos + 1, nl, depth + 1)
        } else if cs[pos] == ')' {
            if depth - 1 == 0 {
                Some((pos + 1, nl))
            } else {
                comment_end(cs, pos + 1, nl, depth - 1)
            }
        } else {
            comment_end(cs, pos + 1, nl, depth)
        }
    }
}

/// Whether a `(` at `p` stands at the start of the text or after white
/// space, where it always opens a comment.
pub open spec fn after_blank(cs: Seq<char>, p: int) -> bool {
    p == 0 || (0 < p <= cs.len() && is_white(cs[p - 1]))
}

/// The tokens of `cs[pos..]` after the tokens `acc`. A `(` at the start of
/// the text or after white space opens a comment, which runs to its
/// matching `)`. Another `(` (one right after a name, say) opens a
/// bracketed group when what follows it lexes without error up to a `)`
/// and holds a token; otherwise it too opens a comment.
pub open spec fn lex_all(cs: Seq<char>, pos: int, line: int, acc: Seq<TokenModel>) -> Result<Seq<TokenModel>, LexErr>
    decreases cs.len() - pos,
{
    if !(0 <= pos < cs.len()) {
        Ok(acc)
    } else {
        let (p, l) = skip_ws(cs, pos, line);
        if p >= cs.len() {
            Ok(acc)
        } else if cs[p] == '(' {
            let (valid, found, inner, tp, tl) = tentative(cs, p + 1, l, Seq::empty());
            if !after_blank(cs, p) && valid && found && inner.len() > 0 {
                proof {
                    lemma_skip_ws(cs, pos, line);
                    lemma_tentative(cs, p + 1, l, Seq::empty());
                }
                lex_all(
                    cs,
                    tp,
                    tl,
                    acc + seq![simple(TokenKind::LParen)] + inner + seq![simple(TokenKind::RParen)],
                )
            } else {
                match comment_end(cs, p + 1, l, 1) {
                    None => Err(LexErr::UnterminatedComment(l)),
                    Some((q, ql)) => {
                        proof {
                            lemma_skip_ws(cs, pos, line);
                            lemma_comment_end(cs, p + 1, l, 1);
                        }
                        lex_all(cs, q, ql, acc)
                    },
                }
            }
        } else {
            let (r, q, ql) = next_token(cs, p, l);
            match r {
                Err(e) => Err(e),
                Ok(Some(t)) => {
                    proof {
                        lemma_skip_ws(cs, pos, line);
                        lemma_next_token(cs, p, l);
                    }
                    lex_all(cs, q, ql, acc.push(t))
                },
                Ok(None) => Ok(acc),
            }
        }
    }
}

pub proof fn lemma_skip_ws(cs: Seq<char>, pos: int, line: int)
    requires
        0 <= pos <= cs.len(),
    ensures
        pos <= skip_ws(cs, pos, line).0 <= cs.len(),
        line <= skip_ws(cs, pos, line).1 <= line + (skip_ws(cs, pos, line).0 - pos),
        skip_ws(cs, pos, line).0 < cs.len() ==> !is_white(cs[skip_ws(cs, pos, line).0]),
    decreases cs.len() - pos,
{
    if 0 <= pos < cs.len() && is_white(cs[pos]) {
        lemma_skip_ws(cs, pos + 1, line_after(cs, pos, line));
    }
}

pub proof fn lemma_word_end(cs: Seq<char>, pos: int, underscore: bool)
    requires
        0 <= pos <= cs.len(),
    ensures
        pos <= word_end(cs, pos, underscore) <= cs.len(),
    decreases cs.len() - pos,
{
    if 0 <= pos < cs.len() && (is_lower(cs[pos]) || is_digit(cs[pos]) || (underscore && cs[pos] == '_')) {
        lemma_word_end(cs, pos + 1, underscore);
    }
}

pub proof fn lemma_hex_end(cs: Seq<char>, pos: int)
    requires
        0 <= pos <= cs.len(),
    ensures
        pos <= hex_end(cs, pos) <= cs.len(),
        forall|i: int| pos <= i < hex_end(cs, pos) ==> is_hex_char(#[trigger] cs[i]),
    decreases cs.len() - pos,
{
    if 0 <= pos < cs.len() && is_hex_char(cs[pos]) {
        lemma_hex_end(cs, pos + 1);
    }
}

pub proof fn lemma_next_token(cs: Seq<char>, pos: int, line: int)
    requires
        0 <= pos <= cs.len(),
    ensures
        pos <= next_token(cs, pos, line).1 <= cs.len(),
        line <= next_token(cs, pos, line).2 <= line + (next_token(cs, pos, line).1 - pos),
        next_token(cs, pos, line).0 matches Ok(Some(_)) ==> next_token(cs, pos, line).1 > pos,
        next_token(cs, pos, line).0 matches Ok(None) ==> next_token(cs, pos, line).1 == cs.len(),
{
    lemma_skip_ws(cs, pos, line);
    let (p, l) = skip_ws(cs, pos, line);
    if 0 <= p < cs.len() {
        lemma_word_end(cs, p + 1, true);
        lemma_word_end(cs, p, false);
        lemma_word_end(cs, p + 1, false);
        lemma_hex_end(cs, p);
        if p + 1 <= cs.len() {
            lemma_hex_end(cs, p + 1);
        }
    }
}

pub proof fn lemma_tentative(cs: Seq<char>, pos: int, line: int, inner: Seq<TokenModel>)
    requires
        0 <= pos <= cs.len(),
    ensures
        pos <= tentative(cs, pos, line, inner).3 <= cs.len(),
        line <= tentative(cs, pos, line, inner).4 <= line + (tentative(cs, pos, line, inner).3 - pos),
    decreases cs.len() - pos,
{
    if 0 <= pos < cs.len() && cs[pos] != ')' {
        lemma_next_token(cs, pos, line);
        let (r, q, ql) = next_token(cs, pos, line);
        match r {
            Ok(Some(t)) => {
                lemma_tentative(cs, q, ql, inner.push(t));
            },
            _ => {},
        }
    }
}

pub proof fn lemma_comment_end(cs: Seq<char>, pos: int, line: int, depth: int)
    requires
        0 <= pos <= cs.len(),
    ensures
        comment_end(cs, pos, line, depth) matches Some((q, ql)) ==> pos < q <= cs.len() && line <= ql <= line + (q - pos),
    decreases cs.len() - pos,
{
    if 0 <= pos < cs.len() {
        let nl = line_after(cs, pos, line);
        if cs[pos] == '(' {
            lemma_comment_end(cs, pos + 1, nl, depth + 1);
        } else if cs[pos] == ')' {
            if depth - 1 != 0 {
                lemma_comment_end(cs, pos + 1, nl, depth - 1);
            }
        } else {
            lemma_comment_end(cs, pos + 1, nl, depth);
        }
    }
}

/// The tokens of a text.
pub open spec fn lex(text: Seq<char>) -> Result<Seq<TokenModel>, LexErr> {
    lex_all(text, 0, 1, Seq::empty())
}

// ---------------------------------------------------------------------------
// The executable lexer.

pub open spec fn step_model(r: Result<Option<Token>, LexerError>) -> Result<Option<TokenModel>, LexErr> {
    match r {
        Ok(Some(t)) => Ok(Some(t@)),
        Ok(None) => Ok(None),
        Err(e) => Err(e@),
    }
}

pub open spec fn tokens_model(ts: Seq<Token>) -> Seq<TokenModel> {
    ts.map_values(|t: Token| t@)
}

fn word_char(c: char, underscore: bool) -> (r: bool)
    ensures
        r == (is_lower(c) || is_digit(c) || (underscore && c == '_')),
{
    ('a' <= c && c <= 'z') || ('0' <= c && c <= '9') || (underscore && c == '_')
}

fn hex_char(c: char) -> (r: bool)
    ensures
        r == is_hex_char(c),
{
    ('0' <= c && c <= '9') || ('A' <= c && c <= 'F')
}

pub struct Lexer {
    chars: Vec<char>,
    pos: usize,
    line: usize,
}

impl Lexer {
    /// The characters of the text, the position and the line of the lexer.
    pub closed spec fn chars(&self) -> Seq<char> {
        self.chars@
    }

    pub closed spec fn position(&self) -> int {
        self.pos as int
    }

    pub closed spec fn line_no(&self) -> int {
        self.line as int
    }

    /// Both lexers read the same text.
    pub closed spec fn same_input(&self, other: Lexer) -> bool {
        self.chars == other.chars
    }

    /// The position is in the text, and the line count cannot overflow.
    pub closed spec fn wf(&self) -> bool {
        &&& self.pos <= self.chars@.len()
        &&& self.chars@.len() < usize::MAX
        &&& self.line <= self.pos + 1
    }

    /// A lexer at the start of `input`, on line 1.
    pub fn new(input: &str) -> (r: Lexer)
        requires
            input@.len() < usize::MAX,
        ensures
            r.wf(),
            r.chars() == input@,
            r.position() == 0,
            r.line_no() == 1,
    {
        Lexer { chars: chars_of(input), pos: 0, line: 1 }
    }

    fn peek(&self) -> (r: Option<char>)
        ensures
            r == (if self.pos < self.chars@.len() {
                Some(self.chars@[self.pos as int])
            } else {
                None::<char>
            }),
    {
        if self.pos < self.chars.len() {
            Some(self.chars[self.pos])
        } else {
            None
        }
    }

    fn advance(&mut self) -> (r: Option<char>)
        requires
            old(self).wf(),
        ensures
            final(self).wf(),
            final(self).chars == old(self).chars,
            r == (if old(self).pos < old(self).chars@.len() {
                Some(old(self).chars@[old(self).pos as int])
            } else {
                None::<char>
            }),
            old(self).pos < old(self).chars@.len() ==> final(self).pos == old(self).pos + 1,
            old(self).pos >= old(self).chars@.len() ==> final(self).pos == old(self).pos,
            final(self).line == line_after(old(self).chars@, old(self).pos as int, old(self).line as int),
    {
        match self.peek() {
            None => None,
            Some(c) => {
                self.pos = self.pos + 1;
                if c == '\n' {
                    self.line = self.line + 1;
                }
                Some(c)
            },
        }
    }

    fn skip_whitespace(&mut self)
        requires
            old(self).wf(),
        ensures
            final(self).wf(),
            final(self).chars == old(self).chars,
            (final(self).pos as int, final(self).line as int) == skip_ws(
                old(self).chars@,
                old(self).pos as int,
                old(self).line as int,
            ),
    {
        while self.pos < self.chars.len() && white(self.chars[self.pos])
            invariant
                self.wf(),
                self.chars == old(self).chars,
                skip_ws(old(self).chars@, old(self).pos as int, old(self).line as int) == skip_ws(
                    self.chars@,
                    self.pos as int,
                    self.line as int,
                ),
            decreases self.chars@.len() - self.pos,
        {
            self.advance();
        }
    }

    /// The characters `chars[a..b]` as a `String`.
    fn text_between(&self, a: usize, b: usize) -> (r: String)
        requires
            a <= b <= self.chars@.len(),
        ensures
            r@ == self.chars@.subrange(a as int, b as int),
    {
        let mut r = String::new();
        let mut k: usize = a;
        while k < b
            invariant
                a <= k <= b <= self.chars@.len(),
                r@ =~= self.chars@.subrange(a as int, k as int),
            decreases b - k,
        {
            push_char(&mut r, self.chars[k]);
            k = k + 1;
        }
        r
    }

    fn word_end(&self, underscore: bool) -> (e: usize)
        requires
            self.wf(),
        ensures
            e as int == word_end(self.chars@, self.pos as int, underscore),
            self.pos <= e <= self.chars@.len(),
    {
        let mut e = self.pos;
        while e < self.chars.len() && word_char(self.chars[e], underscore)
            invariant
                self.pos <= e <= self.chars@.len(),
                word_end(self.chars@, self.pos as int, underscore) == word_end(self.chars@, e as int, underscore),
            decreases self.chars@.len() - e,
        {
            e = e + 1;
        }
        e
    }

    fn lex_identifier(&mut self) -> (r: Result<Option<Token>, LexerError>)
        requires
            old(self).wf(),
            old(self).pos < old(self).chars@.len(),
            old(self).chars@[old(self).pos as int] == '$' || old(self).chars@[old(self).pos as int] == '#',
        ensures
            final(self).wf(),
            final(self).chars == old(self).chars,
            (step_model(r), final(self).pos as int, final(self).line as int) == lex_ident(
                old(self).chars@,
                old(self).pos as int,
                old(self).line as int,
            ),
    {
        let prefix = self.chars[self.pos];
        let start = self.pos + 1;
        self.pos = start;
        let e = self.word_end(true);
        let name = self.text_between(start, e);
        self.pos = e;
        if e == start {
            let mut p = String::new();
            push_char(&mut p, prefix);
            assert(p@ =~= seq![prefix]);
            return Err(LexerError::InvalidIdentifier(p, self.line));
        }
        if prefix == '$' {
            Ok(Some(Token::Variable(name)))
        } else {
            Ok(Some(Token::Function(name)))
        }
    }

    fn lex_hex_literal(&mut self) -> (r: Result<Option<Token>, LexerError>)
        requires
            old(self).wf(),
        ensures
            final(self).wf(),
            final(self).chars == old(self).chars,
            (step_model(r), final(self).pos as int, final(self).line as int) == lex_hex(
                old(self).chars@,
                old(self).pos as int,
                old(self).line as int,
            ),
    {
        let ghost cs = self.chars@;
        let mut is_negative = false;
        if self.pos < self.chars.len() && self.chars[self.pos] == '-' {
            is_negative = true;
            self.pos = self.pos + 1;
        }
        let start = self.pos;
        let mut digits: Vec<char> = Vec::new();
        proof {
            lemma_hex_end(cs, start as int);
        }
        while self.pos < self.chars.len() && hex_char(self.chars[self.pos])
            invariant
                self.wf(),
                self.chars@ == cs,
                self.chars == old(self).chars,
                self.line == old(self).line,
                start <= self.pos,
                hex_end(cs, start as int) == hex_end(cs, self.pos as int),
                digits@ =~= cs.subrange(start as int, self.pos as int),
            decreases self.chars@.len() - self.pos,
        {
            digits.push(self.chars[self.pos]);
            self.pos = self.pos + 1;
        }
        let e = self.pos;
        let digit_text = self.text_between(start, e);
        if e < self.chars.len() && 'a' <= self.chars[e] && self.chars[e] <= 'f' {
            let mut t = digit_text;
            push_char(&mut t, self.chars[e]);
            return Err(LexerError::InvalidHexLiteral(t, self.line));
        }
        if digits.len() == 0 {
            let t = if is_negative {
                string_of("-")
            } else {
                String::new()
            };
            proof {
                reveal_strlit("-");
            }
            assert(is_negative ==> t@ =~= seq!['-']);
            return Err(LexerError::InvalidHexLiteral(t, self.line));
        }
        match parse_hex(&digits) {
            Some(v) => Ok(Some(Token::HexLiteral(v, is_negative))),
            None => Err(LexerError::InvalidHexLiteral(digit_text, self.line)),
        }
    }

    /// A keyword or a type at the position: the run of lower-case letters
    /// and digits there, or the error that names it.
    pub fn lex_keyword(&mut self) -> (r: Result<Option<Token>, LexerError>)
        requires
            old(self).wf(),
        ensures
            final(self).wf(),
            final(self).chars() == old(self).chars(),
            final(self).same_input(*old(self)),
            (step_model(r), final(self).position(), final(self).line_no()) == lex_kw(
                old(self).chars(),
                old(self).position(),
                old(self).line_no(),
            ),
    {
        let start = self.pos;
        let e = self.word_end(false);
        let word = self.text_between(start, e);
        self.pos = e;
        let t = if crate::text::text_is(&word, "var") {
            Token::Var
        } else if crate::text::text_is(&word, "array") {
            Token::Array
        } else if crate::text::text_is(&word, "func") {
            Token::Func
        } else if crate::text::text_is(&word, "loop") {
            Token::Loop
        } else if crate::text::text_is(&word, "try") {
            Token::Try
        } else if crate::text::text_is(&word, "catch") {
            Token::Catch
        } else if crate::text::text_is(&word, "throw") {
            Token::Throw
        } else if crate::text::text_is(&word, "i8") {
            Token::Type(Type::I8)
        } else if crate::text::text_is(&word, "u8") {
            Token::Type(Type::U8)
        } else if crate::text::text_is(&word, "i16") {
            Token::Type(Type::I16)
        } else if crate::text::text_is(&word, "u16") {
            Token::Type(Type::U16)
        } else if crate::text::text_is(&word, "i32") {
            Token::Type(Type::I32)
        } else if crate::text::text_is(&word, "u32") {
            Token::Type(Type::U32)
        } else if crate::text::text_is(&word, "i64") {
            Token::Type(Type::I64)
        } else if crate::text::text_is(&word, "u64") {
            Token::Type(Type::U64)
        } else {
            return Err(LexerError::InvalidIdentifier(word, self.line));
        };
        Ok(Some(t))
    }
}

impl Lexer {
    fn next_token_internal(&mut self) -> (r: Result<Option<Token>, LexerError>)
        requires
            old(self).wf(),
        ensures
            final(self).wf(),
            final(self).chars == old(self).chars,
            (step_model(r), final(self).pos as int, final(self).line as int) == next_token(
                old(self).chars@,
                old(self).pos as int,
                old(self).line as int,
            ),
    {
        self.skip_whitespace();
        let c = match self.peek() {
            Some(c) => c,
            None => {
                return Ok(None);
            },
        };
        let single = if c == '~' {
            Some(Token::BitwiseNot)
        } else if c == '?' {
            Some(Token::Exists)
        } else if c == '&' {
            Some(Token::BitwiseAnd)
        } else if c == '|' {
            Some(Token::BitwiseOr)
        } else if c == '+' {
            Some(Token::Plus)
        } else if c == '=' {
            Some(Token::Equal)
        } else if c == '@' {
            Some(Token::At)
        } else if c == '.' {
            Some(Token::Dot)
        } else if c == ',' {
            Some(Token::Comma)
        } else if c == '*' {
            Some(Token::Asterisk)
        } else if c == '{' {
            Some(Token::LBrace)
        } else if c == '}' {
            Some(Token::RBrace)
        } else if c == '[' {
            Some(Token::LBracket)
        } else if c == ']' {
            Some(Token::RBracket)
        } else if c == '(' {
            Some(Token::LParen)
        } else if c == ')' {
            Some(Token::RParen)
        } else {
            None
        };
        match single {
            Some(t) => {
                self.advance();
                return Ok(Some(t));
            },
            None => {},
        }
        if c == '<' {
            self.advance();
            if self.peek() == Some('<') {
                self.advance();
                Ok(Some(Token::ShiftLeft))
            } else {
                Ok(Some(Token::LessThan))
            }
        } else if c == '>' {
            self.advance();
            if self.peek() == Some('>') {
                self.advance();
                Ok(Some(Token::ShiftRight))
            } else {
                Ok(Some(Token::GreaterThan))
            }
        } else if c == '-' {
            if self.pos + 1 < self.chars.len() && hex_char(self.chars[self.pos + 1]) {
                return self.lex_hex_literal();
            }
            self.advance();
            Ok(Some(Token::Minus))
        } else if c == '$' || c == '#' {
            self.lex_identifier()
        } else if hex_char(c) {
            self.lex_hex_literal()
        } else if 'a' <= c && c <= 'z' {
            self.lex_keyword()
        } else {
            Err(LexerError::InvalidCharacter(c, self.line))
        }
    }

    /// Lexes from just after a `(` to a `)` met where a token would start,
    /// and comes back to where it began.
    fn tentative_group(&mut self) -> (r: (bool, bool, Vec<Token>, usize, usize))
        requires
            old(self).wf(),
            old(self).pos < old(self).chars@.len(),
        ensures
            *final(self) == *old(self),
            ({
                let (valid, found, inner, tp, tl) = tentative(
                    old(self).chars@,
                    old(self).pos + 1,
                    old(self).line as int,
                    Seq::empty(),
                );
                r.0 == valid && r.1 == found && tokens_model(r.2@) == inner && r.3 as int == tp && r.4 as int == tl
            }),
    {
        let saved_pos = self.pos;
        let saved_line = self.line;
        self.pos = self.pos + 1;
        let ghost cs = self.chars@;
        let ghost target = tentative(cs, self.pos as int, self.line as int, Seq::empty());
        let mut inner: Vec<Token> = Vec::new();
        let mut valid = true;
        let mut found = false;
        assert(tokens_model(inner@) =~= Seq::<TokenModel>::empty());
        loop
            invariant_except_break
                self.wf(),
                self.chars == old(self).chars,
                cs == self.chars@,
                valid,
                !found,
                target == tentative(cs, self.pos as int, self.line as int, tokens_model(inner@)),
            ensures
                self.wf(),
                self.chars == old(self).chars,
                target == (valid, found, tokens_model(inner@), self.pos as int, self.line as int),
            decreases self.chars@.len() - self.pos,
        {
            match self.peek() {
                None => {
                    break;
                },
                Some(c) => {
                    if c == ')' {
                        self.advance();
                        found = true;
                        break;
                    }
                },
            }
            let ghost before = self.pos as int;
            let ghost before_line = self.line as int;
            let ghost acc = tokens_model(inner@);
            proof {
                lemma_next_token(cs, before, before_line);
            }
            match self.next_token_internal() {
                Ok(Some(t)) => {
                    inner.push(t);
                    assert(tokens_model(inner@) =~= acc.push(t@));
                },
                Ok(None) => {
                    break;
                },
                Err(_) => {
                    valid = false;
                    break;
                },
            }
        }
        let r = (valid, found, inner, self.pos, self.line);
        self.pos = saved_pos;
        self.line = saved_line;
        r
    }

    /// Skips a comment from just after its `(` to its matching `)`.
    fn skip_comment(&mut self) -> (r: bool)
        requires
            old(self).wf(),
        ensures
            final(self).wf(),
            final(self).chars == old(self).chars,
            r == comment_end(old(self).chars@, old(self).pos as int, old(self).line as int, 1) is Some,
            r ==> comment_end(old(self).chars@, old(self).pos as int, old(self).line as int, 1) == Some(
                (final(self).pos as int, final(self).line as int),
            ),
    {
        let ghost cs = self.chars@;
        let ghost target = comment_end(cs, self.pos as int, self.line as int, 1);
        let ghost start = self.pos;
        let mut depth: usize = 1;
        loop
            invariant
                self.wf(),
                self.chars == old(self).chars,
                cs == self.chars@,
                start <= self.pos,
                1 <= depth <= self.pos - start + 1,
                target == comment_end(old(self).chars@, old(self).pos as int, old(self).line as int, 1),
                target == comment_end(cs, self.pos as int, self.line as int, depth as int),
            decreases self.chars@.len() - self.pos,
        {
            match self.advance() {
                None => {
                    return false;
                },
                Some(c) => {
                    if c == '(' {
                        depth = depth + 1;
                    } else if c == ')' {
                        depth = depth - 1;
                        if depth == 0 {
                            return true;
                        }
                    }
                },
            }
        }
    }

    /// The tokens of the text from the lexer's position on.
    pub fn tokenize(&mut self) -> (r: Result<Vec<Token>, LexerError>)
        requires
            old(self).wf(),
        ensures
            match r {
                Ok(ts) => lex_all(old(self).chars(), old(self).position(), old(self).line_no(), Seq::empty())
                    == Ok::<Seq<TokenModel>, LexErr>(tokens_model(ts@)),
                Err(e) => lex_all(old(self).chars(), old(self).position(), old(self).line_no(), Seq::empty())
                    == Err::<Seq<TokenModel>, LexErr>(e@),
            },
    {
        let ghost cs = self.chars@;
        let ghost target = lex_all(cs, self.pos as int, self.line as int, Seq::empty());
        let mut tokens: Vec<Token> = Vec::new();
        assert(tokens_model(tokens@) =~= Seq::<TokenModel>::empty());
        while self.pos < self.chars.len()
            invariant
                self.wf(),
                cs == self.chars@,
                cs == old(self).chars@,
                target == lex_all(old(self).chars@, old(self).pos as int, old(self).line as int, Seq::empty()),
                target == lex_all(cs, self.pos as int, self.line as int, tokens_model(tokens@)),
            ensures
                self.pos >= self.chars@.len(),
                target == lex_all(cs, self.pos as int, self.line as int, tokens_model(tokens@)),
            decreases self.chars@.len() - self.pos,
        {
            let ghost p0 = self.pos as int;
            let ghost l0 = self.line as int;
            let ghost acc = tokens_model(tokens@);
            proof {
                lemma_skip_ws(cs, p0, l0);
            }
            self.skip_whitespace();
            if self.pos >= self.chars.len() {
                break;
            }
            let ghost p = self.pos as int;
            let ghost l = self.line as int;
            if self.chars[self.pos] == '(' {
                let start_line = self.line;
                let (valid, found, inner, tp, tl) = self.tentative_group();
                proof {
                    lemma_tentative(cs, p + 1, l, Seq::empty());
                }
                let blank_before = self.pos == 0 || white(self.chars[self.pos - 1]);
                if !blank_before && valid && found && inner.len() > 0 {
                    tokens.push(Token::LParen);
                    let mut inner = inner;
                    tokens.append(&mut inner);
                    tokens.push(Token::RParen);
                    self.pos = tp;
                    self.line = tl;
                    assert(tokens_model(tokens@) =~= acc + seq![simple(TokenKind::LParen)] + tentative(
                        cs,
                        p + 1,
                        l,
                        Seq::empty(),
                    ).2 + seq![simple(TokenKind::RParen)]);
                    continue;
                } else {
                    self.advance();
                    proof {
                        lemma_comment_end(cs, p + 1, l, 1);
                    }
                    if !self.skip_comment() {
                        return Err(LexerError::UnterminatedComment(start_line));
                    }
                    continue;
                }
            }
            proof {
                lemma_next_token(cs, p, l);
            }
            match self.next_token_internal() {
                Err(e) => {
                    return Err(e);
                },
                Ok(Some(t)) => {
                    tokens.push(t);
                    assert(tokens_model(tokens@) =~= acc.push(t@));
                },
                Ok(None) => {},
            }
        }
        Ok(tokens)
    }
}

} // verus!
