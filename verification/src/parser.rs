//! The parser: tokens to a program. What it gives for each sequence of
//! tokens is stated by spec functions over the tokens' models, in the
//! shape of a recursive-descent grammar.
//!
//! Operators bind, from the tightest: the postfix `~` and `?`; `<<` and
//! `>>`; `&`; `|`; `+` and `-`; then one comparison `<`, `>` or `=`. The
//! binary operators group to the left.
use vstd::prelude::*;
use crate::ast::{Type, Expression, UnaryOperator, BinaryOperator, Statement, ArraySize, CatchClause, Program, ExprModel, StmtModel, SizeModel, size_model, exprs_model, stmts_model, catches_model, params_model, lemma_exprs_push, lemma_stmts_push, lemma_catches_push};
use crate::lexer::{Token, TokenKind, TokenModel, tokens_model};
use crate::text::{string_of, push_seq, push_char, push_dec, chars_of, dec_digits};

verus! {

#[derive(Debug, PartialEq)]
pub enum ParseError {
    UnexpectedToken { expected: String, found: Option<Token> },
    UnexpectedEndOfInput,
    InvalidAssignmentTarget,
    SyntaxError(String),
}

pub enum PErr {
    UnexpectedToken { expected: Seq<char>, found: Option<TokenModel> },
    UnexpectedEndOfInput,
    InvalidAssignmentTarget,
    SyntaxError(Seq<char>),
}

pub open spec fn perr_model(e: ParseError) -> PErr {
    match e {
        ParseError::UnexpectedToken { expected, found } => PErr::UnexpectedToken {
            expected: expected@,
            found: match found {
                Some(t) => Some(t@),
                None => None,
            },
        },
        ParseError::UnexpectedEndOfInput => PErr::UnexpectedEndOfInput,
        ParseError::InvalidAssignmentTarget => PErr::InvalidAssignmentTarget,
        ParseError::SyntaxError(s) => PErr::SyntaxError(s@),
    }
}

impl View for ParseError {
    type V = PErr;

    open spec fn view(&self) -> PErr {
        perr_model(*self)
    }
}

/// The name of a type, as it is written in a message.
pub open spec fn type_text(ty: Type) -> Seq<char> {
    match ty {
        Type::I8 => "I8"@,
        Type::U8 => "U8"@,
        Type::I16 => "I16"@,
        Type::U16 => "U16"@,
        Type::I32 => "I32"@,
        Type::U32 => "U32"@,
        Type::I64 => "I64"@,
        Type::U64 => "U64"@,
    }
}

/// How a character of a name is written between double quotes: `"` and
/// `\` with a backslash before them, a newline, a carriage return and a
/// tab as `\n`, `\r` and `\t`, any other character as it is.
pub open spec fn escaped(c: char) -> Seq<char> {
    if c == '"' {
        seq!['\\', '"']
    } else if c == '\\' {
        seq!['\\', '\\']
    } else if c == '\n' {
        seq!['\\', 'n']
    } else if c == '\r' {
        seq!['\\', 'r']
    } else if c == '\t' {
        seq!['\\', 't']
    } else {
        seq![c]
    }
}

pub open spec fn escaped_text(s: Seq<char>) -> Seq<char>
    decreases s.len(),
{
    if s.len() == 0 {
        Seq::empty()
    } else {
        escaped_text(s.drop_last()) + escaped(s.last())
    }
}

/// How a token is written in a message: the name of its kind, then what it
/// holds in brackets (a type by its name, a name between double quotes, a
/// literal by its value in decimal and its sign as `true` or `false`), as
/// `{:?}` writes a token.
pub open spec fn token_debug(t: TokenModel) -> Seq<char> {
    match t.kind {
        TokenKind::Type => "Type("@ + type_text(t.ty) + ")"@,
        TokenKind::Variable => "Variable(\""@ + escaped_text(t.text) + "\")"@,
        TokenKind::Function => "Function(\""@ + escaped_text(t.text) + "\")"@,
        TokenKind::HexLiteral => "HexLiteral("@ + dec_digits(t.value as nat) + ", "@ + (if t.neg {
            "true"@
        } else {
            "false"@
        }) + ")"@,
        _ => kind_text(t.kind),
    }
}

fn type_word(ty: Type) -> (r: &'static str)
    ensures
        r@ == type_text(ty),
{
    match ty {
        Type::I8 => "I8",
        Type::U8 => "U8",
        Type::I16 => "I16",
        Type::U16 => "U16",
        Type::I32 => "I32",
        Type::U32 => "U32",
        Type::I64 => "I64",
        Type::U64 => "U64",
    }
}

fn push_escaped(m: &mut String, name: &String)
    ensures
        final(m)@ == old(m)@ + escaped_text(name@),
{
    let cs = chars_of(name.as_str());
    let mut i: usize = 0;
    while i < cs.len()
        invariant
            i <= cs@.len(),
            cs@ == name@,
            m@ == old(m)@ + escaped_text(cs@.take(i as int)),
        decreases cs@.len() - i,
    {
        let c = cs[i];
        assert(cs@.take(i + 1).drop_last() =~= cs@.take(i as int));
        if c == '"' || c == '\\' || c == '\n' || c == '\r' || c == '\t' {
            push_char(m, '\\');
            if c == '\n' {
                push_char(m, 'n');
            } else if c == '\r' {
                push_char(m, 'r');
            } else if c == '\t' {
                push_char(m, 't');
            } else {
                push_char(m, c);
            }
        } else {
            push_char(m, c);
        }
        assert(m@ =~= old(m)@ + escaped_text(cs@.take(i + 1)));
        i = i + 1;
    }
    assert(cs@.take(cs@.len() as int) =~= cs@);
}

/// Appends how the token `t` is written in a message.
fn push_token(m: &mut String, t: &Token)
    ensures
        final(m)@ == old(m)@ + token_debug(t@),
{
    match t {
        Token::Type(ty) => {
            push_seq(m, &string_of("Type("));
            push_seq(m, &string_of(type_word(*ty)));
            push_seq(m, &string_of(")"));
        },
        Token::Variable(name) => {
            push_seq(m, &string_of("Variable(\""));
            push_escaped(m, name);
            push_seq(m, &string_of("\")"));
        },
        Token::Function(name) => {
            push_seq(m, &string_of("Function(\""));
            push_escaped(m, name);
            push_seq(m, &string_of("\")"));
        },
        Token::HexLiteral(v, neg) => {
            push_seq(m, &string_of("HexLiteral("));
            push_dec(m, *v);
            push_seq(m, &string_of(", "));
            if *neg {
                push_seq(m, &string_of("true"));
            } else {
                push_seq(m, &string_of("false"));
            }
            push_seq(m, &string_of(")"));
        },
        _ => {
            push_seq(m, &string_of(kind_name(t.kind())));
        },
    }
    assert(m@ =~= old(m)@ + token_debug(t@));
}

/// The name of a kind of token, as `{:?}` writes a token without fields.
pub open spec fn kind_text(k: TokenKind) -> Seq<char> {
    match k {
        TokenKind::Var => "Var"@,
        TokenKind::Array => "Array"@,
        TokenKind::Func => "Func"@,
        TokenKind::Loop => "Loop"@,
        TokenKind::Try => "Try"@,
        TokenKind::Catch => "Catch"@,
        TokenKind::Throw => "Throw"@,
        TokenKind::Type => "Type"@,
        TokenKind::Variable => "Variable"@,
        TokenKind::Function => "Function"@,
        TokenKind::HexLiteral => "HexLiteral"@,
        TokenKind::BitwiseNot => "BitwiseNot"@,
        TokenKind::Exists => "Exists"@,
        TokenKind::ShiftLeft => "ShiftLeft"@,
        TokenKind::ShiftRight => "ShiftRight"@,
        TokenKind::BitwiseAnd => "BitwiseAnd"@,
        TokenKind::BitwiseOr => "BitwiseOr"@,
        TokenKind::Plus => "Plus"@,
        TokenKind::Minus => "Minus"@,
        TokenKind::LessThan => "LessThan"@,
        TokenKind::GreaterThan => "GreaterThan"@,
        TokenKind::Equal => "Equal"@,
        TokenKind::At => "At"@,
        TokenKind::Dot => "Dot"@,
        TokenKind::Comma => "Comma"@,
        TokenKind::Asterisk => "Asterisk"@,
        TokenKind::LBrace => "LBrace"@,
        TokenKind::RBrace => "RBrace"@,
        TokenKind::LParen => "LParen"@,
        TokenKind::RParen => "RParen"@,
        TokenKind::LBracket => "LBracket"@,
        TokenKind::RBracket => "RBracket"@,
    }
}

fn kind_name(k: TokenKind) -> (r: &'static str)
    ensures
        r@ == kind_text(k),
{
    match k {
        TokenKind::Var => "Var",
        TokenKind::Array => "Array",
        TokenKind::Func => "Func",
        TokenKind::Loop => "Loop",
        TokenKind::Try => "Try",
        TokenKind::Catch => "Catch",
        TokenKind::Throw => "Throw",
        TokenKind::Type => "Type",
        TokenKind::Variable => "Variable",
        TokenKind::Function => "Function",
        TokenKind::HexLiteral => "HexLiteral",
        TokenKind::BitwiseNot => "BitwiseNot",
        TokenKind::Exists => "Exists",
        TokenKind::ShiftLeft => "ShiftLeft",
        TokenKind::ShiftRight => "ShiftRight",
        TokenKind::BitwiseAnd => "BitwiseAnd",
        TokenKind::BitwiseOr => "BitwiseOr",
        TokenKind::Plus => "Plus",
        TokenKind::Minus => "Minus",
        TokenKind::LessThan => "LessThan",
        TokenKind::GreaterThan => "GreaterThan",
        TokenKind::Equal => "Equal",
        TokenKind::At => "At",
        TokenKind::Dot => "Dot",
        TokenKind::Comma => "Comma",
        TokenKind::Asterisk => "Asterisk",
        TokenKind::LBrace => "LBrace",
        TokenKind::RBrace => "RBrace",
        TokenKind::LParen => "LParen",
        TokenKind::RParen => "RParen",
        TokenKind::LBracket => "LBracket",
        TokenKind::RBracket => "RBracket",
    }
}

/// A copy of a token.
pub fn copy_token(t: &Token) -> (r: Token)
    ensures
        r@ == t@,
{
    match t {
        Token::Var => Token::Var,
        Token::Array => Token::Array,
        Token::Func => Token::Func,
        Token::Loop => Token::Loop,
        Token::Try => Token::Try,
        Token::Catch => Token::Catch,
        Token::Throw => Token::Throw,
        Token::Type(ty) => Token::Type(*ty),
        Token::Variable(s) => Token::Variable(s.clone()),
        Token::Function(s) => Token::Function(s.clone()),
        Token::HexLiteral(v, n) => Token::HexLiteral(*v, *n),
        Token::BitwiseNot => Token::BitwiseNot,
        Token::Exists => Token::Exists,
        Token::ShiftLeft => Token::ShiftLeft,
        Token::ShiftRight => Token::ShiftRight,
        Token::BitwiseAnd => Token::BitwiseAnd,
        Token::BitwiseOr => Token::BitwiseOr,
        Token::Plus => Token::Plus,
        Token::Minus => Token::Minus,
        Token::LessThan => Token::LessThan,
        Token::GreaterThan => Token::GreaterThan,
        Token::Equal => Token::Equal,
        Token::At => Token::At,
        Token::Dot => Token::Dot,
        Token::Comma => Token::Comma,
        Token::Asterisk => Token::Asterisk,
        Token::LBrace => Token::LBrace,
        Token::RBrace => Token::RBrace,
        Token::LParen => Token::LParen,
        Token::RParen => Token::RParen,
        Token::LBracket => Token::LBracket,
        Token::RBracket => Token::RBracket,
    }
}

// ---------------------------------------------------------------------------
// The grammar, as spec functions over the models of the tokens. Each takes
// the position of its first token and gives what it parsed with the position
// after it, or the error that stops the parse.

/// The token at `p`, if there is one.
pub open spec fn tok_at(t: Seq<TokenModel>, p: int) -> Option<TokenModel> {
    if 0 <= p < t.len() {
        Some(t[p])
    } else {
        None
    }
}

/// Whether the token at `p` is of kind `k`.
pub open spec fn is_at(t: Seq<TokenModel>, p: int, k: TokenKind) -> bool {
    0 <= p < t.len() && t[p].kind == k
}

/// The number of tokens from `p` on.
pub open spec fn rem(t: Seq<TokenModel>, p: int) -> nat {
    if 0 <= p < t.len() {
        (t.len() - p) as nat
    } else {
        0
    }
}

/// `q` lies after `p`, within the tokens: what a parse that succeeds gives.
pub open spec fn moved(t: Seq<TokenModel>, p: int, q: int) -> bool {
    0 <= p < q <= t.len()
}

/// The error for a token that is not what was expected there.
pub open spec fn unexpected(t: Seq<TokenModel>, p: int, expected: Seq<char>) -> PErr {
    PErr::UnexpectedToken { expected, found: tok_at(t, p) }
}

/// What a parse gives where the parse before it did not move forward. No
/// parse reaches it: each one that succeeds moves forward, which the
/// executable functions prove.
pub open spec fn no_progress<X>() -> Result<(X, int), PErr> {
    Err(PErr::UnexpectedEndOfInput)
}

/// A token of kind `k`.
pub open spec fn p_consume(t: Seq<TokenModel>, p: int, k: TokenKind) -> Result<int, PErr> {
    if 0 <= p < t.len() {
        if t[p].kind == k {
            Ok(p + 1)
        } else {
            Err(PErr::UnexpectedToken { expected: kind_text(k), found: Some(t[p]) })
        }
    } else {
        Err(PErr::UnexpectedEndOfInput)
    }
}

/// A type.
pub open spec fn p_type(t: Seq<TokenModel>, p: int) -> Result<(Type, int), PErr> {
    if is_at(t, p, TokenKind::Type) {
        Ok((t[p].ty, p + 1))
    } else {
        Err(unexpected(t, p, "Type"@))
    }
}

/// A name of kind `k`, or the error that names what was expected.
pub open spec fn p_name(t: Seq<TokenModel>, p: int, k: TokenKind, expected: Seq<char>) -> Result<(Seq<char>, int), PErr> {
    if is_at(t, p, k) {
        Ok((t[p].text, p + 1))
    } else {
        Err(unexpected(t, p, expected))
    }
}

/// A hexadecimal literal's value, or the error that names what was expected.
pub open spec fn p_hex(t: Seq<TokenModel>, p: int) -> Result<(u64, int), PErr> {
    if is_at(t, p, TokenKind::HexLiteral) {
        Ok((t[p].value, p + 1))
    } else {
        Err(unexpected(t, p, "HexLiteral"@))
    }
}

pub open spec fn comparison_op(k: TokenKind) -> Option<BinaryOperator> {
    match k {
        TokenKind::LessThan => Some(BinaryOperator::LessThan),
        TokenKind::GreaterThan => Some(BinaryOperator::GreaterThan),
        TokenKind::Equal => Some(BinaryOperator::Equal),
        _ => None,
    }
}

pub open spec fn add_op(k: TokenKind) -> Option<BinaryOperator> {
    match k {
        TokenKind::Plus => Some(BinaryOperator::Add),
        TokenKind::Minus => Some(BinaryOperator::Sub),
        _ => None,
    }
}

pub open spec fn shift_op(k: TokenKind) -> Option<BinaryOperator> {
    match k {
        TokenKind::ShiftLeft => Some(BinaryOperator::ShiftLeft),
        TokenKind::ShiftRight => Some(BinaryOperator::ShiftRight),
        _ => None,
    }
}

pub open spec fn postfix_op(k: TokenKind) -> Option<UnaryOperator> {
    match k {
        TokenKind::BitwiseNot => Some(UnaryOperator::BitwiseNot),
        TokenKind::Exists => Some(UnaryOperator::Exists),
        _ => None,
    }
}

/// The comparison operator at `p`, if the token there is one.
pub open spec fn comparison_at(t: Seq<TokenModel>, p: int) -> Option<BinaryOperator> {
    if 0 <= p < t.len() {
        comparison_op(t[p].kind)
    } else {
        None
    }
}

/// The additive operator at `p`, if the token there is one.
pub open spec fn add_at(t: Seq<TokenModel>, p: int) -> Option<BinaryOperator> {
    if 0 <= p < t.len() {
        add_op(t[p].kind)
    } else {
        None
    }
}

/// The shift operator at `p`, if the token there is one.
pub open spec fn shift_at(t: Seq<TokenModel>, p: int) -> Option<BinaryOperator> {
    if 0 <= p < t.len() {
        shift_op(t[p].kind)
    } else {
        None
    }
}

/// The postfix operator at `p`, if the token there is one.
pub open spec fn postfix_at(t: Seq<TokenModel>, p: int) -> Option<UnaryOperator> {
    if 0 <= p < t.len() {
        postfix_op(t[p].kind)
    } else {
        None
    }
}

pub open spec fn bin(op: BinaryOperator, a: ExprModel, b: ExprModel) -> ExprModel {
    ExprModel::BinaryOp(op, Box::new(a), Box::new(b))
}

/// An expression: one comparison, without chaining.
pub open spec fn p_expr(t: Seq<TokenModel>, p: int) -> Result<(ExprModel, int), PErr>
    decreases rem(t, p), 9nat,
{
    match p_additive(t, p) {
        Err(e) => Err(e),
        Ok((lhs, q)) => match comparison_at(t, q) {
            Some(op) => if moved(t, p, q) {
                match p_additive(t, q + 1) {
                    Err(e) => Err(e),
                    Ok((rhs, q2)) => Ok((bin(op, lhs, rhs), q2)),
                }
            } else {
                no_progress()
            },
            None => Ok((lhs, q)),
        },
    }
}

/// `+` and `-`, grouping to the left, over `|` expressions.
pub open spec fn p_additive(t: Seq<TokenModel>, p: int) -> Result<(ExprModel, int), PErr>
    decreases rem(t, p), 8nat,
{
    match p_or(t, p) {
        Err(e) => Err(e),
        Ok((lhs, q)) => if moved(t, p, q) { p_additive_rest(t, lhs, q) } else { no_progress() },
    }
}

pub open spec fn p_additive_rest(t: Seq<TokenModel>, lhs: ExprModel, p: int) -> Result<(ExprModel, int), PErr>
    decreases rem(t, p), 0nat,
{
    match add_at(t, p) {
        Some(op) => match p_or(t, p + 1) {
            Err(e) => Err(e),
            Ok((rhs, q)) => if moved(t, p, q) { p_additive_rest(t, bin(op, lhs, rhs), q) } else { no_progress() },
        },
        None => Ok((lhs, p)),
    }
}

/// `|`, grouping to the left, over `&` expressions.
pub open spec fn p_or(t: Seq<TokenModel>, p: int) -> Result<(ExprModel, int), PErr>
    decreases rem(t, p), 7nat,
{
    match p_and(t, p) {
        Err(e) => Err(e),
        Ok((lhs, q)) => if moved(t, p, q) { p_or_rest(t, lhs, q) } else { no_progress() },
    }
}

pub open spec fn p_or_rest(t: Seq<TokenModel>, lhs: ExprModel, p: int) -> Result<(ExprModel, int), PErr>
    decreases rem(t, p), 0nat,
{
    if is_at(t, p, TokenKind::BitwiseOr) {
        match p_and(t, p + 1) {
            Err(e) => Err(e),
            Ok((rhs, q)) => if moved(t, p, q) {
                p_or_rest(t, bin(BinaryOperator::BitwiseOr, lhs, rhs), q)
            } else {
                no_progress()
            },
        }
    } else {
        Ok((lhs, p))
    }
}

/// `&`, grouping to the left, over shifts.
pub open spec fn p_and(t: Seq<TokenModel>, p: int) -> Result<(ExprModel, int), PErr>
    decreases rem(t, p), 6nat,
{
    match p_shift(t, p) {
        Err(e) => Err(e),
        Ok((lhs, q)) => if moved(t, p, q) { p_and_rest(t, lhs, q) } else { no_progress() },
    }
}

pub open spec fn p_and_rest(t: Seq<TokenModel>, lhs: ExprModel, p: int) -> Result<(ExprModel, int), PErr>
    decreases rem(t, p), 0nat,
{
    if is_at(t, p, TokenKind::BitwiseAnd) {
        match p_shift(t, p + 1) {
            Err(e) => Err(e),
            Ok((rhs, q)) => if moved(t, p, q) {
                p_and_rest(t, bin(BinaryOperator::BitwiseAnd, lhs, rhs), q)
            } else {
                no_progress()
            },
        }
    } else {
        Ok((lhs, p))
    }
}

/// `<<` and `>>`, grouping to the left, over postfix expressions.
pub open spec fn p_shift(t: Seq<TokenModel>, p: int) -> Result<(ExprModel, int), PErr>
    decreases rem(t, p), 5nat,
{
    match p_unary(t, p) {
        Err(e) => Err(e),
        Ok((lhs, q)) => if moved(t, p, q) { p_shift_rest(t, lhs, q) } else { no_progress() },
    }
}

pub open spec fn p_shift_rest(t: Seq<TokenModel>, lhs: ExprModel, p: int) -> Result<(ExprModel, int), PErr>
    decreases rem(t, p), 0nat,
{
    match shift_at(t, p) {
        Some(op) => match p_unary(t, p + 1) {
            Err(e) => Err(e),
            Ok((rhs, q)) => if moved(t, p, q) { p_shift_rest(t, bin(op, lhs, rhs), q) } else { no_progress() },
        },
        None => Ok((lhs, p)),
    }
}

/// A primary expression, with at most one postfix `~` or `?`.
pub open spec fn p_unary(t: Seq<TokenModel>, p: int) -> Result<(ExprModel, int), PErr>
    decreases rem(t, p), 4nat,
{
    match p_primary(t, p) {
        Err(e) => Err(e),
        Ok((e, q)) => match postfix_at(t, q) {
            Some(op) => Ok((ExprModel::UnaryOp(op, Box::new(e)), q + 1)),
            None => Ok((e, q)),
        },
    }
}

/// A literal, a parenthesized expression, a variable or an element of an
/// array, or a call.
pub open spec fn p_primary(t: Seq<TokenModel>, p: int) -> Result<(ExprModel, int), PErr>
    decreases rem(t, p), 3nat,
{
    if 0 <= p < t.len() {
        let tk = t[p];
        match tk.kind {
            TokenKind::HexLiteral => Ok((ExprModel::HexLiteral(tk.value, tk.neg), p + 1)),
            TokenKind::LParen => match p_expr(t, p + 1) {
                Err(e) => Err(e),
                Ok((e, q)) => match p_consume(t, q, TokenKind::RParen) {
                    Err(err) => Err(err),
                    Ok(q2) => Ok((e, q2)),
                },
            },
            TokenKind::Variable => if is_at(t, p + 1, TokenKind::LBracket) {
                match p_expr(t, p + 2) {
                    Err(e) => Err(e),
                    Ok((i, q)) => match p_consume(t, q, TokenKind::RBracket) {
                        Err(err) => Err(err),
                        Ok(q2) => Ok((ExprModel::ArrayElement(tk.text, Box::new(i)), q2)),
                    },
                }
            } else {
                Ok((ExprModel::Variable(tk.text), p + 1))
            },
            TokenKind::Function => if is_at(t, p + 1, TokenKind::LParen) {
                match p_list(t, p + 2, TokenKind::RParen) {
                    Err(e) => Err(e),
                    Ok((args, q)) => Ok((ExprModel::FunctionCall(tk.text, args), q)),
                }
            } else {
                Ok((ExprModel::FunctionCall(tk.text, Seq::empty()), p + 1))
            },
            _ => Err(unexpected(t, p, "Primary Expression"@)),
        }
    } else {
        Err(unexpected(t, p, "Primary Expression"@))
    }
}

/// Expressions separated by commas, none where the token `close` comes
/// first.
pub open spec fn p_items(t: Seq<TokenModel>, p: int, close: TokenKind) -> Result<(Seq<ExprModel>, int), PErr>
    decreases rem(t, p), 10nat,
{
    if is_at(t, p, close) {
        Ok((Seq::empty(), p))
    } else {
        match p_expr(t, p) {
            Err(e) => Err(e),
            Ok((e, q)) => if moved(t, p, q) { p_list_rest(t, seq![e], q) } else { no_progress() },
        }
    }
}

/// Expressions separated by commas, then the token `close`.
pub open spec fn p_list(t: Seq<TokenModel>, p: int, close: TokenKind) -> Result<(Seq<ExprModel>, int), PErr>
    decreases rem(t, p), 11nat,
{
    match p_items(t, p, close) {
        Err(e) => Err(e),
        Ok((es, q)) => match p_consume(t, q, close) {
            Err(e) => Err(e),
            Ok(q2) => Ok((es, q2)),
        },
    }
}

pub open spec fn p_list_rest(t: Seq<TokenModel>, acc: Seq<ExprModel>, p: int) -> Result<(Seq<ExprModel>, int), PErr>
    decreases rem(t, p), 0nat,
{
    if is_at(t, p, TokenKind::Comma) {
        match p_expr(t, p + 1) {
            Err(e) => Err(e),
            Ok((e, q)) => if moved(t, p, q) { p_list_rest(t, acc.push(e), q) } else { no_progress() },
        }
    } else {
        Ok((acc, p))
    }
}


/// The assignment that an expression statement must be: a variable or an
/// element of an array, `=`, then an expression.
pub open spec fn p_assignment(t: Seq<TokenModel>, p: int) -> Result<(ExprModel, int), PErr> {
    match p_primary(t, p) {
        Err(e) => Err(e),
        Ok((lhs, q)) => if is_at(t, q, TokenKind::Equal) {
            match p_expr(t, q + 1) {
                Err(e) => Err(e),
                Ok((rhs, q2)) => if lhs is Variable || lhs is ArrayElement {
                    Ok((bin(BinaryOperator::Assign, lhs, rhs), q2))
                } else {
                    Err(PErr::InvalidAssignmentTarget)
                },
            }
        } else {
            Err(PErr::SyntaxError(not_assignment_text(tok_at(t, q))))
        },
    }
}

/// The text that `{:?}` writes for an optional token.
pub open spec fn opt_token_debug(o: Option<TokenModel>) -> Seq<char> {
    match o {
        Some(tk) => "Some("@ + token_debug(tk) + ")"@,
        None => "None"@,
    }
}

/// The message of a parse error.
pub open spec fn parse_error_text(e: PErr) -> Seq<char> {
    match e {
        PErr::UnexpectedToken { expected, found } => "Unexpected token: expected "@ + expected + ", found "@
            + opt_token_debug(found),
        PErr::UnexpectedEndOfInput => "Unexpected end of input"@,
        PErr::InvalidAssignmentTarget => "Invalid assignment target"@,
        PErr::SyntaxError(m) => "Syntax error: "@ + m,
    }
}

impl ParseError {
    /// The message of the error.
    pub fn message(&self) -> (r: String)
        ensures
            r@ == parse_error_text(self@),
    {
        let mut m = String::new();
        match self {
            ParseError::UnexpectedToken { expected, found } => {
                push_seq(&mut m, &string_of("Unexpected token: expected "));
                push_seq(&mut m, expected);
                push_seq(&mut m, &string_of(", found "));
                match found {
                    Some(t) => {
                        push_seq(&mut m, &string_of("Some("));
                        push_token(&mut m, t);
                        push_seq(&mut m, &string_of(")"));
                    },
                    None => push_seq(&mut m, &string_of("None")),
                }
            },
            ParseError::UnexpectedEndOfInput => push_seq(&mut m, &string_of("Unexpected end of input")),
            ParseError::InvalidAssignmentTarget => push_seq(&mut m, &string_of("Invalid assignment target")),
            ParseError::SyntaxError(s) => {
                push_seq(&mut m, &string_of("Syntax error: "));
                push_seq(&mut m, s);
            },
        }
        assert(m@ =~= parse_error_text(self@));
        m
    }
}

/// The message for an expression statement that is not an assignment, which
/// shows the token where `=` was expected.
pub open spec fn not_assignment_text(o: Option<TokenModel>) -> Seq<char> {
    "Expression statement must be an assignment, found "@ + opt_token_debug(o)
}

/// `var`, a type, a variable, and an optional `=` and initial value.
pub open spec fn p_var_decl(t: Seq<TokenModel>, p: int) -> Result<(StmtModel, int), PErr> {
    match p_consume(t, p, TokenKind::Var) {
        Err(e) => Err(e),
        Ok(q1) => match p_type(t, q1) {
            Err(e) => Err(e),
            Ok((ty, q2)) => match p_name(t, q2, TokenKind::Variable, "Variable"@) {
                Err(e) => Err(e),
                Ok((name, q3)) => if is_at(t, q3, TokenKind::Equal) {
                    match p_expr(t, q3 + 1) {
                        Err(e) => Err(e),
                        Ok((init, q4)) => Ok((StmtModel::VariableDeclaration { ty, name, initializer: Some(init) }, q4)),
                    }
                } else {
                    Ok((StmtModel::VariableDeclaration { ty, name, initializer: None }, q3))
                },
            },
        },
    }
}

/// The size of an array: a variable or a hexadecimal literal.
pub open spec fn p_size(t: Seq<TokenModel>, p: int) -> Result<(SizeModel, int), PErr> {
    if is_at(t, p, TokenKind::Variable) {
        Ok((SizeModel::Variable(t[p].text), p + 1))
    } else if is_at(t, p, TokenKind::HexLiteral) {
        Ok((SizeModel::Literal(t[p].value), p + 1))
    } else {
        Err(unexpected(t, p, "Variable or HexLiteral"@))
    }
}

/// `array`, a type, `*`, a size, a name, and an optional `=` and list of
/// initial values in braces.
pub open spec fn p_array_decl(t: Seq<TokenModel>, p: int) -> Result<(StmtModel, int), PErr> {
    match p_consume(t, p, TokenKind::Array) {
        Err(e) => Err(e),
        Ok(q1) => match p_type(t, q1) {
            Err(e) => Err(e),
            Ok((ty, q2)) => match p_consume(t, q2, TokenKind::Asterisk) {
                Err(e) => Err(e),
                Ok(q3) => match p_size(t, q3) {
                    Err(e) => Err(e),
                    Ok((size, q4)) => match p_name(t, q4, TokenKind::Variable, "ArrayIdentifier"@) {
                        Err(e) => Err(e),
                        Ok((name, q5)) => if is_at(t, q5, TokenKind::Equal) {
                            match p_consume(t, q5 + 1, TokenKind::LBrace) {
                                Err(e) => Err(e),
                                Ok(q6) => match p_list(t, q6, TokenKind::RBrace) {
                                    Err(e) => Err(e),
                                    Ok((init, q7)) => Ok((StmtModel::ArrayDeclaration { ty, size, name, initializer: Some(init) }, q7)),
                                },
                            }
                        } else {
                            Ok((StmtModel::ArrayDeclaration { ty, size, name, initializer: None }, q5))
                        },
                    },
                },
            },
        },
    }
}

/// A parameter: a type and a variable.
pub open spec fn p_param(t: Seq<TokenModel>, p: int) -> Result<((Type, Seq<char>), int), PErr> {
    match p_type(t, p) {
        Err(e) => Err(e),
        Ok((ty, q)) => match p_name(t, q, TokenKind::Variable, "Variable"@) {
            Err(e) => Err(e),
            Ok((name, q2)) => Ok(((ty, name), q2)),
        },
    }
}

pub open spec fn p_params_rest(t: Seq<TokenModel>, acc: Seq<(Type, Seq<char>)>, p: int) -> Result<(Seq<(Type, Seq<char>)>, int), PErr>
    decreases rem(t, p),
{
    if is_at(t, p, TokenKind::Comma) {
        match p_param(t, p + 1) {
            Err(e) => Err(e),
            Ok((pr, q)) => if moved(t, p, q) { p_params_rest(t, acc.push(pr), q) } else { no_progress() },
        }
    } else {
        Ok((acc, p))
    }
}

/// The optional list of parameters of a function: nothing, or parameters
/// separated by commas in parentheses.
pub open spec fn p_params(t: Seq<TokenModel>, p: int) -> Result<(Seq<(Type, Seq<char>)>, int), PErr> {
    if is_at(t, p, TokenKind::LParen) {
        let items = if is_at(t, p + 1, TokenKind::RParen) {
            Ok((Seq::empty(), p + 1))
        } else {
            match p_param(t, p + 1) {
                Err(e) => Err(e),
                Ok((pr, q)) => p_params_rest(t, seq![pr], q),
            }
        };
        match items {
            Err(e) => Err(e),
            Ok((ps, q)) => match p_consume(t, q, TokenKind::RParen) {
                Err(e) => Err(e),
                Ok(q2) => Ok((ps, q2)),
            },
        }
    } else {
        Ok((Seq::empty(), p))
    }
}

/// A statement, and the `.` that ends it.
pub open spec fn p_statement(t: Seq<TokenModel>, p: int) -> Result<(StmtModel, int), PErr>
    decreases rem(t, p), 1nat,
{
    let r = if is_at(t, p, TokenKind::Var) {
        p_var_decl(t, p)
    } else if is_at(t, p, TokenKind::Array) {
        p_array_decl(t, p)
    } else if is_at(t, p, TokenKind::Func) {
        p_func_decl(t, p)
    } else if is_at(t, p, TokenKind::Loop) {
        p_loop(t, p)
    } else if is_at(t, p, TokenKind::Try) {
        p_try(t, p)
    } else if is_at(t, p, TokenKind::Throw) {
        p_throw(t, p)
    } else {
        match p_assignment(t, p) {
            Err(e) => Err(e),
            Ok((e, q)) => Ok((StmtModel::Expression(e), q)),
        }
    };
    match r {
        Err(e) => Err(e),
        Ok((s, q)) => match p_consume(t, q, TokenKind::Dot) {
            Err(e) => Err(e),
            Ok(q2) => Ok((s, q2)),
        },
    }
}

/// Statements up to a `}` or the end of the tokens.
pub open spec fn p_stmts(t: Seq<TokenModel>, acc: Seq<StmtModel>, p: int) -> Result<(Seq<StmtModel>, int), PErr>
    decreases rem(t, p), 2nat,
{
    if 0 <= p < t.len() && t[p].kind != TokenKind::RBrace {
        match p_statement(t, p) {
            Err(e) => Err(e),
            Ok((s, q)) => if moved(t, p, q) { p_stmts(t, acc.push(s), q) } else { no_progress() },
        }
    } else {
        Ok((acc, p))
    }
}

/// The statements of a body, and the `}` that closes it.
pub open spec fn p_block(t: Seq<TokenModel>, p: int) -> Result<(Seq<StmtModel>, int), PErr>
    decreases rem(t, p), 3nat,
{
    match p_stmts(t, Seq::empty(), p) {
        Err(e) => Err(e),
        Ok((body, q)) => match p_consume(t, q, TokenKind::RBrace) {
            Err(e) => Err(e),
            Ok(q2) => Ok((body, q2)),
        },
    }
}

/// `func`, the return type, the name, the optional parameters, `=` and the
/// body in braces.
pub open spec fn p_func_decl(t: Seq<TokenModel>, p: int) -> Result<(StmtModel, int), PErr>
    decreases rem(t, p), 0nat,
{
    match p_consume(t, p, TokenKind::Func) {
        Err(e) => Err(e),
        Ok(q1) => match p_type(t, q1) {
            Err(e) => Err(e),
            Ok((ret_type, q2)) => match p_name(t, q2, TokenKind::Function, "FunctionIdentifier"@) {
                Err(e) => Err(e),
                Ok((name, q3)) => match p_params(t, q3) {
                    Err(e) => Err(e),
                    Ok((params, q4)) => match p_consume(t, q4, TokenKind::Equal) {
                        Err(e) => Err(e),
                        Ok(q5) => match p_consume(t, q5, TokenKind::LBrace) {
                            Err(e) => Err(e),
                            Ok(q6) => if moved(t, p, q6) {
                                match p_block(t, q6) {
                                    Err(e) => Err(e),
                                    Ok((body, q7)) => Ok((StmtModel::FunctionDeclaration { ret_type, name, params, body }, q7)),
                                }
                            } else {
                                no_progress()
                            },
                        },
                    },
                },
            },
        },
    }
}

/// `loop` and a body in braces.
pub open spec fn p_loop(t: Seq<TokenModel>, p: int) -> Result<(StmtModel, int), PErr>
    decreases rem(t, p), 0nat,
{
    match p_consume(t, p, TokenKind::Loop) {
        Err(e) => Err(e),
        Ok(q1) => match p_consume(t, q1, TokenKind::LBrace) {
            Err(e) => Err(e),
            Ok(q2) => if moved(t, p, q2) {
                match p_block(t, q2) {
                    Err(e) => Err(e),
                    Ok((body, q3)) => Ok((StmtModel::Loop(body), q3)),
                }
            } else {
                no_progress()
            },
        },
    }
}

/// The `catch` clauses after a `try` body: each is `catch`, a hexadecimal
/// code and a body in braces.
pub open spec fn p_catches(t: Seq<TokenModel>, acc: Seq<(u64, Seq<StmtModel>)>, p: int) -> Result<(Seq<(u64, Seq<StmtModel>)>, int), PErr>
    decreases rem(t, p), 0nat,
{
    if is_at(t, p, TokenKind::Catch) {
        match p_hex(t, p + 1) {
            Err(e) => Err(e),
            Ok((code, q1)) => match p_consume(t, q1, TokenKind::LBrace) {
                Err(e) => Err(e),
                Ok(q2) => if moved(t, p, q2) {
                    match p_block(t, q2) {
                        Err(e) => Err(e),
                        Ok((body, q3)) => if moved(t, p, q3) {
                            p_catches(t, acc.push((code, body)), q3)
                        } else {
                            no_progress()
                        },
                    }
                } else {
                    no_progress()
                },
            },
        }
    } else {
        Ok((acc, p))
    }
}

/// `try`, a body in braces, and the `catch` clauses.
pub open spec fn p_try(t: Seq<TokenModel>, p: int) -> Result<(StmtModel, int), PErr>
    decreases rem(t, p), 0nat,
{
    match p_consume(t, p, TokenKind::Try) {
        Err(e) => Err(e),
        Ok(q1) => match p_consume(t, q1, TokenKind::LBrace) {
            Err(e) => Err(e),
            Ok(q2) => if moved(t, p, q2) {
                match p_block(t, q2) {
                    Err(e) => Err(e),
                    Ok((try_body, q3)) => if moved(t, p, q3) {
                        match p_catches(t, Seq::empty(), q3) {
                            Err(e) => Err(e),
                            Ok((catch_clauses, q4)) => Ok((StmtModel::TryCatch { try_body, catch_clauses }, q4)),
                        }
                    } else {
                        no_progress()
                    },
                }
            } else {
                no_progress()
            },
        },
    }
}

/// `throw`, a hexadecimal code, `@` and the condition.
pub open spec fn p_throw(t: Seq<TokenModel>, p: int) -> Result<(StmtModel, int), PErr> {
    match p_consume(t, p, TokenKind::Throw) {
        Err(e) => Err(e),
        Ok(q1) => match p_hex(t, q1) {
            Err(e) => Err(e),
            Ok((exception_code, q2)) => match p_consume(t, q2, TokenKind::At) {
                Err(e) => Err(e),
                Ok(q3) => match p_expr(t, q3) {
                    Err(e) => Err(e),
                    Ok((condition, q4)) => Ok((StmtModel::Throw { exception_code, condition }, q4)),
                },
            },
        },
    }
}

/// The statements from `p` to the end of the tokens, after those in `acc`.
pub open spec fn p_program(t: Seq<TokenModel>, acc: Seq<StmtModel>, p: int) -> Result<Seq<StmtModel>, PErr>
    decreases rem(t, p),
{
    if 0 <= p < t.len() {
        match p_statement(t, p) {
            Err(e) => Err(e),
            Ok((s, q)) => if moved(t, p, q) { p_program(t, acc.push(s), q) } else { Err(PErr::UnexpectedEndOfInput) },
        }
    } else {
        Ok(acc)
    }
}

/// The program that a sequence of tokens is, or the error that stops its
/// parse.
pub open spec fn parse(t: Seq<TokenModel>) -> Result<Seq<StmtModel>, PErr> {
    p_program(t, Seq::empty(), 0)
}


/// One statement of a program: what follows it is parsed after it.
proof fn lemma_program_step(t: Seq<TokenModel>, acc: Seq<StmtModel>, p: int)
    requires
        0 <= p < t.len(),
    ensures
        p_statement(t, p) matches Ok((s, q)) ==> (moved(t, p, q) ==> p_program(t, acc, p) == p_program(t, acc.push(s), q)),
        p_statement(t, p) matches Err(e) ==> p_program(t, acc, p) == Err::<Seq<StmtModel>, PErr>(e),
{
}

/// One `catch` clause: what follows it is parsed after it.
proof fn lemma_catch_step(
    t: Seq<TokenModel>,
    acc: Seq<(u64, Seq<StmtModel>)>,
    p: int,
    code: u64,
    q1: int,
    q2: int,
    body: Seq<StmtModel>,
    q3: int,
)
    requires
        is_at(t, p, TokenKind::Catch),
        p_hex(t, p + 1) == Ok::<(u64, int), PErr>((code, q1)),
        p_consume(t, q1, TokenKind::LBrace) == Ok::<int, PErr>(q2),
        p_block(t, q2) == Ok::<(Seq<StmtModel>, int), PErr>((body, q3)),
        moved(t, p, q3),
    ensures
        p_catches(t, acc, p) == p_catches(t, acc.push((code, body)), q3),
{
}

/// A `catch` clause that fails to parse: its error is that of the whole.
proof fn lemma_catch_error(t: Seq<TokenModel>, acc: Seq<(u64, Seq<StmtModel>)>, p: int)
    requires
        is_at(t, p, TokenKind::Catch),
    ensures
        p_hex(t, p + 1) matches Err(e) ==> p_catches(t, acc, p) == Err::<(Seq<(u64, Seq<StmtModel>)>, int), PErr>(e),
        p_hex(t, p + 1) matches Ok((code, q1)) ==> (p_consume(t, q1, TokenKind::LBrace) matches Err(e)
            ==> p_catches(t, acc, p) == Err::<(Seq<(u64, Seq<StmtModel>)>, int), PErr>(e)),
        p_hex(t, p + 1) matches Ok((code, q1)) ==> (p_consume(t, q1, TokenKind::LBrace) matches Ok(q2) ==> (
            moved(t, p, q2) ==> (p_block(t, q2) matches Err(e)
            ==> p_catches(t, acc, p) == Err::<(Seq<(u64, Seq<StmtModel>)>, int), PErr>(e)))),
{
}

// ---------------------------------------------------------------------------
// The executable parser.

/// What a parse gave, as a model: the thing parsed, by `m`, with the position
/// after it, or the error.
pub open spec fn outcome<X, M>(r: Result<(X, usize), ParseError>, m: spec_fn(X) -> M) -> Result<(M, int), PErr> {
    match r {
        Ok((x, q)) => Ok((m(x), q as int)),
        Err(e) => Err(e@),
    }
}

pub open spec fn opt_token_model(o: Option<Token>) -> Option<TokenModel> {
    match o {
        Some(tk) => Some(tk@),
        None => None,
    }
}

fn comparison_operator(k: TokenKind) -> (r: Option<BinaryOperator>)
    ensures
        r == comparison_op(k),
{
    match k {
        TokenKind::LessThan => Some(BinaryOperator::LessThan),
        TokenKind::GreaterThan => Some(BinaryOperator::GreaterThan),
        TokenKind::Equal => Some(BinaryOperator::Equal),
        _ => None,
    }
}

fn add_operator(k: TokenKind) -> (r: Option<BinaryOperator>)
    ensures
        r == add_op(k),
{
    match k {
        TokenKind::Plus => Some(BinaryOperator::Add),
        TokenKind::Minus => Some(BinaryOperator::Sub),
        _ => None,
    }
}

fn shift_operator(k: TokenKind) -> (r: Option<BinaryOperator>)
    ensures
        r == shift_op(k),
{
    match k {
        TokenKind::ShiftLeft => Some(BinaryOperator::ShiftLeft),
        TokenKind::ShiftRight => Some(BinaryOperator::ShiftRight),
        _ => None,
    }
}

fn postfix_operator(k: TokenKind) -> (r: Option<UnaryOperator>)
    ensures
        r == postfix_op(k),
{
    match k {
        TokenKind::BitwiseNot => Some(UnaryOperator::BitwiseNot),
        TokenKind::Exists => Some(UnaryOperator::Exists),
        _ => None,
    }
}

/// A parser over a sequence of tokens, with the position of the next one.
pub struct Parser {
    tokens: Vec<Token>,
    pos: usize,
}

impl Parser {
    /// The models of the tokens.
    pub closed spec fn toks(&self) -> Seq<TokenModel> {
        tokens_model(self.tokens@)
    }

    /// The position of the next token.
    pub closed spec fn position(&self) -> int {
        self.pos as int
    }

    /// The position is within the tokens.
    pub closed spec fn wf(&self) -> bool {
        self.pos <= self.tokens@.len()
    }

    /// A parser at the first of `tokens`.
    pub fn new(tokens: Vec<Token>) -> (r: Parser)
        ensures
            r.wf(),
            r.toks() == tokens_model(tokens@),
            r.position() == 0,
    {
        Parser { tokens, pos: 0 }
    }

    proof fn lemma_token(&self, p: int)
        requires
            0 <= p < self.tokens@.len(),
        ensures
            self.toks().len() == self.tokens@.len(),
            self.toks()[p] == self.tokens@[p]@,
    {
    }

    /// The token at `p`, if there is one.
    fn peek(&self, p: usize) -> (r: Option<&Token>)
        ensures
            self.toks().len() == self.tokens@.len(),
            match r {
                Some(t) => p < self.tokens@.len() && p < usize::MAX && t@ == self.toks()[p as int],
                None => p >= self.tokens@.len(),
            },
    {
        if p < self.tokens.len() {
            proof { self.lemma_token(p as int); }
            Some(&self.tokens[p])
        } else {
            None
        }
    }

    /// The kind of the token at `p`, if there is one.
    fn kind_at(&self, p: usize) -> (r: Option<TokenKind>)
        ensures
            self.toks().len() == self.tokens@.len(),
            r == (if p < self.tokens@.len() { Some(self.toks()[p as int].kind) } else { None::<TokenKind> }),
            r is Some ==> p < usize::MAX,
    {
        match self.peek(p) {
            Some(t) => Some(t.kind()),
            None => None,
        }
    }

    fn is_at(&self, p: usize, k: TokenKind) -> (r: bool)
        ensures
            self.toks().len() == self.tokens@.len(),
            r == is_at(self.toks(), p as int, k),
            r ==> p < usize::MAX,
    {
        match self.kind_at(p) {
            Some(k2) => k2 == k,
            None => false,
        }
    }

    /// A copy of the token at `p`, if there is one.
    fn token_at(&self, p: usize) -> (r: Option<Token>)
        ensures
            opt_token_model(r) == tok_at(self.toks(), p as int),
    {
        match self.peek(p) {
            Some(t) => Some(copy_token(t)),
            None => None,
        }
    }

    fn unexpected(&self, p: usize, expected: &str) -> (r: ParseError)
        ensures
            r@ == unexpected(self.toks(), p as int, expected@),
    {
        ParseError::UnexpectedToken { expected: string_of(expected), found: self.token_at(p) }
    }

    /// A token of kind `k` at `p`.
    fn consume(&self, p: usize, k: TokenKind) -> (r: Result<usize, ParseError>)
        ensures
            match r {
                Ok(q) => p_consume(self.toks(), p as int, k) == Ok::<int, PErr>(q as int),
                Err(e) => p_consume(self.toks(), p as int, k) == Err::<int, PErr>(e@),
            },
    {
        if p < self.tokens.len() {
            proof { self.lemma_token(p as int); }
            if self.tokens[p].kind() == k {
                Ok(p + 1)
            } else {
                Err(ParseError::UnexpectedToken { expected: string_of(kind_name(k)), found: Some(copy_token(&self.tokens[p])) })
            }
        } else {
            Err(ParseError::UnexpectedEndOfInput)
        }
    }

    fn parse_type(&self, p: usize) -> (r: Result<(Type, usize), ParseError>)
        ensures
            outcome(r, |x: Type| x) == p_type(self.toks(), p as int),
    {
        if p < self.tokens.len() {
            proof { self.lemma_token(p as int); }
            match &self.tokens[p] {
                Token::Type(ty) => { return Ok((*ty, p + 1)); },
                _ => {},
            }
        }
        Err(self.unexpected(p, "Type"))
    }

    /// A name of kind `k` at `p`: a variable's or a function's.
    fn parse_name(&self, p: usize, k: TokenKind, expected: &str) -> (r: Result<(String, usize), ParseError>)
        requires
            k == TokenKind::Variable || k == TokenKind::Function,
        ensures
            outcome(r, |x: String| x@) == p_name(self.toks(), p as int, k, expected@),
    {
        if p < self.tokens.len() {
            proof { self.lemma_token(p as int); }
            match &self.tokens[p] {
                Token::Variable(n) => if k == TokenKind::Variable { return Ok((n.clone(), p + 1)); },
                Token::Function(n) => if k == TokenKind::Function { return Ok((n.clone(), p + 1)); },
                _ => {},
            }
        }
        Err(self.unexpected(p, expected))
    }

    fn parse_hex(&self, p: usize) -> (r: Result<(u64, usize), ParseError>)
        ensures
            outcome(r, |x: u64| x) == p_hex(self.toks(), p as int),
    {
        if p < self.tokens.len() {
            proof { self.lemma_token(p as int); }
            match &self.tokens[p] {
                Token::HexLiteral(v, _neg) => { return Ok((*v, p + 1)); },
                _ => {},
            }
        }
        Err(self.unexpected(p, "HexLiteral"))
    }

    /// An expression.
    fn parse_expression(&self, p: usize) -> (r: Result<(Expression, usize), ParseError>)
        requires
            p <= self.tokens@.len(),
        ensures
            outcome(r, |x: Expression| x@) == p_expr(self.toks(), p as int),
            r matches Ok((_, q)) ==> p < q <= self.tokens@.len(),
        decreases self.tokens@.len() - p, 10nat,
    {
        self.parse_comparison_expression(p)
    }

    /// An expression: one comparison, without chaining.
    fn parse_comparison_expression(&self, p: usize) -> (r: Result<(Expression, usize), ParseError>)
        requires
            p <= self.tokens@.len(),
        ensures
            outcome(r, |x: Expression| x@) == p_expr(self.toks(), p as int),
            r matches Ok((_, q)) ==> p < q <= self.tokens@.len(),
        decreases self.tokens@.len() - p, 9nat,
    {
        match self.parse_additive_expression(p) {
            Err(e) => Err(e),
            Ok((lhs, q)) => {
                let op = match self.kind_at(q) {
                    Some(k) => comparison_operator(k),
                    None => None,
                };
                match op {
                    Some(op) => match self.parse_additive_expression(q + 1) {
                        Err(e) => Err(e),
                        Ok((rhs, q2)) => Ok((Expression::BinaryOp(op, Box::new(lhs), Box::new(rhs)), q2)),
                    },
                    None => Ok((lhs, q)),
                }
            },
        }
    }

    /// `+` and `-`, grouping to the left, over `|` expressions.
    fn parse_additive_expression(&self, p: usize) -> (r: Result<(Expression, usize), ParseError>)
        requires
            p <= self.tokens@.len(),
        ensures
            outcome(r, |x: Expression| x@) == p_additive(self.toks(), p as int),
            r matches Ok((_, q)) ==> p < q <= self.tokens@.len(),
        decreases self.tokens@.len() - p, 8nat,
    {
        let ghost t = self.toks();
        let (mut expr, mut q) = match self.parse_bitwise_or_expression(p) {
            Err(e) => { return Err(e); },
            Ok(x) => x,
        };
        loop
            invariant
                p < q <= self.tokens@.len(),
                t == self.toks(),
                t.len() == self.tokens@.len(),
                p_additive(t, p as int) == p_additive_rest(t, expr@, q as int),
            ensures
                p < q <= self.tokens@.len(),
                p_additive(t, p as int) == Ok::<(ExprModel, int), PErr>((expr@, q as int)),
            decreases self.tokens@.len() - q,
        {
            let op = match self.kind_at(q) {
                Some(k) => add_operator(k),
                None => None,
            };
            match op {
                Some(op) => match self.parse_bitwise_or_expression(q + 1) {
                    Err(e) => { return Err(e); },
                    Ok((rhs, q2)) => {
                        expr = Expression::BinaryOp(op, Box::new(expr), Box::new(rhs));
                        q = q2;
                    },
                },
                None => { break; },
            }
        }
        Ok((expr, q))
    }

    /// `|`, grouping to the left, over `&` expressions.
    fn parse_bitwise_or_expression(&self, p: usize) -> (r: Result<(Expression, usize), ParseError>)
        requires
            p <= self.tokens@.len(),
        ensures
            outcome(r, |x: Expression| x@) == p_or(self.toks(), p as int),
            r matches Ok((_, q)) ==> p < q <= self.tokens@.len(),
        decreases self.tokens@.len() - p, 7nat,
    {
        let ghost t = self.toks();
        let (mut expr, mut q) = match self.parse_bitwise_and_expression(p) {
            Err(e) => { return Err(e); },
            Ok(x) => x,
        };
        while self.is_at(q, TokenKind::BitwiseOr)
            invariant
                p < q <= self.tokens@.len(),
                t == self.toks(),
                t.len() == self.tokens@.len(),
                p_or(t, p as int) == p_or_rest(t, expr@, q as int),
            decreases self.tokens@.len() - q,
        {
            match self.parse_bitwise_and_expression(q + 1) {
                Err(e) => { return Err(e); },
                Ok((rhs, q2)) => {
                    expr = Expression::BinaryOp(BinaryOperator::BitwiseOr, Box::new(expr), Box::new(rhs));
                    q = q2;
                },
            }
        }
        Ok((expr, q))
    }

    /// `&`, grouping to the left, over shifts.
    fn parse_bitwise_and_expression(&self, p: usize) -> (r: Result<(Expression, usize), ParseError>)
        requires
            p <= self.tokens@.len(),
        ensures
            outcome(r, |x: Expression| x@) == p_and(self.toks(), p as int),
            r matches Ok((_, q)) ==> p < q <= self.tokens@.len(),
        decreases self.tokens@.len() - p, 6nat,
    {
        let ghost t = self.toks();
        let (mut expr, mut q) = match self.parse_shift_expression(p) {
            Err(e) => { return Err(e); },
            Ok(x) => x,
        };
        while self.is_at(q, TokenKind::BitwiseAnd)
            invariant
                p < q <= self.tokens@.len(),
                t == self.toks(),
                t.len() == self.tokens@.len(),
                p_and(t, p as int) == p_and_rest(t, expr@, q as int),
            decreases self.tokens@.len() - q,
        {
            match self.parse_shift_expression(q + 1) {
                Err(e) => { return Err(e); },
                Ok((rhs, q2)) => {
                    expr = Expression::BinaryOp(BinaryOperator::BitwiseAnd, Box::new(expr), Box::new(rhs));
                    q = q2;
                },
            }
        }
        Ok((expr, q))
    }

    /// `<<` and `>>`, grouping to the left, over postfix expressions.
    fn parse_shift_expression(&self, p: usize) -> (r: Result<(Expression, usize), ParseError>)
        requires
            p <= self.tokens@.len(),
        ensures
            outcome(r, |x: Expression| x@) == p_shift(self.toks(), p as int),
            r matches Ok((_, q)) ==> p < q <= self.tokens@.len(),
        decreases self.tokens@.len() - p, 5nat,
    {
        let ghost t = self.toks();
        let (mut expr, mut q) = match self.parse_unary_expression(p) {
            Err(e) => { return Err(e); },
            Ok(x) => x,
        };
        loop
            invariant
                p < q <= self.tokens@.len(),
                t == self.toks(),
                t.len() == self.tokens@.len(),
                p_shift(t, p as int) == p_shift_rest(t, expr@, q as int),
            ensures
                p < q <= self.tokens@.len(),
                p_shift(t, p as int) == Ok::<(ExprModel, int), PErr>((expr@, q as int)),
            decreases self.tokens@.len() - q,
        {
            let op = match self.kind_at(q) {
                Some(k) => shift_operator(k),
                None => None,
            };
            match op {
                Some(op) => match self.parse_unary_expression(q + 1) {
                    Err(e) => { return Err(e); },
                    Ok((rhs, q2)) => {
                        expr = Expression::BinaryOp(op, Box::new(expr), Box::new(rhs));
                        q = q2;
                    },
                },
                None => { break; },
            }
        }
        Ok((expr, q))
    }

    /// A primary expression, with at most one postfix `~` or `?`.
    fn parse_unary_expression(&self, p: usize) -> (r: Result<(Expression, usize), ParseError>)
        requires
            p <= self.tokens@.len(),
        ensures
            outcome(r, |x: Expression| x@) == p_unary(self.toks(), p as int),
            r matches Ok((_, q)) ==> p < q <= self.tokens@.len(),
        decreases self.tokens@.len() - p, 4nat,
    {
        match self.parse_primary_expression(p) {
            Err(e) => Err(e),
            Ok((expr, q)) => {
                let op = match self.kind_at(q) {
                    Some(k) => postfix_operator(k),
                    None => None,
                };
                match op {
                    Some(o) => Ok((Expression::UnaryOp(o, Box::new(expr)), q + 1)),
                    None => Ok((expr, q)),
                }
            },
        }
    }

    /// A literal, a parenthesized expression, a variable or an element of an
    /// array, or a call.
    fn parse_primary_expression(&self, p: usize) -> (r: Result<(Expression, usize), ParseError>)
        requires
            p <= self.tokens@.len(),
        ensures
            outcome(r, |x: Expression| x@) == p_primary(self.toks(), p as int),
            r matches Ok((_, q)) ==> p < q <= self.tokens@.len(),
        decreases self.tokens@.len() - p, 3nat,
    {
        if p >= self.tokens.len() {
            return Err(self.unexpected(p, "Primary Expression"));
        }
        proof { self.lemma_token(p as int); }
        match &self.tokens[p] {
            Token::HexLiteral(v, neg) => Ok((Expression::HexLiteral(*v, *neg), p + 1)),
            Token::LParen => match self.parse_expression(p + 1) {
                Err(e) => Err(e),
                Ok((expr, q)) => match self.consume(q, TokenKind::RParen) {
                    Err(e) => Err(e),
                    Ok(q2) => Ok((expr, q2)),
                },
            },
            Token::Variable(name) => {
                let name_clone = name.clone();
                if self.is_at(p + 1, TokenKind::LBracket) {
                    match self.parse_expression(p + 2) {
                        Err(e) => Err(e),
                        Ok((index_expr, q)) => match self.consume(q, TokenKind::RBracket) {
                            Err(e) => Err(e),
                            Ok(q2) => Ok((Expression::ArrayElement(name_clone, Box::new(index_expr)), q2)),
                        },
                    }
                } else {
                    Ok((Expression::Variable(name_clone), p + 1))
                }
            },
            Token::Function(name) => {
                let name_clone = name.clone();
                if self.is_at(p + 1, TokenKind::LParen) {
                    match self.parse_list(p + 2, TokenKind::RParen) {
                        Err(e) => Err(e),
                        Ok((args, q)) => Ok((Expression::FunctionCall(name_clone, args), q)),
                    }
                } else {
                    proof { assert(exprs_model(Seq::<Expression>::empty()) =~= Seq::<ExprModel>::empty()); }
                    Ok((Expression::FunctionCall(name_clone, Vec::new()), p + 1))
                }
            },
            _ => Err(self.unexpected(p, "Primary Expression")),
        }
    }

    /// Expressions separated by commas, none where the token `close` comes
    /// first, then `close`: the arguments of a call, or the initial values of
    /// an array.
    fn parse_list(&self, p: usize, close: TokenKind) -> (r: Result<(Vec<Expression>, usize), ParseError>)
        requires
            p <= self.tokens@.len(),
        ensures
            outcome(r, |x: Vec<Expression>| exprs_model(x@)) == p_list(self.toks(), p as int, close),
            r matches Ok((_, q)) ==> p < q <= self.tokens@.len(),
        decreases self.tokens@.len() - p, 11nat,
    {
        let ghost t = self.toks();
        let mut items: Vec<Expression> = Vec::new();
        let mut q = p;
        if !self.is_at(p, close) {
            match self.parse_expression(p) {
                Err(e) => { return Err(e); },
                Ok((first, q1)) => {
                    proof {
                        lemma_exprs_push(items@, first);
                        assert(exprs_model(items@) =~= Seq::<ExprModel>::empty());
                        assert(seq![first@] =~= Seq::<ExprModel>::empty().push(first@));
                    }
                    items.push(first);
                    q = q1;
                },
            }
            while self.is_at(q, TokenKind::Comma)
                invariant
                    p < q <= self.tokens@.len(),
                    t == self.toks(),
                    t.len() == self.tokens@.len(),
                    p_items(t, p as int, close) == p_list_rest(t, exprs_model(items@), q as int),
                decreases self.tokens@.len() - q,
            {
                match self.parse_expression(q + 1) {
                    Err(e) => { return Err(e); },
                    Ok((next, q2)) => {
                        proof { lemma_exprs_push(items@, next); }
                        items.push(next);
                        q = q2;
                    },
                }
            }
        } else {
            proof { assert(exprs_model(items@) =~= Seq::<ExprModel>::empty()); }
        }
        match self.consume(q, close) {
            Err(e) => Err(e),
            Ok(q2) => Ok((items, q2)),
        }
    }

    /// The error for an expression statement that is not an assignment, with
    /// the token found at `q` in place of `=`.
    fn not_assignment(&self, q: usize) -> (r: ParseError)
        ensures
            r@ == PErr::SyntaxError(not_assignment_text(tok_at(self.toks(), q as int))),
    {
        let mut msg = string_of("Expression statement must be an assignment, found ");
        if q < self.tokens.len() {
            proof { self.lemma_token(q as int); }
            push_seq(&mut msg, &string_of("Some("));
            push_token(&mut msg, &self.tokens[q]);
            push_seq(&mut msg, &string_of(")"));
        } else {
            push_seq(&mut msg, &string_of("None"));
        }
        proof {
            let o = tok_at(self.toks(), q as int);
            assert(msg@ =~= not_assignment_text(o));
        }
        ParseError::SyntaxError(msg)
    }

    /// The assignment that an expression statement must be.
    fn parse_assignment_expression(&self, p: usize) -> (r: Result<(Expression, usize), ParseError>)
        requires
            p <= self.tokens@.len(),
        ensures
            outcome(r, |x: Expression| x@) == p_assignment(self.toks(), p as int),
            r matches Ok((_, q)) ==> p < q <= self.tokens@.len(),
    {
        match self.parse_primary_expression(p) {
            Err(e) => Err(e),
            Ok((lhs, q)) => if self.is_at(q, TokenKind::Equal) {
                match self.parse_comparison_expression(q + 1) {
                    Err(e) => Err(e),
                    Ok((rhs, q2)) => match lhs {
                        Expression::Variable(_) | Expression::ArrayElement(_, _) => Ok(
                            (Expression::BinaryOp(BinaryOperator::Assign, Box::new(lhs), Box::new(rhs)), q2),
                        ),
                        _ => Err(ParseError::InvalidAssignmentTarget),
                    },
                }
            } else {
                Err(self.not_assignment(q))
            },
        }
    }

    /// `var`, a type, a variable, and an optional `=` and initial value.
    fn parse_var_decl(&self, p: usize) -> (r: Result<(Statement, usize), ParseError>)
        requires
            p <= self.tokens@.len(),
        ensures
            outcome(r, |x: Statement| x@) == p_var_decl(self.toks(), p as int),
            r matches Ok((_, q)) ==> p < q <= self.tokens@.len(),
    {
        let q1 = match self.consume(p, TokenKind::Var) {
            Err(e) => { return Err(e); },
            Ok(q) => q,
        };
        let (ty, q2) = match self.parse_type(q1) {
            Err(e) => { return Err(e); },
            Ok(x) => x,
        };
        let (name, q3) = match self.parse_name(q2, TokenKind::Variable, "Variable") {
            Err(e) => { return Err(e); },
            Ok(x) => x,
        };
        if self.is_at(q3, TokenKind::Equal) {
            match self.parse_expression(q3 + 1) {
                Err(e) => Err(e),
                Ok((init, q4)) => Ok((Statement::VariableDeclaration { ty, name, initializer: Some(init) }, q4)),
            }
        } else {
            Ok((Statement::VariableDeclaration { ty, name, initializer: None }, q3))
        }
    }

    /// The size of an array: a variable or a hexadecimal literal.
    fn parse_size(&self, p: usize) -> (r: Result<(ArraySize, usize), ParseError>)
        ensures
            outcome(r, |x: ArraySize| size_model(x)) == p_size(self.toks(), p as int),
    {
        if p < self.tokens.len() {
            proof { self.lemma_token(p as int); }
            match &self.tokens[p] {
                Token::Variable(n) => { return Ok((ArraySize::Variable(n.clone()), p + 1)); },
                Token::HexLiteral(v, _neg) => { return Ok((ArraySize::Literal(*v), p + 1)); },
                _ => {},
            }
        }
        Err(self.unexpected(p, "Variable or HexLiteral"))
    }

    /// `array`, a type, `*`, a size, a name, and an optional `=` and list of
    /// initial values in braces.
    fn parse_array_decl(&self, p: usize) -> (r: Result<(Statement, usize), ParseError>)
        requires
            p <= self.tokens@.len(),
        ensures
            outcome(r, |x: Statement| x@) == p_array_decl(self.toks(), p as int),
            r matches Ok((_, q)) ==> p < q <= self.tokens@.len(),
    {
        let q1 = match self.consume(p, TokenKind::Array) {
            Err(e) => { return Err(e); },
            Ok(q) => q,
        };
        let (ty, q2) = match self.parse_type(q1) {
            Err(e) => { return Err(e); },
            Ok(x) => x,
        };
        let q3 = match self.consume(q2, TokenKind::Asterisk) {
            Err(e) => { return Err(e); },
            Ok(q) => q,
        };
        let (size, q4) = match self.parse_size(q3) {
            Err(e) => { return Err(e); },
            Ok(x) => x,
        };
        let (name, q5) = match self.parse_name(q4, TokenKind::Variable, "ArrayIdentifier") {
            Err(e) => { return Err(e); },
            Ok(x) => x,
        };
        if self.is_at(q5, TokenKind::Equal) {
            let q6 = match self.consume(q5 + 1, TokenKind::LBrace) {
                Err(e) => { return Err(e); },
                Ok(q) => q,
            };
            match self.parse_list(q6, TokenKind::RBrace) {
                Err(e) => Err(e),
                Ok((init, q7)) => Ok((Statement::ArrayDeclaration { ty, size, name, initializer: Some(init) }, q7)),
            }
        } else {
            Ok((Statement::ArrayDeclaration { ty, size, name, initializer: None }, q5))
        }
    }

    /// A parameter: a type and a variable.
    fn parse_param(&self, p: usize) -> (r: Result<((Type, String), usize), ParseError>)
        ensures
            outcome(r, |x: (Type, String)| (x.0, x.1@)) == p_param(self.toks(), p as int),
    {
        let (ty, q) = match self.parse_type(p) {
            Err(e) => { return Err(e); },
            Ok(x) => x,
        };
        match self.parse_name(q, TokenKind::Variable, "Variable") {
            Err(e) => Err(e),
            Ok((name, q2)) => Ok(((ty, name), q2)),
        }
    }

    /// The optional list of parameters of a function.
    fn parse_params(&self, p: usize) -> (r: Result<(Vec<(Type, String)>, usize), ParseError>)
        requires
            p <= self.tokens@.len(),
        ensures
            outcome(r, |x: Vec<(Type, String)>| params_model(x@)) == p_params(self.toks(), p as int),
            r matches Ok((_, q)) ==> p <= q <= self.tokens@.len(),
    {
        let ghost t = self.toks();
        let mut params: Vec<(Type, String)> = Vec::new();
        proof { assert(params_model(params@) =~= Seq::<(Type, Seq<char>)>::empty()); }
        if !self.is_at(p, TokenKind::LParen) {
            return Ok((params, p));
        }
        let mut q = p + 1;
        if !self.is_at(q, TokenKind::RParen) {
            match self.parse_param(q) {
                Err(e) => { return Err(e); },
                Ok((first, q1)) => {
                    proof {
                        assert(params_model(params@.push(first)) =~= seq![(first.0, first.1@)]);
                    }
                    params.push(first);
                    q = q1;
                },
            }
            while self.is_at(q, TokenKind::Comma)
                invariant
                    p < q <= self.tokens@.len(),
                    t == self.toks(),
                    t.len() == self.tokens@.len(),
                    is_at(t, p as int, TokenKind::LParen),
                    !is_at(t, p + 1, TokenKind::RParen),
                    p_param(t, p + 1) is Ok,
                    p_params_rest(t, seq![p_param(t, p + 1)->Ok_0.0], p_param(t, p + 1)->Ok_0.1)
                        == p_params_rest(t, params_model(params@), q as int),
                decreases self.tokens@.len() - q,
            {
                match self.parse_param(q + 1) {
                    Err(e) => { return Err(e); },
                    Ok((next, q2)) => {
                        proof {
                            assert(params_model(params@.push(next)) =~= params_model(params@).push((next.0, next.1@)));
                        }
                        params.push(next);
                        q = q2;
                    },
                }
            }
        }
        match self.consume(q, TokenKind::RParen) {
            Err(e) => Err(e),
            Ok(q2) => Ok((params, q2)),
        }
    }

    /// A statement, and the `.` that ends it.
    fn parse_statement(&self, p: usize) -> (r: Result<(Statement, usize), ParseError>)
        requires
            p <= self.tokens@.len(),
        ensures
            outcome(r, |x: Statement| x@) == p_statement(self.toks(), p as int),
            r matches Ok((_, q)) ==> p < q <= self.tokens@.len(),
        decreases self.tokens@.len() - p, 1nat,
    {
        let stmt = match self.kind_at(p) {
            Some(TokenKind::Var) => self.parse_var_decl(p),
            Some(TokenKind::Array) => self.parse_array_decl(p),
            Some(TokenKind::Func) => self.parse_func_decl(p),
            Some(TokenKind::Loop) => self.parse_loop_stmt(p),
            Some(TokenKind::Try) => self.parse_try_catch_stmt(p),
            Some(TokenKind::Throw) => self.parse_throw_stmt(p),
            _ => match self.parse_assignment_expression(p) {
                Err(e) => Err(e),
                Ok((e, q)) => Ok((Statement::Expression(e), q)),
            },
        };
        match stmt {
            Err(e) => Err(e),
            Ok((st, q)) => match self.consume(q, TokenKind::Dot) {
                Err(e) => Err(e),
                Ok(q2) => Ok((st, q2)),
            },
        }
    }

    /// The statements of a body, up to a `}` or the end of the tokens, and
    /// the `}` that closes it.
    fn parse_block(&self, p: usize) -> (r: Result<(Vec<Statement>, usize), ParseError>)
        requires
            p <= self.tokens@.len(),
        ensures
            outcome(r, |x: Vec<Statement>| stmts_model(x@)) == p_block(self.toks(), p as int),
            r matches Ok((_, q)) ==> p < q <= self.tokens@.len(),
        decreases self.tokens@.len() - p, 3nat,
    {
        let ghost t = self.toks();
        let mut body: Vec<Statement> = Vec::new();
        let mut q = p;
        proof { assert(stmts_model(body@) =~= Seq::<StmtModel>::empty()); }
        while q < self.tokens.len() && !self.is_at(q, TokenKind::RBrace)
            invariant
                p <= q <= self.tokens@.len(),
                t == self.toks(),
                t.len() == self.tokens@.len(),
                p_stmts(t, Seq::empty(), p as int) == p_stmts(t, stmts_model(body@), q as int),
            decreases self.tokens@.len() - q,
        {
            match self.parse_statement(q) {
                Err(e) => { return Err(e); },
                Ok((st, q2)) => {
                    proof { lemma_stmts_push(body@, st); }
                    body.push(st);
                    q = q2;
                },
            }
        }
        match self.consume(q, TokenKind::RBrace) {
            Err(e) => Err(e),
            Ok(q2) => Ok((body, q2)),
        }
    }

    /// `func`, the return type, the name, the optional parameters, `=` and the
    /// body in braces.
    fn parse_func_decl(&self, p: usize) -> (r: Result<(Statement, usize), ParseError>)
        requires
            p <= self.tokens@.len(),
        ensures
            outcome(r, |x: Statement| x@) == p_func_decl(self.toks(), p as int),
            r matches Ok((_, q)) ==> p < q <= self.tokens@.len(),
        decreases self.tokens@.len() - p, 0nat,
    {
        let q1 = match self.consume(p, TokenKind::Func) {
            Err(e) => { return Err(e); },
            Ok(q) => q,
        };
        let (ret_type, q2) = match self.parse_type(q1) {
            Err(e) => { return Err(e); },
            Ok(x) => x,
        };
        let (name, q3) = match self.parse_name(q2, TokenKind::Function, "FunctionIdentifier") {
            Err(e) => { return Err(e); },
            Ok(x) => x,
        };
        let (params, q4) = match self.parse_params(q3) {
            Err(e) => { return Err(e); },
            Ok(x) => x,
        };
        let q5 = match self.consume(q4, TokenKind::Equal) {
            Err(e) => { return Err(e); },
            Ok(q) => q,
        };
        let q6 = match self.consume(q5, TokenKind::LBrace) {
            Err(e) => { return Err(e); },
            Ok(q) => q,
        };
        match self.parse_block(q6) {
            Err(e) => Err(e),
            Ok((body, q7)) => Ok((Statement::FunctionDeclaration { ret_type, name, params, body }, q7)),
        }
    }

    /// `loop` and a body in braces.
    fn parse_loop_stmt(&self, p: usize) -> (r: Result<(Statement, usize), ParseError>)
        requires
            p <= self.tokens@.len(),
        ensures
            outcome(r, |x: Statement| x@) == p_loop(self.toks(), p as int),
            r matches Ok((_, q)) ==> p < q <= self.tokens@.len(),
        decreases self.tokens@.len() - p, 0nat,
    {
        let q1 = match self.consume(p, TokenKind::Loop) {
            Err(e) => { return Err(e); },
            Ok(q) => q,
        };
        let q2 = match self.consume(q1, TokenKind::LBrace) {
            Err(e) => { return Err(e); },
            Ok(q) => q,
        };
        match self.parse_block(q2) {
            Err(e) => Err(e),
            Ok((body, q3)) => Ok((Statement::Loop(body), q3)),
        }
    }

    /// `try`, a body in braces, and the `catch` clauses, each of them `catch`,
    /// a hexadecimal code and a body in braces.
    #[verifier::rlimit(30)]
    fn parse_try_catch_stmt(&self, p: usize) -> (r: Result<(Statement, usize), ParseError>)
        requires
            p <= self.tokens@.len(),
        ensures
            outcome(r, |x: Statement| x@) == p_try(self.toks(), p as int),
            r matches Ok((_, q)) ==> p < q <= self.tokens@.len(),
        decreases self.tokens@.len() - p, 0nat,
    {
        let ghost t = self.toks();
        let q1 = match self.consume(p, TokenKind::Try) {
            Err(e) => { return Err(e); },
            Ok(q) => q,
        };
        let q2 = match self.consume(q1, TokenKind::LBrace) {
            Err(e) => { return Err(e); },
            Ok(q) => q,
        };
        let (try_body, q3) = match self.parse_block(q2) {
            Err(e) => { return Err(e); },
            Ok(x) => x,
        };
        match self.parse_catches(q3) {
            Err(e) => Err(e),
            Ok((catch_clauses, q4)) => Ok((Statement::TryCatch { try_body, catch_clauses }, q4)),
        }
    }

    /// The `catch` clauses from `p` on.
    fn parse_catches(&self, p: usize) -> (r: Result<(Vec<CatchClause>, usize), ParseError>)
        requires
            0 < p <= self.tokens@.len(),
        ensures
            outcome(r, |x: Vec<CatchClause>| catches_model(x@)) == p_catches(self.toks(), Seq::empty(), p as int),
            r matches Ok((_, q)) ==> p <= q <= self.tokens@.len(),
        decreases self.tokens@.len() - p, 0nat,
    {
        let ghost t = self.toks();
        let mut catch_clauses: Vec<CatchClause> = Vec::new();
        let mut q = p;
        proof { assert(catches_model(catch_clauses@) =~= Seq::<(u64, Seq<StmtModel>)>::empty()); }
        while self.is_at(q, TokenKind::Catch)
            invariant
                p <= q <= self.tokens@.len(),
                t == self.toks(),
                t.len() == self.tokens@.len(),
                p_catches(t, Seq::empty(), p as int) == p_catches(t, catches_model(catch_clauses@), q as int),
            decreases self.tokens@.len() - q,
        {
            proof { lemma_catch_error(t, catches_model(catch_clauses@), q as int); }
            let (exception_code, c1) = match self.parse_hex(q + 1) {
                Err(e) => { return Err(e); },
                Ok(x) => x,
            };
            let c2 = match self.consume(c1, TokenKind::LBrace) {
                Err(e) => { return Err(e); },
                Ok(x) => x,
            };
            match self.parse_block(c2) {
                Err(e) => { return Err(e); },
                Ok((body, c3)) => {
                    proof {
                        lemma_catch_step(t, catches_model(catch_clauses@), q as int, exception_code, c1 as int,
                            c2 as int, stmts_model(body@), c3 as int);
                    }
                    let clause = CatchClause { exception_code, body };
                    proof { lemma_catches_push(catch_clauses@, clause); }
                    catch_clauses.push(clause);
                    q = c3;
                },
            }
        }
        Ok((catch_clauses, q))
    }

    /// `throw`, a hexadecimal code, `@` and the condition.
    fn parse_throw_stmt(&self, p: usize) -> (r: Result<(Statement, usize), ParseError>)
        requires
            p <= self.tokens@.len(),
        ensures
            outcome(r, |x: Statement| x@) == p_throw(self.toks(), p as int),
            r matches Ok((_, q)) ==> p < q <= self.tokens@.len(),
    {
        let q1 = match self.consume(p, TokenKind::Throw) {
            Err(e) => { return Err(e); },
            Ok(q) => q,
        };
        let (exception_code, q2) = match self.parse_hex(q1) {
            Err(e) => { return Err(e); },
            Ok(x) => x,
        };
        let q3 = match self.consume(q2, TokenKind::At) {
            Err(e) => { return Err(e); },
            Ok(q) => q,
        };
        match self.parse_expression(q3) {
            Err(e) => Err(e),
            Ok((condition, q4)) => Ok((Statement::Throw { exception_code, condition }, q4)),
        }
    }

    /// The statements from `p` to the end of the tokens.
    fn parse_statements_from(&self, p: usize) -> (r: Result<Vec<Statement>, ParseError>)
        requires
            p <= self.tokens@.len(),
        ensures
            match r {
                Ok(prog) => p_program(self.toks(), Seq::empty(), p as int) == Ok::<Seq<StmtModel>, PErr>(stmts_model(prog@)),
                Err(e) => p_program(self.toks(), Seq::empty(), p as int) == Err::<Seq<StmtModel>, PErr>(e@),
            },
    {
        let ghost t = self.toks();
        let mut program: Vec<Statement> = Vec::new();
        let mut q = p;
        proof { assert(stmts_model(program@) =~= Seq::<StmtModel>::empty()); }
        while q < self.tokens.len()
            invariant
                q <= self.tokens@.len(),
                t == self.toks(),
                t.len() == self.tokens@.len(),
                p_program(t, Seq::empty(), p as int) == p_program(t, stmts_model(program@), q as int),
            decreases self.tokens@.len() - q,
        {
            proof { lemma_program_step(t, stmts_model(program@), q as int); }
            match self.parse_statement(q) {
                Err(e) => { return Err(e); },
                Ok((st, q2)) => {
                    proof { lemma_stmts_push(program@, st); }
                    program.push(st);
                    q = q2;
                },
            }
        }
        Ok(program)
    }

    /// The statements from the parser's position to the end of the tokens.
    pub fn parse_program(&mut self) -> (r: Result<Program, ParseError>)
        requires
            old(self).wf(),
        ensures
            final(self).wf(),
            final(self).toks() == old(self).toks(),
            match r {
                Ok(prog) => p_program(old(self).toks(), Seq::empty(), old(self).position())
                    == Ok::<Seq<StmtModel>, PErr>(stmts_model(prog@)),
                Err(e) => p_program(old(self).toks(), Seq::empty(), old(self).position())
                    == Err::<Seq<StmtModel>, PErr>(e@),
            },
    {
        let r = self.parse_statements_from(self.pos);
        if r.is_ok() {
            self.pos = self.tokens.len();
        }
        r
    }
}

} // verus!
