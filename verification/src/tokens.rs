//! The token data model: lexical kinds, source positions, decoded literal
//! values, and the classification of kinds into operators (self-delimiting
//! punctuation) and everything else.

use vstd::prelude::*;

verus! {

/// Lexical category of a token, a closed enumeration.
#[derive(Clone, Copy, PartialEq, Eq, Structural, Debug)]
pub enum Kind {
    Assign,
    SubAssign,
    AddAssign,
    Arrow,
    Coalesce,
    Namespace,
    DoubleSplat,
    BackwardLink,
    FloorDiv,
    Concat,
    GreaterEq,
    LessEq,
    NotEq,
    NotDistinctFrom,
    DistinctFrom,
    Comma,
    OpenParen,
    CloseParen,
    OpenBracket,
    CloseBracket,
    OpenBrace,
    CloseBrace,
    Dot,
    Semicolon,
    Colon,
    Add,
    Sub,
    Mul,
    Div,
    Modulo,
    Pow,
    Less,
    Greater,
    Eq,
    Ampersand,
    Pipe,
    At,
    DecimalConst,
    FloatConst,
    IntConst,
    BigIntConst,
    BinStr,
    Argument,
    Str,
    BacktickName,
    Keyword,
    Ident,
    Substitution,
}

/// A source position: line and column (1-based in practice) and byte offset.
#[derive(Clone, Copy, PartialEq, Eq, Structural, Debug)]
pub struct Pos {
    pub line: u64,
    pub column: u64,
    pub offset: u64,
}

/// A source span, from the start of a token to just past its end.
#[derive(Clone, Copy, PartialEq, Eq, Structural, Debug)]
pub struct Span {
    pub start: Pos,
    pub end: Pos,
}

/// A decoded literal payload, present on literal-kind tokens. Float
/// literals carry the bit pattern of the decoded 64-bit value; this
/// library only moves such payloads, it never inspects them.
#[derive(PartialEq, Eq, Debug)]
pub enum Value {
    Int(i64),
    Str(String),
    BigInt(String),
    Decimal(String),
    FloatBits(u64),
    Bytes(Vec<u8>),
}

/// The mathematical value of a `Value`.
#[verifier::ext_equal]
pub enum ValueV {
    Int(int),
    Str(Seq<char>),
    BigInt(Seq<char>),
    Decimal(Seq<char>),
    FloatBits(int),
    Bytes(Seq<u8>),
}

impl View for Value {
    type V = ValueV;

    open spec fn view(&self) -> ValueV {
        match self {
            Value::Int(i) => ValueV::Int(*i as int),
            Value::Str(s) => ValueV::Str(s@),
            Value::BigInt(s) => ValueV::BigInt(s@),
            Value::Decimal(s) => ValueV::Decimal(s@),
            Value::FloatBits(b) => ValueV::FloatBits(*b as int),
            Value::Bytes(b) => ValueV::Bytes(b@),
        }
    }
}

/// A lexical token: its kind, exact spelling, source span, and the decoded
/// literal value for literal-kind tokens.
#[derive(PartialEq, Eq, Debug)]
pub struct Token {
    pub kind: Kind,
    pub text: String,
    pub span: Span,
    pub value: Option<Value>,
}

/// The mathematical value of a `Token`.
#[verifier::ext_equal]
pub struct TokenV {
    pub kind: Kind,
    pub text: Seq<char>,
    pub span: Span,
    pub value: Option<ValueV>,
}

impl View for Token {
    type V = TokenV;

    open spec fn view(&self) -> TokenV {
        TokenV {
            kind: self.kind,
            text: self.text@,
            span: self.span,
            value: match &self.value {
                Some(v) => Some(v@),
                None => None,
            },
        }
    }
}

/// The views of a sequence of tokens.
pub open spec fn tseq(s: Seq<Token>) -> Seq<TokenV> {
    s.map_values(|t: Token| t@)
}

/// A fresh copy of a string, equal to it as a character sequence.
pub(crate) fn copy_string(s: &String) -> (r: String)
    ensures
        r@ == s@,
{
    String::from_str(s.as_str())
}

fn clone_bytes(b: &Vec<u8>) -> (r: Vec<u8>)
    ensures
        r@ == b@,
{
    let mut r: Vec<u8> = Vec::new();
    let mut i: usize = 0;
    while i < b.len()
        invariant
            i <= b@.len(),
            r@ == b@.subrange(0, i as int),
        decreases b@.len() - i,
    {
        r.push(b[i]);
        assert(r@ =~= b@.subrange(0, i + 1));
        i += 1;
    }
    assert(r@ =~= b@);
    r
}

impl Clone for Value {
    fn clone(&self) -> (r: Self)
        ensures
            r@ == self@,
    {
        match self {
            Value::Int(i) => Value::Int(*i),
            Value::Str(s) => Value::Str(copy_string(s)),
            Value::BigInt(s) => Value::BigInt(copy_string(s)),
            Value::Decimal(s) => Value::Decimal(copy_string(s)),
            Value::FloatBits(b) => Value::FloatBits(*b),
            Value::Bytes(b) => Value::Bytes(clone_bytes(b)),
        }
    }
}

impl Clone for Token {
    fn clone(&self) -> (r: Self)
        ensures
            r@ == self@,
    {
        Token {
            kind: self.kind,
            text: copy_string(&self.text),
            span: self.span,
            value: match &self.value {
                Some(v) => Some(v.clone()),
                None => None,
            },
        }
    }
}

/// Operator-class kinds: punctuation and symbolic operators, which are
/// self-delimiting and never require surrounding whitespace.
pub open spec fn is_operator_kind(k: Kind) -> bool {
    match k {
        Kind::Assign
        | Kind::SubAssign
        | Kind::AddAssign
        | Kind::Arrow
        | Kind::Coalesce
        | Kind::Namespace
        | Kind::DoubleSplat
        | Kind::BackwardLink
        | Kind::FloorDiv
        | Kind::Concat
        | Kind::GreaterEq
        | Kind::LessEq
        | Kind::NotEq
        | Kind::NotDistinctFrom
        | Kind::DistinctFrom
        | Kind::Comma
        | Kind::OpenParen
        | Kind::CloseParen
        | Kind::OpenBracket
        | Kind::CloseBracket
        | Kind::OpenBrace
        | Kind::CloseBrace
        | Kind::Dot
        | Kind::Semicolon
        | Kind::Colon
        | Kind::Add
        | Kind::Sub
        | Kind::Mul
        | Kind::Div
        | Kind::Modulo
        | Kind::Pow
        | Kind::Less
        | Kind::Greater
        | Kind::Eq
        | Kind::Ampersand
        | Kind::Pipe
        | Kind::At => true,
        Kind::DecimalConst
        | Kind::FloatConst
        | Kind::IntConst
        | Kind::BigIntConst
        | Kind::BinStr
        | Kind::Argument
        | Kind::Str
        | Kind::BacktickName
        | Kind::Keyword
        | Kind::Ident
        | Kind::Substitution => false,
    }
}

/// Whether a token belongs to the operator class; see [`is_operator_kind`].
pub fn is_operator(token: &Token) -> (r: bool)
    ensures
        r == is_operator_kind(token.kind),
{
    match token.kind {
        Kind::Assign
        | Kind::SubAssign
        | Kind::AddAssign
        | Kind::Arrow
        | Kind::Coalesce
        | Kind::Namespace
        | Kind::DoubleSplat
        | Kind::BackwardLink
        | Kind::FloorDiv
        | Kind::Concat
        | Kind::GreaterEq
        | Kind::LessEq
        | Kind::NotEq
        | Kind::NotDistinctFrom
        | Kind::DistinctFrom
        | Kind::Comma
        | Kind::OpenParen
        | Kind::CloseParen
        | Kind::OpenBracket
        | Kind::CloseBracket
        | Kind::OpenBrace
        | Kind::CloseBrace
        | Kind::Dot
        | Kind::Semicolon
        | Kind::Colon
        | Kind::Add
        | Kind::Sub
        | Kind::Mul
        | Kind::Div
        | Kind::Modulo
        | Kind::Pow
        | Kind::Less
        | Kind::Greater
        | Kind::Eq
        | Kind::Ampersand
        | Kind::Pipe
        | Kind::At => true,
        _ => false,
    }
}

} // verus!
