//! Tokens and literal values.
//!
//! A token is a classified, positioned lexical unit; a literal value is the
//! tagged union of the runtime-representable primitives, which doubles as the
//! evaluator's runtime value type. Text is carried as raw bytes throughout.

use vstd::prelude::*;

use crate::num::Num;
use crate::num::dec_digits;
use crate::num::render_mantissa;

verus! {

#[derive(Clone, Copy, Debug, PartialEq, Eq, Structural)]
pub enum TokenType {
    // Single-character tokens.
    LeftParen,
    RightParen,
    LeftBrace,
    RightBrace,
    Comma,
    Dot,
    Minus,
    Plus,
    Semicolon,
    Slash,
    Star,
    // One or two character tokens.
    Bang,
    BangEqual,
    Equal,
    EqualEqual,
    Greater,
    GreaterEqual,
    Less,
    LessEqual,
    // Literals.
    Identifier,
    String,
    Number,
    // Keywords.
    And,
    Class,
    Else,
    False,
    Fun,
    For,
    If,
    Nil,
    Or,
    Print,
    Return,
    Super,
    This,
    True,
    Var,
    While,
    Error,
    Eof,
}

#[derive(Clone, Debug, PartialEq)]
pub enum LiteralTypes {
    String(Vec<u8>),
    Number(Num),
    Bool(bool),
    Nil,
}

/// Mathematical model of a literal value: a number is its mantissa.
pub enum ValueV {
    Str(Seq<u8>),
    Num(int),
    Bool(bool),
    Nil,
}

impl View for LiteralTypes {
    type V = ValueV;

    open spec fn view(&self) -> ValueV {
        match self {
            LiteralTypes::String(s) => ValueV::Str(s@),
            LiteralTypes::Number(n) => ValueV::Num(n.mantissa as int),
            LiteralTypes::Bool(b) => ValueV::Bool(*b),
            LiteralTypes::Nil => ValueV::Nil,
        }
    }
}

#[derive(Clone, Debug, PartialEq)]
pub struct Token {
    pub ttype: TokenType,
    pub lexeme: Vec<u8>,
    pub literal: LiteralTypes,
    pub line: usize,
}

/// Mathematical model of a token.
pub struct TokenV {
    pub ttype: TokenType,
    pub lexeme: Seq<u8>,
    pub literal: ValueV,
    pub line: nat,
}

impl View for Token {
    type V = TokenV;

    open spec fn view(&self) -> TokenV {
        TokenV {
            ttype: self.ttype,
            lexeme: self.lexeme@,
            literal: self.literal@,
            line: self.line as nat,
        }
    }
}

/// Whether two byte strings hold the same bytes.
pub fn bytes_eq(a: &Vec<u8>, b: &Vec<u8>) -> (r: bool)
    ensures
        r == (a@ == b@),
{
    if a.len() != b.len() {
        proof {
            assert(a@ != b@);
        }
        return false;
    }
    let mut i: usize = 0;
    while i < a.len()
        invariant
            0 <= i <= a.len(),
            a.len() == b.len(),
            forall|j: int| 0 <= j < i ==> a@[j] == b@[j],
        decreases a.len() - i,
    {
        if a[i] != b[i] {
            return false;
        }
        i += 1;
    }
    proof {
        assert(a@ =~= b@);
    }
    true
}

/// A fresh byte string with the same bytes.
pub fn bytes_clone(v: &Vec<u8>) -> (r: Vec<u8>)
    ensures
        r@ == v@,
{
    let mut out: Vec<u8> = Vec::new();
    let mut i: usize = 0;
    while i < v.len()
        invariant
            0 <= i <= v.len(),
            out@ == v@.subrange(0, i as int),
        decreases v.len() - i,
    {
        out.push(v[i]);
        i += 1;
        proof {
            assert(out@ =~= v@.subrange(0, i as int));
        }
    }
    proof {
        assert(out@ =~= v@);
    }
    out
}

/// A copy of a literal value, equal under the model.
pub fn clone_literal(v: &LiteralTypes) -> (r: LiteralTypes)
    ensures
        r@ == v@,
{
    match v {
        LiteralTypes::String(s) => LiteralTypes::String(bytes_clone(s)),
        LiteralTypes::Number(n) => LiteralTypes::Number(*n),
        LiteralTypes::Bool(b) => LiteralTypes::Bool(*b),
        LiteralTypes::Nil => LiteralTypes::Nil,
    }
}

/// A copy of a token, equal under the model.
pub fn clone_token(t: &Token) -> (r: Token)
    ensures
        r@ == t@,
{
    Token {
        ttype: t.ttype,
        lexeme: bytes_clone(&t.lexeme),
        literal: clone_literal(&t.literal),
        line: t.line,
    }
}

/// Truthiness: `nil` and `false` are falsy, every other value is truthy.
pub open spec fn truthy(v: ValueV) -> bool {
    match v {
        ValueV::Nil => false,
        ValueV::Bool(b) => b,
        _ => true,
    }
}

/// Language equality: same-kind values compare by value, cross-kind pairs
/// are unequal, except that `nil` compares equal to `false` either way.
pub open spec fn equal_value(a: ValueV, b: ValueV) -> bool {
    match (a, b) {
        (ValueV::Num(x), ValueV::Num(y)) => x == y,
        (ValueV::Str(x), ValueV::Str(y)) => x == y,
        (ValueV::Bool(x), ValueV::Bool(y)) => x == y,
        (ValueV::Nil, ValueV::Nil) => true,
        (ValueV::Nil, ValueV::Bool(y)) => y == false,
        (ValueV::Bool(x), ValueV::Nil) => x == false,
        _ => false,
    }
}

/// The canonical display rendering of a value: strings render raw, numbers
/// without redundant trailing zeros, booleans as `true`/`false`, nil as
/// `nil`.
pub open spec fn render_value(v: ValueV) -> Seq<u8> {
    match v {
        ValueV::Str(s) => s,
        ValueV::Num(m) => render_mantissa(m),
        ValueV::Bool(b) => if b {
            seq![116u8, 114u8, 117u8, 101u8]
        } else {
            seq![102u8, 97u8, 108u8, 115u8, 101u8]
        },
        ValueV::Nil => seq![110u8, 105u8, 108u8],
    }
}

impl LiteralTypes {
    /// Language equality of two values.
    pub fn equal(&self, rhs: &LiteralTypes) -> (r: bool)
        ensures
            r == equal_value(self@, rhs@),
    {
        match (self, rhs) {
            (LiteralTypes::Number(x), LiteralTypes::Number(y)) => x.mantissa == y.mantissa,
            (LiteralTypes::String(x), LiteralTypes::String(y)) => bytes_eq(x, y),
            (LiteralTypes::Bool(x), LiteralTypes::Bool(y)) => x == y,
            (LiteralTypes::Nil, LiteralTypes::Nil) => true,
            (LiteralTypes::Nil, LiteralTypes::Bool(y)) => *y == false,
            (LiteralTypes::Bool(x), LiteralTypes::Nil) => *x == false,
            _ => false,
        }
    }

    /// Truthiness of this value.
    pub fn is_true(&self) -> (r: bool)
        ensures
            r == truthy(self@),
    {
        match self {
            LiteralTypes::Nil => false,
            LiteralTypes::Bool(b) => *b,
            _ => true,
        }
    }

    /// The display rendering of this value.
    pub fn stringify(&self) -> (r: Vec<u8>)
        ensures
            r@ == render_value(self@),
    {
        match self {
            LiteralTypes::String(s) => bytes_clone(s),
            LiteralTypes::Number(n) => n.render(),
            LiteralTypes::Bool(b) => {
                let mut out: Vec<u8> = Vec::new();
                if *b {
                    out.push(116u8);
                    out.push(114u8);
                    out.push(117u8);
                    out.push(101u8);
                } else {
                    out.push(102u8);
                    out.push(97u8);
                    out.push(108u8);
                    out.push(115u8);
                    out.push(101u8);
                }
                proof {
                    assert(out@ =~= render_value(self@));
                }
                out
            },
            LiteralTypes::Nil => {
                let mut out: Vec<u8> = Vec::new();
                out.push(110u8);
                out.push(105u8);
                out.push(108u8);
                proof {
                    assert(out@ =~= render_value(self@));
                }
                out
            },
        }
    }
}

/// The diagnostic rendering of a token: its line and its lexeme.
pub open spec fn show_token(t: TokenV) -> Seq<u8> {
    seq![108u8, 105u8, 110u8, 101u8, 58u8] + dec_digits(t.line) + seq![
        32u8,
        108u8,
        101u8,
        120u8,
        101u8,
        109u8,
        101u8,
        58u8,
    ] + t.lexeme
}

impl Token {
    pub fn new(ttype: TokenType, lexeme: Vec<u8>, literal: LiteralTypes, line: usize) -> (r: Token)
        ensures
            r.ttype == ttype,
            r.lexeme == lexeme,
            r.literal == literal,
            r.line == line,
    {
        Token { ttype, lexeme, literal, line }
    }

    /// Renders the token for diagnostics.
    pub fn show(&self) -> (r: Vec<u8>)
        ensures
            r@ == show_token(self@),
    {
        let mut out: Vec<u8> = Vec::new();
        out.push(108u8);
        out.push(105u8);
        out.push(110u8);
        out.push(101u8);
        out.push(58u8);
        crate::num::push_decimal(&mut out, self.line as u64);
        out.push(32u8);
        out.push(108u8);
        out.push(101u8);
        out.push(120u8);
        out.push(101u8);
        out.push(109u8);
        out.push(101u8);
        out.push(58u8);
        let mut lex = bytes_clone(&self.lexeme);
        out.append(&mut lex);
        proof {
            assert(out@ =~= show_token(self@));
        }
        out
    }
}

} // verus!
