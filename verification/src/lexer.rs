//! The scanner: source bytes to tokens.
//!
//! One left-to-right pass classifies each lexeme by its leading byte,
//! counting lines at every newline. Scanning is total: every byte lands in
//! exactly one token or comment span, malformed input becomes in-band
//! `Error` tokens, and the stream always ends with a single `Eof` token.
//! [`spec_scan`] is the scanner's specification; [`Lexer::scan_tokens`]
//! returns exactly what it describes.

use vstd::prelude::*;

use crate::num::Num;
use crate::token::LiteralTypes;
use crate::token::Token;
use crate::token::TokenType;
use crate::token::TokenV;
use crate::token::ValueV;

verus! {

pub open spec fn is_digit(c: u8) -> bool {
    48 <= c <= 57
}

pub open spec fn is_alpha_byte(c: u8) -> bool {
    (65 <= c <= 90) || (97 <= c <= 122) || c == 95
}

/// First index at or after `i` that does not continue a digit run.
pub open spec fn digit_run_end(src: Seq<u8>, i: int) -> int
    decreases src.len() - i,
{
    if 0 <= i < src.len() && is_digit(src[i]) {
        digit_run_end(src, i + 1)
    } else {
        i
    }
}

/// First index at or after `i` that does not continue an identifier.
pub open spec fn ident_end(src: Seq<u8>, i: int) -> int
    decreases src.len() - i,
{
    if 0 <= i < src.len() && (is_alpha_byte(src[i]) || is_digit(src[i])) {
        ident_end(src, i + 1)
    } else {
        i
    }
}

/// First index at or after `i` holding a closing quote, or the input's end.
pub open spec fn string_end(src: Seq<u8>, i: int) -> int
    decreases src.len() - i,
{
    if 0 <= i < src.len() && src[i] != 34 {
        string_end(src, i + 1)
    } else {
        i
    }
}

/// First index at or after `i` holding a newline, or the input's end: where
/// a line comment stops being consumed.
pub open spec fn comment_end(src: Seq<u8>, i: int) -> int
    decreases src.len() - i,
{
    if 0 <= i < src.len() && src[i] != 10 {
        comment_end(src, i + 1)
    } else {
        i
    }
}

/// How many newline bytes `src` holds in `[a, b)`.
pub open spec fn count_newlines(src: Seq<u8>, a: int, b: int) -> nat
    decreases b - a,
{
    if a >= b {
        0
    } else {
        count_newlines(src, a, b - 1) + (if 0 <= b - 1 < src.len() && src[b - 1] == 10 {
            1nat
        } else {
            0nat
        })
    }
}

/// The number denoted by the digits of `src[a..b)`.
pub open spec fn digits_val(src: Seq<u8>, a: int, b: int) -> int
    decreases b - a,
{
    if a >= b {
        0
    } else {
        digits_val(src, a, b - 1) * 10 + (if 0 <= b - 1 < src.len() && is_digit(src[b - 1]) {
            src[b - 1] - 48
        } else {
            0
        })
    }
}

pub open spec fn pow10(k: int) -> int
    decreases k,
{
    if k <= 0 {
        1
    } else {
        10 * pow10(k - 1)
    }
}

/// The fixed-point mantissa a number lexeme denotes: the whole digits
/// `[ws, we)` scaled by six decimal places, plus the fraction digits
/// `[fs, fe)`, of which only the first six contribute.
pub open spec fn number_mantissa(src: Seq<u8>, ws: int, we: int, fs: int, fe: int) -> int {
    let used = if fe - fs > 6 {
        fs + 6
    } else {
        fe
    };
    digits_val(src, ws, we) * 1000000 + digits_val(src, fs, used) * pow10(6 - (used - fs))
}

/// The keyword a word denotes, if any. Spelled out byte by byte: 97 is
/// `a`, 98 `b`, and so on through 122 for `z`.
pub open spec fn keyword_of(s: Seq<u8>) -> Option<TokenType> {
    if s.len() == 3 && s[0] == 97 && s[1] == 110 && s[2] == 100 {
        Some(TokenType::And)  // and
    } else if s.len() == 5 && s[0] == 99 && s[1] == 108 && s[2] == 97 && s[3] == 115 && s[4]
        == 115 {
        Some(TokenType::Class)  // class
    } else if s.len() == 4 && s[0] == 101 && s[1] == 108 && s[2] == 115 && s[3] == 101 {
        Some(TokenType::Else)  // else
    } else if s.len() == 5 && s[0] == 102 && s[1] == 97 && s[2] == 108 && s[3] == 115 && s[4]
        == 101 {
        Some(TokenType::False)  // false
    } else if s.len() == 3 && s[0] == 102 && s[1] == 111 && s[2] == 114 {
        Some(TokenType::For)  // for
    } else if s.len() == 3 && s[0] == 102 && s[1] == 117 && s[2] == 110 {
        Some(TokenType::Fun)  // fun
    } else if s.len() == 2 && s[0] == 105 && s[1] == 102 {
        Some(TokenType::If)  // if
    } else if s.len() == 3 && s[0] == 110 && s[1] == 105 && s[2] == 108 {
        Some(TokenType::Nil)  // nil
    } else if s.len() == 2 && s[0] == 111 && s[1] == 114 {
        Some(TokenType::Or)  // or
    } else if s.len() == 5 && s[0] == 112 && s[1] == 114 && s[2] == 105 && s[3] == 110 && s[4]
        == 116 {
        Some(TokenType::Print)  // print
    } else if s.len() == 6 && s[0] == 114 && s[1] == 101 && s[2] == 116 && s[3] == 117 && s[4]
        == 114 && s[5] == 110 {
        Some(TokenType::Return)  // return
    } else if s.len() == 5 && s[0] == 115 && s[1] == 117 && s[2] == 112 && s[3] == 101 && s[4]
        == 114 {
        Some(TokenType::Super)  // super
    } else if s.len() == 4 && s[0] == 116 && s[1] == 104 && s[2] == 105 && s[3] == 115 {
        Some(TokenType::This)  // this
    } else if s.len() == 4 && s[0] == 116 && s[1] == 114 && s[2] == 117 && s[3] == 101 {
        Some(TokenType::True)  // true
    } else if s.len() == 3 && s[0] == 118 && s[1] == 97 && s[2] == 114 {
        Some(TokenType::Var)  // var
    } else if s.len() == 5 && s[0] == 119 && s[1] == 104 && s[2] == 105 && s[3] == 108 && s[4]
        == 101 {
        Some(TokenType::While)  // while
    } else {
        None
    }
}

/// A token model without a literal payload.
pub open spec fn plain_tok(t: TokenType, lexeme: Seq<u8>, line: nat) -> TokenV {
    TokenV { ttype: t, lexeme: lexeme, literal: ValueV::Nil, line: line }
}

/// What one scanning step at `pos` yields: a token to emit (or nothing,
/// for whitespace and comments), the position after the step, and the line
/// after the step. `pos` must be inside the input.
pub open spec fn spec_next(src: Seq<u8>, pos: int, line: nat) -> (Option<TokenV>, int, nat)
    recommends
        0 <= pos < src.len(),
{
    let c = src[pos];
    if c == 40 {
        (Some(plain_tok(TokenType::LeftParen, src.subrange(pos, pos + 1), line)), pos + 1, line)
    } else if c == 41 {
        (Some(plain_tok(TokenType::RightParen, src.subrange(pos, pos + 1), line)), pos + 1, line)
    } else if c == 123 {
        (Some(plain_tok(TokenType::LeftBrace, src.subrange(pos, pos + 1), line)), pos + 1, line)
    } else if c == 125 {
        (Some(plain_tok(TokenType::RightBrace, src.subrange(pos, pos + 1), line)), pos + 1, line)
    } else if c == 44 {
        (Some(plain_tok(TokenType::Comma, src.subrange(pos, pos + 1), line)), pos + 1, line)
    } else if c == 46 {
        (Some(plain_tok(TokenType::Dot, src.subrange(pos, pos + 1), line)), pos + 1, line)
    } else if c == 45 {
        (Some(plain_tok(TokenType::Minus, src.subrange(pos, pos + 1), line)), pos + 1, line)
    } else if c == 43 {
        (Some(plain_tok(TokenType::Plus, src.subrange(pos, pos + 1), line)), pos + 1, line)
    } else if c == 59 {
        (Some(plain_tok(TokenType::Semicolon, src.subrange(pos, pos + 1), line)), pos + 1, line)
    } else if c == 42 {
        (Some(plain_tok(TokenType::Star, src.subrange(pos, pos + 1), line)), pos + 1, line)
    } else if c == 33 {
        if pos + 1 < src.len() && src[pos + 1] == 61 {
            (Some(plain_tok(TokenType::BangEqual, src.subrange(pos, pos + 2), line)), pos + 2, line)
        } else {
            (Some(plain_tok(TokenType::Bang, src.subrange(pos, pos + 1), line)), pos + 1, line)
        }
    } else if c == 61 {
        if pos + 1 < src.len() && src[pos + 1] == 61 {
            (
                Some(plain_tok(TokenType::EqualEqual, src.subrange(pos, pos + 2), line)),
                pos + 2,
                line,
            )
        } else {
            (Some(plain_tok(TokenType::Equal, src.subrange(pos, pos + 1), line)), pos + 1, line)
        }
    } else if c == 60 {
        if pos + 1 < src.len() && src[pos + 1] == 61 {
            (Some(plain_tok(TokenType::LessEqual, src.subrange(pos, pos + 2), line)), pos + 2, line)
        } else {
            (Some(plain_tok(TokenType::Less, src.subrange(pos, pos + 1), line)), pos + 1, line)
        }
    } else if c == 62 {
        if pos + 1 < src.len() && src[pos + 1] == 61 {
            (
                Some(plain_tok(TokenType::GreaterEqual, src.subrange(pos, pos + 2), line)),
                pos + 2,
                line,
            )
        } else {
            (Some(plain_tok(TokenType::Greater, src.subrange(pos, pos + 1), line)), pos + 1, line)
        }
    } else if c == 47 {
        if pos + 1 < src.len() && src[pos + 1] == 47 {
            (None, comment_end(src, pos + 2), line)
        } else {
            (Some(plain_tok(TokenType::Slash, src.subrange(pos, pos + 1), line)), pos + 1, line)
        }
    } else if c == 13 || c == 32 || c == 9 {
        (None, pos + 1, line)
    } else if c == 10 {
        (None, pos + 1, line + 1)
    } else if c == 34 {
        let e = string_end(src, pos + 1);
        let nl = count_newlines(src, pos + 1, e);
        if e < src.len() {
            (
                Some(
                    TokenV {
                        ttype: TokenType::String,
                        lexeme: src.subrange(pos, e + 1),
                        literal: ValueV::Str(src.subrange(pos + 1, e)),
                        line: (line + nl) as nat,
                    },
                ),
                e + 1,
                (line + nl) as nat,
            )
        } else {
            (
                Some(plain_tok(TokenType::Error, src.subrange(pos, e), (line + nl) as nat)),
                e,
                (line + nl) as nat,
            )
        }
    } else if is_digit(c) {
        let we = digit_run_end(src, pos);
        if we < src.len() && src[we] == 46 && we + 1 < src.len() && is_digit(src[we + 1]) {
            let fe = digit_run_end(src, we + 1);
            let m = number_mantissa(src, pos, we, we + 1, fe);
            if m <= i64::MAX {
                (
                    Some(
                        TokenV {
                            ttype: TokenType::Number,
                            lexeme: src.subrange(pos, fe),
                            literal: ValueV::Num(m),
                            line: line,
                        },
                    ),
                    fe,
                    line,
                )
            } else {
                (Some(plain_tok(TokenType::Error, src.subrange(pos, fe), line)), fe, line)
            }
        } else {
            let m = number_mantissa(src, pos, we, we, we);
            if m <= i64::MAX {
                (
                    Some(
                        TokenV {
                            ttype: TokenType::Number,
                            lexeme: src.subrange(pos, we),
                            literal: ValueV::Num(m),
                            line: line,
                        },
                    ),
                    we,
                    line,
                )
            } else {
                (Some(plain_tok(TokenType::Error, src.subrange(pos, we), line)), we, line)
            }
        }
    } else if is_alpha_byte(c) {
        let ie = ident_end(src, pos);
        let word = src.subrange(pos, ie);
        let tok = match keyword_of(word) {
            Some(t) => if t == TokenType::True {
                TokenV { ttype: t, lexeme: word, literal: ValueV::Bool(true), line: line }
            } else if t == TokenType::False {
                TokenV { ttype: t, lexeme: word, literal: ValueV::Bool(false), line: line }
            } else {
                plain_tok(t, word, line)
            },
            None => TokenV {
                ttype: TokenType::Identifier,
                lexeme: word,
                literal: ValueV::Str(word),
                line: line,
            },
        };
        (Some(tok), ie, line)
    } else {
        (Some(plain_tok(TokenType::Error, src.subrange(pos, pos + 1), line)), pos + 1, line)
    }
}

/// The end-of-input token.
pub open spec fn eof_tok(line: nat) -> TokenV {
    TokenV { ttype: TokenType::Eof, lexeme: Seq::empty(), literal: ValueV::Nil, line: line }
}

/// All tokens from `pos` to the end of the input, `Eof` included.
pub open spec fn scan_from(src: Seq<u8>, pos: int, line: nat) -> Seq<TokenV>
    decreases src.len() - pos,
{
    if pos < 0 || pos >= src.len() {
        seq![eof_tok(line)]
    } else {
        let (t, p2, l2) = spec_next(src, pos, line);
        if p2 <= pos || p2 > src.len() {
            seq![eof_tok(l2)]
        } else {
            match t {
                Some(tok) => seq![tok] + scan_from(src, p2, l2),
                None => scan_from(src, p2, l2),
            }
        }
    }
}

/// A scan always yields at least the end-of-input token, and ends with it.
pub proof fn lemma_scan_from_ends_eof(src: Seq<u8>, pos: int, line: nat)
    ensures
        scan_from(src, pos, line).len() >= 1,
        scan_from(src, pos, line).last().ttype == TokenType::Eof,
    decreases src.len() - pos,
{
    if !(pos < 0 || pos >= src.len()) {
        let (t, p2, l2) = spec_next(src, pos, line);
        if !(p2 <= pos || p2 > src.len()) {
            lemma_scan_from_ends_eof(src, p2, l2);
        }
    }
}

/// Every token of a source text, in order, ending with `Eof`: what
/// scanning promises.
pub open spec fn spec_scan(src: Seq<u8>) -> Seq<TokenV> {
    scan_from(src, 0, 1)
}

/// The model of a token sequence, element by element.
pub open spec fn view_tokens(ts: Seq<Token>) -> Seq<TokenV>
    decreases ts.len(),
{
    if ts.len() == 0 {
        Seq::empty()
    } else {
        view_tokens(ts.drop_last()).push(ts.last()@)
    }
}

/// `view_tokens` indexes element by element.
pub proof fn lemma_view_tokens_index(ts: Seq<Token>, i: int)
    requires
        0 <= i < ts.len(),
    ensures
        view_tokens(ts).len() == ts.len(),
        view_tokens(ts)[i] == ts[i]@,
    decreases ts.len(),
{
    lemma_view_tokens_len(ts);
    if i < ts.len() - 1 {
        lemma_view_tokens_index(ts.drop_last(), i);
        assert(ts.drop_last()[i] == ts[i]);
    }
}

/// `view_tokens` preserves length.
pub proof fn lemma_view_tokens_len(ts: Seq<Token>)
    ensures
        view_tokens(ts).len() == ts.len(),
    decreases ts.len(),
{
    if ts.len() > 0 {
        lemma_view_tokens_len(ts.drop_last());
    }
}

/// Digit runs denote non-negative values.
proof fn lemma_digits_val_nonneg(src: Seq<u8>, a: int, b: int)
    ensures
        digits_val(src, a, b) >= 0,
    decreases b - a,
{
    if a < b {
        lemma_digits_val_nonneg(src, a, b - 1);
        assert(digits_val(src, a, b - 1) * 10 >= 0) by (nonlinear_arith)
            requires
                digits_val(src, a, b - 1) >= 0,
        ;
    }
}

/// Mathematical model of the scanner's cursor state.
pub struct LexerV {
    pub source: Seq<u8>,
    pub tokens: Seq<TokenV>,
    pub start: int,
    pub current: int,
    pub line: nat,
}

/// The scanner over one source text.
pub struct Lexer {
    source: Vec<u8>,
    tokens: Vec<Token>,
    start: usize,
    current: usize,
    line: usize,
}

impl View for Lexer {
    type V = LexerV;

    closed spec fn view(&self) -> LexerV {
        LexerV {
            source: self.source@,
            tokens: view_tokens(self.tokens@),
            start: self.start as int,
            current: self.current as int,
            line: self.line as nat,
        }
    }
}

impl Lexer {
    pub closed spec fn wf(&self) -> bool {
        &&& self.start <= self.current <= self.source@.len()
        &&& self.source@.len() < usize::MAX
        &&& 1 <= self.line
        &&& self.line <= self.current + 1
    }

    /// A scanner positioned at the head of `source`, on line one.
    pub fn new(source: Vec<u8>) -> (r: Lexer)
        requires
            source@.len() < usize::MAX,
        ensures
            r.wf(),
            r@.source == source@,
            r@.tokens == Seq::<TokenV>::empty(),
            r@.start == 0,
            r@.current == 0,
            r@.line == 1,
    {
        Lexer { source, tokens: Vec::new(), start: 0, current: 0, line: 1 }
    }

    fn is_at_end(&self) -> (r: bool)
        ensures
            r == (self@.current >= self@.source.len()),
    {
        self.current >= self.source.len()
    }

    fn advance(&mut self) -> (c: u8)
        requires
            old(self).wf(),
            old(self)@.current < old(self)@.source.len(),
        ensures
            final(self).wf(),
            c == old(self)@.source[old(self)@.current],
            final(self)@ == (LexerV { current: old(self)@.current + 1, ..old(self)@ }),
    {
        let c = self.source[self.current];
        self.current = self.current + 1;
        c
    }

    /// Bytes `[a, b)` of the source, as a fresh vector.
    fn copy_src_range(&self, a: usize, b: usize) -> (r: Vec<u8>)
        requires
            a <= b <= self@.source.len(),
        ensures
            r@ == self@.source.subrange(a as int, b as int),
    {
        let mut out: Vec<u8> = Vec::new();
        let mut j: usize = a;
        while j < b
            invariant
                a <= j <= b <= self@.source.len(),
                out@ == self@.source.subrange(a as int, j as int),
            decreases b - j,
        {
            out.push(self.source[j]);
            j = j + 1;
            proof {
                assert(out@ =~= self@.source.subrange(a as int, j as int));
            }
        }
        out
    }

    /// Emits one token whose lexeme is the bytes from `start` to `current`.
    fn add_token(&mut self, ttype: TokenType, literal: LiteralTypes)
        requires
            old(self).wf(),
        ensures
            final(self).wf(),
            final(self)@ == (LexerV {
                tokens: old(self)@.tokens.push(
                    TokenV {
                        ttype: ttype,
                        lexeme: old(self)@.source.subrange(old(self)@.start, old(self)@.current),
                        literal: literal@,
                        line: old(self)@.line,
                    },
                ),
                ..old(self)@
            }),
    {
        let lexeme = self.copy_src_range(self.start, self.current);
        let ghost toks_pre = self.tokens@;
        let line = self.line;
        self.tokens.push(Token { ttype, lexeme, literal, line });
        proof {
            assert(self.tokens@.drop_last() =~= toks_pre);
        }
    }

    /// Consumes the next byte only when it is the expected one.
    fn is_next_expected(&mut self, expected: u8) -> (r: bool)
        requires
            old(self).wf(),
        ensures
            final(self).wf(),
            r == (old(self)@.current < old(self)@.source.len() && old(self)@.source[old(
                self,
            )@.current] == expected),
            final(self)@ == (LexerV {
                current: old(self)@.current + (if r {
                    1int
                } else {
                    0int
                }),
                ..old(self)@
            }),
    {
        if self.is_at_end() {
            return false;
        }
        if self.source[self.current] != expected {
            return false;
        }
        self.current = self.current + 1;
        true
    }

    fn peek(&self) -> (c: u8)
        ensures
            c == (if self@.current < self@.source.len() {
                self@.source[self@.current]
            } else {
                0u8
            }),
    {
        if self.is_at_end() {
            return 0;
        }
        self.source[self.current]
    }

    fn peek_next(&self) -> (c: u8)
        ensures
            c == (if self@.current + 1 < self@.source.len() {
                self@.source[self@.current + 1]
            } else {
                0u8
            }),
    {
        let n = self.source.len();
        if self.current >= n {
            return 0;
        }
        if self.current + 1 >= n {
            return 0;
        }
        self.source[self.current + 1]
    }

    fn is_alpha(&self, c: u8) -> (r: bool)
        ensures
            r == is_alpha_byte(c),
    {
        (65 <= c && c <= 90) || (97 <= c && c <= 122) || c == 95
    }

    /// The keyword this word spells, if any.
    #[verifier::rlimit(40)]
    fn get_keyword(&self, word: &Vec<u8>) -> (r: Option<TokenType>)
        ensures
            r == keyword_of(word@),
    {
        let n = word.len();
        if n == 3 && word[0] == 97 && word[1] == 110 && word[2] == 100 {
            Some(TokenType::And)
        } else if n == 5 && word[0] == 99 && word[1] == 108 && word[2] == 97 && word[3] == 115
            && word[4] == 115 {
            Some(TokenType::Class)
        } else if n == 4 && word[0] == 101 && word[1] == 108 && word[2] == 115 && word[3] == 101 {
            Some(TokenType::Else)
        } else if n == 5 && word[0] == 102 && word[1] == 97 && word[2] == 108 && word[3] == 115
            && word[4] == 101 {
            Some(TokenType::False)
        } else if n == 3 && word[0] == 102 && word[1] == 111 && word[2] == 114 {
            Some(TokenType::For)
        } else if n == 3 && word[0] == 102 && word[1] == 117 && word[2] == 110 {
            Some(TokenType::Fun)
        } else if n == 2 && word[0] == 105 && word[1] == 102 {
            Some(TokenType::If)
        } else if n == 3 && word[0] == 110 && word[1] == 105 && word[2] == 108 {
            Some(TokenType::Nil)
        } else if n == 2 && word[0] == 111 && word[1] == 114 {
            Some(TokenType::Or)
        } else if n == 5 && word[0] == 112 && word[1] == 114 && word[2] == 105 && word[3] == 110
            && word[4] == 116 {
            Some(TokenType::Print)
        } else if n == 6 && word[0] == 114 && word[1] == 101 && word[2] == 116 && word[3] == 117
            && word[4] == 114 && word[5] == 110 {
            Some(TokenType::Return)
        } else if n == 5 && word[0] == 115 && word[1] == 117 && word[2] == 112 && word[3] == 101
            && word[4] == 114 {
            Some(TokenType::Super)
        } else if n == 4 && word[0] == 116 && word[1] == 104 && word[2] == 105 && word[3] == 115 {
            Some(TokenType::This)
        } else if n == 4 && word[0] == 116 && word[1] == 114 && word[2] == 117 && word[3] == 101 {
            Some(TokenType::True)
        } else if n == 3 && word[0] == 118 && word[1] == 97 && word[2] == 114 {
            Some(TokenType::Var)
        } else if n == 5 && word[0] == 119 && word[1] == 104 && word[2] == 105 && word[3] == 108
            && word[4] == 101 {
            Some(TokenType::While)
        } else {
            None
        }
    }
}

proof fn lemma_digit_run_end_bounds(src: Seq<u8>, i: int)
    requires
        0 <= i <= src.len(),
    ensures
        i <= digit_run_end(src, i) <= src.len(),
    decreases src.len() - i,
{
    if i < src.len() && is_digit(src[i]) {
        lemma_digit_run_end_bounds(src, i + 1);
    }
}

proof fn lemma_ident_end_bounds(src: Seq<u8>, i: int)
    requires
        0 <= i <= src.len(),
    ensures
        i <= ident_end(src, i) <= src.len(),
    decreases src.len() - i,
{
    if i < src.len() && (is_alpha_byte(src[i]) || is_digit(src[i])) {
        lemma_ident_end_bounds(src, i + 1);
    }
}

proof fn lemma_string_end_bounds(src: Seq<u8>, i: int)
    requires
        0 <= i <= src.len(),
    ensures
        i <= string_end(src, i) <= src.len(),
    decreases src.len() - i,
{
    if i < src.len() && src[i] != 34 {
        lemma_string_end_bounds(src, i + 1);
    }
}

proof fn lemma_comment_end_bounds(src: Seq<u8>, i: int)
    requires
        0 <= i <= src.len(),
    ensures
        i <= comment_end(src, i) <= src.len(),
    decreases src.len() - i,
{
    if i < src.len() && src[i] != 10 {
        lemma_comment_end_bounds(src, i + 1);
    }
}

/// One scanning step always consumes at least one byte and never runs past
/// the end of the input.
pub proof fn lemma_spec_next_progress(src: Seq<u8>, pos: int, line: nat)
    requires
        0 <= pos < src.len(),
    ensures
        pos < spec_next(src, pos, line).1 <= src.len(),
{
    let c = src[pos];
    if c == 47 && pos + 1 < src.len() && src[pos + 1] == 47 {
        lemma_comment_end_bounds(src, pos + 2);
    }
    if c == 34 {
        lemma_string_end_bounds(src, pos + 1);
    }
    if is_digit(c) {
        assert(digit_run_end(src, pos) == digit_run_end(src, pos + 1));
        lemma_digit_run_end_bounds(src, pos + 1);
        let we = digit_run_end(src, pos);
        if we < src.len() && src[we] == 46 && we + 1 < src.len() && is_digit(src[we + 1]) {
            lemma_digit_run_end_bounds(src, we + 1);
        }
    }
    if is_alpha_byte(c) {
        assert(ident_end(src, pos) == ident_end(src, pos + 1));
        lemma_ident_end_bounds(src, pos + 1);
    }
}

/// A digit run's value is below ten to the run's length.
proof fn lemma_digits_val_bound(src: Seq<u8>, a: int, b: int)
    ensures
        digits_val(src, a, b) < pow10(b - a),
    decreases b - a,
{
    lemma_digits_val_nonneg(src, a, b);
    if a < b {
        lemma_digits_val_bound(src, a, b - 1);
        assert(digits_val(src, a, b - 1) * 10 <= (pow10(b - 1 - a) - 1) * 10) by (nonlinear_arith)
            requires
                digits_val(src, a, b - 1) <= pow10(b - 1 - a) - 1,
        ;
        assert(pow10(b - a) == 10 * pow10(b - a - 1));
    }
}

/// Ten to a non-negative power is positive.
proof fn lemma_pow10_pos(k: int)
    ensures
        pow10(k) >= 1,
    decreases k,
{
    if k > 0 {
        lemma_pow10_pos(k - 1);
        assert(pow10(k) == 10 * pow10(k - 1));
    }
}

/// Ten to a power grows with the power.
proof fn lemma_pow10_mono(j: int, k: int)
    requires
        j <= k,
    ensures
        pow10(j) <= pow10(k),
    decreases k,
{
    if j < k && k > 0 {
        lemma_pow10_mono(j, k - 1);
        lemma_pow10_pos(k - 1);
        assert(pow10(k) == 10 * pow10(k - 1));
    }
}

impl Lexer {
    /// The value of the digit run `[a, b)`, exactly, or word that it
    /// exceeds the representable mantissa range.
    fn parse_digits(&self, a: usize, b: usize) -> (r: (u128, bool))
        requires
            a <= b <= self@.source.len(),
        ensures
            !r.1 ==> r.0 as int == digits_val(self@.source, a as int, b as int) && r.0
                <= 0x7fffffffffffffffu128,
            r.1 ==> digits_val(self@.source, a as int, b as int) > i64::MAX,
    {
        let ghost src = self@.source;
        let mut acc: u128 = 0;
        let mut over: bool = false;
        let mut i: usize = a;
        while i < b
            invariant
                a <= i <= b <= self@.source.len(),
                src == self@.source,
                !over ==> acc as int == digits_val(src, a as int, i as int) && acc
                    <= 0x7fffffffffffffffu128,
                over ==> digits_val(src, a as int, i as int) > i64::MAX,
            decreases b - i,
        {
            let c = self.source[i];
            let d: u128 = if 48 <= c && c <= 57 {
                (c - 48) as u128
            } else {
                0
            };
            proof {
                assert(digits_val(src, a as int, i + 1) == digits_val(src, a as int, i as int)
                    * 10 + (d as int));
            }
            if over {
                proof {
                    lemma_digits_val_nonneg(src, a as int, i as int);
                    assert(digits_val(src, a as int, i as int) * 10 >= digits_val(
                        src,
                        a as int,
                        i as int,
                    )) by (nonlinear_arith)
                        requires
                            digits_val(src, a as int, i as int) >= 0,
                    ;
                }
            } else {
                let next = acc * 10 + d;
                if next > 0x7fffffffffffffffu128 {
                    over = true;
                    proof {
                        assert(digits_val(src, a as int, i + 1) > i64::MAX);
                    }
                } else {
                    acc = next;
                }
            }
            i = i + 1;
        }
        (acc, over)
    }

    /// Scans the remainder of a number lexeme: the leading digit is already
    /// consumed. A value beyond the representable mantissa range becomes an
    /// in-band `Error` token.
    #[verifier::rlimit(100)]
    fn number(&mut self)
        requires
            old(self).wf(),
            old(self)@.start + 1 == old(self)@.current,
            0 <= old(self)@.start < old(self)@.source.len(),
            is_digit(old(self)@.source[old(self)@.start]),
        ensures
            final(self).wf(),
            final(self)@.source == old(self)@.source,
            final(self)@.start == old(self)@.start,
            final(self)@.line == old(self)@.line,
            ({
                let src = old(self)@.source;
                let pos = old(self)@.start;
                let line = old(self)@.line;
                let we = digit_run_end(src, pos);
                if we < src.len() && src[we] == 46 && we + 1 < src.len() && is_digit(
                    src[we + 1],
                ) {
                    let fe = digit_run_end(src, we + 1);
                    let m = number_mantissa(src, pos, we, we + 1, fe);
                    &&& final(self)@.current == fe
                    &&& if m <= i64::MAX {
                        final(self)@.tokens == old(self)@.tokens.push(
                            TokenV {
                                ttype: TokenType::Number,
                                lexeme: src.subrange(pos, fe),
                                literal: ValueV::Num(m),
                                line: line,
                            },
                        )
                    } else {
                        final(self)@.tokens == old(self)@.tokens.push(
                            plain_tok(TokenType::Error, src.subrange(pos, fe), line),
                        )
                    }
                } else {
                    let m = number_mantissa(src, pos, we, we, we);
                    &&& final(self)@.current == we
                    &&& if m <= i64::MAX {
                        final(self)@.tokens == old(self)@.tokens.push(
                            TokenV {
                                ttype: TokenType::Number,
                                lexeme: src.subrange(pos, we),
                                literal: ValueV::Num(m),
                                line: line,
                            },
                        )
                    } else {
                        final(self)@.tokens == old(self)@.tokens.push(
                            plain_tok(TokenType::Error, src.subrange(pos, we), line),
                        )
                    }
                }
            }),
    {
        let ghost src = self@.source;
        let ghost pos = self@.start as int;
        proof {
            assert(digit_run_end(src, pos) == digit_run_end(src, pos + 1));
        }
        while self.current < self.source.len() && 48 <= self.source[self.current]
            && self.source[self.current] <= 57
            invariant
                self.wf(),
                src == self@.source,
                pos == self@.start,
                self@.line == old(self)@.line,
                self@.tokens == old(self)@.tokens,
                pos < self@.current <= self@.source.len(),
                digit_run_end(src, pos) == digit_run_end(src, self@.current),
            decreases self@.source.len() - self@.current,
        {
            self.current = self.current + 1;
        }
        let we = self.current;
        proof {
            assert(digit_run_end(src, we as int) == we as int);
        }
        let has_frac = self.peek() == 46 && 48 <= self.peek_next() && self.peek_next() <= 57;
        let fe: usize;
        let fs: usize;
        if has_frac {
            self.current = self.current + 2;
            fs = we + 1;
            proof {
                assert(digit_run_end(src, fs as int) == digit_run_end(src, fs + 1));
            }
            while self.current < self.source.len() && 48 <= self.source[self.current]
                && self.source[self.current] <= 57
                invariant
                    self.wf(),
                    src == self@.source,
                    pos == self@.start,
                    self@.line == old(self)@.line,
                    self@.tokens == old(self)@.tokens,
                    fs == we + 1,
                    fs < self@.current <= self@.source.len(),
                    digit_run_end(src, fs as int) == digit_run_end(src, self@.current),
                decreases self@.source.len() - self@.current,
            {
                self.current = self.current + 1;
            }
            fe = self.current;
            proof {
                assert(digit_run_end(src, fe as int) == fe as int);
            }
        } else {
            fs = we;
            fe = we;
        }
        let used: usize = if fe - fs > 6 {
            fs + 6
        } else {
            fe
        };
        let (wv, over_w) = self.parse_digits(self.start, we);
        let (fv, over_f) = self.parse_digits(fs, used);
        proof {
            lemma_digits_val_bound(src, fs as int, used as int);
            lemma_digits_val_nonneg(src, fs as int, used as int);
            lemma_digits_val_nonneg(src, pos, we as int);
            lemma_pow10_pos(6 - (used - fs));
            reveal_with_fuel(pow10, 8);
        }
        let pad: u128 = if used - fs == 0 {
            1000000
        } else if used - fs == 1 {
            100000
        } else if used - fs == 2 {
            10000
        } else if used - fs == 3 {
            1000
        } else if used - fs == 4 {
            100
        } else if used - fs == 5 {
            10
        } else {
            1
        };
        let ghost m = number_mantissa(src, pos, we as int, fs as int, fe as int);
        proof {
            lemma_pow10_mono(used - fs, 6);
            assert(pow10(6) == 1000000) by {
                reveal_with_fuel(pow10, 8);
            }
            assert(digits_val(src, fs as int, used as int) < 1000000);
            assert(!over_f);
            assert(fv < 1000000);
            assert(pad as int == pow10(6 - (used - fs))) by {
                reveal_with_fuel(pow10, 8);
            }
        }
        proof {
            assert(fv * pad <= 999999 * 1000000) by (nonlinear_arith)
                requires
                    fv < 1000000u128,
                    pad <= 1000000u128,
            ;
        }
        let fvp: u128 = fv * pad;
        let fits: bool;
        let mut mantissa: u128 = 0;
        if over_w {
            fits = false;
            proof {
                assert(digits_val(src, pos, we as int) * 1000000 >= digits_val(src, pos, we as int))
                    by (nonlinear_arith)
                    requires
                        digits_val(src, pos, we as int) >= 0,
                ;
                assert(fvp as int == digits_val(src, fs as int, used as int) * pow10(
                    6 - (used - fs),
                ));
                assert(fvp >= 0);
                assert(m > i64::MAX);
            }
        } else {
            let mu: u128 = wv * 1000000 + fvp;
            proof {
                assert(wv * 1000000 <= 0x7fffffffffffffffu128 * 1000000) by (nonlinear_arith)
                    requires
                        wv <= 0x7fffffffffffffffu128,
                ;
                assert(mu as int == m);
            }
            if mu <= 0x7fffffffffffffffu128 {
                fits = true;
                mantissa = mu;
            } else {
                fits = false;
            }
        }
        if fits {
            let n = Num { mantissa: mantissa as i64 };
            self.add_token(TokenType::Number, LiteralTypes::Number(n));
        } else {
            self.add_token(TokenType::Error, LiteralTypes::Nil);
        }
    }

    /// Scans the remainder of a string literal: the opening quote is
    /// already consumed. Embedded newlines count toward the line number;
    /// input ending before the closing quote yields an `Error` token whose
    /// lexeme is everything consumed.
    #[verifier::rlimit(60)]
    fn string(&mut self)
        requires
            old(self).wf(),
            old(self)@.start + 1 == old(self)@.current,
            0 <= old(self)@.start < old(self)@.source.len(),
            old(self)@.source[old(self)@.start] == 34,
        ensures
            final(self).wf(),
            final(self)@.source == old(self)@.source,
            final(self)@.start == old(self)@.start,
            ({
                let src = old(self)@.source;
                let pos = old(self)@.start;
                let e = string_end(src, old(self)@.current);
                let nl = count_newlines(src, old(self)@.current, e);
                let l2 = (old(self)@.line + nl) as nat;
                &&& final(self)@.line == l2
                &&& if e < src.len() {
                    final(self)@.current == e + 1 && final(self)@.tokens == old(
                        self,
                    )@.tokens.push(
                        TokenV {
                            ttype: TokenType::String,
                            lexeme: src.subrange(pos, e + 1),
                            literal: ValueV::Str(src.subrange(pos + 1, e)),
                            line: l2,
                        },
                    )
                } else {
                    final(self)@.current == e && final(self)@.tokens == old(self)@.tokens.push(
                        plain_tok(TokenType::Error, src.subrange(pos, e), l2),
                    )
                }
            }),
    {
        let ghost src = self@.source;
        let ghost c0 = self@.current;
        let ghost l0 = self@.line;
        while self.current < self.source.len() && self.source[self.current] != 34
            invariant
                self.wf(),
                src == self@.source,
                old(self)@.start == self@.start,
                self@.tokens == old(self)@.tokens,
                c0 == old(self)@.current,
                l0 == old(self)@.line,
                c0 <= self@.current <= self@.source.len(),
                string_end(src, c0) == string_end(src, self@.current),
                self@.line == l0 + count_newlines(src, c0, self@.current),
            decreases self@.source.len() - self@.current,
        {
            proof {
                assert(count_newlines(src, c0, self@.current + 1) == count_newlines(
                    src,
                    c0,
                    self@.current,
                ) + (if src[self@.current] == 10 {
                    1nat
                } else {
                    0nat
                }));
            }
            if self.source[self.current] == 10 {
                self.line = self.line + 1;
            }
            self.current = self.current + 1;
        }
        proof {
            assert(string_end(src, self@.current as int) == self@.current);
        }
        if self.current < self.source.len() {
            self.current = self.current + 1;
            let lit = self.copy_src_range(self.start + 1, self.current - 1);
            self.add_token(TokenType::String, LiteralTypes::String(lit));
        } else {
            self.add_token(TokenType::Error, LiteralTypes::Nil);
        }
    }

    /// Scans the remainder of an identifier or keyword: the leading letter
    /// is already consumed.
    #[verifier::rlimit(60)]
    fn identifier(&mut self)
        requires
            old(self).wf(),
            old(self)@.start + 1 == old(self)@.current,
            0 <= old(self)@.start < old(self)@.source.len(),
            is_alpha_byte(old(self)@.source[old(self)@.start]),
        ensures
            final(self).wf(),
            final(self)@.source == old(self)@.source,
            final(self)@.start == old(self)@.start,
            final(self)@.line == old(self)@.line,
            ({
                let src = old(self)@.source;
                let pos = old(self)@.start;
                let line = old(self)@.line;
                let ie = ident_end(src, pos);
                let word = src.subrange(pos, ie);
                &&& final(self)@.current == ie
                &&& final(self)@.tokens == old(self)@.tokens.push(
                    match keyword_of(word) {
                        Some(t) => if t == TokenType::True {
                            TokenV {
                                ttype: t,
                                lexeme: word,
                                literal: ValueV::Bool(true),
                                line: line,
                            }
                        } else if t == TokenType::False {
                            TokenV {
                                ttype: t,
                                lexeme: word,
                                literal: ValueV::Bool(false),
                                line: line,
                            }
                        } else {
                            plain_tok(t, word, line)
                        },
                        None => TokenV {
                            ttype: TokenType::Identifier,
                            lexeme: word,
                            literal: ValueV::Str(word),
                            line: line,
                        },
                    },
                )
            }),
    {
        let ghost src = self@.source;
        let ghost pos = self@.start as int;
        proof {
            assert(ident_end(src, pos) == ident_end(src, pos + 1));
        }
        while self.current < self.source.len() && (self.is_alpha(self.source[self.current]) || (48
            <= self.source[self.current] && self.source[self.current] <= 57))
            invariant
                self.wf(),
                src == self@.source,
                pos == self@.start,
                self@.line == old(self)@.line,
                self@.tokens == old(self)@.tokens,
                pos < self@.current <= self@.source.len(),
                ident_end(src, pos) == ident_end(src, self@.current),
            decreases self@.source.len() - self@.current,
        {
            self.current = self.current + 1;
        }
        proof {
            assert(ident_end(src, self@.current as int) == self@.current);
        }
        let word = self.copy_src_range(self.start, self.current);
        match self.get_keyword(&word) {
            Some(t) => {
                if t == TokenType::True {
                    self.add_token(t, LiteralTypes::Bool(true));
                } else if t == TokenType::False {
                    self.add_token(t, LiteralTypes::Bool(false));
                } else {
                    self.add_token(t, LiteralTypes::Nil);
                }
            },
            None => {
                self.add_token(TokenType::Identifier, LiteralTypes::String(word));
            },
        }
    }

    /// Scans one lexeme starting at `start == current`, emitting at most
    /// one token and advancing past everything the lexeme consumed.
    #[verifier::rlimit(100)]
    fn scan_token(&mut self)
        requires
            old(self).wf(),
            old(self)@.start == old(self)@.current,
            old(self)@.current < old(self)@.source.len(),
        ensures
            final(self).wf(),
            final(self)@.source == old(self)@.source,
            ({
                let (t, p2, l2) = spec_next(
                    old(self)@.source,
                    old(self)@.current,
                    old(self)@.line,
                );
                &&& final(self)@.current == p2
                &&& final(self)@.line == l2
                &&& final(self)@.tokens == old(self)@.tokens + (match t {
                    Some(tok) => seq![tok],
                    None => Seq::<TokenV>::empty(),
                })
            }),
    {
        let ghost toks0 = self@.tokens;
        let c = self.advance();
        if c == 40 {
            self.add_token(TokenType::LeftParen, LiteralTypes::Nil);
        } else if c == 41 {
            self.add_token(TokenType::RightParen, LiteralTypes::Nil);
        } else if c == 123 {
            self.add_token(TokenType::LeftBrace, LiteralTypes::Nil);
        } else if c == 125 {
            self.add_token(TokenType::RightBrace, LiteralTypes::Nil);
        } else if c == 44 {
            self.add_token(TokenType::Comma, LiteralTypes::Nil);
        } else if c == 46 {
            self.add_token(TokenType::Dot, LiteralTypes::Nil);
        } else if c == 45 {
            self.add_token(TokenType::Minus, LiteralTypes::Nil);
        } else if c == 43 {
            self.add_token(TokenType::Plus, LiteralTypes::Nil);
        } else if c == 59 {
            self.add_token(TokenType::Semicolon, LiteralTypes::Nil);
        } else if c == 42 {
            self.add_token(TokenType::Star, LiteralTypes::Nil);
        } else if c == 33 {
            let eq = self.is_next_expected(61);
            self.add_token(
                if eq {
                    TokenType::BangEqual
                } else {
                    TokenType::Bang
                },
                LiteralTypes::Nil,
            );
        } else if c == 61 {
            let eq = self.is_next_expected(61);
            self.add_token(
                if eq {
                    TokenType::EqualEqual
                } else {
                    TokenType::Equal
                },
                LiteralTypes::Nil,
            );
        } else if c == 60 {
            let eq = self.is_next_expected(61);
            self.add_token(
                if eq {
                    TokenType::LessEqual
                } else {
                    TokenType::Less
                },
                LiteralTypes::Nil,
            );
        } else if c == 62 {
            let eq = self.is_next_expected(61);
            self.add_token(
                if eq {
                    TokenType::GreaterEqual
                } else {
                    TokenType::Greater
                },
                LiteralTypes::Nil,
            );
        } else if c == 47 {
            let slash = self.is_next_expected(47);
            if slash {
                let ghost src = self@.source;
                let ghost c0 = self@.current;
                while self.current < self.source.len() && self.source[self.current] != 10
                    invariant
                        self.wf(),
                        src == self@.source,
                        self@.tokens == toks0,
                        self@.line == old(self)@.line,
                        self@.start == old(self)@.start,
                        c0 <= self@.current <= self@.source.len(),
                        comment_end(src, c0) == comment_end(src, self@.current),
                    decreases self@.source.len() - self@.current,
                {
                    self.current = self.current + 1;
                }
                proof {
                    assert(comment_end(src, self@.current as int) == self@.current);
                    assert(self@.tokens =~= toks0 + Seq::<TokenV>::empty());
                }
            } else {
                self.add_token(TokenType::Slash, LiteralTypes::Nil);
            }
        } else if c == 13 || c == 32 || c == 9 {
            proof {
                assert(self@.tokens =~= toks0 + Seq::<TokenV>::empty());
            }
        } else if c == 10 {
            self.line = self.line + 1;
            proof {
                assert(self@.tokens =~= toks0 + Seq::<TokenV>::empty());
            }
        } else if c == 34 {
            self.string();
        } else if 48 <= c && c <= 57 {
            self.number();
        } else if self.is_alpha(c) {
            self.identifier();
        } else {
            self.add_token(TokenType::Error, LiteralTypes::Nil);
        }
        proof {
            let (t, p2, l2) = spec_next(old(self)@.source, old(self)@.current, old(self)@.line);
            match t {
                Some(tok) => {
                    assert(final(self)@.tokens =~= toks0 + seq![tok]);
                },
                None => {},
            }
        }
    }

    /// Scans the whole source from the cursor's position: every remaining
    /// token in order, closed by a single `Eof` token. The lexer keeps the
    /// tokens too; the returned vector is what [`spec_scan`] describes when
    /// the lexer is fresh.
    pub fn scan_tokens(&mut self) -> (r: Vec<Token>)
        requires
            old(self).wf(),
        ensures
            final(self).wf(),
            view_tokens(r@) == old(self)@.tokens + scan_from(
                old(self)@.source,
                old(self)@.current,
                old(self)@.line,
            ),
            view_tokens(r@) == final(self)@.tokens,
    {
        let ghost src = self@.source;
        while self.current < self.source.len()
            invariant
                self.wf(),
                src == self@.source,
                old(self)@.tokens + scan_from(src, old(self)@.current, old(self)@.line)
                    == self@.tokens + scan_from(src, self@.current, self@.line),
            decreases self@.source.len() - self@.current,
        {
            let ghost pre = self@;
            self.start = self.current;
            self.scan_token();
            proof {
                lemma_spec_next_progress(src, pre.current, pre.line);
                let (t, p2, l2) = spec_next(src, pre.current, pre.line);
                assert(scan_from(src, pre.current, pre.line) == (match t {
                    Some(tok) => seq![tok] + scan_from(src, p2, l2),
                    None => scan_from(src, p2, l2),
                }));
                match t {
                    Some(tok) => {
                        assert(pre.tokens + (seq![tok] + scan_from(src, p2, l2)) =~= (pre.tokens
                            + seq![tok]) + scan_from(src, p2, l2));
                        assert(self@.tokens =~= pre.tokens + seq![tok]);
                    },
                    None => {
                        assert(self@.tokens =~= pre.tokens);
                    },
                }
            }
        }
        let ghost toks_pre = self.tokens@;
        let line = self.line;
        self.tokens.push(Token { ttype: TokenType::Eof, lexeme: Vec::new(), literal: LiteralTypes::Nil, line });
        proof {
            assert(self.tokens@.drop_last() =~= toks_pre);
            assert(self.tokens@.last()@ == eof_tok(self@.line));
            assert(scan_from(src, self@.current as int, self@.line) == seq![eof_tok(self@.line)]);
            assert(view_tokens(self.tokens@) =~= view_tokens(toks_pre) + seq![eof_tok(self@.line)]);
        }
        let mut out: Vec<Token> = Vec::new();
        let mut i: usize = 0;
        proof {
            crate::lexer::lemma_view_tokens_len(self.tokens@);
        }
        while i < self.tokens.len()
            invariant
                i <= self.tokens@.len(),
                view_tokens(out@) =~= view_tokens(self.tokens@).take(i as int),
                view_tokens(self.tokens@).len() == self.tokens@.len(),
            decreases self.tokens@.len() - i,
        {
            let ghost out_pre = out@;
            let t = crate::token::clone_token(&self.tokens[i]);
            out.push(t);
            proof {
                assert(out@.drop_last() =~= out_pre);
                lemma_view_tokens_index(self.tokens@, i as int);
                assert(view_tokens(out@) =~= view_tokens(out_pre).push(self.tokens@[i as int]@));
                assert(view_tokens(self.tokens@).take(i + 1) =~= view_tokens(
                    self.tokens@,
                ).take(i as int).push(view_tokens(self.tokens@)[i as int]));
            }
            i = i + 1;
        }
        proof {
            assert(view_tokens(self.tokens@).take(i as int) =~= view_tokens(self.tokens@));
        }
        out
    }
}

} // verus!
