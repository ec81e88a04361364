//! The recursive-descent parser: tokens to syntax trees.
//!
//! One token of lookahead, no backtracking: every production consumes input
//! monotonically and fails at the first malformed construct with a
//! positioned error. The grammar, lowest to highest precedence:
//! assignment, `or`, `and`, equality, comparison, term, factor, unary,
//! primary; statements cover `print`, blocks, `if`, `while`, `for` (sugar
//! over `while`), variable declarations and expression statements. Each
//! `p_*` specification function is the meaning of one production; the
//! parser's methods return exactly what they describe.

use vstd::prelude::*;

use crate::ast::Assign;
use crate::ast::Binary;
use crate::ast::Comparison;
use crate::ast::Expr;
use crate::ast::ExprV;
use crate::ast::Grouping;
use crate::ast::Logical;
use crate::ast::Unary;
use crate::ast::Variable;
use crate::lexer::Lexer;
use crate::lexer::spec_scan;
use crate::lexer::lemma_scan_from_ends_eof;
use crate::lexer::view_tokens;
use crate::stmt::Block;
use crate::stmt::Expression;
use crate::stmt::If;
use crate::stmt::Print;
use crate::stmt::Stmt;
use crate::stmt::StmtV;
use crate::stmt::Var;
use crate::stmt::While;
use crate::stmt::view_stmts;
use crate::token::LiteralTypes;
use crate::token::Token;
use crate::token::TokenType;
use crate::token::TokenV;
use crate::token::ValueV;
use crate::token::clone_token;

verus! {

/// Where parsing stopped and why.
#[derive(Debug, PartialEq)]
pub struct ParseError {
    pub line: usize,
    pub kind: ParseErrorKind,
}

#[derive(Clone, Copy, Debug, PartialEq, Eq, Structural)]
pub enum ParseErrorKind {
    ExpectedVariableName,
    ExpectedSemicolonAfterVarDecl,
    ExpectedSemicolonAfterValue,
    ExpectedRightBraceAfterBlock,
    ExpectedRightParenAfterExpression,
    InvalidAssignmentTarget,
    ExpectedExpression,
    ExpectedLeftParenAfterIf,
    ExpectedLeftParenAfterWhile,
    ExpectedLeftParenAfterFor,
    ExpectedRightParenAfterCondition,
    ExpectedSemicolonAfterLoopCondition,
    ExpectedRightParenAfterForClauses,
}

/// Mathematical model of a parse failure.
pub struct ParseErrV {
    pub line: nat,
    pub kind: ParseErrorKind,
}

impl View for ParseError {
    type V = ParseErrV;

    open spec fn view(&self) -> ParseErrV {
        ParseErrV { line: self.line as nat, kind: self.kind }
    }
}

/// The token at `pos`, or a harmless end marker when out of range.
pub open spec fn tk(toks: Seq<TokenV>, pos: int) -> TokenV {
    if 0 <= pos < toks.len() {
        toks[pos]
    } else {
        TokenV { ttype: TokenType::Eof, lexeme: Seq::empty(), literal: ValueV::Nil, line: 0 }
    }
}

/// Whether the cursor sits at the end-of-input token.
pub open spec fn at_end(toks: Seq<TokenV>, pos: int) -> bool {
    pos >= toks.len() || tk(toks, pos).ttype == TokenType::Eof
}

/// Whether the next token has the given kind (never true at the end).
pub open spec fn check_at(toks: Seq<TokenV>, pos: int, tt: TokenType) -> bool {
    !at_end(toks, pos) && tk(toks, pos).ttype == tt
}

/// A failure positioned at the token under the cursor.
pub open spec fn err_at(toks: Seq<TokenV>, pos: int, kind: ParseErrorKind) -> ParseErrV {
    ParseErrV { line: tk(toks, pos).line, kind: kind }
}

/// `primary → NUMBER | STRING | "true" | "false" | "nil" | IDENT | "(" expression ")"`.
pub open spec fn p_primary(toks: Seq<TokenV>, pos: int) -> Result<(ExprV, int), ParseErrV>
    decreases toks.len() - pos, 0int,
{
    if check_at(toks, pos, TokenType::True) || check_at(toks, pos, TokenType::False) || check_at(
        toks,
        pos,
        TokenType::Nil,
    ) || check_at(toks, pos, TokenType::Number) || check_at(toks, pos, TokenType::String) {
        Ok((ExprV::Literal(tk(toks, pos).literal), pos + 1))
    } else if check_at(toks, pos, TokenType::Identifier) {
        Ok((ExprV::Variable(tk(toks, pos)), pos + 1))
    } else if check_at(toks, pos, TokenType::LeftParen) {
        match p_expression(toks, pos + 1) {
            Ok((e, p2)) => if check_at(toks, p2, TokenType::RightParen) {
                Ok((ExprV::Grouping(Box::new(e)), p2 + 1))
            } else {
                Err(err_at(toks, p2, ParseErrorKind::ExpectedRightParenAfterExpression))
            },
            Err(e) => Err(e),
        }
    } else {
        Err(err_at(toks, pos, ParseErrorKind::ExpectedExpression))
    }
}

/// `unary → ("!" | "-") unary | primary`.
pub open spec fn p_unary(toks: Seq<TokenV>, pos: int) -> Result<(ExprV, int), ParseErrV>
    decreases toks.len() - pos, 1int,
{
    if check_at(toks, pos, TokenType::Bang) || check_at(toks, pos, TokenType::Minus) {
        match p_unary(toks, pos + 1) {
            Ok((r, p2)) => Ok((ExprV::Unary { op: tk(toks, pos), right: Box::new(r) }, p2)),
            Err(e) => Err(e),
        }
    } else {
        p_primary(toks, pos)
    }
}

/// The left-folding tail of `factor → unary (("/" | "*") unary)*`.
pub open spec fn p_factor_tail(toks: Seq<TokenV>, left: ExprV, pos: int) -> Result<
    (ExprV, int),
    ParseErrV,
>
    decreases toks.len() - pos, 2int,
{
    if check_at(toks, pos, TokenType::Slash) || check_at(toks, pos, TokenType::Star) {
        match p_unary(toks, pos + 1) {
            Ok((r, p2)) => if pos < p2 <= toks.len() {
                p_factor_tail(
                    toks,
                    ExprV::Binary {
                        left: Box::new(left),
                        op: tk(toks, pos),
                        right: Box::new(r),
                    },
                    p2,
                )
            } else {
                Err(err_at(toks, p2, ParseErrorKind::ExpectedExpression))
            },
            Err(e) => Err(e),
        }
    } else {
        Ok((left, pos))
    }
}

pub open spec fn p_factor(toks: Seq<TokenV>, pos: int) -> Result<(ExprV, int), ParseErrV>
    decreases toks.len() - pos, 3int,
{
    match p_unary(toks, pos) {
        Ok((e, p2)) => if pos < p2 <= toks.len() {
            p_factor_tail(toks, e, p2)
        } else {
            Err(err_at(toks, p2, ParseErrorKind::ExpectedExpression))
        },
        Err(e) => Err(e),
    }
}

/// The left-folding tail of `term → factor (("-" | "+") factor)*`.
pub open spec fn p_term_tail(toks: Seq<TokenV>, left: ExprV, pos: int) -> Result<
    (ExprV, int),
    ParseErrV,
>
    decreases toks.len() - pos, 4int,
{
    if check_at(toks, pos, TokenType::Plus) || check_at(toks, pos, TokenType::Minus) {
        match p_factor(toks, pos + 1) {
            Ok((r, p2)) => if pos < p2 <= toks.len() {
                p_term_tail(
                    toks,
                    ExprV::Binary {
                        left: Box::new(left),
                        op: tk(toks, pos),
                        right: Box::new(r),
                    },
                    p2,
                )
            } else {
                Err(err_at(toks, p2, ParseErrorKind::ExpectedExpression))
            },
            Err(e) => Err(e),
        }
    } else {
        Ok((left, pos))
    }
}

pub open spec fn p_term(toks: Seq<TokenV>, pos: int) -> Result<(ExprV, int), ParseErrV>
    decreases toks.len() - pos, 5int,
{
    match p_factor(toks, pos) {
        Ok((e, p2)) => if pos < p2 <= toks.len() {
            p_term_tail(toks, e, p2)
        } else {
            Err(err_at(toks, p2, ParseErrorKind::ExpectedExpression))
        },
        Err(e) => Err(e),
    }
}

/// The left-folding tail of `comparison → term ((">" | ">=" | "<" | "<=") term)*`.
pub open spec fn p_comparison_tail(toks: Seq<TokenV>, left: ExprV, pos: int) -> Result<
    (ExprV, int),
    ParseErrV,
>
    decreases toks.len() - pos, 6int,
{
    if check_at(toks, pos, TokenType::Greater) || check_at(toks, pos, TokenType::GreaterEqual)
        || check_at(toks, pos, TokenType::Less) || check_at(toks, pos, TokenType::LessEqual) {
        match p_term(toks, pos + 1) {
            Ok((r, p2)) => if pos < p2 <= toks.len() {
                p_comparison_tail(
                    toks,
                    ExprV::Comparison {
                        left: Box::new(left),
                        op: tk(toks, pos),
                        right: Box::new(r),
                    },
                    p2,
                )
            } else {
                Err(err_at(toks, p2, ParseErrorKind::ExpectedExpression))
            },
            Err(e) => Err(e),
        }
    } else {
        Ok((left, pos))
    }
}

pub open spec fn p_comparison(toks: Seq<TokenV>, pos: int) -> Result<(ExprV, int), ParseErrV>
    decreases toks.len() - pos, 7int,
{
    match p_term(toks, pos) {
        Ok((e, p2)) => if pos < p2 <= toks.len() {
            p_comparison_tail(toks, e, p2)
        } else {
            Err(err_at(toks, p2, ParseErrorKind::ExpectedExpression))
        },
        Err(e) => Err(e),
    }
}

/// The left-folding tail of `equality → comparison (("!=" | "==") comparison)*`.
pub open spec fn p_equality_tail(toks: Seq<TokenV>, left: ExprV, pos: int) -> Result<
    (ExprV, int),
    ParseErrV,
>
    decreases toks.len() - pos, 8int,
{
    if check_at(toks, pos, TokenType::BangEqual) || check_at(toks, pos, TokenType::EqualEqual) {
        match p_comparison(toks, pos + 1) {
            Ok((r, p2)) => if pos < p2 <= toks.len() {
                p_equality_tail(
                    toks,
                    ExprV::Comparison {
                        left: Box::new(left),
                        op: tk(toks, pos),
                        right: Box::new(r),
                    },
                    p2,
                )
            } else {
                Err(err_at(toks, p2, ParseErrorKind::ExpectedExpression))
            },
            Err(e) => Err(e),
        }
    } else {
        Ok((left, pos))
    }
}

pub open spec fn p_equality(toks: Seq<TokenV>, pos: int) -> Result<(ExprV, int), ParseErrV>
    decreases toks.len() - pos, 9int,
{
    match p_comparison(toks, pos) {
        Ok((e, p2)) => if pos < p2 <= toks.len() {
            p_equality_tail(toks, e, p2)
        } else {
            Err(err_at(toks, p2, ParseErrorKind::ExpectedExpression))
        },
        Err(e) => Err(e),
    }
}

/// The left-folding tail of `logic_and → equality ("and" equality)*`.
pub open spec fn p_logic_and_tail(toks: Seq<TokenV>, left: ExprV, pos: int) -> Result<
    (ExprV, int),
    ParseErrV,
>
    decreases toks.len() - pos, 10int,
{
    if check_at(toks, pos, TokenType::And) {
        match p_equality(toks, pos + 1) {
            Ok((r, p2)) => if pos < p2 <= toks.len() {
                p_logic_and_tail(
                    toks,
                    ExprV::Logical {
                        left: Box::new(left),
                        op: tk(toks, pos),
                        right: Box::new(r),
                    },
                    p2,
                )
            } else {
                Err(err_at(toks, p2, ParseErrorKind::ExpectedExpression))
            },
            Err(e) => Err(e),
        }
    } else {
        Ok((left, pos))
    }
}

pub open spec fn p_logic_and(toks: Seq<TokenV>, pos: int) -> Result<(ExprV, int), ParseErrV>
    decreases toks.len() - pos, 11int,
{
    match p_equality(toks, pos) {
        Ok((e, p2)) => if pos < p2 <= toks.len() {
            p_logic_and_tail(toks, e, p2)
        } else {
            Err(err_at(toks, p2, ParseErrorKind::ExpectedExpression))
        },
        Err(e) => Err(e),
    }
}

/// The left-folding tail of `logic_or → logic_and ("or" logic_and)*`.
pub open spec fn p_logic_or_tail(toks: Seq<TokenV>, left: ExprV, pos: int) -> Result<
    (ExprV, int),
    ParseErrV,
>
    decreases toks.len() - pos, 12int,
{
    if check_at(toks, pos, TokenType::Or) {
        match p_logic_and(toks, pos + 1) {
            Ok((r, p2)) => if pos < p2 <= toks.len() {
                p_logic_or_tail(
                    toks,
                    ExprV::Logical {
                        left: Box::new(left),
                        op: tk(toks, pos),
                        right: Box::new(r),
                    },
                    p2,
                )
            } else {
                Err(err_at(toks, p2, ParseErrorKind::ExpectedExpression))
            },
            Err(e) => Err(e),
        }
    } else {
        Ok((left, pos))
    }
}

pub open spec fn p_logic_or(toks: Seq<TokenV>, pos: int) -> Result<(ExprV, int), ParseErrV>
    decreases toks.len() - pos, 13int,
{
    match p_logic_and(toks, pos) {
        Ok((e, p2)) => if pos < p2 <= toks.len() {
            p_logic_or_tail(toks, e, p2)
        } else {
            Err(err_at(toks, p2, ParseErrorKind::ExpectedExpression))
        },
        Err(e) => Err(e),
    }
}

/// `assignment → IDENT "=" assignment | logic_or`: the target must reduce
/// to a bare variable, checked after the fact as the original grammar has
/// it, with the failure positioned at the `=` token.
pub open spec fn p_assignment(toks: Seq<TokenV>, pos: int) -> Result<(ExprV, int), ParseErrV>
    decreases toks.len() - pos, 14int,
{
    match p_logic_or(toks, pos) {
        Ok((e, p2)) => if check_at(toks, p2, TokenType::Equal) {
            if pos <= p2 < toks.len() {
                match p_assignment(toks, p2 + 1) {
                    Ok((v, p3)) => match e {
                        ExprV::Variable(name) => Ok(
                            (ExprV::Assign { name: name, value: Box::new(v) }, p3),
                        ),
                        _ => Err(err_at(toks, p2, ParseErrorKind::InvalidAssignmentTarget)),
                    },
                    Err(er) => Err(er),
                }
            } else {
                Err(err_at(toks, p2, ParseErrorKind::InvalidAssignmentTarget))
            }
        } else {
            Ok((e, p2))
        },
        Err(e) => Err(e),
    }
}

/// `expression → assignment`.
pub open spec fn p_expression(toks: Seq<TokenV>, pos: int) -> Result<(ExprV, int), ParseErrV>
    decreases toks.len() - pos, 15int,
{
    p_assignment(toks, pos)
}

/// The body of `declaration → "var" IDENT ("=" expression)? ";"`, entered
/// just past the `var` keyword. A missing initializer defaults to `nil`.
pub open spec fn p_var_decl_body(toks: Seq<TokenV>, pos: int) -> Result<(StmtV, int), ParseErrV>
    decreases toks.len() - pos, 19int,
{
    if !check_at(toks, pos, TokenType::Identifier) {
        Err(err_at(toks, pos, ParseErrorKind::ExpectedVariableName))
    } else {
        let name = tk(toks, pos);
        if check_at(toks, pos + 1, TokenType::Equal) {
            match p_expression(toks, pos + 2) {
                Ok((e, p2)) => if check_at(toks, p2, TokenType::Semicolon) {
                    Ok((StmtV::Var { name: name, initializer: e }, p2 + 1))
                } else {
                    Err(err_at(toks, p2, ParseErrorKind::ExpectedSemicolonAfterVarDecl))
                },
                Err(e) => Err(e),
            }
        } else {
            if check_at(toks, pos + 1, TokenType::Semicolon) {
                Ok(
                    (
                        StmtV::Var { name: name, initializer: ExprV::Literal(ValueV::Nil) },
                        pos + 2,
                    ),
                )
            } else {
                Err(err_at(toks, pos + 1, ParseErrorKind::ExpectedSemicolonAfterVarDecl))
            }
        }
    }
}

/// The tail of `print expression ";"`, entered just past `print`.
pub open spec fn p_print_body(toks: Seq<TokenV>, pos: int) -> Result<(StmtV, int), ParseErrV>
    decreases toks.len() - pos, 19int,
{
    match p_expression(toks, pos) {
        Ok((e, p2)) => if check_at(toks, p2, TokenType::Semicolon) {
            Ok((StmtV::Print(e), p2 + 1))
        } else {
            Err(err_at(toks, p2, ParseErrorKind::ExpectedSemicolonAfterValue))
        },
        Err(e) => Err(e),
    }
}

/// `expression ";"` as a statement.
pub open spec fn p_exprstmt_body(toks: Seq<TokenV>, pos: int) -> Result<(StmtV, int), ParseErrV>
    decreases toks.len() - pos, 19int,
{
    match p_expression(toks, pos) {
        Ok((e, p2)) => if check_at(toks, p2, TokenType::Semicolon) {
            Ok((StmtV::Expression(e), p2 + 1))
        } else {
            Err(err_at(toks, p2, ParseErrorKind::ExpectedSemicolonAfterValue))
        },
        Err(e) => Err(e),
    }
}

/// The parenthesized condition of an `if`, entered at the `if` keyword.
pub open spec fn p_if_cond(toks: Seq<TokenV>, pos: int) -> Result<(ExprV, int), ParseErrV>
    decreases toks.len() - pos, 18int,
{
    if !check_at(toks, pos + 1, TokenType::LeftParen) {
        Err(err_at(toks, pos + 1, ParseErrorKind::ExpectedLeftParenAfterIf))
    } else {
        match p_expression(toks, pos + 2) {
            Ok((c, p2)) => if check_at(toks, p2, TokenType::RightParen) {
                Ok((c, p2 + 1))
            } else {
                Err(err_at(toks, p2, ParseErrorKind::ExpectedRightParenAfterCondition))
            },
            Err(e) => Err(e),
        }
    }
}

/// An optional `else` branch: entered where the then-branch ended, with
/// the condition `c` and then-branch `tb` in hand.
pub open spec fn p_else_part(toks: Seq<TokenV>, c: ExprV, tb: StmtV, pos: int) -> Result<
    (StmtV, int),
    ParseErrV,
>
    decreases toks.len() - pos, 21int,
{
    if check_at(toks, pos, TokenType::Else) {
        match p_statement(toks, pos + 1) {
            Ok((eb, p4)) => Ok(
                (
                    StmtV::If {
                        condition: c,
                        then_branch: Box::new(tb),
                        else_branch: Some(Box::new(eb)),
                    },
                    p4,
                ),
            ),
            Err(e) => Err(e),
        }
    } else {
        Ok((StmtV::If { condition: c, then_branch: Box::new(tb), else_branch: None }, pos))
    }
}

/// The branches of an `if`, entered just past the closing paren of its
/// condition `c`.
pub open spec fn p_if_tail(toks: Seq<TokenV>, c: ExprV, pos: int) -> Result<
    (StmtV, int),
    ParseErrV,
>
    decreases toks.len() - pos, 22int,
{
    match p_statement(toks, pos) {
        Ok((tb, p3)) => if pos <= p3 <= toks.len() {
            p_else_part(toks, c, tb, p3)
        } else {
            Err(err_at(toks, p3, ParseErrorKind::ExpectedExpression))
        },
        Err(e) => Err(e),
    }
}

/// `if "(" expression ")" statement ("else" statement)?`, entered at `if`.
pub open spec fn p_if_body(toks: Seq<TokenV>, pos: int) -> Result<(StmtV, int), ParseErrV>
    decreases toks.len() - pos, 19int,
{
    match p_if_cond(toks, pos) {
        Ok((c, pc)) => if pos < pc <= toks.len() {
            p_if_tail(toks, c, pc)
        } else {
            Err(err_at(toks, pc, ParseErrorKind::ExpectedRightParenAfterCondition))
        },
        Err(e) => Err(e),
    }
}

/// `while "(" expression ")" statement`, entered at `while`.
pub open spec fn p_while_body(toks: Seq<TokenV>, pos: int) -> Result<(StmtV, int), ParseErrV>
    decreases toks.len() - pos, 19int,
{
    if !check_at(toks, pos + 1, TokenType::LeftParen) {
        Err(err_at(toks, pos + 1, ParseErrorKind::ExpectedLeftParenAfterWhile))
    } else {
        match p_expression(toks, pos + 2) {
            Ok((c, p2)) => if !check_at(toks, p2, TokenType::RightParen) {
                Err(err_at(toks, p2, ParseErrorKind::ExpectedRightParenAfterCondition))
            } else if pos < p2 < toks.len() {
                match p_statement(toks, p2 + 1) {
                    Ok((bd, p3)) => Ok((StmtV::While { condition: c, body: Box::new(bd) }, p3)),
                    Err(e) => Err(e),
                }
            } else {
                Err(err_at(toks, p2, ParseErrorKind::ExpectedRightParenAfterCondition))
            },
            Err(e) => Err(e),
        }
    }
}

/// A `for` loop's initializer clause, entered just past the `(`.
pub open spec fn p_for_init(toks: Seq<TokenV>, pos: int) -> Result<
    (Option<StmtV>, int),
    ParseErrV,
>
    decreases toks.len() - pos, 18int,
{
    if check_at(toks, pos, TokenType::Semicolon) {
        Ok((None, pos + 1))
    } else if check_at(toks, pos, TokenType::Var) {
        match p_var_decl_body(toks, pos + 1) {
            Ok((s, q)) => Ok((Some(s), q)),
            Err(e) => Err(e),
        }
    } else {
        match p_expression(toks, pos) {
            Ok((e, q)) => if check_at(toks, q, TokenType::Semicolon) {
                Ok((Some(StmtV::Expression(e)), q + 1))
            } else {
                Err(err_at(toks, q, ParseErrorKind::ExpectedSemicolonAfterValue))
            },
            Err(e) => Err(e),
        }
    }
}

/// A `for` loop's condition clause; missing, it is the literal `true`.
pub open spec fn p_for_cond(toks: Seq<TokenV>, pos: int) -> Result<(ExprV, int), ParseErrV>
    decreases toks.len() - pos, 18int,
{
    if check_at(toks, pos, TokenType::Semicolon) {
        Ok((ExprV::Literal(ValueV::Bool(true)), pos + 1))
    } else {
        match p_expression(toks, pos) {
            Ok((c, q)) => if check_at(toks, q, TokenType::Semicolon) {
                Ok((c, q + 1))
            } else {
                Err(err_at(toks, q, ParseErrorKind::ExpectedSemicolonAfterLoopCondition))
            },
            Err(e) => Err(e),
        }
    }
}

/// A `for` loop's increment clause, up to and including the `)`.
pub open spec fn p_for_incr(toks: Seq<TokenV>, pos: int) -> Result<
    (Option<ExprV>, int),
    ParseErrV,
>
    decreases toks.len() - pos, 18int,
{
    if check_at(toks, pos, TokenType::RightParen) {
        Ok((None, pos + 1))
    } else {
        match p_expression(toks, pos) {
            Ok((e, q)) => if check_at(toks, q, TokenType::RightParen) {
                Ok((Some(e), q + 1))
            } else {
                Err(err_at(toks, q, ParseErrorKind::ExpectedRightParenAfterForClauses))
            },
            Err(e) => Err(e),
        }
    }
}

/// What a `for` loop desugars to: a `while` loop, its body followed by the
/// increment in a block, the whole wrapped in a block with the initializer.
pub open spec fn for_desugar(init: Option<StmtV>, cond: ExprV, incr: Option<ExprV>, bd: StmtV) -> StmtV {
    let body = match incr {
        Some(ie) => StmtV::Block(seq![bd, StmtV::Expression(ie)]),
        None => bd,
    };
    let lp = StmtV::While { condition: cond, body: Box::new(body) };
    match init {
        Some(is) => StmtV::Block(seq![is, lp]),
        None => lp,
    }
}

/// `for "(" init? cond? ";" incr? ")" statement`, desugared: the loop
/// becomes `while`, an initializer wraps it in a block, an increment runs
/// in a block after the body, and a missing condition is the literal
/// `true`.
pub open spec fn p_for_statement(toks: Seq<TokenV>, pos: int) -> Result<(StmtV, int), ParseErrV>
    decreases toks.len() - pos, 19int,
{
    if !check_at(toks, pos + 1, TokenType::LeftParen) {
        Err(err_at(toks, pos + 1, ParseErrorKind::ExpectedLeftParenAfterFor))
    } else {
        match p_for_init(toks, pos + 2) {
            Ok((init, p3)) => if pos < p3 <= toks.len() {
                match p_for_cond(toks, p3) {
                    Ok((cond, p4)) => if pos < p4 <= toks.len() {
                        match p_for_incr(toks, p4) {
                            Ok((incr, p5)) => if pos < p5 <= toks.len() {
                                match p_statement(toks, p5) {
                                    Ok((bd, p6)) => Ok((for_desugar(init, cond, incr, bd), p6)),
                                    Err(e) => Err(e),
                                }
                            } else {
                                Err(
                                    err_at(
                                        toks,
                                        p5,
                                        ParseErrorKind::ExpectedRightParenAfterForClauses,
                                    ),
                                )
                            },
                            Err(e) => Err(e),
                        }
                    } else {
                        Err(err_at(toks, p4, ParseErrorKind::ExpectedRightParenAfterForClauses))
                    },
                    Err(e) => Err(e),
                }
            } else {
                Err(err_at(toks, p3, ParseErrorKind::ExpectedSemicolonAfterLoopCondition))
            },
            Err(e) => Err(e),
        }
    }
}

/// `statement → "print" … | block | "if" … | "while" … | "for" … |
/// expression ";"`, each handled by its own production above.
pub open spec fn p_statement(toks: Seq<TokenV>, pos: int) -> Result<(StmtV, int), ParseErrV>
    decreases toks.len() - pos, 20int,
{
    if check_at(toks, pos, TokenType::Print) {
        p_print_body(toks, pos + 1)
    } else if check_at(toks, pos, TokenType::LeftBrace) {
        match p_block_items(toks, pos + 1) {
            Ok((ss, p2)) => Ok((StmtV::Block(ss), p2)),
            Err(e) => Err(e),
        }
    } else if check_at(toks, pos, TokenType::If) {
        p_if_body(toks, pos)
    } else if check_at(toks, pos, TokenType::While) {
        p_while_body(toks, pos)
    } else if check_at(toks, pos, TokenType::For) {
        p_for_statement(toks, pos)
    } else {
        p_exprstmt_body(toks, pos)
    }
}

/// `declaration → varDecl | statement`.
pub open spec fn p_declaration(toks: Seq<TokenV>, pos: int) -> Result<(StmtV, int), ParseErrV>
    decreases toks.len() - pos, 21int,
{
    if check_at(toks, pos, TokenType::Var) {
        p_var_decl_body(toks, pos + 1)
    } else {
        p_statement(toks, pos)
    }
}

/// The declarations of a block, up to and including its closing brace.
pub open spec fn p_block_items(toks: Seq<TokenV>, pos: int) -> Result<
    (Seq<StmtV>, int),
    ParseErrV,
>
    decreases toks.len() - pos, 22int,
{
    if check_at(toks, pos, TokenType::RightBrace) {
        Ok((Seq::empty(), pos + 1))
    } else if at_end(toks, pos) {
        Err(err_at(toks, pos, ParseErrorKind::ExpectedRightBraceAfterBlock))
    } else {
        match p_declaration(toks, pos) {
            Ok((s, p2)) => if pos < p2 <= toks.len() {
                match p_block_items(toks, p2) {
                    Ok((ss, p3)) => Ok((seq![s] + ss, p3)),
                    Err(e) => Err(e),
                }
            } else {
                Err(err_at(toks, p2, ParseErrorKind::ExpectedRightBraceAfterBlock))
            },
            Err(e) => Err(e),
        }
    }
}

/// `program → declaration* EOF`.
pub open spec fn p_program(toks: Seq<TokenV>, pos: int) -> Result<(Seq<StmtV>, int), ParseErrV>
    decreases toks.len() - pos, 23int,
{
    if at_end(toks, pos) {
        Ok((Seq::empty(), pos))
    } else {
        match p_declaration(toks, pos) {
            Ok((s, p2)) => if pos < p2 <= toks.len() {
                match p_program(toks, p2) {
                    Ok((ss, p3)) => Ok((seq![s] + ss, p3)),
                    Err(e) => Err(e),
                }
            } else {
                Err(err_at(toks, p2, ParseErrorKind::ExpectedExpression))
            },
            Err(e) => Err(e),
        }
    }
}

/// What parsing a token stream yields: the whole statement sequence, or
/// the first positioned failure.
pub open spec fn spec_parse(toks: Seq<TokenV>) -> Result<Seq<StmtV>, ParseErrV> {
    match p_program(toks, 0) {
        Ok((ss, _)) => Ok(ss),
        Err(e) => Err(e),
    }
}

/// Prepends already-parsed statements to the rest of a sequence parse.
pub open spec fn prepend_stmts(pre: Seq<StmtV>, r: Result<(Seq<StmtV>, int), ParseErrV>) -> Result<
    (Seq<StmtV>, int),
    ParseErrV,
> {
    match r {
        Ok((ss, p)) => Ok((pre + ss, p)),
        Err(e) => Err(e),
    }
}

/// Builds the `while` loop a `for` statement desugars to.
fn desugar_for(init: Option<Stmt>, cond: Expr, incr: Option<Expr>, bd: Stmt) -> (r: Stmt)
    ensures
        r@ == for_desugar(
            match init {
                Some(s) => Some(s@),
                None => None,
            },
            cond@,
            match incr {
                Some(e) => Some(e@),
                None => None,
            },
            bd@,
        ),
{
    let ghost initv: Option<StmtV> = match &init {
        Some(s) => Some(s@),
        None => None,
    };
    let ghost condv = cond@;
    let ghost incrv: Option<ExprV> = match &incr {
        Some(e) => Some(e@),
        None => None,
    };
    let ghost bdv = bd@;
    let body: Stmt = match incr {
        Some(ie) => {
            let ghost iev = ie@;
            let mut v: Vec<Stmt> = Vec::new();
            v.push(bd);
            v.push(Stmt::Expression(Expression { expression: ie }));
            proof {
                crate::stmt::lemma_view_stmts_index(v@, 0);
                crate::stmt::lemma_view_stmts_index(v@, 1);
                assert(view_stmts(v@) =~= seq![bdv, StmtV::Expression(iev)]);
            }
            Stmt::Block(Block { statements: v })
        },
        None => bd,
    };
    proof {
        assert(body@ == (match incrv {
            Some(ie) => StmtV::Block(seq![bdv, StmtV::Expression(ie)]),
            None => bdv,
        }));
    }
    let ghost bodyv = body@;
    let lp = Stmt::While(While { condition: cond, body: Box::new(body) });
    proof {
        assert(lp@ == StmtV::While { condition: condv, body: Box::new(bodyv) });
    }
    let ghost lpv = lp@;
    match init {
        Some(is) => {
            let ghost isv = is@;
            let mut v: Vec<Stmt> = Vec::new();
            v.push(is);
            v.push(lp);
            proof {
                crate::stmt::lemma_view_stmts_index(v@, 0);
                crate::stmt::lemma_view_stmts_index(v@, 1);
                assert(view_stmts(v@) =~= seq![isv, lpv]);
            }
            Stmt::Block(Block { statements: v })
        },
        None => lp,
    }
}

/// The recursive-descent parser over a scanned token stream.
pub struct Parser {
    tokens: Vec<Token>,
    current: usize,
}

impl Parser {
    /// The token models this parser reads.
    pub closed spec fn toks(&self) -> Seq<TokenV> {
        view_tokens(self.tokens@)
    }

    /// The cursor: the index of the next unconsumed token.
    pub closed spec fn pos(&self) -> int {
        self.current as int
    }

    pub closed spec fn wf(&self) -> bool {
        &&& self.tokens@.len() > 0
        &&& self.current < self.tokens@.len()
        &&& self.toks().len() == self.tokens@.len()
        &&& self.toks()[self.toks().len() - 1].ttype == TokenType::Eof
    }

    /// Scans `source` and positions the parser at the first token.
    pub fn new(source: Vec<u8>) -> (r: Parser)
        requires
            source@.len() < usize::MAX,
        ensures
            r.wf(),
            r.toks() == spec_scan(source@),
            r.pos() == 0,
    {
        let ghost src = source@;
        let mut lexer = Lexer::new(source);
        let tokens = lexer.scan_tokens();
        proof {
            assert(view_tokens(tokens@) =~= spec_scan(src));
            lemma_scan_from_ends_eof(src, 0, 1);
            crate::lexer::lemma_view_tokens_len(tokens@);
        }
        Parser { tokens, current: 0 }
    }

    fn peek(&self) -> (r: &Token)
        requires
            self.wf(),
        ensures
            r@ == tk(self.toks(), self.pos()),
    {
        proof {
            crate::lexer::lemma_view_tokens_index(self.tokens@, self.current as int);
        }
        &self.tokens[self.current]
    }

    fn previous(&self) -> (r: Token)
        requires
            self.wf(),
            self.pos() >= 1,
        ensures
            r@ == tk(self.toks(), self.pos() - 1),
    {
        proof {
            crate::lexer::lemma_view_tokens_index(self.tokens@, self.current as int - 1);
        }
        clone_token(&self.tokens[self.current - 1])
    }

    fn is_at_end(&self) -> (r: bool)
        requires
            self.wf(),
        ensures
            r == at_end(self.toks(), self.pos()),
    {
        self.peek().ttype == TokenType::Eof
    }

    fn check(&self, ttype: TokenType) -> (r: bool)
        requires
            self.wf(),
        ensures
            r == check_at(self.toks(), self.pos(), ttype),
    {
        if self.is_at_end() {
            return false;
        }
        self.peek().ttype == ttype
    }

    fn advance(&mut self)
        requires
            old(self).wf(),
        ensures
            final(self).wf(),
            final(self).toks() == old(self).toks(),
            final(self).pos() == old(self).pos() + (if at_end(old(self).toks(), old(self).pos()) {
                0int
            } else {
                1int
            }),
    {
        let n = self.tokens.len();
        if !self.is_at_end() {
            self.current = self.current + 1;
        }
    }

    /// Consumes the expected token or reports `kind` at the cursor.
    fn consume(&mut self, expect: TokenType, kind: ParseErrorKind) -> (r: Result<(), ParseError>)
        requires
            old(self).wf(),
        ensures
            final(self).wf(),
            final(self).toks() == old(self).toks(),
            match r {
                Ok(()) => check_at(old(self).toks(), old(self).pos(), expect) && final(self).pos()
                    == old(self).pos() + 1,
                Err(pe) => !check_at(old(self).toks(), old(self).pos(), expect) && pe@ == err_at(
                    old(self).toks(),
                    old(self).pos(),
                    kind,
                ) && final(self).pos() == old(self).pos(),
            },
    {
        if self.check(expect) {
            self.advance();
            return Ok(());
        }
        let line = self.peek().line;
        Err(ParseError { line, kind })
    }

    /// `primary → NUMBER | STRING | "true" | "false" | "nil" | IDENT | "(" expression ")"`.
    #[verifier::rlimit(100)]
    fn primary(&mut self) -> (r: Result<Expr, ParseError>)
        requires
            old(self).wf(),
        ensures
            final(self).wf(),
            final(self).toks() == old(self).toks(),
            old(self).pos() <= final(self).pos() <= final(self).toks().len(),
            match r {
                Ok(e) => p_primary(old(self).toks(), old(self).pos()) == Ok::<
                    (ExprV, int),
                    ParseErrV,
                >((e@, final(self).pos())) && old(self).pos() < final(self).pos(),
                Err(pe) => p_primary(old(self).toks(), old(self).pos()) == Err::<
                    (ExprV, int),
                    ParseErrV,
                >(pe@),
            },
        decreases self.toks().len() - self.pos(), 0int,
    {
        if self.check(TokenType::True) || self.check(TokenType::False) || self.check(
            TokenType::Nil,
        ) || self.check(TokenType::Number) || self.check(TokenType::String) {
            let lit = crate::token::clone_literal(&self.peek().literal);
            self.advance();
            Ok(Expr::Literal(lit))
        } else if self.check(TokenType::Identifier) {
            let t = clone_token(self.peek());
            self.advance();
            Ok(Expr::Variable(Variable { identifier: t }))
        } else if self.check(TokenType::LeftParen) {
            self.advance();
            let e = match self.expression() {
                Ok(e) => e,
                Err(er) => {
                    return Err(er);
                },
            };
            match self.consume(
                TokenType::RightParen,
                ParseErrorKind::ExpectedRightParenAfterExpression,
            ) {
                Ok(()) => Ok(Expr::Grouping(Grouping { expr: Box::new(e) })),
                Err(pe) => Err(pe),
            }
        } else {
            let line = self.peek().line;
            Err(ParseError { line, kind: ParseErrorKind::ExpectedExpression })
        }
    }

    /// `unary → ("!" | "-") unary | primary`.
    fn unary(&mut self) -> (r: Result<Expr, ParseError>)
        requires
            old(self).wf(),
        ensures
            final(self).wf(),
            final(self).toks() == old(self).toks(),
            old(self).pos() <= final(self).pos() <= final(self).toks().len(),
            match r {
                Ok(e) => p_unary(old(self).toks(), old(self).pos()) == Ok::<
                    (ExprV, int),
                    ParseErrV,
                >((e@, final(self).pos())) && old(self).pos() < final(self).pos(),
                Err(pe) => p_unary(old(self).toks(), old(self).pos()) == Err::<
                    (ExprV, int),
                    ParseErrV,
                >(pe@),
            },
        decreases self.toks().len() - self.pos(), 1int,
    {
        if self.check(TokenType::Bang) || self.check(TokenType::Minus) {
            let op = clone_token(self.peek());
            self.advance();
            match self.unary() {
                Ok(right) => Ok(Expr::Unary(Unary { op, right: Box::new(right) })),
                Err(er) => Err(er),
            }
        } else {
            self.primary()
        }
    }

    /// `factor → unary (("/" | "*") unary)*`, folding left.
    fn factor(&mut self) -> (r: Result<Expr, ParseError>)
        requires
            old(self).wf(),
        ensures
            final(self).wf(),
            final(self).toks() == old(self).toks(),
            old(self).pos() <= final(self).pos() <= final(self).toks().len(),
            match r {
                Ok(e) => p_factor(old(self).toks(), old(self).pos()) == Ok::<
                    (ExprV, int),
                    ParseErrV,
                >((e@, final(self).pos())) && old(self).pos() < final(self).pos(),
                Err(pe) => p_factor(old(self).toks(), old(self).pos()) == Err::<
                    (ExprV, int),
                    ParseErrV,
                >(pe@),
            },
        decreases self.toks().len() - self.pos(), 3int,
    {
        let mut e = match self.unary() {
            Ok(e) => e,
            Err(er) => {
                return Err(er);
            },
        };
        while self.check(TokenType::Slash) || self.check(TokenType::Star)
            invariant
                self.wf(),
                self.toks() == old(self).toks(),
                old(self).pos() < self.pos() <= self.toks().len(),
                p_factor(old(self).toks(), old(self).pos()) == p_factor_tail(
                    old(self).toks(),
                    e@,
                    self.pos(),
                ),
            decreases self.toks().len() - self.pos(),
        {
            let op = clone_token(self.peek());
            self.advance();
            match self.unary() {
                Ok(right) => {
                    e = Expr::Binary(Binary { left: Box::new(e), op, right: Box::new(right) });
                },
                Err(er) => {
                    return Err(er);
                },
            }
        }
        Ok(e)
    }

    /// `term → factor (("-" | "+") factor)*`, folding left.
    fn term(&mut self) -> (r: Result<Expr, ParseError>)
        requires
            old(self).wf(),
        ensures
            final(self).wf(),
            final(self).toks() == old(self).toks(),
            old(self).pos() <= final(self).pos() <= final(self).toks().len(),
            match r {
                Ok(e) => p_term(old(self).toks(), old(self).pos()) == Ok::<
                    (ExprV, int),
                    ParseErrV,
                >((e@, final(self).pos())) && old(self).pos() < final(self).pos(),
                Err(pe) => p_term(old(self).toks(), old(self).pos()) == Err::<
                    (ExprV, int),
                    ParseErrV,
                >(pe@),
            },
        decreases self.toks().len() - self.pos(), 5int,
    {
        let mut e = match self.factor() {
            Ok(e) => e,
            Err(er) => {
                return Err(er);
            },
        };
        while self.check(TokenType::Plus) || self.check(TokenType::Minus)
            invariant
                self.wf(),
                self.toks() == old(self).toks(),
                old(self).pos() < self.pos() <= self.toks().len(),
                p_term(old(self).toks(), old(self).pos()) == p_term_tail(
                    old(self).toks(),
                    e@,
                    self.pos(),
                ),
            decreases self.toks().len() - self.pos(),
        {
            let op = clone_token(self.peek());
            self.advance();
            match self.factor() {
                Ok(right) => {
                    e = Expr::Binary(Binary { left: Box::new(e), op, right: Box::new(right) });
                },
                Err(er) => {
                    return Err(er);
                },
            }
        }
        Ok(e)
    }

    /// `comparison → term ((">" | ">=" | "<" | "<=") term)*`, folding left.
    fn comparison(&mut self) -> (r: Result<Expr, ParseError>)
        requires
            old(self).wf(),
        ensures
            final(self).wf(),
            final(self).toks() == old(self).toks(),
            old(self).pos() <= final(self).pos() <= final(self).toks().len(),
            match r {
                Ok(e) => p_comparison(old(self).toks(), old(self).pos()) == Ok::<
                    (ExprV, int),
                    ParseErrV,
                >((e@, final(self).pos())) && old(self).pos() < final(self).pos(),
                Err(pe) => p_comparison(old(self).toks(), old(self).pos()) == Err::<
                    (ExprV, int),
                    ParseErrV,
                >(pe@),
            },
        decreases self.toks().len() - self.pos(), 7int,
    {
        let mut e = match self.term() {
            Ok(e) => e,
            Err(er) => {
                return Err(er);
            },
        };
        while self.check(TokenType::Greater) || self.check(TokenType::GreaterEqual) || self.check(
            TokenType::Less,
        ) || self.check(TokenType::LessEqual)
            invariant
                self.wf(),
                self.toks() == old(self).toks(),
                old(self).pos() < self.pos() <= self.toks().len(),
                p_comparison(old(self).toks(), old(self).pos()) == p_comparison_tail(
                    old(self).toks(),
                    e@,
                    self.pos(),
                ),
            decreases self.toks().len() - self.pos(),
        {
            let op = clone_token(self.peek());
            self.advance();
            match self.term() {
                Ok(right) => {
                    e = Expr::Comparison(
                        Comparison { left: Box::new(e), op, right: Box::new(right) },
                    );
                },
                Err(er) => {
                    return Err(er);
                },
            }
        }
        Ok(e)
    }

    /// `equality → comparison (("!=" | "==") comparison)*`, folding left.
    fn equality(&mut self) -> (r: Result<Expr, ParseError>)
        requires
            old(self).wf(),
        ensures
            final(self).wf(),
            final(self).toks() == old(self).toks(),
            old(self).pos() <= final(self).pos() <= final(self).toks().len(),
            match r {
                Ok(e) => p_equality(old(self).toks(), old(self).pos()) == Ok::<
                    (ExprV, int),
                    ParseErrV,
                >((e@, final(self).pos())) && old(self).pos() < final(self).pos(),
                Err(pe) => p_equality(old(self).toks(), old(self).pos()) == Err::<
                    (ExprV, int),
                    ParseErrV,
                >(pe@),
            },
        decreases self.toks().len() - self.pos(), 9int,
    {
        let mut e = match self.comparison() {
            Ok(e) => e,
            Err(er) => {
                return Err(er);
            },
        };
        while self.check(TokenType::BangEqual) || self.check(TokenType::EqualEqual)
            invariant
                self.wf(),
                self.toks() == old(self).toks(),
                old(self).pos() < self.pos() <= self.toks().len(),
                p_equality(old(self).toks(), old(self).pos()) == p_equality_tail(
                    old(self).toks(),
                    e@,
                    self.pos(),
                ),
            decreases self.toks().len() - self.pos(),
        {
            let op = clone_token(self.peek());
            self.advance();
            match self.comparison() {
                Ok(right) => {
                    e = Expr::Comparison(
                        Comparison { left: Box::new(e), op, right: Box::new(right) },
                    );
                },
                Err(er) => {
                    return Err(er);
                },
            }
        }
        Ok(e)
    }

    /// `logic_and → equality ("and" equality)*`, folding left.
    fn logic_and(&mut self) -> (r: Result<Expr, ParseError>)
        requires
            old(self).wf(),
        ensures
            final(self).wf(),
            final(self).toks() == old(self).toks(),
            old(self).pos() <= final(self).pos() <= final(self).toks().len(),
            match r {
                Ok(e) => p_logic_and(old(self).toks(), old(self).pos()) == Ok::<
                    (ExprV, int),
                    ParseErrV,
                >((e@, final(self).pos())) && old(self).pos() < final(self).pos(),
                Err(pe) => p_logic_and(old(self).toks(), old(self).pos()) == Err::<
                    (ExprV, int),
                    ParseErrV,
                >(pe@),
            },
        decreases self.toks().len() - self.pos(), 11int,
    {
        let mut e = match self.equality() {
            Ok(e) => e,
            Err(er) => {
                return Err(er);
            },
        };
        while self.check(TokenType::And)
            invariant
                self.wf(),
                self.toks() == old(self).toks(),
                old(self).pos() < self.pos() <= self.toks().len(),
                p_logic_and(old(self).toks(), old(self).pos()) == p_logic_and_tail(
                    old(self).toks(),
                    e@,
                    self.pos(),
                ),
            decreases self.toks().len() - self.pos(),
        {
            let op = clone_token(self.peek());
            self.advance();
            match self.equality() {
                Ok(right) => {
                    e = Expr::Logical(Logical { left: Box::new(e), op, right: Box::new(right) });
                },
                Err(er) => {
                    return Err(er);
                },
            }
        }
        Ok(e)
    }

    /// `logic_or → logic_and ("or" logic_and)*`, folding left.
    fn logic_or(&mut self) -> (r: Result<Expr, ParseError>)
        requires
            old(self).wf(),
        ensures
            final(self).wf(),
            final(self).toks() == old(self).toks(),
            old(self).pos() <= final(self).pos() <= final(self).toks().len(),
            match r {
                Ok(e) => p_logic_or(old(self).toks(), old(self).pos()) == Ok::<
                    (ExprV, int),
                    ParseErrV,
                >((e@, final(self).pos())) && old(self).pos() < final(self).pos(),
                Err(pe) => p_logic_or(old(self).toks(), old(self).pos()) == Err::<
                    (ExprV, int),
                    ParseErrV,
                >(pe@),
            },
        decreases self.toks().len() - self.pos(), 13int,
    {
        let mut e = match self.logic_and() {
            Ok(e) => e,
            Err(er) => {
                return Err(er);
            },
        };
        while self.check(TokenType::Or)
            invariant
                self.wf(),
                self.toks() == old(self).toks(),
                old(self).pos() < self.pos() <= self.toks().len(),
                p_logic_or(old(self).toks(), old(self).pos()) == p_logic_or_tail(
                    old(self).toks(),
                    e@,
                    self.pos(),
                ),
            decreases self.toks().len() - self.pos(),
        {
            let op = clone_token(self.peek());
            self.advance();
            match self.logic_and() {
                Ok(right) => {
                    e = Expr::Logical(Logical { left: Box::new(e), op, right: Box::new(right) });
                },
                Err(er) => {
                    return Err(er);
                },
            }
        }
        Ok(e)
    }

    /// `assignment → IDENT "=" assignment | logic_or`, the target checked
    /// after the fact and a bad one reported at the `=` token.
    fn assignment(&mut self) -> (r: Result<Expr, ParseError>)
        requires
            old(self).wf(),
        ensures
            final(self).wf(),
            final(self).toks() == old(self).toks(),
            old(self).pos() <= final(self).pos() <= final(self).toks().len(),
            match r {
                Ok(e) => p_assignment(old(self).toks(), old(self).pos()) == Ok::<
                    (ExprV, int),
                    ParseErrV,
                >((e@, final(self).pos())) && old(self).pos() < final(self).pos(),
                Err(pe) => p_assignment(old(self).toks(), old(self).pos()) == Err::<
                    (ExprV, int),
                    ParseErrV,
                >(pe@),
            },
        decreases self.toks().len() - self.pos(), 14int,
    {
        let e = match self.logic_or() {
            Ok(e) => e,
            Err(er) => {
                return Err(er);
            },
        };
        if self.check(TokenType::Equal) {
            let equal = clone_token(self.peek());
            self.advance();
            let value = match self.assignment() {
                Ok(v) => v,
                Err(er) => {
                    return Err(er);
                },
            };
            match e {
                Expr::Variable(var) => Ok(
                    Expr::Assign(Assign { name: var.identifier, value: Box::new(value) }),
                ),
                _ => Err(
                    ParseError { line: equal.line, kind: ParseErrorKind::InvalidAssignmentTarget },
                ),
            }
        } else {
            Ok(e)
        }
    }

    /// The rest of a variable declaration, entered just past `var`.
    #[verifier::rlimit(100)]
    fn var_declaration(&mut self) -> (r: Result<Stmt, ParseError>)
        requires
            old(self).wf(),
        ensures
            final(self).wf(),
            final(self).toks() == old(self).toks(),
            old(self).pos() <= final(self).pos() <= final(self).toks().len(),
            match r {
                Ok(s) => p_var_decl_body(old(self).toks(), old(self).pos()) == Ok::<
                    (StmtV, int),
                    ParseErrV,
                >((s@, final(self).pos())) && old(self).pos() < final(self).pos(),
                Err(pe) => p_var_decl_body(old(self).toks(), old(self).pos()) == Err::<
                    (StmtV, int),
                    ParseErrV,
                >(pe@),
            },
        decreases self.toks().len() - self.pos(), 19int,
    {
        match self.consume(TokenType::Identifier, ParseErrorKind::ExpectedVariableName) {
            Err(pe) => {
                return Err(pe);
            },
            Ok(()) => {},
        }
        let name = self.previous();
        let mut initializer = Expr::Literal(LiteralTypes::Nil);
        if self.check(TokenType::Equal) {
            self.advance();
            initializer = match self.expression() {
                Ok(e) => e,
                Err(er) => {
                    return Err(er);
                },
            };
        }
        match self.consume(TokenType::Semicolon, ParseErrorKind::ExpectedSemicolonAfterVarDecl) {
            Ok(()) => Ok(Stmt::Var(Var { name, initializer })),
            Err(pe) => Err(pe),
        }
    }

    /// `declaration → "var" varDecl | statement`.
    #[verifier::rlimit(100)]
    fn declaration(&mut self) -> (r: Result<Stmt, ParseError>)
        requires
            old(self).wf(),
        ensures
            final(self).wf(),
            final(self).toks() == old(self).toks(),
            old(self).pos() <= final(self).pos() <= final(self).toks().len(),
            match r {
                Ok(s) => p_declaration(old(self).toks(), old(self).pos()) == Ok::<
                    (StmtV, int),
                    ParseErrV,
                >((s@, final(self).pos())) && old(self).pos() < final(self).pos(),
                Err(pe) => p_declaration(old(self).toks(), old(self).pos()) == Err::<
                    (StmtV, int),
                    ParseErrV,
                >(pe@),
            },
        decreases self.toks().len() - self.pos(), 21int,
    {
        if self.check(TokenType::Var) {
            self.advance();
            self.var_declaration()
        } else {
            self.statement()
        }
    }

    /// The declarations of a block, up to and including its closing brace,
    /// entered just past the opening brace.
    #[verifier::rlimit(100)]
    fn block(&mut self) -> (r: Result<Block, ParseError>)
        requires
            old(self).wf(),
        ensures
            final(self).wf(),
            final(self).toks() == old(self).toks(),
            old(self).pos() <= final(self).pos() <= final(self).toks().len(),
            match r {
                Ok(b) => p_block_items(old(self).toks(), old(self).pos()) == Ok::<
                    (Seq<StmtV>, int),
                    ParseErrV,
                >((view_stmts(b.statements@), final(self).pos())) && old(self).pos() < final(self).pos(),
                Err(pe) => p_block_items(old(self).toks(), old(self).pos()) == Err::<
                    (Seq<StmtV>, int),
                    ParseErrV,
                >(pe@),
            },
        decreases self.toks().len() - self.pos(), 22int,
    {
        let mut statements: Vec<Stmt> = Vec::new();
        while !self.check(TokenType::RightBrace) && !self.is_at_end()
            invariant
                self.wf(),
                self.toks() == old(self).toks(),
                old(self).pos() <= self.pos() <= self.toks().len(),
                p_block_items(old(self).toks(), old(self).pos()) == prepend_stmts(
                    view_stmts(statements@),
                    p_block_items(old(self).toks(), self.pos()),
                ),
            decreases self.toks().len() - self.pos(),
        {
            let ghost pre = statements@;
            let ghost prev_pos = self.pos();
            match self.declaration() {
                Ok(s) => {
                    statements.push(s);
                    proof {
                        let sv = statements@.last();
                        crate::stmt::lemma_view_stmts_push(pre, sv);
                        match p_block_items(old(self).toks(), self.pos()) {
                            Ok((ss, p3)) => {
                                assert(view_stmts(pre) + (seq![sv@] + ss) =~= view_stmts(
                                    pre.push(sv),
                                ) + ss);
                            },
                            Err(_) => {},
                        }
                    }
                },
                Err(er) => {
                    return Err(er);
                },
            }
        }
        match self.consume(TokenType::RightBrace, ParseErrorKind::ExpectedRightBraceAfterBlock) {
            Ok(()) => {
                proof {
                    assert(view_stmts(statements@) + Seq::<StmtV>::empty() =~= view_stmts(
                        statements@,
                    ));
                }
                Ok(Block { statements })
            },
            Err(pe) => Err(pe),
        }
    }

    /// The tail of a `print` statement, entered just past `print`.
    #[verifier::rlimit(100)]
    fn print_statement(&mut self) -> (r: Result<Stmt, ParseError>)
        requires
            old(self).wf(),
        ensures
            final(self).wf(),
            final(self).toks() == old(self).toks(),
            old(self).pos() <= final(self).pos() <= final(self).toks().len(),
            match r {
                Ok(s) => p_print_body(old(self).toks(), old(self).pos()) == Ok::<
                    (StmtV, int),
                    ParseErrV,
                >((s@, final(self).pos())) && old(self).pos() < final(self).pos(),
                Err(pe) => p_print_body(old(self).toks(), old(self).pos()) == Err::<
                    (StmtV, int),
                    ParseErrV,
                >(pe@),
            },
        decreases self.toks().len() - self.pos(), 19int,
    {
        let e = match self.expression() {
            Ok(e) => e,
            Err(er) => {
                return Err(er);
            },
        };
        match self.consume(TokenType::Semicolon, ParseErrorKind::ExpectedSemicolonAfterValue) {
            Ok(()) => Ok(Stmt::Print(Print { expression: e })),
            Err(pe) => Err(pe),
        }
    }

    /// An expression in statement position, closed by `;`.
    #[verifier::rlimit(100)]
    fn expression_statement(&mut self) -> (r: Result<Stmt, ParseError>)
        requires
            old(self).wf(),
        ensures
            final(self).wf(),
            final(self).toks() == old(self).toks(),
            old(self).pos() <= final(self).pos() <= final(self).toks().len(),
            match r {
                Ok(s) => p_exprstmt_body(old(self).toks(), old(self).pos()) == Ok::<
                    (StmtV, int),
                    ParseErrV,
                >((s@, final(self).pos())) && old(self).pos() < final(self).pos(),
                Err(pe) => p_exprstmt_body(old(self).toks(), old(self).pos()) == Err::<
                    (StmtV, int),
                    ParseErrV,
                >(pe@),
            },
        decreases self.toks().len() - self.pos(), 19int,
    {
        let e = match self.expression() {
            Ok(e) => e,
            Err(er) => {
                return Err(er);
            },
        };
        match self.consume(TokenType::Semicolon, ParseErrorKind::ExpectedSemicolonAfterValue) {
            Ok(()) => Ok(Stmt::Expression(Expression { expression: e })),
            Err(pe) => Err(pe),
        }
    }

    /// The parenthesized condition of an `if`, entered at the keyword.
    #[verifier::rlimit(100)]
    fn if_condition(&mut self) -> (r: Result<Expr, ParseError>)
        requires
            old(self).wf(),
            !at_end(old(self).toks(), old(self).pos()),
        ensures
            final(self).wf(),
            final(self).toks() == old(self).toks(),
            old(self).pos() <= final(self).pos() <= final(self).toks().len(),
            match r {
                Ok(e) => p_if_cond(old(self).toks(), old(self).pos()) == Ok::<
                    (ExprV, int),
                    ParseErrV,
                >((e@, final(self).pos())) && old(self).pos() < final(self).pos(),
                Err(pe) => p_if_cond(old(self).toks(), old(self).pos()) == Err::<
                    (ExprV, int),
                    ParseErrV,
                >(pe@),
            },
        decreases self.toks().len() - self.pos(), 18int,
    {
        self.advance();
        match self.consume(TokenType::LeftParen, ParseErrorKind::ExpectedLeftParenAfterIf) {
            Err(pe) => {
                return Err(pe);
            },
            Ok(()) => {},
        }
        let c = match self.expression() {
            Ok(e) => e,
            Err(er) => {
                return Err(er);
            },
        };
        match self.consume(TokenType::RightParen, ParseErrorKind::ExpectedRightParenAfterCondition) {
            Ok(()) => Ok(c),
            Err(pe) => Err(pe),
        }
    }

    /// An optional `else` branch after a finished then-branch.
    #[verifier::rlimit(100)]
    fn else_part(&mut self, c: Expr, tb: Stmt) -> (r: Result<Stmt, ParseError>)
        requires
            old(self).wf(),
        ensures
            final(self).wf(),
            final(self).toks() == old(self).toks(),
            old(self).pos() <= final(self).pos() <= final(self).toks().len(),
            match r {
                Ok(s) => p_else_part(old(self).toks(), c@, tb@, old(self).pos()) == Ok::<
                    (StmtV, int),
                    ParseErrV,
                >((s@, final(self).pos())),
                Err(pe) => p_else_part(old(self).toks(), c@, tb@, old(self).pos()) == Err::<
                    (StmtV, int),
                    ParseErrV,
                >(pe@),
            },
        decreases self.toks().len() - self.pos(), 21int,
    {
        if self.check(TokenType::Else) {
            self.advance();
            let eb = match self.statement() {
                Ok(s) => s,
                Err(er) => {
                    return Err(er);
                },
            };
            Ok(
                Stmt::If(
                    If { condition: c, then_branch: Box::new(tb), else_branch: Some(Box::new(eb)) },
                ),
            )
        } else {
            Ok(Stmt::If(If { condition: c, then_branch: Box::new(tb), else_branch: None }))
        }
    }

    /// The branches of an `if`, entered just past its condition.
    #[verifier::rlimit(100)]
    fn if_tail(&mut self, c: Expr) -> (r: Result<Stmt, ParseError>)
        requires
            old(self).wf(),
        ensures
            final(self).wf(),
            final(self).toks() == old(self).toks(),
            old(self).pos() <= final(self).pos() <= final(self).toks().len(),
            match r {
                Ok(s) => p_if_tail(old(self).toks(), c@, old(self).pos()) == Ok::<
                    (StmtV, int),
                    ParseErrV,
                >((s@, final(self).pos())) && old(self).pos() < final(self).pos(),
                Err(pe) => p_if_tail(old(self).toks(), c@, old(self).pos()) == Err::<
                    (StmtV, int),
                    ParseErrV,
                >(pe@),
            },
        decreases self.toks().len() - self.pos(), 22int,
    {
        let tb = match self.statement() {
            Ok(s) => s,
            Err(er) => {
                return Err(er);
            },
        };
        self.else_part(c, tb)
    }

    /// An `if` statement, entered at the `if` keyword.
    #[verifier::rlimit(100)]
    fn if_statement(&mut self) -> (r: Result<Stmt, ParseError>)
        requires
            old(self).wf(),
            !at_end(old(self).toks(), old(self).pos()),
        ensures
            final(self).wf(),
            final(self).toks() == old(self).toks(),
            old(self).pos() <= final(self).pos() <= final(self).toks().len(),
            match r {
                Ok(s) => p_if_body(old(self).toks(), old(self).pos()) == Ok::<
                    (StmtV, int),
                    ParseErrV,
                >((s@, final(self).pos())) && old(self).pos() < final(self).pos(),
                Err(pe) => p_if_body(old(self).toks(), old(self).pos()) == Err::<
                    (StmtV, int),
                    ParseErrV,
                >(pe@),
            },
        decreases self.toks().len() - self.pos(), 19int,
    {
        let c = match self.if_condition() {
            Ok(e) => e,
            Err(er) => {
                return Err(er);
            },
        };
        self.if_tail(c)
    }

    /// A `while` statement, entered at the `while` keyword.
    #[verifier::rlimit(100)]
    fn while_statement(&mut self) -> (r: Result<Stmt, ParseError>)
        requires
            old(self).wf(),
            !at_end(old(self).toks(), old(self).pos()),
        ensures
            final(self).wf(),
            final(self).toks() == old(self).toks(),
            old(self).pos() <= final(self).pos() <= final(self).toks().len(),
            match r {
                Ok(s) => p_while_body(old(self).toks(), old(self).pos()) == Ok::<
                    (StmtV, int),
                    ParseErrV,
                >((s@, final(self).pos())) && old(self).pos() < final(self).pos(),
                Err(pe) => p_while_body(old(self).toks(), old(self).pos()) == Err::<
                    (StmtV, int),
                    ParseErrV,
                >(pe@),
            },
        decreases self.toks().len() - self.pos(), 19int,
    {
        self.advance();
        match self.consume(TokenType::LeftParen, ParseErrorKind::ExpectedLeftParenAfterWhile) {
            Err(pe) => {
                return Err(pe);
            },
            Ok(()) => {},
        }
        let c = match self.expression() {
            Ok(e) => e,
            Err(er) => {
                return Err(er);
            },
        };
        match self.consume(TokenType::RightParen, ParseErrorKind::ExpectedRightParenAfterCondition) {
            Err(pe) => {
                return Err(pe);
            },
            Ok(()) => {},
        }
        let bd = match self.statement() {
            Ok(s) => s,
            Err(er) => {
                return Err(er);
            },
        };
        Ok(Stmt::While(While { condition: c, body: Box::new(bd) }))
    }

    /// A `for` loop's initializer clause.
    #[verifier::rlimit(100)]
    fn for_init(&mut self) -> (r: Result<Option<Stmt>, ParseError>)
        requires
            old(self).wf(),
        ensures
            final(self).wf(),
            final(self).toks() == old(self).toks(),
            old(self).pos() <= final(self).pos() <= final(self).toks().len(),
            match r {
                Ok(s) => p_for_init(old(self).toks(), old(self).pos()) == Ok::<
                    (Option<StmtV>, int),
                    ParseErrV,
                >(
                    (
                        match s {
                            Some(st) => Some(st@),
                            None => None,
                        },
                        final(self).pos(),
                    ),
                ) && old(self).pos() < final(self).pos(),
                Err(pe) => p_for_init(old(self).toks(), old(self).pos()) == Err::<
                    (Option<StmtV>, int),
                    ParseErrV,
                >(pe@),
            },
        decreases self.toks().len() - self.pos(), 18int,
    {
        if self.check(TokenType::Semicolon) {
            self.advance();
            Ok(None)
        } else if self.check(TokenType::Var) {
            self.advance();
            match self.var_declaration() {
                Ok(s) => Ok(Some(s)),
                Err(er) => Err(er),
            }
        } else {
            let e = match self.expression() {
                Ok(e) => e,
                Err(er) => {
                    return Err(er);
                },
            };
            match self.consume(TokenType::Semicolon, ParseErrorKind::ExpectedSemicolonAfterValue) {
                Ok(()) => Ok(Some(Stmt::Expression(Expression { expression: e }))),
                Err(pe) => Err(pe),
            }
        }
    }

    /// A `for` loop's condition clause; missing, the literal `true`.
    #[verifier::rlimit(100)]
    fn for_cond(&mut self) -> (r: Result<Expr, ParseError>)
        requires
            old(self).wf(),
        ensures
            final(self).wf(),
            final(self).toks() == old(self).toks(),
            old(self).pos() <= final(self).pos() <= final(self).toks().len(),
            match r {
                Ok(e) => p_for_cond(old(self).toks(), old(self).pos()) == Ok::<
                    (ExprV, int),
                    ParseErrV,
                >((e@, final(self).pos())) && old(self).pos() < final(self).pos(),
                Err(pe) => p_for_cond(old(self).toks(), old(self).pos()) == Err::<
                    (ExprV, int),
                    ParseErrV,
                >(pe@),
            },
        decreases self.toks().len() - self.pos(), 18int,
    {
        if self.check(TokenType::Semicolon) {
            self.advance();
            Ok(Expr::Literal(LiteralTypes::Bool(true)))
        } else {
            let c = match self.expression() {
                Ok(e) => e,
                Err(er) => {
                    return Err(er);
                },
            };
            match self.consume(
                TokenType::Semicolon,
                ParseErrorKind::ExpectedSemicolonAfterLoopCondition,
            ) {
                Ok(()) => Ok(c),
                Err(pe) => Err(pe),
            }
        }
    }

    /// A `for` loop's increment clause, up to and including the `)`.
    #[verifier::rlimit(100)]
    fn for_incr(&mut self) -> (r: Result<Option<Expr>, ParseError>)
        requires
            old(self).wf(),
        ensures
            final(self).wf(),
            final(self).toks() == old(self).toks(),
            old(self).pos() <= final(self).pos() <= final(self).toks().len(),
            match r {
                Ok(e) => p_for_incr(old(self).toks(), old(self).pos()) == Ok::<
                    (Option<ExprV>, int),
                    ParseErrV,
                >(
                    (
                        match e {
                            Some(ex) => Some(ex@),
                            None => None,
                        },
                        final(self).pos(),
                    ),
                ) && old(self).pos() < final(self).pos(),
                Err(pe) => p_for_incr(old(self).toks(), old(self).pos()) == Err::<
                    (Option<ExprV>, int),
                    ParseErrV,
                >(pe@),
            },
        decreases self.toks().len() - self.pos(), 18int,
    {
        if self.check(TokenType::RightParen) {
            self.advance();
            Ok(None)
        } else {
            let e = match self.expression() {
                Ok(e) => e,
                Err(er) => {
                    return Err(er);
                },
            };
            match self.consume(
                TokenType::RightParen,
                ParseErrorKind::ExpectedRightParenAfterForClauses,
            ) {
                Ok(()) => Ok(Some(e)),
                Err(pe) => Err(pe),
            }
        }
    }

    /// `for "(" init? cond? ";" incr? ")" statement`, desugared into a
    /// `while` loop, wrapped in blocks for its initializer and increment.
    #[verifier::rlimit(100)]
    #[verifier::spinoff_prover]
    fn for_statement(&mut self) -> (r: Result<Stmt, ParseError>)
        requires
            old(self).wf(),
            !at_end(old(self).toks(), old(self).pos()),
        ensures
            final(self).wf(),
            final(self).toks() == old(self).toks(),
            old(self).pos() <= final(self).pos() <= final(self).toks().len(),
            match r {
                Ok(s) => p_for_statement(old(self).toks(), old(self).pos()) == Ok::<
                    (StmtV, int),
                    ParseErrV,
                >((s@, final(self).pos())) && old(self).pos() < final(self).pos(),
                Err(pe) => p_for_statement(old(self).toks(), old(self).pos()) == Err::<
                    (StmtV, int),
                    ParseErrV,
                >(pe@),
            },
        decreases self.toks().len() - self.pos(), 19int,
    {
        self.advance();
        match self.consume(TokenType::LeftParen, ParseErrorKind::ExpectedLeftParenAfterFor) {
            Err(pe) => {
                return Err(pe);
            },
            Ok(()) => {},
        }
        let init = match self.for_init() {
            Ok(i) => i,
            Err(er) => {
                return Err(er);
            },
        };
        let cond = match self.for_cond() {
            Ok(c) => c,
            Err(er) => {
                return Err(er);
            },
        };
        let incr = match self.for_incr() {
            Ok(i) => i,
            Err(er) => {
                return Err(er);
            },
        };
        let bd = match self.statement() {
            Ok(s) => s,
            Err(er) => {
                return Err(er);
            },
        };
        Ok(desugar_for(init, cond, incr, bd))
    }

    /// `statement → "print" … | block | "if" … | "while" … | "for" … |
    /// expression ";"`.
    #[verifier::rlimit(100)]
    fn statement(&mut self) -> (r: Result<Stmt, ParseError>)
        requires
            old(self).wf(),
        ensures
            final(self).wf(),
            final(self).toks() == old(self).toks(),
            old(self).pos() <= final(self).pos() <= final(self).toks().len(),
            match r {
                Ok(s) => p_statement(old(self).toks(), old(self).pos()) == Ok::<
                    (StmtV, int),
                    ParseErrV,
                >((s@, final(self).pos())) && old(self).pos() < final(self).pos(),
                Err(pe) => p_statement(old(self).toks(), old(self).pos()) == Err::<
                    (StmtV, int),
                    ParseErrV,
                >(pe@),
            },
        decreases self.toks().len() - self.pos(), 20int,
    {
        if self.check(TokenType::Print) {
            self.advance();
            self.print_statement()
        } else if self.check(TokenType::LeftBrace) {
            self.advance();
            match self.block() {
                Ok(b) => Ok(Stmt::Block(b)),
                Err(er) => Err(er),
            }
        } else if self.check(TokenType::If) {
            self.if_statement()
        } else if self.check(TokenType::While) {
            self.while_statement()
        } else if self.check(TokenType::For) {
            self.for_statement()
        } else {
            self.expression_statement()
        }
    }

    /// `program → declaration* EOF`: the whole statement sequence, or the
    /// first positioned failure.
    #[verifier::rlimit(100)]
    #[verifier::spinoff_prover]
    pub fn parse(&mut self) -> (r: Result<Vec<Stmt>, ParseError>)
        requires
            old(self).wf(),
        ensures
            final(self).wf(),
            final(self).toks() == old(self).toks(),
            match r {
                Ok(v) => p_program(old(self).toks(), old(self).pos()) == Ok::<
                    (Seq<StmtV>, int),
                    ParseErrV,
                >((view_stmts(v@), final(self).pos())),
                Err(pe) => p_program(old(self).toks(), old(self).pos()) == Err::<
                    (Seq<StmtV>, int),
                    ParseErrV,
                >(pe@),
            },
    {
        let mut statements: Vec<Stmt> = Vec::new();
        while !self.is_at_end()
            invariant
                self.wf(),
                self.toks() == old(self).toks(),
                old(self).pos() <= self.pos() <= self.toks().len(),
                p_program(old(self).toks(), old(self).pos()) == prepend_stmts(
                    view_stmts(statements@),
                    p_program(old(self).toks(), self.pos()),
                ),
            decreases self.toks().len() - self.pos(),
        {
            let ghost pre = statements@;
            match self.declaration() {
                Ok(s) => {
                    statements.push(s);
                    proof {
                        let sv = statements@.last();
                        crate::stmt::lemma_view_stmts_push(pre, sv);
                        match p_program(old(self).toks(), self.pos()) {
                            Ok((ss, p3)) => {
                                assert(view_stmts(pre) + (seq![sv@] + ss) =~= view_stmts(
                                    pre.push(sv),
                                ) + ss);
                            },
                            Err(_) => {},
                        }
                    }
                },
                Err(er) => {
                    return Err(er);
                },
            }
        }
        proof {
            assert(view_stmts(statements@) + Seq::<StmtV>::empty() =~= view_stmts(statements@));
        }
        Ok(statements)
    }

    /// `expression → assignment`.
    pub fn expression(&mut self) -> (r: Result<Expr, ParseError>)
        requires
            old(self).wf(),
        ensures
            final(self).wf(),
            final(self).toks() == old(self).toks(),
            old(self).pos() <= final(self).pos() <= final(self).toks().len(),
            match r {
                Ok(e) => p_expression(old(self).toks(), old(self).pos()) == Ok::<
                    (ExprV, int),
                    ParseErrV,
                >((e@, final(self).pos())) && old(self).pos() < final(self).pos(),
                Err(pe) => p_expression(old(self).toks(), old(self).pos()) == Err::<
                    (ExprV, int),
                    ParseErrV,
                >(pe@),
            },
        decreases self.toks().len() - self.pos(), 15int,
    {
        self.assignment()
    }
}

} // verus!
