//! The tree-walking evaluator.
//!
//! Expression evaluation is specified by [`eval_expr`], a total function
//! from an expression tree and an environment model to a value and an
//! updated model, or to the first runtime failure. Statement execution may
//! loop forever, so [`exec_stmt`] takes fuel, one unit paying for one
//! statement entry: `None` means the fuel ran out. The executable
//! interpreter threads the same budget and returns exactly what the
//! specification returns at that budget.

use vstd::prelude::*;

use crate::ast::Binary;
use crate::ast::Comparison;
use crate::ast::Expr;
use crate::ast::ExprV;
use crate::ast::Logical;
use crate::ast::Unary;
use crate::env::EnvV;
use crate::env::ScopeV;
use crate::env::Environment;
use crate::env::env_assign;
use crate::env::env_define;
use crate::env::env_get;
use crate::env::env_push;
use crate::num::div_mantissa;
use crate::num::fits_i64;
use crate::num::mul_mantissa;
use crate::stmt::Block;
use crate::stmt::Stmt;
use crate::stmt::StmtV;
use crate::stmt::While;
use crate::stmt::view_stmts;
use crate::stmt::lemma_view_stmts_index;
use crate::stmt::lemma_view_stmts_len;
use crate::token::LiteralTypes;
use crate::token::TokenType;
use crate::token::TokenV;
use crate::token::ValueV;
use crate::token::bytes_clone;
use crate::token::clone_literal;
use crate::token::equal_value;
use crate::token::render_value;
use crate::token::truthy;

verus! {

/// A runtime failure, carrying the source line of the token that caused it.
#[derive(Debug, PartialEq)]
pub enum RuntimeError {
    /// `+` on anything but two numbers or two strings.
    PlusOperands { line: usize },
    /// Unary `-` on a value that is not a number.
    UnaryMinusOperand { line: usize },
    /// `-`, `*`, `/` or an ordered comparison on values that are not both
    /// numbers.
    NumberOperands { line: usize },
    /// `/` with divisor zero.
    DivisionByZero { line: usize },
    /// An arithmetic result outside the representable fixed-point range.
    Overflow { line: usize },
    /// A read of, or an assignment to, a name no scope binds.
    UndefinedVariable { line: usize, name: Vec<u8> },
    /// The statement budget handed to `interpret` ran out before the
    /// program finished.
    OutOfFuel,
}

/// Mathematical model of a runtime failure.
pub enum RunErrV {
    PlusOperands { line: nat },
    UnaryMinusOperand { line: nat },
    NumberOperands { line: nat },
    DivisionByZero { line: nat },
    Overflow { line: nat },
    UndefinedVariable { line: nat, name: Seq<u8> },
    OutOfFuel,
}

impl View for RuntimeError {
    type V = RunErrV;

    open spec fn view(&self) -> RunErrV {
        match self {
            RuntimeError::PlusOperands { line } => RunErrV::PlusOperands { line: *line as nat },
            RuntimeError::UnaryMinusOperand { line } => RunErrV::UnaryMinusOperand {
                line: *line as nat,
            },
            RuntimeError::NumberOperands { line } => RunErrV::NumberOperands {
                line: *line as nat,
            },
            RuntimeError::DivisionByZero { line } => RunErrV::DivisionByZero {
                line: *line as nat,
            },
            RuntimeError::Overflow { line } => RunErrV::Overflow { line: *line as nat },
            RuntimeError::UndefinedVariable { line, name } => RunErrV::UndefinedVariable {
                line: *line as nat,
                name: name@,
            },
            RuntimeError::OutOfFuel => RunErrV::OutOfFuel,
        }
    }
}

/// What unary `-` and `!` return: `-` demands a number and `!` negates
/// truthiness; negating the one unrepresentable mantissa overflows.
pub open spec fn eval_unary_op(op: TokenV, v: ValueV) -> Result<ValueV, RunErrV> {
    if op.ttype == TokenType::Minus {
        match v {
            ValueV::Num(m) => if m != i64::MIN {
                Ok(ValueV::Num(-m))
            } else {
                Err(RunErrV::Overflow { line: op.line })
            },
            _ => Err(RunErrV::UnaryMinusOperand { line: op.line }),
        }
    } else if op.ttype == TokenType::Bang {
        Ok(ValueV::Bool(!truthy(v)))
    } else {
        Ok(ValueV::Nil)
    }
}

/// What the arithmetic operators return: `+` adds numbers or concatenates
/// strings, `-` and `*` demand numbers, `/` additionally rejects a zero
/// divisor; a result outside the fixed-point range overflows.
pub open spec fn eval_binary_op(op: TokenV, l: ValueV, r: ValueV) -> Result<ValueV, RunErrV> {
    match op.ttype {
        TokenType::Plus => match (l, r) {
            (ValueV::Num(a), ValueV::Num(b)) => if fits_i64(a + b) {
                Ok(ValueV::Num(a + b))
            } else {
                Err(RunErrV::Overflow { line: op.line })
            },
            (ValueV::Str(a), ValueV::Str(b)) => Ok(ValueV::Str(a + b)),
            _ => Err(RunErrV::PlusOperands { line: op.line }),
        },
        TokenType::Minus => match (l, r) {
            (ValueV::Num(a), ValueV::Num(b)) => if fits_i64(a - b) {
                Ok(ValueV::Num(a - b))
            } else {
                Err(RunErrV::Overflow { line: op.line })
            },
            _ => Err(RunErrV::NumberOperands { line: op.line }),
        },
        TokenType::Star => match (l, r) {
            (ValueV::Num(a), ValueV::Num(b)) => if fits_i64(mul_mantissa(a, b)) {
                Ok(ValueV::Num(mul_mantissa(a, b)))
            } else {
                Err(RunErrV::Overflow { line: op.line })
            },
            _ => Err(RunErrV::NumberOperands { line: op.line }),
        },
        TokenType::Slash => match (l, r) {
            (ValueV::Num(a), ValueV::Num(b)) => if b == 0 {
                Err(RunErrV::DivisionByZero { line: op.line })
            } else if fits_i64(div_mantissa(a, b)) {
                Ok(ValueV::Num(div_mantissa(a, b)))
            } else {
                Err(RunErrV::Overflow { line: op.line })
            },
            _ => Err(RunErrV::NumberOperands { line: op.line }),
        },
        _ => Err(RunErrV::NumberOperands { line: op.line }),
    }
}

/// What the comparison operators return: the four ordered comparisons
/// demand two numbers; equality is total, with the `nil`/`false` special
/// case of [`equal_value`].
pub open spec fn eval_comparison_op(op: TokenV, l: ValueV, r: ValueV) -> Result<
    ValueV,
    RunErrV,
> {
    match op.ttype {
        TokenType::Greater => match (l, r) {
            (ValueV::Num(a), ValueV::Num(b)) => Ok(ValueV::Bool(a > b)),
            _ => Err(RunErrV::NumberOperands { line: op.line }),
        },
        TokenType::GreaterEqual => match (l, r) {
            (ValueV::Num(a), ValueV::Num(b)) => Ok(ValueV::Bool(a >= b)),
            _ => Err(RunErrV::NumberOperands { line: op.line }),
        },
        TokenType::Less => match (l, r) {
            (ValueV::Num(a), ValueV::Num(b)) => Ok(ValueV::Bool(a < b)),
            _ => Err(RunErrV::NumberOperands { line: op.line }),
        },
        TokenType::LessEqual => match (l, r) {
            (ValueV::Num(a), ValueV::Num(b)) => Ok(ValueV::Bool(a <= b)),
            _ => Err(RunErrV::NumberOperands { line: op.line }),
        },
        TokenType::BangEqual => Ok(ValueV::Bool(!equal_value(l, r))),
        TokenType::EqualEqual => Ok(ValueV::Bool(equal_value(l, r))),
        _ => Ok(ValueV::Bool(false)),
    }
}

/// Evaluation of an expression against an environment model: the value and
/// the environment after any embedded assignments, or the first failure.
/// Operands evaluate left to right; `and`/`or` short-circuit and return the
/// deciding operand's raw value.
pub open spec fn eval_expr(e: ExprV, env: EnvV) -> Result<(ValueV, EnvV), RunErrV>
    decreases e,
{
    match e {
        ExprV::Literal(v) => Ok((v, env)),
        ExprV::Grouping(inner) => eval_expr(*inner, env),
        ExprV::Unary { op, right } => match eval_expr(*right, env) {
            Ok((v, env1)) => match eval_unary_op(op, v) {
                Ok(v2) => Ok((v2, env1)),
                Err(er) => Err(er),
            },
            Err(er) => Err(er),
        },
        ExprV::Binary { left, op, right } => match eval_expr(*left, env) {
            Ok((lv, env1)) => match eval_expr(*right, env1) {
                Ok((rv, env2)) => match eval_binary_op(op, lv, rv) {
                    Ok(v) => Ok((v, env2)),
                    Err(er) => Err(er),
                },
                Err(er) => Err(er),
            },
            Err(er) => Err(er),
        },
        ExprV::Comparison { left, op, right } => match eval_expr(*left, env) {
            Ok((lv, env1)) => match eval_expr(*right, env1) {
                Ok((rv, env2)) => match eval_comparison_op(op, lv, rv) {
                    Ok(v) => Ok((v, env2)),
                    Err(er) => Err(er),
                },
                Err(er) => Err(er),
            },
            Err(er) => Err(er),
        },
        ExprV::Variable(tok) => match env_get(env, tok.lexeme) {
            Some(v) => Ok((v, env)),
            None => Err(RunErrV::UndefinedVariable { line: tok.line, name: tok.lexeme }),
        },
        ExprV::Assign { name, value } => match eval_expr(*value, env) {
            Ok((v, env1)) => match env_assign(env1, name.lexeme, v) {
                Some(env2) => Ok((v, env2)),
                None => Err(RunErrV::UndefinedVariable { line: name.line, name: name.lexeme }),
            },
            Err(er) => Err(er),
        },
        ExprV::Logical { left, op, right } => match eval_expr(*left, env) {
            Ok((lv, env1)) => if op.ttype == TokenType::Or {
                if truthy(lv) {
                    Ok((lv, env1))
                } else {
                    eval_expr(*right, env1)
                }
            } else {
                if !truthy(lv) {
                    Ok((lv, env1))
                } else {
                    eval_expr(*right, env1)
                }
            },
            Err(er) => Err(er),
        },
    }
}

/// Interpreter state: the environment and the lines printed so far.
pub struct StateV {
    pub env: EnvV,
    pub output: Seq<Seq<u8>>,
}

/// Execution of one statement with the given fuel: `None` when the fuel
/// ran out, otherwise the state reached and the fuel left over, or the
/// first runtime failure. One unit of fuel pays for entering one statement,
/// a `while` loop paying again for every iteration; everything else runs on
/// what is left. A block runs its statements in a fresh child scope and
/// restores the current scope on the way out; `print` appends one rendered
/// line to the output.
pub open spec fn exec_stmt(s: StmtV, st: StateV, fuel: nat) -> Option<
    Result<(StateV, nat), RunErrV>,
>
    decreases fuel, s,
{
    if fuel == 0 {
        None
    } else {
        let f = (fuel - 1) as nat;
        match s {
            StmtV::Expression(e) => match eval_expr(e, st.env) {
                Ok((_, env1)) => Some(Ok((StateV { env: env1, output: st.output }, f))),
                Err(er) => Some(Err(er)),
            },
            StmtV::Print(e) => match eval_expr(e, st.env) {
                Ok((v, env1)) => Some(
                    Ok((StateV { env: env1, output: st.output.push(render_value(v)) }, f)),
                ),
                Err(er) => Some(Err(er)),
            },
            StmtV::Var { name, initializer } => match eval_expr(initializer, st.env) {
                Ok((v, env1)) => Some(
                    Ok((StateV { env: env_define(env1, name.lexeme, v), output: st.output }, f)),
                ),
                Err(er) => Some(Err(er)),
            },
            StmtV::Block(ss) => match exec_stmts(
                ss,
                StateV { env: env_push(st.env), output: st.output },
                f,
            ) {
                Some(Ok((st1, f1))) => Some(
                    Ok(
                        (
                            StateV {
                                env: EnvV { scopes: st1.env.scopes, current: st.env.current },
                                output: st1.output,
                            },
                            f1,
                        ),
                    ),
                ),
                r => r,
            },
            StmtV::If { condition, then_branch, else_branch } => match eval_expr(
                condition,
                st.env,
            ) {
                Ok((v, env1)) => if truthy(v) {
                    exec_stmt(*then_branch, StateV { env: env1, output: st.output }, f)
                } else {
                    match else_branch {
                        Some(eb) => exec_stmt(*eb, StateV { env: env1, output: st.output }, f),
                        None => Some(Ok((StateV { env: env1, output: st.output }, f))),
                    }
                },
                Err(er) => Some(Err(er)),
            },
            StmtV::While { condition, body } => match eval_expr(condition, st.env) {
                Ok((v, env1)) => if !truthy(v) {
                    Some(Ok((StateV { env: env1, output: st.output }, f)))
                } else {
                    match exec_stmt(*body, StateV { env: env1, output: st.output }, f) {
                        Some(Ok((st1, f1))) => if f1 <= f {
                            exec_stmt(s, st1, f1)
                        } else {
                            None
                        },
                        r => r,
                    }
                },
                Err(er) => Some(Err(er)),
            },
        }
    }
}

/// Execution of a statement sequence, left to right, each statement running
/// on the fuel the one before left over, stopping at the first failure.
pub open spec fn exec_stmts(ss: Seq<StmtV>, st: StateV, fuel: nat) -> Option<
    Result<(StateV, nat), RunErrV>,
>
    decreases fuel, ss,
{
    if ss.len() == 0 {
        Some(Ok((st, fuel)))
    } else {
        match exec_stmt(ss.first(), st, fuel) {
            Some(Ok((st1, f1))) => if f1 <= fuel {
                exec_stmts(ss.drop_first(), st1, f1)
            } else {
                None
            },
            r => r,
        }
    }
}

/// A run never ends with more fuel than it started with.
pub proof fn lemma_exec_stmt_fuel_bound(s: StmtV, st: StateV, fuel: nat)
    ensures
        exec_stmt(s, st, fuel) matches Some(Ok((st1, f1))) ==> f1 < fuel,
    decreases fuel, s,
{
    if fuel > 0 {
        let f = (fuel - 1) as nat;
        match s {
            StmtV::Block(ss) => {
                lemma_exec_stmts_fuel_bound(ss, StateV { env: env_push(st.env), output: st.output }, f);
            },
            StmtV::If { condition, then_branch, else_branch } => {
                match eval_expr(condition, st.env) {
                    Ok((v, env1)) => {
                        let st1 = StateV { env: env1, output: st.output };
                        if truthy(v) {
                            lemma_exec_stmt_fuel_bound(*then_branch, st1, f);
                        } else {
                            match else_branch {
                                Some(eb) => {
                                    lemma_exec_stmt_fuel_bound(*eb, st1, f);
                                },
                                None => {},
                            }
                        }
                    },
                    Err(_) => {},
                }
            },
            StmtV::While { condition, body } => {
                match eval_expr(condition, st.env) {
                    Ok((v, env1)) => {
                        let st1 = StateV { env: env1, output: st.output };
                        if truthy(v) {
                            lemma_exec_stmt_fuel_bound(*body, st1, f);
                            match exec_stmt(*body, st1, f) {
                                Some(Ok((st2, f1))) => {
                                    if f1 <= f {
                                        lemma_exec_stmt_fuel_bound(s, st2, f1);
                                    }
                                },
                                _ => {},
                            }
                        }
                    },
                    Err(_) => {},
                }
            },
            _ => {},
        }
    }
}

/// A sequence run never ends with more fuel than it started with.
pub proof fn lemma_exec_stmts_fuel_bound(ss: Seq<StmtV>, st: StateV, fuel: nat)
    ensures
        exec_stmts(ss, st, fuel) matches Some(Ok((st1, f1))) ==> f1 <= fuel,
    decreases fuel, ss,
{
    if ss.len() > 0 {
        lemma_exec_stmt_fuel_bound(ss.first(), st, fuel);
        match exec_stmt(ss.first(), st, fuel) {
            Some(Ok((st1, f1))) => {
                if f1 <= fuel {
                    lemma_exec_stmts_fuel_bound(ss.drop_first(), st1, f1);
                }
            },
            _ => {},
        }
    }
}

/// The outcome of a statement sequence, with the leftover fuel dropped:
/// what a whole program run produces.
pub open spec fn run_stmts(ss: Seq<StmtV>, st: StateV, fuel: nat) -> Option<
    Result<StateV, RunErrV>,
> {
    match exec_stmts(ss, st, fuel) {
        Some(Ok((st1, _))) => Some(Ok(st1)),
        Some(Err(er)) => Some(Err(er)),
        None => None,
    }
}

/// More fuel never changes an outcome that was already reached: the run
/// ends in the same state, with the extra fuel left over.
pub proof fn lemma_exec_stmt_mono(s: StmtV, st: StateV, f1: nat, f2: nat)
    requires
        f1 <= f2,
        exec_stmt(s, st, f1) is Some,
    ensures
        match exec_stmt(s, st, f1) {
            Some(Ok((st1, fl))) => exec_stmt(s, st, f2) == Some(
                Ok::<(StateV, nat), RunErrV>((st1, (fl + f2 - f1) as nat)),
            ),
            Some(Err(er)) => exec_stmt(s, st, f2) == Some(Err::<(StateV, nat), RunErrV>(er)),
            None => true,
        },
    decreases f1, s,
{
    let fa = (f1 - 1) as nat;
    let fb = (f2 - 1) as nat;
    match s {
        StmtV::Block(ss) => {
            let inner = StateV { env: env_push(st.env), output: st.output };
            if exec_stmts(ss, inner, fa) is Some {
                lemma_exec_stmts_mono(ss, inner, fa, fb);
            }
        },
        StmtV::If { condition, then_branch, else_branch } => {
            match eval_expr(condition, st.env) {
                Ok((v, env1)) => {
                    let st1 = StateV { env: env1, output: st.output };
                    if truthy(v) {
                        if exec_stmt(*then_branch, st1, fa) is Some {
                            lemma_exec_stmt_mono(*then_branch, st1, fa, fb);
                        }
                    } else {
                        match else_branch {
                            Some(eb) => {
                                if exec_stmt(*eb, st1, fa) is Some {
                                    lemma_exec_stmt_mono(*eb, st1, fa, fb);
                                }
                            },
                            None => {},
                        }
                    }
                },
                Err(_) => {},
            }
        },
        StmtV::While { condition, body } => {
            match eval_expr(condition, st.env) {
                Ok((v, env1)) => {
                    let st1 = StateV { env: env1, output: st.output };
                    if truthy(v) {
                        match exec_stmt(*body, st1, fa) {
                            Some(Ok((st2, fl))) => {
                                lemma_exec_stmt_fuel_bound(*body, st1, fa);
                                lemma_exec_stmt_mono(*body, st1, fa, fb);
                                if exec_stmt(s, st2, fl) is Some {
                                    lemma_exec_stmt_mono(s, st2, fl, (fl + fb - fa) as nat);
                                }
                            },
                            Some(Err(_)) => {
                                lemma_exec_stmt_mono(*body, st1, fa, fb);
                            },
                            None => {},
                        }
                    }
                },
                Err(_) => {},
            }
        },
        _ => {},
    }
}

/// More fuel never changes an outcome that was already reached.
pub proof fn lemma_exec_stmts_mono(ss: Seq<StmtV>, st: StateV, f1: nat, f2: nat)
    requires
        f1 <= f2,
        exec_stmts(ss, st, f1) is Some,
    ensures
        match exec_stmts(ss, st, f1) {
            Some(Ok((st1, fl))) => exec_stmts(ss, st, f2) == Some(
                Ok::<(StateV, nat), RunErrV>((st1, (fl + f2 - f1) as nat)),
            ),
            Some(Err(er)) => exec_stmts(ss, st, f2) == Some(Err::<(StateV, nat), RunErrV>(er)),
            None => true,
        },
    decreases f1, ss,
{
    if ss.len() > 0 {
        match exec_stmt(ss.first(), st, f1) {
            Some(Ok((st1, fl))) => {
                lemma_exec_stmt_fuel_bound(ss.first(), st, f1);
                lemma_exec_stmt_mono(ss.first(), st, f1, f2);
                if exec_stmts(ss.drop_first(), st1, fl) is Some {
                    lemma_exec_stmts_mono(ss.drop_first(), st1, fl, (fl + f2 - f1) as nat);
                }
            },
            Some(Err(_)) => {
                lemma_exec_stmt_mono(ss.first(), st, f1, f2);
            },
            None => {},
        }
    }
}

/// A program's observable outcome does not depend on which fuel sufficed:
/// two completed runs of the same statements from the same state agree.
pub proof fn lemma_run_deterministic(ss: Seq<StmtV>, st: StateV, f1: nat, f2: nat)
    requires
        run_stmts(ss, st, f1) is Some,
        run_stmts(ss, st, f2) is Some,
    ensures
        run_stmts(ss, st, f1) == run_stmts(ss, st, f2),
{
    if f1 <= f2 {
        lemma_exec_stmts_mono(ss, st, f1, f2);
    } else {
        lemma_exec_stmts_mono(ss, st, f2, f1);
    }
}

/// Unary minus is an involution: for every number whose negation is
/// representable, evaluating `- - x` yields `x` back exactly and leaves the
/// environment untouched. (The one mantissa without a representable
/// negation reports an overflow instead.)
pub proof fn lemma_double_negation(op1: TokenV, op2: TokenV, m: int, env: EnvV)
    requires
        op1.ttype == TokenType::Minus,
        op2.ttype == TokenType::Minus,
        i64::MIN < m <= i64::MAX,
    ensures
        eval_expr(
            ExprV::Unary {
                op: op1,
                right: Box::new(
                    ExprV::Unary { op: op2, right: Box::new(ExprV::Literal(ValueV::Num(m))) },
                ),
            },
            env,
        ) == Ok::<(ValueV, EnvV), RunErrV>((ValueV::Num(m), env)),
{
    reveal_with_fuel(eval_expr, 3);
}

/// Double logical negation normalizes any value to the boolean of its
/// truthiness: `!!v` evaluates to `Bool(truthy(v))`, whatever `v` is.
pub proof fn lemma_double_bang(op1: TokenV, op2: TokenV, v: ValueV, env: EnvV)
    requires
        op1.ttype == TokenType::Bang,
        op2.ttype == TokenType::Bang,
    ensures
        eval_expr(
            ExprV::Unary {
                op: op1,
                right: Box::new(
                    ExprV::Unary { op: op2, right: Box::new(ExprV::Literal(v)) },
                ),
            },
            env,
        ) == Ok::<(ValueV, EnvV), RunErrV>((ValueV::Bool(truthy(v)), env)),
{
    reveal_with_fuel(eval_expr, 3);
}

/// The equality special case: `nil` equals `false` in both directions, yet
/// `nil` does not equal the number zero.
pub proof fn lemma_nil_false_equality()
    ensures
        equal_value(ValueV::Nil, ValueV::Bool(false)),
        equal_value(ValueV::Bool(false), ValueV::Nil),
        !equal_value(ValueV::Nil, ValueV::Num(0)),
{
}

/// Dividing a number by the number zero always fails with a
/// division-by-zero error at the operator's line, never a value.
pub proof fn lemma_division_by_zero(op: TokenV, l: ValueV)
    requires
        op.ttype == TokenType::Slash,
        l is Num,
    ensures
        eval_binary_op(op, l, ValueV::Num(0)) == Err::<ValueV, RunErrV>(
            RunErrV::DivisionByZero { line: op.line },
        ),
{
}

/// The state a fresh interpreter starts in: one empty global scope, no
/// output.
pub open spec fn init_state() -> StateV {
    StateV {
        env: EnvV { scopes: seq![ScopeV { map: Map::empty(), parent: None }], current: 0 },
        output: Seq::empty(),
    }
}

/// The model of a `while` statement node.
pub open spec fn while_view(w: &While) -> StmtV {
    StmtV::While { condition: w.condition@, body: Box::new((*w.body)@) }
}

/// The model of a block statement node.
pub open spec fn block_view(b: &Block) -> StmtV {
    StmtV::Block(view_stmts(b.statements@))
}

/// The tree-walking interpreter: a current environment and the lines its
/// `print` statements have produced.
pub struct Interpreter {
    environment: Environment,
    output: Vec<Vec<u8>>,
}

impl View for Interpreter {
    type V = StateV;

    closed spec fn view(&self) -> StateV {
        StateV { env: self.environment@, output: self.output.deep_view() }
    }
}

impl Interpreter {
    pub closed spec fn wf(&self) -> bool {
        self.environment.wf()
    }

    /// A fresh interpreter over a single empty global scope.
    pub fn new() -> (r: Interpreter)
        ensures
            r.wf(),
            r@ == init_state(),
    {
        let r = Interpreter { environment: Environment::new(), output: Vec::new() };
        proof {
            assert(r@.env.scopes =~= init_state().env.scopes);
            assert(r@.output =~~= init_state().output);
        }
        r
    }

    /// The lines printed so far, in order.
    pub fn output(&self) -> (r: &Vec<Vec<u8>>)
        ensures
            r.deep_view() == self@.output,
    {
        &self.output
    }

    /// Consumes the interpreter, handing its printed lines out.
    pub fn take_output(self) -> (r: Vec<Vec<u8>>)
        ensures
            r.deep_view() == self@.output,
    {
        self.output
    }

    /// Evaluates one expression, mutating the environment exactly as the
    /// assignments embedded in it demand.
    #[verifier::rlimit(60)]
    pub fn evaluate(&mut self, e: &Expr) -> (r: Result<LiteralTypes, RuntimeError>)
        requires
            old(self).wf(),
        ensures
            final(self).wf(),
            final(self)@.output == old(self)@.output,
            final(self)@.env.current == old(self)@.env.current,
            final(self)@.env.scopes.len() == old(self)@.env.scopes.len(),
            forall|i: int|
                0 <= i < old(self)@.env.scopes.len() ==> #[trigger] final(self)@.env.scopes[i].parent
                    == old(self)@.env.scopes[i].parent,
            match r {
                Ok(v) => eval_expr(e@, old(self)@.env) == Ok::<(ValueV, EnvV), RunErrV>(
                    (v@, final(self)@.env),
                ),
                Err(er) => eval_expr(e@, old(self)@.env) == Err::<(ValueV, EnvV), RunErrV>(er@)
                    && !(er is OutOfFuel),
            },
        decreases e,
    {
        match e {
            Expr::Literal(v) => Ok(clone_literal(v)),
            Expr::Grouping(g) => self.evaluate(&g.expr),
            Expr::Unary(u) => {
                let rv = match self.evaluate(&u.right) {
                    Ok(v) => v,
                    Err(er) => {
                        return Err(er);
                    },
                };
                match u.op.ttype {
                    TokenType::Minus => match rv {
                        LiteralTypes::Number(n) => match n.neg() {
                            Some(m) => Ok(LiteralTypes::Number(m)),
                            None => Err(RuntimeError::Overflow { line: u.op.line }),
                        },
                        _ => Err(RuntimeError::UnaryMinusOperand { line: u.op.line }),
                    },
                    TokenType::Bang => Ok(LiteralTypes::Bool(!rv.is_true())),
                    _ => Ok(LiteralTypes::Nil),
                }
            },
            Expr::Binary(b) => {
                let lv = match self.evaluate(&b.left) {
                    Ok(v) => v,
                    Err(er) => {
                        return Err(er);
                    },
                };
                let rv = match self.evaluate(&b.right) {
                    Ok(v) => v,
                    Err(er) => {
                        return Err(er);
                    },
                };
                match b.op.ttype {
                    TokenType::Plus => match (lv, rv) {
                        (LiteralTypes::Number(x), LiteralTypes::Number(y)) => match x.add(y) {
                            Some(n) => Ok(LiteralTypes::Number(n)),
                            None => Err(RuntimeError::Overflow { line: b.op.line }),
                        },
                        (LiteralTypes::String(x), LiteralTypes::String(y)) => {
                            let mut out = x;
                            let mut tail = y;
                            out.append(&mut tail);
                            Ok(LiteralTypes::String(out))
                        },
                        _ => Err(RuntimeError::PlusOperands { line: b.op.line }),
                    },
                    TokenType::Minus => match (lv, rv) {
                        (LiteralTypes::Number(x), LiteralTypes::Number(y)) => match x.sub(y) {
                            Some(n) => Ok(LiteralTypes::Number(n)),
                            None => Err(RuntimeError::Overflow { line: b.op.line }),
                        },
                        _ => Err(RuntimeError::NumberOperands { line: b.op.line }),
                    },
                    TokenType::Star => match (lv, rv) {
                        (LiteralTypes::Number(x), LiteralTypes::Number(y)) => match x.mul(y) {
                            Some(n) => Ok(LiteralTypes::Number(n)),
                            None => Err(RuntimeError::Overflow { line: b.op.line }),
                        },
                        _ => Err(RuntimeError::NumberOperands { line: b.op.line }),
                    },
                    TokenType::Slash => match (lv, rv) {
                        (LiteralTypes::Number(x), LiteralTypes::Number(y)) => {
                            if y.mantissa == 0 {
                                Err(RuntimeError::DivisionByZero { line: b.op.line })
                            } else {
                                match x.div(y) {
                                    Some(n) => Ok(LiteralTypes::Number(n)),
                                    None => Err(RuntimeError::Overflow { line: b.op.line }),
                                }
                            }
                        },
                        _ => Err(RuntimeError::NumberOperands { line: b.op.line }),
                    },
                    _ => Err(RuntimeError::NumberOperands { line: b.op.line }),
                }
            },
            Expr::Comparison(c) => {
                let lv = match self.evaluate(&c.left) {
                    Ok(v) => v,
                    Err(er) => {
                        return Err(er);
                    },
                };
                let rv = match self.evaluate(&c.right) {
                    Ok(v) => v,
                    Err(er) => {
                        return Err(er);
                    },
                };
                match c.op.ttype {
                    TokenType::Greater => match (lv, rv) {
                        (LiteralTypes::Number(x), LiteralTypes::Number(y)) => Ok(
                            LiteralTypes::Bool(x.mantissa > y.mantissa),
                        ),
                        _ => Err(RuntimeError::NumberOperands { line: c.op.line }),
                    },
                    TokenType::GreaterEqual => match (lv, rv) {
                        (LiteralTypes::Number(x), LiteralTypes::Number(y)) => Ok(
                            LiteralTypes::Bool(x.mantissa >= y.mantissa),
                        ),
                        _ => Err(RuntimeError::NumberOperands { line: c.op.line }),
                    },
                    TokenType::Less => match (lv, rv) {
                        (LiteralTypes::Number(x), LiteralTypes::Number(y)) => Ok(
                            LiteralTypes::Bool(x.mantissa < y.mantissa),
                        ),
                        _ => Err(RuntimeError::NumberOperands { line: c.op.line }),
                    },
                    TokenType::LessEqual => match (lv, rv) {
                        (LiteralTypes::Number(x), LiteralTypes::Number(y)) => Ok(
                            LiteralTypes::Bool(x.mantissa <= y.mantissa),
                        ),
                        _ => Err(RuntimeError::NumberOperands { line: c.op.line }),
                    },
                    TokenType::BangEqual => Ok(LiteralTypes::Bool(!lv.equal(&rv))),
                    TokenType::EqualEqual => Ok(LiteralTypes::Bool(lv.equal(&rv))),
                    _ => Ok(LiteralTypes::Bool(false)),
                }
            },
            Expr::Variable(var) => match self.environment.get(&var.identifier) {
                Some(v) => Ok(v),
                None => Err(
                    RuntimeError::UndefinedVariable {
                        line: var.identifier.line,
                        name: bytes_clone(&var.identifier.lexeme),
                    },
                ),
            },
            Expr::Assign(a) => {
                let v = match self.evaluate(&a.value) {
                    Ok(v) => v,
                    Err(er) => {
                        return Err(er);
                    },
                };
                let vc = clone_literal(&v);
                match self.environment.assign(&a.name, vc) {
                    Ok(()) => Ok(v),
                    Err(()) => Err(
                        RuntimeError::UndefinedVariable {
                            line: a.name.line,
                            name: bytes_clone(&a.name.lexeme),
                        },
                    ),
                }
            },
            Expr::Logical(l) => {
                let lv = match self.evaluate(&l.left) {
                    Ok(v) => v,
                    Err(er) => {
                        return Err(er);
                    },
                };
                let take_left = if l.op.ttype == TokenType::Or {
                    lv.is_true()
                } else {
                    !lv.is_true()
                };
                if take_left {
                    Ok(lv)
                } else {
                    self.evaluate(&l.right)
                }
            },
        }
    }

    /// Executes one statement against the fuel budget, decrementing it once
    /// per statement entered and once per `while` iteration.
    #[verifier::rlimit(60)]
    fn execute(&mut self, stmt: &Stmt, fuel: &mut u64) -> (r: Result<(), RuntimeError>)
        requires
            old(self).wf(),
        ensures
            final(self).wf(),
            final(self)@.env.current == old(self)@.env.current,
            final(self)@.env.scopes.len() >= old(self)@.env.scopes.len(),
            forall|i: int|
                0 <= i < old(self)@.env.scopes.len() ==> #[trigger] final(self)@.env.scopes[i].parent
                    == old(self)@.env.scopes[i].parent,
            *final(fuel) <= *old(fuel),
            match r {
                Ok(()) => exec_stmt(stmt@, old(self)@, (*old(fuel)) as nat) == Some(
                    Ok::<(StateV, nat), RunErrV>((final(self)@, (*final(fuel)) as nat)),
                ),
                Err(er) => if er is OutOfFuel {
                    exec_stmt(stmt@, old(self)@, (*old(fuel)) as nat) is None
                } else {
                    exec_stmt(stmt@, old(self)@, (*old(fuel)) as nat) == Some(
                        Err::<(StateV, nat), RunErrV>(er@),
                    )
                },
            },
        decreases stmt,
    {
        if let Stmt::While(w) = stmt {
            return self.execute_while(w, fuel);
        }
        if *fuel == 0 {
            return Err(RuntimeError::OutOfFuel);
        }
        *fuel = *fuel - 1;
        match stmt {
            Stmt::Expression(e) => {
                match self.evaluate(&e.expression) {
                    Ok(_) => Ok(()),
                    Err(er) => Err(er),
                }
            },
            Stmt::Print(p) => {
                match self.evaluate(&p.expression) {
                    Ok(v) => {
                        let ghost out_pre = self@.output;
                        let line = v.stringify();
                        self.output.push(line);
                        proof {
                            assert(final(self)@.output =~~= out_pre.push(render_value(v@)));
                        }
                        Ok(())
                    },
                    Err(er) => Err(er),
                }
            },
            Stmt::Var(vs) => {
                match self.evaluate(&vs.initializer) {
                    Ok(v) => {
                        let key = bytes_clone(&vs.name.lexeme);
                        self.environment.define(key, v);
                        Ok(())
                    },
                    Err(er) => Err(er),
                }
            },
            Stmt::Block(b) => self.execute_block(b, fuel),
            Stmt::If(i) => {
                let c = match self.evaluate(&i.condition) {
                    Ok(v) => v,
                    Err(er) => {
                        return Err(er);
                    },
                };
                if c.is_true() {
                    self.execute(&i.then_branch, fuel)
                } else {
                    match &i.else_branch {
                        Some(eb) => self.execute(eb, fuel),
                        None => Ok(()),
                    }
                }
            },
            Stmt::While(w) => self.execute_while(w, fuel),
        }
    }

    /// Runs a block's statements in a fresh child scope and restores the
    /// enclosing scope on every exit path, error or not. The caller has
    /// already paid the block's own fuel tick.
    #[verifier::rlimit(60)]
    fn execute_block(&mut self, b: &Block, fuel: &mut u64) -> (r: Result<(), RuntimeError>)
        requires
            old(self).wf(),
        ensures
            final(self).wf(),
            final(self)@.env.current == old(self)@.env.current,
            final(self)@.env.scopes.len() >= old(self)@.env.scopes.len(),
            forall|i: int|
                0 <= i < old(self)@.env.scopes.len() ==> #[trigger] final(self)@.env.scopes[i].parent
                    == old(self)@.env.scopes[i].parent,
            *final(fuel) <= *old(fuel),
            match r {
                Ok(()) => exec_stmt(block_view(b), old(self)@, ((*old(fuel)) + 1) as nat) == Some(
                    Ok::<(StateV, nat), RunErrV>((final(self)@, (*final(fuel)) as nat)),
                ),
                Err(er) => if er is OutOfFuel {
                    exec_stmt(block_view(b), old(self)@, ((*old(fuel)) + 1) as nat) is None
                } else {
                    exec_stmt(block_view(b), old(self)@, ((*old(fuel)) + 1) as nat) == Some(
                        Err::<(StateV, nat), RunErrV>(er@),
                    )
                },
            },
        decreases b,
    {
        self.environment.new_with_enclosing();
        let ghost sti = self@;
        let ghost f_in = (*fuel) as nat;
        proof {
            assert(view_stmts(b.statements@).skip(0) =~= view_stmts(b.statements@));
        }
        let mut i: usize = 0;
        while i < b.statements.len()
            invariant
                self.wf(),
                i <= b.statements@.len(),
                sti == (StateV { env: env_push(old(self)@.env), output: old(self)@.output }),
                f_in == (*old(fuel)) as nat,
                self@.env.current == sti.env.current,
                self@.env.scopes.len() >= sti.env.scopes.len(),
                forall|k: int|
                    0 <= k < sti.env.scopes.len() ==> #[trigger] self@.env.scopes[k].parent
                        == sti.env.scopes[k].parent,
                (*fuel) as nat <= f_in,
                exec_stmts(view_stmts(b.statements@), sti, f_in) == exec_stmts(
                    view_stmts(b.statements@).skip(i as int),
                    self@,
                    (*fuel) as nat,
                ),
            decreases b.statements@.len() - i,
        {
            let ghost prev = self@;
            let ghost fuel_prev = (*fuel) as nat;
            proof {
                lemma_view_stmts_len(b.statements@);
                lemma_view_stmts_index(b.statements@, i as int);
                assert(view_stmts(b.statements@).skip(i as int).first() == b.statements@[i as int]@);
                assert(view_stmts(b.statements@).skip(i as int).drop_first() =~= view_stmts(
                    b.statements@,
                ).skip(i as int + 1));
            }
            match self.execute(&b.statements[i], fuel) {
                Ok(()) => {
                    proof {
                        assert(exec_stmts(
                            view_stmts(b.statements@).skip(i as int),
                            prev,
                            fuel_prev,
                        ) == exec_stmts(
                            view_stmts(b.statements@).skip(i as int + 1),
                            self@,
                            (*fuel) as nat,
                        ));
                    }
                    i += 1;
                },
                Err(er) => {
                    proof {
                        if er is OutOfFuel {
                            assert(exec_stmts(
                                view_stmts(b.statements@).skip(i as int),
                                prev,
                                fuel_prev,
                            ) is None);
                        } else {
                            assert(exec_stmts(
                                view_stmts(b.statements@).skip(i as int),
                                prev,
                                fuel_prev,
                            ) == Some(Err::<(StateV, nat), RunErrV>(er@)));
                        }
                        assert(self@.env.scopes[sti.env.current].parent == sti.env.scopes[sti.env.current].parent);
                    }
                    self.environment.exit_scope();
                    return Err(er);
                },
            }
        }
        proof {
            lemma_view_stmts_len(b.statements@);
            assert(view_stmts(b.statements@).skip(i as int) =~= Seq::<StmtV>::empty());
            assert(exec_stmts(view_stmts(b.statements@), sti, f_in) == Some(
                Ok::<(StateV, nat), RunErrV>((self@, (*fuel) as nat)),
            ));
            assert(self@.env.scopes[sti.env.current].parent == sti.env.scopes[sti.env.current].parent);
        }
        self.environment.exit_scope();
        Ok(())
    }

    /// Runs a `while` loop: pays one unit of fuel, re-evaluates the
    /// condition, and runs the body, over and over until the condition is
    /// falsy, the body fails, or the fuel runs out.
    #[verifier::rlimit(60)]
    fn execute_while(&mut self, w: &While, fuel: &mut u64) -> (r: Result<(), RuntimeError>)
        requires
            old(self).wf(),
        ensures
            final(self).wf(),
            final(self)@.env.current == old(self)@.env.current,
            final(self)@.env.scopes.len() >= old(self)@.env.scopes.len(),
            forall|i: int|
                0 <= i < old(self)@.env.scopes.len() ==> #[trigger] final(self)@.env.scopes[i].parent
                    == old(self)@.env.scopes[i].parent,
            *final(fuel) <= *old(fuel),
            match r {
                Ok(()) => exec_stmt(while_view(w), old(self)@, (*old(fuel)) as nat) == Some(
                    Ok::<(StateV, nat), RunErrV>((final(self)@, (*final(fuel)) as nat)),
                ),
                Err(er) => if er is OutOfFuel {
                    exec_stmt(while_view(w), old(self)@, (*old(fuel)) as nat) is None
                } else {
                    exec_stmt(while_view(w), old(self)@, (*old(fuel)) as nat) == Some(
                        Err::<(StateV, nat), RunErrV>(er@),
                    )
                },
            },
        decreases w,
    {
        loop
            invariant
                self.wf(),
                self@.env.current == old(self)@.env.current,
                self@.env.scopes.len() >= old(self)@.env.scopes.len(),
                forall|i: int|
                    0 <= i < old(self)@.env.scopes.len() ==> #[trigger] self@.env.scopes[i].parent
                        == old(self)@.env.scopes[i].parent,
                *fuel <= *old(fuel),
                exec_stmt(while_view(w), old(self)@, (*old(fuel)) as nat) == exec_stmt(
                    while_view(w),
                    self@,
                    (*fuel) as nat,
                ),
            decreases *fuel,
        {
            if *fuel == 0 {
                return Err(RuntimeError::OutOfFuel);
            }
            *fuel = *fuel - 1;
            let ghost st_top = self@;
            let ghost f_body = (*fuel) as nat;
            let c = match self.evaluate(&w.condition) {
                Ok(v) => v,
                Err(er) => {
                    return Err(er);
                },
            };
            if !c.is_true() {
                return Ok(());
            }
            let ghost st_mid = self@;
            match self.execute(&w.body, fuel) {
                Ok(()) => {
                    proof {
                        assert(exec_stmt(while_view(w), st_top, (f_body + 1) as nat) == exec_stmt(
                            while_view(w),
                            self@,
                            (*fuel) as nat,
                        ));
                    }
                },
                Err(er) => {
                    return Err(er);
                },
            }
        }
    }

    /// Runs a statement sequence against a fresh fuel budget: the observable
    /// outcome is exactly what [`run_stmts`] gives that budget, with the
    /// budget running out reported as [`RuntimeError::OutOfFuel`]. Output
    /// printed before a failure stays in the interpreter's output.
    pub fn interpret(&mut self, stmts: &Vec<Stmt>, fuel: u64) -> (r: Result<(), RuntimeError>)
        requires
            old(self).wf(),
        ensures
            final(self).wf(),
            final(self)@.env.current == old(self)@.env.current,
            match r {
                Ok(()) => run_stmts(view_stmts(stmts@), old(self)@, fuel as nat) == Some(
                    Ok::<StateV, RunErrV>(final(self)@),
                ),
                Err(er) => if er is OutOfFuel {
                    run_stmts(view_stmts(stmts@), old(self)@, fuel as nat) is None
                } else {
                    run_stmts(view_stmts(stmts@), old(self)@, fuel as nat) == Some(
                        Err::<StateV, RunErrV>(er@),
                    )
                },
            },
    {
        let mut f: u64 = fuel;
        proof {
            assert(view_stmts(stmts@).skip(0) =~= view_stmts(stmts@));
        }
        let mut i: usize = 0;
        while i < stmts.len()
            invariant
                self.wf(),
                i <= stmts@.len(),
                self@.env.current == old(self)@.env.current,
                f <= fuel,
                exec_stmts(view_stmts(stmts@), old(self)@, fuel as nat) == exec_stmts(
                    view_stmts(stmts@).skip(i as int),
                    self@,
                    f as nat,
                ),
            decreases stmts@.len() - i,
        {
            let ghost prev = self@;
            let ghost f_prev = f as nat;
            proof {
                lemma_view_stmts_len(stmts@);
                lemma_view_stmts_index(stmts@, i as int);
                assert(view_stmts(stmts@).skip(i as int).first() == stmts@[i as int]@);
                assert(view_stmts(stmts@).skip(i as int).drop_first() =~= view_stmts(
                    stmts@,
                ).skip(i as int + 1));
            }
            match self.execute(&stmts[i], &mut f) {
                Ok(()) => {
                    proof {
                        assert(exec_stmts(view_stmts(stmts@).skip(i as int), prev, f_prev)
                            == exec_stmts(
                            view_stmts(stmts@).skip(i as int + 1),
                            self@,
                            f as nat,
                        ));
                    }
                    i += 1;
                },
                Err(er) => {
                    return Err(er);
                },
            }
        }
        proof {
            lemma_view_stmts_len(stmts@);
            assert(view_stmts(stmts@).skip(i as int) =~= Seq::<StmtV>::empty());
        }
        Ok(())
    }
}

} // verus!
