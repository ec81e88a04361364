//! Front end and evaluator of a small dynamically typed scripting language:
//! a scanner that turns source bytes into tokens, a recursive-descent parser
//! that turns tokens into an abstract syntax tree, a chained-scope
//! environment, and a tree-walking interpreter that executes the tree.
//!
//! Numbers are exact decimal fixed-point values (see [`num`]): the verifier
//! works on plain integers, so every arithmetic result is either pinned down
//! exactly or reported as an overflow error at run time.

pub mod num;
pub mod token;
pub mod lexer;
pub mod env;
pub mod ast;
pub mod stmt;
pub mod inter;
pub mod parser;

use vstd::prelude::*;

use crate::inter::Interpreter;
use crate::inter::RunErrV;
use crate::inter::RuntimeError;
use crate::inter::init_state;
use crate::inter::run_stmts;
use crate::lexer::spec_scan;
use crate::parser::ParseErrV;
use crate::parser::ParseError;
use crate::parser::Parser;
use crate::parser::spec_parse;

verus! {

/// Why a whole run of a source text stopped early.
#[derive(Debug, PartialEq)]
pub enum RunFailure {
    Parse(ParseError),
    Runtime(RuntimeError),
}

/// Mathematical model of a run failure.
pub enum RunFailureV {
    Parse(ParseErrV),
    Runtime(RunErrV),
}

impl View for RunFailure {
    type V = RunFailureV;

    open spec fn view(&self) -> RunFailureV {
        match self {
            RunFailure::Parse(pe) => RunFailureV::Parse(pe@),
            RunFailure::Runtime(re) => RunFailureV::Runtime(re@),
        }
    }
}

/// What running a source text prints: scan, parse, then execute on a fresh
/// interpreter with the given fuel. `None` means the fuel ran out.
pub open spec fn spec_run(src: Seq<u8>, fuel: nat) -> Option<
    Result<Seq<Seq<u8>>, RunFailureV>,
> {
    match spec_parse(spec_scan(src)) {
        Ok(ss) => match run_stmts(ss, init_state(), fuel) {
            Some(Ok(st)) => Some(Ok(st.output)),
            Some(Err(re)) => Some(Err(RunFailureV::Runtime(re))),
            None => None,
        },
        Err(pe) => Some(Err(RunFailureV::Parse(pe))),
    }
}

/// Scans, parses and runs `source` on a fresh interpreter, returning the
/// lines its `print` statements produced, or the first failure; a run that
/// needs more than `fuel` statement steps stops with
/// [`RuntimeError::OutOfFuel`].
pub fn run(source: Vec<u8>, fuel: u64) -> (r: Result<Vec<Vec<u8>>, RunFailure>)
    requires
        source@.len() < usize::MAX,
    ensures
        match r {
            Ok(out) => spec_run(source@, fuel as nat) == Some(
                Ok::<Seq<Seq<u8>>, RunFailureV>(out.deep_view()),
            ),
            Err(f) => match f {
                RunFailure::Parse(pe) => spec_run(source@, fuel as nat) == Some(
                    Err::<Seq<Seq<u8>>, RunFailureV>(RunFailureV::Parse(pe@)),
                ),
                RunFailure::Runtime(re) => if re is OutOfFuel {
                    spec_run(source@, fuel as nat) is None
                } else {
                    spec_run(source@, fuel as nat) == Some(
                        Err::<Seq<Seq<u8>>, RunFailureV>(RunFailureV::Runtime(re@)),
                    )
                },
            },
        },
{
    let mut parser = Parser::new(source);
    let stmts = match parser.parse() {
        Ok(ss) => ss,
        Err(pe) => {
            return Err(RunFailure::Parse(pe));
        },
    };
    let mut interpreter = Interpreter::new();
    match interpreter.interpret(&stmts, fuel) {
        Ok(()) => Ok(interpreter.take_output()),
        Err(re) => Err(RunFailure::Runtime(re)),
    }
}

/// Running the same source again is idempotent on observable output: any
/// two runs that finish — with whatever fuel sufficed — scan, parse and
/// print identically, since a fresh interpreter holds no state from earlier
/// runs.
pub proof fn lemma_run_repeatable(src: Seq<u8>, f1: nat, f2: nat)
    requires
        spec_run(src, f1) is Some,
        spec_run(src, f2) is Some,
    ensures
        spec_run(src, f1) == spec_run(src, f2),
{
    match spec_parse(spec_scan(src)) {
        Ok(ss) => {
            crate::inter::lemma_run_deterministic(ss, init_state(), f1, f2);
        },
        Err(_) => {},
    }
}

} // verus!
