use lox_core::inter::{Interpreter, RuntimeError};
use lox_core::num::Num;
use lox_core::parser::Parser;
use lox_core::token::LiteralTypes;
use lox_core::RunFailure;

const FUEL: u64 = 1_000_000;

fn number(mantissa: i64) -> LiteralTypes {
    LiteralTypes::Number(Num { mantissa })
}

fn get_value(source: &str) -> LiteralTypes {
    let mut parser = Parser::new(source.as_bytes().to_vec());
    let ast = parser.expression().unwrap();
    let mut inter = Interpreter::new();
    inter.evaluate(&ast).unwrap()
}

fn run_lines(source: &str) -> Vec<String> {
    lox_core::run(source.as_bytes().to_vec(), FUEL)
        .unwrap()
        .into_iter()
        .map(|l| String::from_utf8(l).unwrap())
        .collect()
}

fn run_failure(source: &str) -> RunFailure {
    lox_core::run(source.as_bytes().to_vec(), FUEL).unwrap_err()
}

#[test]
fn noraml() {
    assert_eq!(get_value("-1"), number(-1_000_000));
    assert_eq!(get_value("1+ (-2)"), number(-1_000_000));

    assert_eq!(get_value("1 + 2 * (3+4) - 5"), number(10_000_000));
}

#[test]
fn logic() {
    assert_eq!(get_value("true"), LiteralTypes::Bool(true));
    assert_eq!(get_value("nil"), LiteralTypes::Nil);
    assert_eq!(get_value("!!nil"), LiteralTypes::Bool(false));

    assert_eq!(get_value("true == false"), LiteralTypes::Bool(false));
    assert_eq!(get_value("false == true"), LiteralTypes::Bool(false));
    assert_eq!(get_value("nil == false"), LiteralTypes::Bool(true));

    assert_eq!(get_value("1 + 2 == 3"), LiteralTypes::Bool(true));
    assert_eq!(get_value("1 + 2 >  3"), LiteralTypes::Bool(false));
    assert_eq!(get_value("1 + 2 >= 3"), LiteralTypes::Bool(true));
    assert_eq!(get_value("1 + 2 <  4"), LiteralTypes::Bool(true));
    assert_eq!(get_value("1 + 2 <= 4"), LiteralTypes::Bool(true));
}

#[test]
fn run_stmt() {
    let mut parser = Parser::new(b"print \"abc\";".to_vec());
    let stmt = parser.parse().unwrap();

    let mut inter = Interpreter::new();
    let _ = inter.interpret(&stmt, FUEL);
}

#[test]
fn run_stmt_plus() {
    let code = r#"var a = 1;
        var b = 2;
        print a+b;
        "#;
    let mut parser = Parser::new(code.as_bytes().to_vec());
    let stmt = parser.parse().unwrap();

    let mut inter = Interpreter::new();
    let _ = inter.interpret(&stmt, FUEL);
}

#[test]
fn run_assign_stmt() {
    let code = r#"var b = 2;
        print b = 3;
        "#;
    let mut parser = Parser::new(code.as_bytes().to_vec());
    let stmt = parser.parse().unwrap();

    let mut inter = Interpreter::new();
    let _ = inter.interpret(&stmt, FUEL);
}

#[test]
fn run_global_env() {
    let code = r#"var a = "global a";
var b = "global b";
var c = "global c";
{
  var a = "outer a";
  var b = "outer b";
  {
    var a = "inner a";
    print a;
    print b;
    print c;
  }
  print a;
  print b;
  print c;
}
print a;
print b;
print c;
        "#;
    let mut parser = Parser::new(code.as_bytes().to_vec());
    let stmt = parser.parse().unwrap();

    let mut inter = Interpreter::new();
    let _ = inter.interpret(&stmt, FUEL);
}

#[test]
fn run_logical_stmt() {
    let code = r#"print nil or 123;"#;
    let mut parser = Parser::new(code.as_bytes().to_vec());
    let stmt = parser.parse().unwrap();

    let mut inter = Interpreter::new();
    let _ = inter.interpret(&stmt, FUEL);
}

#[test]
fn run_for_stmt() {
    let code = r#"
var a = 0;
var temp;

for (var b = 1; a < 10000; b = temp + b) {
  print a;
  temp = a;
  a = b;
}"#;
    let mut parser = Parser::new(code.as_bytes().to_vec());
    let stmt = parser.parse().unwrap();

    let mut inter = Interpreter::new();
    let _ = inter.interpret(&stmt, FUEL);
}

#[test]
fn arithmetic_precedence_output() {
    assert_eq!(run_lines("print 1 + 2 * (3 + 4) - 5;"), vec!["10"]);
}

#[test]
fn double_negation_returns_number() {
    assert_eq!(get_value("--2.5"), number(2_500_000));
    assert_eq!(get_value("--0"), number(0));
}

#[test]
fn double_bang_normalizes_truthiness() {
    assert_eq!(get_value("!!nil"), LiteralTypes::Bool(false));
    assert_eq!(get_value("!!0"), LiteralTypes::Bool(true));
    assert_eq!(get_value("!!\"\""), LiteralTypes::Bool(true));
}

#[test]
fn nil_false_equality_special_case() {
    assert_eq!(get_value("nil == false"), LiteralTypes::Bool(true));
    assert_eq!(get_value("false == nil"), LiteralTypes::Bool(true));
    assert_eq!(get_value("nil == 0"), LiteralTypes::Bool(false));
}

#[test]
fn inner_shadow_leaves_outer_binding() {
    let lines = run_lines(
        "var a = \"outer\";\n{\n  var a = \"inner\";\n  print a;\n}\nprint a;\n",
    );
    assert_eq!(lines, vec!["inner", "outer"]);
}

#[test]
fn assign_to_undeclared_name_fails() {
    assert_eq!(
        run_failure("a = 1;"),
        RunFailure::Runtime(RuntimeError::UndefinedVariable {
            line: 1,
            name: b"a".to_vec()
        })
    );
}

#[test]
fn declared_assignment_is_visible() {
    let lines = run_lines("var a;\na = 2;\n{\n  print a;\n}\nprint a;\n");
    assert_eq!(lines, vec!["2", "2"]);
}

#[test]
fn for_loop_prints_three_lines() {
    assert_eq!(
        run_lines("for (var i = 0; i < 3; i = i + 1) print i;"),
        vec!["0", "1", "2"]
    );
}

#[test]
fn division_by_zero_fails() {
    assert_eq!(
        run_failure("print 5 / 0;"),
        RunFailure::Runtime(RuntimeError::DivisionByZero { line: 1 })
    );
}

#[test]
fn rerunning_source_is_idempotent() {
    let source = "var a = 1;\nfor (var i = 0; i < 3; i = i + 1) a = a * 2;\nprint a;\n";
    let first = run_lines(source);
    let second = run_lines(source);
    assert_eq!(first, vec!["8"]);
    assert_eq!(first, second);
}

#[test]
fn string_concatenation() {
    assert_eq!(run_lines("print \"ab\" + \"cd\";"), vec!["abcd"]);
}

#[test]
fn logical_operators_return_operands() {
    assert_eq!(
        run_lines("print nil or 123;\nprint false and 1;\nprint 1 and 2;\nprint \"x\" or 2;"),
        vec!["123", "false", "2", "x"]
    );
}

#[test]
fn number_rendering_trims_zeros() {
    assert_eq!(
        run_lines("print 2.50;\nprint 0.5;\nprint -0.25;\nprint 10.0;\nprint 1.002;"),
        vec!["2.5", "0.5", "-0.25", "10", "1.002"]
    );
}

#[test]
fn division_keeps_fractions() {
    assert_eq!(run_lines("print 5 / 2;\nprint 1 / 3;"), vec!["2.5", "0.333333"]);
}

#[test]
fn plus_on_mixed_operands_fails() {
    assert_eq!(
        run_failure("print 1 + \"x\";"),
        RunFailure::Runtime(RuntimeError::PlusOperands { line: 1 })
    );
}

#[test]
fn unary_minus_on_non_number_fails() {
    assert_eq!(
        run_failure("print -nil;"),
        RunFailure::Runtime(RuntimeError::UnaryMinusOperand { line: 1 })
    );
}

#[test]
fn ordered_comparison_on_mixed_operands_fails() {
    assert_eq!(
        run_failure("print 1 < \"a\";"),
        RunFailure::Runtime(RuntimeError::NumberOperands { line: 1 })
    );
}

#[test]
fn multiplication_overflow_fails() {
    assert_eq!(
        run_failure("print 9000000000000 * 9000000000000;"),
        RunFailure::Runtime(RuntimeError::Overflow { line: 1 })
    );
}

#[test]
fn fuel_running_out_is_reported() {
    let r = lox_core::run(b"while (true) {}".to_vec(), 10);
    assert_eq!(r.unwrap_err(), RunFailure::Runtime(RuntimeError::OutOfFuel));
}

#[test]
fn undefined_variable_read_fails() {
    assert_eq!(
        run_failure("print ghost_name;"),
        RunFailure::Runtime(RuntimeError::UndefinedVariable {
            line: 1,
            name: b"ghost_name".to_vec()
        })
    );
}

#[test]
fn while_loop_counts_down() {
    assert_eq!(
        run_lines("var n = 3;\nwhile (n > 0) {\n  print n;\n  n = n - 1;\n}\n"),
        vec!["3", "2", "1"]
    );
}

#[test]
fn if_else_branches() {
    assert_eq!(
        run_lines("if (1 < 2) print \"yes\"; else print \"no\";\nif (nil) print \"t\"; else print \"f\";"),
        vec!["yes", "f"]
    );
}

#[test]
fn output_before_failure_is_kept() {
    let mut parser = Parser::new(b"print 1;\nprint 2 / 0;".to_vec());
    let stmts = parser.parse().unwrap();
    let mut inter = Interpreter::new();
    let r = inter.interpret(&stmts, FUEL);
    assert_eq!(r, Err(RuntimeError::DivisionByZero { line: 2 }));
    assert_eq!(inter.output(), &vec![b"1".to_vec()]);
}
