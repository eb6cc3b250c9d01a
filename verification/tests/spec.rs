use slisp::ast::Ast;
use slisp::eval::{eval, global_env, run, MAX_DEPTH};
use slisp::numbers::PI_BITS;
use slisp::reader::{parse, read_from_tokens};
use slisp::tokenizer::tokenize;
use slisp::values::{Error, Value};

fn ok_int(i: u64) -> Result<Option<Value>, Error> {
    Ok(Some(Value::Integer(i)))
}

fn ok_float(f: f64) -> Result<Option<Value>, Error> {
    Ok(Some(Value::Float(f.to_bits())))
}

#[test]
fn stmt1() {
    assert_eq!(run("(+ 1 2 3 (+ 4 5) 6)"), ok_int(21));
}

#[test]
fn stmt2() {
    assert_eq!(run("(- (/ (* 1 2 3 4 5) 6) 7)"), ok_float(13.0));
}

#[test]
fn stmt3() {
    assert_eq!(run("(define r 10)(* pi (* r r))"), ok_float(314.1592653589793));
}

#[test]
fn stmt4() {
    assert_eq!(
        run("(begin (define circle-area (lambda (r) (* pi (* r r)))) (circle-area 3))"),
        ok_float(28.274333882308138)
    );
}

#[test]
fn stmt5() {
    assert_eq!(run("(if (> (* 11 11) 120) #t #f)"), Ok(Some(Value::Boolean(true))));
}

#[test]
fn stmt6() {
    assert_eq!(
        run("(define fact (lambda (n) (if (<= n 1) 1 (* n (fact (- n 1))))))(fact 10)"),
        ok_int(3628800)
    );
}

#[test]
fn stmt7() {
    let expected = Value::List(vec![
        Value::Integer(0),
        Value::Integer(1),
        Value::Integer(2),
        Value::Integer(3),
        Value::Integer(0),
        Value::Integer(0),
    ]);
    assert_eq!(run("(list 0 1 2 3 0 0)"), Ok(Some(expected)));
}

#[test]
fn stmt8() {
    assert_eq!(run("(car (list 0 1 2 3 0 0))"), ok_int(0));
}

#[test]
fn stmt9() {
    let expected = Value::List(vec![
        Value::Integer(2),
        Value::Integer(3),
        Value::Integer(0),
        Value::Integer(0),
    ]);
    assert_eq!(run("(cdr (cdr (list 0 1 2 3 0 0)))"), Ok(Some(expected)));
}

#[test]
fn stmt10() {
    assert_eq!(run("(define twice (lambda (x) (* 2 x)))(twice 5)"), ok_int(10));
}

#[test]
fn stmt11() {
    let r = run("(define repeat (lambda (f) (lambda (x) (f (f x))))) repeat")
        .unwrap()
        .unwrap();
    assert!(matches!(r, Value::Lambda { .. }));
    if let Value::Lambda { params, .. } = r {
        assert_eq!(params, vec![String::from("f")]);
    }
}

#[test]
fn stmt12() {
    assert_eq!(
        run("(define twice (lambda (x) (* 2 x)))\
             (define repeat (lambda (f) (lambda (x) (f (f x)))))\
             ((repeat (repeat twice)) 10)"),
        ok_int(160)
    );
}

#[test]
fn empty_and_unbalanced_programs_fail() {
    assert_eq!(run("("), Err(Error::SyntaxError));
    assert_eq!(run(""), Err(Error::UnexpectedEof));
}

#[test]
fn literal_eval_is_identity() {
    let mut env = global_env();
    assert_eq!(eval(&Ast::Integer(42), &mut env, 0, 8), ok_int(42));
    assert_eq!(eval(&Ast::Float(2.5f64.to_bits()), &mut env, 0, 8), ok_float(2.5));
}

#[test]
fn symbol_eval_is_idempotent() {
    let mut env = global_env();
    let pi_sym = Ast::Symbol(String::from("pi"));
    let first = eval(&pi_sym, &mut env, 0, 8);
    let second = eval(&pi_sym, &mut env, 0, 8);
    assert_eq!(first, ok_float(std::f64::consts::PI));
    assert_eq!(first, second);
}

#[test]
fn define_then_lookup_succeeds() {
    assert_eq!(run("(define answer 41)(+ answer 1)"), ok_int(42));
    assert_eq!(run("(define y 7) y"), ok_int(7));
}

#[test]
fn pi_constant_is_double_precision_pi() {
    assert_eq!(PI_BITS, std::f64::consts::PI.to_bits());
}

#[test]
fn car_of_empty_list_fails() {
    assert_eq!(run("(car (list))"), Err(Error::EmptyList));
}

#[test]
fn division_by_zero_fails() {
    assert_eq!(run("(/ 1 0)"), Err(Error::DivisionByZero));
    assert_eq!(run("(/ 1.5 0.0)"), Err(Error::DivisionByZero));
}

#[test]
fn unexpected_close_fails() {
    assert_eq!(run(")"), Err(Error::UnexpectedClose));
}

#[test]
fn unbound_symbol_fails() {
    assert_eq!(run("nope"), Err(Error::UnboundSymbol));
}

#[test]
fn unknown_procedure_fails() {
    assert_eq!(run("(frobnicate 1 2)"), Err(Error::ProcedureNotFound));
}

#[test]
fn define_name_must_be_symbol() {
    assert_eq!(run("(define 1 2)"), Err(Error::DefineNameNotSymbol));
}

#[test]
fn closure_arity_is_checked() {
    assert_eq!(run("((lambda (x) x) 1 2)"), Err(Error::ArityMismatch));
}

#[test]
fn integer_overflow_is_an_error() {
    assert_eq!(run("(* 18446744073709551615 2)"), Err(Error::IntegerOverflow));
    assert_eq!(run("(- 1 2)"), Err(Error::IntegerOverflow));
}

#[test]
fn wrong_argument_type_fails() {
    assert_eq!(run("(+ 1 (list 1))"), Err(Error::WrongArgumentType));
    assert_eq!(run("(< 1 (list 1))"), Err(Error::WrongArgumentType));
}

#[test]
fn runaway_recursion_exhausts_depth() {
    let mut env = global_env();
    let def_tokens = tokenize("(define loop-forever (lambda (x) (loop-forever x)))");
    let (def_ast, _) = read_from_tokens(&def_tokens, 0).unwrap();
    assert_eq!(eval(&def_ast, &mut env, 0, 8), Ok(None));
    let call_tokens = tokenize("(loop-forever 1)");
    let (call_ast, _) = read_from_tokens(&call_tokens, 0).unwrap();
    assert_eq!(eval(&call_ast, &mut env, 0, 8), Err(Error::DepthExceeded));
}

#[test]
fn float_arithmetic_runs_in_double_precision() {
    assert_eq!(run("(+ 1.5 2.25)"), ok_float(3.75));
    assert_eq!(run("(- 10 2.5)"), ok_float(7.5));
    assert_eq!(run("(* 2.5 4)"), ok_float(10.0));
    assert_eq!(run("(/ 3 2)"), ok_float(1.5));
}

#[test]
fn float_literals_parse_to_bit_patterns() {
    assert_eq!(run("2.5"), ok_float(2.5));
    assert_eq!(run("-2"), ok_float(-2.0));
    assert_eq!(run("1e3"), ok_float(1000.0));
}

#[test]
fn mixed_comparisons_widen_to_floats() {
    assert_eq!(run("(< 1.5 2)"), Ok(Some(Value::Boolean(true))));
    assert_eq!(run("(>= 2 2.0)"), Ok(Some(Value::Boolean(true))));
    assert_eq!(run("(= 1.0 1)"), Ok(Some(Value::Boolean(true))));
    assert_eq!(run("(> 1.0 2)"), Ok(Some(Value::Boolean(false))));
}

#[test]
fn single_argument_division_is_identity() {
    assert_eq!(run("(/ 5)"), ok_int(5));
    assert_eq!(run("(/ 2.5)"), ok_float(2.5));
}

#[test]
fn empty_product_is_one() {
    assert_eq!(run("(*)"), ok_int(1));
    assert_eq!(run("(+)"), Err(Error::WrongArgumentType));
}

#[test]
fn unicode_whitespace_separates_atoms() {
    assert_eq!(run("(+ 1\u{000B}2\u{2000}3)"), ok_int(6));
    let toks = tokenize("a\u{00A0}b\u{000C}c");
    let expected: Vec<String> = ["a", "b", "c"].iter().map(|s| s.to_string()).collect();
    assert_eq!(toks, expected);
}

#[test]
fn comparison_chains_are_pairwise() {
    assert_eq!(run("(< 1 2 3)"), Ok(Some(Value::Boolean(true))));
    assert_eq!(run("(< 1 3 2)"), Ok(Some(Value::Boolean(false))));
}

#[test]
fn begin_returns_last_value_only() {
    assert_eq!(run("(begin 1 2 3)"), ok_int(3));
    assert_eq!(run("(begin)"), Ok(None));
}

#[test]
fn if_without_else_yields_no_value() {
    assert_eq!(run("(if #f 1)"), Ok(None));
}

#[test]
fn closures_capture_their_defining_scope() {
    assert_eq!(
        run("(begin (define make-adder (lambda (n) (lambda (x) (+ x n)))) \
             (define add5 (make-adder 5)) (add5 3))"),
        ok_int(8)
    );
}

#[test]
fn tokenizer_isolates_parentheses() {
    let toks = tokenize("(+ 1(a))");
    let expected: Vec<String> =
        ["(", "+", "1", "(", "a", ")", ")"].iter().map(|s| s.to_string()).collect();
    assert_eq!(toks, expected);
}

#[test]
fn parse_returns_first_form_and_remainder() {
    let (ast, remain) = parse("(define r 10)(* pi (* r r))").unwrap();
    match ast {
        Ast::Children(items) => {
            assert_eq!(items.len(), 3);
            assert_eq!(items[0], Ast::Symbol(String::from("define")));
            assert_eq!(items[2], Ast::Integer(10));
        }
        other => panic!("expected a compound form, got {:?}", other),
    }
    assert_eq!(remain.first().map(|s| s.as_str()), Some("("));
}

#[test]
fn integer_classification_is_tried_before_float() {
    assert_eq!(run("10"), ok_int(10));
    assert_eq!(run("+10"), ok_int(10));
    assert_eq!(run("10.0"), ok_float(10.0));
}
