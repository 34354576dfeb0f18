//! End-to-end behavior of the interpreter pipeline: tokenize, parse,
//! evaluate, against the persistent root environment.

use lisp::interpreter::Interpreter;
use lisp::lexer::Token;
use lisp::node::Node;
use lisp::parser::ParseError;
use lisp::stdlib::EvalError;

fn feed(it: &mut Interpreter, src: &str) {
    it.reset();
    it.src = src.to_string();
    it.tokenize();
    it.parse().expect("parse failed");
}

fn eval_ok(it: &mut Interpreter, src: &str) -> Node {
    feed(it, src);
    it.evaluate().expect("evaluation failed");
    it.res.deep_clone()
}

fn eval_err(it: &mut Interpreter, src: &str) -> EvalError {
    feed(it, src);
    it.evaluate().expect_err("evaluation unexpectedly succeeded")
}

fn sym(s: &str) -> Node {
    Node::Symbol(s.to_string())
}

#[test]
fn tokenize_simple_addition() {
    let mut it = Interpreter::new();
    it.src = "(+ 1 2)".to_string();
    it.tokenize();
    assert_eq!(
        it.tokens,
        vec![
            Token::LParen,
            Token::Symbol("+".to_string()),
            Token::Number(1),
            Token::Number(2),
            Token::RParen,
        ]
    );
}

#[test]
fn parse_simple_addition() {
    let mut it = Interpreter::new();
    it.src = "(+ 1 2)".to_string();
    it.tokenize();
    it.parse().unwrap();
    assert_eq!(
        it.ast,
        Node::List(vec![sym("+"), Node::Number(1), Node::Number(2)])
    );
}

#[test]
fn evaluate_simple_addition() {
    let mut it = Interpreter::new();
    assert_eq!(eval_ok(&mut it, "(+ 1 2)"), Node::Number(3));
}

#[test]
fn let_binding_persists_across_inputs() {
    let mut it = Interpreter::new();
    assert_eq!(eval_ok(&mut it, "(let x 5)"), Node::Null);
    // The parser accepts only a parenthesized top-level form, so the bare
    // symbol is handed to the evaluator as a tree directly.
    it.reset();
    it.ast = sym("x");
    it.evaluate().unwrap();
    assert_eq!(it.res, Node::Number(5));
    // The binding is also visible to later parenthesized inputs.
    assert_eq!(eval_ok(&mut it, "(+ x 1)"), Node::Number(6));
}

#[test]
fn subtraction_folds_left() {
    let mut it = Interpreter::new();
    assert_eq!(eval_ok(&mut it, "(- 10 3 2)"), Node::Number(5));
}

#[test]
fn function_definition_and_invocation() {
    let mut it = Interpreter::new();
    assert_eq!(eval_ok(&mut it, "(func sq (n) (* n n))"), Node::Null);
    assert_eq!(eval_ok(&mut it, "(sq (5))"), Node::Number(25));
    // An unbound symbol as the argument list faults before application.
    assert_eq!(eval_err(&mut it, "(sq zzz)"), EvalError::UnboundSymbol);
}

#[test]
fn unbound_symbol_is_reported() {
    let mut it = Interpreter::new();
    it.ast = sym("zzz");
    let e = it.evaluate().expect_err("lookup should fault");
    assert_eq!(e, EvalError::UnboundSymbol);
    assert_eq!(it.res, Node::Null);
}

fn render(n: &Node) -> String {
    match n {
        Node::Null => "null".to_string(),
        Node::Symbol(s) => s.clone(),
        Node::Number(x) => format!("{}", x),
        Node::List(v) => {
            let mut out = String::from("(");
            for (i, e) in v.iter().enumerate() {
                if i > 0 {
                    out.push(' ');
                }
                out.push_str(&render(e));
            }
            out.push(')');
            out
        }
        Node::Function(_, _) => "<func>".to_string(),
    }
}

#[test]
fn data_list_round_trips_through_rendering() {
    let mut it = Interpreter::new();
    let first = eval_ok(&mut it, "(1 2 (3 -4) (()))");
    // Rendering the result and re-parsing it reproduces the same value.
    let text = render(&first);
    let second = eval_ok(&mut it, &text);
    assert_eq!(first, second);
    // Evaluation of pure data is the identity, so the result equals the tree.
    assert_eq!(
        first,
        Node::List(vec![
            Node::Number(1),
            Node::Number(2),
            Node::List(vec![Node::Number(3), Node::Number(-4)]),
            Node::List(vec![Node::List(vec![])]),
        ])
    );
}

#[test]
fn empty_input_is_malformed() {
    let mut it = Interpreter::new();
    it.src = String::new();
    it.tokenize();
    assert_eq!(it.parse(), Err(ParseError::MalformedTopLevel));
}

#[test]
fn bare_atom_is_malformed() {
    let mut it = Interpreter::new();
    it.src = "5".to_string();
    it.tokenize();
    assert_eq!(it.parse(), Err(ParseError::MalformedTopLevel));
}

#[test]
fn two_top_level_forms_are_malformed() {
    let mut it = Interpreter::new();
    it.src = "(1) (2)".to_string();
    it.tokenize();
    assert_eq!(it.parse(), Err(ParseError::MalformedTopLevel));
}

#[test]
fn unbalanced_parens_are_reported() {
    let mut it = Interpreter::new();
    it.src = "(+ 1 2".to_string();
    it.tokenize();
    assert_eq!(it.parse(), Err(ParseError::UnbalancedParens));

    it.reset();
    it.src = ") (".to_string();
    it.tokenize();
    assert_eq!(it.parse(), Err(ParseError::UnbalancedParens));
}

#[test]
fn parse_error_keeps_previous_tree() {
    let mut it = Interpreter::new();
    feed(&mut it, "(+ 1 2)");
    let kept = it.ast.deep_clone();
    it.src = "(".to_string();
    it.tokenize();
    assert_eq!(it.parse(), Err(ParseError::UnbalancedParens));
    assert_eq!(it.ast, kept);
}

#[test]
fn division_truncates_toward_zero() {
    let mut it = Interpreter::new();
    assert_eq!(eval_ok(&mut it, "(/ 10 3)"), Node::Number(3));
    assert_eq!(eval_ok(&mut it, "(/ -7 2)"), Node::Number(-3));
    assert_eq!(eval_ok(&mut it, "(/ 7 -2)"), Node::Number(-3));
    assert_eq!(eval_ok(&mut it, "(/ -7 -2)"), Node::Number(3));
}

#[test]
fn division_by_zero_is_reported() {
    let mut it = Interpreter::new();
    assert_eq!(eval_err(&mut it, "(/ 1 0)"), EvalError::DivisionByZero);
}

#[test]
fn addition_wraps_at_the_edge() {
    let mut it = Interpreter::new();
    assert_eq!(
        eval_ok(&mut it, "(+ 9223372036854775807 1)"),
        Node::Number(i64::MIN)
    );
}

#[test]
fn non_number_arguments_are_skipped() {
    let mut it = Interpreter::new();
    assert_eq!(eval_ok(&mut it, "(+ 1 (2 3) 4)"), Node::Number(5));
    // A non-number first argument seeds the accumulator with 0.
    assert_eq!(eval_ok(&mut it, "(+ (1) 2)"), Node::Number(2));
}

#[test]
fn operator_without_arguments_is_an_arity_fault() {
    let mut it = Interpreter::new();
    assert_eq!(eval_err(&mut it, "(+)"), EvalError::ArityMismatch);
}

#[test]
fn let_shape_faults() {
    let mut it = Interpreter::new();
    assert_eq!(eval_err(&mut it, "(let x)"), EvalError::ArityMismatch);
    assert_eq!(eval_err(&mut it, "(let 5 5)"), EvalError::TypeMismatch);
}

#[test]
fn func_shape_faults() {
    let mut it = Interpreter::new();
    assert_eq!(eval_err(&mut it, "(func f (n))"), EvalError::ArityMismatch);
    assert_eq!(eval_err(&mut it, "(func f (n) 5)"), EvalError::TypeMismatch);
    assert_eq!(eval_err(&mut it, "(func f 5 (n))"), EvalError::TypeMismatch);
    assert_eq!(eval_err(&mut it, "(func f (1) (n))"), EvalError::TypeMismatch);
}

#[test]
fn call_shape_faults() {
    let mut it = Interpreter::new();
    eval_ok(&mut it, "(func sq (n) (* n n))");
    // Fewer arguments than parameters.
    assert_eq!(eval_err(&mut it, "(sq ())"), EvalError::ArityMismatch);
    // The single argument group must evaluate to a list.
    assert_eq!(eval_err(&mut it, "(sq 5)"), EvalError::TypeMismatch);
    // A call list without an argument group.
    assert_eq!(eval_err(&mut it, "(sq)"), EvalError::ArityMismatch);
}

#[test]
fn operators_shadow_user_bindings() {
    let mut it = Interpreter::new();
    eval_ok(&mut it, "(let + 99)");
    assert_eq!(eval_ok(&mut it, "(+ 1 2)"), Node::Number(3));
}

#[test]
fn bound_non_function_head_makes_a_data_list() {
    let mut it = Interpreter::new();
    eval_ok(&mut it, "(let y 1)");
    assert_eq!(
        eval_ok(&mut it, "(y 2 3)"),
        Node::List(vec![Node::Number(1), Node::Number(2), Node::Number(3)])
    );
}

#[test]
fn unbound_head_yields_null() {
    let mut it = Interpreter::new();
    assert_eq!(eval_ok(&mut it, "(zzz 1 2)"), Node::Null);
}

#[test]
fn empty_list_evaluates_to_itself() {
    let mut it = Interpreter::new();
    assert_eq!(eval_ok(&mut it, "()"), Node::List(vec![]));
}

#[test]
fn excess_arguments_are_ignored() {
    let mut it = Interpreter::new();
    eval_ok(&mut it, "(func first (a) (+ a 0))");
    assert_eq!(eval_ok(&mut it, "(first (7 8 9))"), Node::Number(7));
}

#[test]
fn call_frames_are_discarded() {
    let mut it = Interpreter::new();
    eval_ok(&mut it, "(func f (n) (+ n 1))");
    assert_eq!(eval_ok(&mut it, "(f (41))"), Node::Number(42));
    // The call frame's parameter binding does not leak into the root.
    it.reset();
    it.ast = sym("n");
    assert_eq!(
        it.evaluate().expect_err("parameter should not persist"),
        EvalError::UnboundSymbol
    );
}

#[test]
fn functions_see_root_bindings_from_call_frames() {
    let mut it = Interpreter::new();
    eval_ok(&mut it, "(let base 10)");
    eval_ok(&mut it, "(func bump (n) (+ n base))");
    assert_eq!(eval_ok(&mut it, "(bump (5))"), Node::Number(15));
}

#[test]
fn reset_clears_text_but_keeps_environment() {
    let mut it = Interpreter::new();
    eval_ok(&mut it, "(let x 5)");
    it.reset();
    assert_eq!(it.src, String::new());
    assert_eq!(it.tokens, vec![]);
    assert_eq!(it.ast, Node::Null);
    assert_eq!(eval_ok(&mut it, "(+ x 0)"), Node::Number(5));
}

#[test]
fn functions_can_call_functions() {
    let mut it = Interpreter::new();
    eval_ok(&mut it, "(func sq (n) (* n n))");
    eval_ok(&mut it, "(func quad (n) (sq ((sq (n)))))");
    assert_eq!(eval_ok(&mut it, "(quad (3))"), Node::Number(81));
}
