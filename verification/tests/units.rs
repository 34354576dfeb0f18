//! Direct checks of the individual components: tokenizer words, parser,
//! environment frames, builtins, and the evaluator entry points.

use lisp::env::Environment;
use lisp::eval::{evaluate_function, evaluate_list, evaluate_node, evaluate_nodes, evaluate_symbol};
use lisp::lexer::{parse_number_word, tokenize_text, Token};
use lisp::node::Node;
use lisp::parser::{parse_tokens, ParseError};
use lisp::stdlib::{define_func, define_var, do_arithmetic_operation, EvalError};

fn sym(s: &str) -> Node {
    Node::Symbol(s.to_string())
}

#[test]
fn number_words_are_classified() {
    assert_eq!(parse_number_word("42"), Some(42));
    assert_eq!(parse_number_word("-0"), Some(0));
    assert_eq!(parse_number_word("007"), Some(7));
    assert_eq!(parse_number_word("-13"), Some(-13));
    assert_eq!(parse_number_word("9223372036854775807"), Some(i64::MAX));
    assert_eq!(parse_number_word("-9223372036854775808"), Some(i64::MIN));
    assert_eq!(parse_number_word("9223372036854775808"), None);
    assert_eq!(parse_number_word("abc"), None);
    assert_eq!(parse_number_word("1.5"), None);
    assert_eq!(parse_number_word("-"), None);
    assert_eq!(parse_number_word(""), None);
    assert_eq!(parse_number_word("--3"), None);
}

#[test]
fn tokenizer_handles_blanks_and_glued_parens() {
    let toks = tokenize_text("(let x(y))\n\t( -3 1.5 )");
    assert_eq!(
        toks,
        vec![
            Token::LParen,
            Token::Symbol("let".to_string()),
            Token::Symbol("x".to_string()),
            Token::LParen,
            Token::Symbol("y".to_string()),
            Token::RParen,
            Token::RParen,
            Token::LParen,
            Token::Number(-3),
            Token::Symbol("1.5".to_string()),
            Token::RParen,
        ]
    );
}

#[test]
fn tokenizer_on_empty_text() {
    assert_eq!(tokenize_text("   \n"), vec![]);
    assert_eq!(tokenize_text(""), vec![]);
}

#[test]
fn parser_builds_nested_lists() {
    let toks = tokenize_text("(a (1 2) ())");
    let node = parse_tokens(&toks).unwrap();
    assert_eq!(
        node,
        Node::List(vec![
            sym("a"),
            Node::List(vec![Node::Number(1), Node::Number(2)]),
            Node::List(vec![]),
        ])
    );
}

#[test]
fn parser_faults() {
    assert_eq!(
        parse_tokens(&tokenize_text(")")),
        Err(ParseError::UnbalancedParens)
    );
    assert_eq!(
        parse_tokens(&tokenize_text("((1)")),
        Err(ParseError::UnbalancedParens)
    );
    assert_eq!(
        parse_tokens(&tokenize_text("x")),
        Err(ParseError::MalformedTopLevel)
    );
}

#[test]
fn environment_lookup_walks_the_chain() {
    let mut env = Environment::new();
    env.insert(0, "a".to_string(), Node::Number(1));
    env.push_frame(0);
    env.insert(1, "b".to_string(), Node::Number(2));
    // The child frame sees both its own binding and the root's.
    assert_eq!(env.get(1, &"b".to_string()), Some(Node::Number(2)));
    assert_eq!(env.get(1, &"a".to_string()), Some(Node::Number(1)));
    // The root does not see the child's binding.
    assert_eq!(env.get(0, &"b".to_string()), None);
    // The innermost binding wins.
    env.insert(1, "a".to_string(), Node::Number(3));
    assert_eq!(env.get(1, &"a".to_string()), Some(Node::Number(3)));
    env.pop_frame();
    assert_eq!(env.get(0, &"a".to_string()), Some(Node::Number(1)));
}

#[test]
fn last_write_wins_in_a_frame() {
    let mut env = Environment::new();
    env.insert(0, "a".to_string(), Node::Number(1));
    env.insert(0, "a".to_string(), Node::Number(2));
    assert_eq!(env.get(0, &"a".to_string()), Some(Node::Number(2)));
}

#[test]
fn define_var_binds_and_checks_the_target() {
    let mut env = Environment::new();
    let r = define_var(&sym("x"), &Node::Number(5), &mut env, 0);
    assert_eq!(r, Ok(Node::Null));
    assert_eq!(env.get(0, &"x".to_string()), Some(Node::Number(5)));
    let r2 = define_var(&Node::Number(1), &Node::Number(5), &mut env, 0);
    assert_eq!(r2, Err(EvalError::TypeMismatch));
}

#[test]
fn define_func_builds_a_closure() {
    let mut env = Environment::new();
    let params = Node::List(vec![sym("n")]);
    let body = Node::List(vec![sym("*"), sym("n"), sym("n")]);
    let r = define_func(&sym("sq"), &params, &body, &mut env, 0);
    assert_eq!(r, Ok(Node::Null));
    assert_eq!(
        env.get(0, &"sq".to_string()),
        Some(Node::Function(
            vec!["n".to_string()],
            Box::new(body.deep_clone())
        ))
    );
    let r2 = define_func(&sym("f"), &params, &Node::Number(1), &mut env, 0);
    assert_eq!(r2, Err(EvalError::TypeMismatch));
}

#[test]
fn arithmetic_folds_and_faults() {
    let nums = |xs: &[i64]| xs.iter().map(|x| Node::Number(*x)).collect::<Vec<_>>();
    let op = |s: &str| s.to_string();
    assert_eq!(
        do_arithmetic_operation(&nums(&[10, 3, 2]), &op("-")),
        Ok(Node::Number(5))
    );
    assert_eq!(
        do_arithmetic_operation(&nums(&[2, 3, 4]), &op("*")),
        Ok(Node::Number(24))
    );
    assert_eq!(
        do_arithmetic_operation(&nums(&[7]), &op("+")),
        Ok(Node::Number(7))
    );
    assert_eq!(
        do_arithmetic_operation(&vec![], &op("+")),
        Err(EvalError::ArityMismatch)
    );
    assert_eq!(
        do_arithmetic_operation(&nums(&[1, 0]), &op("/")),
        Err(EvalError::DivisionByZero)
    );
    // A zero divisor that is skipped as a non-number does not fault.
    assert_eq!(
        do_arithmetic_operation(&vec![Node::Number(4), Node::Null], &op("/")),
        Ok(Node::Number(4))
    );
}

#[test]
fn evaluate_node_on_leaves() {
    let mut env = Environment::new();
    assert_eq!(
        evaluate_node(&Node::Null, &mut env, 0, 100),
        Ok(Node::Null)
    );
    assert_eq!(
        evaluate_node(&Node::Number(7), &mut env, 0, 100),
        Ok(Node::Number(7))
    );
    // A bare closure value evaluates to Null.
    let f = Node::Function(vec![], Box::new(Node::List(vec![])));
    assert_eq!(evaluate_node(&f, &mut env, 0, 100), Ok(Node::Null));
    // Exhausting the budget is reported.
    assert_eq!(
        evaluate_node(&Node::Number(7), &mut env, 0, 0),
        Err(EvalError::DepthLimit)
    );
}

#[test]
fn evaluate_symbol_resolves_or_faults() {
    let mut env = Environment::new();
    env.insert(0, "x".to_string(), Node::Number(9));
    assert_eq!(
        evaluate_symbol(&"x".to_string(), &env, 0),
        Ok(Node::Number(9))
    );
    assert_eq!(
        evaluate_symbol(&"y".to_string(), &env, 0),
        Err(EvalError::UnboundSymbol)
    );
}

#[test]
fn evaluate_nodes_collects_left_to_right() {
    let mut env = Environment::new();
    env.insert(0, "x".to_string(), Node::Number(1));
    let nodes = vec![sym("x"), Node::Number(2)];
    assert_eq!(
        evaluate_nodes(&nodes, 0, &mut env, 0, 100),
        Ok(vec![Node::Number(1), Node::Number(2)])
    );
    assert_eq!(
        evaluate_nodes(&nodes, 1, &mut env, 0, 100),
        Ok(vec![Node::Number(2)])
    );
}

#[test]
fn evaluate_list_dispatches() {
    let mut env = Environment::new();
    let form = vec![sym("let"), sym("x"), Node::Number(4)];
    assert_eq!(evaluate_list(&form, &mut env, 0, 100), Ok(Node::Null));
    let add = vec![sym("+"), sym("x"), Node::Number(1)];
    assert_eq!(evaluate_list(&add, &mut env, 0, 100), Ok(Node::Number(5)));
}

#[test]
fn evaluate_function_applies_a_closure() {
    let mut env = Environment::new();
    let body = Node::List(vec![sym("*"), sym("n"), sym("n")]);
    let f = Node::Function(vec!["n".to_string()], Box::new(body));
    let call = vec![sym("sq"), Node::List(vec![Node::Number(6)])];
    assert_eq!(
        evaluate_function(&f, &call, &mut env, 0, 100),
        Ok(Node::Number(36))
    );
    // The call frame is gone afterwards.
    assert_eq!(env.get(0, &"n".to_string()), None);
}

#[test]
fn deep_clone_copies_structure() {
    let n = Node::List(vec![
        sym("a"),
        Node::List(vec![Node::Number(1)]),
        Node::Function(vec!["p".to_string()], Box::new(Node::List(vec![]))),
    ]);
    assert_eq!(n.deep_clone(), n);
}
