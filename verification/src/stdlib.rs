//! The builtin forms: `let`, `func`, and the four arithmetic operators.
//!
//! Arithmetic folds left over already-evaluated arguments with wrapping
//! 64-bit semantics; non-number arguments are skipped; division truncates
//! toward zero and a zero divisor is an error.

use vstd::prelude::*;
use crate::env::{Environment, FrameS, env_bind, env_wf};
use crate::node::{
    Node,
    NodeS,
    node_view,
    nodes_view,
    names_view,
    lemma_nodes_view_len,
    lemma_nodes_view_index,
};

verus! {

/// A fault found while evaluating.
#[derive(Debug, Clone, Copy, PartialEq, Eq, Structural)]
pub enum EvalError {
    /// A symbol was resolved against the whole environment chain and found
    /// nowhere.
    UnboundSymbol,
    /// A special form got the wrong element count, or a call supplied fewer
    /// arguments than the closure has parameters.
    ArityMismatch,
    /// An operation got a value of the wrong tag.
    TypeMismatch,
    /// An arithmetic division met a zero divisor.
    DivisionByZero,
    /// Evaluation exceeded the fixed recursion budget.
    DepthLimit,
}

/// `Ok` results and faults of an evaluation step, compared through the model.
pub open spec fn res_matches(r: Result<Node, EvalError>, s: Result<NodeS, EvalError>) -> bool {
    match (r, s) {
        (Ok(n), Ok(v)) => node_view(n) == v,
        (Err(e1), Err(e2)) => e1 == e2,
        _ => false,
    }
}

pub open spec fn is_arith_op(s: Seq<char>) -> bool {
    s == "+"@ || s == "-"@ || s == "*"@ || s == "/"@
}

/// The magnitude of a 64-bit signed integer.
pub open spec fn spec_abs_u64(a: i64) -> u64 {
    if a >= 0 {
        a as u64
    } else {
        (-(a as int)) as u64
    }
}

/// Division truncating toward zero, with the one wrapping case
/// (`i64::MIN / -1`) sent back to `i64::MIN`.
pub open spec fn spec_div_i64(a: i64, b: i64) -> i64 {
    let q = spec_abs_u64(a) as int / spec_abs_u64(b) as int;
    if q >= 0x8000000000000000 {
        i64::MIN
    } else if (a < 0) != (b < 0) {
        (-q) as i64
    } else {
        q as i64
    }
}

/// One fold step of the operator named `op`.
pub open spec fn spec_apply_op(op: Seq<char>, a: i64, x: i64) -> i64 {
    if op == "+"@ {
        vstd::wrapping::i64_specs::wrapping_add(a, x)
    } else if op == "-"@ {
        vstd::wrapping::i64_specs::wrapping_sub(a, x)
    } else if op == "*"@ {
        vstd::wrapping::i64_specs::wrapping_mul(a, x)
    } else {
        spec_div_i64(a, x)
    }
}

/// The left fold from position `i` on: numbers are folded in, anything else
/// is skipped, and a zero divisor stops the fold with an error.
pub open spec fn spec_arith_fold(op: Seq<char>, vs: Seq<NodeS>, i: int, acc: i64) -> Result<
    i64,
    EvalError,
>
    decreases vs.len() - i,
{
    if i < 0 || i >= vs.len() {
        Ok(acc)
    } else {
        match vs[i] {
            NodeS::Number(x) => if op == "/"@ && x == 0 {
                Err(EvalError::DivisionByZero)
            } else {
                spec_arith_fold(op, vs, i + 1, spec_apply_op(op, acc, x))
            },
            _ => spec_arith_fold(op, vs, i + 1, acc),
        }
    }
}

/// The whole arithmetic builtin: at least one argument; the accumulator is
/// seeded with the first argument's value, or 0 if it is not a number.
pub open spec fn spec_arith(op: Seq<char>, vs: Seq<NodeS>) -> Result<i64, EvalError> {
    if vs.len() == 0 {
        Err(EvalError::ArityMismatch)
    } else {
        spec_arith_fold(
            op,
            vs,
            1,
            match vs[0] {
                NodeS::Number(x) => x,
                _ => 0,
            },
        )
    }
}

/// What `let` does: bind the already-evaluated value to the target symbol in
/// the current frame and return `Null`.
pub open spec fn spec_define_var(sym: NodeS, v: NodeS, m: Seq<FrameS>, cur: int) -> (
    Seq<FrameS>,
    Result<NodeS, EvalError>,
) {
    match sym {
        NodeS::Symbol(name) => (env_bind(m, cur, name, v), Ok(NodeS::Null)),
        _ => (m, Err(EvalError::TypeMismatch)),
    }
}

pub open spec fn spec_params_ok(ps: Seq<NodeS>) -> bool {
    forall|j: int| 0 <= j < ps.len() ==> (#[trigger] ps[j]) is Symbol
}

pub open spec fn spec_param_names(ps: Seq<NodeS>) -> Seq<Seq<char>> {
    ps.map(|j: int, p: NodeS| p->Symbol_0)
}

/// What `func` does: check the shapes (a symbol name, a parameter list of
/// symbols, a list body), build the closure and bind it in the current frame.
pub open spec fn spec_define_func(sym: NodeS, params: NodeS, body: NodeS, m: Seq<FrameS>, cur: int) -> (
    Seq<FrameS>,
    Result<NodeS, EvalError>,
) {
    if !(sym is Symbol) {
        (m, Err(EvalError::TypeMismatch))
    } else if !(params is List) {
        (m, Err(EvalError::TypeMismatch))
    } else if !spec_params_ok(params->List_0) {
        (m, Err(EvalError::TypeMismatch))
    } else if !(body is List) {
        (m, Err(EvalError::TypeMismatch))
    } else {
        (
            env_bind(
                m,
                cur,
                sym->Symbol_0,
                NodeS::Function(spec_param_names(params->List_0), seq![body]),
            ),
            Ok(NodeS::Null),
        )
    }
}

/// Binds an already-evaluated value to a symbol in the current frame.
pub fn define_var(symbol: &Node, value: &Node, env: &mut Environment, cur: usize) -> (r: Result<
    Node,
    EvalError,
>)
    requires
        env_wf(old(env)@),
        cur < old(env)@.len(),
    ensures
        ({
            let (m2, r2) = spec_define_var(
                node_view(*symbol),
                node_view(*value),
                old(env)@,
                cur as int,
            );
            final(env)@ == m2 && res_matches(r, r2)
        }),
        env_wf(final(env)@),
        final(env)@.len() == old(env)@.len(),
{
    match symbol {
        Node::Symbol(name) => {
            env.insert(cur, name.clone(), value.deep_clone());
            Ok(Node::Null)
        },
        _ => Err(EvalError::TypeMismatch),
    }
}

/// Builds a closure from a symbol name, a parameter list and a body, and
/// binds it in the current frame.
#[verifier::loop_isolation(false)]
pub fn define_func(symbol: &Node, params: &Node, body: &Node, env: &mut Environment, cur: usize) -> (r:
    Result<Node, EvalError>)
    requires
        env_wf(old(env)@),
        cur < old(env)@.len(),
    ensures
        ({
            let (m2, r2) = spec_define_func(
                node_view(*symbol),
                node_view(*params),
                node_view(*body),
                old(env)@,
                cur as int,
            );
            final(env)@ == m2 && res_matches(r, r2)
        }),
        env_wf(final(env)@),
        final(env)@.len() == old(env)@.len(),
{
    broadcast use lemma_nodes_view_len, lemma_nodes_view_index;

    let name = match symbol {
        Node::Symbol(s) => s,
        _ => {
            return Err(EvalError::TypeMismatch);
        },
    };
    let ps = match params {
        Node::List(v) => v,
        _ => {
            return Err(EvalError::TypeMismatch);
        },
    };
    let mut names: Vec<String> = Vec::new();
    let mut j: usize = 0;
    while j < ps.len()
        invariant
            j <= ps.len(),
            names@.len() == j,
            forall|k: int|
                0 <= k < j ==> (#[trigger] nodes_view(ps@)[k]) is Symbol && names@[k]@
                    == nodes_view(ps@)[k]->Symbol_0,
        decreases ps.len() - j,
    {
        match &ps[j] {
            Node::Symbol(s) => {
                names.push(s.clone());
            },
            _ => {
                proof {
                    lemma_nodes_view_index(ps@, j as int);
                }
                return Err(EvalError::TypeMismatch);
            },
        }
        proof {
            lemma_nodes_view_index(ps@, j as int);
        }
        j = j + 1;
    }
    proof {
        assert(spec_params_ok(nodes_view(ps@)));
        assert(names_view(names@) =~= spec_param_names(nodes_view(ps@)));
    }
    match body {
        Node::List(_) => {},
        _ => {
            return Err(EvalError::TypeMismatch);
        },
    }
    let closure = Node::Function(names, Box::new(body.deep_clone()));
    proof {
        assert(node_view(closure) == NodeS::Function(
            spec_param_names(nodes_view(ps@)),
            seq![node_view(*body)],
        ));
    }
    env.insert(cur, name.clone(), closure);
    Ok(Node::Null)
}

fn abs_i64(a: i64) -> (r: u64)
    ensures
        r == spec_abs_u64(a),
{
    if a >= 0 {
        a as u64
    } else if a == i64::MIN {
        9223372036854775808
    } else {
        (-a) as u64
    }
}

fn div_i64(a: i64, b: i64) -> (r: i64)
    requires
        b != 0,
    ensures
        r == spec_div_i64(a, b),
{
    let ma = abs_i64(a);
    let mb = abs_i64(b);
    assert(mb != 0);
    let q = ma / mb;
    if q >= 9223372036854775808 {
        i64::MIN
    } else if (a < 0) != (b < 0) {
        -(q as i64)
    } else {
        q as i64
    }
}

/// Folds the four arithmetic operators left over already-evaluated argument
/// expressions.
#[verifier::loop_isolation(false)]
pub fn do_arithmetic_operation(nodes: &Vec<Node>, operator: &String) -> (r: Result<Node, EvalError>)
    requires
        is_arith_op(operator@),
    ensures
        match spec_arith(operator@, nodes_view(nodes@)) {
            Ok(x) => r matches Ok(n) && node_view(n) == NodeS::Number(x),
            Err(e) => r matches Err(e2) && e2 == e,
        },
{
    broadcast use lemma_nodes_view_len, lemma_nodes_view_index;

    if nodes.len() == 0 {
        return Err(EvalError::ArityMismatch);
    }
    let is_add = *operator == "+".to_owned();
    let is_sub = *operator == "-".to_owned();
    let is_mul = *operator == "*".to_owned();
    let is_div = *operator == "/".to_owned();
    let mut acc: i64 = match &nodes[0] {
        Node::Number(x) => *x,
        _ => 0,
    };
    let ghost seed = acc;
    let mut i: usize = 1;
    while i < nodes.len()
        invariant
            1 <= i <= nodes.len(),
            is_arith_op(operator@),
            is_add == (operator@ == "+"@),
            is_sub == (operator@ == "-"@),
            is_mul == (operator@ == "*"@),
            is_div == (operator@ == "/"@),
            spec_arith_fold(operator@, nodes_view(nodes@), i as int, acc) == spec_arith_fold(
                operator@,
                nodes_view(nodes@),
                1,
                seed,
            ),
        decreases nodes.len() - i,
    {
        proof {
            lemma_nodes_view_index(nodes@, i as int);
        }
        match &nodes[i] {
            Node::Number(x) => {
                let xv = *x;
                if is_div && xv == 0 {
                    return Err(EvalError::DivisionByZero);
                }
                if is_add {
                    acc = acc.wrapping_add(xv);
                } else if is_sub {
                    acc = acc.wrapping_sub(xv);
                } else if is_mul {
                    acc = acc.wrapping_mul(xv);
                } else {
                    acc = div_i64(acc, xv);
                }
            },
            _ => {},
        }
        i = i + 1;
    }
    Ok(Node::Number(acc))
}

} // verus!
