//! The evaluator: a tree walk over expressions against an environment,
//! dispatching special forms, arithmetic and user-defined function
//! application, under a fixed recursion budget.
//!
//! Dispatch order for a list headed by a symbol: `let`, `func`, the four
//! arithmetic operators — each of which shadows any user binding of the same
//! name — then chained environment lookup. A head symbol bound to a closure
//! invokes it; one bound to anything else makes the list an evaluated data
//! list; an unbound head yields `Null`.

use vstd::prelude::*;
use crate::env::{Environment, FrameS, env_bind, env_wf, spec_lookup};
use crate::node::{
    Node,
    NodeS,
    node_view,
    nodes_view,
    names_view,
    lemma_nodes_view_len,
    lemma_nodes_view_index,
};
use crate::stdlib;
use crate::stdlib::{
    EvalError,
    res_matches,
    is_arith_op,
    spec_arith,
    spec_define_var,
    spec_define_func,
};

verus! {

/// Positional parameter binding: names bound in order, a later duplicate
/// winning over an earlier one.
pub open spec fn params_map(ps: Seq<Seq<char>>, args: Seq<NodeS>) -> Map<Seq<char>, NodeS>
    decreases ps.len(),
{
    if ps.len() == 0 {
        Map::empty()
    } else {
        params_map(ps.drop_last(), args).insert(ps.last(), args[ps.len() - 1])
    }
}

/// One step of evaluation. The result pairs the environment after the step
/// with the value or the fault; a fault leaves the environment in the
/// consistent state it had reached.
pub open spec fn spec_eval(fuel: nat, node: NodeS, m: Seq<FrameS>, cur: int) -> (
    Seq<FrameS>,
    Result<NodeS, EvalError>,
)
    decreases fuel,
{
    if fuel == 0 {
        (m, Err(EvalError::DepthLimit))
    } else {
        let f = (fuel - 1) as nat;
        match node {
            NodeS::Null => (m, Ok(NodeS::Null)),
            NodeS::Number(x) => (m, Ok(NodeS::Number(x))),
            NodeS::Function(ps, b) => (m, Ok(NodeS::Null)),
            NodeS::Symbol(s) => (
                m,
                match spec_lookup(m, cur, s) {
                    Some(v) => Ok(v),
                    None => Err(EvalError::UnboundSymbol),
                },
            ),
            NodeS::List(elems) => spec_eval_list(f, elems, m, cur),
        }
    }
}

/// Left-to-right evaluation of the elements from position `i` on.
pub open spec fn spec_eval_elems(fuel: nat, elems: Seq<NodeS>, i: int, m: Seq<FrameS>, cur: int) -> (
    Seq<FrameS>,
    Result<Seq<NodeS>, EvalError>,
)
    decreases fuel,
{
    if fuel == 0 {
        (m, Err(EvalError::DepthLimit))
    } else if i < 0 || i >= elems.len() {
        (m, Ok(Seq::empty()))
    } else {
        let f = (fuel - 1) as nat;
        let step = spec_eval(f, elems[i], m, cur);
        match step.1 {
            Err(e) => (step.0, Err(e)),
            Ok(v) => {
                let rest = spec_eval_elems(f, elems, i + 1, step.0, cur);
                match rest.1 {
                    Err(e) => (rest.0, Err(e)),
                    Ok(vs) => (rest.0, Ok(seq![v] + vs)),
                }
            },
        }
    }
}

/// Evaluation of a list form: dispatch on the head as described above.
pub open spec fn spec_eval_list(fuel: nat, elems: Seq<NodeS>, m: Seq<FrameS>, cur: int) -> (
    Seq<FrameS>,
    Result<NodeS, EvalError>,
)
    decreases fuel,
{
    if fuel == 0 {
        (m, Err(EvalError::DepthLimit))
    } else {
        let f = (fuel - 1) as nat;
        if elems.len() == 0 {
            (m, Ok(NodeS::List(Seq::empty())))
        } else if !(elems[0] is Symbol) {
            let r = spec_eval_elems(f, elems, 0, m, cur);
            match r.1 {
                Ok(vs) => (r.0, Ok(NodeS::List(vs))),
                Err(e) => (r.0, Err(e)),
            }
        } else {
            let s = elems[0]->Symbol_0;
            if s == "let"@ {
                if elems.len() != 3 {
                    (m, Err(EvalError::ArityMismatch))
                } else if !(elems[1] is Symbol) {
                    (m, Err(EvalError::TypeMismatch))
                } else {
                    let step = spec_eval(f, elems[2], m, cur);
                    match step.1 {
                        Err(e) => (step.0, Err(e)),
                        Ok(v) => spec_define_var(elems[1], v, step.0, cur),
                    }
                }
            } else if s == "func"@ {
                if elems.len() != 4 {
                    (m, Err(EvalError::ArityMismatch))
                } else {
                    spec_define_func(elems[1], elems[2], elems[3], m, cur)
                }
            } else if is_arith_op(s) {
                let r = spec_eval_elems(f, elems, 1, m, cur);
                match r.1 {
                    Err(e) => (r.0, Err(e)),
                    Ok(vs) => (
                        r.0,
                        match spec_arith(s, vs) {
                            Ok(x) => Ok(NodeS::Number(x)),
                            Err(e) => Err(e),
                        },
                    ),
                }
            } else {
                match spec_lookup(m, cur, s) {
                    None => (m, Ok(NodeS::Null)),
                    Some(NodeS::Function(ps, b)) => spec_apply(f, ps, b, elems, m, cur),
                    Some(_) => {
                        let r = spec_eval_elems(f, elems, 0, m, cur);
                        match r.1 {
                            Ok(vs) => (r.0, Ok(NodeS::List(vs))),
                            Err(e) => (r.0, Err(e)),
                        }
                    },
                }
            }
        }
    }
}

/// Function application: the second element of the call list is evaluated
/// and must be a list supplying at least as many arguments as there are
/// parameters; a fresh frame binds them positionally, the closure's list
/// body is evaluated against it, and the frame is discarded.
pub open spec fn spec_apply(
    fuel: nat,
    ps: Seq<Seq<char>>,
    b: Seq<NodeS>,
    elems: Seq<NodeS>,
    m: Seq<FrameS>,
    cur: int,
) -> (Seq<FrameS>, Result<NodeS, EvalError>)
    decreases fuel,
{
    if fuel == 0 {
        (m, Err(EvalError::DepthLimit))
    } else if elems.len() < 2 {
        (m, Err(EvalError::ArityMismatch))
    } else {
        let f = (fuel - 1) as nat;
        let step = spec_eval(f, elems[1], m, cur);
        match step.1 {
            Err(e) => (step.0, Err(e)),
            Ok(argv) => {
                if !(argv is List) {
                    (step.0, Err(EvalError::TypeMismatch))
                } else {
                    let args = argv->List_0;
                    if args.len() < ps.len() {
                        (step.0, Err(EvalError::ArityMismatch))
                    } else {
                        let bodyn = if b.len() == 1 {
                            b[0]
                        } else {
                            NodeS::Null
                        };
                        if !(bodyn is List) {
                            (step.0, Err(EvalError::TypeMismatch))
                        } else {
                            let m2 = step.0.push(
                                FrameS { parent: Some(cur), data: params_map(ps, args) },
                            );
                            let inner = spec_eval_list(f, bodyn->List_0, m2, step.0.len() as int);
                            (inner.0.subrange(0, step.0.len() as int), inner.1)
                        }
                    }
                }
            },
        }
    }
}

/// Evaluation changes neither the number of frames nor any frame other than
/// the current one, and keeps the environment well-formed.
pub open spec fn shape_kept(m: Seq<FrameS>, m2: Seq<FrameS>, cur: int) -> bool {
    &&& m2.len() == m.len()
    &&& env_wf(m2)
    &&& (forall|k: int| 0 <= k < m.len() && k != cur ==> m2[k] == m[k])
    &&& m2[cur].parent == m[cur].parent
}

pub proof fn lemma_eval_shape(fuel: nat, node: NodeS, m: Seq<FrameS>, cur: int)
    requires
        env_wf(m),
        0 <= cur < m.len(),
    ensures
        shape_kept(m, spec_eval(fuel, node, m, cur).0, cur),
    decreases fuel,
{
    if fuel > 0 {
        match node {
            NodeS::List(elems) => {
                lemma_eval_list_shape((fuel - 1) as nat, elems, m, cur);
            },
            _ => {},
        }
    }
}

pub proof fn lemma_eval_elems_shape(fuel: nat, elems: Seq<NodeS>, i: int, m: Seq<FrameS>, cur: int)
    requires
        env_wf(m),
        0 <= cur < m.len(),
    ensures
        shape_kept(m, spec_eval_elems(fuel, elems, i, m, cur).0, cur),
    decreases fuel,
{
    if fuel > 0 && 0 <= i < elems.len() {
        let f = (fuel - 1) as nat;
        lemma_eval_shape(f, elems[i], m, cur);
        let step = spec_eval(f, elems[i], m, cur);
        if step.1 is Ok {
            lemma_eval_elems_shape(f, elems, i + 1, step.0, cur);
        }
    }
}

pub proof fn lemma_bind_shape(m: Seq<FrameS>, cur: int, key: Seq<char>, v: NodeS)
    requires
        env_wf(m),
        0 <= cur < m.len(),
    ensures
        shape_kept(m, env_bind(m, cur, key, v), cur),
{
}

pub proof fn lemma_eval_list_shape(fuel: nat, elems: Seq<NodeS>, m: Seq<FrameS>, cur: int)
    requires
        env_wf(m),
        0 <= cur < m.len(),
    ensures
        shape_kept(m, spec_eval_list(fuel, elems, m, cur).0, cur),
    decreases fuel,
{
    if fuel > 0 {
        let f = (fuel - 1) as nat;
        if elems.len() == 0 {
        } else if !(elems[0] is Symbol) {
            lemma_eval_elems_shape(f, elems, 0, m, cur);
        } else {
            let s = elems[0]->Symbol_0;
            if s == "let"@ {
                if elems.len() == 3 && elems[1] is Symbol {
                    lemma_eval_shape(f, elems[2], m, cur);
                    let step = spec_eval(f, elems[2], m, cur);
                    match step.1 {
                        Ok(v) => {
                            lemma_bind_shape(step.0, cur, elems[1]->Symbol_0, v);
                        },
                        Err(e) => {},
                    }
                }
            } else if s == "func"@ {
                if elems.len() == 4 {
                    let r = spec_define_func(elems[1], elems[2], elems[3], m, cur);
                    if r.1 is Ok {
                        lemma_bind_shape(
                            m,
                            cur,
                            elems[1]->Symbol_0,
                            NodeS::Function(
                                stdlib::spec_param_names(elems[2]->List_0),
                                seq![elems[3]],
                            ),
                        );
                    }
                }
            } else if is_arith_op(s) {
                lemma_eval_elems_shape(f, elems, 1, m, cur);
            } else {
                match spec_lookup(m, cur, s) {
                    None => {},
                    Some(NodeS::Function(ps, b)) => {
                        lemma_apply_shape(f, ps, b, elems, m, cur);
                    },
                    Some(_) => {
                        lemma_eval_elems_shape(f, elems, 0, m, cur);
                    },
                }
            }
        }
    }
}

pub proof fn lemma_apply_shape(
    fuel: nat,
    ps: Seq<Seq<char>>,
    b: Seq<NodeS>,
    elems: Seq<NodeS>,
    m: Seq<FrameS>,
    cur: int,
)
    requires
        env_wf(m),
        0 <= cur < m.len(),
    ensures
        shape_kept(m, spec_apply(fuel, ps, b, elems, m, cur).0, cur),
    decreases fuel,
{
    if fuel > 0 && elems.len() >= 2 {
        let f = (fuel - 1) as nat;
        lemma_eval_shape(f, elems[1], m, cur);
        let step = spec_eval(f, elems[1], m, cur);
        match step.1 {
            Err(e) => {},
            Ok(argv) => {
                if argv is List {
                    let args = argv->List_0;
                    let bodyn = if b.len() == 1 {
                        b[0]
                    } else {
                        NodeS::Null
                    };
                    if args.len() >= ps.len() && bodyn is List {
                        let m1 = step.0;
                        let m2 = m1.push(FrameS { parent: Some(cur), data: params_map(ps, args) });
                        assert(env_wf(m2)) by {
                            assert(forall|i: int|
                                0 <= i < m1.len() ==> (#[trigger] m2[i].parent matches Some(p)
                                    ==> 0 <= p < i));
                        }
                        lemma_eval_list_shape(f, bodyn->List_0, m2, m1.len() as int);
                        let inner = spec_eval_list(f, bodyn->List_0, m2, m1.len() as int);
                        let m4 = inner.0.subrange(0, m1.len() as int);
                        assert(m4 =~= m1);
                    }
                }
            },
        }
    }
}

/// Evaluates one expression against the environment, from frame `cur`.
pub fn evaluate_node(node: &Node, env: &mut Environment, cur: usize, fuel: u64) -> (r: Result<
    Node,
    EvalError,
>)
    requires
        env_wf(old(env)@),
        cur < old(env)@.len(),
    ensures
        ({
            let o = spec_eval(fuel as nat, node_view(*node), old(env)@, cur as int);
            final(env)@ == o.0 && res_matches(r, o.1)
        }),
    decreases fuel,
{
    if fuel == 0 {
        return Err(EvalError::DepthLimit);
    }
    match node {
        Node::Null => Ok(Node::Null),
        Node::Number(x) => Ok(Node::Number(*x)),
        Node::Function(_, _) => Ok(Node::Null),
        Node::Symbol(s) => evaluate_symbol(s, env, cur),
        Node::List(v) => evaluate_list(v, env, cur, fuel - 1),
    }
}

/// Resolves a symbol by chained lookup; a symbol found nowhere in the chain
/// is the `UnboundSymbol` fault.
pub fn evaluate_symbol(symbol: &String, env: &Environment, cur: usize) -> (r: Result<
    Node,
    EvalError,
>)
    requires
        env_wf(env@),
        cur < env@.len(),
    ensures
        match spec_lookup(env@, cur as int, symbol@) {
            Some(v) => r matches Ok(n) && node_view(n) == v,
            None => r == Err::<Node, EvalError>(EvalError::UnboundSymbol),
        },
{
    match env.get(cur, symbol) {
        Some(n) => Ok(n),
        None => Err(EvalError::UnboundSymbol),
    }
}

/// Evaluates the elements from position `start` on, left to right, collecting
/// the results.
pub fn evaluate_nodes(nodes: &Vec<Node>, start: usize, env: &mut Environment, cur: usize, fuel: u64) -> (r:
    Result<Vec<Node>, EvalError>)
    requires
        env_wf(old(env)@),
        cur < old(env)@.len(),
    ensures
        ({
            let o = spec_eval_elems(
                fuel as nat,
                nodes_view(nodes@),
                start as int,
                old(env)@,
                cur as int,
            );
            final(env)@ == o.0 && match (r, o.1) {
                (Ok(v), Ok(vs)) => nodes_view(v@) == vs,
                (Err(e1), Err(e2)) => e1 == e2,
                _ => false,
            }
        }),
    decreases fuel,
{
    broadcast use lemma_nodes_view_len, lemma_nodes_view_index;

    if fuel == 0 {
        return Err(EvalError::DepthLimit);
    }
    if start >= nodes.len() {
        let out: Vec<Node> = Vec::new();
        proof {
            assert(nodes_view(out@) =~= Seq::<NodeS>::empty());
        }
        return Ok(out);
    }
    let ghost m0 = env@;
    let v = evaluate_node(&nodes[start], env, cur, fuel - 1)?;
    proof {
        lemma_eval_shape((fuel - 1) as nat, node_view(nodes@[start as int]), m0, cur as int);
    }
    let ghost vg = v;
    let mut rest = evaluate_nodes(nodes, start + 1, env, cur, fuel - 1)?;
    let ghost restv = rest@;
    rest.insert(0, v);
    proof {
        assert(nodes_view(rest@) =~= seq![node_view(vg)] + nodes_view(restv));
    }
    Ok(rest)
}

/// Evaluates a list form: empty and non-symbol-headed lists become data
/// lists; otherwise the head symbol dispatches as a special form, an
/// arithmetic operator, a bound closure, a bound value, or nothing.
pub fn evaluate_list(nodes: &Vec<Node>, env: &mut Environment, cur: usize, fuel: u64) -> (r: Result<
    Node,
    EvalError,
>)
    requires
        env_wf(old(env)@),
        cur < old(env)@.len(),
    ensures
        ({
            let o = spec_eval_list(fuel as nat, nodes_view(nodes@), old(env)@, cur as int);
            final(env)@ == o.0 && res_matches(r, o.1)
        }),
    decreases fuel,
{
    broadcast use lemma_nodes_view_len, lemma_nodes_view_index;

    if fuel == 0 {
        return Err(EvalError::DepthLimit);
    }
    if nodes.len() == 0 {
        let out: Vec<Node> = Vec::new();
        proof {
            assert(nodes_view(out@) =~= Seq::<NodeS>::empty());
        }
        return Ok(Node::List(out));
    }
    match &nodes[0] {
        Node::Symbol(s) => {
            if *s == "let".to_owned() {
                if nodes.len() != 3 {
                    return Err(EvalError::ArityMismatch);
                }
                let target_ok = match &nodes[1] {
                    Node::Symbol(_) => true,
                    _ => false,
                };
                if !target_ok {
                    return Err(EvalError::TypeMismatch);
                }
                let ghost m0 = env@;
                let v = evaluate_node(&nodes[2], env, cur, fuel - 1)?;
                proof {
                    lemma_eval_shape((fuel - 1) as nat, node_view(nodes@[2]), m0, cur as int);
                }
                stdlib::define_var(&nodes[1], &v, env, cur)
            } else if *s == "func".to_owned() {
                if nodes.len() != 4 {
                    return Err(EvalError::ArityMismatch);
                }
                stdlib::define_func(&nodes[1], &nodes[2], &nodes[3], env, cur)
            } else if *s == "+".to_owned() || *s == "-".to_owned() || *s == "*".to_owned() || *s
                == "/".to_owned() {
                let vs = evaluate_nodes(nodes, 1, env, cur, fuel - 1)?;
                stdlib::do_arithmetic_operation(&vs, s)
            } else {
                match env.get(cur, s) {
                    None => Ok(Node::Null),
                    Some(f_node) => {
                        let is_func = match &f_node {
                            Node::Function(_, _) => true,
                            _ => false,
                        };
                        if is_func {
                            evaluate_function(&f_node, nodes, env, cur, fuel - 1)
                        } else {
                            let vs = evaluate_nodes(nodes, 0, env, cur, fuel - 1)?;
                            Ok(Node::List(vs))
                        }
                    },
                }
            }
        },
        _ => {
            let vs = evaluate_nodes(nodes, 0, env, cur, fuel - 1)?;
            Ok(Node::List(vs))
        },
    }
}

/// Applies a closure: evaluates the argument-list expression, binds the
/// parameters positionally in a fresh frame, evaluates the body there, and
/// discards the frame.
#[verifier::loop_isolation(false)]
pub fn evaluate_function(
    function_node: &Node,
    nodes: &Vec<Node>,
    env: &mut Environment,
    cur: usize,
    fuel: u64,
) -> (r: Result<Node, EvalError>)
    requires
        env_wf(old(env)@),
        cur < old(env)@.len(),
        node_view(*function_node) is Function,
    ensures
        ({
            let o = spec_apply(
                fuel as nat,
                node_view(*function_node)->Function_0,
                node_view(*function_node)->Function_1,
                nodes_view(nodes@),
                old(env)@,
                cur as int,
            );
            final(env)@ == o.0 && res_matches(r, o.1)
        }),
    decreases fuel,
{
    broadcast use lemma_nodes_view_len, lemma_nodes_view_index;

    if fuel == 0 {
        return Err(EvalError::DepthLimit);
    }
    if nodes.len() < 2 {
        return Err(EvalError::ArityMismatch);
    }
    let ghost m0 = env@;
    let argv = evaluate_node(&nodes[1], env, cur, fuel - 1)?;
    proof {
        lemma_eval_shape((fuel - 1) as nat, node_view(nodes@[1]), m0, cur as int);
    }
    let args = match argv {
        Node::List(args) => args,
        _ => {
            return Err(EvalError::TypeMismatch);
        },
    };
    let (ps, body) = match function_node {
        Node::Function(ps, body) => (ps, body),
        _ => {
            return Err(EvalError::TypeMismatch);
        },
    };
    proof {
        assert(node_view(*function_node) == NodeS::Function(
            names_view(ps@),
            seq![node_view(**body)],
        ));
        assert(names_view(ps@).len() == ps@.len());
        assert(nodes_view(args@).len() == args@.len());
    }
    if args.len() < ps.len() {
        return Err(EvalError::ArityMismatch);
    }
    let body_elems = match &**body {
        Node::List(v) => v,
        _ => {
            proof {
                let bn = **body;
                assert(!(node_view(bn) is List)) by {
                    match bn {
                        Node::Null => {},
                        Node::Symbol(_) => {},
                        Node::Number(_) => {},
                        Node::List(_) => {},
                        Node::Function(_, _) => {},
                    }
                }
            }
            return Err(EvalError::TypeMismatch);
        },
    };
    let ghost m1 = env@;
    let ghost psv = names_view(ps@);
    let ghost argsv = nodes_view(args@);
    env.push_frame(cur);
    let newcur = env.frames.len() - 1;
    let mut j: usize = 0;
    while j < ps.len()
        invariant
            j <= ps.len(),
            env@ =~~= m1.push(
                FrameS {
                    parent: Some(cur as int),
                    data: params_map(psv.take(j as int), argsv),
                },
            ),
        decreases ps.len() - j,
    {
        proof {
            lemma_nodes_view_index(args@, j as int);
        }
        env.insert(newcur, ps[j].clone(), args[j].deep_clone());
        proof {
            assert(psv.take(j + 1).drop_last() =~= psv.take(j as int));
            assert(psv.take(j + 1).last() == psv[j as int]);
            assert(params_map(psv.take(j + 1), argsv) == params_map(psv.take(j as int), argsv)
                .insert(psv[j as int], argsv[j as int]));
            assert(env@ =~~= m1.push(
                FrameS { parent: Some(cur as int), data: params_map(psv.take(j + 1), argsv) },
            ));
        }
        j = j + 1;
    }
    proof {
        assert(psv.take(ps@.len() as int) =~= psv);
        assert(env@ =~~= m1.push(FrameS { parent: Some(cur as int), data: params_map(psv, argsv) }));
        assert(env_wf(env@)) by {
            assert(forall|i: int|
                0 <= i < env@.len() ==> (#[trigger] env@[i].parent matches Some(p) ==> 0 <= p < i));
        }
    }
    let ghost m2 = env@;
    let rbody = evaluate_list(body_elems, env, newcur, fuel - 1);
    proof {
        lemma_eval_list_shape((fuel - 1) as nat, nodes_view(body_elems@), m2, newcur as int);
    }
    env.pop_frame();
    proof {
        assert(env@ =~= spec_eval_list(
            (fuel - 1) as nat,
            nodes_view(body_elems@),
            m2,
            newcur as int,
        ).0.subrange(0, m1.len() as int));
    }
    rbody
}

/// An expression made of numbers and nested lists alone: no symbols anywhere,
/// so no special form, operator, binding or lookup can fire while it is
/// evaluated.
pub open spec fn is_pure_data(n: NodeS) -> bool
    decreases n,
{
    match n {
        NodeS::Number(x) => true,
        NodeS::List(elems) => forall|i: int|
            0 <= i < elems.len() ==> is_pure_data(#[trigger] elems[i]),
        _ => false,
    }
}

/// Evaluation budget sufficient for one pure-data expression.
pub open spec fn node_fuel(n: NodeS) -> nat
    decreases n, 0nat,
{
    match n {
        NodeS::List(elems) => 2 + elems_fuel(elems, 0),
        _ => 1,
    }
}

/// Evaluation budget sufficient for the elements from position `i` on.
pub open spec fn elems_fuel(elems: Seq<NodeS>, i: int) -> nat
    decreases elems, elems.len() - i,
{
    if i < 0 || i >= elems.len() {
        1
    } else {
        let a = node_fuel(elems[i]);
        let b = elems_fuel(elems, i + 1);
        1 + if a > b {
            a
        } else {
            b
        }
    }
}

/// A pure-data expression evaluates to itself, in any environment, leaving
/// every frame of the environment unchanged.
pub proof fn lemma_eval_pure_data(fuel: nat, n: NodeS, m: Seq<FrameS>, cur: int)
    requires
        is_pure_data(n),
        fuel >= node_fuel(n),
    ensures
        spec_eval(fuel, n, m, cur) == (m, Ok::<NodeS, EvalError>(n)),
    decreases fuel,
{
    match n {
        NodeS::List(elems) => {
            let f = (fuel - 1) as nat;
            if elems.len() == 0 {
                assert(NodeS::List(Seq::empty()) == n) by {
                    assert(elems =~= Seq::<NodeS>::empty());
                }
            } else {
                assert(!(elems[0] is Symbol)) by {
                    if elems[0] is Symbol {
                        assert(is_pure_data(elems[0]));
                        assert(false);
                    }
                }
                lemma_eval_elems_pure_data((f - 1) as nat, elems, 0, m, cur);
                assert(elems.skip(0) =~= elems);
            }
        },
        _ => {},
    }
}

/// The elements of a pure-data list evaluate to themselves, in order.
pub proof fn lemma_eval_elems_pure_data(fuel: nat, elems: Seq<NodeS>, i: int, m: Seq<FrameS>, cur: int)
    requires
        0 <= i <= elems.len(),
        forall|k: int| 0 <= k < elems.len() ==> is_pure_data(#[trigger] elems[k]),
        fuel >= elems_fuel(elems, i),
    ensures
        spec_eval_elems(fuel, elems, i, m, cur) == (
            m,
            Ok::<Seq<NodeS>, EvalError>(elems.skip(i)),
        ),
    decreases fuel,
{
    if i >= elems.len() {
        assert(elems.skip(i) =~= Seq::<NodeS>::empty());
    } else {
        let f = (fuel - 1) as nat;
        lemma_eval_pure_data(f, elems[i], m, cur);
        lemma_eval_elems_pure_data(f, elems, i + 1, m, cur);
        assert(seq![elems[i]] + elems.skip(i + 1) =~= elems.skip(i));
    }
}

/// Evaluation is idempotent on pure-data expressions: feeding the value an
/// evaluation produced back to the evaluator reproduces that value and that
/// environment, so re-evaluating a faithfully re-parsed rendering of the
/// result changes nothing.
pub proof fn lemma_eval_idempotent(fuel: nat, n: NodeS, m: Seq<FrameS>, cur: int)
    requires
        is_pure_data(n),
        fuel >= node_fuel(n),
    ensures
        ({
            let o = spec_eval(fuel, n, m, cur);
            &&& o.1 == Ok::<NodeS, EvalError>(n)
            &&& spec_eval(fuel, o.1->Ok_0, o.0, cur) == o
        }),
{
    lemma_eval_pure_data(fuel, n, m, cur);
}

/// Pure data trees have a token spelling.
pub proof fn lemma_pure_data_is_writable(n: NodeS)
    requires
        is_pure_data(n),
    ensures
        crate::parser::is_writable(n),
    decreases n,
{
    match n {
        NodeS::List(elems) => {
            assert forall|i: int| 0 <= i < elems.len() implies crate::parser::is_writable(
                #[trigger] elems[i],
            ) by {
                lemma_pure_data_is_writable(elems[i]);
            };
        },
        _ => {},
    }
}

} // verus!
