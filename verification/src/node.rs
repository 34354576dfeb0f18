//! The expression and value datatype: one tagged union serves both as parsed
//! syntax and as runtime value.

use vstd::prelude::*;

verus! {

/// A parsed expression or a runtime value.
///
/// `Number` holds a 64-bit signed integer; arithmetic on it wraps.
/// `Function` is a closure holding parameter names and an unevaluated body.
/// It captures no environment: free variables in the body resolve against the
/// caller's environment chain at call time.
#[derive(Debug, PartialEq)]
pub enum Node {
    Null,
    Symbol(String),
    Number(i64),
    List(Vec<Node>),
    Function(Vec<String>, Box<Node>),
}

/// The mathematical model of a `Node`.
///
/// A closure's body is kept in a one-element sequence: the sequence provides
/// the indirection that a recursive datatype needs.
pub enum NodeS {
    Null,
    Symbol(Seq<char>),
    Number(i64),
    List(Seq<NodeS>),
    Function(Seq<Seq<char>>, Seq<NodeS>),
}

/// The model of a sequence of parameter names.
pub open spec fn names_view(ps: Seq<String>) -> Seq<Seq<char>> {
    ps.map(|i: int, s: String| s@)
}

/// The model of a single expression.
pub open spec fn node_view(n: Node) -> NodeS
    decreases n,
{
    match n {
        Node::Null => NodeS::Null,
        Node::Symbol(s) => NodeS::Symbol(s@),
        Node::Number(x) => NodeS::Number(x),
        Node::List(v) => NodeS::List(nodes_view(v@)),
        Node::Function(ps, b) => NodeS::Function(names_view(ps@), seq![node_view(*b)]),
    }
}

/// The model of a sequence of expressions, element by element.
pub open spec fn nodes_view(v: Seq<Node>) -> Seq<NodeS>
    decreases v,
{
    if v.len() == 0 {
        Seq::empty()
    } else {
        nodes_view(v.drop_last()).push(node_view(v.last()))
    }
}

impl View for Node {
    type V = NodeS;

    open spec fn view(&self) -> NodeS {
        node_view(*self)
    }
}

pub broadcast proof fn lemma_nodes_view_len(v: Seq<Node>)
    ensures
        #[trigger] nodes_view(v).len() == v.len(),
    decreases v,
{
    if v.len() > 0 {
        lemma_nodes_view_len(v.drop_last());
    }
}

pub broadcast proof fn lemma_nodes_view_index(v: Seq<Node>, i: int)
    requires
        0 <= i < v.len(),
    ensures
        #[trigger] nodes_view(v)[i] == node_view(v[i]),
    decreases v,
{
    lemma_nodes_view_len(v.drop_last());
    if i < v.len() - 1 {
        lemma_nodes_view_index(v.drop_last(), i);
    }
}

pub broadcast proof fn lemma_nodes_view_push(v: Seq<Node>, n: Node)
    ensures
        #[trigger] nodes_view(v.push(n)) == nodes_view(v).push(node_view(n)),
{
    assert(v.push(n).drop_last() =~= v);
    assert(v.push(n).last() == n);
}

impl Node {
    /// A structural copy: the returned node has the same model as `self`.
    #[verifier::loop_isolation(false)]
    pub fn deep_clone(&self) -> (r: Node)
        ensures
            r@ == self@,
        decreases self,
    {
        broadcast use lemma_nodes_view_len, lemma_nodes_view_index;

        match self {
            Node::Null => Node::Null,
            Node::Symbol(s) => Node::Symbol(s.clone()),
            Node::Number(x) => Node::Number(*x),
            Node::List(v) => {
                let mut out: Vec<Node> = Vec::new();
                let mut i: usize = 0;
                while i < v.len()
                    invariant
                        i <= v.len(),
                        out@.len() == i,
                        forall|j: int| 0 <= j < i ==> #[trigger] node_view(out@[j]) == node_view(v@[j]),
                    decreases v.len() - i,
                {
                    out.push(v[i].deep_clone());
                    i = i + 1;
                }
                proof {
                    assert(nodes_view(out@) =~= nodes_view(v@));
                }
                Node::List(out)
            },
            Node::Function(ps, b) => {
                let mut names: Vec<String> = Vec::new();
                let mut i: usize = 0;
                while i < ps.len()
                    invariant
                        i <= ps.len(),
                        names@.len() == i,
                        forall|j: int| 0 <= j < i ==> names@[j] == ps@[j],
                    decreases ps.len() - i,
                {
                    names.push(ps[i].clone());
                    i = i + 1;
                }
                proof {
                    assert(names@ =~= ps@);
                }
                Node::Function(names, Box::new((**b).deep_clone()))
            },
        }
    }
}

} // verus!
