//! The parser: a flat token sequence to one nested expression tree, with
//! balanced-parenthesis checking.

use vstd::prelude::*;
use crate::lexer::{Token, TokenS, tokens_view};
use crate::node::{
    Node,
    NodeS,
    node_view,
    nodes_view,
    lemma_nodes_view_len,
    lemma_nodes_view_index,
    lemma_nodes_view_push,
};

verus! {

/// A fault found while parsing.
#[derive(Debug, Clone, Copy, PartialEq, Eq, Structural)]
pub enum ParseError {
    /// The token sequence is not exactly one parenthesized form.
    MalformedTopLevel,
    /// A closing parenthesis without an open one, or an open one never closed.
    UnbalancedParens,
}

/// Appends a finished node to the list being built on top of the stack.
pub open spec fn push_top(stack: Seq<Seq<NodeS>>, n: NodeS) -> Seq<Seq<NodeS>> {
    stack.update(stack.len() - 1, stack.last().push(n))
}

/// One pass over the tokens with a stack of partial lists: `(` opens a list,
/// `)` closes the innermost open list, and leaves go into the innermost one.
pub open spec fn spec_parse_loop(tokens: Seq<TokenS>, i: int, stack: Seq<Seq<NodeS>>) -> Result<
    Seq<NodeS>,
    ParseError,
>
    decreases tokens.len() - i,
{
    if stack.len() == 0 {
        Err(ParseError::UnbalancedParens)
    } else if !(0 <= i < tokens.len()) {
        if stack.len() == 1 {
            Ok(stack[0])
        } else {
            Err(ParseError::UnbalancedParens)
        }
    } else {
        match tokens[i] {
            TokenS::Symbol(s) => spec_parse_loop(tokens, i + 1, push_top(stack, NodeS::Symbol(s))),
            TokenS::Number(x) => spec_parse_loop(tokens, i + 1, push_top(stack, NodeS::Number(x))),
            TokenS::LParen => spec_parse_loop(tokens, i + 1, stack.push(Seq::empty())),
            TokenS::RParen => if stack.len() == 1 {
                Err(ParseError::UnbalancedParens)
            } else {
                spec_parse_loop(
                    tokens,
                    i + 1,
                    push_top(stack.drop_last(), NodeS::List(stack.last())),
                )
            },
        }
    }
}

/// The parse of a whole token sequence: the tokens must form exactly one
/// top-level expression and that expression must be a list.
pub open spec fn spec_parse(tokens: Seq<TokenS>) -> Result<NodeS, ParseError> {
    match spec_parse_loop(tokens, 0, seq![Seq::empty()]) {
        Err(e) => Err(e),
        Ok(nodes) => if nodes.len() == 1 && nodes[0] is List {
            Ok(nodes[0])
        } else {
            Err(ParseError::MalformedTopLevel)
        },
    }
}

/// The model of the parser's stack.
pub open spec fn stack_view(st: Seq<Vec<Node>>) -> Seq<Seq<NodeS>> {
    st.map(|i: int, v: Vec<Node>| nodes_view(v@))
}

/// Parses a token sequence into one expression tree.
pub fn parse_tokens(tokens: &Vec<Token>) -> (r: Result<Node, ParseError>)
    ensures
        match spec_parse(tokens_view(tokens@)) {
            Ok(n) => r matches Ok(node) && node_view(node) == n,
            Err(e) => r matches Err(e2) && e2 == e,
        },
{
    broadcast use lemma_nodes_view_len, lemma_nodes_view_index, lemma_nodes_view_push;

    let ghost toks = tokens_view(tokens@);
    let mut stack: Vec<Vec<Node>> = Vec::new();
    stack.push(Vec::new());
    proof {
        assert(stack_view(stack@) =~~= seq![Seq::<NodeS>::empty()]);
    }
    let mut i: usize = 0;
    while i < tokens.len()
        invariant
            i <= tokens.len(),
            toks == tokens_view(tokens@),
            stack@.len() >= 1,
            spec_parse_loop(toks, 0, seq![Seq::<NodeS>::empty()]) == spec_parse_loop(
                toks,
                i as int,
                stack_view(stack@),
            ),
        decreases tokens.len() - i,
    {
        let ghost sv0 = stack_view(stack@);
        match &tokens[i] {
            Token::Symbol(s) => {
                let node = Node::Symbol(s.clone());
                let ghost ng = node;
                let mut top = stack.pop().unwrap();
                let ghost tv0 = top@;
                top.push(node);
                stack.push(top);
                proof {
                    lemma_nodes_view_push(tv0, ng);
                    assert(stack_view(stack@) =~~= push_top(sv0, NodeS::Symbol(s@)));
                }
            },
            Token::Number(x) => {
                let node = Node::Number(*x);
                let ghost ng = node;
                let mut top = stack.pop().unwrap();
                let ghost tv0 = top@;
                top.push(node);
                stack.push(top);
                proof {
                    lemma_nodes_view_push(tv0, ng);
                    assert(stack_view(stack@) =~~= push_top(sv0, NodeS::Number(*x)));
                }
            },
            Token::LParen => {
                stack.push(Vec::new());
                proof {
                    assert(stack_view(stack@) =~~= sv0.push(Seq::empty()));
                }
            },
            Token::RParen => {
                if stack.len() == 1 {
                    return Err(ParseError::UnbalancedParens);
                }
                let inner = stack.pop().unwrap();
                let node = Node::List(inner);
                let ghost ng = node;
                let ghost nv = node_view(node);
                let mut top = stack.pop().unwrap();
                let ghost tv0 = top@;
                top.push(node);
                stack.push(top);
                proof {
                    lemma_nodes_view_push(tv0, ng);
                    assert(nv == NodeS::List(sv0.last()));
                    assert(stack_view(stack@) =~~= push_top(sv0.drop_last(), NodeS::List(sv0.last())));
                }
            },
        }
        i = i + 1;
    }
    if stack.len() != 1 {
        return Err(ParseError::UnbalancedParens);
    }
    let ghost svf = stack_view(stack@);
    let mut top = stack.pop().unwrap();
    proof {
        assert(spec_parse_loop(toks, i as int, svf) == Ok::<Seq<NodeS>, ParseError>(svf[0]));
        assert(svf[0] == nodes_view(top@));
    }
    if top.len() != 1 {
        return Err(ParseError::MalformedTopLevel);
    }
    let ghost topv = nodes_view(top@);
    let node = top.pop().unwrap();
    proof {
        assert(topv[0] == node_view(node));
    }
    let is_list = match &node {
        Node::List(_) => true,
        _ => false,
    };
    if is_list {
        Ok(node)
    } else {
        Err(ParseError::MalformedTopLevel)
    }
}

/// A tree that has a token spelling: numbers, symbols and nested lists.
pub open spec fn is_writable(n: NodeS) -> bool
    decreases n,
{
    match n {
        NodeS::Number(x) => true,
        NodeS::Symbol(s) => true,
        NodeS::List(elems) => forall|i: int|
            0 <= i < elems.len() ==> is_writable(#[trigger] elems[i]),
        _ => false,
    }
}

/// The token spelling of a tree: leaves become their tokens, a list becomes
/// its elements' spellings between one pair of parentheses.
pub open spec fn spec_flatten(n: NodeS) -> Seq<TokenS>
    decreases n, 0nat,
{
    match n {
        NodeS::Number(x) => seq![TokenS::Number(x)],
        NodeS::Symbol(s) => seq![TokenS::Symbol(s)],
        NodeS::List(elems) => seq![TokenS::LParen] + spec_flatten_elems(elems, 0) + seq![
            TokenS::RParen,
        ],
        _ => Seq::empty(),
    }
}

pub open spec fn spec_flatten_elems(elems: Seq<NodeS>, i: int) -> Seq<TokenS>
    decreases elems, elems.len() - i,
{
    if i < 0 || i >= elems.len() {
        Seq::empty()
    } else {
        spec_flatten(elems[i]) + spec_flatten_elems(elems, i + 1)
    }
}

proof fn lemma_parse_loop_flatten(n: NodeS, tokens: Seq<TokenS>, i: int, stack: Seq<Seq<NodeS>>)
    requires
        is_writable(n),
        stack.len() >= 1,
        0 <= i,
        i + spec_flatten(n).len() <= tokens.len(),
        tokens.subrange(i, i + spec_flatten(n).len()) == spec_flatten(n),
    ensures
        spec_parse_loop(tokens, i, stack) == spec_parse_loop(
            tokens,
            i + spec_flatten(n).len(),
            push_top(stack, n),
        ),
    decreases n, 0nat,
{
    let fl = spec_flatten(n);
    match n {
        NodeS::Number(x) => {
            assert(tokens[i] == tokens.subrange(i, i + fl.len())[0]);
        },
        NodeS::Symbol(s) => {
            assert(tokens[i] == tokens.subrange(i, i + fl.len())[0]);
        },
        NodeS::List(elems) => {
            let inner = spec_flatten_elems(elems, 0);
            assert(tokens[i] == tokens.subrange(i, i + fl.len())[0]);
            assert(tokens[i] == TokenS::LParen);
            assert(tokens.subrange(i + 1, i + 1 + inner.len()) =~= inner) by {
                assert forall|k: int| 0 <= k < inner.len() implies tokens.subrange(
                    i + 1,
                    i + 1 + inner.len(),
                )[k] == inner[k] by {
                    assert(tokens.subrange(i, i + fl.len())[1 + k] == fl[1 + k]);
                };
            }
            let stack2 = stack.push(Seq::empty());
            lemma_parse_loop_flatten_elems(elems, 0, tokens, i + 1, stack2);
            let i2 = i + 1 + inner.len();
            assert(tokens[i2] == tokens.subrange(i, i + fl.len())[1 + inner.len() as int]);
            let stack3 = stack2.update(
                stack2.len() - 1,
                stack2.last() + elems.skip(0),
            );
            assert(stack3.last() =~= elems);
            assert(tokens[i2] == TokenS::RParen);
            assert(stack3.len() == stack.len() + 1);
            assert(stack3.drop_last() =~= stack);
            assert(spec_parse_loop(tokens, i2, stack3) == spec_parse_loop(
                tokens,
                i2 + 1,
                push_top(stack, NodeS::List(elems)),
            )) by {
                assert(push_top(stack3.drop_last(), NodeS::List(stack3.last())) =~~= push_top(
                    stack,
                    NodeS::List(elems),
                ));
            }
        },
        _ => {},
    }
}

proof fn lemma_parse_loop_flatten_elems(
    elems: Seq<NodeS>,
    j: int,
    tokens: Seq<TokenS>,
    i: int,
    stack: Seq<Seq<NodeS>>,
)
    requires
        forall|k: int| 0 <= k < elems.len() ==> is_writable(#[trigger] elems[k]),
        0 <= j <= elems.len(),
        stack.len() >= 1,
        0 <= i,
        i + spec_flatten_elems(elems, j).len() <= tokens.len(),
        tokens.subrange(i, i + spec_flatten_elems(elems, j).len()) == spec_flatten_elems(elems, j),
    ensures
        spec_parse_loop(tokens, i, stack) == spec_parse_loop(
            tokens,
            i + spec_flatten_elems(elems, j).len(),
            stack.update(stack.len() - 1, stack.last() + elems.skip(j)),
        ),
    decreases elems, elems.len() - j,
{
    if j >= elems.len() {
        assert(stack.last() + elems.skip(j) =~= stack.last());
        assert(stack.update(stack.len() - 1, stack.last() + elems.skip(j)) =~~= stack);
    } else {
        let head = spec_flatten(elems[j]);
        let tail = spec_flatten_elems(elems, j + 1);
        let full = spec_flatten_elems(elems, j);
        assert(tokens.subrange(i, i + head.len()) =~= head) by {
            assert forall|k: int| 0 <= k < head.len() implies tokens.subrange(i, i + head.len())[k]
                == head[k] by {
                assert(tokens.subrange(i, i + full.len())[k] == full[k]);
            };
        }
        assert(tokens.subrange(i + head.len(), i + head.len() + tail.len()) =~= tail) by {
            assert forall|k: int| 0 <= k < tail.len() implies tokens.subrange(
                i + head.len(),
                i + head.len() + tail.len(),
            )[k] == tail[k] by {
                assert(tokens.subrange(i, i + full.len())[head.len() + k] == full[head.len() + k]);
            };
        }
        lemma_parse_loop_flatten(elems[j], tokens, i, stack);
        let stack2 = push_top(stack, elems[j]);
        lemma_parse_loop_flatten_elems(elems, j + 1, tokens, i + head.len(), stack2);
        assert(stack2.update(stack2.len() - 1, stack2.last() + elems.skip(j + 1)) =~~= stack.update(
            stack.len() - 1,
            stack.last() + elems.skip(j),
        )) by {
            assert(stack2.last() + elems.skip(j + 1) =~= stack.last() + elems.skip(j));
        }
    }
}

/// Round trip: the token spelling of a parenthesized tree of numbers,
/// symbols and nested lists parses back to exactly that tree.
pub proof fn lemma_parse_flatten_roundtrip(n: NodeS)
    requires
        is_writable(n),
        n is List,
    ensures
        spec_parse(spec_flatten(n)) == Ok::<NodeS, ParseError>(n),
{
    let tokens = spec_flatten(n);
    let init = seq![Seq::<NodeS>::empty()];
    assert(tokens.subrange(0, tokens.len() as int) =~= tokens);
    lemma_parse_loop_flatten(n, tokens, 0, init);
    let fin = push_top(init, n);
    assert(fin.len() == 1);
    assert(fin[0] =~= seq![n]);
}

} // verus!
