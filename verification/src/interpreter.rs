//! The interpreter: one persistent root environment and the
//! tokenize → parse → evaluate pipeline over it.

use vstd::prelude::*;
use crate::env::{Environment, env_wf};
use crate::eval::{evaluate_node, lemma_eval_shape, spec_eval};
use crate::lexer::{Token, TokenS, tokenize_text, tokens_view, spec_tokenize};
use crate::node::{Node, NodeS, node_view};
use crate::parser::{parse_tokens, spec_parse, ParseError};
use crate::stdlib::EvalError;

verus! {

/// The evaluation budget: every recursive step of the evaluator spends one
/// unit, and an expression too deep to finish within the budget is reported
/// as `DepthLimit`.
pub const EVAL_FUEL: u64 = 1000000;

/// Source text, its tokens, its parse tree, the persistent root environment,
/// and the result of the last evaluation.
pub struct Interpreter {
    pub src: String,
    pub tokens: Vec<Token>,
    pub ast: Node,
    pub env: Environment,
    pub res: Node,
}

impl Interpreter {
    /// A fresh interpreter over an empty root environment.
    pub fn new() -> (r: Interpreter)
        ensures
            r.src@ == Seq::<char>::empty(),
            r.tokens@ == Seq::<Token>::empty(),
            node_view(r.ast) == NodeS::Null,
            node_view(r.res) == NodeS::Null,
            env_wf(r.env@),
            r.env@.len() == 1,
            r.env@[0].data == Map::<Seq<char>, NodeS>::empty(),
    {
        Interpreter {
            src: String::new(),
            tokens: Vec::new(),
            ast: Node::Null,
            env: Environment::new(),
            res: Node::Null,
        }
    }

    /// Clears source, tokens and tree for the next input. The environment
    /// keeps every binding: inputs are additive across a session.
    pub fn reset(&mut self)
        ensures
            final(self).src@ == Seq::<char>::empty(),
            final(self).tokens@ == Seq::<Token>::empty(),
            node_view(final(self).ast) == NodeS::Null,
            final(self).env == old(self).env,
            final(self).res == old(self).res,
    {
        self.src = String::new();
        self.tokens = Vec::new();
        self.ast = Node::Null;
    }

    /// Tokenizes the current source text, appending to the token buffer.
    #[verifier::loop_isolation(false)]
    pub fn tokenize(&mut self)
        ensures
            tokens_view(final(self).tokens@) == tokens_view(old(self).tokens@) + spec_tokenize(
                old(self).src@,
            ),
            final(self).src == old(self).src,
            final(self).ast == old(self).ast,
            final(self).env == old(self).env,
            final(self).res == old(self).res,
    {
        let mut fresh = tokenize_text(self.src.as_str());
        let ghost t0 = tokens_view(self.tokens@);
        let ghost f0 = tokens_view(fresh@);
        while fresh.len() > 0
            invariant
                tokens_view(self.tokens@) + tokens_view(fresh@) == t0 + f0,
                self.src == old(self).src,
                self.ast == old(self).ast,
                self.env == old(self).env,
                self.res == old(self).res,
            decreases fresh.len(),
        {
            let t = fresh.remove(0);
            let ghost tg = t;
            self.tokens.push(t);
            proof {
                assert(tokens_view(self.tokens@) + tokens_view(fresh@) =~= t0 + f0);
            }
        }
        proof {
            assert(tokens_view(fresh@) =~= Seq::<TokenS>::empty());
            assert(tokens_view(self.tokens@) =~= tokens_view(self.tokens@) + tokens_view(fresh@));
        }
    }

    /// Parses the token buffer into one top-level list expression; on a
    /// parse fault the old tree is kept and the fault is reported.
    pub fn parse(&mut self) -> (r: Result<(), ParseError>)
        ensures
            final(self).src == old(self).src,
            final(self).tokens == old(self).tokens,
            final(self).env == old(self).env,
            final(self).res == old(self).res,
            match spec_parse(tokens_view(old(self).tokens@)) {
                Ok(n) => r is Ok && node_view(final(self).ast) == n,
                Err(e) => r == Err::<(), ParseError>(e) && final(self).ast == old(self).ast,
            },
    {
        match parse_tokens(&self.tokens) {
            Ok(node) => {
                self.ast = node;
                Ok(())
            },
            Err(e) => Err(e),
        }
    }

    /// Evaluates the parse tree against the persistent environment, from the
    /// root frame. On success the result is stored; on a fault the result is
    /// `Null` and the fault kind is reported; either way the environment is
    /// left in the consistent state evaluation reached.
    pub fn evaluate(&mut self) -> (r: Result<(), EvalError>)
        requires
            env_wf(old(self).env@),
        ensures
            final(self).src == old(self).src,
            final(self).tokens == old(self).tokens,
            final(self).ast == old(self).ast,
            env_wf(final(self).env@),
            ({
                let o = spec_eval(EVAL_FUEL as nat, node_view(old(self).ast), old(self).env@, 0);
                final(self).env@ == o.0 && match (r, o.1) {
                    (Ok(u), Ok(v)) => node_view(final(self).res) == v,
                    (Err(e1), Err(e2)) => e1 == e2 && node_view(final(self).res) == NodeS::Null,
                    _ => false,
                }
            }),
    {
        let ast = self.ast.deep_clone();
        let ghost m0 = self.env@;
        let r = evaluate_node(&ast, &mut self.env, 0, EVAL_FUEL);
        proof {
            lemma_eval_shape(EVAL_FUEL as nat, node_view(ast), m0, 0);
        }
        match r {
            Ok(n) => {
                self.res = n;
                Ok(())
            },
            Err(e) => {
                self.res = Node::Null;
                Err(e)
            },
        }
    }
}

} // verus!
