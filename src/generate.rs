//! The generator: the items of a script to a chain of builder calls, split
//! at each escape by a dispatch shim.
use crate::opcodes::Opcode;
use crate::parse::{parse_spec, program_view, Node, Syntax};
use crate::token::{Span, Token};
use vstd::prelude::*;

verus! {

/// A builder call that pushes one value.
#[derive(Debug, PartialEq, Eq)]
pub enum Call {
    /// Pushes an opcode.
    PushOpcode(Opcode),
    /// Pushes a byte string as data.
    PushBytes(Vec<u8>),
    /// Pushes an integer, in the builder's own minimal encoding.
    PushInt(i64),
}

impl View for Call {
    type V = Node;

    open spec fn view(&self) -> Node {
        match self {
            Call::PushOpcode(op) => Node::Opcode(op.code),
            Call::PushBytes(b) => Node::Bytes(b@),
            Call::PushInt(n) => Node::Int(*n),
        }
    }
}

/// Where a chain of calls starts.
#[derive(Debug)]
pub enum Base {
    /// A new, empty builder.
    New,
    /// The dispatch shim, applied to the builder that the inner chain yields
    /// and to the value of the escaped expression; it pushes that value in
    /// the way its kind calls for and returns the builder.
    Shim(Box<Chain>, Vec<Token>, Span),
}

/// A builder expression followed by calls on it, each with its range.
#[derive(Debug)]
pub struct Chain {
    pub base: Base,
    pub calls: Vec<(Call, Span)>,
}

/// A generated expression: a chain of builder calls, finalized into a script.
#[derive(Debug)]
pub struct Expression {
    pub chain: Chain,
}

/// The calls of a chain, as the nodes they push.
pub open spec fn calls_view(cs: Seq<(Call, Span)>) -> Seq<(Node, Span)> {
    cs.map_values(|c: (Call, Span)| (c.0@, c.1))
}

/// The nodes that a chain pushes, in the order in which they reach the builder.
pub open spec fn chain_nodes(c: Chain) -> Seq<(Node, Span)>
    decreases c,
{
    match c.base {
        Base::New => calls_view(c.calls@),
        Base::Shim(inner, escape, span) => chain_nodes(*inner).push((Node::Escape(escape@), span))
            + calls_view(c.calls@),
    }
}

/// The number of shims in a chain.
pub open spec fn shim_count(c: Chain) -> nat
    decreases c,
{
    match c.base {
        Base::New => 0,
        Base::Shim(inner, _, _) => shim_count(*inner) + 1,
    }
}

/// No item is an escape.
pub open spec fn escape_free(items: Seq<(Node, Span)>) -> bool {
    forall|i: int| 0 <= i < items.len() ==> !((#[trigger] items[i]).0 is Escape)
}

/// A chain whose nodes hold no escape starts from a new builder.
proof fn lemma_escape_free_chain(c: Chain)
    requires
        escape_free(chain_nodes(c)),
    ensures
        c.base is New,
        shim_count(c) == 0,
        chain_nodes(c) == calls_view(c.calls@),
{
    match c.base {
        Base::New => {},
        Base::Shim(inner, escape, span) => {
            let before = chain_nodes(*inner);
            assert(chain_nodes(c)[before.len() as int] == (Node::Escape(escape@), span));
        },
    }
}

/// Without escapes, the generated expression is one uninterrupted chain: a
/// new builder, then one push call per item of the parsed program, in
/// source order, with no shim; the finalizing call follows it.
pub proof fn law_escape_free_program_is_one_chain(tokens: Seq<Token>, expr: Expression)
    requires
        parse_spec(tokens) matches Ok((items, _)) && escape_free(items) && chain_nodes(expr.chain)
            == items,
    ensures
        parse_spec(tokens) matches Ok((items, _)) && {
            &&& expr.chain.base is New
            &&& shim_count(expr.chain) == 0
            &&& expr.chain.calls@.len() == items.len()
            &&& calls_view(expr.chain.calls@) == items
        },
{
    lemma_escape_free_chain(expr.chain);
}

/// With one escape, the chain splits exactly there: the pushes before it
/// form a chain from a new builder, the shim takes that chain's builder and
/// the escaped value, and the pushes after it go on from the shim's result.
pub proof fn law_chain_splits_at_escape(
    before: Seq<(Node, Span)>,
    escape: Seq<Token>,
    span: Span,
    after: Seq<(Node, Span)>,
    expr: Expression,
)
    requires
        escape_free(before),
        escape_free(after),
        chain_nodes(expr.chain) == before.push((Node::Escape(escape), span)) + after,
    ensures
        expr.chain.base matches Base::Shim(inner, e, s) && {
            &&& inner.base is New
            &&& calls_view(inner.calls@) == before
            &&& e@ == escape
            &&& s == span
            &&& calls_view(expr.chain.calls@) == after
        },
{
    let c = expr.chain;
    let items = before.push((Node::Escape(escape), span)) + after;
    assert(items[before.len() as int] == (Node::Escape(escape), span));
    match c.base {
        Base::New => {
            assert(calls_view(c.calls@)[before.len() as int].0 is Escape);
        },
        Base::Shim(inner, e, s) => {
            let x = chain_nodes(*inner);
            let tail = calls_view(c.calls@);
            assert(items == x.push((Node::Escape(e@), s)) + tail);
            assert(items[x.len() as int].0 is Escape);
            if x.len() < before.len() {
                assert(items[x.len() as int] == before[x.len() as int]);
            } else if x.len() > before.len() {
                assert(items[before.len() as int] == x[before.len() as int]);
                assert(tail.len() < after.len());
                let k = (x.len() - before.len() - 1) as int;
                assert(items[x.len() as int] == after[k]);
            }
            assert(x.len() == before.len());
            assert forall|i: int| 0 <= i < x.len() implies x[i] == before[i] by {
                assert(items[i] == x[i]);
                assert(items[i] == before[i]);
            }
            assert(x =~= before);
            assert forall|i: int| 0 <= i < tail.len() implies tail[i] == after[i] by {
                assert(items[x.len() + 1 + i] == tail[i]);
                assert(items[before.len() + 1 + i] == after[i]);
            }
            assert(tail =~= after);
            assert forall|i: int| 0 <= i < x.len() implies !((#[trigger] x[i]).0 is Escape) by {
                assert(x[i] == before[i]);
            }
            lemma_escape_free_chain(*inner);
        },
    }
}

/// Wraps the chain built so far in a shim for one escape; the calls after it
/// go on from what the shim returns.
fn generate_escape(builder: Chain, escape: Vec<Token>, span: Span) -> (r: Chain)
    ensures
        chain_nodes(r) == chain_nodes(builder).push((Node::Escape(escape@), span)),
        shim_count(r) == shim_count(builder) + 1,
{
    let r = Chain { base: Base::Shim(Box::new(builder), escape, span), calls: Vec::new() };
    assert(calls_view(r.calls@) =~= Seq::empty());
    assert(chain_nodes(r) =~= chain_nodes(builder).push((Node::Escape(escape@), span)));
    r
}

/// Generates the builder expression for a program: one push call per item,
/// in order, with a shim at each escape, then the finalizing call.
pub fn generate(syntax: Vec<(Syntax, Span)>) -> (r: Expression)
    ensures
        chain_nodes(r.chain) == program_view(syntax@),
{
    let ghost items = syntax@;
    let mut chain = Chain { base: Base::New, calls: Vec::new() };
    assert(chain_nodes(chain) =~= program_view(items.take(0)));
    for entry in it: syntax
        invariant
            it.seq() == items,
            chain_nodes(chain) == program_view(items.take(it.index() as int)),
    {
        let ghost before = chain_nodes(chain);
        let ghost k = it.index() as int;
        assert(entry == items[k]);
        let (item, span) = entry;
        match item {
            Syntax::Opcode(op) => {
                let ghost calls = chain.calls@;
                chain.calls.push((Call::PushOpcode(op), span));
                assert(calls_view(chain.calls@) =~= calls_view(calls).push((Node::Opcode(op.code), span)));
            },
            Syntax::Bytes(b) => {
                let ghost calls = chain.calls@;
                let ghost v = b@;
                chain.calls.push((Call::PushBytes(b), span));
                assert(calls_view(chain.calls@) =~= calls_view(calls).push((Node::Bytes(v), span)));
            },
            Syntax::Int(n) => {
                let ghost calls = chain.calls@;
                chain.calls.push((Call::PushInt(n), span));
                assert(calls_view(chain.calls@) =~= calls_view(calls).push((Node::Int(n), span)));
            },
            Syntax::Escape(escape) => {
                chain = generate_escape(chain, escape, span);
            },
        }
        assert(program_view(items.take(k + 1)) =~= program_view(items.take(k)).push((items[k].0@, items[k].1)));
        assert(chain_nodes(chain) =~= before.push((items[k].0@, items[k].1)));
    }
    assert(items.take(items.len() as int) =~= items);
    Expression { chain }
}

} // verus!
