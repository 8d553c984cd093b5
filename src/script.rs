//! Running a generated chain against the script builder: the dispatch shim
//! for escaped values, and the evaluation of a whole expression.
use crate::generate::{calls_view, shim_count, Base, Call, Chain, Expression};
use crate::parse::Node;
use crate::token::Span;
use bitcoin::blockdata::opcodes::All;
use bitcoin::blockdata::script::{Builder, Script};
use bitcoin::util::key::PublicKey;
use vstd::prelude::*;

verus! {

#[verifier::external_type_specification]
#[verifier::external_body]
pub struct ExBuilder(Builder);

#[verifier::external_type_specification]
#[verifier::external_body]
pub struct ExScript(Script);

#[verifier::external_type_specification]
#[verifier::external_body]
pub struct ExPublicKey(PublicKey);

/// The bytes that a builder holds so far.
pub uninterp spec fn builder_bytes(b: Builder) -> Seq<u8>;

/// The bytes of a finished script.
pub uninterp spec fn script_bytes(s: Script) -> Seq<u8>;

/// The largest data push plus one: a length must fit in four bytes.
pub open spec fn push_limit() -> nat {
    0x1_0000_0000
}

/// A push of `data`: the shortest length prefix, then the bytes.
pub open spec fn data_push(data: Seq<u8>) -> Seq<u8> {
    let n = data.len();
    let prefix = if n < 0x4c {
        seq![n as u8]
    } else if n < 0x100 {
        seq![0x4cu8, n as u8]
    } else if n < 0x10000 {
        seq![0x4du8, (n % 0x100) as u8, (n / 0x100) as u8]
    } else {
        seq![
            0x4eu8,
            (n % 0x100) as u8,
            ((n / 0x100) % 0x100) as u8,
            ((n / 0x10000) % 0x100) as u8,
            (n / 0x1000000) as u8,
        ]
    };
    prefix + data
}

/// The little-endian bytes of a positive magnitude, without leading zeros.
pub open spec fn magnitude_bytes(m: nat) -> Seq<u8>
    decreases m,
{
    if m <= 0xff {
        seq![m as u8]
    } else {
        seq![(m % 0x100) as u8] + magnitude_bytes(m / 0x100)
    }
}

/// The minimal sign-magnitude encoding of an integer in a script.
pub open spec fn scriptint(n: int) -> Seq<u8> {
    if n == 0 {
        Seq::empty()
    } else {
        let m = if n < 0 { -n } else { n };
        let b = magnitude_bytes(m as nat);
        let top = b.last();
        if top >= 0x80 {
            b.push(if n < 0 { 0x80u8 } else { 0u8 })
        } else {
            b.drop_last().push(if n < 0 { (top + 0x80) as u8 } else { top })
        }
    }
}

/// A push of an integer: a dedicated opcode for -1 and 0 to 16, else the
/// encoded number as data.
pub open spec fn int_push(n: i64) -> Seq<u8> {
    if n == -1 || (1 <= n && n <= 16) {
        seq![(n + 0x50) as u8]
    } else if n == 0 {
        seq![0u8]
    } else {
        data_push(scriptint(n as int))
    }
}

/// Relies on `Builder::new`: the builder starts empty.
#[verifier::external_body]
fn builder_new() -> (r: Builder)
    ensures
        builder_bytes(r) == Seq::<u8>::empty(),
{
    Builder::new()
}

/// Relies on `Builder::push_opcode` and `All::from(u8)`: appends the byte.
#[verifier::external_body]
fn builder_push_opcode(b: Builder, code: u8) -> (r: Builder)
    ensures
        builder_bytes(r) == builder_bytes(b).push(code),
{
    b.push_opcode(All::from(code))
}

/// Relies on `Builder::push_int`: a small-integer opcode where one exists,
/// else the minimal encoding as data. It negates its argument, so the most
/// negative value is left out.
#[verifier::external_body]
fn builder_push_int(b: Builder, n: i64) -> (r: Builder)
    requires
        n != i64::MIN,
    ensures
        builder_bytes(r) == builder_bytes(b) + int_push(n),
{
    b.push_int(n)
}

/// Relies on `Builder::push_slice`: the length prefix, then the bytes; it
/// panics on four gigabytes or more.
#[verifier::external_body]
fn builder_push_slice(b: Builder, data: &Vec<u8>) -> (r: Builder)
    requires
        data@.len() < push_limit(),
    ensures
        builder_bytes(r) == builder_bytes(b) + data_push(data@),
{
    b.push_slice(data.as_slice())
}

/// `after` is `before` with a serialized public key pushed.
pub open spec fn key_pushed(before: Seq<u8>, after: Seq<u8>) -> bool {
    exists|d: Seq<u8>| (d.len() == 33 || d.len() == 65) && after == before + data_push(d)
}

/// Relies on `Builder::push_key`: pushes the key's 33-byte compressed or
/// 65-byte uncompressed serialization as data.
#[verifier::external_body]
fn builder_push_key(b: Builder, key: &PublicKey) -> (r: Builder)
    ensures
        key_pushed(builder_bytes(b), builder_bytes(r)),
{
    b.push_key(key)
}

/// Relies on `Builder::into_script`: the script holds the builder's bytes.
#[verifier::external_body]
fn builder_into_script(b: Builder) -> (r: Script)
    ensures
        script_bytes(r) == builder_bytes(b),
{
    b.into_script()
}

/// A value that an escaped expression may evaluate to.
#[derive(Debug)]
pub enum Pushable {
    /// A byte string, pushed as data.
    Bytes(Vec<u8>),
    /// An integer, pushed in its minimal encoding.
    Int(i64),
    /// A public key, pushed as its serialization.
    Key(PublicKey),
}

impl Pushable {
    /// Whether the builder takes this value without panicking.
    pub open spec fn can_push(&self) -> bool {
        match self {
            Pushable::Bytes(b) => b@.len() < push_limit(),
            Pushable::Int(n) => *n != i64::MIN,
            Pushable::Key(_) => true,
        }
    }
}

impl From<i64> for Pushable {
    fn from(n: i64) -> (r: Pushable) {
        Pushable::Int(n)
    }
}

impl vstd::std_specs::convert::FromSpecImpl<i64> for Pushable {
    open spec fn obeys_from_spec() -> bool {
        true
    }

    open spec fn from_spec(n: i64) -> Pushable {
        Pushable::Int(n)
    }
}

impl From<Vec<u8>> for Pushable {
    fn from(b: Vec<u8>) -> (r: Pushable) {
        Pushable::Bytes(b)
    }
}

impl vstd::std_specs::convert::FromSpecImpl<Vec<u8>> for Pushable {
    open spec fn obeys_from_spec() -> bool {
        true
    }

    open spec fn from_spec(b: Vec<u8>) -> Pushable {
        Pushable::Bytes(b)
    }
}

impl From<PublicKey> for Pushable {
    fn from(k: PublicKey) -> (r: Pushable) {
        Pushable::Key(k)
    }
}

impl vstd::std_specs::convert::FromSpecImpl<PublicKey> for Pushable {
    open spec fn obeys_from_spec() -> bool {
        true
    }

    open spec fn from_spec(k: PublicKey) -> Pushable {
        Pushable::Key(k)
    }
}

/// `after` is `before` with `v` pushed.
pub open spec fn value_pushed(before: Seq<u8>, v: Pushable, after: Seq<u8>) -> bool {
    match v {
        Pushable::Bytes(b) => after == before + data_push(b@),
        Pushable::Int(n) => after == before + int_push(n),
        Pushable::Key(_) => key_pushed(before, after),
    }
}

/// The dispatch shim: pushes an escaped value the way its kind calls for.
pub fn push_value(builder: Builder, value: &Pushable) -> (r: Builder)
    requires
        value.can_push(),
    ensures
        value_pushed(builder_bytes(builder), *value, builder_bytes(r)),
{
    match value {
        Pushable::Bytes(b) => builder_push_slice(builder, b),
        Pushable::Int(n) => builder_push_int(builder, *n),
        Pushable::Key(k) => builder_push_key(builder, k),
    }
}

/// The bytes that pushing one node appends.
pub open spec fn node_bytes(n: Node) -> Seq<u8> {
    match n {
        Node::Opcode(c) => seq![c],
        Node::Bytes(b) => data_push(b),
        Node::Int(v) => int_push(v),
        Node::Escape(_) => Seq::empty(),
    }
}

/// The bytes that a sequence of calls appends.
pub open spec fn calls_bytes(cs: Seq<(Node, Span)>) -> Seq<u8>
    decreases cs.len(),
{
    if cs.len() == 0 {
        Seq::empty()
    } else {
        calls_bytes(cs.drop_last()) + node_bytes(cs.last().0)
    }
}

/// Whether the builder takes every call of a chain, its inner chains included.
pub open spec fn chain_can_push(c: Chain) -> bool
    decreases c,
{
    &&& forall|i: int| 0 <= i < c.calls@.len() ==> #[trigger] node_can_push(c.calls@[i].0@)
    &&& match c.base {
        Base::New => true,
        Base::Shim(inner, _, _) => chain_can_push(*inner),
    }
}

/// Whether the builder takes a push of this node.
pub open spec fn node_can_push(n: Node) -> bool {
    match n {
        Node::Bytes(b) => b.len() < push_limit(),
        Node::Int(v) => v != i64::MIN,
        _ => true,
    }
}

/// `out` is what a chain builds, the value of its `k`-th shim being
/// `values[k]`.
pub open spec fn chain_builds(c: Chain, values: Seq<Pushable>, out: Seq<u8>) -> bool
    decreases c,
{
    match c.base {
        Base::New => out == calls_bytes(calls_view(c.calls@)),
        Base::Shim(inner, _, _) => exists|mid: Seq<u8>, shimmed: Seq<u8>|
            {
                &&& chain_builds(*inner, values, mid)
                &&& value_pushed(mid, values[shim_count(*inner) as int], shimmed)
                &&& out == shimmed + calls_bytes(calls_view(c.calls@))
            },
    }
}

/// Applies one call to the builder.
fn push_call(builder: Builder, call: &Call) -> (r: Builder)
    requires
        node_can_push(call@),
    ensures
        builder_bytes(r) == builder_bytes(builder) + node_bytes(call@),
{
    match call {
        Call::PushOpcode(op) => builder_push_opcode(builder, op.code),
        Call::PushBytes(b) => builder_push_slice(builder, b),
        Call::PushInt(n) => builder_push_int(builder, *n),
    }
}

/// Runs a chain, returning the builder and the number of escape values used.
fn run_chain(c: &Chain, values: &Vec<Pushable>) -> (r: (Builder, usize))
    requires
        shim_count(*c) <= values@.len(),
        chain_can_push(*c),
        forall|i: int| 0 <= i < values@.len() ==> (#[trigger] values@[i]).can_push(),
    ensures
        r.1 == shim_count(*c),
        chain_builds(*c, values@, builder_bytes(r.0)),
    decreases c,
{
    let (mut builder, used) = match &c.base {
        Base::New => (builder_new(), 0usize),
        Base::Shim(inner, _, _) => {
            let (b, used) = run_chain(inner, values);
            let total = values.len();
            assert(used < total);
            let b2 = push_value(b, &values[used]);
            (b2, used + 1)
        },
    };
    let ghost start = builder_bytes(builder);
    let mut i: usize = 0;
    while i < c.calls.len()
        invariant
            i <= c.calls@.len(),
            chain_can_push(*c),
            builder_bytes(builder) == start + calls_bytes(calls_view(c.calls@).take(i as int)),
        decreases c.calls@.len() - i,
    {
        assert(node_can_push(c.calls@[i as int].0@));
        builder = push_call(builder, &c.calls[i].0);
        proof {
            let cv = calls_view(c.calls@);
            assert(cv.take(i + 1).drop_last() =~= cv.take(i as int));
        }
        i = i + 1;
    }
    proof {
        let cv = calls_view(c.calls@);
        assert(cv.take(cv.len() as int) =~= cv);
        match &c.base {
            Base::New => {
                assert(start =~= Seq::<u8>::empty());
                assert(builder_bytes(builder) =~= calls_bytes(cv));
            },
            Base::Shim(inner, _, _) => {
                assert(builder_bytes(builder) == start + calls_bytes(cv));
            },
        }
    }
    (builder, used)
}

/// Runs a generated expression on the builder, the `k`-th escape taking the
/// value `values[k]`, and finalizes the script.
pub fn evaluate(expr: &Expression, values: &Vec<Pushable>) -> (r: Script)
    requires
        values@.len() == shim_count(expr.chain),
        chain_can_push(expr.chain),
        forall|i: int| 0 <= i < values@.len() ==> (#[trigger] values@[i]).can_push(),
    ensures
        chain_builds(expr.chain, values@, script_bytes(r)),
{
    let (builder, _) = run_chain(&expr.chain, values);
    builder_into_script(builder)
}

} // verus!
