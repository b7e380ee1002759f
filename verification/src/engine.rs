use vstd::prelude::*;

use crate::arena::ArenaLifeTime;
use crate::arena::ArenaRef;

verus! {

/// Bit pattern of the binary64 value zero. A node's gradient starts here and
/// is reset here by explicit zeroing.
pub const ZERO_BITS: u64 = 0;

/// Bit pattern of the binary64 value one, the seed a backward run plants at
/// its root (the derivative of the root with respect to itself).
pub const ONE_BITS: u64 = 0x3FF0_0000_0000_0000;

/// Bit pattern of the binary64 value minus one, the constant factor through
/// which negation is defined as a multiplication.
pub const MINUS_ONE_BITS: u64 = 0xBFF0_0000_0000_0000;

/// Sign bit of a binary64 value.
pub const F64_SIGN_MASK: u64 = 0x8000_0000_0000_0000;

/// Exponent field of a binary64 value.
pub const F64_EXP_MASK: u64 = 0x7FF0_0000_0000_0000;

/// Fraction field of a binary64 value.
pub const F64_FRAC_MASK: u64 = 0x000F_FFFF_FFFF_FFFF;

/// True iff `b` is the bit pattern of a binary64 not-a-number: exponent all
/// ones, fraction not zero.
pub open spec fn f64_bits_nan(b: u64) -> bool {
    b & F64_EXP_MASK == F64_EXP_MASK && b & F64_FRAC_MASK != 0
}

/// True iff `b` is the bit pattern of a binary64 value strictly below zero:
/// sign bit set, not a not-a-number, and not the negative zero (which
/// compares equal to zero).
pub open spec fn f64_bits_negative(b: u64) -> bool {
    b & F64_SIGN_MASK != 0 && !f64_bits_nan(b) && b != F64_SIGN_MASK
}

/// True iff `b` is the bit pattern of a binary64 value strictly above zero:
/// sign bit clear, not a not-a-number, and not the positive zero.
pub open spec fn f64_bits_positive(b: u64) -> bool {
    b & F64_SIGN_MASK == 0 && !f64_bits_nan(b) && b != 0
}

/// The forward value of the rectified linear unit, on bit patterns: zero for
/// an operand strictly below zero, the operand itself otherwise (so negative
/// zero and not-a-numbers pass through, as they do under `max(0, x)` written
/// as a comparison against zero).
pub open spec fn relu_bits(b: u64) -> u64 {
    if f64_bits_negative(b) {
        ZERO_BITS
    } else {
        b
    }
}

/// A non-owning handle to exactly one node of one graph: the index at which
/// the node was allocated. Two handles are equal iff they reference the
/// identical node (identity, not value, equality), and they hash on that same
/// identity, so numerically equal nodes allocated separately stay distinct.
#[derive(Clone, Copy, PartialEq, Eq, Structural, Hash, Debug)]
pub struct Value {
    pub ix: usize,
}

/// The operation that produced a node, together with the operand handles the
/// node's backward rule reads. This tagged form replaces a captured closure:
/// the gradient rule is dispatched on the tag. `Tanh` also carries the
/// forward value computed at construction time, because its rule uses that
/// captured value rather than a later read of the node.
#[derive(Clone, Copy, PartialEq, Eq, Structural, Debug)]
pub enum Op {
    /// `a + b`; contributes the output gradient to each operand.
    Add(Value, Value),
    /// `a * b`; contributes the other operand's value times the output
    /// gradient to each operand.
    Mul(Value, Value),
    /// `a` raised to an integer power `n`; contributes
    /// `n * a^(n-1)` times the output gradient.
    PowI(Value, i32),
    /// `a` raised to a real power whose bit pattern is carried; contributes
    /// `p * a^(p-1)` times the output gradient.
    PowF(Value, u64),
    /// `max(0, a)`; passes the output gradient through iff the output was
    /// strictly positive.
    Relu(Value),
    /// Hyperbolic tangent of `a`, with the forward value `t` captured at
    /// construction; contributes `(1 - t^2)` times the output gradient.
    Tanh(Value, u64),
    /// Natural exponential of `a`; contributes the output's own value times
    /// the output gradient.
    Exp(Value),
}

/// One node of the graph: a scalar (as binary64 bits), its accumulated
/// gradient (same representation), and its provenance. A leaf has no
/// operation. Only `data` and `grad` ever change after creation.
#[derive(Clone, Copy, PartialEq, Eq, Structural, Debug)]
pub struct ValueData {
    /// Current scalar value, as binary64 bits.
    pub data: u64,
    /// Accumulated partial derivative of the most recent backward root with
    /// respect to this node, as binary64 bits.
    pub grad: u64,
    /// The operation that produced this node; absent for a leaf.
    pub op: Option<Op>,
}

/// The operand handles of an operation, in rule order and with multiplicity:
/// `x * x` lists its operand twice, because the local gradient rule accounts
/// for each occurrence.
pub open spec fn operands(op: Op) -> Seq<Value> {
    match op {
        Op::Add(a, b) => seq![a, b],
        Op::Mul(a, b) => seq![a, b],
        Op::PowI(a, _) => seq![a],
        Op::PowF(a, _) => seq![a],
        Op::Relu(a) => seq![a],
        Op::Tanh(a, _) => seq![a],
        Op::Exp(a) => seq![a],
    }
}

/// The set of child handles of a node, as a sequence without duplicates:
/// duplicate operands collapse to one entry, because the set is keyed by node
/// identity.
pub open spec fn prev_spec(op: Option<Op>) -> Seq<Value> {
    match op {
        Option::None => seq![],
        Option::Some(o) => if operands(o).len() == 2 && operands(o)[0] == operands(o)[1] {
            seq![operands(o)[0]]
        } else {
            operands(o)
        },
    }
}

/// Well-formedness of one node within a graph: every operand was allocated
/// strictly before the node itself. New nodes only ever point at existing
/// ones, so following child edges always descends and the graph is a DAG by
/// construction.
pub open spec fn node_wf(g: Seq<ValueData>, i: int) -> bool {
    forall|k: int|
        0 <= k < operands_of(g, i).len() ==> (#[trigger] operands_of(g, i)[k]).ix < i
}

/// The operand handles behind an optional operation tag; empty for a leaf.
pub open spec fn node_operands(op: Option<Op>) -> Seq<Value> {
    match op {
        Option::None => seq![],
        Option::Some(o) => operands(o),
    }
}

/// The operand handles of the node at position `i` of the graph; empty for a
/// leaf.
pub open spec fn operands_of(g: Seq<ValueData>, i: int) -> Seq<Value> {
    node_operands(g[i].op)
}

/// Well-formedness of a whole graph.
pub open spec fn graph_wf(g: Seq<ValueData>) -> bool {
    forall|i: int| 0 <= i < g.len() ==> #[trigger] node_wf(g, i)
}

/// True iff `v` is a handle into the graph.
pub open spec fn valid(g: Seq<ValueData>, v: Value) -> bool {
    v.ix < g.len()
}

/// A handle factory bound to one arena: the user-facing face of the engine.
/// It owns the arena's lifetime guard, so every graph operation threads
/// through it, and the graph it builds satisfies `graph_wf` at all times.
pub struct ValueFactory {
    pub(crate) guard: ArenaLifeTime<ValueData>,
    pub(crate) token: ArenaRef,
}

impl View for ValueFactory {
    type V = Seq<ValueData>;

    closed spec fn view(&self) -> Seq<ValueData> {
        self.guard@
    }
}

impl ValueFactory {
    /// The graph invariant every public operation preserves.
    pub open spec fn wf(&self) -> bool {
        graph_wf(self@)
    }

    /// Binds a factory to the arena behind `guard`, with `token` the arena's
    /// allocation token.
    pub fn new(guard: ArenaLifeTime<ValueData>, token: ArenaRef) -> (vf: ValueFactory)
        requires
            graph_wf(guard@),
        ensures
            vf@ == guard@,
            vf.wf(),
    {
        ValueFactory { guard, token }
    }

    /// The number of nodes allocated so far.
    pub fn len(&self) -> (n: usize)
        ensures
            n == self@.len(),
    {
        self.guard.len()
    }

    /// Appends a node and returns its handle. Private: the public
    /// constructors say which node.
    fn alloc_node(&mut self, nd: ValueData) -> (v: Value)
        ensures
            final(self)@ == old(self)@.push(nd),
            v.ix == old(self)@.len(),
    {
        let ix = self.token.alloc_with_mut_borrow(&mut self.guard, nd);
        Value { ix }
    }

    /// Creates a leaf value: a node with the given scalar, gradient zero, no
    /// children and no operation.
    pub fn value(&mut self, data: u64) -> (v: Value)
        requires
            old(self).wf(),
        ensures
            final(self).wf(),
            final(self)@ == old(self)@.push(ValueData { data, grad: ZERO_BITS, op: Option::None }),
            v.ix == old(self)@.len(),
    {
        let v = self.alloc_node(ValueData { data, grad: ZERO_BITS, op: Option::None });
        proof {
            lemma_push_preserves_wf(old(self)@, ValueData { data, grad: ZERO_BITS, op: Option::None });
        }
        v
    }

    /// Reads a node's current scalar value, as binary64 bits.
    pub fn get_data(&self, v: Value) -> (r: u64)
        requires
            valid(self@, v),
        ensures
            r == self@[v.ix as int].data,
    {
        self.guard.get(v.ix).data
    }

    /// Reads a node's accumulated gradient, as binary64 bits.
    pub fn get_grad(&self, v: Value) -> (r: u64)
        requires
            valid(self@, v),
        ensures
            r == self@[v.ix as int].grad,
    {
        self.guard.get(v.ix).grad
    }

    /// Reads the operation that produced a node; a leaf has none.
    pub fn op(&self, v: Value) -> (r: Option<Op>)
        requires
            valid(self@, v),
        ensures
            r == self@[v.ix as int].op,
    {
        self.guard.get(v.ix).op
    }

    /// The set of child handles of a node, one entry per distinct operand.
    pub fn prev(&self, v: Value) -> (r: Vec<Value>)
        requires
            valid(self@, v),
        ensures
            r@ == prev_spec(self@[v.ix as int].op),
    {
        let mut r: Vec<Value> = Vec::new();
        match self.guard.get(v.ix).op {
            Option::None => {},
            Option::Some(o) => {
                match o {
                    Op::Add(a, b) | Op::Mul(a, b) => {
                        r.push(a);
                        if a.ix != b.ix {
                            r.push(b);
                        }
                    },
                    Op::PowI(a, _) => { r.push(a); },
                    Op::PowF(a, _) => { r.push(a); },
                    Op::Relu(a) => { r.push(a); },
                    Op::Tanh(a, _) => { r.push(a); },
                    Op::Exp(a) => { r.push(a); },
                }
            },
        }
        proof {
            assert(r@ =~= prev_spec(self@[v.ix as int].op));
        }
        r
    }

    /// Overwrites a node's scalar value (direct external assignment, e.g. a
    /// gradient-descent weight update). Structure and gradients are
    /// untouched.
    pub fn set_data(&mut self, v: Value, data: u64)
        requires
            old(self).wf(),
            valid(old(self)@, v),
        ensures
            final(self).wf(),
            final(self)@ == old(self)@.update(
                v.ix as int,
                (ValueData { data, ..old(self)@[v.ix as int] }),
            ),
    {
        let mut nd = *self.guard.get(v.ix);
        nd.data = data;
        self.guard.set(v.ix, nd);
        proof {
            lemma_update_same_op_preserves_wf(old(self)@, v.ix as int, nd);
        }
    }

    /// Overwrites a node's accumulated gradient (explicit zeroing, or an
    /// external reset). Structure and values are untouched.
    pub fn set_grad(&mut self, v: Value, grad: u64)
        requires
            old(self).wf(),
            valid(old(self)@, v),
        ensures
            final(self).wf(),
            final(self)@ == old(self)@.update(
                v.ix as int,
                (ValueData { grad, ..old(self)@[v.ix as int] }),
            ),
    {
        let mut nd = *self.guard.get(v.ix);
        nd.grad = grad;
        self.guard.set(v.ix, nd);
        proof {
            lemma_update_same_op_preserves_wf(old(self)@, v.ix as int, nd);
        }
    }

    /// Creates a derived node: operand handles, operation tag and the
    /// computed forward value, with gradient zero. Private: the public
    /// constructors fix the tag.
    fn derived(&mut self, op: Op, data: u64) -> (v: Value)
        requires
            old(self).wf(),
            forall|k: int|
                0 <= k < operands(op).len() ==> (#[trigger] operands(op)[k]).ix < old(
                    self,
                )@.len(),
        ensures
            final(self).wf(),
            final(self)@ == old(self)@.push(
                (ValueData { data, grad: ZERO_BITS, op: Option::Some(op) }),
            ),
            v.ix == old(self)@.len(),
    {
        let nd = ValueData { data, grad: ZERO_BITS, op: Option::Some(op) };
        let v = self.alloc_node(nd);
        proof {
            lemma_push_preserves_wf(old(self)@, nd);
        }
        v
    }

    /// `a + b`: a new node whose value is the sum the caller computed from
    /// the operands' values, with children `{a, b}`.
    pub fn add(&mut self, a: Value, b: Value, data: u64) -> (v: Value)
        requires
            old(self).wf(),
            valid(old(self)@, a),
            valid(old(self)@, b),
        ensures
            final(self).wf(),
            final(self)@ == old(self)@.push(
                (ValueData { data, grad: ZERO_BITS, op: Option::Some(Op::Add(a, b)) }),
            ),
            v.ix == old(self)@.len(),
    {
        self.derived(Op::Add(a, b), data)
    }

    /// `a * b`: a new node whose value is the product the caller computed
    /// from the operands' values, with children `{a, b}`.
    pub fn mul(&mut self, a: Value, b: Value, data: u64) -> (v: Value)
        requires
            old(self).wf(),
            valid(old(self)@, a),
            valid(old(self)@, b),
        ensures
            final(self).wf(),
            final(self)@ == old(self)@.push(
                (ValueData { data, grad: ZERO_BITS, op: Option::Some(Op::Mul(a, b)) }),
            ),
            v.ix == old(self)@.len(),
    {
        self.derived(Op::Mul(a, b), data)
    }

    /// `a` raised to the integer power `n` (negative exponents included),
    /// whose value the caller computed. The exponent must leave `n - 1`
    /// representable, because the backward rule raises to that power.
    pub fn powi(&mut self, a: Value, n: i32, data: u64) -> (v: Value)
        requires
            old(self).wf(),
            valid(old(self)@, a),
            n > i32::MIN,
        ensures
            final(self).wf(),
            final(self)@ == old(self)@.push(
                (ValueData { data, grad: ZERO_BITS, op: Option::Some(Op::PowI(a, n)) }),
            ),
            v.ix == old(self)@.len(),
    {
        self.derived(Op::PowI(a, n), data)
    }

    /// `a` raised to the real power whose bit pattern is `p`, with the value
    /// the caller computed.
    pub fn powf(&mut self, a: Value, p: u64, data: u64) -> (v: Value)
        requires
            old(self).wf(),
            valid(old(self)@, a),
        ensures
            final(self).wf(),
            final(self)@ == old(self)@.push(
                (ValueData { data, grad: ZERO_BITS, op: Option::Some(Op::PowF(a, p)) }),
            ),
            v.ix == old(self)@.len(),
    {
        self.derived(Op::PowF(a, p), data)
    }

    /// The rectified linear unit of `a`. Its forward value is computed here,
    /// on the bit pattern: zero for an operand strictly below zero, the
    /// operand itself otherwise.
    pub fn relu(&mut self, a: Value) -> (v: Value)
        requires
            old(self).wf(),
            valid(old(self)@, a),
        ensures
            final(self).wf(),
            final(self)@ == old(self)@.push(
                (ValueData {
                    data: relu_bits(old(self)@[a.ix as int].data),
                    grad: ZERO_BITS,
                    op: Option::Some(Op::Relu(a)),
                }),
            ),
            v.ix == old(self)@.len(),
    {
        let data = relu_forward(self.get_data(a));
        self.derived(Op::Relu(a), data)
    }

    /// The hyperbolic tangent of `a`, whose forward value `t` the caller
    /// computed; `t` is also captured in the operation tag, because the
    /// backward rule uses the value computed at construction time.
    pub fn tanh(&mut self, a: Value, t: u64) -> (v: Value)
        requires
            old(self).wf(),
            valid(old(self)@, a),
        ensures
            final(self).wf(),
            final(self)@ == old(self)@.push(
                (ValueData { data: t, grad: ZERO_BITS, op: Option::Some(Op::Tanh(a, t)) }),
            ),
            v.ix == old(self)@.len(),
    {
        self.derived(Op::Tanh(a, t), t)
    }

    /// The natural exponential of `a`, whose forward value the caller
    /// computed.
    pub fn exp(&mut self, a: Value, data: u64) -> (v: Value)
        requires
            old(self).wf(),
            valid(old(self)@, a),
        ensures
            final(self).wf(),
            final(self)@ == old(self)@.push(
                (ValueData { data, grad: ZERO_BITS, op: Option::Some(Op::Exp(a)) }),
            ),
            v.ix == old(self)@.len(),
    {
        self.derived(Op::Exp(a), data)
    }

    /// `-a`, defined as `a * (-1)`: lifts the constant minus one into a fresh
    /// leaf and multiplies, so negation inherits the multiplication rule.
    /// `data` is the product the caller computed.
    pub fn neg(&mut self, a: Value, data: u64) -> (v: Value)
        requires
            old(self).wf(),
            valid(old(self)@, a),
        ensures
            final(self).wf(),
            final(self)@ == old(self)@.push(
                (ValueData { data: MINUS_ONE_BITS, grad: ZERO_BITS, op: Option::None }),
            ).push(
                (ValueData {
                    data,
                    grad: ZERO_BITS,
                    op: Option::Some(Op::Mul(a, Value { ix: old(self)@.len() as usize })),
                }),
            ),
            v.ix == old(self)@.len() + 1,
    {
        let m = self.value(MINUS_ONE_BITS);
        self.mul(a, m, data)
    }

    /// `a - b`, defined as `a + (-b)`: negates `b` (two nodes) and adds.
    /// `neg_data` is the caller-computed value of `-b`, `data` the sum.
    pub fn sub(&mut self, a: Value, b: Value, neg_data: u64, data: u64) -> (v: Value)
        requires
            old(self).wf(),
            valid(old(self)@, a),
            valid(old(self)@, b),
        ensures
            final(self).wf(),
            final(self)@ == old(self)@.push(
                (ValueData { data: MINUS_ONE_BITS, grad: ZERO_BITS, op: Option::None }),
            ).push(
                (ValueData {
                    data: neg_data,
                    grad: ZERO_BITS,
                    op: Option::Some(Op::Mul(b, Value { ix: old(self)@.len() as usize })),
                }),
            ).push(
                (ValueData {
                    data,
                    grad: ZERO_BITS,
                    op: Option::Some(
                        Op::Add(a, Value { ix: (old(self)@.len() + 1) as usize }),
                    ),
                }),
            ),
            v.ix == old(self)@.len() + 2,
    {
        let n = self.neg(b, neg_data);
        self.add(a, n, data)
    }

    /// `a / b`, defined as `a * b^-1`: raises `b` to the power minus one and
    /// multiplies. `inv_data` is the caller-computed value of `b^-1`, `data`
    /// the product.
    pub fn div(&mut self, a: Value, b: Value, inv_data: u64, data: u64) -> (v: Value)
        requires
            old(self).wf(),
            valid(old(self)@, a),
            valid(old(self)@, b),
        ensures
            final(self).wf(),
            final(self)@ == old(self)@.push(
                (ValueData { data: inv_data, grad: ZERO_BITS, op: Option::Some(Op::PowI(b, -1i32)) }),
            ).push(
                (ValueData {
                    data,
                    grad: ZERO_BITS,
                    op: Option::Some(Op::Mul(a, Value { ix: old(self)@.len() as usize })),
                }),
            ),
            v.ix == old(self)@.len() + 1,
    {
        let inv = self.powi(b, -1, inv_data);
        self.mul(a, inv, data)
    }
}

/// Computes `relu_bits` on a scalar's bit pattern.
fn relu_forward(b: u64) -> (r: u64)
    ensures
        r == relu_bits(b),
{
    if b & F64_SIGN_MASK != 0 && !(b & F64_EXP_MASK == F64_EXP_MASK && b & F64_FRAC_MASK != 0)
        && b != F64_SIGN_MASK {
        ZERO_BITS
    } else {
        b
    }
}

/// Appending a node whose operands all lie in the old graph preserves
/// well-formedness.
pub proof fn lemma_push_preserves_wf(g: Seq<ValueData>, nd: ValueData)
    requires
        graph_wf(g),
        forall|k: int|
            0 <= k < node_operands(nd.op).len() ==> (#[trigger] node_operands(nd.op)[k]).ix
                < g.len(),
    ensures
        graph_wf(g.push(nd)),
{
    let g2 = g.push(nd);
    assert forall|i: int| 0 <= i < g2.len() implies #[trigger] node_wf(g2, i) by {
        if i < g.len() {
            assert(node_wf(g, i));
            assert(operands_of(g2, i) == operands_of(g, i));
        } else {
            assert(g2[i] == nd);
        }
    }
}

/// Replacing a node with one that has the same operation preserves
/// well-formedness: only values and gradients may have changed.
pub proof fn lemma_update_same_op_preserves_wf(g: Seq<ValueData>, i: int, nd: ValueData)
    requires
        graph_wf(g),
        0 <= i < g.len(),
        nd.op == g[i].op,
    ensures
        graph_wf(g.update(i, nd)),
{
    let g2 = g.update(i, nd);
    assert forall|j: int| 0 <= j < g2.len() implies #[trigger] node_wf(g2, j) by {
        assert(node_wf(g, j));
        assert(operands_of(g2, j) == operands_of(g, j));
    }
}

} // verus!
