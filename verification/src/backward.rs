use vstd::prelude::*;

use crate::engine::f64_bits_positive;
use crate::engine::graph_wf;
use crate::engine::node_wf;
use crate::engine::operands_of;
use crate::engine::prev_spec;
use crate::engine::valid;
use crate::engine::Op;
use crate::engine::Value;
use crate::engine::ValueData;
use crate::engine::ValueFactory;
use crate::engine::F64_EXP_MASK;
use crate::engine::F64_FRAC_MASK;
use crate::engine::F64_SIGN_MASK;
use crate::engine::ONE_BITS;

verus! {

/// The factor a gradient contribution multiplies the output gradient by:
/// the local partial derivative of one operation with respect to one operand,
/// written over binary64 bit patterns. Whoever applies a contribution
/// computes `coefficient * out.grad` in binary64 arithmetic and adds it to
/// the target's gradient.
#[derive(Clone, Copy, PartialEq, Eq, Structural, Debug)]
pub enum Coeff {
    /// The contribution is the output gradient itself.
    One,
    /// The contribution is the binary64 zero (still added, as the rectified
    /// linear rule prescribes on a non-positive output).
    Zero,
    /// The contribution is the carried value times the output gradient.
    Scale(u64),
    /// `n * base^(n-1)` times the output gradient, for the integer power
    /// rule; carries the base's value and the exponent `n`.
    PowDerivI(u64, i32),
    /// `p * base^(p-1)` times the output gradient, for the real power rule;
    /// carries the base's value and the exponent's bit pattern `p`.
    PowDerivF(u64, u64),
    /// `(1 - t^2)` times the output gradient, for the hyperbolic tangent
    /// rule; carries the forward value `t` captured at construction.
    OneMinusSq(u64),
}

/// One gradient update of a backward pass: add `coeff`, evaluated against the
/// current gradient of `out`, to the gradient of `target`. Applying a plan's
/// steps in order, each one reading the gradients as they then stand, is
/// exactly the chain-rule accumulation `child.grad += d(out)/d(child) *
/// out.grad` of the closure-based formulation.
#[derive(Clone, Copy, PartialEq, Eq, Structural, Debug)]
pub struct GradStep {
    /// The node whose gradient receives the contribution.
    pub target: Value,
    /// The node whose current gradient the contribution is proportional to.
    pub out: Value,
    /// The local partial derivative.
    pub coeff: Coeff,
}

/// True iff the node at position `x` is reachable from the node at position
/// `r` by following operand edges (every node reaches itself). Operand edges
/// always descend to strictly smaller positions in a well-formed graph, which
/// bounds the recursion.
pub open spec fn reaches(g: Seq<ValueData>, r: int, x: int) -> bool
    decreases r,
{
    r == x || exists|k: int|
        0 <= k < operands_of(g, r).len() && 0 <= (#[trigger] operands_of(g, r)[k]).ix < r
            && reaches(g, operands_of(g, r)[k].ix as int, x)
}

/// The gradient contributions of the node at position `i`: one step per
/// operand occurrence, dispatched on the operation tag. A leaf contributes
/// nothing. Values of other nodes read here (the other factor of a product,
/// a power's base, an exponential's output) are the ones current when the
/// plan is drawn up; a backward pass never changes any `data`, so they equal
/// the values a closure would read when it fires.
pub open spec fn local_steps(g: Seq<ValueData>, i: int) -> Seq<GradStep> {
    let out = Value { ix: i as usize };
    match g[i].op {
        Option::None => seq![],
        Option::Some(Op::Add(a, b)) => seq![
            GradStep { target: a, out, coeff: Coeff::One },
            GradStep { target: b, out, coeff: Coeff::One },
        ],
        Option::Some(Op::Mul(a, b)) => seq![
            GradStep { target: a, out, coeff: Coeff::Scale(g[b.ix as int].data) },
            GradStep { target: b, out, coeff: Coeff::Scale(g[a.ix as int].data) },
        ],
        Option::Some(Op::PowI(a, n)) => seq![
            GradStep { target: a, out, coeff: Coeff::PowDerivI(g[a.ix as int].data, n) },
        ],
        Option::Some(Op::PowF(a, p)) => seq![
            GradStep { target: a, out, coeff: Coeff::PowDerivF(g[a.ix as int].data, p) },
        ],
        Option::Some(Op::Relu(a)) => seq![
            GradStep {
                target: a,
                out,
                coeff: if f64_bits_positive(g[i].data) {
                    Coeff::One
                } else {
                    Coeff::Zero
                },
            },
        ],
        Option::Some(Op::Tanh(a, t)) => seq![
            GradStep { target: a, out, coeff: Coeff::OneMinusSq(t) },
        ],
        Option::Some(Op::Exp(a)) => seq![
            GradStep { target: a, out, coeff: Coeff::Scale(g[i].data) },
        ],
    }
}

/// The contributions position `i` adds to a backward pass rooted at `r`:
/// its local steps if it is reachable, nothing otherwise (an unreachable
/// node's rule never fires and its gradient is left untouched).
pub open spec fn fired_steps(g: Seq<ValueData>, r: int, i: int) -> Seq<GradStep> {
    if reaches(g, r, i) {
        local_steps(g, i)
    } else {
        Seq::empty()
    }
}

/// The gradient plan for positions `r` down to `i`, in that order: every
/// position is visited in descending allocation order, which walks a
/// topological order of the graph in reverse, so a node's rule fires only
/// after every parent routing gradient through it has fired.
pub open spec fn plan_down(g: Seq<ValueData>, r: int, i: int) -> Seq<GradStep>
    decreases r - i + 1,
{
    if i > r || i < 0 {
        Seq::empty()
    } else {
        plan_down(g, r, i + 1) + fired_steps(g, r, i)
    }
}

/// The full gradient plan of a backward pass rooted at position `r`.
pub open spec fn plan_spec(g: Seq<ValueData>, r: int) -> Seq<GradStep> {
    plan_down(g, r, 0)
}

/// The reachable positions below `n`, in ascending allocation order, as
/// handles. Ascending allocation order is a topological order: every operand
/// of a node was allocated before the node, so children come first.
pub open spec fn topo_upto(g: Seq<ValueData>, r: int, n: int) -> Seq<Value>
    decreases n,
{
    if n <= 0 {
        Seq::empty()
    } else if reaches(g, r, n - 1) {
        topo_upto(g, r, n - 1).push(Value { ix: (n - 1) as usize })
    } else {
        topo_upto(g, r, n - 1)
    }
}

/// The topological order of the nodes reachable from position `r`: children
/// before parents, the root last.
pub open spec fn topo_spec(g: Seq<ValueData>, r: int) -> Seq<Value> {
    topo_upto(g, r, r + 1)
}

/// The child-to-parent edges of the node at position `i`, one per distinct
/// child.
pub open spec fn local_edges(g: Seq<ValueData>, i: int) -> Seq<(Value, Value)> {
    let out = Value { ix: i as usize };
    let ps = prev_spec(g[i].op);
    if ps.len() == 2 {
        seq![(ps[0], out), (ps[1], out)]
    } else if ps.len() == 1 {
        seq![(ps[0], out)]
    } else {
        seq![]
    }
}

/// The child-to-parent edges among reachable nodes below `n`, grouped by
/// parent in ascending allocation order.
pub open spec fn edges_upto(g: Seq<ValueData>, r: int, n: int) -> Seq<(Value, Value)>
    decreases n,
{
    if n <= 0 {
        Seq::empty()
    } else if reaches(g, r, n - 1) {
        edges_upto(g, r, n - 1) + local_edges(g, n - 1)
    } else {
        edges_upto(g, r, n - 1)
    }
}

/// All child-to-parent edges of the graph reachable from position `r`.
pub open spec fn edges_spec(g: Seq<ValueData>, r: int) -> Seq<(Value, Value)> {
    edges_upto(g, r, r + 1)
}

/// True iff every operand of the node at position `p` is marked in `m`.
pub open spec fn children_marked(g: Seq<ValueData>, m: Seq<bool>, p: int) -> bool {
    forall|k: int|
        0 <= k < operands_of(g, p).len() ==> m[(#[trigger] operands_of(g, p)[k]).ix as int]
}

/// Reachability steps through an operand edge: whatever reaches a node also
/// reaches each of the node's operands.
pub proof fn lemma_reaches_operand(g: Seq<ValueData>, r: int, p: int, k: int)
    requires
        graph_wf(g),
        0 <= r < g.len(),
        0 <= p < g.len(),
        reaches(g, r, p),
        0 <= k < operands_of(g, p).len(),
    ensures
        reaches(g, r, operands_of(g, p)[k].ix as int),
    decreases r,
{
    let c = operands_of(g, p)[k].ix as int;
    if r == p {
        assert(node_wf(g, p));
        assert(0 <= operands_of(g, r)[k].ix < r);
        assert(reaches(g, c, c));
    } else {
        let k0 = choose|k0: int|
            0 <= k0 < operands_of(g, r).len() && 0 <= (#[trigger] operands_of(g, r)[k0]).ix < r
                && reaches(g, operands_of(g, r)[k0].ix as int, p);
        let c0 = operands_of(g, r)[k0].ix as int;
        lemma_reaches_operand(g, c0, p, k);
        assert(0 <= operands_of(g, r)[k0].ix < r && reaches(g, c0, c));
    }
}

/// A reachable position never exceeds the root's position.
pub proof fn lemma_reaches_bounded(g: Seq<ValueData>, r: int, x: int)
    requires
        reaches(g, r, x),
    ensures
        x <= r,
    decreases r,
{
    if r != x {
        let k0 = choose|k0: int|
            0 <= k0 < operands_of(g, r).len() && 0 <= (#[trigger] operands_of(g, r)[k0]).ix < r
                && reaches(g, operands_of(g, r)[k0].ix as int, x);
        lemma_reaches_bounded(g, operands_of(g, r)[k0].ix as int, x);
    }
}

/// In a mark table that contains the root and is closed under operand edges,
/// every node reachable from the root is marked.
pub proof fn lemma_closure_complete(g: Seq<ValueData>, m: Seq<bool>, r: int, j: int)
    requires
        graph_wf(g),
        0 <= r < g.len(),
        r < m.len(),
        forall|p: int| 0 <= p <= r && m[p] ==> #[trigger] children_marked(g, m, p),
        m[r],
        reaches(g, r, j),
        0 <= j,
    ensures
        m[j],
    decreases r,
{
    if r != j {
        let k0 = choose|k0: int|
            0 <= k0 < operands_of(g, r).len() && 0 <= (#[trigger] operands_of(g, r)[k0]).ix < r
                && reaches(g, operands_of(g, r)[k0].ix as int, j);
        let c0 = operands_of(g, r)[k0].ix as int;
        assert(children_marked(g, m, r));
        assert(m[c0]);
        lemma_closure_complete(g, m, c0, j);
    }
}

/// Computes `f64_bits_positive` on a scalar's bit pattern.
fn f64_positive(b: u64) -> (r: bool)
    ensures
        r == f64_bits_positive(b),
{
    b & F64_SIGN_MASK == 0 && !(b & F64_EXP_MASK == F64_EXP_MASK && b & F64_FRAC_MASK != 0)
        && b != 0
}

impl ValueFactory {
    /// Marks exactly the nodes reachable from `root`: one descending sweep
    /// over the positions up to the root suffices, because operand edges only
    /// ever descend, so by the time a position is visited every path that
    /// could mark it has already done so.
    fn mark_reachable(&self, root: Value) -> (marked: Vec<bool>)
        requires
            self.wf(),
            valid(self@, root),
        ensures
            marked@.len() == root.ix + 1,
            forall|j: int|
                0 <= j <= root.ix ==> ((#[trigger] marked@[j]) <==> reaches(
                    self@,
                    root.ix as int,
                    j,
                )),
    {
        let _total = self.len();
        let n = root.ix + 1;
        let mut marked: Vec<bool> = Vec::new();
        let mut t: usize = 0;
        while t < n
            invariant
                t <= n,
                marked@.len() == t,
                forall|j: int| 0 <= j < t ==> !(#[trigger] marked@[j]),
            decreases n - t,
        {
            marked.push(false);
            t += 1;
        }
        marked.set(root.ix, true);
        let ghost g = self@;
        let ghost r = root.ix as int;
        let mut i: usize = n;
        while i > 0
            invariant
                self.wf(),
                valid(self@, root),
                g == self@,
                r == root.ix as int,
                n == root.ix + 1,
                marked@.len() == n,
                i <= n,
                marked@[r],
                forall|j: int| 0 <= j < n && #[trigger] marked@[j] ==> reaches(g, r, j),
                forall|p: int|
                    i <= p < n && marked@[p] ==> #[trigger] children_marked(g, marked@, p),
            decreases i,
        {
            i -= 1;
            if marked[i] {
                proof {
                    assert(node_wf(g, i as int));
                }
                let ghost pre = marked@;
                match self.op(Value { ix: i }) {
                    Option::None => {
                        proof {
                            assert(children_marked(g, marked@, i as int));
                        }
                    },
                    Option::Some(o) => {
                        match o {
                            Op::Add(a, b) | Op::Mul(a, b) => {
                                proof {
                                    assert(operands_of(g, i as int)[0] == a);
                                    assert(operands_of(g, i as int)[1] == b);
                                    lemma_reaches_operand(g, r, i as int, 0);
                                    lemma_reaches_operand(g, r, i as int, 1);
                                }
                                marked.set(a.ix, true);
                                marked.set(b.ix, true);
                            },
                            Op::PowI(a, _) | Op::PowF(a, _) | Op::Relu(a) | Op::Tanh(a, _)
                                | Op::Exp(a) => {
                                proof {
                                    assert(operands_of(g, i as int)[0] == a);
                                    lemma_reaches_operand(g, r, i as int, 0);
                                }
                                marked.set(a.ix, true);
                            },
                        }
                        proof {
                            assert forall|p: int|
                                i <= p < n && marked@[p] implies #[trigger] children_marked(
                                g,
                                marked@,
                                p,
                            ) by {
                                assert(node_wf(g, p));
                                if p == i as int {
                                    assert forall|k: int|
                                        0 <= k < operands_of(g, p).len() implies marked@[(
                                        #[trigger] operands_of(g, p)[k]).ix as int] by {
                                        assert(operands_of(g, p)[k].ix < p);
                                    }
                                } else {
                                    assert(pre[p]);
                                    assert(children_marked(g, pre, p));
                                    assert forall|k: int|
                                        0 <= k < operands_of(g, p).len() implies marked@[(
                                        #[trigger] operands_of(g, p)[k]).ix as int] by {
                                        assert(pre[operands_of(g, p)[k].ix as int]);
                                        assert(operands_of(g, p)[k].ix < p);
                                    }
                                }
                            }
                        }
                    },
                }
            }
        }
        proof {
            assert forall|j: int|
                0 <= j <= root.ix && reaches(g, r, j) implies #[trigger] marked@[j] by {
                lemma_closure_complete(g, marked@, r, j);
            }
        }
        marked
    }

    /// Collects the reachable nodes in ascending allocation order, which is a
    /// topological order: children before parents, the root last.
    fn collect_topo(&self, marked: &Vec<bool>, root: Value) -> (topo: Vec<Value>)
        requires
            self.wf(),
            valid(self@, root),
            marked@.len() == root.ix + 1,
            forall|j: int|
                0 <= j <= root.ix ==> ((#[trigger] marked@[j]) <==> reaches(
                    self@,
                    root.ix as int,
                    j,
                )),
        ensures
            topo@ == topo_spec(self@, root.ix as int),
    {
        let _total = self.len();
        let n = root.ix + 1;
        let mut topo: Vec<Value> = Vec::new();
        let mut i: usize = 0;
        while i < n
            invariant
                self.wf(),
                valid(self@, root),
                n == root.ix + 1,
                marked@.len() == n,
                i <= n,
                forall|j: int|
                    0 <= j <= root.ix ==> ((#[trigger] marked@[j]) <==> reaches(
                        self@,
                        root.ix as int,
                        j,
                    )),
                topo@ == topo_upto(self@, root.ix as int, i as int),
            decreases n - i,
        {
            if marked[i] {
                topo.push(Value { ix: i });
            }
            i += 1;
        }
        topo
    }

    /// The gradient contributions of one node, as executable steps.
    fn node_steps(&self, out: Value) -> (r: Vec<GradStep>)
        requires
            self.wf(),
            valid(self@, out),
        ensures
            r@ == local_steps(self@, out.ix as int),
    {
        let ghost g = self@;
        let ghost i = out.ix as int;
        proof {
            assert(node_wf(g, i));
        }
        let mut r: Vec<GradStep> = Vec::new();
        match self.op(out) {
            Option::None => {},
            Option::Some(o) => {
                match o {
                    Op::Add(a, b) => {
                        r.push(GradStep { target: a, out, coeff: Coeff::One });
                        r.push(GradStep { target: b, out, coeff: Coeff::One });
                    },
                    Op::Mul(a, b) => {
                        proof {
                            assert(operands_of(g, i)[0] == a);
                            assert(operands_of(g, i)[1] == b);
                        }
                        let ad = self.get_data(a);
                        let bd = self.get_data(b);
                        r.push(GradStep { target: a, out, coeff: Coeff::Scale(bd) });
                        r.push(GradStep { target: b, out, coeff: Coeff::Scale(ad) });
                    },
                    Op::PowI(a, e) => {
                        proof {
                            assert(operands_of(g, i)[0] == a);
                        }
                        let ad = self.get_data(a);
                        r.push(GradStep { target: a, out, coeff: Coeff::PowDerivI(ad, e) });
                    },
                    Op::PowF(a, p) => {
                        proof {
                            assert(operands_of(g, i)[0] == a);
                        }
                        let ad = self.get_data(a);
                        r.push(GradStep { target: a, out, coeff: Coeff::PowDerivF(ad, p) });
                    },
                    Op::Relu(a) => {
                        let d = self.get_data(out);
                        let coeff = if f64_positive(d) {
                            Coeff::One
                        } else {
                            Coeff::Zero
                        };
                        r.push(GradStep { target: a, out, coeff });
                    },
                    Op::Tanh(a, t) => {
                        r.push(GradStep { target: a, out, coeff: Coeff::OneMinusSq(t) });
                    },
                    Op::Exp(a) => {
                        let d = self.get_data(out);
                        r.push(GradStep { target: a, out, coeff: Coeff::Scale(d) });
                    },
                }
            },
        }
        proof {
            assert(r@ =~= local_steps(g, i));
        }
        r
    }

    /// Assembles the gradient plan: the reachable nodes' contributions in
    /// descending allocation order, i.e. along the topological order in
    /// reverse.
    fn collect_plan(&self, marked: &Vec<bool>, root: Value) -> (plan: Vec<GradStep>)
        requires
            self.wf(),
            valid(self@, root),
            marked@.len() == root.ix + 1,
            forall|j: int|
                0 <= j <= root.ix ==> ((#[trigger] marked@[j]) <==> reaches(
                    self@,
                    root.ix as int,
                    j,
                )),
        ensures
            plan@ == plan_spec(self@, root.ix as int),
    {
        let _total = self.len();
        let n = root.ix + 1;
        let ghost g = self@;
        let ghost r = root.ix as int;
        let mut plan: Vec<GradStep> = Vec::new();
        let mut i: usize = n;
        while i > 0
            invariant
                self.wf(),
                valid(self@, root),
                g == self@,
                r == root.ix as int,
                n == root.ix + 1,
                marked@.len() == n,
                i <= n,
                forall|j: int|
                    0 <= j <= root.ix ==> ((#[trigger] marked@[j]) <==> reaches(g, r, j)),
                plan@ == plan_down(g, r, i as int),
            decreases i,
        {
            i -= 1;
            if marked[i] {
                let mut steps = self.node_steps(Value { ix: i });
                plan.append(&mut steps);
            }
            proof {
                assert(plan@ =~= plan_down(g, r, i as int));
            }
        }
        plan
    }

    /// Runs the backward pass rooted at `root`, in two parts done here:
    /// the depth-ordered traversal (the returned topological order lists
    /// every node reachable from the root exactly once, children before
    /// parents), and the seeding of the root's gradient with one (the
    /// derivative of the root with respect to itself). The returned plan is
    /// the chain-rule accumulation itself: the reachable nodes' local
    /// contributions, in reverse topological order. Applying its steps in
    /// order — in binary64 arithmetic, which this library does not perform —
    /// adds each contribution to the target's gradient exactly as the
    /// per-node chain rules prescribe; nodes not reachable from the root
    /// contribute nothing and are never targeted, so their gradients stay
    /// untouched.
    pub fn backward(&mut self, root: Value) -> (r: (Vec<Value>, Vec<GradStep>))
        requires
            old(self).wf(),
            valid(old(self)@, root),
        ensures
            final(self).wf(),
            final(self)@ == old(self)@.update(
                root.ix as int,
                (ValueData { grad: ONE_BITS, ..old(self)@[root.ix as int] }),
            ),
            r.0@ == topo_spec(old(self)@, root.ix as int),
            r.1@ == plan_spec(old(self)@, root.ix as int),
    {
        let marked = self.mark_reachable(root);
        let topo = self.collect_topo(&marked, root);
        let plan = self.collect_plan(&marked, root);
        self.set_grad(root, ONE_BITS);
        (topo, plan)
    }

    /// The read-only graph inspection interface for visualization: the nodes
    /// reachable from `root` (in topological order) and every child-to-parent
    /// edge among them.
    pub fn trace(&self, root: Value) -> (r: (Vec<Value>, Vec<(Value, Value)>))
        requires
            self.wf(),
            valid(self@, root),
        ensures
            r.0@ == topo_spec(self@, root.ix as int),
            r.1@ == edges_spec(self@, root.ix as int),
    {
        let marked = self.mark_reachable(root);
        let topo = self.collect_topo(&marked, root);
        let _total = self.len();
        let n = root.ix + 1;
        let ghost g = self@;
        let ghost rt = root.ix as int;
        let mut edges: Vec<(Value, Value)> = Vec::new();
        let mut i: usize = 0;
        while i < n
            invariant
                self.wf(),
                valid(self@, root),
                g == self@,
                rt == root.ix as int,
                n == root.ix + 1,
                marked@.len() == n,
                i <= n,
                forall|j: int|
                    0 <= j <= root.ix ==> ((#[trigger] marked@[j]) <==> reaches(g, rt, j)),
                edges@ == edges_upto(g, rt, i as int),
            decreases n - i,
        {
            if marked[i] {
                let v = Value { ix: i };
                let pv = self.prev(v);
                if pv.len() >= 1 {
                    edges.push((pv[0], v));
                }
                if pv.len() == 2 {
                    edges.push((pv[1], v));
                }
                proof {
                    assert(pv@.len() == prev_spec(g[i as int].op).len());
                    assert(pv@.len() <= 2);
                    assert(edges@ =~= edges_upto(g, rt, i as int + 1));
                }
            }
            i += 1;
        }
        (topo, edges)
    }
}

} // verus!
