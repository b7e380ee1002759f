use vstd::prelude::*;

use crate::backward::fired_steps;
use crate::backward::local_steps;
use crate::backward::plan_down;
use crate::backward::plan_spec;
use crate::backward::reaches;
use crate::backward::topo_spec;
use crate::backward::topo_upto;
use crate::backward::Coeff;
use crate::backward::GradStep;
use crate::backward::lemma_reaches_bounded;
use crate::backward::lemma_reaches_operand;
use crate::engine::graph_wf;
use crate::engine::lemma_push_preserves_wf;
use crate::engine::node_wf;
use crate::engine::operands_of;
use crate::engine::valid;
use crate::engine::Op;
use crate::engine::Value;
use crate::engine::ValueData;
use crate::engine::ZERO_BITS;

verus! {

/// The facts the topological order accumulates position by position:
/// every listed handle is reachable and lies below the bound, the positions
/// ascend strictly, and every reachable position below the bound is listed.
proof fn lemma_topo_upto_properties(g: Seq<ValueData>, r: int, n: int)
    requires
        0 <= n,
        n <= usize::MAX + 1,
    ensures
        forall|p: int|
            0 <= p < topo_upto(g, r, n).len() ==> (#[trigger] topo_upto(g, r, n)[p]).ix < n,
        forall|p: int|
            0 <= p < topo_upto(g, r, n).len() ==> reaches(
                g,
                r,
                (#[trigger] topo_upto(g, r, n)[p]).ix as int,
            ),
        forall|p: int, q: int|
            0 <= p < q < topo_upto(g, r, n).len() ==> (#[trigger] topo_upto(g, r, n)[p]).ix < (
            #[trigger] topo_upto(g, r, n)[q]).ix,
        forall|j: int|
            0 <= j < n && reaches(g, r, j) ==> exists|p: int|
                0 <= p < topo_upto(g, r, n).len() && (#[trigger] topo_upto(g, r, n)[p]) == (Value {
                    ix: j as usize,
                }),
    decreases n,
{
    if n > 0 {
        lemma_topo_upto_properties(g, r, n - 1);
        let prior = topo_upto(g, r, n - 1);
        let now = topo_upto(g, r, n);
        if reaches(g, r, n - 1) {
            assert(now == prior.push(Value { ix: (n - 1) as usize }));
            assert(now[now.len() - 1] == (Value { ix: (n - 1) as usize }));
            assert(forall|p: int| 0 <= p < prior.len() ==> now[p] == prior[p]);
            assert forall|p: int|
                0 <= p < now.len() implies reaches(g, r, (#[trigger] now[p]).ix as int) by {
                if p < prior.len() {
                    assert(now[p] == prior[p]);
                }
            }
            assert forall|p: int, q: int|
                0 <= p < q < now.len() implies (#[trigger] now[p]).ix < (#[trigger] now[q]).ix by {
                if q < prior.len() {
                    assert(now[p] == prior[p] && now[q] == prior[q]);
                } else {
                    assert(now[p] == prior[p] && now[q].ix == n - 1);
                }
            }
            assert forall|j: int|
                0 <= j < n && reaches(g, r, j) implies exists|p: int|
                    0 <= p < now.len() && (#[trigger] now[p]) == (Value { ix: j as usize }) by {
                if j < n - 1 {
                    let p = choose|p: int|
                        0 <= p < prior.len() && (#[trigger] prior[p]) == (Value { ix: j as usize });
                    assert(now[p] == (Value { ix: j as usize }));
                } else {
                    assert(now[now.len() - 1] == (Value { ix: j as usize }));
                }
            }
        } else {
            assert(now == prior);
        }
    }
}

/// LAW (topological ordering): for a well-formed graph and a root handle,
/// the order `backward` and `trace` return lists exactly the nodes reachable
/// from the root, each exactly once (its positions ascend strictly), it ends
/// with the root itself, and every operand of a listed node appears at an
/// earlier position than the node — so replaying the order in reverse fires
/// every node only after all parents that route gradient through it.
pub proof fn lemma_topological_order(g: Seq<ValueData>, root: Value)
    requires
        graph_wf(g),
        valid(g, root),
        g.len() <= usize::MAX,
    ensures
        forall|j: int|
            0 <= j < g.len() ==> (reaches(g, root.ix as int, j) <==> exists|p: int|
                0 <= p < topo_spec(g, root.ix as int).len() && (#[trigger] topo_spec(
                    g,
                    root.ix as int,
                )[p]) == (Value { ix: j as usize })),
        forall|p: int, q: int|
            0 <= p < q < topo_spec(g, root.ix as int).len() ==> (#[trigger] topo_spec(
                g,
                root.ix as int,
            )[p]).ix < (#[trigger] topo_spec(g, root.ix as int)[q]).ix,
        topo_spec(g, root.ix as int).len() > 0,
        topo_spec(g, root.ix as int).last() == root,
{
    let r = root.ix as int;
    let topo = topo_spec(g, r);
    lemma_topo_upto_properties(g, r, r + 1);
    assert(reaches(g, r, r));
    assert forall|j: int|
        0 <= j < g.len() implies (reaches(g, r, j) <==> exists|p: int|
            0 <= p < topo.len() && (#[trigger] topo[p]) == (Value { ix: j as usize })) by {
        if reaches(g, r, j) {
            lemma_reaches_bounded(g, r, j);
        }
        if exists|p: int| 0 <= p < topo.len() && (#[trigger] topo[p]) == (Value { ix: j as usize }) {
            let p = choose|p: int|
                0 <= p < topo.len() && (#[trigger] topo[p]) == (Value { ix: j as usize });
            assert(reaches(g, r, topo[p].ix as int));
        }
    }
    // the root is listed, at the last position: positions ascend and every
    // listed index is at most the root's
    assert(exists|p: int| 0 <= p < topo.len() && (#[trigger] topo[p]) == (Value { ix: root.ix }));
    let pr = choose|p: int| 0 <= p < topo.len() && (#[trigger] topo[p]) == (Value { ix: root.ix });
    assert(topo[topo.len() - 1].ix < r + 1);
    if pr < topo.len() - 1 {
        assert(topo[pr].ix < topo[topo.len() - 1].ix);
        assert(false);
    }
    assert(topo.last() == root);
}

/// LAW (children before parents): each operand of a node listed in the
/// topological order sits at an earlier position than the node itself, and
/// this lemma hands that position back — so replaying the order in reverse
/// fires every node only after all parents that route gradient through it.
pub proof fn lemma_operand_listed_earlier(g: Seq<ValueData>, root: Value, q: int, k: int) -> (p:
    int)
    requires
        graph_wf(g),
        valid(g, root),
        g.len() <= usize::MAX,
        0 <= q < topo_spec(g, root.ix as int).len(),
        0 <= k < operands_of(g, topo_spec(g, root.ix as int)[q].ix as int).len(),
    ensures
        0 <= p < q,
        topo_spec(g, root.ix as int)[p] == operands_of(
            g,
            topo_spec(g, root.ix as int)[q].ix as int,
        )[k],
{
    let r = root.ix as int;
    let topo = topo_spec(g, r);
    lemma_topo_upto_properties(g, r, r + 1);
    let qi = topo[q].ix as int;
    let c = operands_of(g, qi)[k];
    assert(reaches(g, r, qi));
    lemma_reaches_bounded(g, r, qi);
    lemma_reaches_operand(g, r, qi, k);
    assert(node_wf(g, qi));
    assert(c.ix < qi);
    assert(exists|p: int|
        0 <= p < topo.len() && (#[trigger] topo[p]) == (Value { ix: c.ix as usize }));
    let p = choose|p: int|
        0 <= p < topo.len() && (#[trigger] topo[p]) == (Value { ix: c.ix as usize });
    assert(topo[p] == c);
    if p > q {
        assert(topo[q].ix < topo[p].ix);
        assert(false);
    }
    if p == q {
        assert(false);
    }
    p
}

/// A handle freshly allocated at the end of a graph differs from every handle
/// valid before the allocation: separately allocated nodes always get
/// distinct identities, however equal their values.
pub proof fn lemma_fresh_handle_distinct(g: Seq<ValueData>, fresh: Value, prior: Value)
    requires
        fresh.ix == g.len(),
        valid(g, prior),
    ensures
        fresh != prior,
{
}

/// Below `i` everything fires empty contributions, so the plan down to zero
/// is the plan down to `i`.
proof fn lemma_plan_down_empty_below(g: Seq<ValueData>, r: int, i: int)
    requires
        0 <= i <= r,
        forall|j: int| 0 <= j < i ==> #[trigger] fired_steps(g, r, j) == Seq::<GradStep>::empty(),
    ensures
        plan_down(g, r, 0) == plan_down(g, r, i),
    decreases i,
{
    if i > 0 {
        assert(plan_down(g, r, i - 1) == plan_down(g, r, i) + fired_steps(g, r, i - 1));
        assert(plan_down(g, r, i) + fired_steps(g, r, i - 1) =~= plan_down(g, r, i));
        lemma_plan_down_empty_below(g, r, i - 1);
    }
}

/// LAW (shared-subexpression accumulation): adding a leaf to itself and
/// running backward on the sum yields a plan of exactly two unit
/// contributions into that leaf, one per occurrence of the operand — the
/// node's single firing pushes both, so an applier that adds `out.grad` twice
/// accumulates twice, never overwrites.
pub proof fn lemma_shared_leaf_accumulates_twice(g: Seq<ValueData>, a: Value, d: u64)
    requires
        graph_wf(g),
        valid(g, a),
        g[a.ix as int].op is None,
        g.len() < usize::MAX,
    ensures
        ({
            let g2 = g.push(ValueData { data: d, grad: ZERO_BITS, op: Option::Some(Op::Add(a, a)) });
            let c = Value { ix: g.len() as usize };
            plan_spec(g2, c.ix as int) == seq![
                GradStep { target: a, out: c, coeff: Coeff::One },
                GradStep { target: a, out: c, coeff: Coeff::One },
            ]
        }),
{
    let nd = ValueData { data: d, grad: ZERO_BITS, op: Option::Some(Op::Add(a, a)) };
    let g2 = g.push(nd);
    let c = Value { ix: g.len() as usize };
    let ci = c.ix as int;
    lemma_push_preserves_wf(g, nd);
    // only the sum itself and the leaf are reachable from the sum
    assert(operands_of(g2, a.ix as int) =~= Seq::<Value>::empty());
    assert forall|j: int| 0 <= j < ci implies #[trigger] fired_steps(g2, ci, j) == Seq::<
        GradStep,
    >::empty() by {
        if reaches(g2, ci, j) {
            if j != ci {
                let k0 = choose|k0: int|
                    0 <= k0 < operands_of(g2, ci).len() && 0 <= (#[trigger] operands_of(
                        g2,
                        ci,
                    )[k0]).ix < ci && reaches(g2, operands_of(g2, ci)[k0].ix as int, j);
                assert(operands_of(g2, ci)[k0] == a);
                assert(reaches(g2, a.ix as int, j));
                assert(j == a.ix as int);
            }
            assert(local_steps(g2, j) == Seq::<GradStep>::empty());
        }
    }
    lemma_plan_down_empty_below(g2, ci, ci);
    assert(plan_down(g2, ci, ci) == plan_down(g2, ci, ci + 1) + fired_steps(g2, ci, ci));
    assert(reaches(g2, ci, ci));
    assert(plan_spec(g2, ci) =~= seq![
        GradStep { target: a, out: c, coeff: Coeff::One },
        GradStep { target: a, out: c, coeff: Coeff::One },
    ]);
}

/// Reachability reads only the graph's structure, never values or gradients.
proof fn lemma_reaches_same_structure(g1: Seq<ValueData>, g2: Seq<ValueData>, r: int, x: int)
    requires
        g1.len() == g2.len(),
        forall|j: int| 0 <= j < g1.len() ==> (#[trigger] g1[j]).op == g2[j].op,
        0 <= r < g1.len(),
    ensures
        reaches(g1, r, x) == reaches(g2, r, x),
    decreases r,
{
    assert(operands_of(g1, r) == operands_of(g2, r));
    if reaches(g1, r, x) && r != x {
        let k0 = choose|k0: int|
            0 <= k0 < operands_of(g1, r).len() && 0 <= (#[trigger] operands_of(g1, r)[k0]).ix < r
                && reaches(g1, operands_of(g1, r)[k0].ix as int, x);
        lemma_reaches_same_structure(g1, g2, operands_of(g1, r)[k0].ix as int, x);
    }
    if reaches(g2, r, x) && r != x {
        let k0 = choose|k0: int|
            0 <= k0 < operands_of(g2, r).len() && 0 <= (#[trigger] operands_of(g2, r)[k0]).ix < r
                && reaches(g2, operands_of(g2, r)[k0].ix as int, x);
        lemma_reaches_same_structure(g1, g2, operands_of(g2, r)[k0].ix as int, x);
    }
}

/// LAW (idempotent structure): the topological order and the gradient plan
/// read only the graph's structure and forward values, never its gradients.
/// Two graphs that agree on every node's operation and value — for instance
/// the same graph before and after a backward pass, which only rewrites
/// gradients — yield the identical order and the identical plan, so running
/// backward again replays exactly the same additive updates: the structure is
/// idempotent while the accumulation, being addition, is not.
pub proof fn lemma_plan_reads_no_gradients(g1: Seq<ValueData>, g2: Seq<ValueData>, root: Value)
    requires
        graph_wf(g1),
        g1.len() == g2.len(),
        forall|j: int|
            0 <= j < g1.len() ==> (#[trigger] g1[j]).op == g2[j].op && g1[j].data == g2[j].data,
        valid(g1, root),
    ensures
        topo_spec(g1, root.ix as int) == topo_spec(g2, root.ix as int),
        plan_spec(g1, root.ix as int) == plan_spec(g2, root.ix as int),
{
    let r = root.ix as int;
    assert forall|x: int| #[trigger] reaches(g1, r, x) == reaches(g2, r, x) by {
        lemma_reaches_same_structure(g1, g2, r, x);
    }
    lemma_topo_upto_same(g1, g2, r, r + 1);
    lemma_plan_down_same(g1, g2, r, 0);
}

/// The topological order is the same position by position on graphs with the
/// same structure and values.
proof fn lemma_topo_upto_same(g1: Seq<ValueData>, g2: Seq<ValueData>, r: int, n: int)
    requires
        g1.len() == g2.len(),
        forall|j: int| 0 <= j < g1.len() ==> (#[trigger] g1[j]).op == g2[j].op,
        0 <= r < g1.len(),
        n <= g1.len(),
    ensures
        topo_upto(g1, r, n) == topo_upto(g2, r, n),
    decreases n,
{
    if n > 0 {
        lemma_reaches_same_structure(g1, g2, r, n - 1);
        lemma_topo_upto_same(g1, g2, r, n - 1);
    }
}

/// The plan is the same position by position on well-formed graphs with the
/// same structure and values.
proof fn lemma_plan_down_same(g1: Seq<ValueData>, g2: Seq<ValueData>, r: int, i: int)
    requires
        graph_wf(g1),
        g1.len() == g2.len(),
        forall|j: int|
            0 <= j < g1.len() ==> (#[trigger] g1[j]).op == g2[j].op && g1[j].data == g2[j].data,
        0 <= r < g1.len(),
        0 <= i,
    ensures
        plan_down(g1, r, i) == plan_down(g2, r, i),
    decreases r - i + 1,
{
    if i <= r {
        lemma_plan_down_same(g1, g2, r, i + 1);
        lemma_reaches_same_structure(g1, g2, r, i);
        assert(node_wf(g1, i));
        match g1[i].op {
            Option::Some(Op::Mul(a, b)) => {
                assert(operands_of(g1, i)[0] == a && operands_of(g1, i)[1] == b);
                assert(a.ix < i && b.ix < i);
            },
            Option::Some(Op::PowI(a, _)) => {
                assert(operands_of(g1, i)[0] == a);
                assert(a.ix < i);
            },
            Option::Some(Op::PowF(a, _)) => {
                assert(operands_of(g1, i)[0] == a);
                assert(a.ix < i);
            },
            _ => {},
        }
        assert(local_steps(g1, i) =~= local_steps(g2, i));
        assert(fired_steps(g1, r, i) == fired_steps(g2, r, i));
    }
}

/// The concatenation of each listed node's local contributions, walking the
/// order from its end to its start.
pub open spec fn steps_reversed(g: Seq<ValueData>, ord: Seq<Value>) -> Seq<GradStep>
    decreases ord.len(),
{
    if ord.len() == 0 {
        Seq::empty()
    } else {
        local_steps(g, ord.last().ix as int) + steps_reversed(g, ord.drop_last())
    }
}

/// The plan below `r` splits at any point of the topological order: what the
/// positions from `m` up still owe, plus what the listed nodes below `m`
/// already contribute in reverse.
proof fn lemma_plan_split(g: Seq<ValueData>, r: int, m: int)
    requires
        0 <= m <= r + 1,
        m <= usize::MAX + 1,
    ensures
        plan_down(g, r, 0) == plan_down(g, r, m) + steps_reversed(g, topo_upto(g, r, m)),
    decreases m,
{
    if m == 0 {
        assert(plan_down(g, r, 0) + steps_reversed(g, topo_upto(g, r, 0)) =~= plan_down(g, r, 0));
    } else {
        lemma_plan_split(g, r, m - 1);
        let u_now = topo_upto(g, r, m);
        let u_prior = topo_upto(g, r, m - 1);
        if reaches(g, r, m - 1) {
            assert(u_now == u_prior.push(Value { ix: (m - 1) as usize }));
            assert(u_now.last() == (Value { ix: (m - 1) as usize }));
            assert(u_now.drop_last() =~= u_prior);
            assert(steps_reversed(g, u_now) == local_steps(g, m - 1) + steps_reversed(g, u_prior));
            assert(plan_down(g, r, m - 1) == plan_down(g, r, m) + local_steps(g, m - 1));
            assert(plan_down(g, r, m) + (local_steps(g, m - 1) + steps_reversed(g, u_prior)) =~= (
            plan_down(g, r, m) + local_steps(g, m - 1)) + steps_reversed(g, u_prior));
        } else {
            assert(u_now == u_prior);
            assert(fired_steps(g, r, m - 1) =~= Seq::<GradStep>::empty());
            assert(plan_down(g, r, m - 1) =~= plan_down(g, r, m));
        }
    }
}

/// LAW (each rule fires exactly once, parents first): the gradient plan is
/// precisely the local contributions of the listed nodes, concatenated along
/// the topological order walked from its end to its start — every node
/// reachable from the root contributes exactly one block of steps, at a point
/// where every parent routing gradient through it has already contributed.
pub proof fn lemma_plan_fires_along_reverse_order(g: Seq<ValueData>, root: Value)
    requires
        valid(g, root),
    ensures
        plan_spec(g, root.ix as int) == steps_reversed(g, topo_spec(g, root.ix as int)),
{
    let r = root.ix as int;
    lemma_plan_split(g, r, r + 1);
    assert(plan_down(g, r, r + 1) + steps_reversed(g, topo_spec(g, r)) =~= steps_reversed(
        g,
        topo_spec(g, r),
    ));
}

} // verus!
