//! What registration and submission guarantee, stated over the models that
//! `Renderer::add_pass`, `Renderer::lookup` and `Renderer::submit` speak of.

use vstd::prelude::*;
use crate::frame::{Frame, Layer, PassDescription, Target};
use crate::renderer::{Dispatch, Fault, first_unmatched, frame_plan, layer_dispatches, pass_for, plan, with_pass};

verus! {

/// `d` comes strictly before `e` in (layer, position in layer) order.
pub open spec fn before(d: Dispatch, e: Dispatch) -> bool {
    d.layer < e.layer || (d.layer == e.layer && d.index < e.index)
}

/// The dispatches are in strictly increasing (layer, position) order.
pub open spec fn in_order(ds: Seq<Dispatch>) -> bool {
    forall|p: int, q: int| 0 <= p < q < ds.len() ==> before(ds[p], ds[q])
}

/// Configuration `i` of layer `l` was dispatched.
pub open spec fn dispatched(ds: Seq<Dispatch>, l: int, i: int) -> bool {
    exists|k: int| 0 <= k < ds.len() && ds[k].layer == l && ds[k].index == i
}

/// Every configuration of layers `0..l` was dispatched.
pub open spec fn layers_done<P>(ds: Seq<Dispatch>, layers: Seq<Layer<P>>, l: int) -> bool {
    forall|j: int, i: int|
        0 <= j < l && 0 <= i < layers[j].passes@.len() ==> #[trigger] dispatched(ds, j, i)
}

/// The dispatch names a configuration of the frame, and its pass is the one
/// registered for that configuration's kind and its target's kind.
pub open spec fn sound<G, P>(
    table: Map<(u64, u64), u64>,
    targets: Map<Seq<char>, Target<G>>,
    layers: Seq<Layer<P>>,
    d: Dispatch,
) -> bool {
    let l = layers[d.layer as int];
    &&& d.layer < layers.len()
    &&& d.index < l.passes@.len()
    &&& targets.contains_key(l.target@)
    &&& pass_for(table, l.passes@[d.index as int].kind, targets[l.target@].kind) == Some(d.pass)
}

/// Every layer's configurations can be counted in a `usize`, as those of a
/// frame always can.
pub open spec fn layers_fit<P>(layers: Seq<Layer<P>>) -> bool {
    &&& layers.len() <= usize::MAX
    &&& forall|j: int| 0 <= j < layers.len() ==> #[trigger] layers[j].passes@.len() <= usize::MAX
}

/// A registered pass is what lookup finds for its kind pair.
pub proof fn law_registered_pass_is_found(
    table: Map<(u64, u64), u64>,
    config: u64,
    target: u64,
    pass: u64,
)
    ensures
        pass_for(with_pass(table, config, target, pass), config, target) == Some(pass),
{
}

/// Of two passes registered for one kind pair, lookup finds the later.
pub proof fn law_last_registration_wins(
    table: Map<(u64, u64), u64>,
    config: u64,
    target: u64,
    first: u64,
    second: u64,
)
    ensures
        pass_for(with_pass(with_pass(table, config, target, first), config, target, second), config, target)
            == Some(second),
{
}

/// The table that registering `regs`, in order, builds from an empty one.
pub open spec fn registered(regs: Seq<(u64, u64, u64)>) -> Map<(u64, u64), u64>
    decreases regs.len(),
{
    if regs.len() == 0 {
        Map::empty()
    } else {
        let r = regs.last();
        with_pass(registered(regs.drop_last()), r.0, r.1, r.2)
    }
}

/// Lookup of a kind pair that was never registered finds nothing.
pub proof fn law_unregistered_pair_is_absent(regs: Seq<(u64, u64, u64)>, config: u64, target: u64)
    requires
        forall|k: int| 0 <= k < regs.len() ==> (regs[k].0, regs[k].1) != (config, target),
    ensures
        pass_for(registered(regs), config, target) is None,
    decreases regs.len(),
{
    if regs.len() > 0 {
        law_unregistered_pair_is_absent(regs.drop_last(), config, target);
    }
}

proof fn lemma_first_unmatched<P>(
    table: Map<(u64, u64), u64>,
    tk: u64,
    passes: Seq<PassDescription<P>>,
    n: nat,
)
    requires
        n <= passes.len(),
    ensures
        match first_unmatched(table, tk, passes, n) {
            Some(i) => i < n && !table.contains_key((passes[i as int].kind, tk)) && forall|j: int|
                0 <= j < i ==> table.contains_key((#[trigger] passes[j].kind, tk)),
            None => forall|j: int| 0 <= j < n ==> table.contains_key((#[trigger] passes[j].kind, tk)),
        },
    decreases n,
{
    if n > 0 {
        lemma_first_unmatched(table, tk, passes, (n - 1) as nat);
    }
}

/// The shape of what playing the first `n` layers yields.
proof fn lemma_plan_shape<G, P>(
    table: Map<(u64, u64), u64>,
    targets: Map<Seq<char>, Target<G>>,
    layers: Seq<Layer<P>>,
    n: nat,
)
    requires
        n <= layers.len(),
        layers_fit(layers),
    ensures
        in_order(frame_plan(table, targets, layers, n).0),
        forall|k: int|
            0 <= k < frame_plan(table, targets, layers, n).0.len() ==> {
                let d = #[trigger] frame_plan(table, targets, layers, n).0[k];
                d.layer < n && sound(table, targets, layers, d)
            },
        match frame_plan(table, targets, layers, n).1 {
            None => layers_done(frame_plan(table, targets, layers, n).0, layers, n as int),
            Some(Fault::MissingTarget { layer }) => {
                &&& layer < n
                &&& !targets.contains_key(layers[layer as int].target@)
                &&& layers_done(frame_plan(table, targets, layers, n).0, layers, layer as int)
                &&& forall|k: int|
                    0 <= k < frame_plan(table, targets, layers, n).0.len() ==> (
                    #[trigger] frame_plan(table, targets, layers, n).0[k]).layer < layer
            },
            Some(Fault::UnmatchedPass { layer, index }) => {
                let l = layers[layer as int];
                &&& layer < n
                &&& targets.contains_key(l.target@)
                &&& index < l.passes@.len()
                &&& pass_for(table, l.passes@[index as int].kind, targets[l.target@].kind) is None
                &&& layers_done(frame_plan(table, targets, layers, n).0, layers, layer as int)
                &&& forall|i: int|
                    0 <= i < index ==> #[trigger] dispatched(
                        frame_plan(table, targets, layers, n).0,
                        layer as int,
                        i,
                    )
                &&& forall|k: int|
                    0 <= k < frame_plan(table, targets, layers, n).0.len() ==> before(
                        #[trigger] frame_plan(table, targets, layers, n).0[k],
                        Dispatch { pass: 0, layer, index },
                    )
            },
        },
    decreases n,
{
    if n > 0 {
        let m = (n - 1) as nat;
        lemma_plan_shape(table, targets, layers, m);
        let prev = frame_plan(table, targets, layers, m);
        let ds = prev.0;
        let l = layers[m as int];
        if prev.1 is None && targets.contains_key(l.target@) {
            let tk = targets[l.target@].kind;
            lemma_first_unmatched(table, tk, l.passes@, l.passes@.len());
            let k: nat = match first_unmatched(table, tk, l.passes@, l.passes@.len()) {
                Some(i) => i,
                None => l.passes@.len(),
            };
            let add = layer_dispatches(table, tk, m, l.passes@, k);
            let all = ds + add;
            assert(frame_plan(table, targets, layers, n).0 == all);
            assert forall|p: int, q: int| 0 <= p < q < all.len() implies before(all[p], all[q]) by {
                if q < ds.len() {
                    assert(all[p] == ds[p] && all[q] == ds[q]);
                } else if p < ds.len() {
                    assert(all[p] == ds[p]);
                    assert(ds[p].layer < m);
                }
            }
            assert forall|x: int| 0 <= x < all.len() implies {
                let d = #[trigger] all[x];
                d.layer < n && sound(table, targets, layers, d)
            } by {
                if x < ds.len() {
                    assert(all[x] == ds[x]);
                } else {
                    let i = x - ds.len();
                    assert(all[x] == add[i]);
                    assert(table.contains_key((l.passes@[i].kind, tk)));
                }
            }
            assert forall|j: int, i: int|
                0 <= j < m && 0 <= i < layers[j].passes@.len() implies #[trigger] dispatched(
                all,
                j,
                i,
            ) by {
                assert(dispatched(ds, j, i));
                let w = choose|w: int| 0 <= w < ds.len() && ds[w].layer == j && ds[w].index == i;
                assert(all[w] == ds[w]);
            }
            assert forall|i: int| 0 <= i < k implies #[trigger] dispatched(all, m as int, i) by {
                assert(all[ds.len() + i] == add[i]);
            }
            match first_unmatched(table, tk, l.passes@, l.passes@.len()) {
                Some(i0) => {
                    assert forall|x: int| 0 <= x < all.len() implies before(
                        #[trigger] all[x],
                        Dispatch { pass: 0, layer: m as usize, index: i0 as usize },
                    ) by {
                        if x < ds.len() {
                            assert(all[x] == ds[x]);
                        } else {
                            assert(all[x] == add[x - ds.len()]);
                        }
                    }
                },
                None => {
                    assert forall|j: int, i: int|
                        0 <= j < n && 0 <= i < layers[j].passes@.len() implies #[trigger] dispatched(
                        all,
                        j,
                        i,
                    ) by {
                        if j < m {
                            assert(dispatched(ds, j, i));
                            let w = choose|w: int|
                                0 <= w < ds.len() && ds[w].layer == j && ds[w].index == i;
                            assert(all[w] == ds[w]);
                        } else {
                            assert(all[ds.len() + i] == add[i]);
                        }
                    }
                },
            }
        }
    }
}

/// Submission dispatches configurations strictly in layer order, and within
/// a layer in the order given; each dispatch runs the pass registered for its
/// configuration and target; a submission that succeeds dispatches every
/// configuration of every layer.
pub proof fn law_dispatch_order<S, C, G, P>(table: Map<(u64, u64), u64>, frame: &Frame<S, C, G, P>)
    requires
        layers_fit(frame.layers@),
    ensures
        in_order(plan(table, frame).0),
        forall|k: int|
            0 <= k < plan(table, frame).0.len() ==> sound(
                table,
                frame.targets@,
                frame.layers@,
                #[trigger] plan(table, frame).0[k],
            ),
        plan(table, frame).1 is None ==> layers_done(
            plan(table, frame).0,
            frame.layers@,
            frame.layers@.len() as int,
        ),
{
    lemma_plan_shape(table, frame.targets@, frame.layers@, frame.layers@.len());
}

/// A submission that meets a configuration with no registered pass stops
/// there: nothing at or after it is dispatched, while every earlier
/// configuration was.
pub proof fn law_unmatched_pass_stops<S, C, G, P>(
    table: Map<(u64, u64), u64>,
    frame: &Frame<S, C, G, P>,
    layer: usize,
    index: usize,
)
    requires
        layers_fit(frame.layers@),
        plan(table, frame).1 == Some(Fault::UnmatchedPass { layer, index }),
    ensures
        layer < frame.layers@.len(),
        index < frame.layers@[layer as int].passes@.len(),
        frame.targets@.contains_key(frame.layers@[layer as int].target@),
        pass_for(
            table,
            frame.layers@[layer as int].passes@[index as int].kind,
            frame.targets@[frame.layers@[layer as int].target@].kind,
        ) is None,
        forall|k: int|
            0 <= k < plan(table, frame).0.len() ==> before(
                #[trigger] plan(table, frame).0[k],
                Dispatch { pass: 0, layer, index },
            ),
        layers_done(plan(table, frame).0, frame.layers@, layer as int),
        forall|i: int| 0 <= i < index ==> #[trigger] dispatched(plan(table, frame).0, layer as int, i),
{
    lemma_plan_shape(table, frame.targets@, frame.layers@, frame.layers@.len());
}

/// A submission that meets a layer whose target the frame lacks stops
/// before any configuration of that layer, after every configuration of the
/// layers before it.
pub proof fn law_missing_target_stops<S, C, G, P>(
    table: Map<(u64, u64), u64>,
    frame: &Frame<S, C, G, P>,
    layer: usize,
)
    requires
        layers_fit(frame.layers@),
        plan(table, frame).1 == Some(Fault::MissingTarget { layer }),
    ensures
        layer < frame.layers@.len(),
        !frame.targets@.contains_key(frame.layers@[layer as int].target@),
        forall|k: int|
            0 <= k < plan(table, frame).0.len() ==> (#[trigger] plan(table, frame).0[k]).layer
                < layer,
        layers_done(plan(table, frame).0, frame.layers@, layer as int),
{
    lemma_plan_shape(table, frame.targets@, frame.layers@, frame.layers@.len());
}

} // verus!
