//! The pass table and the submission walk.
//!
//! Passes are identified by number; the caller keeps the pass behind each
//! number and runs the dispatches that a submission hands back, in order.
//! After a successful submission it then flushes its command stream to the
//! device. After a failed one it runs the dispatches listed in the error,
//! those of the configurations before the fault, and surfaces the error
//! without flushing.

use vstd::prelude::*;
use crate::assoc::{keys_unique, to_map, lemma_absent, lemma_present, lemma_update, lemma_push};
use crate::frame::{Frame, Layer, PassDescription, Target};

verus! {

/// One pass invocation of a submission: which pass runs, for
/// which layer of the frame and which configuration within that layer.
#[derive(Clone, Copy, PartialEq, Eq, Structural, Debug)]
pub struct Dispatch {
    pub pass: u64,
    pub layer: usize,
    pub index: usize,
}

/// Why a submission stopped.
#[derive(Clone, Copy, PartialEq, Eq, Structural, Debug)]
pub enum Fault {
    /// The layer names a target that the frame does not hold.
    MissingTarget { layer: usize },
    /// No pass is registered for this configuration's kind and the kind of
    /// the layer's target.
    UnmatchedPass { layer: usize, index: usize },
}

/// A failed submission: the fault, the name of the layer's target, the
/// description of the unmatched configuration (empty for a missing target),
/// and the dispatches that the walk made before the fault, which the caller
/// runs before it surfaces the error.
#[derive(Debug)]
pub struct SubmitError {
    pub fault: Fault,
    pub target: String,
    pub config: String,
    pub done: Vec<Dispatch>,
}

/// Configuration kind: clear the target.
pub const CLEAR_TARGET: u64 = 0;
/// Configuration kind: draw the scene without shading.
pub const DRAW_NO_SHADING: u64 = 1;
/// Configuration kind: draw the scene as a wireframe.
pub const WIREFRAME: u64 = 2;
/// Configuration kind: draw the scene into a geometry buffer.
pub const DRAW_SHADED: u64 = 3;
/// Configuration kind: copy one layer of a geometry buffer.
pub const BLIT_LAYER: u64 = 4;
/// Configuration kind: light the scene from a geometry buffer.
pub const LIGHTING: u64 = 5;

/// Target kind: a color buffer with depth.
pub const COLOR_BUFFER: u64 = 0;
/// Target kind: a geometry buffer of several layers.
pub const GEOMETRY_BUFFER: u64 = 1;

/// The passes that the engine ships, by number.
pub const FORWARD_CLEAR: u64 = 0;
pub const FORWARD_DRAW_NO_SHADING: u64 = 1;
pub const FORWARD_WIREFRAME: u64 = 2;
pub const DEFERRED_CLEAR: u64 = 3;
pub const DEFERRED_DRAW: u64 = 4;
pub const DEFERRED_BLIT_LAYER: u64 = 5;
pub const DEFERRED_LIGHTING: u64 = 6;

/// The table of the shipped passes, registered in order over `table`.
pub open spec fn with_known_passes(table: Map<(u64, u64), u64>) -> Map<(u64, u64), u64> {
    let t = with_pass(table, CLEAR_TARGET, COLOR_BUFFER, FORWARD_CLEAR);
    let t = with_pass(t, DRAW_NO_SHADING, COLOR_BUFFER, FORWARD_DRAW_NO_SHADING);
    let t = with_pass(t, WIREFRAME, COLOR_BUFFER, FORWARD_WIREFRAME);
    let t = with_pass(t, CLEAR_TARGET, GEOMETRY_BUFFER, DEFERRED_CLEAR);
    let t = with_pass(t, DRAW_SHADED, GEOMETRY_BUFFER, DEFERRED_DRAW);
    let t = with_pass(t, BLIT_LAYER, COLOR_BUFFER, DEFERRED_BLIT_LAYER);
    with_pass(t, LIGHTING, COLOR_BUFFER, DEFERRED_LIGHTING)
}

/// The pass that the table holds for a kind pair.
pub open spec fn pass_for(table: Map<(u64, u64), u64>, config: u64, target: u64) -> Option<u64> {
    if table.contains_key((config, target)) {
        Some(table[(config, target)])
    } else {
        None
    }
}

/// The table after registering `pass` for a kind pair.
pub open spec fn with_pass(table: Map<(u64, u64), u64>, config: u64, target: u64, pass: u64) -> Map<
    (u64, u64),
    u64,
> {
    table.insert((config, target), pass)
}

/// The position of the first of the first `n` configurations that has no
/// pass for target kind `tk`.
pub open spec fn first_unmatched<P>(
    table: Map<(u64, u64), u64>,
    tk: u64,
    passes: Seq<PassDescription<P>>,
    n: nat,
) -> Option<nat>
    decreases n,
{
    if n == 0 {
        None
    } else {
        match first_unmatched(table, tk, passes, (n - 1) as nat) {
            Some(i) => Some(i),
            None => if table.contains_key((passes[n - 1].kind, tk)) {
                None
            } else {
                Some((n - 1) as nat)
            },
        }
    }
}

/// The dispatches of the first `k` configurations of layer `li`.
pub open spec fn layer_dispatches<P>(
    table: Map<(u64, u64), u64>,
    tk: u64,
    li: nat,
    passes: Seq<PassDescription<P>>,
    k: nat,
) -> Seq<Dispatch> {
    Seq::new(
        k,
        |i: int| Dispatch { pass: table[(passes[i].kind, tk)], layer: li as usize, index: i as usize },
    )
}

/// What playing the first `n` layers yields: the dispatches made, in order,
/// and the fault that stopped the walk, if any.
pub open spec fn frame_plan<G, P>(
    table: Map<(u64, u64), u64>,
    targets: Map<Seq<char>, Target<G>>,
    layers: Seq<Layer<P>>,
    n: nat,
) -> (Seq<Dispatch>, Option<Fault>)
    decreases n,
{
    if n == 0 {
        (Seq::empty(), None)
    } else {
        let prev = frame_plan(table, targets, layers, (n - 1) as nat);
        let l = layers[n - 1];
        if prev.1 is Some {
            prev
        } else if !targets.contains_key(l.target@) {
            (prev.0, Some(Fault::MissingTarget { layer: (n - 1) as usize }))
        } else {
            let tk = targets[l.target@].kind;
            match first_unmatched(table, tk, l.passes@, l.passes@.len()) {
                Some(i) => (
                    prev.0 + layer_dispatches(table, tk, (n - 1) as nat, l.passes@, i),
                    Some(Fault::UnmatchedPass { layer: (n - 1) as usize, index: i as usize }),
                ),
                None => (
                    prev.0 + layer_dispatches(table, tk, (n - 1) as nat, l.passes@, l.passes@.len()),
                    None,
                ),
            }
        }
    }
}

/// What submitting `frame` against `table` yields.
pub open spec fn plan<S, C, G, P>(table: Map<(u64, u64), u64>, frame: &Frame<S, C, G, P>) -> (
    Seq<Dispatch>,
    Option<Fault>,
) {
    frame_plan(table, frame.targets@, frame.layers@, frame.layers@.len())
}

/// The layer that a fault belongs to.
pub open spec fn fault_layer(f: Fault) -> usize {
    match f {
        Fault::MissingTarget { layer } => layer,
        Fault::UnmatchedPass { layer, .. } => layer,
    }
}

/// The error carries the names of what failed.
pub open spec fn describes<S, C, G, P>(e: SubmitError, frame: &Frame<S, C, G, P>) -> bool {
    &&& e.target@ == frame.layers@[fault_layer(e.fault) as int].target@
    &&& match e.fault {
        Fault::MissingTarget { .. } => e.config@ == Seq::<char>::empty(),
        Fault::UnmatchedPass { layer, index } => e.config@
            == frame.layers@[layer as int].passes@[index as int].label@,
    }
}

proof fn lemma_first_unmatched_stable<P>(
    table: Map<(u64, u64), u64>,
    tk: u64,
    passes: Seq<PassDescription<P>>,
    n: nat,
    m: nat,
)
    requires
        n <= m,
        first_unmatched(table, tk, passes, n) is Some,
    ensures
        first_unmatched(table, tk, passes, m) == first_unmatched(table, tk, passes, n),
    decreases m,
{
    if n < m {
        lemma_first_unmatched_stable(table, tk, passes, n, (m - 1) as nat);
    }
}

proof fn lemma_plan_stable<G, P>(
    table: Map<(u64, u64), u64>,
    targets: Map<Seq<char>, Target<G>>,
    layers: Seq<Layer<P>>,
    n: nat,
    m: nat,
)
    requires
        n <= m,
        frame_plan(table, targets, layers, n).1 is Some,
    ensures
        frame_plan(table, targets, layers, m) == frame_plan(table, targets, layers, n),
    decreases m,
{
    if n < m {
        lemma_plan_stable(table, targets, layers, n, (m - 1) as nat);
    }
}

/// The pass table of one renderer.
pub struct Renderer {
    passes: Vec<((u64, u64), u64)>,
}

impl Renderer {
    /// One pass per kind pair.
    pub closed spec fn wf(&self) -> bool {
        keys_unique(self.passes@)
    }

    /// The registered passes, by (configuration kind, target kind).
    pub closed spec fn table(&self) -> Map<(u64, u64), u64> {
        to_map(self.passes@)
    }

    /// A renderer with no passes.
    pub fn new() -> (r: Renderer)
        ensures
            r.wf(),
            r.table() == Map::<(u64, u64), u64>::empty(),
    {
        Renderer { passes: Vec::new() }
    }

    fn find(&self, config: u64, target: u64) -> (r: Option<usize>)
        ensures
            match r {
                Some(i) => i < self.passes@.len() && self.passes@[i as int].0 == (config, target),
                None => forall|i: int|
                    0 <= i < self.passes@.len() ==> #[trigger] self.passes@[i].0 != (config, target),
            },
    {
        let mut i: usize = 0;
        while i < self.passes.len()
            invariant
                0 <= i <= self.passes.len(),
                forall|j: int| 0 <= j < i ==> #[trigger] self.passes@[j].0 != (config, target),
            decreases self.passes.len() - i,
        {
            let key = self.passes[i].0;
            if key.0 == config && key.1 == target {
                return Some(i);
            }
            i = i + 1;
        }
        None
    }

    /// Registers `pass` for configurations of kind `config` on targets of
    /// kind `target`, replacing a pass registered earlier for that pair.
    pub fn add_pass(&mut self, config: u64, target: u64, pass: u64)
        requires
            old(self).wf(),
        ensures
            final(self).wf(),
            final(self).table() == with_pass(old(self).table(), config, target, pass),
    {
        match self.find(config, target) {
            Some(i) => {
                proof {
                    lemma_update(self.passes@, i as int, pass);
                }
                self.passes.set(i, ((config, target), pass));
            },
            None => {
                proof {
                    lemma_push(self.passes@, (config, target), pass);
                }
                self.passes.push(((config, target), pass));
            },
        }
    }

    /// Registers every pass that the engine ships.
    pub fn load_all(&mut self)
        requires
            old(self).wf(),
        ensures
            final(self).wf(),
            final(self).table() == with_known_passes(old(self).table()),
    {
        self.add_pass(CLEAR_TARGET, COLOR_BUFFER, FORWARD_CLEAR);
        self.add_pass(DRAW_NO_SHADING, COLOR_BUFFER, FORWARD_DRAW_NO_SHADING);
        self.add_pass(WIREFRAME, COLOR_BUFFER, FORWARD_WIREFRAME);
        self.add_pass(CLEAR_TARGET, GEOMETRY_BUFFER, DEFERRED_CLEAR);
        self.add_pass(DRAW_SHADED, GEOMETRY_BUFFER, DEFERRED_DRAW);
        self.add_pass(BLIT_LAYER, COLOR_BUFFER, DEFERRED_BLIT_LAYER);
        self.add_pass(LIGHTING, COLOR_BUFFER, DEFERRED_LIGHTING);
    }

    /// The pass registered for a kind pair, if any.
    pub fn lookup(&self, config: u64, target: u64) -> (r: Option<u64>)
        requires
            self.wf(),
        ensures
            r == pass_for(self.table(), config, target),
    {
        match self.find(config, target) {
            Some(i) => {
                proof {
                    lemma_present(self.passes@, i as int);
                }
                Some(self.passes[i].1)
            },
            None => {
                proof {
                    lemma_absent(self.passes@, (config, target));
                }
                None
            },
        }
    }
    /// Plays the frame: layer by layer in order, each configuration of a
    /// layer in order, dispatches the pass registered for the configuration's
    /// kind and the kind of the layer's target. When every layer's target is
    /// present and every configuration matched, hands back those dispatches,
    /// and only those, to run and flush. Otherwise stops at the first layer
    /// whose target is missing or the first unmatched configuration; the
    /// error holds the dispatches before that point, to run unflushed.
    pub fn submit<S, C, G, P>(&self, frame: &Frame<S, C, G, P>) -> (r: Result<Vec<Dispatch>, SubmitError>)
        requires
            self.wf(),
            frame.wf(),
        ensures
            match r {
                Ok(batch) => {
                    &&& plan(self.table(), frame).1 is None
                    &&& batch@ == plan(self.table(), frame).0
                },
                Err(e) => {
                    &&& plan(self.table(), frame).1 == Some(e.fault)
                    &&& e.done@ == plan(self.table(), frame).0
                    &&& describes(e, frame)
                },
            },
    {
        let ghost table = self.table();
        let ghost targets = frame.targets@;
        let ghost layers = frame.layers@;
        let mut batch: Vec<Dispatch> = Vec::new();
        let mut li: usize = 0;
        while li < frame.layers.len()
            invariant
                self.wf(),
                frame.wf(),
                self.table() == table,
                targets == frame.targets@,
                layers == frame.layers@,
                0 <= li <= layers.len(),
                frame_plan(table, targets, layers, li as nat).1 is None,
                batch@ == frame_plan(table, targets, layers, li as nat).0,
            decreases layers.len() - li,
        {
            let layer = &frame.layers[li];
            match frame.target(&layer.target) {
                None => {
                    proof {
                        lemma_plan_stable(table, targets, layers, (li + 1) as nat, layers.len());
                    }
                    return Err(
                        SubmitError {
                            fault: Fault::MissingTarget { layer: li },
                            target: layer.target.clone(),
                            config: String::new(),
                            done: batch,
                        },
                    );
                },
                Some(target) => {
                    let ghost prefix = batch@;
                    let ghost passes = layer.passes@;
                    let tk = target.kind;
                    let mut pi: usize = 0;
                    while pi < layer.passes.len()
                        invariant
                            self.wf(),
                            self.table() == table,
                            frame.wf(),
                            targets == frame.targets@,
                            layers == frame.layers@,
                            li < layers.len(),
                            *layer == layers[li as int],
                            passes == layer.passes@,
                            targets.contains_key(layer.target@),
                            tk == targets[layer.target@].kind,
                            frame_plan(table, targets, layers, li as nat).1 is None,
                            prefix == frame_plan(table, targets, layers, li as nat).0,
                            0 <= pi <= passes.len(),
                            first_unmatched(table, tk, passes, pi as nat) is None,
                            batch@ == prefix + layer_dispatches(table, tk, li as nat, passes, pi as nat),
                        decreases passes.len() - pi,
                    {
                        let desc = &layer.passes[pi];
                        match self.lookup(desc.kind, tk) {
                            Some(p) => {
                                let d = Dispatch { pass: p, layer: li, index: pi };
                                batch.push(d);
                                assert(layer_dispatches(table, tk, li as nat, passes, (pi + 1) as nat)
                                    =~= layer_dispatches(table, tk, li as nat, passes, pi as nat).push(d));
                                assert(batch@ =~= prefix + layer_dispatches(
                                    table,
                                    tk,
                                    li as nat,
                                    passes,
                                    (pi + 1) as nat,
                                ));
                            },
                            None => {
                                proof {
                                    lemma_first_unmatched_stable(
                                        table,
                                        tk,
                                        passes,
                                        (pi + 1) as nat,
                                        passes.len(),
                                    );
                                    assert(frame_plan(table, targets, layers, (li + 1) as nat).1
                                        is Some);
                                    lemma_plan_stable(
                                        table,
                                        targets,
                                        layers,
                                        (li + 1) as nat,
                                        layers.len(),
                                    );
                                    assert(batch@ =~= frame_plan(
                                        table,
                                        targets,
                                        layers,
                                        (li + 1) as nat,
                                    ).0);
                                }
                                return Err(
                                    SubmitError {
                                        fault: Fault::UnmatchedPass { layer: li, index: pi },
                                        target: layer.target.clone(),
                                        config: desc.label.clone(),
                                        done: batch,
                                    },
                                );
                            },
                        }
                        pi = pi + 1;
                    }
                    assert(batch@ =~= frame_plan(table, targets, layers, (li + 1) as nat).0);
                },
            }
            li = li + 1;
        }
        Ok(batch)
    }
}

} // verus!
