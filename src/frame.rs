//! The job description of one submission: ordered layers of pass
//! configurations, each aimed at a target that the frame holds by name.

use vstd::prelude::*;
use crate::names::NameMap;

verus! {

/// A pass configuration: the kind that selects its pass, a description
/// used when no pass is found for it, and the parameters that its pass reads
/// (a shader variant, a subpass).
pub struct PassDescription<P> {
    pub kind: u64,
    pub label: String,
    pub params: P,
}

impl<P> PassDescription<P> {
    pub fn new(kind: u64, label: String, params: P) -> (r: PassDescription<P>)
        ensures
            r.kind == kind,
            r.label == label,
            r.params == params,
    {
        PassDescription { kind, label, params }
    }
}

/// A render destination: the resource that passes draw into, and the kind
/// by which the dispatch picks a pass for it.
#[derive(Clone, PartialEq, Eq, Debug)]
pub struct Target<G> {
    pub kind: u64,
    pub resource: G,
}

impl<G> Target<G> {
    pub fn new(kind: u64, resource: G) -> (r: Target<G>)
        ensures
            r.kind == kind,
            r.resource == resource,
    {
        Target { kind, resource }
    }
}

/// Pass configurations to run, in order, against the target named `target`.
pub struct Layer<P> {
    pub target: String,
    pub passes: Vec<PassDescription<P>>,
}

impl<P> Layer<P> {
    pub fn new(target: String, passes: Vec<PassDescription<P>>) -> (r: Layer<P>)
        ensures
            r.target == target,
            r.passes == passes,
    {
        Layer { target, passes }
    }
}

/// The render job submission: layers in execution order, and the targets,
/// scenes and cameras that passes may look up by name.
pub struct Frame<S, C, G, P> {
    pub layers: Vec<Layer<P>>,
    pub targets: NameMap<Target<G>>,
    pub scenes: NameMap<S>,
    pub cameras: NameMap<C>,
}

impl<S, C, G, P> Frame<S, C, G, P> {
    pub open spec fn wf(&self) -> bool {
        &&& self.targets.wf()
        &&& self.scenes.wf()
        &&& self.cameras.wf()
    }

    /// An empty frame.
    pub fn new() -> (r: Self)
        ensures
            r.wf(),
            r.layers@.len() == 0,
            r.targets@ == Map::<Seq<char>, Target<G>>::empty(),
            r.scenes@ == Map::<Seq<char>, S>::empty(),
            r.cameras@ == Map::<Seq<char>, C>::empty(),
    {
        Frame {
            layers: Vec::new(),
            targets: NameMap::new(),
            scenes: NameMap::new(),
            cameras: NameMap::new(),
        }
    }

    /// Appends a layer after those already present.
    pub fn add_layer(&mut self, layer: Layer<P>)
        ensures
            final(self).layers@ == old(self).layers@.push(layer),
            final(self).targets == old(self).targets,
            final(self).scenes == old(self).scenes,
            final(self).cameras == old(self).cameras,
    {
        self.layers.push(layer);
    }

    /// Stores a target under `name`, replacing one of the same name.
    pub fn add_target(&mut self, name: String, target: Target<G>)
        requires
            old(self).wf(),
        ensures
            final(self).wf(),
            final(self).targets@ == old(self).targets@.insert(name@, target),
            final(self).layers == old(self).layers,
            final(self).scenes == old(self).scenes,
            final(self).cameras == old(self).cameras,
    {
        self.targets.insert(name, target);
    }

    /// Stores a scene under `name`, replacing one of the same name.
    pub fn add_scene(&mut self, name: String, scene: S)
        requires
            old(self).wf(),
        ensures
            final(self).wf(),
            final(self).scenes@ == old(self).scenes@.insert(name@, scene),
            final(self).layers == old(self).layers,
            final(self).targets == old(self).targets,
            final(self).cameras == old(self).cameras,
    {
        self.scenes.insert(name, scene);
    }

    /// Stores a camera under `name`, replacing one of the same name.
    pub fn add_camera(&mut self, name: String, camera: C)
        requires
            old(self).wf(),
        ensures
            final(self).wf(),
            final(self).cameras@ == old(self).cameras@.insert(name@, camera),
            final(self).layers == old(self).layers,
            final(self).targets == old(self).targets,
            final(self).scenes == old(self).scenes,
    {
        self.cameras.insert(name, camera);
    }

    /// The target stored under `name`.
    pub fn target(&self, name: &String) -> (r: Option<&Target<G>>)
        requires
            self.wf(),
        ensures
            match r {
                Some(t) => self.targets@.contains_key(name@) && *t == self.targets@[name@],
                None => !self.targets@.contains_key(name@),
            },
    {
        self.targets.get(name)
    }

    /// The scene stored under `name`.
    pub fn scene(&self, name: &String) -> (r: Option<&S>)
        requires
            self.wf(),
        ensures
            match r {
                Some(s) => self.scenes@.contains_key(name@) && *s == self.scenes@[name@],
                None => !self.scenes@.contains_key(name@),
            },
    {
        self.scenes.get(name)
    }

    /// The camera stored under `name`.
    pub fn camera(&self, name: &String) -> (r: Option<&C>)
        requires
            self.wf(),
        ensures
            match r {
                Some(c) => self.cameras@.contains_key(name@) && *c == self.cameras@[name@],
                None => !self.cameras@.contains_key(name@),
            },
    {
        self.cameras.get(name)
    }
}

} // verus!
