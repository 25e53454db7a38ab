//! A renderable world: drawable fragments and lights, read by passes.

use vstd::prelude::*;

verus! {

/// The fragments and lights that passes draw; what a fragment or a light
/// holds is up to the backend that draws it.
pub struct Scene<F, L> {
    pub fragments: Vec<F>,
    pub lights: Vec<L>,
}

impl<F, L> Scene<F, L> {
    /// An empty scene.
    pub fn new() -> (r: Self)
        ensures
            r.fragments@.len() == 0,
            r.lights@.len() == 0,
    {
        Scene { fragments: Vec::new(), lights: Vec::new() }
    }
}

} // verus!
