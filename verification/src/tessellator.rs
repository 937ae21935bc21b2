//! The tessellator: a scene, and the walks over it.

use vstd::prelude::*;

use crate::driver::{begin, Step};
use crate::scene::Scene;
use crate::walk::{start, MAX_NODES};

verus! {

/// What a tessellator holds once it is initialised: the scene.
#[derive(Clone)]
pub struct LyonState {
    scene: Scene,
}

impl LyonState {
    pub closed spec fn scene(&self) -> Scene {
        self.scene
    }
}

/// Tessellates a scene. It is made empty, given its scene by `init`, and
/// then walks over that scene as often as `tessellate` is called.
pub struct LyonTessellator {
    state: Option<LyonState>,
}

impl LyonTessellator {
    /// The scene of the tessellator, once it has one.
    pub closed spec fn scene(&self) -> Option<Scene> {
        match self.state {
            Some(state) => Some(state.scene),
            None => None,
        }
    }

    /// The tessellator has a scene, and one that a walk can index.
    pub open spec fn ready(&self) -> bool {
        self.scene() matches Some(scene) && scene.nodes@.len() <= MAX_NODES
    }

    /// A tessellator without a scene.
    pub fn new() -> (t: LyonTessellator)
        ensures
            t.scene() is None,
    {
        Self { state: None }
    }

    /// Gives the tessellator its scene, in place of the one it had.
    pub fn init(&mut self, scene: Scene)
        ensures
            final(self).scene() == Some(scene),
    {
        let state = LyonState { scene };
        self.state = Some(state);
    }

    /// Whether `tessellate` may be called.
    pub fn is_ready(&self) -> (b: bool)
        ensures
            b == self.ready(),
    {
        match &self.state {
            Some(state) => state.scene.nodes.len() <= MAX_NODES,
            None => false,
        }
    }

    /// Starts a walk over the scene: the first pass to run, or the finished
    /// mesh where the scene has no pass at all. Every pass is answered to
    /// `Walk::resume`, which gives the next step.
    pub fn tessellate(&self) -> (step: Step<'_>)
        requires
            self.ready(),
        ensures
            step@ == start(self.scene()->Some_0.nodes@),
            step.wf(self.scene()->Some_0.nodes@),
    {
        let state = self.state.as_ref().unwrap();
        begin(&state.scene.nodes)
    }
}

} // verus!
