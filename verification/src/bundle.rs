//! Frame bundle assembler: composes the aggregated buffers with the current
//! pipeline, viewport state and per-frame bindings into the render-ready
//! bundle handed to the presentation layer. Pure composition, rebuilt every
//! frame; only the camera-dependent binding set has a fast replacement path
//! that leaves the vertex and index buffers untouched.

use vstd::prelude::*;
use crate::aggregate::{AggregatedBuffer, AggBufferView};

verus! {

/// Words in the camera uniform: three 4x4 matrices (projection, view,
/// world) of one 32-bit word per element.
pub const CAMERA_UNIFORM_WORDS: usize = 48;

/// One descriptor binding set, as the opaque 32-bit resource words the
/// presentation layer turns into a real descriptor set.
#[derive(Debug)]
pub struct BindingSet {
    pub words: Vec<u32>,
}

impl View for BindingSet {
    type V = Seq<u32>;

    open spec fn view(&self) -> Seq<u32> {
        self.words@
    }
}

impl BindingSet {
    /// A structural copy with the same words.
    pub fn duplicate(&self) -> (r: BindingSet)
        ensures
            r@ == self@,
    {
        let mut words: Vec<u32> = Vec::new();
        let mut k: usize = 0;
        while k < self.words.len()
            invariant
                k <= self.words@.len(),
                words@ == self.words@.take(k as int),
            decreases self.words@.len() - k,
        {
            words.push(self.words[k]);
            proof {
                assert(self.words@.take(k as int + 1) =~= self.words@.take(k as int).push(
                    self.words@[k as int],
                ));
            }
            k += 1;
        }
        proof {
            assert(words@ =~= self.words@);
        }
        BindingSet { words }
    }
}

/// Viewport dimensions the dynamic state is derived from.
#[derive(Clone, Copy, Debug, PartialEq, Eq, Structural)]
pub struct Viewport {
    pub width: u32,
    pub height: u32,
}

/// What can go wrong while composing a frame. A frame without valid
/// bindings cannot be drawn, so this surfaces to the caller instead of
/// being recovered.
#[derive(Clone, Copy, Debug, PartialEq, Eq, Structural)]
pub enum RenderError {
    /// A per-frame binding set could not be constructed (the camera uniform
    /// does not hold exactly the words of the three matrices).
    ResourceBindingFailure,
}

/// The complete render-ready state for one frame's draw submission:
/// pipeline handle, viewport state, the aggregated vertex/index buffer
/// pair, and the ordered binding sets (atlas first, camera second). The
/// per-draw constant slot of the cube family is empty.
#[derive(Debug)]
pub struct FrameBundle {
    pub pipeline: u64,
    pub viewport: Viewport,
    pub buffer: AggregatedBuffer,
    pub bindings: Vec<BindingSet>,
}

/// Mathematical model of a frame bundle.
pub ghost struct FrameBundleView {
    pub pipeline: u64,
    pub viewport: Viewport,
    pub buffer: AggBufferView,
    pub bindings: Seq<Seq<u32>>,
}

impl View for FrameBundle {
    type V = FrameBundleView;

    open spec fn view(&self) -> FrameBundleView {
        FrameBundleView {
            pipeline: self.pipeline,
            viewport: self.viewport,
            buffer: self.buffer@,
            bindings: self.bindings@.map_values(|b: BindingSet| b@),
        }
    }
}

impl FrameBundle {
    /// A drawable bundle holds the atlas binding and a full camera uniform.
    pub open spec fn wf(self) -> bool {
        &&& self@.bindings.len() == 2
        &&& self@.bindings[1].len() == CAMERA_UNIFORM_WORDS
    }

    /// A structural copy whose model equals the original's: same pipeline,
    /// viewport, buffer (generation included) and binding words.
    pub fn duplicate(&self) -> (r: FrameBundle)
        ensures
            r@ == self@,
    {
        let mut bindings: Vec<BindingSet> = Vec::new();
        let mut k: usize = 0;
        while k < self.bindings.len()
            invariant
                k <= self.bindings@.len(),
                bindings@.len() == k,
                forall|j: int|
                    0 <= j < k ==> (#[trigger] bindings@[j])@ == self.bindings@[j]@,
            decreases self.bindings@.len() - k,
        {
            bindings.push(self.bindings[k].duplicate());
            k += 1;
        }
        proof {
            assert(bindings@.map_values(|b: BindingSet| b@) =~= self.bindings@.map_values(
                |b: BindingSet| b@,
            )) by {
                assert forall|j: int|
                    #![trigger bindings@[j]]
                    0 <= j < bindings@.len() implies bindings@.map_values(|b: BindingSet| b@)[j]
                    == self.bindings@.map_values(|b: BindingSet| b@)[j] by {
                    assert(bindings@[j]@ == self.bindings@[j]@);
                }
            }
        }
        FrameBundle {
            pipeline: self.pipeline,
            viewport: self.viewport,
            buffer: self.buffer.duplicate(),
            bindings,
        }
    }

    /// Replaces only the camera-dependent binding set: the fast per-frame
    /// path. The pipeline, viewport, vertex/index buffers and the atlas
    /// binding are left exactly as they were; fails without touching
    /// anything when the camera uniform is malformed.
    pub fn update_camera(&mut self, camera: &BindingSet) -> (r: Result<(), RenderError>)
        requires
            old(self).wf(),
        ensures
            match r {
                Ok(()) => {
                    &&& camera@.len() == CAMERA_UNIFORM_WORDS
                    &&& final(self)@.bindings == seq![old(self)@.bindings[0], camera@]
                    &&& final(self)@.pipeline == old(self)@.pipeline
                    &&& final(self)@.viewport == old(self)@.viewport
                    &&& final(self)@.buffer == old(self)@.buffer
                    &&& final(self).wf()
                },
                Err(e) => {
                    &&& e == RenderError::ResourceBindingFailure
                    &&& camera@.len() != CAMERA_UNIFORM_WORDS
                    &&& final(self)@ == old(self)@
                },
            },
    {
        if camera.words.len() != CAMERA_UNIFORM_WORDS {
            return Err(RenderError::ResourceBindingFailure);
        }
        let fresh = camera.duplicate();
        self.bindings.pop();
        self.bindings.push(fresh);
        proof {
            assert(self@.bindings =~= seq![old(self)@.bindings[0], camera@]);
        }
        Ok(())
    }
}

/// Composes the render bundle for one frame from the current pipeline,
/// viewport, aggregated buffer and bindings. Succeeds exactly when the
/// camera uniform holds its full word count; the buffers and bindings are
/// carried over verbatim.
pub fn assemble(
    pipeline: u64,
    viewport: Viewport,
    aggregated: &AggregatedBuffer,
    texture_binding: &BindingSet,
    camera_binding: &BindingSet,
) -> (r: Result<FrameBundle, RenderError>)
    ensures
        match r {
            Ok(b) => {
                &&& camera_binding@.len() == CAMERA_UNIFORM_WORDS
                &&& b@.pipeline == pipeline
                &&& b@.viewport == viewport
                &&& b@.buffer == aggregated@
                &&& b@.bindings == seq![texture_binding@, camera_binding@]
                &&& b.wf()
            },
            Err(e) => {
                &&& e == RenderError::ResourceBindingFailure
                &&& camera_binding@.len() != CAMERA_UNIFORM_WORDS
            },
        },
{
    if camera_binding.words.len() != CAMERA_UNIFORM_WORDS {
        return Err(RenderError::ResourceBindingFailure);
    }
    let mut bindings: Vec<BindingSet> = Vec::new();
    bindings.push(texture_binding.duplicate());
    bindings.push(camera_binding.duplicate());
    let b = FrameBundle { pipeline, viewport, buffer: aggregated.duplicate(), bindings };
    proof {
        assert(b@.bindings =~= seq![texture_binding@, camera_binding@]);
    }
    Ok(b)
}

} // verus!
