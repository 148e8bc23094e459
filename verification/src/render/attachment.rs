//! When the render pass's depth and multisample attachments must be
//! recreated, and which ones the pass needs.

use vstd::prelude::*;
use vstd::std_specs::cmp::PartialEqSpec;

use super::pipeline::pass::{DepthFormat, PassConfig};
use super::pipeline::registry::{configs_equal, same_config};

verus! {

/// The attachments a pass configuration needs besides the surface.
#[derive(Clone, Copy, Debug, PartialEq, Eq, Structural)]
pub struct AttachmentPlan {
    /// A depth texture of this format, when the pass has depth.
    pub depth: Option<DepthFormat>,
    /// Whether pipelines may sample the depth texture: only when it is
    /// attached read-only and not multisampled.
    pub depth_sampled: bool,
    /// A multisampled colour texture that resolves to the surface, when
    /// the pass samples more than once per pixel.
    pub msaa: bool,
}

/// The attachments `config` needs.
pub open spec fn plan_for<C>(config: PassConfig<C>) -> AttachmentPlan {
    AttachmentPlan {
        depth: config.depth_format,
        depth_sampled: config.depth_format is Some && config.depth_read_only && config.sample_count == 1,
        msaa: config.sample_count > 1,
    }
}

/// A size with both sides at least 1.
pub open spec fn clamped_size(size: (u32, u32)) -> (u32, u32) {
    (if size.0 >= 1 { size.0 } else { 1 }, if size.1 >= 1 { size.1 } else { 1 })
}

/// What the current attachments were made for: target size, pass
/// generation and pass configuration.
pub struct Attachments<C> {
    size: (u32, u32),
    generation: u32,
    config: Option<PassConfig<C>>,
}

impl<C: Copy + PartialEq> Attachments<C> {
    pub closed spec fn size(&self) -> (u32, u32) {
        self.size
    }

    pub closed spec fn generation(&self) -> u32 {
        self.generation
    }

    pub closed spec fn config(&self) -> Option<PassConfig<C>> {
        self.config
    }

    /// Made for nothing yet.
    pub fn new() -> (r: Self)
        ensures
            r.size() == (0u32, 0u32),
            r.generation() == u32::MAX,
            r.config().is_none(),
    {
        Attachments { size: (0, 0), generation: u32::MAX, config: None }
    }

    /// Idempotent: the attachments to create for a `size` target (sides
    /// clamped to at least 1) and pass `config` of generation `generation`,
    /// or `None` when the current ones were made for exactly that.
    pub fn ensure(&mut self, size: (u32, u32), config: PassConfig<C>, generation: u32) -> (r: Option<AttachmentPlan>)
        ensures
            C::obeys_eq_spec() ==> (r is None <==> {
                &&& old(self).size() == clamped_size(size)
                &&& old(self).generation() == generation
                &&& old(self).config() matches Some(c) && same_config(c, config)
            }),
            r is None ==> {
                &&& old(self).size() == clamped_size(size)
                &&& old(self).generation() == generation
                &&& old(self).config() is Some
                &&& final(self).size() == old(self).size()
                &&& final(self).generation() == old(self).generation()
                &&& final(self).config() == old(self).config()
            },
            r is Some ==> {
                &&& r == Some(plan_for(config))
                &&& final(self).size() == clamped_size(size)
                &&& final(self).generation() == generation
                &&& final(self).config() == Some(config)
            },
    {
        let w = if size.0 >= 1 { size.0 } else { 1 };
        let h = if size.1 >= 1 { size.1 } else { 1 };
        let same = match &self.config {
            Some(c) => self.size.0 == w && self.size.1 == h && self.generation == generation && configs_equal(c, &config),
            None => false,
        };
        if same {
            return None;
        }
        self.size = (w, h);
        self.generation = generation;
        self.config = Some(config);
        Some(AttachmentPlan {
            depth: config.depth_format,
            depth_sampled: config.depth_format.is_some() && config.depth_read_only && config.sample_count == 1,
            msaa: config.sample_count > 1,
        })
    }
}

} // verus!
