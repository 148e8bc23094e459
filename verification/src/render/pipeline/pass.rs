//! What pipelines need from the shared render pass, and how their needs
//! merge into one pass description.

use vstd::prelude::*;
use vstd::string::StringExecFns;

verus! {

/// How a pipeline uses the depth attachment. Ordered: merging takes the max.
#[derive(Clone, Copy, Debug, PartialEq, Eq, Structural)]
pub enum DepthUse {
    /// No depth attachment needed.
    Unused,
    /// Test against depth but never write it. The engine can then attach depth
    /// read-only, which is what makes the depth texture legal to *sample* in
    /// the same pass.
    Read,
    /// Test and write.
    Write,
}

/// Position of a depth use in the order `None < Read < Write`.
pub open spec fn depth_rank(d: DepthUse) -> int {
    match d {
        DepthUse::Unused => 0,
        DepthUse::Read => 1,
        DepthUse::Write => 2,
    }
}

/// The stronger of two depth uses.
pub open spec fn depth_max(a: DepthUse, b: DepthUse) -> DepthUse {
    if depth_rank(a) >= depth_rank(b) {
        a
    } else {
        b
    }
}

impl Default for DepthUse {
    fn default() -> (r: Self)
        ensures
            r == DepthUse::Unused,
    {
        DepthUse::Unused
    }
}

impl DepthUse {
    /// The stronger of `self` and `other`.
    pub fn max(self, other: DepthUse) -> (r: DepthUse)
        ensures
            r == depth_max(self, other),
    {
        let a: u8 = match self {
            DepthUse::Unused => 0,
            DepthUse::Read => 1,
            DepthUse::Write => 2,
        };
        let b: u8 = match other {
            DepthUse::Unused => 0,
            DepthUse::Read => 1,
            DepthUse::Write => 2,
        };
        if a >= b {
            self
        } else {
            other
        }
    }
}

/// The depth(-stencil) texture formats a pass can attach.
#[derive(Clone, Copy, Debug, PartialEq, Eq, Structural)]
pub enum DepthFormat {
    Stencil8,
    Depth16Unorm,
    Depth24Plus,
    Depth24PlusStencil8,
    Depth32Float,
    Depth32FloatStencil8,
}

impl DepthFormat {
    /// The format's name as `{:?}` prints it.
    pub open spec fn debug_name(self) -> Seq<char> {
        match self {
            DepthFormat::Stencil8 => "Stencil8"@,
            DepthFormat::Depth16Unorm => "Depth16Unorm"@,
            DepthFormat::Depth24Plus => "Depth24Plus"@,
            DepthFormat::Depth24PlusStencil8 => "Depth24PlusStencil8"@,
            DepthFormat::Depth32Float => "Depth32Float"@,
            DepthFormat::Depth32FloatStencil8 => "Depth32FloatStencil8"@,
        }
    }

    /// The format's name as `{:?}` prints it.
    pub fn name(&self) -> (r: &'static str)
        ensures
            r@ == self.debug_name(),
    {
        match self {
            DepthFormat::Stencil8 => "Stencil8",
            DepthFormat::Depth16Unorm => "Depth16Unorm",
            DepthFormat::Depth24Plus => "Depth24Plus",
            DepthFormat::Depth24PlusStencil8 => "Depth24PlusStencil8",
            DepthFormat::Depth32Float => "Depth32Float",
            DepthFormat::Depth32FloatStencil8 => "Depth32FloatStencil8",
        }
    }
}

/// What a pipeline needs from the shared render pass. Must be a pure
/// function of the pipeline *type*: it is queried before any instance
/// exists.
#[derive(Clone, Copy, Debug, PartialEq, Eq, Structural)]
pub struct PassRequirements {
    pub depth: DepthUse,
    /// Request an independent depth range per batch. Ignored when
    /// `depth == DepthUse::Unused`.
    pub isolate_depth: bool,
    pub stencil: bool,
    /// Minimum sample count. `0` or `1` means "don't care".
    pub sample_count: u32,
    /// Preferred depth format. `None` lets the engine choose. Two pipelines
    /// naming *different* formats is a configuration error.
    pub depth_format: Option<DepthFormat>,
}

/// Two pipelines required incompatible things of the shared pass.
#[derive(Clone, Copy, Debug, PartialEq, Eq, Structural)]
pub enum PassConflict {
    DepthFormat(DepthFormat, DepthFormat),
}

/// The text of a conflict: both formats by name, and what to do about it.
pub open spec fn conflict_message(c: PassConflict) -> Seq<char> {
    match c {
        PassConflict::DepthFormat(a, b) => "two pipelines require incompatible depth formats ("@
            + a.debug_name() + " and "@ + b.debug_name()
            + "); leave `depth_format: None` on one of them to accept the engine's choice"@,
    }
}

impl PassConflict {
    /// Human-readable description of the conflict.
    pub fn message(&self) -> (r: String)
        ensures
            r@ == conflict_message(*self),
    {
        match self {
            PassConflict::DepthFormat(a, b) => {
                let mut s = String::from_str("two pipelines require incompatible depth formats (");
                s.append(a.name());
                s.append(" and ");
                s.append(b.name());
                s.append("); leave `depth_format: None` on one of them to accept the engine's choice");
                s
            },
        }
    }
}

/// Merging two requirement sets: the stronger depth use, either flag, the
/// larger sample count, and whichever depth format is named, unless both
/// name different formats.
pub open spec fn merged(a: PassRequirements, b: PassRequirements) -> Result<PassRequirements, PassConflict> {
    match (a.depth_format, b.depth_format) {
        (Some(fa), Some(fb)) if fa != fb => Err(PassConflict::DepthFormat(fa, fb)),
        _ => Ok(
            PassRequirements {
                depth: depth_max(a.depth, b.depth),
                isolate_depth: a.isolate_depth || b.isolate_depth,
                stencil: a.stencil || b.stencil,
                sample_count: if a.sample_count >= b.sample_count { a.sample_count } else { b.sample_count },
                depth_format: match a.depth_format {
                    Some(f) => Some(f),
                    None => b.depth_format,
                },
            },
        ),
    }
}

/// The requirements of a pipeline that needs nothing of the pass.
pub open spec fn no_requirements() -> PassRequirements {
    PassRequirements {
        depth: DepthUse::Unused,
        isolate_depth: false,
        stencil: false,
        sample_count: 0,
        depth_format: None,
    }
}

/// Sample counts above 1 that a texture format supports.
#[derive(Clone, Copy, Debug, PartialEq, Eq, Structural)]
pub struct SampleCounts {
    pub x2: bool,
    pub x4: bool,
    pub x8: bool,
}

impl SampleCounts {
    pub open spec fn supports(self, n: u32) -> bool {
        ||| n == 2 && self.x2
        ||| n == 4 && self.x4
        ||| n == 8 && self.x8
    }
}

/// What the adapter supports for the pass's colour format and, when the
/// pass has depth, its depth format.
#[derive(Clone, Copy, Debug, PartialEq, Eq, Structural)]
pub struct SampleSupport {
    pub color: SampleCounts,
    pub depth: Option<SampleCounts>,
}

/// The resolved description of the shared render pass. Every pipeline is
/// built against this, and every attachment is created from it. `C` is the
/// colour format, carried through unread.
#[derive(Clone, Copy, Debug)]
pub struct PassConfig<C> {
    pub color_format: C,
    pub depth_format: Option<DepthFormat>,
    /// True when no registered pipeline writes depth. The pass then attaches
    /// depth read-only, which permits sampling it from within the same pass.
    pub depth_read_only: bool,
    pub sample_count: u32,
}

impl<C> PassConfig<C> {
    pub fn has_depth(&self) -> (r: bool)
        ensures
            r == self.depth_format.is_some(),
    {
        self.depth_format.is_some()
    }

    pub fn is_multisampled(&self) -> (r: bool)
        ensures
            r == (self.sample_count > 1),
    {
        self.sample_count > 1
    }
}

/// The highest of 8, 4, 2 that is at most `want` and supported by both
/// `color` and `depth`, or 1.
pub open spec fn best_sample_count(want: u32, color: SampleCounts, depth: SampleCounts) -> u32 {
    if 8 <= want && color.supports(8) && depth.supports(8) {
        8
    } else if 4 <= want && color.supports(4) && depth.supports(4) {
        4
    } else if 2 <= want && color.supports(2) && depth.supports(2) {
        2
    } else {
        1
    }
}

/// The pass `req` resolves to with colour format `color_format` and the
/// adapter's sample support `support`: depth attached when depth or stencil
/// is needed (the named format, else the default with or without stencil),
/// read-only unless a pipeline writes depth, and the highest of 8, 4, 2 not
/// above the requested sample count that the adapter supports for both
/// attachments (1 when the request does not care or support is unknown).
pub open spec fn resolved<C>(req: PassRequirements, color_format: C, support: Option<SampleSupport>) -> PassConfig<C> {
    PassConfig {
        color_format,
        depth_format: if req.depth == DepthUse::Unused && !req.stencil {
            None
        } else if req.stencil {
            Some(match req.depth_format { Some(f) => f, None => DepthFormat::Depth24PlusStencil8 })
        } else {
            Some(match req.depth_format { Some(f) => f, None => DepthFormat::Depth32Float })
        },
        depth_read_only: req.depth != DepthUse::Write,
        sample_count: match support {
            Some(s) if req.sample_count > 1 => best_sample_count(
                req.sample_count,
                s.color,
                match s.depth { Some(d) => d, None => s.color },
            ),
            _ => 1,
        },
    }
}

impl PassRequirements {
    /// Needs nothing of the pass.
    pub fn none() -> (r: PassRequirements)
        ensures
            r == no_requirements(),
    {
        PassRequirements {
            depth: DepthUse::Unused,
            isolate_depth: false,
            stencil: false,
            sample_count: 0,
            depth_format: None,
        }
    }

    /// Test and write depth, isolated per batch. The right default for any
    /// widget that renders a 3D scene into its own rect.
    pub fn depth() -> (r: PassRequirements)
        ensures
            r == (PassRequirements {
                depth: DepthUse::Write,
                isolate_depth: true,
                stencil: false,
                sample_count: 0,
                depth_format: None,
            }),
    {
        PassRequirements {
            depth: DepthUse::Write,
            isolate_depth: true,
            stencil: false,
            sample_count: 0,
            depth_format: None,
        }
    }

    pub fn with_depth(self, depth: DepthUse) -> (r: Self)
        ensures
            r == (PassRequirements { depth, ..self }),
    {
        PassRequirements { depth, ..self }
    }

    pub fn with_sample_count(self, n: u32) -> (r: Self)
        ensures
            r == (PassRequirements { sample_count: n, ..self }),
    {
        PassRequirements { sample_count: n, ..self }
    }

    pub fn with_stencil(self) -> (r: Self)
        ensures
            r == (PassRequirements { stencil: true, ..self }),
    {
        PassRequirements { stencil: true, ..self }
    }

    /// Fold `other` in. Returns `Err` on a genuine conflict.
    pub fn merge(self, other: Self) -> (r: Result<Self, PassConflict>)
        ensures
            r == merged(self, other),
    {
        if let (Some(a), Some(b)) = (self.depth_format, other.depth_format) {
            if a != b {
                return Err(PassConflict::DepthFormat(a, b));
            }
        }
        Ok(PassRequirements {
            depth: self.depth.max(other.depth),
            isolate_depth: self.isolate_depth || other.isolate_depth,
            stencil: self.stencil || other.stencil,
            sample_count: if self.sample_count >= other.sample_count {
                self.sample_count
            } else {
                other.sample_count
            },
            depth_format: match self.depth_format {
                Some(f) => Some(f),
                None => other.depth_format,
            },
        })
    }

    /// Does satisfying `self` also satisfy `other`? Used to decide whether a
    /// newly registered pipeline forces a rebuild.
    pub fn covers(self, other: Self) -> (r: bool)
        ensures
            r == (merged(self, other) == Ok::<PassRequirements, PassConflict>(self)),
    {
        match self.merge(other) {
            Ok(m) => m == self,
            Err(_) => false,
        }
    }

    /// The depth format the pass attaches: none when no depth and no
    /// stencil is needed, otherwise the named format or the engine default
    /// (with stencil when stencil is needed).
    pub fn depth_format_for_pass(self) -> (r: Option<DepthFormat>)
        ensures
            r == (if self.depth == DepthUse::Unused && !self.stencil {
                None
            } else if self.stencil {
                Some(match self.depth_format { Some(f) => f, None => DepthFormat::Depth24PlusStencil8 })
            } else {
                Some(match self.depth_format { Some(f) => f, None => DepthFormat::Depth32Float })
            }),
    {
        match (self.depth, self.stencil) {
            (DepthUse::Unused, false) => None,
            (_, true) => Some(
                match self.depth_format {
                    Some(f) => f,
                    None => DepthFormat::Depth24PlusStencil8,
                },
            ),
            (_, false) => Some(
                match self.depth_format {
                    Some(f) => f,
                    None => DepthFormat::Depth32Float,
                },
            ),
        }
    }

    /// Turn requirements into the concrete pass description. The sample
    /// count is the highest of 8, 4, 2 not above the request that the
    /// adapter supports for both attachments; 1 when the request does not
    /// care or the adapter's support is unknown.
    pub fn resolve<C>(self, color_format: C, support: Option<SampleSupport>) -> (r: PassConfig<C>)
        ensures
            r == resolved(self, color_format, support),
    {
        let depth_format = self.depth_format_for_pass();
        let sample_count = match support {
            Some(s) if self.sample_count > 1 => {
                let want = self.sample_count;
                let depth_ok = match s.depth {
                    Some(d) => d,
                    None => s.color,
                };
                // Walk down to the highest supported count <= want.
                if 8 <= want && s.color.x8 && depth_ok.x8 {
                    8
                } else if 4 <= want && s.color.x4 && depth_ok.x4 {
                    4
                } else if 2 <= want && s.color.x2 && depth_ok.x2 {
                    2
                } else {
                    1
                }
            },
            _ => 1,
        };
        PassConfig {
            color_format,
            depth_format,
            depth_read_only: !matches!(self.depth, DepthUse::Write),
            sample_count,
        }
    }
}

/// Merging is order independent: both orders conflict or both give the
/// same requirements.
pub proof fn lemma_merge_commutes(a: PassRequirements, b: PassRequirements)
    ensures
        merged(a, b) is Ok <==> merged(b, a) is Ok,
        merged(a, b) is Ok ==> merged(a, b) == merged(b, a),
{
}

/// Merging is associative whenever every step succeeds.
pub proof fn lemma_merge_associates(a: PassRequirements, b: PassRequirements, c: PassRequirements)
    requires
        merged(a, b) is Ok,
        merged(b, c) is Ok,
        merged(merged(a, b)->Ok_0, c) is Ok,
    ensures
        merged(a, merged(b, c)->Ok_0) == merged(merged(a, b)->Ok_0, c),
{
}

/// Merging takes the strongest requirement: the result covers both inputs,
/// and merging requirements with themselves changes nothing.
pub proof fn lemma_merge_covers_inputs(a: PassRequirements, b: PassRequirements)
    requires
        merged(a, b) is Ok,
    ensures
        merged(a, a) == Ok::<PassRequirements, PassConflict>(a),
        merged(merged(a, b)->Ok_0, a) == merged(a, b),
        merged(merged(a, b)->Ok_0, b) == merged(a, b),
{
}

/// Needing nothing is the identity of merging.
pub proof fn lemma_none_is_identity(a: PassRequirements)
    ensures
        merged(no_requirements(), a) == Ok::<PassRequirements, PassConflict>(a),
        merged(a, no_requirements()) == Ok::<PassRequirements, PassConflict>(a),
{
}

} // verus!
