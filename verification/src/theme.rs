//! Per-widget style overrides and the tonal ramp of surfaces.

use vstd::prelude::*;

use crate::model::Color;

verus! {

/// Gap between a widget and its focus ring, in logical pixels.
pub const GAP: i32 = 2;

/// Width of the focus ring, in logical pixels.
pub const RING_WIDTH: i32 = 2;

/// Colours a widget overrides; `None` keeps the theme's.
#[derive(Clone, Copy, Debug, PartialEq, Eq, Structural)]
pub struct Style {
    pub fill: Option<Color>,
    pub border: Option<Color>,
    pub foreground: Option<Color>,
}

impl Default for Style {
    fn default() -> (r: Self)
        ensures
            r == (Style { fill: None, border: None, foreground: None }),
    {
        Style { fill: None, border: None, foreground: None }
    }
}

impl Style {
    /// Resolve the fill, falling back to `base` when not overridden.
    pub fn fill_or(&self, base: Color) -> (r: Color)
        ensures
            r == (match self.fill { Some(c) => c, None => base }),
    {
        match self.fill {
            Some(c) => c,
            None => base,
        }
    }

    /// Resolve the border, falling back to `base` when not overridden.
    pub fn border_or(&self, base: Color) -> (r: Color)
        ensures
            r == (match self.border { Some(c) => c, None => base }),
    {
        match self.border {
            Some(c) => c,
            None => base,
        }
    }

    /// Resolve the foreground, falling back to `base` when not overridden.
    pub fn foreground_or(&self, base: Color) -> (r: Color)
        ensures
            r == (match self.foreground { Some(c) => c, None => base }),
    {
        match self.foreground {
            Some(c) => c,
            None => base,
        }
    }
}

/// A tone of the surface ramp.
#[derive(Clone, Copy, Debug, PartialEq, Eq, Structural)]
pub enum SurfaceTone {
    Surface,
    ContainerLow,
    Container,
    ContainerHigh,
    ContainerHighest,
    ContainerLowest,
}

/// The tone of the surface at tonal `elevation`: the ramp climbs from the
/// plain surface through the containers and wraps around every six steps,
/// the sixth being the lowest container.
pub open spec fn tone_at(elevation: int) -> SurfaceTone {
    let k = elevation % 6;
    if k == 0 {
        SurfaceTone::Surface
    } else if k == 1 {
        SurfaceTone::ContainerLow
    } else if k == 2 {
        SurfaceTone::Container
    } else if k == 3 {
        SurfaceTone::ContainerHigh
    } else if k == 4 {
        SurfaceTone::ContainerHighest
    } else {
        SurfaceTone::ContainerLowest
    }
}

/// The tone of the surface at tonal `elevation`.
pub fn surface_tone(elevation: u8) -> (r: SurfaceTone)
    ensures
        r == tone_at(elevation as int),
{
    match elevation % 6 {
        0 => SurfaceTone::Surface,
        1 => SurfaceTone::ContainerLow,
        2 => SurfaceTone::Container,
        3 => SurfaceTone::ContainerHigh,
        4 => SurfaceTone::ContainerHighest,
        _ => SurfaceTone::ContainerLowest,
    }
}

/// Elevations one step apart never share a tone, however far up the ramp
/// (the wrap from the lowest container back to the plain surface included),
/// so stacked surfaces never merge.
pub proof fn lemma_adjacent_tones_differ(elevation: int)
    requires
        elevation >= 0,
    ensures
        tone_at(elevation) != tone_at(elevation + 1),
{
}

/// Every tone from the plain surface to the highest container is reached
/// within the first five elevations.
pub proof fn lemma_ramp_reaches_its_tones(tone: SurfaceTone)
    requires
        tone != SurfaceTone::ContainerLowest,
    ensures
        exists|e: int| 0 <= e < 5 && #[trigger] tone_at(e) == tone,
{
    match tone {
        SurfaceTone::Surface => assert(tone_at(0) == tone),
        SurfaceTone::ContainerLow => assert(tone_at(1) == tone),
        SurfaceTone::Container => assert(tone_at(2) == tone),
        SurfaceTone::ContainerHigh => assert(tone_at(3) == tone),
        _ => assert(tone_at(4) == tone),
    }
}

} // verus!
