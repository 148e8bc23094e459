//! Which outputs a surface goes to, and the options of layer, window and
//! lock surfaces.

use vstd::prelude::*;

use crate::model::Size;

verus! {

/// Picks one output.
#[derive(Clone, Debug)]
pub enum OutputSelector {
    /// First output in the compositor's list.
    First,
    /// Nth output (0-based).
    Index(usize),
    /// The output whose name, model or make starts with this string.
    NamePrefix(String),
    /// Prefer laptop panel names (eDP, LVDS), fall back to the first output.
    InternalPrefer,
    /// The output with the highest reported scale factor.
    HighestScale,
}

/// Picks the outputs a surface is shown on.
#[derive(Clone, Debug)]
pub enum OutputSet {
    /// A single selected output.
    One(OutputSelector),
    /// The last active output.
    Active,
    /// Mirror the surface to every compositor output.
    All,
    /// Every output some selector of the list picks.
    List(Vec<OutputSelector>),
}

/// Options of a session-lock surface.
#[derive(Clone, Debug)]
pub struct LockOptions {
    pub size: Size,
    pub output: Option<OutputSet>,
}

impl Default for LockOptions {
    fn default() -> (r: Self)
        ensures
            r.size == (Size { width: 640, height: 360 }),
            r.output.is_none(),
    {
        LockOptions { size: Size { width: 640, height: 360 }, output: None }
    }
}

/// The layer-shell layer a surface is stacked in.
#[derive(Clone, Copy, Debug, PartialEq, Eq, Structural)]
pub enum Layer {
    Background,
    Bottom,
    Top,
    Overlay,
}

/// Edges a layer surface is anchored to, as the protocol's bit set.
#[derive(Clone, Copy, Debug, PartialEq, Eq, Structural)]
pub struct Anchor(pub u32);

pub const ANCHOR_TOP: u32 = 1;
pub const ANCHOR_BOTTOM: u32 = 2;
pub const ANCHOR_LEFT: u32 = 4;
pub const ANCHOR_RIGHT: u32 = 8;

/// Whether a layer surface takes keyboard focus.
#[derive(Clone, Copy, Debug, PartialEq, Eq, Structural)]
pub enum KeyboardInteractivity {
    /// Never.
    Off,
    /// Grabs the keyboard while mapped.
    Exclusive,
    /// When the user focuses it.
    OnDemand,
}

/// Who draws a window's decorations.
#[derive(Clone, Copy, Debug, PartialEq, Eq, Structural)]
pub enum WindowDecorations {
    RequestServer,
    RequestClient,
    ServerDefault,
    /// No decorations at all.
    Undecorated,
}

/// Options describing a layer-shell surface.
#[derive(Clone, Debug)]
pub struct LayerOptions {
    pub layer: Layer,
    pub size: Size,
    pub anchors: Anchor,
    /// Negative means "auto" (no reservation). Positive reserves screen
    /// space (a status bar, say).
    pub exclusive_zone: i32,
    pub keyboard_interactivity: KeyboardInteractivity,
    /// Namespace, useful for compositor rules.
    pub namespace: Option<String>,
    pub output: Option<OutputSet>,
}

impl Default for LayerOptions {
    /// A 640 x 360 bar on the top layer, anchored top, left and right,
    /// reserving nothing, without keyboard focus, in namespace "ui", on the
    /// active output.
    fn default() -> (r: Self)
        ensures
            r.layer == Layer::Top,
            r.size == (Size { width: 640, height: 360 }),
            r.anchors == Anchor(ANCHOR_TOP | ANCHOR_LEFT | ANCHOR_RIGHT),
            r.exclusive_zone == -1,
            r.keyboard_interactivity == KeyboardInteractivity::Off,
            r.namespace matches Some(n) && n@ == "ui"@,
            r.output.is_none(),
    {
        LayerOptions {
            layer: Layer::Top,
            size: Size { width: 640, height: 360 },
            anchors: Anchor(ANCHOR_TOP | ANCHOR_LEFT | ANCHOR_RIGHT),
            exclusive_zone: -1,
            keyboard_interactivity: KeyboardInteractivity::Off,
            namespace: Some("ui".to_string()),
            output: None,
        }
    }
}

impl LayerOptions {
    /// Whether the surface asks the compositor for an exclusive zone: only
    /// a non-zero one is sent.
    pub fn sets_exclusive_zone(&self) -> (r: bool)
        ensures
            r == (self.exclusive_zone != 0),
    {
        self.exclusive_zone != 0
    }
}

/// Options describing an xdg toplevel window.
#[derive(Clone, Debug)]
pub struct XdgOptions {
    pub size: Size,
    pub title: String,
    pub app_id: Option<String>,
    pub decorations: WindowDecorations,
    pub output: Option<OutputSelector>,
}

impl Default for XdgOptions {
    /// A 640 x 360 window titled "my_app", app id "ui", decorated by the
    /// client, on the first output.
    fn default() -> (r: Self)
        ensures
            r.size == (Size { width: 640, height: 360 }),
            r.title@ == "my_app"@,
            r.app_id matches Some(a) && a@ == "ui"@,
            r.decorations == WindowDecorations::RequestClient,
            r.output.is_none(),
    {
        XdgOptions {
            size: Size { width: 640, height: 360 },
            title: "my_app".to_string(),
            app_id: Some("ui".to_string()),
            decorations: WindowDecorations::RequestClient,
            output: None,
        }
    }
}

/// Which kind of surface an app runs on, with its options.
#[derive(Clone, Debug)]
pub enum Options {
    Layer(LayerOptions),
    Xdg(XdgOptions),
    Lock(LockOptions),
}

} // verus!
