//! Wayland (layer-shell / xdg / session-lock) front end: identifiers, the
//! exit flag of the event loop, surface options, output selection, surface
//! bookkeeping, event routing and input mapping.

use vstd::prelude::*;

pub mod emit;
pub mod error;
pub mod keys;
pub mod options;
pub mod output;
pub mod surfaces;
pub mod targets;

pub use error::SctkError;
pub use options::{LockOptions, OutputSelector, OutputSet};

verus! {

/// The handler of Wayland events that adds nothing to the defaults.
pub struct DefaultHandler;

/// Identifies one surface of the app.
#[derive(Clone, Copy, Debug, PartialEq, Eq, Structural)]
pub struct SurfaceId(pub u32);

/// The exit request of the event loop.
pub struct SctkLoop {
    exit: bool,
}

impl SctkLoop {
    /// The flag's value: whether exit was requested.
    pub closed spec fn requested(&self) -> bool {
        self.exit
    }

    pub fn new() -> (r: Self)
        ensures
            !r.requested(),
    {
        SctkLoop { exit: false }
    }

    /// Ask the loop to stop after the current iteration.
    pub fn exit(&mut self)
        ensures
            final(self).requested(),
    {
        self.exit = true;
    }

    pub fn should_exit(&self) -> (r: bool)
        ensures
            r == self.requested(),
    {
        self.exit
    }
}

/// What the event loop saw that may end it.
#[derive(Clone, Copy, Debug, PartialEq, Eq, Structural)]
pub enum LoopSignal {
    /// A platform event was delivered; `closed` when it was a close request.
    EventDelivered { closed: bool },
    /// A surface went away; `targets_left` when other surfaces still render.
    SurfaceDestroyed { targets_left: bool },
    /// The session lock was released and its surfaces are gone.
    LockFinished,
}

/// Whether `signal` ends the loop: a close request does when the loop exits
/// on close, losing the last rendered surface does, and so does a finished
/// session lock.
pub open spec fn ends_loop(signal: LoopSignal, exit_on_close: bool) -> bool {
    match signal {
        LoopSignal::EventDelivered { closed } => exit_on_close && closed,
        LoopSignal::SurfaceDestroyed { targets_left } => !targets_left,
        LoopSignal::LockFinished => true,
    }
}

impl SctkLoop {
    /// Take in `signal`: ask the loop to stop when it ends the loop, keep any
    /// earlier request otherwise.
    pub fn observe(&mut self, signal: LoopSignal, exit_on_close: bool)
        ensures
            final(self).requested() == (old(self).requested() || ends_loop(signal, exit_on_close)),
    {
        let ends = match signal {
            LoopSignal::EventDelivered { closed } => exit_on_close && closed,
            LoopSignal::SurfaceDestroyed { targets_left } => !targets_left,
            LoopSignal::LockFinished => true,
        };
        if ends {
            self.exit = true;
        }
    }
}

impl Default for SctkLoop {
    fn default() -> (r: Self)
        ensures
            !r.requested(),
    {
        SctkLoop::new()
    }
}

} // verus!
