//! Errors of the Wayland front end.

use vstd::prelude::*;

verus! {

/// What went wrong talking to the compositor. Every variant but
/// `SurfaceSetup` carries the description of the underlying error.
#[derive(Debug)]
pub enum SctkError {
    Connect(String),
    RegistryInit(String),
    BindGlobal(String),
    SurfaceSetup,
    Dispatch(String),
    Flush(String),
    Roundtrip(String),
    SessionLock(String),
    EventLoop(String),
}

/// The one-line message of each kind of error.
pub open spec fn error_message(e: SctkError) -> Seq<char> {
    match e {
        SctkError::Connect(_) => "failed to connect to wayland"@,
        SctkError::RegistryInit(_) => "failed to initialize registry"@,
        SctkError::BindGlobal(_) => "failed to bind global"@,
        SctkError::SurfaceSetup => "failed to setup surface"@,
        SctkError::Dispatch(_) => "wayland dispatch failed"@,
        SctkError::Flush(_) => "wayland flush failed"@,
        SctkError::Roundtrip(_) => "wayland roundtrip failed"@,
        SctkError::SessionLock(_) => "wayland session lock failed"@,
        SctkError::EventLoop(_) => "event loop error"@,
    }
}

impl SctkError {
    pub fn connect(e: String) -> (r: Self)
        ensures
            r == SctkError::Connect(e),
    {
        SctkError::Connect(e)
    }

    pub fn registry_init(e: String) -> (r: Self)
        ensures
            r == SctkError::RegistryInit(e),
    {
        SctkError::RegistryInit(e)
    }

    pub fn bind_global(e: String) -> (r: Self)
        ensures
            r == SctkError::BindGlobal(e),
    {
        SctkError::BindGlobal(e)
    }

    pub fn dispatch(e: String) -> (r: Self)
        ensures
            r == SctkError::Dispatch(e),
    {
        SctkError::Dispatch(e)
    }

    pub fn flush(e: String) -> (r: Self)
        ensures
            r == SctkError::Flush(e),
    {
        SctkError::Flush(e)
    }

    pub fn roundtrip(e: String) -> (r: Self)
        ensures
            r == SctkError::Roundtrip(e),
    {
        SctkError::Roundtrip(e)
    }

    pub fn session_lock(e: String) -> (r: Self)
        ensures
            r == SctkError::SessionLock(e),
    {
        SctkError::SessionLock(e)
    }

    pub fn event_loop(e: String) -> (r: Self)
        ensures
            r == SctkError::EventLoop(e),
    {
        SctkError::EventLoop(e)
    }

    /// The one-line message of this error.
    pub fn message(&self) -> (r: &'static str)
        ensures
            r@ == error_message(*self),
    {
        match self {
            SctkError::Connect(_) => "failed to connect to wayland",
            SctkError::RegistryInit(_) => "failed to initialize registry",
            SctkError::BindGlobal(_) => "failed to bind global",
            SctkError::SurfaceSetup => "failed to setup surface",
            SctkError::Dispatch(_) => "wayland dispatch failed",
            SctkError::Flush(_) => "wayland flush failed",
            SctkError::Roundtrip(_) => "wayland roundtrip failed",
            SctkError::SessionLock(_) => "wayland session lock failed",
            SctkError::EventLoop(_) => "event loop error",
        }
    }

    /// The underlying error's description, if this error has one.
    pub fn source(&self) -> (r: Option<&String>)
        ensures
            r == (match *self {
                SctkError::Connect(e) => Some(&e),
                SctkError::RegistryInit(e) => Some(&e),
                SctkError::BindGlobal(e) => Some(&e),
                SctkError::SurfaceSetup => None,
                SctkError::Dispatch(e) => Some(&e),
                SctkError::Flush(e) => Some(&e),
                SctkError::Roundtrip(e) => Some(&e),
                SctkError::SessionLock(e) => Some(&e),
                SctkError::EventLoop(e) => Some(&e),
            }),
    {
        match self {
            SctkError::Connect(e)
            | SctkError::RegistryInit(e)
            | SctkError::BindGlobal(e)
            | SctkError::Dispatch(e)
            | SctkError::Flush(e)
            | SctkError::Roundtrip(e)
            | SctkError::SessionLock(e)
            | SctkError::EventLoop(e) => Some(e),
            SctkError::SurfaceSetup => None,
        }
    }
}

} // verus!
