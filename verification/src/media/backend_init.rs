//! One-time initialisation of a media backend library.
//!
//! The backend routine itself (FFmpeg's or GStreamer's global set-up) is
//! run by the caller; this state decides when it has to run and records
//! that it has completed, so that it runs once however often `init` is
//! called.

use vstd::prelude::*;

verus! {

/// Progress of the one-time initialisation of a backend.
#[derive(Debug)]
pub struct BackendInit {
    completed: bool,
}

/// What the caller of `init` has to do next.
#[derive(Debug, Clone, Copy, PartialEq, Eq, Structural)]
pub enum InitStep {
    /// Run the backend's initialisation routine now, then report it with
    /// `BackendInit::mark_completed`.
    RunBackendInit,
    /// The backend is initialised already; nothing to do.
    AlreadyInitialized,
}

impl BackendInit {
    /// Whether the backend routine has completed.
    pub closed spec fn completed(&self) -> bool {
        self.completed
    }

    /// A backend that has not been initialised.
    pub fn new() -> (s: Self)
        ensures
            !s.completed(),
    {
        BackendInit { completed: false }
    }

    /// Record that the backend routine has returned.
    pub fn mark_completed(&mut self)
        ensures
            final(self).completed(),
    {
        self.completed = true;
    }

    /// The step `init` asks for in this state: the backend routine until it
    /// has completed, nothing afterwards.
    pub fn next_step(&self) -> (step: InitStep)
        ensures
            step == if self.completed() {
                InitStep::AlreadyInitialized
            } else {
                InitStep::RunBackendInit
            },
    {
        if self.completed {
            InitStep::AlreadyInitialized
        } else {
            InitStep::RunBackendInit
        }
    }

    /// Whether the backend routine has completed.
    pub fn is_completed(&self) -> (b: bool)
        ensures
            b == self.completed(),
    {
        self.completed
    }
}

} // verus!
