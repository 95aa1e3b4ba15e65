//! FFmpeg initialisation.

use crate::media::backend_init::{BackendInit, InitStep};
use vstd::prelude::*;

verus! {

/// Initialise FFmpeg. Safe to call any number of times: the step returned
/// asks for FFmpeg's global initialisation only until it has completed.
pub fn init(state: &BackendInit) -> (step: InitStep)
    ensures
        step == if state.completed() {
            InitStep::AlreadyInitialized
        } else {
            InitStep::RunBackendInit
        },
{
    state.next_step()
}

/// Whether FFmpeg has been initialised.
pub fn is_initialized(state: &BackendInit) -> (b: bool)
    ensures
        b == state.completed(),
{
    state.is_completed()
}

} // verus!
