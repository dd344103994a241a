//! Error values of the game shell around the core.

use vstd::prelude::*;

verus! {

/// Asking playback for a sound that was never loaded.
#[derive(Clone, Copy, PartialEq, Eq, Structural, Debug)]
pub struct NoSoundError;

} // verus!
