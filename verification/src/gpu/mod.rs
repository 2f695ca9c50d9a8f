//! GPU texture encoding. This build has no GPU encoder compiled in; the
//! block layout of the BC7 mode-6 encoder lives in `bc7_mode6`.
use vstd::prelude::*;

pub mod bc7_mode6;

verus! {

/// Whether a GPU encoder is available: never, in a build without one.
pub fn is_gpu_available() -> (available: bool)
    ensures
        !available,
{
    false
}

} // verus!
