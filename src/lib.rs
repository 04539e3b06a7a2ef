//! Verified core of a small particle-cloud simulator: the depth ordering
//! that keeps the cloud sorted back to front, the schedule of pairwise
//! interactions, the index layout of the camera-facing quads, and the
//! frame pacing of the host loop.
use vstd::prelude::*;

pub mod depth;
pub mod pacing;
pub mod pairs;
pub mod quads;
