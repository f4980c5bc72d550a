//! The error values rendering can surface.

use vstd::prelude::*;

verus! {

/// A failure while producing output: a generator could not format its
/// arguments. The message carries the underlying failure's description.
#[derive(Debug)]
pub struct RenderError {
    pub message: String,
}

} // verus!
