use vstd::prelude::*;

verus! {

/// Errors of the geometry pipeline.
#[derive(Clone, Copy, Debug, PartialEq, Eq, Structural)]
pub enum Error {
    /// An encoded path string is structurally corrupt: a byte outside the
    /// alphabet, a value that never terminates or that overflows, or a
    /// latitude without its longitude.
    MalformedPolyline,
}

} // verus!
