//! Which of the two benches is shown.

use vstd::prelude::*;

verus! {

/// The ray-optics bench or the 4f Fourier-optics bench.
#[derive(Clone, Copy, Debug, PartialEq, Eq, Structural)]
pub enum Mode {
    Ray,
    Fourier,
}

impl Default for Mode {
    /// The ray-optics bench is shown unless something else was saved.
    fn default() -> (m: Mode)
        ensures
            m == Mode::Ray,
    {
        Mode::Ray
    }
}

} // verus!
