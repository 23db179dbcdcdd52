//! Verified core of the optics bench: the catalogues of tools, objects and
//! examples, the bookkeeping of saved configurations, the scheduling of the
//! wave-optics worker, the sampling plan of the progressive renderer, the
//! index arithmetic of the centred 2D Fourier transform and the reading of
//! traced ray paths and the ids and roles of the scene's elements.

pub mod tools;
pub mod scene_kinds;
pub mod fourier_kinds;
pub mod bench_mode;
pub mod scheduler;
pub mod grid;
pub mod sampling;
pub mod events;
pub mod text;
pub mod configs;
pub mod roster;
