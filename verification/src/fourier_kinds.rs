//! The choices of the 4f Fourier-optics bench: beams, objects, filters, input
//! views and examples.

use vstd::prelude::*;

verus! {

/// The illuminating beam.
#[derive(Clone, Copy, Debug, PartialEq, Eq, Structural)]
pub enum Beam {
    /// plane wave filling the whole window
    Plane,
    Gaussian,
    /// uniform, circular
    TopHat,
}

/// The object in the input plane.
#[derive(Clone, Copy, Debug, PartialEq, Eq, Structural)]
pub enum Object {
    Open,
    SingleSlit,
    DoubleSlit,
    Circle,
    Square,
    Grating,
    SineGrating,
    Mesh,
    LetterF,
    MeshF,
    Checker,
    PhaseGrating,
    PhaseF,
    Vortex,
}

/// The name of each object in the object menu.
pub open spec fn object_label(o: Object) -> Seq<char> {
    match o {
        Object::Open => "nothing (open)"@,
        Object::SingleSlit => "single slit"@,
        Object::DoubleSlit => "double slit"@,
        Object::Circle => "circular hole"@,
        Object::Square => "square hole"@,
        Object::Grating => "grating (binary)"@,
        Object::SineGrating => "grating (sinusoidal)"@,
        Object::Mesh => "wire mesh"@,
        Object::LetterF => "letter F"@,
        Object::MeshF => "letter F behind a mesh"@,
        Object::Checker => "checkerboard"@,
        Object::PhaseGrating => "phase grating"@,
        Object::PhaseF => "transparent F (phase only)"@,
        Object::Vortex => "spiral phase plate (vortex)"@,
    }
}

/// Which object parameters matter, as (size, period, duty, angle, phase).
pub open spec fn object_uses(o: Object) -> (bool, bool, bool, bool, bool) {
    match o {
        Object::Open => (false, false, false, false, false),
        Object::SingleSlit => (true, false, false, true, false),
        Object::DoubleSlit => (true, true, false, true, false),
        Object::Circle => (true, false, false, false, false),
        Object::Square => (true, false, false, true, false),
        Object::Grating | Object::Mesh => (true, true, true, true, false),
        Object::Checker => (true, true, false, true, false),
        Object::SineGrating => (true, true, false, true, false),
        Object::LetterF => (true, false, false, false, false),
        Object::MeshF => (true, true, true, true, false),
        Object::PhaseGrating => (true, true, true, true, true),
        Object::PhaseF => (true, false, false, false, true),
        Object::Vortex => (true, false, false, false, true),
    }
}

/// An object is a sharp mask (and is supersampled) unless it is the open
/// window, the sinusoidal grating or the spiral phase plate.
pub open spec fn object_is_binary(o: Object) -> bool {
    !(o == Object::SineGrating || o == Object::Open || o == Object::Vortex)
}

impl Object {
    /// Every object, in menu order.
    pub const ALL: [Object; 14] = [
        Object::Open,
        Object::SingleSlit,
        Object::DoubleSlit,
        Object::Circle,
        Object::Square,
        Object::Grating,
        Object::SineGrating,
        Object::Mesh,
        Object::LetterF,
        Object::MeshF,
        Object::Checker,
        Object::PhaseGrating,
        Object::PhaseF,
        Object::Vortex,
    ];

    /// The name of this object in the object menu.
    pub fn label(self) -> (s: &'static str)
        ensures
            s@ == object_label(self),
    {
        match self {
            Object::Open => "nothing (open)",
            Object::SingleSlit => "single slit",
            Object::DoubleSlit => "double slit",
            Object::Circle => "circular hole",
            Object::Square => "square hole",
            Object::Grating => "grating (binary)",
            Object::SineGrating => "grating (sinusoidal)",
            Object::Mesh => "wire mesh",
            Object::LetterF => "letter F",
            Object::MeshF => "letter F behind a mesh",
            Object::Checker => "checkerboard",
            Object::PhaseGrating => "phase grating",
            Object::PhaseF => "transparent F (phase only)",
            Object::Vortex => "spiral phase plate (vortex)",
        }
    }

    /// Which of the parameters matter: (size, period, duty, angle, phase).
    pub fn uses(self) -> (r: (bool, bool, bool, bool, bool))
        ensures
            r == object_uses(self),
    {
        match self {
            Object::Open => (false, false, false, false, false),
            Object::SingleSlit => (true, false, false, true, false),
            Object::DoubleSlit => (true, true, false, true, false),
            Object::Circle => (true, false, false, false, false),
            Object::Square => (true, false, false, true, false),
            Object::Grating | Object::Mesh => (true, true, true, true, false),
            Object::Checker => (true, true, false, true, false),
            Object::SineGrating => (true, true, false, true, false),
            Object::LetterF => (true, false, false, false, false),
            Object::MeshF => (true, true, true, true, false),
            Object::PhaseGrating => (true, true, true, true, true),
            Object::PhaseF => (true, false, false, false, true),
            Object::Vortex => (true, false, false, false, true),
        }
    }

    /// Whether the object is a sharp mask that is supersampled.
    pub fn is_binary(self) -> (b: bool)
        ensures
            b == object_is_binary(self),
    {
        !matches!(self, Object::SineGrating | Object::Open | Object::Vortex)
    }
}

/// The filter in the Fourier plane.
#[derive(Clone, Copy, Debug, PartialEq, Eq, Structural)]
pub enum Filter {
    /// no filter: everything passes
    Open,
    LowPass,
    HighPass,
    BandPass,
    Slit,
    KnifeEdge,
    Zernike,
    Spiral,
}

/// The name of each filter in the filter menu.
pub open spec fn filter_label(f: Filter) -> Seq<char> {
    match f {
        Filter::Open => "none"@,
        Filter::LowPass => "low pass (pinhole)"@,
        Filter::HighPass => "high pass (central stop)"@,
        Filter::BandPass => "band pass (ring)"@,
        Filter::Slit => "slit"@,
        Filter::KnifeEdge => "knife edge (schlieren)"@,
        Filter::Zernike => "phase dot (Zernike phase contrast)"@,
        Filter::Spiral => "spiral phase (vortex filter)"@,
    }
}

impl Filter {
    /// Every filter, in menu order.
    pub const ALL: [Filter; 8] = [
        Filter::Open,
        Filter::LowPass,
        Filter::HighPass,
        Filter::BandPass,
        Filter::Slit,
        Filter::KnifeEdge,
        Filter::Zernike,
        Filter::Spiral,
    ];

    /// The name of this filter in the filter menu.
    pub fn label(self) -> (s: &'static str)
        ensures
            s@ == filter_label(self),
    {
        match self {
            Filter::Open => "none",
            Filter::LowPass => "low pass (pinhole)",
            Filter::HighPass => "high pass (central stop)",
            Filter::BandPass => "band pass (ring)",
            Filter::Slit => "slit",
            Filter::KnifeEdge => "knife edge (schlieren)",
            Filter::Zernike => "phase dot (Zernike phase contrast)",
            Filter::Spiral => "spiral phase (vortex filter)",
        }
    }
}

/// How the input field is drawn.
#[derive(Clone, Copy, Debug, PartialEq, Eq, Structural)]
pub enum InputView {
    /// hue = phase, brightness = amplitude
    Complex,
    Amplitude,
    Phase,
    Intensity,
}

/// The examples of the 4f bench.
#[derive(Clone, Copy, Debug, PartialEq, Eq, Structural)]
pub enum FourierPreset {
    DoubleSlit,
    Airy,
    Talbot,
    AbbePorter,
    LowPass,
    HighPass,
    PhaseContrast,
    Schlieren,
    SpiralPhase,
    TiltAndCurvature,
    Vortex,
}

/// The title of each 4f example in the menu.
pub open spec fn fourier_preset_label(p: FourierPreset) -> Seq<char> {
    match p {
        FourierPreset::DoubleSlit => "Double slit: Fraunhofer pattern"@,
        FourierPreset::Airy => "Circular hole: Airy disk"@,
        FourierPreset::Talbot => "Grating: diffraction orders + Talbot carpet"@,
        FourierPreset::AbbePorter => "Abbe–Porter: filtering a mesh"@,
        FourierPreset::LowPass => "Low pass: blurring"@,
        FourierPreset::HighPass => "High pass: edge enhancement"@,
        FourierPreset::PhaseContrast => "Zernike phase contrast"@,
        FourierPreset::Schlieren => "Schlieren (knife edge)"@,
        FourierPreset::SpiralPhase => "Spiral phase filter: isotropic edges"@,
        FourierPreset::TiltAndCurvature => "Tilted and curved wavefronts"@,
        FourierPreset::Vortex => "Optical vortex (doughnut beam)"@,
    }
}

impl FourierPreset {
    /// Every 4f example, in menu order.
    pub const ALL: [FourierPreset; 11] = [
        FourierPreset::DoubleSlit,
        FourierPreset::Airy,
        FourierPreset::Talbot,
        FourierPreset::AbbePorter,
        FourierPreset::LowPass,
        FourierPreset::HighPass,
        FourierPreset::PhaseContrast,
        FourierPreset::Schlieren,
        FourierPreset::SpiralPhase,
        FourierPreset::TiltAndCurvature,
        FourierPreset::Vortex,
    ];

    /// The example at position `i` of the menu; the last one for positions past the end.
    pub fn at(i: usize) -> (p: FourierPreset)
        ensures
            p == FourierPreset::ALL@[if i < 10 {
                i as int
            } else {
                10
            }],
    {
        FourierPreset::ALL[if i < 10 {
            i
        } else {
            10
        }]
    }

    /// The title of this example in the menu.
    pub fn label(self) -> (s: &'static str)
        ensures
            s@ == fourier_preset_label(self),
    {
        match self {
            FourierPreset::DoubleSlit => "Double slit: Fraunhofer pattern",
            FourierPreset::Airy => "Circular hole: Airy disk",
            FourierPreset::Talbot => "Grating: diffraction orders + Talbot carpet",
            FourierPreset::AbbePorter => "Abbe–Porter: filtering a mesh",
            FourierPreset::LowPass => "Low pass: blurring",
            FourierPreset::HighPass => "High pass: edge enhancement",
            FourierPreset::PhaseContrast => "Zernike phase contrast",
            FourierPreset::Schlieren => "Schlieren (knife edge)",
            FourierPreset::SpiralPhase => "Spiral phase filter: isotropic edges",
            FourierPreset::TiltAndCurvature => "Tilted and curved wavefronts",
            FourierPreset::Vortex => "Optical vortex (doughnut beam)",
        }
    }
}

/// Law: the 4f example menu lists every example exactly once.
pub proof fn lemma_every_fourier_preset_listed_once(p: FourierPreset)
    ensures
        exists|i: int| 0 <= i < 11 && #[trigger] FourierPreset::ALL@[i] == p,
        forall|i: int, j: int| 0 <= i < j < 11 ==> FourierPreset::ALL@[i] != FourierPreset::ALL@[j],
{
    match p {
        FourierPreset::DoubleSlit => assert(FourierPreset::ALL@[0] == p),
        FourierPreset::Airy => assert(FourierPreset::ALL@[1] == p),
        FourierPreset::Talbot => assert(FourierPreset::ALL@[2] == p),
        FourierPreset::AbbePorter => assert(FourierPreset::ALL@[3] == p),
        FourierPreset::LowPass => assert(FourierPreset::ALL@[4] == p),
        FourierPreset::HighPass => assert(FourierPreset::ALL@[5] == p),
        FourierPreset::PhaseContrast => assert(FourierPreset::ALL@[6] == p),
        FourierPreset::Schlieren => assert(FourierPreset::ALL@[7] == p),
        FourierPreset::SpiralPhase => assert(FourierPreset::ALL@[8] == p),
        FourierPreset::TiltAndCurvature => assert(FourierPreset::ALL@[9] == p),
        FourierPreset::Vortex => assert(FourierPreset::ALL@[10] == p),
    }
}

/// Law: the object menu lists every object exactly once.
pub proof fn lemma_every_object_listed_once(o: Object)
    ensures
        exists|i: int| 0 <= i < 14 && #[trigger] Object::ALL@[i] == o,
        forall|i: int, j: int| 0 <= i < j < 14 ==> Object::ALL@[i] != Object::ALL@[j],
{
    match o {
        Object::Open => assert(Object::ALL@[0] == o),
        Object::SingleSlit => assert(Object::ALL@[1] == o),
        Object::DoubleSlit => assert(Object::ALL@[2] == o),
        Object::Circle => assert(Object::ALL@[3] == o),
        Object::Square => assert(Object::ALL@[4] == o),
        Object::Grating => assert(Object::ALL@[5] == o),
        Object::SineGrating => assert(Object::ALL@[6] == o),
        Object::Mesh => assert(Object::ALL@[7] == o),
        Object::LetterF => assert(Object::ALL@[8] == o),
        Object::MeshF => assert(Object::ALL@[9] == o),
        Object::Checker => assert(Object::ALL@[10] == o),
        Object::PhaseGrating => assert(Object::ALL@[11] == o),
        Object::PhaseF => assert(Object::ALL@[12] == o),
        Object::Vortex => assert(Object::ALL@[13] == o),
    }
}

/// Law: the filter menu lists every filter exactly once.
pub proof fn lemma_every_filter_listed_once(f: Filter)
    ensures
        exists|i: int| 0 <= i < 8 && #[trigger] Filter::ALL@[i] == f,
        forall|i: int, j: int| 0 <= i < j < 8 ==> Filter::ALL@[i] != Filter::ALL@[j],
{
    match f {
        Filter::Open => assert(Filter::ALL@[0] == f),
        Filter::LowPass => assert(Filter::ALL@[1] == f),
        Filter::HighPass => assert(Filter::ALL@[2] == f),
        Filter::BandPass => assert(Filter::ALL@[3] == f),
        Filter::Slit => assert(Filter::ALL@[4] == f),
        Filter::KnifeEdge => assert(Filter::ALL@[5] == f),
        Filter::Zernike => assert(Filter::ALL@[6] == f),
        Filter::Spiral => assert(Filter::ALL@[7] == f),
    }
}

/// Law: the objects whose masks are sharp (and supersampled) are exactly
/// those that are neither the open window nor the smooth (sinusoidal or
/// spiral) ones, and the open window uses no parameter.
pub proof fn lemma_binary_objects(o: Object)
    ensures
        !object_is_binary(o) <==> (o == Object::Open || o == Object::SineGrating || o
            == Object::Vortex),
        object_uses(Object::Open) == (false, false, false, false, false),
        o != Object::Open ==> object_uses(o).0,
{
}

/// Law: which parameters each object reads. The size matters for every
/// object but the open window; the period for exactly the periodic ones; the
/// duty for the binary gratings and meshes; the angle for everything that is
/// not round or a letter; the phase for the phase objects.
pub proof fn lemma_object_parameters(o: Object)
    ensures
        object_uses(o).0 <==> o != Object::Open,
        object_uses(o).1 <==> (o == Object::DoubleSlit || o == Object::Grating || o
            == Object::SineGrating || o == Object::Mesh || o == Object::MeshF || o == Object::Checker
            || o == Object::PhaseGrating),
        object_uses(o).2 <==> (o == Object::Grating || o == Object::Mesh || o == Object::MeshF || o
            == Object::PhaseGrating),
        object_uses(o).3 <==> (o == Object::SingleSlit || o == Object::DoubleSlit || o == Object::Square
            || o == Object::Grating || o == Object::SineGrating || o == Object::Mesh || o
            == Object::MeshF || o == Object::Checker || o == Object::PhaseGrating),
        object_uses(o).4 <==> (o == Object::PhaseGrating || o == Object::PhaseF || o == Object::Vortex),
{
}

} // verus!
