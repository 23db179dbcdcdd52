//! The things that stand on the lawn and the examples of the ray-optics bench.

use vstd::prelude::*;

verus! {

/// The kinds of scenery object.
#[derive(Clone, Copy, Debug, PartialEq, Eq, Structural)]
pub enum ObjKind {
    Stickman,
    Tree,
    Sign,
    SlitLamp,
    Checker,
}

/// The name of each kind of object.
pub open spec fn obj_kind_label(k: ObjKind) -> Seq<char> {
    match k {
        ObjKind::Stickman => "Stickman"@,
        ObjKind::Tree => "Tree"@,
        ObjKind::Sign => "F-sign"@,
        ObjKind::SlitLamp => "Slit lamp"@,
        ObjKind::Checker => "Checkerboard"@,
    }
}

impl ObjKind {
    /// The name of this kind of object.
    pub fn label(self) -> (s: &'static str)
        ensures
            s@ == obj_kind_label(self),
    {
        match self {
            ObjKind::Stickman => "Stickman",
            ObjKind::Tree => "Tree",
            ObjKind::Sign => "F-sign",
            ObjKind::SlitLamp => "Slit lamp",
            ObjKind::Checker => "Checkerboard",
        }
    }
}

/// The examples of the ray-optics bench.
#[derive(Clone, Copy, Debug, PartialEq, Eq, Structural)]
pub enum Preset {
    Projector,
    Magnifier,
    DepthOfField,
    CentralStop,
    Pinhole,
    Kepler,
    Galilei,
    Diverging,
    Myopia,
    Aberrations,
    PrismLook,
    Spectrometer,
}

/// The title of each example in the menu.
pub open spec fn preset_label(p: Preset) -> Seq<char> {
    match p {
        Preset::Projector => "Real image on a screen + eye"@,
        Preset::Magnifier => "Magnifying glass"@,
        Preset::DepthOfField => "Aperture: depth of field"@,
        Preset::CentralStop => "Central stop: ring-shaped blur"@,
        Preset::Pinhole => "Pinhole camera (camera obscura)"@,
        Preset::Kepler => "Keplerian telescope (eye + screen)"@,
        Preset::Galilei => "Galilean telescope (eye + screen)"@,
        Preset::Diverging => "Diverging lens (virtual image)"@,
        Preset::Myopia => "Short-sighted eye + glasses"@,
        Preset::Aberrations => "Spherical & chromatic aberration"@,
        Preset::PrismLook => "Looking through a prism"@,
        Preset::Spectrometer => "Prism spectrometer"@,
    }
}

impl Preset {
    /// Every example, in menu order.
    pub const ALL: [Preset; 12] = [
        Preset::Projector,
        Preset::Magnifier,
        Preset::DepthOfField,
        Preset::CentralStop,
        Preset::Pinhole,
        Preset::Kepler,
        Preset::Galilei,
        Preset::Diverging,
        Preset::Myopia,
        Preset::Aberrations,
        Preset::PrismLook,
        Preset::Spectrometer,
    ];

    /// The example at position `i` of the menu; the last one for positions past the end.
    pub fn at(i: usize) -> (p: Preset)
        ensures
            p == Preset::ALL@[if i < 11 {
                i as int
            } else {
                11
            }],
    {
        Preset::ALL[if i < 11 {
            i
        } else {
            11
        }]
    }

    /// The title of this example in the menu.
    pub fn label(self) -> (s: &'static str)
        ensures
            s@ == preset_label(self),
    {
        match self {
            Preset::Projector => "Real image on a screen + eye",
            Preset::Magnifier => "Magnifying glass",
            Preset::DepthOfField => "Aperture: depth of field",
            Preset::CentralStop => "Central stop: ring-shaped blur",
            Preset::Pinhole => "Pinhole camera (camera obscura)",
            Preset::Kepler => "Keplerian telescope (eye + screen)",
            Preset::Galilei => "Galilean telescope (eye + screen)",
            Preset::Diverging => "Diverging lens (virtual image)",
            Preset::Myopia => "Short-sighted eye + glasses",
            Preset::Aberrations => "Spherical & chromatic aberration",
            Preset::PrismLook => "Looking through a prism",
            Preset::Spectrometer => "Prism spectrometer",
        }
    }
}

/// Law: the example menu lists every example exactly once.
pub proof fn lemma_every_preset_listed_once(p: Preset)
    ensures
        exists|i: int| 0 <= i < 12 && #[trigger] Preset::ALL@[i] == p,
        forall|i: int, j: int| 0 <= i < j < 12 ==> Preset::ALL@[i] != Preset::ALL@[j],
{
    match p {
        Preset::Projector => assert(Preset::ALL@[0] == p),
        Preset::Magnifier => assert(Preset::ALL@[1] == p),
        Preset::DepthOfField => assert(Preset::ALL@[2] == p),
        Preset::CentralStop => assert(Preset::ALL@[3] == p),
        Preset::Pinhole => assert(Preset::ALL@[4] == p),
        Preset::Kepler => assert(Preset::ALL@[5] == p),
        Preset::Galilei => assert(Preset::ALL@[6] == p),
        Preset::Diverging => assert(Preset::ALL@[7] == p),
        Preset::Myopia => assert(Preset::ALL@[8] == p),
        Preset::Aberrations => assert(Preset::ALL@[9] == p),
        Preset::PrismLook => assert(Preset::ALL@[10] == p),
        Preset::Spectrometer => assert(Preset::ALL@[11] == p),
    }
}

} // verus!
