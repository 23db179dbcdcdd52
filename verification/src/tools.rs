//! The toolbox of the ray-optics bench.

use vstd::prelude::*;

verus! {

/// An item of the toolbox that can be dropped onto the bench.
#[derive(Clone, Copy, Debug, PartialEq, Eq, Structural)]
pub enum Tool {
    Stickman,
    Tree,
    Sign,
    SlitLamp,
    Checker,
    Converging,
    Diverging,
    Aperture,
    Stop,
    Prism,
    Screen,
    Eye,
}

/// What the toolbox shows for each tool.
pub open spec fn tool_label(t: Tool) -> Seq<char> {
    match t {
        Tool::Stickman => "Stickman"@,
        Tool::Tree => "Tree"@,
        Tool::Sign => "F-sign"@,
        Tool::SlitLamp => "Slit lamp"@,
        Tool::Checker => "Checkerboard"@,
        Tool::Converging => "Converging lens"@,
        Tool::Diverging => "Diverging lens"@,
        Tool::Aperture => "Aperture"@,
        Tool::Stop => "Central stop"@,
        Tool::Prism => "Prism"@,
        Tool::Screen => "Screen"@,
        Tool::Eye => "Eye"@,
    }
}

impl Tool {
    /// Every tool, in the order of the toolbox.
    pub const ALL: [Tool; 12] = [
        Tool::Stickman,
        Tool::Tree,
        Tool::Sign,
        Tool::SlitLamp,
        Tool::Checker,
        Tool::Converging,
        Tool::Diverging,
        Tool::Aperture,
        Tool::Stop,
        Tool::Prism,
        Tool::Screen,
        Tool::Eye,
    ];

    /// The label shown in the toolbox.
    pub fn label(self) -> (s: &'static str)
        ensures
            s@ == tool_label(self),
    {
        match self {
            Tool::Stickman => "Stickman",
            Tool::Tree => "Tree",
            Tool::Sign => "F-sign",
            Tool::SlitLamp => "Slit lamp",
            Tool::Checker => "Checkerboard",
            Tool::Converging => "Converging lens",
            Tool::Diverging => "Diverging lens",
            Tool::Aperture => "Aperture",
            Tool::Stop => "Central stop",
            Tool::Prism => "Prism",
            Tool::Screen => "Screen",
            Tool::Eye => "Eye",
        }
    }
}

/// Law: the toolbox offers every tool exactly once.
pub proof fn lemma_every_tool_offered_once(t: Tool)
    ensures
        exists|i: int| 0 <= i < 12 && #[trigger] Tool::ALL@[i] == t,
        forall|i: int, j: int| 0 <= i < j < 12 ==> Tool::ALL@[i] != Tool::ALL@[j],
{
    match t {
        Tool::Stickman => assert(Tool::ALL@[0] == t),
        Tool::Tree => assert(Tool::ALL@[1] == t),
        Tool::Sign => assert(Tool::ALL@[2] == t),
        Tool::SlitLamp => assert(Tool::ALL@[3] == t),
        Tool::Checker => assert(Tool::ALL@[4] == t),
        Tool::Converging => assert(Tool::ALL@[5] == t),
        Tool::Diverging => assert(Tool::ALL@[6] == t),
        Tool::Aperture => assert(Tool::ALL@[7] == t),
        Tool::Stop => assert(Tool::ALL@[8] == t),
        Tool::Prism => assert(Tool::ALL@[9] == t),
        Tool::Screen => assert(Tool::ALL@[10] == t),
        Tool::Eye => assert(Tool::ALL@[11] == t),
    }
}

} // verus!
