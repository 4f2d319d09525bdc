//! Assembly joint vocabulary.

use vstd::prelude::*;

use crate::text::str_equal;

verus! {

/// Joint type of the UX subset.
#[derive(Debug, Clone, Copy, PartialEq, Eq, Structural)]
pub enum JointType {
    Rigid,
    Revolute,
    Slider,
    Coincident,
}

/// Full assembly joint vocabulary. Maps onto the [`JointType`] subset where a
/// direct equivalent exists.
#[derive(Debug, Clone, Copy, PartialEq, Eq, Structural)]
pub enum AssemblyJointKind {
    Fixed,
    Revolute,
    Cylindrical,
    Slider,
    Ball,
    Distance,
    Parallel,
    Perpendicular,
    Angle,
    RackPinion,
    Screw,
    Gears,
    Belt,
}

/// The joint kind spelled `name` (exact, case-sensitive spelling).
pub open spec fn joint_kind_named(name: Seq<char>) -> Option<AssemblyJointKind> {
    if name == "Fixed"@ {
        Some(AssemblyJointKind::Fixed)
    } else if name == "Revolute"@ {
        Some(AssemblyJointKind::Revolute)
    } else if name == "Cylindrical"@ {
        Some(AssemblyJointKind::Cylindrical)
    } else if name == "Slider"@ {
        Some(AssemblyJointKind::Slider)
    } else if name == "Ball"@ {
        Some(AssemblyJointKind::Ball)
    } else if name == "Distance"@ {
        Some(AssemblyJointKind::Distance)
    } else if name == "Parallel"@ {
        Some(AssemblyJointKind::Parallel)
    } else if name == "Perpendicular"@ {
        Some(AssemblyJointKind::Perpendicular)
    } else if name == "Angle"@ {
        Some(AssemblyJointKind::Angle)
    } else if name == "RackPinion"@ {
        Some(AssemblyJointKind::RackPinion)
    } else if name == "Screw"@ {
        Some(AssemblyJointKind::Screw)
    } else if name == "Gears"@ {
        Some(AssemblyJointKind::Gears)
    } else if name == "Belt"@ {
        Some(AssemblyJointKind::Belt)
    } else {
        None
    }
}

impl AssemblyJointKind {
    /// Parses a joint type name (case-sensitive, e.g. `"Revolute"`).
    pub fn from_str(name: &str) -> (r: Option<Self>)
        ensures
            r == joint_kind_named(name@),
    {
        if str_equal(name, "Fixed") {
            Some(AssemblyJointKind::Fixed)
        } else if str_equal(name, "Revolute") {
            Some(AssemblyJointKind::Revolute)
        } else if str_equal(name, "Cylindrical") {
            Some(AssemblyJointKind::Cylindrical)
        } else if str_equal(name, "Slider") {
            Some(AssemblyJointKind::Slider)
        } else if str_equal(name, "Ball") {
            Some(AssemblyJointKind::Ball)
        } else if str_equal(name, "Distance") {
            Some(AssemblyJointKind::Distance)
        } else if str_equal(name, "Parallel") {
            Some(AssemblyJointKind::Parallel)
        } else if str_equal(name, "Perpendicular") {
            Some(AssemblyJointKind::Perpendicular)
        } else if str_equal(name, "Angle") {
            Some(AssemblyJointKind::Angle)
        } else if str_equal(name, "RackPinion") {
            Some(AssemblyJointKind::RackPinion)
        } else if str_equal(name, "Screw") {
            Some(AssemblyJointKind::Screw)
        } else if str_equal(name, "Gears") {
            Some(AssemblyJointKind::Gears)
        } else if str_equal(name, "Belt") {
            Some(AssemblyJointKind::Belt)
        } else {
            None
        }
    }

    /// Maps onto the UX subset. Compound, coupled and constraint joints have
    /// no direct equivalent (`None`).
    pub fn to_ux_type(self) -> (r: Option<JointType>)
        ensures
            r == (match self {
                AssemblyJointKind::Fixed => Some(JointType::Rigid),
                AssemblyJointKind::Revolute => Some(JointType::Revolute),
                AssemblyJointKind::Slider => Some(JointType::Slider),
                _ => None,
            }),
    {
        match self {
            AssemblyJointKind::Fixed => Some(JointType::Rigid),
            AssemblyJointKind::Revolute => Some(JointType::Revolute),
            AssemblyJointKind::Slider => Some(JointType::Slider),
            _ => None,
        }
    }

    /// Joints that the motion preview can animate.
    pub fn is_animatable(self) -> (b: bool)
        ensures
            b == (self == AssemblyJointKind::Revolute || self == AssemblyJointKind::Slider || self
                == AssemblyJointKind::Cylindrical),
    {
        match self {
            AssemblyJointKind::Revolute | AssemblyJointKind::Slider | AssemblyJointKind::Cylindrical => true,
            _ => false,
        }
    }
}

/// The spelling of each joint kind.
pub open spec fn joint_kind_name(k: AssemblyJointKind) -> Seq<char> {
    match k {
        AssemblyJointKind::Fixed => "Fixed"@,
        AssemblyJointKind::Revolute => "Revolute"@,
        AssemblyJointKind::Cylindrical => "Cylindrical"@,
        AssemblyJointKind::Slider => "Slider"@,
        AssemblyJointKind::Ball => "Ball"@,
        AssemblyJointKind::Distance => "Distance"@,
        AssemblyJointKind::Parallel => "Parallel"@,
        AssemblyJointKind::Perpendicular => "Perpendicular"@,
        AssemblyJointKind::Angle => "Angle"@,
        AssemblyJointKind::RackPinion => "RackPinion"@,
        AssemblyJointKind::Screw => "Screw"@,
        AssemblyJointKind::Gears => "Gears"@,
        AssemblyJointKind::Belt => "Belt"@,
    }
}

/// Every joint kind parses back from its own spelling.
pub proof fn lemma_joint_names_roundtrip(k: AssemblyJointKind)
    ensures
        joint_kind_named(joint_kind_name(k)) == Some(k),
{
    reveal_strlit("Fixed");
    reveal_strlit("Revolute");
    reveal_strlit("Cylindrical");
    reveal_strlit("Slider");
    reveal_strlit("Ball");
    reveal_strlit("Distance");
    reveal_strlit("Parallel");
    reveal_strlit("Perpendicular");
    reveal_strlit("Angle");
    reveal_strlit("RackPinion");
    reveal_strlit("Screw");
    reveal_strlit("Gears");
    reveal_strlit("Belt");
    let n = joint_kind_name(k);
    if k != AssemblyJointKind::Fixed {
        assert(n[0] != 'F' || n.len() != 5);
    }
    if k != AssemblyJointKind::Revolute {
        assert(n[0] != 'R' || n[1] != 'e' || n.len() != 8);
    }
    if k != AssemblyJointKind::Cylindrical {
        assert(n[0] != 'C');
    }
    if k != AssemblyJointKind::Slider {
        assert(n[0] != 'S' || n[1] != 'l');
    }
    if k != AssemblyJointKind::Ball {
        assert(n[0] != 'B' || n[1] != 'a');
    }
    if k != AssemblyJointKind::Distance {
        assert(n[0] != 'D');
    }
    if k != AssemblyJointKind::Parallel {
        assert(n[0] != 'P' || n[1] != 'a');
    }
    if k != AssemblyJointKind::Perpendicular {
        assert(n[0] != 'P' || n[1] != 'e');
    }
    if k != AssemblyJointKind::Angle {
        assert(n[0] != 'A');
    }
    if k != AssemblyJointKind::RackPinion {
        assert(n[0] != 'R' || n[1] != 'a');
    }
    if k != AssemblyJointKind::Screw {
        assert(n[0] != 'S' || n[1] != 'c');
    }
    if k != AssemblyJointKind::Gears {
        assert(n[0] != 'G');
    }
}

} // verus!
