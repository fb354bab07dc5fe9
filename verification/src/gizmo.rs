//! The modes and axes of the transform gizmo, and their names.

use crate::text::same_text;
use vstd::prelude::*;

verus! {

/// What the gizmo does to the entity it is attached to.
#[derive(Debug, Clone, Copy, PartialEq, Eq, Structural)]
pub enum GizmoMode {
    Translate,
    Rotate,
    Scale,
}

impl Default for GizmoMode {
    fn default() -> (r: Self)
        ensures
            r == GizmoMode::Translate,
    {
        GizmoMode::Translate
    }
}

impl GizmoMode {
    /// The mode that a name stands for, if it is the name of one.
    pub open spec fn spec_from_name(name: Seq<char>) -> Option<GizmoMode> {
        if name == "translate"@ {
            Some(GizmoMode::Translate)
        } else if name == "rotate"@ {
            Some(GizmoMode::Rotate)
        } else if name == "scale"@ {
            Some(GizmoMode::Scale)
        } else {
            None
        }
    }

    /// Reads the name of a mode. The names are in lower case.
    pub fn from_name(name: &str) -> (r: Option<GizmoMode>)
        ensures
            r == Self::spec_from_name(name@),
    {
        if same_text(name, "translate") {
            Some(GizmoMode::Translate)
        } else if same_text(name, "rotate") {
            Some(GizmoMode::Rotate)
        } else if same_text(name, "scale") {
            Some(GizmoMode::Scale)
        } else {
            None
        }
    }
}

/// The axis, or the plane of two axes, that a handle of the gizmo moves along.
#[derive(Debug, Clone, Copy, PartialEq, Eq, Structural)]
pub enum GizmoAxis {
    /// No axis at all.
    NoAxis,
    X,
    Y,
    Z,
    XY,
    YZ,
    XZ,
    All,
}

impl Default for GizmoAxis {
    fn default() -> (r: Self)
        ensures
            r == GizmoAxis::NoAxis,
    {
        GizmoAxis::NoAxis
    }
}

/// The lower-case form of a text, as the standard library gives it.
pub uninterp spec fn lowercase(text: Seq<char>) -> Seq<char>;

/// The lower-case form of a string. This is `str::to_lowercase` of the
/// standard library, which is not verified here: the contract only gives
/// its result a name.
#[verifier::external_body]
fn to_lowercase(text: &str) -> (r: String)
    ensures
        r@ == lowercase(text@),
{
    text.to_lowercase()
}

impl GizmoAxis {
    /// The axis that a name in lower case stands for; no axis for any other text.
    pub open spec fn spec_from_lowercase(name: Seq<char>) -> GizmoAxis {
        if name == "x"@ {
            GizmoAxis::X
        } else if name == "y"@ {
            GizmoAxis::Y
        } else if name == "z"@ {
            GizmoAxis::Z
        } else if name == "xy"@ {
            GizmoAxis::XY
        } else if name == "yz"@ {
            GizmoAxis::YZ
        } else if name == "xz"@ {
            GizmoAxis::XZ
        } else if name == "all"@ {
            GizmoAxis::All
        } else {
            GizmoAxis::NoAxis
        }
    }

    /// Reads the name of an axis that is in lower case already.
    pub fn from_lowercase(name: &str) -> (r: GizmoAxis)
        ensures
            r == Self::spec_from_lowercase(name@),
    {
        if same_text(name, "x") {
            GizmoAxis::X
        } else if same_text(name, "y") {
            GizmoAxis::Y
        } else if same_text(name, "z") {
            GizmoAxis::Z
        } else if same_text(name, "xy") {
            GizmoAxis::XY
        } else if same_text(name, "yz") {
            GizmoAxis::YZ
        } else if same_text(name, "xz") {
            GizmoAxis::XZ
        } else if same_text(name, "all") {
            GizmoAxis::All
        } else {
            GizmoAxis::NoAxis
        }
    }

    /// Reads the name of an axis, in whatever case it is written.
    pub fn parse(name: &str) -> (r: GizmoAxis)
        ensures
            r == Self::spec_from_lowercase(lowercase(name@)),
    {
        let lower = to_lowercase(name);
        Self::from_lowercase(lower.as_str())
    }

    pub open spec fn spec_name(&self) -> Seq<char> {
        match self {
            GizmoAxis::X => "x"@,
            GizmoAxis::Y => "y"@,
            GizmoAxis::Z => "z"@,
            GizmoAxis::XY => "xy"@,
            GizmoAxis::YZ => "yz"@,
            GizmoAxis::XZ => "xz"@,
            GizmoAxis::All => "all"@,
            GizmoAxis::NoAxis => ""@,
        }
    }
}

impl std::str::FromStr for GizmoAxis {
    type Err = std::convert::Infallible;

    /// Reads the name of an axis, in whatever case it is written. It
    /// never fails: a text that names no axis reads as no axis.
    fn from_str(s: &str) -> (r: Result<Self, Self::Err>)
        ensures
            r matches Ok(axis) && axis == GizmoAxis::spec_from_lowercase(lowercase(s@)),
    {
        Ok(GizmoAxis::parse(s))
    }
}

/// The name of an axis; the empty string for no axis.
pub fn axis_to_string(axis: GizmoAxis) -> (r: String)
    ensures
        r@ == axis.spec_name(),
{
    match axis {
        GizmoAxis::X => "x".to_owned(),
        GizmoAxis::Y => "y".to_owned(),
        GizmoAxis::Z => "z".to_owned(),
        GizmoAxis::XY => "xy".to_owned(),
        GizmoAxis::YZ => "yz".to_owned(),
        GizmoAxis::XZ => "xz".to_owned(),
        GizmoAxis::All => "all".to_owned(),
        GizmoAxis::NoAxis => "".to_owned(),
    }
}

} // verus!
