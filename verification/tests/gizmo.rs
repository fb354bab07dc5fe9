use engine_core::gizmo::axis_to_string;
use engine_core::{GizmoAxis, GizmoMode};

#[test]
fn test_gizmo_axis_from_str() {
    assert_eq!("x".parse::<GizmoAxis>().unwrap(), GizmoAxis::X);
    assert_eq!("Y".parse::<GizmoAxis>().unwrap(), GizmoAxis::Y);
    assert_eq!("xy".parse::<GizmoAxis>().unwrap(), GizmoAxis::XY);
    assert_eq!("invalid".parse::<GizmoAxis>().unwrap(), GizmoAxis::NoAxis);
}

#[test]
fn axis_names_are_read_in_any_case() {
    assert_eq!(GizmoAxis::parse("Z"), GizmoAxis::Z);
    assert_eq!(GizmoAxis::parse("YZ"), GizmoAxis::YZ);
    assert_eq!(GizmoAxis::parse("xZ"), GizmoAxis::XZ);
    assert_eq!(GizmoAxis::parse("ALL"), GizmoAxis::All);
    assert_eq!(GizmoAxis::parse(""), GizmoAxis::NoAxis);
    assert_eq!(GizmoAxis::parse("zx"), GizmoAxis::NoAxis);
}

#[test]
fn from_lowercase_reads_lower_case_only() {
    assert_eq!(GizmoAxis::from_lowercase("y"), GizmoAxis::Y);
    assert_eq!(GizmoAxis::from_lowercase("Y"), GizmoAxis::NoAxis);
    assert_eq!(GizmoAxis::from_lowercase("all"), GizmoAxis::All);
}

#[test]
fn axis_names_round_trip() {
    let axes = [
        GizmoAxis::X,
        GizmoAxis::Y,
        GizmoAxis::Z,
        GizmoAxis::XY,
        GizmoAxis::YZ,
        GizmoAxis::XZ,
        GizmoAxis::All,
        GizmoAxis::NoAxis,
    ];
    let names = ["x", "y", "z", "xy", "yz", "xz", "all", ""];
    for i in 0..axes.len() {
        assert_eq!(axis_to_string(axes[i]), names[i]);
        assert_eq!(GizmoAxis::parse(names[i]), axes[i]);
    }
}

#[test]
fn mode_names() {
    assert_eq!(GizmoMode::from_name("translate"), Some(GizmoMode::Translate));
    assert_eq!(GizmoMode::from_name("rotate"), Some(GizmoMode::Rotate));
    assert_eq!(GizmoMode::from_name("scale"), Some(GizmoMode::Scale));
    assert_eq!(GizmoMode::from_name("Scale"), None);
    assert_eq!(GizmoMode::from_name(""), None);
    assert_eq!(GizmoMode::default(), GizmoMode::Translate);
    assert_eq!(GizmoAxis::default(), GizmoAxis::NoAxis);
}
