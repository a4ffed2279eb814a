use flow_core::geometry::{HandlePosition, Position};
use flow_core::path::{
    get_bezier_path, get_edge_path, get_smooth_step_path, get_step_path, get_straight_path, path_to_svg,
    PathCommand,
};
use flow_core::types::EdgeType;

fn p(x: i64, y: i64) -> Position {
    Position::new(x, y)
}

#[test]
fn bezier_control_points_follow_sides() {
    let path = get_bezier_path(p(0, 0), p(100, 200), HandlePosition::Bottom, HandlePosition::Top);
    assert_eq!(path, vec![PathCommand::MoveTo(p(0, 0)), PathCommand::CubicTo(p(0, 100), p(100, 100), p(100, 200))]);
    assert_eq!(path_to_svg(&path), "M 0,0 C 0,100 100,100 100,200");
}

#[test]
fn bezier_offset_is_clamped() {
    let near = get_bezier_path(p(0, 0), p(10, 0), HandlePosition::Right, HandlePosition::Left);
    assert_eq!(path_to_svg(&near), "M 0,0 C 30,0 -20,0 10,0");
    let far = get_bezier_path(p(0, 0), p(3000, 0), HandlePosition::Right, HandlePosition::Left);
    assert_eq!(path_to_svg(&far), "M 0,0 C 150,0 2850,0 3000,0");
}

#[test]
fn straight_path_text() {
    assert_eq!(path_to_svg(&get_straight_path(p(1, 2), p(-3, 4))), "M 1,2 L -3,4");
}

#[test]
fn step_path_bends_at_midline() {
    let v = get_step_path(p(0, 0), p(100, 50), HandlePosition::Bottom, HandlePosition::Top);
    assert_eq!(path_to_svg(&v), "M 0,0 L 0,25 L 100,25 L 100,50");
    let h = get_step_path(p(0, 0), p(101, 50), HandlePosition::Right, HandlePosition::Left);
    assert_eq!(path_to_svg(&h), "M 0,0 L 50,0 L 50,50 L 101,50");
}

#[test]
fn smooth_step_forward_rounds_corners() {
    let path = get_smooth_step_path(p(0, 0), p(100, 50), HandlePosition::Right, HandlePosition::Left, 5);
    assert_eq!(path_to_svg(&path), "M 0,0 L 45,0 Q 50,0 50,5 L 50,45 Q 50,50 55,50 L 100,50");
}

#[test]
fn smooth_step_backward_uses_curve() {
    let path = get_smooth_step_path(p(100, 0), p(0, 50), HandlePosition::Right, HandlePosition::Left, 5);
    assert_eq!(path_to_svg(&path), "M 100,0 C 180,0 -80,50 0,50");
}

#[test]
fn smooth_step_vertical_and_radius_cap() {
    let path = get_smooth_step_path(p(0, 0), p(100, 100), HandlePosition::Bottom, HandlePosition::Top, 50);
    assert_eq!(path_to_svg(&path), "M 0,0 L 0,40 Q 0,50 10,50 L 90,50 Q 100,50 100,60 L 100,100");
    let flat = get_smooth_step_path(p(0, 0), p(100, 0), HandlePosition::Left, HandlePosition::Right, 4);
    assert_eq!(path_to_svg(&flat), "M 0,0 L 54,0 Q 50,0 50,0 L 50,0 Q 50,0 46,0 L 100,0");
}

#[test]
fn edge_path_dispatches_by_kind() {
    let s = p(0, 0);
    let t = p(100, 50);
    assert_eq!(
        get_edge_path(EdgeType::Straight, s, t, HandlePosition::Right, HandlePosition::Left),
        get_straight_path(s, t)
    );
    assert_eq!(
        get_edge_path(EdgeType::SmoothStep, s, t, HandlePosition::Right, HandlePosition::Left),
        get_smooth_step_path(s, t, HandlePosition::Right, HandlePosition::Left, 5)
    );
    assert_eq!(
        get_edge_path(EdgeType::Step, s, t, HandlePosition::Bottom, HandlePosition::Top),
        get_step_path(s, t, HandlePosition::Bottom, HandlePosition::Top)
    );
    assert_eq!(
        get_edge_path(EdgeType::Bezier, s, t, HandlePosition::Bottom, HandlePosition::Top),
        get_bezier_path(s, t, HandlePosition::Bottom, HandlePosition::Top)
    );
}
