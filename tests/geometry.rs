use flow_core::geometry::{
    clamp, HandlePosition, NodeExtent, Position, SelectionBoxState, SelectionRect, SnapGrid, Viewport,
};

#[test]
fn screen_and_diagram_round_trip() {
    let camera = Viewport::new(10, 20, 2000);
    let p = camera.screen_to_flow(110, 60);
    assert_eq!(p, Position::new(50, 20));
    let back = camera.flow_to_screen(p.x, p.y);
    assert_eq!(back, Position::new(110, 60));
}

#[test]
fn round_trip_stays_within_one_zoom_step() {
    let camera = Viewport::new(0, 0, 3000);
    for s in -50i64..50 {
        let d = camera.screen_to_flow(s, s);
        let back = camera.flow_to_screen(d.x, d.y);
        assert!(back.x <= s && (s - back.x) * 1000 < 3000 + 1000);
    }
}

#[test]
fn screen_to_flow_rounds_down() {
    let camera = Viewport::new(0, 0, 3000);
    assert_eq!(camera.screen_to_flow(-1, 2), Position::new(-1, 0));
}

#[test]
fn viewport_zoom_is_clamped() {
    assert_eq!(Viewport::new(0, 0, 5).zoom, 100);
    assert_eq!(Viewport::new(0, 0, 9000).zoom, 4000);
    assert_eq!(Viewport::default(), Viewport { x: 0, y: 0, zoom: 1000 });
}

#[test]
fn snap_rounds_to_nearest_cell() {
    let grid = SnapGrid::new(15);
    assert_eq!(grid.snap(Position::new(7, 8)), Position::new(0, 15));
    assert_eq!(grid.snap(Position::new(-8, -7)), Position::new(-15, 0));
    let halves = SnapGrid::new(10);
    assert_eq!(halves.snap(Position::new(5, -5)), Position::new(10, -10));
}

#[test]
fn snap_is_idempotent() {
    let grid = SnapGrid::new(15);
    for v in [-31i64, -8, 0, 7, 8, 22, 23, 1000] {
        let once = grid.snap(Position::new(v, v + 3));
        assert_eq!(grid.snap(once), once);
    }
}

#[test]
fn disabled_grid_leaves_position() {
    let grid = SnapGrid::default();
    assert!(!grid.enabled);
    assert_eq!(grid.size, 15);
    assert_eq!(grid.snap(Position::new(7, 8)), Position::new(7, 8));
}

#[test]
fn extent_keeps_whole_box_inside() {
    let ext = NodeExtent::new(0, 0, 500, 500);
    assert_eq!(ext.clamp(Position::new(450, 480), 150, 40), Position::new(350, 460));
    assert_eq!(ext.clamp(Position::new(-5, 10), 150, 40), Position::new(0, 10));
    let tight = NodeExtent::parent(100, 30);
    assert_eq!(tight.clamp(Position::new(50, 50), 150, 40), Position::new(0, 0));
}

#[test]
fn clamp_raises_then_lowers() {
    assert_eq!(clamp(5, 0, 10), 5);
    assert_eq!(clamp(-3, 0, 10), 0);
    assert_eq!(clamp(12, 0, 10), 10);
    assert_eq!(clamp(5, 10, 0), 0);
}

#[test]
fn rectangles_intersect_unless_separated() {
    let r = SelectionRect { x: 0, y: 0, width: 250, height: 50 };
    assert!(r.intersects(&SelectionRect { x: 200, y: 0, width: 150, height: 40 }));
    assert!(r.intersects(&SelectionRect { x: 250, y: 50, width: 10, height: 10 }));
    assert!(!r.intersects(&SelectionRect { x: 251, y: 0, width: 10, height: 10 }));
    assert!(!r.intersects(&SelectionRect { x: 0, y: -20, width: 10, height: 19 }));
    assert!(r.contains(250, 50));
    assert!(!r.contains(251, 0));
}

#[test]
fn selection_box_normalizes() {
    let mut b = SelectionBoxState::new();
    b.update(Position::new(5, 5));
    assert!(!b.active);
    b.start(Position::new(100, 80));
    b.update(Position::new(20, 120));
    assert_eq!(b.get_rect(), SelectionRect { x: 20, y: 80, width: 80, height: 40 });
    assert!(b.contains(50, 100));
    assert!(b.intersects(0, 0, 30, 90));
    assert_eq!(b.finish(), Some(SelectionRect { x: 20, y: 80, width: 80, height: 40 }));
    assert_eq!(b.finish(), None);
    b.start(Position::new(1, 1));
    b.cancel();
    assert!(!b.active);
}

#[test]
fn side_offsets() {
    assert_eq!(HandlePosition::Top.offset(150, 40), Position::new(75, 0));
    assert_eq!(HandlePosition::Right.offset(150, 40), Position::new(150, 20));
    assert_eq!(HandlePosition::Bottom.offset(150, 40), Position::new(75, 40));
    assert_eq!(HandlePosition::Left.offset(150, 40), Position::new(0, 20));
    assert_eq!(HandlePosition::Left.offset_indexed(150, 40, 1, 3), Position::new(0, 20));
    assert_eq!(HandlePosition::Top.offset_indexed(150, 40, 0, 2), Position::new(50, 0));
    assert_eq!(HandlePosition::Right.offset_indexed(150, 40, 0, 1), Position::new(150, 20));
}
