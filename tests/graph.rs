use flow_core::flow::{calculate_bounds, FlowState};
use flow_core::geometry::{HandlePosition, NodeExtent, Position, SelectionRect, SnapGrid, Viewport};
use flow_core::types::{
    ConnectionValidation, Edge, EdgeType, HandleKind, KeyboardModifiers, Node, NodeHandle, PendingConnection,
};

fn ids(nodes: &[&Node]) -> Vec<String> {
    nodes.iter().map(|n| n.id.clone()).collect()
}

fn three_in_a_row() -> FlowState {
    let nodes = vec![Node::new("a", 0, 0), Node::new("b", 200, 0), Node::new("c", 500, 500)];
    let edges = vec![Edge::new("e1", "a", "b"), Edge::new("e2", "b", "c")];
    FlowState::with_nodes_and_edges(nodes, edges)
}

#[test]
fn box_select_picks_overlapping_nodes() {
    let mut s = three_in_a_row();
    s.select_in_rect(SelectionRect { x: 0, y: 0, width: 250, height: 50 }, false);
    assert_eq!(s.selected_nodes, vec!["a".to_string(), "b".to_string()]);
    assert!(s.nodes[0].selected && s.nodes[1].selected && !s.nodes[2].selected);
    assert!(s.selected_edges.is_empty());
}

#[test]
fn box_select_skips_unselectable_and_keeps_with_multi() {
    let nodes = vec![Node::new("a", 0, 0), Node::new("b", 200, 0).with_selectable(false), Node::new("c", 500, 500)];
    let mut s = FlowState::with_nodes_and_edges(nodes, vec![]);
    s.select_node("c", false);
    s.select_in_rect(SelectionRect { x: 0, y: 0, width: 250, height: 50 }, true);
    assert_eq!(s.selected_nodes, vec!["c".to_string(), "a".to_string()]);
    assert!(!s.nodes[1].selected);
}

#[test]
fn bring_to_front_reorders() {
    let mut s = FlowState::new();
    s.add_node(Node::new("A", 0, 0));
    s.add_node(Node::new("B", 0, 0));
    s.add_node(Node::new("C", 0, 0));
    assert_eq!(s.nodes.iter().map(|n| n.z_index).collect::<Vec<_>>(), vec![1, 2, 3]);
    s.bring_to_front("A");
    assert_eq!(ids(&s.nodes_sorted_by_z_index()), vec!["B", "C", "A"]);
    assert_eq!(s.max_z_index, 4);
}

#[test]
fn send_to_back_reorders() {
    let mut s = FlowState::new();
    s.add_node(Node::new("A", 0, 0));
    s.add_node(Node::new("B", 0, 0));
    s.add_node(Node::new("C", 0, 0));
    s.send_to_back("C");
    assert_eq!(s.nodes.iter().map(|n| n.z_index).collect::<Vec<_>>(), vec![2, 3, 0]);
    assert_eq!(ids(&s.nodes_sorted_by_z_index()), vec!["C", "A", "B"]);
}

#[test]
fn z_order_is_stable_for_ties() {
    let nodes = vec![Node::new("x", 0, 0).with_z_index(5), Node::new("y", 0, 0).with_z_index(2), Node::new("z", 0, 0).with_z_index(5)];
    let s = FlowState::with_nodes_and_edges(nodes, vec![]);
    assert_eq!(ids(&s.nodes_sorted_by_z_index()), vec!["y", "x", "z"]);
    assert_eq!(s.max_z_index, 5);
    let mut s = s;
    s.add_node(Node::new("w", 0, 0).with_z_index(3));
    assert_eq!(s.max_z_index, 5);
    s.add_node(Node::new("v", 0, 0).with_z_index(9));
    assert_eq!(s.max_z_index, 9);
}

#[test]
fn paste_offsets_copy_with_new_id() {
    let mut s = FlowState::with_nodes_and_edges(vec![Node::new("a", 100, 100)], vec![]);
    s.select_node("a", false);
    s.copy_selected();
    assert!(s.has_clipboard_content());
    let new_ids = s.paste(Position::new(20, 20));
    assert_eq!(new_ids.len(), 1);
    assert_ne!(new_ids[0], "a");
    assert!(new_ids[0].starts_with("a-copy-"));
    assert_eq!(new_ids[0].len(), "a-copy-".len() + 36);
    assert_eq!(s.nodes.len(), 2);
    let pasted = s.get_node(&new_ids[0]).unwrap();
    assert_eq!(pasted.position, Position::new(120, 120));
    assert!(pasted.selected);
    assert!(!s.nodes[0].selected);
    assert_eq!(s.selected_nodes, new_ids);
    assert!(s.edges.is_empty());
    let again = s.paste(Position::new(20, 20));
    assert_ne!(again[0], new_ids[0]);
    assert_eq!(s.nodes.len(), 3);
    assert_eq!(s.nodes[2].position, Position::new(120, 120));
}

#[test]
fn paste_copies_inner_edges() {
    let mut s = three_in_a_row();
    s.select_nodes(&["a", "b"], false);
    s.copy_selected();
    assert_eq!(s.clipboard.nodes.len(), 2);
    assert_eq!(s.clipboard.edges.len(), 1);
    let new_ids = s.paste(Position::new(0, 300));
    assert_eq!(s.nodes.len(), 5);
    assert_eq!(s.edges.len(), 3);
    let e = &s.edges[2];
    assert_eq!(e.source, new_ids[0]);
    assert_eq!(e.target, new_ids[1]);
    assert!(e.id.starts_with("e1-copy-"));
}

#[test]
fn paste_with_empty_clipboard_does_nothing() {
    let mut s = three_in_a_row();
    assert!(!s.has_clipboard_content());
    assert!(s.paste(Position::new(5, 5)).is_empty());
    assert_eq!(s.nodes.len(), 3);
}

#[test]
fn self_loop_is_rejected() {
    let a = Node::new_without_handles("A", 0, 0).with_handle(NodeHandle::source("out"));
    let mut s = FlowState::with_nodes_and_edges(vec![a, Node::new("B", 300, 0)], vec![]);
    s.start_connection_from_handle("A", "out", HandlePosition::Right, Position::new(150, 20));
    assert!(s.connection.is_some());
    let made = s.complete_connection_to_handle("A", HandlePosition::Left, Some("in".to_string()));
    assert!(made.is_none());
    assert!(s.connection.is_none());
    assert!(s.edges.is_empty());
}

#[test]
fn connection_creates_edge_once() {
    let mut s = FlowState::with_nodes_and_edges(vec![Node::new("A", 0, 0), Node::new("B", 300, 0)], vec![]);
    s.start_connection("A", HandlePosition::Bottom, Position::new(75, 40));
    s.update_connection(Position::new(200, 200));
    assert_eq!(s.connection.as_ref().unwrap().target_position, Position::new(200, 200));
    let made = s.complete_connection("B", HandlePosition::Top).unwrap();
    assert_eq!(made.id, "eA-B");
    assert_eq!(made.source, "A");
    assert_eq!(made.target, "B");
    assert_eq!(made.edge_type, EdgeType::Bezier);
    assert_eq!(made.stroke, "#b1b1b7");
    assert_eq!(s.edges.len(), 1);
    s.start_connection("A", HandlePosition::Bottom, Position::new(75, 40));
    assert!(s.complete_connection("B", HandlePosition::Top).is_none());
    assert_eq!(s.edges.len(), 1);
    assert!(s.connection.is_none());
}

#[test]
fn connection_start_needs_idle_and_connectable() {
    let mut s = FlowState::with_nodes_and_edges(
        vec![Node::new_without_handles("A", 0, 0), Node::new("B", 300, 0), Node::new("C", 0, 300)],
        vec![],
    );
    s.start_connection("A", HandlePosition::Bottom, Position::new(0, 0));
    assert!(s.connection.is_none());
    s.start_connection("missing", HandlePosition::Bottom, Position::new(0, 0));
    assert!(s.connection.is_none());
    s.start_connection_from_handle("B", "nope", HandlePosition::Bottom, Position::new(0, 0));
    assert!(s.connection.is_none());
    s.start_connection("B", HandlePosition::Bottom, Position::new(0, 0));
    s.start_connection("C", HandlePosition::Bottom, Position::new(0, 0));
    assert_eq!(s.connection.as_ref().unwrap().source, "B");
    s.cancel_connection();
    assert!(s.connection.is_none());
    assert!(s.complete_connection("C", HandlePosition::Top).is_none());
}

#[test]
fn validation_messages() {
    let s = three_in_a_row();
    let pending = |src: &str, tgt: &str| PendingConnection {
        source: src.to_string(),
        source_handle: HandlePosition::Bottom,
        source_handle_id: None,
        target: tgt.to_string(),
        target_handle: HandlePosition::Top,
        target_handle_id: None,
    };
    let own = s.validate_connection(&pending("a", "a"));
    assert_eq!(own, ConnectionValidation::invalid("Cannot connect a node to itself"));
    let dup = s.validate_connection(&pending("a", "b"));
    assert_eq!(dup.message.as_deref(), Some("Connection already exists"));
    assert_eq!(s.validate_connection(&pending("a", "c")), ConnectionValidation::valid());
}

#[test]
fn duplicate_edge_is_ignored() {
    let mut s = three_in_a_row();
    s.add_edge(Edge::new("other", "a", "b"));
    assert_eq!(s.edges.len(), 2);
    s.add_edge(Edge::new("e3", "a", "b").with_source_handle(HandlePosition::Right));
    assert_eq!(s.edges.len(), 3);
    s.add_edge(Edge::new_with_handles("h1", "a", "out", "b", "in"));
    s.add_edge(Edge::new_with_handles("h2", "a", "out", "b", "in"));
    assert_eq!(s.edges.len(), 4);
}

#[test]
fn removing_node_cascades() {
    let mut s = three_in_a_row();
    s.select_node("b", false);
    s.remove_node("b");
    assert_eq!(s.nodes.len(), 2);
    assert!(s.edges.iter().all(|e| e.source != "b" && e.target != "b"));
    assert!(s.edges.is_empty());
    assert!(s.selected_nodes.is_empty());
}

#[test]
fn remove_edge_drops_selection() {
    let mut s = three_in_a_row();
    s.select_edge("e1", false);
    assert_eq!(s.selected_edges, vec!["e1".to_string()]);
    assert!(s.edges[0].selected);
    s.remove_edge("e1");
    assert_eq!(s.edges.len(), 1);
    assert!(s.selected_edges.is_empty());
}

#[test]
fn delete_selected_reports_removed() {
    let mut s = three_in_a_row();
    s.select_node("b", false);
    s.select_edge("e1", true);
    let (nodes, edges) = s.delete_selected();
    assert_eq!(nodes, vec!["b".to_string()]);
    assert_eq!(edges, vec!["e1".to_string(), "e2".to_string()]);
    assert_eq!(s.nodes.len(), 2);
    assert!(s.edges.is_empty());
    assert!(s.selected_nodes.is_empty() && s.selected_edges.is_empty());
}

#[test]
fn delete_selected_spares_undeletable() {
    let nodes = vec![Node::new("a", 0, 0), Node::new("b", 200, 0).with_deletable(false)];
    let edges = vec![Edge::new("e1", "a", "b").with_deletable(false)];
    let mut s = FlowState::with_nodes_and_edges(nodes, edges);
    s.select_all();
    assert_eq!(s.selected_nodes.len(), 2);
    let (gone_nodes, gone_edges) = s.delete_selected();
    assert_eq!(gone_nodes, vec!["a".to_string()]);
    assert_eq!(gone_edges, vec!["e1".to_string()]);
    assert_eq!(s.nodes.len(), 1);
    assert_eq!(s.nodes[0].id, "b");
}

#[test]
fn cut_copies_then_deletes() {
    let mut s = three_in_a_row();
    s.select_nodes(&["a", "b"], false);
    let (nodes, edges) = s.cut_selected();
    assert_eq!(nodes.len(), 2);
    assert_eq!(edges, vec!["e1".to_string(), "e2".to_string()]);
    assert_eq!(s.clipboard.nodes.len(), 2);
    assert_eq!(s.clipboard.edges.len(), 1);
    assert_eq!(s.nodes.len(), 1);
}

#[test]
fn undo_then_redo_restores() {
    let mut s = three_in_a_row();
    assert!(!s.can_undo());
    s.save_to_history();
    s.remove_node("c");
    assert!(s.can_undo());
    assert!(s.undo());
    assert_eq!(s.nodes.len(), 3);
    assert_eq!(s.edges.len(), 2);
    assert!(s.can_redo());
    assert!(s.redo());
    assert_eq!(s.nodes.len(), 2);
    assert_eq!(s.edges.len(), 1);
    assert!(!s.redo());
    assert_eq!(s.nodes.len(), 2);
}

#[test]
fn undo_clears_selection_and_history_is_bounded() {
    let mut s = three_in_a_row();
    for _ in 0..105 {
        s.save_to_history();
    }
    assert_eq!(s.undo_stack.len(), 100);
    s.select_all();
    assert!(s.undo());
    assert!(s.selected_nodes.is_empty());
    assert!(s.nodes.iter().all(|n| !n.selected));
    s.save_to_history();
    assert!(!s.can_redo());
    let mut empty = FlowState::new();
    assert!(!empty.undo());
}

#[test]
fn position_update_snaps_and_clamps() {
    let mut s = FlowState::with_nodes_and_edges(
        vec![Node::new("a", 0, 0).with_extent(NodeExtent::new(0, 0, 500, 500)), Node::new("b", 0, 0)],
        vec![],
    );
    s.update_node_position("a", Position::new(450, 480));
    assert_eq!(s.nodes[0].position, Position::new(350, 460));
    s.set_snap_grid(SnapGrid::new(20));
    s.update_node_position("b", Position::new(29, 31));
    assert_eq!(s.nodes[1].position, Position::new(20, 40));
    s.set_snap_enabled(false);
    s.update_node_position("b", Position::new(29, 31));
    assert_eq!(s.nodes[1].position, Position::new(29, 31));
    s.update_node_position("zzz", Position::new(1, 1));
    assert_eq!(s.nodes[1].position, Position::new(29, 31));
}

#[test]
fn moving_selection_skips_fixed_nodes() {
    let nodes = vec![Node::new("a", 0, 0), Node::new("b", 10, 10).with_draggable(false), Node::new("c", 5, 5)];
    let mut s = FlowState::with_nodes_and_edges(nodes, vec![]);
    s.select_nodes(&["a", "b"], false);
    s.move_selected_nodes(7, -3);
    assert_eq!(s.nodes[0].position, Position::new(7, -3));
    assert_eq!(s.nodes[1].position, Position::new(10, 10));
    assert_eq!(s.nodes[2].position, Position::new(5, 5));
    s.set_snap_grid(SnapGrid::new(10));
    s.move_selected_nodes(1, 1);
    assert_eq!(s.nodes[0].position, Position::new(10, 0));
}

#[test]
fn select_node_respects_selectable() {
    let nodes = vec![Node::new("a", 0, 0), Node::new("b", 0, 0).with_selectable(false)];
    let mut s = FlowState::with_nodes_and_edges(nodes, vec![]);
    s.select_node("a", false);
    s.select_node("b", false);
    assert_eq!(s.selected_nodes, vec!["a".to_string()]);
    s.select_node("a", true);
    assert_eq!(s.selected_nodes.len(), 1);
    s.clear_selection();
    assert!(s.selected_nodes.is_empty());
    assert!(!s.nodes[0].selected);
}

#[test]
fn zoom_keeps_anchor() {
    let mut s = FlowState::new();
    let before = s.viewport.screen_to_flow(100, 60);
    s.zoom(1000, 100, 60);
    assert_eq!(s.viewport, Viewport { x: -100, y: -60, zoom: 2000 });
    assert_eq!(s.viewport.screen_to_flow(100, 60), before);
    s.set_zoom(10_000, 0, 0);
    assert_eq!(s.viewport.zoom, 4000);
    s.zoom_out(0, 0);
    assert_eq!(s.viewport.zoom, 3800);
    s.zoom_in(0, 0);
    assert_eq!(s.viewport.zoom, 4000);
    s.pan(5, -5);
    assert_eq!((s.viewport.x, s.viewport.y), (-195, -125));
    s.set_viewport(Viewport { x: 1, y: 2, zoom: 1 });
    assert_eq!(s.viewport, Viewport { x: 1, y: 2, zoom: 100 });
}

#[test]
fn fit_view_centres_content() {
    let mut s = FlowState::with_nodes_and_edges(vec![Node::new("a", 0, 0)], vec![]);
    s.fit_view(0, 300, 80);
    assert_eq!(s.viewport, Viewport { x: 75, y: 20, zoom: 1000 });
    let mut wide = FlowState::with_nodes_and_edges(vec![Node::new("a", 0, 0), Node::new("b", 1350, 0)], vec![]);
    wide.fit_view(0, 300, 300);
    assert_eq!(wide.viewport, Viewport { x: 0, y: 146, zoom: 200 });
    let mut empty = FlowState::new();
    empty.fit_view(10, 300, 300);
    assert_eq!(empty.viewport, Viewport::default());
}

#[test]
fn handle_positions_on_node() {
    let n = Node::new("n", 10, 20).with_outputs(&["x", "y"]).with_inputs(&["i"]);
    assert_eq!(n.handles.len(), 5);
    assert_eq!(n.handles[2].id, "output-0");
    assert_eq!(n.handles[3].id, "output-1");
    assert_eq!(n.handles[4].id, "input-0");
    assert_eq!(n.handles[2].offset, Some(333));
    assert_eq!(n.handles[4].offset, Some(500));
    assert_eq!(n.handles[3].label.as_deref(), Some("y"));
    assert_eq!(n.handle_position_by_id("source"), Some(Position::new(85, 60)));
    assert_eq!(n.handle_position_by_id("output-0"), Some(Position::new(160, 33)));
    assert_eq!(n.handle_position_by_id("nope"), None);
    assert_eq!(n.center(), Position::new(85, 40));
    assert_eq!(n.handle_position(HandlePosition::Left), Position::new(10, 40));
    assert_eq!(n.source_handles().len(), 3);
    assert_eq!(n.target_handles().len(), 2);
    assert_eq!(n.get_handle("input-0").unwrap().kind, HandleKind::Target);
}

#[test]
fn many_handles_get_multi_digit_ids() {
    let labels: Vec<&str> = vec!["l"; 12];
    let n = Node::new_without_handles("n", 0, 0).with_inputs(&labels);
    assert_eq!(n.handles[11].id, "input-11");
    assert!(n.connectable);
}

#[test]
fn node_builders_and_style() {
    let n = Node::new("n", 0, 0)
        .with_type("custom")
        .with_class("big")
        .with_style("color", "red")
        .with_style("width", "3")
        .with_style("color", "blue")
        .with_dimensions(200, 80)
        .with_data("payload".to_string());
    assert_eq!(n.node_type, "custom");
    assert_eq!(n.class, "big");
    assert_eq!(n.style, vec![("width".to_string(), "3".to_string()), ("color".to_string(), "blue".to_string())]);
    assert_eq!(n.width, Some(200));
    assert_eq!(n.data, "payload");
    assert_eq!(n.center(), Position::new(100, 40));
    let m = n.clone();
    assert_eq!(m, n);
    let h = NodeHandle::target("t").with_offset(2000).with_max_connections(3).with_label("in");
    assert_eq!(h.offset, Some(1000));
    assert_eq!(h.max_connections, Some(3));
}

#[test]
fn edge_builders() {
    let e = Edge::new("e", "a", "b")
        .with_type(EdgeType::Step)
        .with_animated(true)
        .with_label("go")
        .with_stroke("#000")
        .with_stroke_width(3)
        .with_class("thick")
        .with_source_handle_id("out")
        .with_target_handle_id("in")
        .with_target_handle(HandlePosition::Left);
    assert_eq!(e.edge_type, EdgeType::Step);
    assert!(e.animated);
    assert_eq!(e.label.as_deref(), Some("go"));
    assert_eq!(e.stroke, "#000");
    assert_eq!(e.stroke_width, 3);
    assert_eq!(e.source_handle_id.as_deref(), Some("out"));
    assert_eq!(e.target_handle, HandlePosition::Left);
    assert_eq!(e.clone(), e);
}

#[test]
fn small_records() {
    let k = KeyboardModifiers::from_keyboard_event(true, false, true, false);
    assert!(k.shift && k.alt && !k.ctrl && !k.meta);
    let v = ConnectionValidation::valid();
    assert!(v.is_valid && v.message.is_none());
    let w = ConnectionValidation::invalid("no");
    assert!(!w.is_valid);
    assert_eq!(w.message.as_deref(), Some("no"));
}

#[test]
fn get_mut_changes_in_place() {
    let mut s = three_in_a_row();
    s.get_node_mut("b").unwrap().deletable = false;
    assert!(!s.get_node("b").unwrap().deletable);
    s.get_edge_mut("e2").unwrap().animated = true;
    assert!(s.get_edge("e2").unwrap().animated);
    assert!(s.get_node_mut("nope").is_none());
    assert!(s.get_edge("nope").is_none());
}

#[test]
fn bounds_of_nodes() {
    let s = three_in_a_row();
    assert_eq!(calculate_bounds(&s.nodes), (0, 0, 650, 540));
    assert_eq!(calculate_bounds(&Vec::new()), (0, 0, 100, 100));
}

#[test]
fn second_handle_pair_gets_distinct_edge_id() {
    let a = Node::new_without_handles("A", 0, 0)
        .with_handle(NodeHandle::source("o1"))
        .with_handle(NodeHandle::source("o2"));
    let mut s = FlowState::with_nodes_and_edges(vec![a, Node::new("B", 300, 0)], vec![]);
    s.start_connection_from_handle("A", "o1", HandlePosition::Right, Position::new(0, 0));
    let first = s.complete_connection_to_handle("B", HandlePosition::Left, Some("target".to_string())).unwrap();
    s.start_connection_from_handle("A", "o2", HandlePosition::Right, Position::new(0, 0));
    let second = s.complete_connection_to_handle("B", HandlePosition::Left, Some("target".to_string())).unwrap();
    assert_eq!(first.id, "eA-B");
    assert_eq!(second.id, "eA-B~");
    assert_eq!(s.edges.len(), 2);
}

#[test]
fn select_all_lists_in_node_then_edge_order() {
    let mut s = three_in_a_row();
    s.select_node("c", false);
    s.select_all();
    assert_eq!(s.selected_nodes, vec!["c".to_string(), "a".to_string(), "b".to_string()]);
    assert_eq!(s.selected_edges, vec!["e1".to_string(), "e2".to_string()]);
}

#[test]
fn select_nodes_follows_node_order() {
    let mut s = three_in_a_row();
    s.select_nodes(&["c", "a", "missing"], false);
    assert_eq!(s.selected_nodes, vec!["a".to_string(), "c".to_string()]);
}

#[test]
fn pasted_edges_get_fresh_ids_and_layers() {
    let nodes = vec![Node::new("a", 0, 0), Node::new("b", 200, 0).with_z_index(7)];
    let edges = vec![Edge::new("e", "a", "b").with_label("x")];
    let mut s = FlowState::with_nodes_and_edges(nodes, edges);
    s.select_all();
    s.copy_selected();
    let ids1 = s.paste(Position::new(0, 100));
    let ids2 = s.paste(Position::new(0, 200));
    assert_eq!(s.edges.len(), 3);
    assert_ne!(s.edges[1].id, s.edges[2].id);
    assert_eq!(s.edges[1].label.as_deref(), Some("x"));
    assert_eq!((s.edges[2].source.clone(), s.edges[2].target.clone()), (ids2[0].clone(), ids2[1].clone()));
    assert_eq!(s.get_node(&ids1[0]).unwrap().z_index, 8);
    assert_eq!(s.get_node(&ids1[1]).unwrap().z_index, 7);
    assert_eq!(s.get_node(&ids2[0]).unwrap().z_index, 9);
    assert_eq!(s.max_z_index, 9);
}
