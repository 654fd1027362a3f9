//! Tests of the graph sketch mode: vertex placement, circle selection,
//! and edge creation between selected vertices.

use formui::draw::DrawCtx;
use formui::geom::{Point, Shape, DrawLine};
use formui::graph::GraphModeState;
use formui::metrics::TextMetrics;
use formui::status::{Key, PointerEvent};

fn ctx() -> DrawCtx {
    DrawCtx::new(TextMetrics::new(10, 10), Point { x: 240, y: 240 })
}

#[test]
fn vertices_are_placed_left_to_right() {
    let c = ctx();
    let mut g = GraphModeState::new();
    g.add_vert(&c);
    g.add_vert(&c);
    // Radius is 240 / 24 = 10; the first vertex sits at (10, 60), the
    // second three radii further right.
    assert_eq!(g.drawing.positions[0], Point { x: 10, y: 60 });
    assert_eq!(g.drawing.positions[1], Point { x: 40, y: 60 });
}

#[test]
fn select_circle_hits_only_within_radius() {
    let c = ctx();
    let mut g = GraphModeState::new();
    g.add_vert(&c);
    g.add_vert(&c);
    assert_eq!(g.drawing.select_circle(&Point { x: 12, y: 62 }, &c), Some(0));
    assert_eq!(g.drawing.select_circle(&Point { x: 41, y: 61 }, &c), Some(1));
    assert_eq!(g.drawing.select_circle(&Point { x: 25, y: 60 }, &c), None);
}

#[test]
fn clicking_empty_space_clears_selection() {
    let c = ctx();
    let mut g = GraphModeState::new();
    g.add_vert(&c);
    g.handle_select(&Point { x: 12, y: 62 }, &c);
    assert!(g.selection[0]);
    g.handle_mouse_event(&PointerEvent::ButtonDown { x: 200, y: 200 }, &c);
    assert!(!g.selection[0]);
}

#[test]
fn edges_connect_every_selected_pair() {
    let c = ctx();
    let mut g = GraphModeState::new();
    g.handle_keyboard_event(&Key::Char('v'), &c);
    g.handle_keyboard_event(&Key::Char('v'), &c);
    g.handle_select(&Point { x: 10, y: 60 }, &c);
    g.handle_select(&Point { x: 40, y: 60 }, &c);
    g.handle_keyboard_event(&Key::Char('e'), &c);
    assert!(g.graph.adj[0].contains(&1));
    assert!(g.graph.adj[1].contains(&0));
    // Connecting again adds nothing new.
    let edges_before = g.graph.edges.len();
    g.add_selected_edges();
    assert_eq!(g.graph.edges.len(), edges_before);
}

#[test]
fn graph_draw_emits_commands() {
    let c = ctx();
    let mut g = GraphModeState::new();
    g.add_vert(&c);
    g.add_vert(&c);
    g.handle_select(&Point { x: 10, y: 60 }, &c);
    g.handle_select(&Point { x: 40, y: 60 }, &c);
    g.add_selected_edges();
    let cmds = g.draw(&c);
    // At least one line per edge and one circle plus one text per
    // vertex.
    assert!(cmds.len() >= g.graph.edges.len() + 2 * 2);
}

#[test]
fn shape_drag_moves_both_endpoints() {
    let mut s = Shape::Line(DrawLine {
        p1: Point { x: 1, y: 2 },
        p2: Point { x: 3, y: 4 },
    });
    s.drag(&Point { x: 10, y: 20 });
    match s {
        Shape::Line(l) => {
            assert_eq!(l.p1, Point { x: 11, y: 22 });
            assert_eq!(l.p2, Point { x: 13, y: 24 });
        }
        _ => panic!("shape changed variant"),
    }
}
