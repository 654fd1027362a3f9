//! Tests of geometry, layouts, widgets, selection traversal, and the
//! application core.

use formui::draw::{DrawCmd, DrawCtx};
use formui::geom::{Point, Rect};
use formui::interface::AppState;
use formui::layout::{ChildInfo, Layout, Orientation, WidgetGrid, WidgetList};
use formui::metrics::TextMetrics;
use formui::select::{DropDownSelect, SelectEntry, SelectionState, WidgetEventCtx, WidgetIdx};
use formui::status::{CursorStyle, EventCtx, Key, PointerEvent, WidgetStatus};
use formui::widgets::{new_container, new_dropdown, new_label, new_textbox, Behavior, WidgetS};

fn metrics() -> TextMetrics {
    TextMetrics::new(10, 10)
}

fn ctx() -> DrawCtx {
    DrawCtx::new(metrics(), Point { x: 800, y: 600 })
}

#[test]
fn in_bounds_is_near_inclusive_far_exclusive() {
    let r = Rect { c1: Point { x: 10, y: 10 }, c2: Point { x: 20, y: 20 } };
    assert!(r.in_bounds(&Point { x: 10, y: 10 }));
    assert!(r.in_bounds(&Point { x: 19, y: 19 }));
    assert!(!r.in_bounds(&Point { x: 20, y: 10 }));
    assert!(!r.in_bounds(&Point { x: 10, y: 20 }));
    assert!(!r.in_bounds(&Point { x: 9, y: 10 }));
}

#[test]
fn stack_layout_spaces_visible_children() {
    let mut l = WidgetList::new(Orientation::Vertical, 10);
    let items = vec![
        ChildInfo { size: Point { x: 10, y: 5 }, collapsed: false },
        ChildInfo { size: Point { x: 20, y: 7 }, collapsed: false },
    ];
    let size = l.remeasure_items(&items);
    assert_eq!(l.widget_rects.len(), 2);
    assert_eq!(l.widget_rects[0], Rect { c1: Point { x: 0, y: 0 }, c2: Point { x: 10, y: 5 } });
    assert_eq!(l.widget_rects[1], Rect { c1: Point { x: 0, y: 15 }, c2: Point { x: 20, y: 22 } });
    assert_eq!(size, Point { x: 20, y: 22 });
}

#[test]
fn stack_layout_skips_collapsed_children() {
    let mut l = WidgetList::new(Orientation::Horizontal, 4);
    let items = vec![
        ChildInfo { size: Point { x: 10, y: 5 }, collapsed: false },
        ChildInfo { size: Point { x: 99, y: 99 }, collapsed: true },
        ChildInfo { size: Point { x: 20, y: 7 }, collapsed: false },
    ];
    let size = l.remeasure_items(&items);
    assert_eq!(size, Point { x: 34, y: 7 });
    assert_eq!(l.widget_rects[1], Rect { c1: Point { x: 0, y: 0 }, c2: Point { x: 0, y: 0 } });
    assert_eq!(l.widget_rects[2], Rect { c1: Point { x: 14, y: 0 }, c2: Point { x: 34, y: 7 } });
}

#[test]
fn grid_layout_uses_column_maxima_and_cumulative_rows() {
    // Two columns, three rows of mixed sizes: column offsets are the
    // cumulative column maxima, row offsets the cumulative row maxima,
    // each plus spacing.
    let mut g = WidgetGrid::new(2, Point { x: 10, y: 10 });
    let items = vec![
        ChildInfo { size: Point { x: 10, y: 5 }, collapsed: false },
        ChildInfo { size: Point { x: 20, y: 7 }, collapsed: false },
        ChildInfo { size: Point { x: 30, y: 11 }, collapsed: false },
        ChildInfo { size: Point { x: 5, y: 13 }, collapsed: false },
        ChildInfo { size: Point { x: 8, y: 2 }, collapsed: false },
        ChildInfo { size: Point { x: 40, y: 3 }, collapsed: false },
    ];
    let size = g.remeasure_items(&items);
    let xs: Vec<u64> = g.widget_rects.iter().map(|r| r.c1.x).collect();
    let ys: Vec<u64> = g.widget_rects.iter().map(|r| r.c1.y).collect();
    assert_eq!(xs, vec![0, 40, 0, 40, 0, 40]);
    assert_eq!(ys, vec![0, 0, 17, 17, 40, 40]);
    assert_eq!(g.widget_rects[3].c2, Point { x: 45, y: 30 });
    assert_eq!(size, Point { x: 90, y: 53 });
}

fn options(vals: &[&str]) -> Vec<String> {
    vals.iter().map(|v| v.to_string()).collect()
}

fn dropdown_state(w: &WidgetS) -> (usize, bool) {
    match &w.bhv {
        Behavior::DropDown(d) => (d.selected, d.is_open),
        _ => panic!("not a dropdown"),
    }
}

#[test]
fn dropdown_click_opens_then_selects() {
    // Click while closed: opens without changing the chosen option.
    // Click while open on option k's rectangle: chooses k and closes.
    let c = ctx();
    let vals = options(&["aa", "bb", "cc"]);
    let mut w = new_dropdown(&vals, 0);
    w.remeasure(&c);
    let ss = SelectionState::new(&w);
    let mut ectx = WidgetEventCtx::new(c, &ss);
    let r = w.click(&Point { x: 1, y: 1 }, &mut ectx);
    assert!(r.is_some());
    assert_eq!(dropdown_state(&w), (0, true));
    assert!(ectx.res.status.has_status(&WidgetStatus::remeasure()));
    w.remeasure(&c);
    // While open the three options stack at rows 0, 10, 20.
    let mut ectx2 = WidgetEventCtx::new(c, &ss);
    w.click(&Point { x: 5, y: 15 }, &mut ectx2);
    assert_eq!(dropdown_state(&w), (1, false));
}

#[test]
fn dropdown_click_outside_options_falls_back_to_first() {
    let c = ctx();
    let vals = options(&["aa", "bb"]);
    let mut w = new_dropdown(&vals, 1);
    w.remeasure(&c);
    let ss = SelectionState::new(&w);
    let mut ectx = WidgetEventCtx::new(c, &ss);
    w.click(&Point { x: 1, y: 1 }, &mut ectx);
    w.remeasure(&c);
    let mut ectx2 = WidgetEventCtx::new(c, &ss);
    // Far outside every option rectangle: the choice falls back to 0.
    w.click(&Point { x: 500, y: 500 }, &mut ectx2);
    assert_eq!(dropdown_state(&w), (0, false));
}

#[test]
fn dropdown_key_traversal_stays_in_range() {
    let mut d = DropDownSelect::new(0, 2);
    let mut ectx = EventCtx::new(ctx());
    assert!(d.handle_key_down(&Key::Up, &mut ectx).is_none());
    assert_eq!(d.selected, 0);
    assert!(d.handle_key_down(&Key::Down, &mut ectx).is_some());
    assert_eq!(d.selected, 1);
    assert!(d.handle_key_down(&Key::Down, &mut ectx).is_none());
    assert_eq!(d.selected, 1);
    assert!(d.handle_key_down(&Key::Up, &mut ectx).is_some());
    assert_eq!(d.selected, 0);
}

fn two_field_tree() -> WidgetS {
    let mut root = new_container(Layout::List(WidgetList::new(Orientation::Vertical, 0)));
    root.push(new_textbox("", 6));
    root.push(new_textbox("", 6));
    root
}

fn entry_selected(ss: &SelectionState, i: usize) -> bool {
    match ss.get(i) {
        SelectEntry::Text(t) => t.selected(),
        SelectEntry::DropDown(_) => false,
    }
}

#[test]
fn select_next_advances_and_swaps_focus() {
    // From entry i < last, the traversal advances to i + 1, taking the
    // focus from the old entry and giving it to the new one.
    let root = two_field_tree();
    let mut ss = SelectionState::new(&root);
    let mut ectx = EventCtx::new(ctx());
    ss.set_select(Some(0), &mut ectx);
    assert!(entry_selected(&ss, 0));
    assert!(!entry_selected(&ss, 1));
    ss.select_next(&mut ectx);
    assert_eq!(ss.cur_select, Some(1));
    assert!(!entry_selected(&ss, 0));
    assert!(entry_selected(&ss, 1));
}

#[test]
fn select_next_from_last_is_noop() {
    let root = two_field_tree();
    let mut ss = SelectionState::new(&root);
    let mut ectx = EventCtx::new(ctx());
    ss.set_select(Some(1), &mut ectx);
    ss.select_next(&mut ectx);
    assert_eq!(ss.cur_select, Some(1));
    assert!(entry_selected(&ss, 1));
}

#[test]
fn select_prev_clamps_at_front() {
    let root = two_field_tree();
    let mut ss = SelectionState::new(&root);
    let mut ectx = EventCtx::new(ctx());
    ss.set_select(Some(0), &mut ectx);
    ss.select_prev(&mut ectx);
    assert_eq!(ss.cur_select, Some(0));
}

#[test]
fn child_widget_idx_sums_sibling_subtrees() {
    // Root 0; first child 1 (a dropdown with two option labels, so its
    // subtree is 3 nodes); second child sits at 1 + 3 = 4.
    let c = ctx();
    let mut root = new_container(Layout::List(WidgetList::new(Orientation::Vertical, 0)));
    root.push(new_dropdown(&options(&["aa", "bb"]), 0));
    root.push(new_label("x"));
    root.remeasure(&c);
    let ss = SelectionState::new(&root);
    assert_eq!(ss.child_widget_idx(WidgetIdx(0), 0).0, 1);
    assert_eq!(ss.child_widget_idx(WidgetIdx(0), 1).0, 4);
}

#[test]
fn label_hover_sets_highlight_once() {
    let c = ctx();
    let vals = options(&["aa", "bb"]);
    let mut w = new_dropdown(&vals, 0);
    w.remeasure(&c);
    let ss = SelectionState::new(&w);
    let mut ectx = WidgetEventCtx::new(c, &ss);
    // Open the list, then hover option 1.
    w.click(&Point { x: 1, y: 1 }, &mut ectx);
    w.remeasure(&c);
    let mut ectx2 = WidgetEventCtx::new(c, &ss);
    w.hover(&Point { x: 5, y: 15 }, &mut ectx2);
    match &w.bhv {
        Behavior::DropDown(d) => assert_eq!(d.hover_idx, Some(1)),
        _ => panic!("not a dropdown"),
    }
}

#[test]
fn app_builds_renders_and_routes() {
    let mut app = AppState::new(Point { x: 800, y: 600 }, metrics());
    let cmds = app.render().expect("first frame draws");
    assert!(cmds.len() > 0);
    assert!(app.render().is_none());
    // A click that lands on nothing leaves an arrow cursor and no
    // pending actions.
    let (cursor, actions) = app.handle_mouse_event(
        &PointerEvent::ButtonDown { x: 799, y: 599 },
    );
    assert_eq!(cursor, CursorStyle::Arrow);
    assert!(actions.is_empty());
}

#[test]
fn app_click_on_text_field_focuses_it() {
    let mut app = AppState::new(Point { x: 800, y: 600 }, metrics());
    // The first field sits at the top-right cell of the form grid; its
    // rectangle starts past the caption column.  Find it by scanning
    // for a click that produces a text-insertion cursor.
    let mut focused = false;
    let mut x = 16;
    while x < 700 {
        let (cursor, _) = app.handle_mouse_event(&PointerEvent::ButtonDown { x, y: 18 });
        if cursor == CursorStyle::IBeam {
            focused = true;
            break;
        }
        x += 8;
    }
    assert!(focused);
    assert!(app.select_state.cur_select.is_some());
    // Typing now lands in the focused editor.
    app.handle_keyboard_event(&Key::Char('A'));
    let idx = app.select_state.cur_select.unwrap();
    match app.select_state.get(idx) {
        SelectEntry::Text(t) => {
            assert_eq!(t.len_chars(), 1);
            assert_eq!(t.char_at(0), 'A');
        }
        _ => panic!("focus is not a text field"),
    }
}

#[test]
fn app_tab_moves_focus_forward() {
    let mut app = AppState::new(Point { x: 800, y: 600 }, metrics());
    app.set_select(Some(0));
    app.handle_keyboard_event(&Key::Tab);
    assert_eq!(app.select_state.cur_select, Some(1));
    app.handle_keyboard_event(&Key::ShiftTab);
    assert_eq!(app.select_state.cur_select, Some(0));
}

#[test]
fn render_emits_text_commands_for_labels() {
    let mut app = AppState::new(Point { x: 800, y: 600 }, metrics());
    let cmds = app.render().unwrap();
    let texts = cmds
        .iter()
        .filter(|c| matches!(c, DrawCmd::Text { .. }))
        .count();
    assert!(texts >= 8);
}
