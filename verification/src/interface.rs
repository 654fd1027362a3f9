//! The application core: it owns the widget tree, the selection state,
//! and the drawing capability, routes decoded input events through the
//! tree, and executes the deferred effects a dispatch collected.
//!
//! The surrounding program owns the window: it decodes raw window-system
//! events into the plain event values used here, executes the returned
//! draw commands against its surface, shows the returned cursor icon,
//! and runs the returned application actions.

use vstd::prelude::*;
use crate::draw::{DrawCmd, DrawCtx};
use crate::geom::{Border, Color, Point};
use crate::select::{SelectEntry, SelectionState, WidgetDrawCtx, WidgetEventCtx};
use crate::status::{
    CursorStyle, Effect, EventCtx, EventResult, Key, PointerEvent, WidgetStatus,
};
use crate::textedit::TextCursorDirection;
use crate::layout::{Layout, Orientation, WidgetGrid, WidgetList};
use crate::widgets::{
    new_button, new_container, new_dropdown, new_label, new_textbox, widget_wf, WidgetS,
};

verus! {

/// How far the form sits from the window origin, on both axes.
pub const INTERFACE_OFFSET: u64 = 15;

/// The single decoded character of a key, if it carries one.
pub fn get_char_from_keycode(kc: Key) -> (r: Option<char>)
    ensures
        r == match kc {
            Key::Char(c) => Some(c),
            _ => None::<char>,
        },
{
    match kc {
        Key::Char(c) => Some(c),
        _ => None,
    }
}

/// The cursor direction of an arrow key, if it is one.
pub fn get_dir_from_keycode(kc: Key) -> (r: Option<TextCursorDirection>)
    ensures
        r == match kc {
            Key::Left => Some(TextCursorDirection::Left),
            Key::Right => Some(TextCursorDirection::Right),
            Key::Up => Some(TextCursorDirection::Up),
            Key::Down => Some(TextCursorDirection::Down),
            _ => None::<TextCursorDirection>,
        },
{
    match kc {
        Key::Left => Some(TextCursorDirection::Left),
        Key::Right => Some(TextCursorDirection::Right),
        Key::Up => Some(TextCursorDirection::Up),
        Key::Down => Some(TextCursorDirection::Down),
        _ => None,
    }
}

/// The fixed entry form: a two-column grid of captions and fields, a
/// nested row of level dropdowns, and a submit button.
pub fn new_form(ctx: &DrawCtx) -> (form: WidgetS)
    requires
        ctx.wf(),
    ensures
        widget_wf(form),
{
    proof {
        reveal_strlit("Symbol:");
        reveal_strlit("Strategy:");
        reveal_strlit("Trend");
        reveal_strlit("Mean Reversion");
        reveal_strlit("Volume:");
        reveal_strlit("Gap:");
        reveal_strlit("Range:");
        reveal_strlit("Yes");
        reveal_strlit("No");
        reveal_strlit("Level:");
        reveal_strlit("LEVEL_A");
        reveal_strlit("LEVEL_B");
        reveal_strlit("LEVEL_C");
        reveal_strlit("LEVEL_D");
        reveal_strlit("LEVEL_E");
        reveal_strlit("LEVEL_F");
        reveal_strlit("LEVEL_G");
        reveal_strlit(" ");
        reveal_strlit("Minus");
        reveal_strlit("Pattern:");
        reveal_strlit("Portfolio:");
        reveal_strlit("A");
        reveal_strlit("B");
        reveal_strlit("Submit");
        reveal_strlit("");
    }
    let mut form = new_container(
        Layout::Grid(WidgetGrid::new(2, Point { x: 10, y: 10 })),
    );
    form.push(new_label("Symbol:"));
    form.push(new_textbox("", 6));
    form.push(new_label("Strategy:"));
    let mut strategies: Vec<String> = Vec::new();
    strategies.push("Trend".to_owned());
    strategies.push("Mean Reversion".to_owned());
    form.push(new_dropdown(&strategies, 0));
    let mut yes_no: Vec<String> = Vec::new();
    yes_no.push("Yes".to_owned());
    yes_no.push("No".to_owned());
    form.push(new_label("Volume:"));
    form.push(new_dropdown(&yes_no, 0));
    form.push(new_label("Gap:"));
    form.push(new_dropdown(&yes_no, 0));
    form.push(new_label("Range:"));
    form.push(new_dropdown(&yes_no, 0));
    form.push(new_label("Level:"));
    let mut levels: Vec<String> = Vec::new();
    levels.push("LEVEL_C".to_owned());
    levels.push("LEVEL_A".to_owned());
    levels.push("LEVEL_D".to_owned());
    levels.push("LEVEL_B".to_owned());
    levels.push("LEVEL_E".to_owned());
    levels.push("LEVEL_F".to_owned());
    levels.push("LEVEL_G".to_owned());
    let mut signs: Vec<String> = Vec::new();
    signs.push(" ".to_owned());
    signs.push("Minus".to_owned());
    let mut level_row = new_container(
        Layout::List(WidgetList::new(Orientation::Horizontal, 10)),
    );
    level_row.push(new_dropdown(&levels, 0));
    level_row.push(new_dropdown(&signs, 0));
    form.push(level_row);
    form.push(new_label("Pattern:"));
    form.push(new_textbox("", 30));
    form.push(new_label("Portfolio:"));
    let mut portfolios: Vec<String> = Vec::new();
    portfolios.push("A".to_owned());
    portfolios.push("B".to_owned());
    form.push(new_dropdown(&portfolios, 0));
    let border = Border::new(Point { x: 5, y: 5 }, Color::rgb(0, 0, 0));
    let mut submit = new_button(border, Color::rgb(0, 255, 255), 1);
    submit.push(new_label("Submit"));
    form.push(submit);
    form.remeasure(ctx);
    form
}

/// The application actions a callback list defers, in order.
pub open spec fn action_ids(cbs: Seq<Effect>) -> Seq<u64>
    decreases cbs.len(),
{
    if cbs.len() == 0 {
        Seq::empty()
    } else {
        let rest = action_ids(cbs.drop_last());
        match cbs.last() {
            Effect::Action { action_id } => rest.push(action_id),
            _ => rest,
        }
    }
}

/// Where the keyboard focus ends after the deferred focus effects run
/// in order, starting from `init`; an effect naming an entry outside
/// the list is skipped.
pub open spec fn final_focus(cbs: Seq<Effect>, init: Option<usize>, n_entries: int) -> Option<
    usize,
>
    decreases cbs.len(),
{
    if cbs.len() == 0 {
        init
    } else {
        let before = final_focus(cbs.drop_last(), init, n_entries);
        match cbs.last() {
            Effect::FocusText { select_idx, .. } => if select_idx < n_entries {
                Some(select_idx)
            } else {
                before
            },
            _ => before,
        }
    }
}

/// The application state this core owns: the form tree, the selection
/// index over it, the drawing capability, and the dirty flag.
pub struct AppState {
    pub interface: WidgetS,
    pub select_state: SelectionState,
    pub draw_ctx: DrawCtx,
    pub needs_draw: bool,
}

impl AppState {
    pub open spec fn wf(self) -> bool {
        &&& widget_wf(self.interface)
        &&& self.select_state.wf()
        &&& self.draw_ctx.wf()
    }

    /// A fresh application over the fixed form.
    pub fn new(viewport: Point, metrics: crate::metrics::TextMetrics) -> (app: AppState)
        requires
            metrics.wf(),
        ensures
            app.wf(),
            app.needs_draw,
    {
        let draw_ctx = DrawCtx::new(metrics, viewport);
        let interface = new_form(&draw_ctx);
        let select_state = SelectionState::new(&interface);
        AppState { draw_ctx, interface, select_state, needs_draw: true }
    }

    /// Move the focus, running the deselect and select hooks, and fold
    /// any redraw or remeasure they asked for into the application.
    fn run_select(&mut self, idx: Option<usize>)
        requires
            old(self).wf(),
            match idx {
                Some(i) => i < old(self).select_state.list.vec@.len(),
                None => true,
            },
        ensures
            final(self).wf(),
            final(self).select_state.cur_select == idx,
            final(self).select_state.list.vec@.len() == old(self).select_state.list.vec@.len(),
            final(self).select_state.list.widget_idx == old(self).select_state.list.widget_idx,
            final(self).select_state.child_sizes == old(self).select_state.child_sizes,
            final(self).draw_ctx == old(self).draw_ctx,
            old(self).needs_draw ==> final(self).needs_draw,
            match idx {
                Some(i) => final(self).select_state.list.vec@[i as int] is Text ==> final(self).select_state.list.vec@[
                    i as int
                ].text_focused(),
                None => true,
            },
            match old(self).select_state.cur_select {
                Some(p) => (idx is None || idx != Some(p)) ==> !(final(self).select_state.list.vec@[
                    p as int
                ].text_focused()),
                None => true,
            },
    {
        let mut ctx = EventCtx::new(self.draw_ctx);
        self.select_state.set_select(idx, &mut ctx);
        let res = ctx.res;
        if res.has_status(&WidgetStatus::remeasure()) || self.interface.needs_measure() {
            self.interface.remeasure(&self.draw_ctx);
        }
        if res.has_status(&WidgetStatus::redraw()) {
            self.needs_draw = true;
        }
    }

    /// Move the keyboard focus to an entry, or to nothing.
    pub fn set_select(&mut self, select_idx: Option<usize>)
        requires
            old(self).wf(),
            match select_idx {
                Some(i) => i < old(self).select_state.list.vec@.len(),
                None => true,
            },
        ensures
            final(self).wf(),
            final(self).select_state.cur_select == select_idx,
            final(self).select_state.list.vec@.len() == old(self).select_state.list.vec@.len(),
            final(self).select_state.list.widget_idx == old(self).select_state.list.widget_idx,
            final(self).select_state.child_sizes == old(self).select_state.child_sizes,
            // The old entry's deselect hook has run, then the new
            // entry's select hook, in that order.
            match select_idx {
                Some(i) => final(self).select_state.list.vec@[i as int] is Text ==> final(self).select_state.list.vec@[
                    i as int
                ].text_focused(),
                None => true,
            },
            match old(self).select_state.cur_select {
                Some(p) => (select_idx is None || select_idx != Some(p)) ==> !(final(self).select_state.list.vec@[
                    p as int
                ].text_focused()),
                None => true,
            },
    {
        self.run_select(select_idx);
    }

    /// Apply what a dispatch produced: deselect on request, remeasure
    /// and redraw as flagged, run the deferred focus effects in order,
    /// and hand back the deferred application action ids, in order, for
    /// the caller to run.
    pub fn handle_result(&mut self, result: EventResult) -> (actions: Vec<u64>)
        requires
            old(self).wf(),
        ensures
            final(self).wf(),
            final(self).draw_ctx == old(self).draw_ctx,
            actions@ == action_ids(result.callbacks@),
            final(self).select_state.list.vec@.len() == old(self).select_state.list.vec@.len(),
            final(self).select_state.list.widget_idx == old(self).select_state.list.widget_idx,
            final(self).select_state.child_sizes == old(self).select_state.child_sizes,
            final(self).select_state.cur_select == final_focus(
                result.callbacks@,
                if result.status.has_spec(WidgetStatus { bits: 4u32 }) {
                    None
                } else {
                    old(self).select_state.cur_select
                },
                old(self).select_state.list.vec@.len() as int,
            ),
            result.status.has_spec(WidgetStatus { bits: 1u32 }) ==> final(self).needs_draw,
            old(self).needs_draw ==> final(self).needs_draw,
            (result.callbacks@.len() == 0 && !result.status.has_spec(WidgetStatus { bits: 4u32 }))
                ==> final(self).select_state == old(self).select_state,
    {
        let ghost n_entries = self.select_state.list.vec@.len() as int;
        if result.has_status(&WidgetStatus::deselect()) {
            self.run_select(None);
        }
        let ghost init = self.select_state.cur_select;
        if result.has_status(&WidgetStatus::remeasure()) || self.interface.needs_measure() {
            self.interface.remeasure(&self.draw_ctx);
        }
        if result.has_status(&WidgetStatus::redraw()) {
            self.needs_draw = true;
        }
        let mut actions: Vec<u64> = Vec::new();
        let n = result.callbacks.len();
        let mut i: usize = 0;
        proof {
            assert(actions@ =~= action_ids(result.callbacks@.take(0int)));
        }
        while i < n
            invariant
                0 <= i <= n,
                n == result.callbacks@.len(),
                self.wf(),
                self.draw_ctx == old(self).draw_ctx,
                self.select_state.list.vec@.len() == n_entries,
                n_entries == old(self).select_state.list.vec@.len(),
                self.select_state.list.widget_idx == old(self).select_state.list.widget_idx,
                self.select_state.child_sizes == old(self).select_state.child_sizes,
                actions@ == action_ids(result.callbacks@.take(i as int)),
                self.select_state.cur_select == final_focus(
                    result.callbacks@.take(i as int),
                    init,
                    n_entries,
                ),
                old(self).needs_draw ==> self.needs_draw,
                result.status.has_spec(WidgetStatus { bits: 1u32 }) ==> self.needs_draw,
                (n == 0 && !result.status.has_spec(WidgetStatus { bits: 4u32 })) ==> self.select_state == old(self).select_state,
            decreases n - i,
        {
            proof {
                assert(result.callbacks@.take(i + 1int).drop_last() =~= result.callbacks@.take(
                    i as int,
                ));
                assert(result.callbacks@.take(i + 1int).last() == result.callbacks@[i as int]);
            }
            match result.callbacks[i] {
                Effect::FocusText { select_idx, cursor_pos } => {
                    if select_idx < self.select_state.list.vec.len() {
                        let entry = self.select_state.get_mut(select_idx);
                        match entry {
                            SelectEntry::Text(te) => {
                                te.set_cursor_pos(cursor_pos);
                            }
                            _ => {}
                        }
                        self.run_select(Some(select_idx));
                    }
                }
                Effect::Action { action_id } => {
                    actions.push(action_id);
                }
            }
            i = i + 1;
        }
        proof {
            assert(result.callbacks@.take(n as int) =~= result.callbacks@);
        }
        actions
    }

    /// Route a pointer event through the tree from the root, then apply
    /// the collected result.  A click that lands on nothing deselects
    /// everything; the returned actions are the dispatch's deferred
    /// action ids in collection order, and the cursor is the one the
    /// dispatch chose.
    pub fn handle_mouse_event(&mut self, ev: &PointerEvent) -> (out: (CursorStyle, Vec<u64>))
        requires
            old(self).wf(),
        ensures
            final(self).wf(),
            final(self).select_state.list.vec@.len() == old(self).select_state.list.vec@.len(),
            match *ev {
                PointerEvent::ButtonUp { .. } => final(self).select_state == old(self).select_state && out.0 == CursorStyle::Arrow && out.1@.len() == 0,
                PointerEvent::Motion { .. } => final(self).select_state.cur_select == old(self).select_state.cur_select && out.1@.len() == 0,
                PointerEvent::ButtonDown { x, y } => ({
                    let pt = Point {
                        x: if x >= INTERFACE_OFFSET {
                            (x - INTERFACE_OFFSET) as u64
                        } else {
                            0u64
                        },
                        y: if y >= INTERFACE_OFFSET {
                            (y - INTERFACE_OFFSET) as u64
                        } else {
                            0u64
                        },
                    };
                    crate::widgets::click_misses(old(self).interface, pt) ==> final(self).select_state.cur_select is None && out.0 == CursorStyle::Arrow && out.1@.len()
                        == 0
                }),
            },
    {
        let mut wctx = WidgetEventCtx::new(self.draw_ctx, &self.select_state);
        match *ev {
            PointerEvent::ButtonDown { x, y } => {
                let pt = Point {
                    x: if x >= INTERFACE_OFFSET {
                        x - INTERFACE_OFFSET
                    } else {
                        0
                    },
                    y: if y >= INTERFACE_OFFSET {
                        y - INTERFACE_OFFSET
                    } else {
                        0
                    },
                };
                if self.interface.click(&pt, &mut wctx).is_none() {
                    wctx.set_status(WidgetStatus::deselect());
                }
            }
            PointerEvent::ButtonUp { .. } => {}
            PointerEvent::Motion { x, y } => {
                let pt = Point {
                    x: if x >= INTERFACE_OFFSET {
                        x - INTERFACE_OFFSET
                    } else {
                        0
                    },
                    y: if y >= INTERFACE_OFFSET {
                        y - INTERFACE_OFFSET
                    } else {
                        0
                    },
                };
                self.interface.hover(&pt, &mut wctx);
            }
        }
        let res = wctx.res;
        proof {
            crate::status::lemma_low_status_bits();
        }
        let cursor = res.cursor;
        let actions = self.handle_result(res);
        (cursor, actions)
    }

    /// Route a key event: the focused entry receives it, changing
    /// exactly as its own key relation states; an unhandled tab moves
    /// the focus one step forward, shift-tab one step backward, both
    /// clamped.  Keys defer no application actions.
    pub fn handle_keyboard_event(&mut self, key: &Key) -> (out: (CursorStyle, Vec<u64>))
        requires
            old(self).wf(),
        ensures
            final(self).wf(),
            out.1@.len() == 0,
            final(self).select_state.list.vec@.len() == old(self).select_state.list.vec@.len(),
            match old(self).select_state.cur_select {
                None => final(self).select_state.cur_select is None && final(self).select_state.list.vec@ == old(self).select_state.list.vec@,
                Some(i) => match *key {
                    Key::Tab => final(self).select_state.cur_select == (if i + 1 < old(self).select_state.list.vec@.len() {
                        Some((i + 1) as usize)
                    } else {
                        Some(i)
                    }),
                    Key::ShiftTab => final(self).select_state.cur_select == (if i > 0 {
                        Some((i - 1) as usize)
                    } else {
                        Some(i)
                    }),
                    _ => final(self).select_state.cur_select == Some(i) && (forall|j: int|
                        0 <= j < final(self).select_state.list.vec@.len() && j != i
                            ==> #[trigger] final(self).select_state.list.vec@[j] == old(self).select_state.list.vec@[j]) && (exists|resp: Option<
                        crate::status::EventResponse,
                    >|
                        crate::select::entry_key_rel(
                            old(self).select_state.list.vec@[i as int],
                            final(self).select_state.list.vec@[i as int],
                            resp,
                            *key,
                            old(self).draw_ctx.metrics,
                        )),
                },
            },
    {
        let mut ctx = EventCtx::new(self.draw_ctx);
        if self.select_state.is_select() {
            let resp = self.select_state.handle_key_down(key, &mut ctx);
            if resp.is_none() {
                match *key {
                    Key::Tab => {
                        self.select_state.select_next(&mut ctx);
                    }
                    Key::ShiftTab => {
                        self.select_state.select_prev(&mut ctx);
                    }
                    _ => {}
                }
            }
        }
        let res = ctx.res;
        proof {
            crate::status::lemma_low_status_bits();
        }
        let cursor = res.cursor;
        let actions = self.handle_result(res);
        (cursor, actions)
    }

    /// Produce the draw commands for one frame, if anything changed
    /// since the last one.
    pub fn render(&mut self) -> (cmds: Option<Vec<DrawCmd>>)
        requires
            old(self).wf(),
        ensures
            final(self).wf(),
            !final(self).needs_draw,
            cmds is Some <==> old(self).needs_draw,
    {
        if self.needs_draw {
            let mut wctx = WidgetDrawCtx::new(self.draw_ctx, &self.select_state);
            self.interface.draw(
                &Point { x: INTERFACE_OFFSET, y: INTERFACE_OFFSET },
                &mut wctx,
            );
            self.needs_draw = false;
            Some(wctx.cmds)
        } else {
            None
        }
    }
}

} // verus!
