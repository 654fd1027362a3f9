//! Status flags, cursor styles, input events, and the deferred-effect queue
//! that event routing accumulates while walking the widget tree.

use vstd::prelude::*;

verus! {

/// Bit flags describing what the application must do after handling an
/// event.  `REMEASURE` implies `REDRAW`.
#[derive(Clone, Copy, Debug, PartialEq, Eq, Structural)]
pub struct WidgetStatus {
    pub bits: u32,
}

impl WidgetStatus {
    /// No work needed.
    pub open spec fn fine_spec() -> WidgetStatus {
        WidgetStatus { bits: 0 }
    }

    pub fn fine() -> (s: WidgetStatus)
        ensures
            s == Self::fine_spec(),
    {
        WidgetStatus { bits: 0 }
    }

    /// The tree must be drawn again.
    pub fn redraw() -> (s: WidgetStatus)
        ensures
            s == (WidgetStatus { bits: 1u32 }),
    {
        WidgetStatus { bits: 1 }
    }

    /// The tree must be measured and laid out again (which implies a
    /// redraw: bit 0 is set too).
    pub fn remeasure() -> (s: WidgetStatus)
        ensures
            s == (WidgetStatus { bits: 3u32 }),
    {
        WidgetStatus { bits: 3 }
    }

    /// Every selection must be dropped.
    pub fn deselect() -> (s: WidgetStatus)
        ensures
            s == (WidgetStatus { bits: 4u32 }),
    {
        WidgetStatus { bits: 4 }
    }

    /// Combining statuses along a dispatch path is a bitwise or.
    pub open spec fn or_spec(self, other: WidgetStatus) -> WidgetStatus {
        WidgetStatus { bits: self.bits | other.bits }
    }

    pub fn or(&self, other: &WidgetStatus) -> (s: WidgetStatus)
        ensures
            s == self.or_spec(*other),
    {
        WidgetStatus { bits: self.bits | other.bits }
    }

    /// Whether all the bits of `flags` are set in `self`.
    pub open spec fn has_spec(self, flags: WidgetStatus) -> bool {
        self.bits & flags.bits == flags.bits
    }

    pub fn has_status(&self, flags: &WidgetStatus) -> (r: bool)
        ensures
            r == self.has_spec(*flags),
    {
        self.bits & flags.bits == flags.bits
    }
}


/// Combining statuses is associative, commutative, and idempotent, with
/// no work as its unit: the order in which a dispatch path's statuses
/// are folded cannot matter.
pub proof fn lemma_status_or_monoid(a: WidgetStatus, b: WidgetStatus, c: WidgetStatus)
    ensures
        a.or_spec(b).or_spec(c) == a.or_spec(b.or_spec(c)),
        a.or_spec(b) == b.or_spec(a),
        a.or_spec(a) == a,
        a.or_spec(WidgetStatus::fine_spec()) == a,
{
    let x = a.bits;
    let y = b.bits;
    let z = c.bits;
    assert((x | y) | z == x | (y | z)) by (bit_vector);
    assert(x | y == y | x) by (bit_vector);
    assert(x | x == x) by (bit_vector);
    assert(x | 0u32 == x) by (bit_vector);
}

/// A remeasure request implies a redraw: the redraw bit is part of the
/// remeasure flags.
pub proof fn lemma_remeasure_implies_redraw(s: WidgetStatus)
    ensures
        s.has_spec(WidgetStatus { bits: 3u32 }) ==> s.has_spec(WidgetStatus { bits: 1u32 }),
{
    let b = s.bits;
    assert(b & 3u32 == 3u32 ==> b & 1u32 == 1u32) by (bit_vector);
}

/// The concrete values the low status bits take along a dispatch:
/// folding redraw into nothing or itself gives redraw, and neither the
/// idle nor the redraw value carries the deselect bit.
pub proof fn lemma_low_status_bits()
    ensures
        0u32 | 1u32 == 1u32,
        1u32 | 1u32 == 1u32,
        0u32 | 3u32 == 3u32,
        0u32 & 4u32 != 4u32,
        1u32 & 4u32 != 4u32,
        3u32 & 4u32 != 4u32,
        4u32 & 4u32 == 4u32,
        0u32 & 1u32 != 1u32,
        1u32 & 1u32 == 1u32,
        3u32 & 1u32 == 1u32,
{
    assert(0u32 | 1u32 == 1u32) by (bit_vector);
    assert(1u32 | 1u32 == 1u32) by (bit_vector);
    assert(0u32 | 3u32 == 3u32) by (bit_vector);
    assert(0u32 & 4u32 != 4u32) by (bit_vector);
    assert(1u32 & 4u32 != 4u32) by (bit_vector);
    assert(3u32 & 4u32 != 4u32) by (bit_vector);
    assert(4u32 & 4u32 == 4u32) by (bit_vector);
    assert(0u32 & 1u32 != 1u32) by (bit_vector);
    assert(1u32 & 1u32 == 1u32) by (bit_vector);
    assert(3u32 & 1u32 == 1u32) by (bit_vector);
}

/// The mouse cursor icon the window system should show.
#[derive(Clone, Copy, Debug, PartialEq, Eq, Structural)]
pub enum CursorStyle {
    Arrow,
    Hand,
    IBeam,
    Crosshair,
}

/// Whether a widget consumed an event or left it for its children.
#[derive(Clone, Copy, Debug, PartialEq, Eq, Structural)]
pub enum EventResponse {
    Handled,
    NotHandled,
}

/// A deferred whole-application side effect, collected during event
/// routing and executed once the traversal is over.
#[derive(Clone, Copy, Debug, PartialEq, Eq, Structural)]
pub enum Effect {
    /// Give keyboard focus to the selection entry at this index and place
    /// its text cursor at the given character offset.
    FocusText { select_idx: usize, cursor_pos: usize },
    /// Run the application action a button was bound to.
    Action { action_id: u64 },
}

/// A key event, already decoded from the window system's raw key codes.
#[derive(Clone, Copy, Debug, PartialEq, Eq, Structural)]
pub enum Key {
    Char(char),
    Left,
    Right,
    Up,
    Down,
    Backspace,
    Tab,
    ShiftTab,
}

/// A pointer event in interface coordinates.
#[derive(Clone, Copy, Debug, PartialEq, Eq, Structural)]
pub enum PointerEvent {
    ButtonDown { x: u64, y: u64 },
    ButtonUp { x: u64, y: u64 },
    Motion { x: u64, y: u64 },
}

/// What one dispatch pass produced: a cursor icon, the combined status
/// flags, and the deferred effects in the order they were collected.
pub struct EventResult {
    pub cursor: CursorStyle,
    pub callbacks: Vec<Effect>,
    pub status: WidgetStatus,
}

impl EventResult {
    pub fn new() -> (r: EventResult)
        ensures
            r.cursor == CursorStyle::Arrow,
            r.callbacks@ =~= Seq::<Effect>::empty(),
            r.status == WidgetStatus::fine_spec(),
    {
        EventResult { cursor: CursorStyle::Arrow, callbacks: Vec::new(), status: WidgetStatus::fine() }
    }

    pub fn has_status(&self, flags: &WidgetStatus) -> (r: bool)
        ensures
            r == self.status.has_spec(*flags),
    {
        self.status.has_status(flags)
    }
}


/// The context a selection entry's hooks run in: the drawing capability
/// and the event result being accumulated.
pub struct EventCtx {
    pub draw_ctx: crate::draw::DrawCtx,
    pub res: EventResult,
}

impl EventCtx {
    pub fn new(draw_ctx: crate::draw::DrawCtx) -> (c: EventCtx)
        ensures
            c.draw_ctx == draw_ctx,
            c.res.cursor == CursorStyle::Arrow,
            c.res.callbacks@ =~= Seq::<Effect>::empty(),
            c.res.status == WidgetStatus::fine_spec(),
    {
        EventCtx { draw_ctx, res: EventResult::new() }
    }

    pub fn push_cb(&mut self, cb: Effect)
        ensures
            final(self).res.callbacks@ == old(self).res.callbacks@.push(cb),
            final(self).res.status == old(self).res.status,
            final(self).res.cursor == old(self).res.cursor,
            final(self).draw_ctx == old(self).draw_ctx,
    {
        self.res.callbacks.push(cb);
    }

    pub fn set_redraw(&mut self)
        ensures
            final(self).res.status == old(self).res.status.or_spec(WidgetStatus { bits: 1u32 }),
            final(self).res.callbacks@ == old(self).res.callbacks@,
            final(self).res.cursor == old(self).res.cursor,
            final(self).draw_ctx == old(self).draw_ctx,
    {
        self.res.status = self.res.status.or(&WidgetStatus::redraw());
    }

    pub fn set_remeasure(&mut self)
        ensures
            final(self).res.status == old(self).res.status.or_spec(WidgetStatus { bits: 3u32 }),
            final(self).res.callbacks@ == old(self).res.callbacks@,
            final(self).res.cursor == old(self).res.cursor,
            final(self).draw_ctx == old(self).draw_ctx,
    {
        self.res.status = self.res.status.or(&WidgetStatus::remeasure());
    }

    pub fn set_cursor(&mut self, cursor: CursorStyle)
        ensures
            final(self).res.cursor == cursor,
            final(self).res.callbacks@ == old(self).res.callbacks@,
            final(self).res.status == old(self).res.status,
            final(self).draw_ctx == old(self).draw_ctx,
    {
        self.res.cursor = cursor;
    }
}


} // verus!
