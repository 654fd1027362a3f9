//! Tests of the text-reflow editor: typing, capacity, deletion, cursor
//! movement, hit-testing, and reflow idempotence.

use formui::geom::{Point, RotateRect};
use formui::draw::DrawCtx;
use formui::metrics::TextMetrics;
use formui::textedit::{TextCursorDirection, TextEdit};

fn metrics() -> TextMetrics {
    TextMetrics::new(10, 10)
}

fn content_of(t: &TextEdit) -> String {
    let mut s = String::new();
    let n = t.len_chars();
    let mut i = 0;
    while i < n {
        s.push(t.char_at(i));
        i += 1;
    }
    s
}

#[test]
fn typing_short_string_round_trips() {
    // A string narrower than the box gains no soft break and stays
    // within the width.
    let m = metrics();
    let mut t = TextEdit::new("", Point { x: 100, y: 30 });
    for c in ['h', 'e', 'l', 'l', 'o'] {
        t.insert_char(c, &m);
    }
    assert_eq!(content_of(&t), "hello");
    assert_eq!(t.cursor(), 5);
}

#[test]
fn typing_past_box_width_breaks_before_last_char() {
    // Box width fits exactly "ABCDEF"; typing "ABCDEFG" inserts a soft
    // break before 'G' and leaves the cursor after 'G' on the new line.
    let m = metrics();
    let mut t = TextEdit::new("", Point { x: 60, y: 30 });
    for c in ['A', 'B', 'C', 'D', 'E', 'F', 'G'] {
        t.insert_char(c, &m);
    }
    assert_eq!(content_of(&t), "ABCDEF\nG");
    assert_eq!(t.cursor(), 8);
}

#[test]
fn capacity_guard_refuses_insert() {
    // One line of six characters, one row of vertical budget: a seventh
    // character would overflow both, so it is refused silently.
    let m = metrics();
    let mut t = TextEdit::new("", Point { x: 60, y: 10 });
    for c in ['A', 'B', 'C', 'D', 'E', 'F', 'G'] {
        t.insert_char(c, &m);
    }
    assert_eq!(content_of(&t), "ABCDEF");
    assert_eq!(t.cursor(), 6);
}

#[test]
fn cursor_stays_in_bounds_through_edits() {
    // Whatever mix of inserts and deletes runs, the cursor offset stays
    // within [0, content length].
    let m = metrics();
    let mut t = TextEdit::new("", Point { x: 60, y: 100 });
    for c in ['x', 'y', 'z'] {
        t.insert_char(c, &m);
        assert!(t.cursor() <= t.len_chars());
    }
    for _ in 0..5 {
        t.delete_char(&m);
        assert!(t.cursor() <= t.len_chars());
    }
    assert_eq!(t.len_chars(), 0);
    assert_eq!(t.cursor(), 0);
}

#[test]
fn delete_on_empty_is_noop() {
    let m = metrics();
    let mut t = TextEdit::new("", Point { x: 60, y: 30 });
    t.delete_char(&m);
    assert_eq!(t.len_chars(), 0);
    assert_eq!(t.cursor(), 0);
}

#[test]
fn delete_after_break_removes_last_char() {
    let m = metrics();
    let mut t = TextEdit::new("", Point { x: 60, y: 30 });
    for c in ['A', 'B', 'C', 'D', 'E', 'F', 'G'] {
        t.insert_char(c, &m);
    }
    t.delete_char(&m);
    assert_eq!(content_of(&t), "ABCDEF\n");
    assert_eq!(t.cursor(), 7);
}

#[test]
fn move_cursor_left_right() {
    let m = metrics();
    let mut t = TextEdit::new("ab", Point { x: 100, y: 30 });
    t.set_cursor_pos(0);
    t.move_cursor(TextCursorDirection::Left);
    assert_eq!(t.cursor(), 0);
    t.move_cursor(TextCursorDirection::Right);
    assert_eq!(t.cursor(), 1);
    t.move_cursor(TextCursorDirection::Right);
    assert_eq!(t.cursor(), 2);
    t.move_cursor(TextCursorDirection::Right);
    assert_eq!(t.cursor(), 2);
    let _ = m;
}

#[test]
fn move_cursor_up_keeps_column() {
    let mut t = TextEdit::new("AB\nCD", Point { x: 100, y: 30 });
    t.set_cursor_pos(4);
    t.move_cursor(TextCursorDirection::Up);
    assert_eq!(t.cursor(), 1);
}

#[test]
fn move_cursor_down_clamps_to_line() {
    let mut t = TextEdit::new("ABCD\nE", Point { x: 100, y: 30 });
    t.set_cursor_pos(3);
    t.move_cursor(TextCursorDirection::Down);
    // Column 3 does not exist on the one-character last line: the
    // cursor clamps to one before that line's end-of-content position.
    assert_eq!(t.cursor(), 5);
}

#[test]
fn set_cursor_pos_clamps() {
    let mut t = TextEdit::new("abc", Point { x: 100, y: 30 });
    t.set_cursor_pos(99);
    assert_eq!(t.cursor(), 3);
    t.set_cursor_pos(1);
    assert_eq!(t.cursor(), 1);
}

#[test]
fn hover_text_hits_inside_only() {
    // Hit-testing returns an offset only for points inside the box, and
    // walks character advances greedily on the hit line.
    let ctx = DrawCtx::new(metrics(), Point { x: 800, y: 600 });
    let t = TextEdit::new("ABCDEF\nGH", Point { x: 60, y: 30 });
    let rect = RotateRect::new(Point { x: 0, y: 0 }, Point { x: 60, y: 30 });
    assert_eq!(t.hover_text(&Point { x: 25, y: 5 }, &rect, &ctx), Some(2));
    assert_eq!(t.hover_text(&Point { x: 70, y: 5 }, &rect, &ctx), None);
    assert_eq!(t.hover_text(&Point { x: 5, y: 35 }, &rect, &ctx), None);
    assert_eq!(t.hover_text(&Point { x: 15, y: 15 }, &rect, &ctx), Some(8));
}

#[test]
fn needs_format_detects_overflow_and_pullup() {
    let m = metrics();
    // A seven-character line in a six-character box overflows.
    let t = TextEdit::new("ABCDEFG", Point { x: 60, y: 30 });
    assert!(t.needs_format(0, &m));
    // A full line followed by a character that cannot be pulled up is
    // settled.
    let t2 = TextEdit::new("ABCDEF\nG", Point { x: 60, y: 30 });
    assert!(!t2.needs_format(0, &m));
    // A short line whose next character could be pulled up needs work.
    let t3 = TextEdit::new("AB\nG", Point { x: 60, y: 30 });
    assert!(t3.needs_format(0, &m));
}

#[test]
fn reflow_wraps_overflowing_line() {
    let m = metrics();
    let mut t = TextEdit::new("ABCDEFG", Point { x: 60, y: 30 });
    t.format_text(0, &m);
    assert_eq!(content_of(&t), "ABCDEF\nG");
    assert_eq!(t.cursor(), 0);
}

#[test]
fn reflow_twice_changes_nothing_more() {
    // Reflowing a second time with no intervening edit is a no-op.
    let m = metrics();
    let mut t = TextEdit::new("ABCDEFG", Point { x: 60, y: 30 });
    t.format_text(0, &m);
    let once = content_of(&t);
    let cur_once = t.cursor();
    t.format_text(0, &m);
    assert_eq!(content_of(&t), once);
    assert_eq!(t.cursor(), cur_once);
}

#[test]
fn reflow_pulls_up_short_break() {
    // An existing break that the width budget does not require is
    // removed.
    let m = metrics();
    let mut t = TextEdit::new("AB\nCD", Point { x: 60, y: 30 });
    t.format_text(0, &m);
    assert_eq!(content_of(&t), "ABCD");
}

#[test]
fn editing_mid_content_reflows() {
    // Inserting before the end triggers a reflow of the edited line.
    let m = metrics();
    let mut t = TextEdit::new("ABCDEF\nG", Point { x: 60, y: 30 });
    t.set_cursor_pos(0);
    t.insert_char('X', &m);
    assert_eq!(content_of(&t), "XABCDE\nFG");
    assert_eq!(t.cursor(), 1);
}

#[test]
fn reflow_of_long_text_is_idempotent() {
    // A thirteen-character paste wraps into three lines; a second
    // reflow finds nothing left to do, and the cursor shifted only for
    // the break inserted before it.
    let m = metrics();
    let mut t = TextEdit::new("ABCDEFGHIJKLM", Point { x: 60, y: 100 });
    t.set_cursor_pos(8);
    t.format_text(0, &m);
    assert_eq!(content_of(&t), "ABCDEF\nGHIJKL\nM");
    assert_eq!(t.cursor(), 9);
    t.format_text(0, &m);
    assert_eq!(content_of(&t), "ABCDEF\nGHIJKL\nM");
    assert_eq!(t.cursor(), 9);
}

#[test]
fn reflow_keeps_needed_break_without_cursor_drift() {
    // The break before 'M' is still required (the full line plus 'M'
    // would overflow), so the reflow keeps it rather than removing and
    // re-inserting it, and a cursor sitting before 'M' only shifts for
    // the one break inserted earlier.
    let m = metrics();
    let mut t = TextEdit::new("ABCDEFGHIJKL\nM", Point { x: 60, y: 100 });
    t.set_cursor_pos(13);
    t.format_text(0, &m);
    assert_eq!(content_of(&t), "ABCDEF\nGHIJKL\nM");
    assert_eq!(t.cursor(), 14);
}
