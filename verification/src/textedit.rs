//! The text-reflow editor: mutable text content with a cursor, kept soft
//! line-wrapped against a fixed pixel box.
//!
//! Every operation is a silent no-op where it cannot apply; none panics.
//! The contracts describe each operation's outcome exactly, over the
//! character sequence and cursor of the editor.

use vstd::prelude::*;
use crate::geom::Point;
use crate::metrics::{TextMetrics, TextParams, MAX_SCALE, MAX_TEXT};
use crate::rope::{
    line_chars, line_of_spec, line_start_spec, num_lines_spec, count_newlines_up_to,
    lemma_count_bounds, lemma_count_insert, lemma_count_nonneg, lemma_line_start,
    lemma_line_start_monotone, lemma_count_constant, lemma_next_newline, next_newline,
    lemma_count_congruent, lemma_line_start_char, lemma_line_start_preceded,
    lemma_position_in_line, rope_chars, rope_char_at, rope_char_to_line, rope_from_str,
    rope_insert_char, rope_len_chars, rope_len_lines, rope_line_to_char, rope_remove_char,
};

verus! {

/// Upper bound on the pixel box an editor is laid out in.
pub const MAX_BOX: u64 = 0x10000000000;

/// A direction the text cursor can be moved in.
#[derive(Clone, Copy, Debug, PartialEq, Eq, Structural)]
pub enum TextCursorDirection {
    Up,
    Down,
    Left,
    Right,
}

/// The cursor: a character offset into the content.
#[derive(Debug)]
struct TextCursor {
    char_idx: usize,
}

impl TextCursor {
    fn new() -> (c: TextCursor)
        ensures
            c.char_idx == 0,
    {
        TextCursor { char_idx: 0 }
    }
}

/// The editor state: the rope of characters, the cursor, the pixel box
/// the text must fit, and the text style.
pub struct TextEdit {
    text_rope: ropey::Rope,
    top_line: usize,
    size: Point,
    cursor: TextCursor,
    selected: bool,
    text_params: TextParams,
}

// ---------------------------------------------------------------------
// The operations' mathematical descriptions.
// ---------------------------------------------------------------------

/// Whether a reflow starting at `start_line` would change anything: the
/// line overflows the box width, or the first character of the next line
/// could be pulled up without overflowing.
pub open spec fn needs_format_spec(
    s: Seq<char>,
    start_line: int,
    m: TextMetrics,
    scale: u64,
    size: Point,
) -> bool {
    let w = m.measure_spec(line_chars(s, start_line), scale);
    if w > size.x {
        true
    } else if start_line < num_lines_spec(s) - 1 {
        let nstart = line_start_spec(s, start_line + 1);
        let nlen = line_start_spec(s, start_line + 2) - nstart;
        if nlen > 0 {
            w + m.char_width_spec(s[nstart], scale) <= size.x
        } else {
            false
        }
    } else {
        false
    }
}

/// Whether the scan removes the linefeed at position `i`: the line
/// before it, plus the first character after it, still fit the box
/// width together.
pub open spec fn break_removed(
    s: Seq<char>,
    i: int,
    line_x: int,
    m: TextMetrics,
    scale: u64,
    width: int,
) -> bool {
    i + 1 < s.len() && line_x + m.char_width_spec(s[i + 1], scale) <= width
}

/// The break edits a reflow scan over `s` from position `i` produces,
/// with `line_x` the width accumulated on the current line so far: a
/// break is inserted before a character that would overflow the box
/// width, and an existing linefeed is removed where the line before it
/// and the first character after it still fit together; a linefeed that
/// stays ends its line.
pub open spec fn scan_breaks(
    s: Seq<char>,
    i: int,
    line_x: int,
    m: TextMetrics,
    scale: u64,
    width: int,
) -> Seq<(int, bool)>
    decreases s.len() - i,
{
    if !(0 <= i < s.len()) {
        Seq::empty()
    } else if s[i] == '\n' {
        if break_removed(s, i, line_x, m, scale, width) {
            seq![(i, false)].add(scan_breaks(s, i + 1, line_x, m, scale, width))
        } else {
            scan_breaks(s, i + 1, 0, m, scale, width)
        }
    } else {
        let w = m.char_width_spec(s[i], scale);
        let add = line_x + w > width;
        let nx = if add {
            w
        } else {
            line_x + w
        };
        let rest = scan_breaks(s, i + 1, nx, m, scale, width);
        if add {
            seq![(i, true)].add(rest)
        } else {
            rest
        }
    }
}

/// The text, cursor, and running index offset after replaying the first
/// `k` break edits against the content: an insert shifts later positions
/// right, a removal shifts them left, and the cursor follows edits made
/// before it.
pub open spec fn apply_state(
    s: Seq<char>,
    cursor: int,
    breaks: Seq<(int, bool)>,
    k: int,
) -> (Seq<char>, int, int)
    decreases k,
{
    if k <= 0 {
        (s, cursor, 0)
    } else {
        let prev = apply_state(s, cursor, breaks, k - 1);
        let u = breaks[k - 1].0 + prev.2;
        if breaks[k - 1].1 {
            (
                prev.0.insert(u, '\n'),
                if u < prev.1 {
                    prev.1 + 1
                } else {
                    prev.1
                },
                prev.2 + 1,
            )
        } else {
            (
                prev.0.remove(u),
                if u < prev.1 {
                    prev.1 - 1
                } else {
                    prev.1
                },
                prev.2 - 1,
            )
        }
    }
}

/// What a reflow from `start_line` leaves behind: nothing, where the
/// check says no reflow is needed; otherwise the scanned break edits
/// replayed over the content.
pub open spec fn format_result(
    s: Seq<char>,
    cursor: int,
    start_line: int,
    m: TextMetrics,
    scale: u64,
    size: Point,
) -> (Seq<char>, int) {
    if !needs_format_spec(s, start_line, m, scale, size) {
        (s, cursor)
    } else {
        let start = line_start_spec(s, start_line);
        let breaks = scan_breaks(s, start, 0, m, scale, size.x as int);
        let r = apply_state(s, cursor, breaks, breaks.len() as int);
        (r.0, r.1)
    }
}


/// What inserting a character at the cursor leaves behind: nothing, when
/// both the line width and the vertical budget would overflow; otherwise
/// the character at the cursor, a forced break after it when typing past
/// the box width at the very end of the content, and a reflow of the
/// edited line whenever the cursor is not left at the end.
pub open spec fn insert_result(
    s: Seq<char>,
    cur: int,
    ch: char,
    m: TextMetrics,
    scale: u64,
    size: Point,
) -> (Seq<char>, int) {
    let l = line_of_spec(s, cur);
    let line_w = m.measure_spec(line_chars(s, l), scale);
    let new_width = m.char_width_spec(ch, scale) + line_w;
    if new_width > size.x && (1 + num_lines_spec(s)) * (m.line_h * scale) > size.y {
        (s, cur)
    } else {
        let cursor_pos = cur - line_start_spec(s, l);
        let line_len = line_start_spec(s, l + 1) - line_start_spec(s, l);
        let brk = cursor_pos == line_len && new_width > size.x && cur == s.len();
        let s1 = s.insert(cur, ch);
        let s2 = if brk {
            s1.insert(cur, '\n')
        } else {
            s1
        };
        let c2 = if brk {
            cur + 2
        } else {
            cur + 1
        };
        if c2 < s2.len() {
            format_result(s2, c2, l, m, scale, size)
        } else {
            (s2, c2)
        }
    }
}

/// What deleting before the cursor leaves behind: nothing on empty
/// content or with nothing before the cursor; otherwise the cursor first
/// steps back over a line boundary it sits on, the character before it
/// goes, and the edited line is reflowed unless the cursor was left at
/// the very end.
pub open spec fn delete_result(
    s: Seq<char>,
    cur: int,
    m: TextMetrics,
    scale: u64,
    size: Point,
) -> (Seq<char>, int) {
    if s.len() == 0 {
        (s, cur)
    } else {
        let l = line_of_spec(s, cur);
        let a = if l > 0 && cur == line_start_spec(s, l) {
            cur - 1
        } else {
            cur
        };
        if a == 0 {
            (s, cur)
        } else {
            let s1 = s.remove(a - 1);
            let c1 = a - 1;
            if s1.len() > 0 && c1 < s1.len() - 1 && l < num_lines_spec(s1) {
                format_result(s1, c1, l, m, scale, size)
            } else {
                (s1, c1)
            }
        }
    }
}

/// Where the cursor lands when moved one step in a direction: left and
/// right step over a line break as one extra character; up and down keep
/// the column, clamped to the target line.
pub open spec fn move_result(s: Seq<char>, cur: int, dir: TextCursorDirection) -> int {
    let l = line_of_spec(s, cur);
    let ls = line_start_spec(s, l);
    let pos = cur - ls;
    let line_len = line_start_spec(s, l + 1) - ls;
    match dir {
        TextCursorDirection::Left => if cur > 0 {
            if pos == 0 && cur >= 2 {
                cur - 2
            } else {
                cur - 1
            }
        } else {
            cur
        },
        TextCursorDirection::Right => if cur < s.len() {
            if pos == line_len {
                cur + 2
            } else {
                cur + 1
            }
        } else {
            cur
        },
        TextCursorDirection::Up => if l > 0 {
            let ps = line_start_spec(s, l - 1);
            let cand = ps + pos;
            if ls <= cand {
                ls
            } else {
                cand
            }
        } else {
            cur
        },
        TextCursorDirection::Down => if l < num_lines_spec(s) - 1 {
            let ns = line_start_spec(s, l + 1);
            let top = line_start_spec(s, l + 2) - 1;
            let cand = ns + pos;
            if top <= cand {
                top
            } else {
                cand
            }
        } else {
            cur
        },
    }
}


/// The greedy hit scan along a line: walk positions from `i` on,
/// accumulating each previous character's advance width, and return the
/// last position whose accumulated width still fits within `lx`.
pub open spec fn hit_scan(
    s: Seq<char>,
    i: int,
    end: int,
    line_x: int,
    lx: int,
    m: TextMetrics,
    scale: u64,
) -> Option<int>
    decreases end - i,
{
    if i >= end {
        None
    } else {
        let nx = line_x + m.char_width_spec(s[i - 1], scale);
        if nx > lx {
            None
        } else {
            match hit_scan(s, i + 1, end, nx, lx, m, scale) {
                Some(j) => Some(j),
                None => Some(i),
            }
        }
    }
}

/// Where a pixel point over the text box lands: nothing outside the box
/// or past the last line, else the character offset found by the greedy
/// scan of the hit line.
pub open spec fn hover_spec(
    s: Seq<char>,
    pt: Point,
    rect: crate::geom::RotateRect,
    m: TextMetrics,
    scale: u64,
) -> Option<int> {
    if pt.x < rect.offset.x || pt.y < rect.offset.y {
        None
    } else {
        let lx = pt.x - rect.offset.x;
        let ly = pt.y - rect.offset.y;
        let n_line = ly / (m.line_h * scale);
        if lx > rect.size.x || n_line >= num_lines_spec(s) {
            None
        } else {
            let start = line_start_spec(s, n_line as int);
            let end = line_start_spec(s, n_line + 1int);
            hit_scan(s, start + 1, end, 0, lx as int, m, scale)
        }
    }
}

// ---------------------------------------------------------------------
// Executable helpers.
// ---------------------------------------------------------------------

/// The pixel width of the characters in `[start, end)` of the rope.
fn measure_range(r: &ropey::Rope, start: usize, end: usize, m: &TextMetrics, scale: u64) -> (w:
    u64)
    requires
        m.wf(),
        1 <= scale <= MAX_SCALE,
        start <= end <= rope_chars(*r).len(),
        end - start <= MAX_TEXT,
    ensures
        w == m.measure_spec(rope_chars(*r).subrange(start as int, end as int), scale),
        w <= (end - start) * 0xFFFF * MAX_SCALE,
        w <= 0x1000000000000,
{
    let ghost s = rope_chars(*r);
    let mut i: usize = start;
    let mut w: u64 = 0;
    proof {
        assert(s.subrange(start as int, start as int) =~= Seq::<char>::empty());
    }
    while i < end
        invariant
            m.wf(),
            1 <= scale <= MAX_SCALE,
            start <= i <= end <= s.len(),
            end - start <= MAX_TEXT,
            s == rope_chars(*r),
            w == m.measure_spec(s.subrange(start as int, i as int), scale),
            w <= (i - start) * 0xFFFF * MAX_SCALE,
        decreases end - i,
    {
        let c = rope_char_at(r, i);
        proof {
            assert(s.subrange(start as int, i + 1int).drop_last() =~= s.subrange(
                start as int,
                i as int,
            ));
            assert(s.subrange(start as int, i + 1int).last() == s[i as int]);
            crate::metrics::lemma_measure_bound(*m, s.subrange(start as int, i + 1int), scale);
        }
        w = w + m.char_size(c, scale).x;
        i = i + 1;
    }
    proof {
        crate::metrics::lemma_measure_bound(*m, s.subrange(start as int, end as int), scale);
        assert((end - start) * 0xFFFF * MAX_SCALE <= MAX_TEXT * 0xFFFF * MAX_SCALE)
            by (nonlinear_arith)
            requires
                0 <= end - start <= MAX_TEXT,
        ;
    }
    w
}

impl TextEdit {
    /// The characters the editor holds.
    pub closed spec fn content(self) -> Seq<char> {
        rope_chars(self.text_rope)
    }

    /// The cursor's character offset.
    pub closed spec fn cursor_spec(self) -> int {
        self.cursor.char_idx as int
    }

    /// The pixel box the text must fit.
    pub closed spec fn box_size(self) -> Point {
        self.size
    }

    /// The text scale in use.
    pub closed spec fn scale_spec(self) -> u64 {
        self.text_params.scale
    }

    /// Whether the editor currently owns keyboard focus.
    pub closed spec fn is_selected(self) -> bool {
        self.selected
    }

    /// The first line scrolled into view; this editor never scrolls, so
    /// it stays at the top.
    pub closed spec fn top_line_spec(self) -> int {
        self.top_line as int
    }

    /// The editor invariant: the cursor stays within the content, the
    /// view starts at the first line, and the style and box are within
    /// machine bounds.
    pub open spec fn wf(self) -> bool {
        &&& 0 <= self.cursor_spec() <= self.content().len()
        &&& self.top_line_spec() == 0
        &&& 1 <= self.scale_spec() <= MAX_SCALE
        &&& self.box_size().x <= MAX_BOX
        &&& self.box_size().y <= MAX_BOX
    }

    /// A fresh editor over the given text, cursor at the start.
    pub fn new(text: &str, size: Point) -> (t: TextEdit)
        requires
            text@.len() <= MAX_TEXT,
            size.x <= MAX_BOX,
            size.y <= MAX_BOX,
        ensures
            t.wf(),
            t.content() == text@,
            t.cursor_spec() == 0,
            t.box_size() == size,
            t.scale_spec() == 1,
            !t.is_selected(),
    {
        TextEdit {
            text_rope: rope_from_str(text),
            top_line: 0,
            size,
            cursor: TextCursor::new(),
            selected: false,
            text_params: TextParams::new(),
        }
    }


    /// The number of characters the editor holds.
    pub fn len_chars(&self) -> (n: usize)
        ensures
            n == self.content().len(),
    {
        rope_len_chars(&self.text_rope)
    }


    /// The cursor's character offset.
    pub fn cursor(&self) -> (c: usize)
        ensures
            c == self.cursor_spec(),
    {
        self.cursor.char_idx
    }

    /// The character at a position.
    pub fn char_at(&self, i: usize) -> (c: char)
        requires
            i < self.content().len(),
        ensures
            c == self.content()[i as int],
    {
        rope_char_at(&self.text_rope, i)
    }

    /// Whether the editor currently owns keyboard focus.
    pub fn selected(&self) -> (r: bool)
        ensures
            r == self.is_selected(),
    {
        self.selected
    }

    /// Clamp the cursor to a character offset within the content.
    pub fn set_cursor_pos(&mut self, cursor_idx: usize)
        requires
            old(self).wf(),
        ensures
            final(self).wf(),
            final(self).content() == old(self).content(),
            final(self).box_size() == old(self).box_size(),
            final(self).scale_spec() == old(self).scale_spec(),
            final(self).is_selected() == old(self).is_selected(),
            final(self).cursor_spec() == if cursor_idx <= old(self).content().len() {
                cursor_idx as int
            } else {
                old(self).content().len() as int
            },
    {
        let len = rope_len_chars(&self.text_rope);
        self.cursor.char_idx = if cursor_idx <= len {
            cursor_idx
        } else {
            len
        };
    }
}


/// The break list seen as a sequence of mathematical pairs.
pub open spec fn breaks_view(v: Seq<(usize, bool)>) -> Seq<(int, bool)> {
    v.map_values(|p: (usize, bool)| (p.0 as int, p.1))
}

/// Every break the scan produces lies at or after its starting position,
/// with at least one position between successive breaks, and inside the
/// text.
pub proof fn lemma_scan_bounds(
    s: Seq<char>,
    i: int,
    line_x: int,
    m: TextMetrics,
    scale: u64,
    width: int,
)
    requires
        0 <= i,
    ensures
        ({
            let b = scan_breaks(s, i, line_x, m, scale, width);
            forall|k: int| 0 <= k < b.len() ==> i + k <= #[trigger] b[k].0 < s.len()
        }),
    decreases s.len() - i,
{
    if 0 <= i < s.len() {
        let b = scan_breaks(s, i, line_x, m, scale, width);
        if s[i] == '\n' {
            if break_removed(s, i, line_x, m, scale, width) {
                lemma_scan_bounds(s, i + 1, line_x, m, scale, width);
                let rest = scan_breaks(s, i + 1, line_x, m, scale, width);
                assert forall|k: int| 0 <= k < b.len() implies i + k <= #[trigger] b[k].0
                    < s.len() by {
                    if k == 0 {
                        assert(b[0] == (i, false));
                    } else {
                        assert(b[k] == rest[k - 1]);
                    }
                }
            } else {
                lemma_scan_bounds(s, i + 1, 0, m, scale, width);
                let rest = scan_breaks(s, i + 1, 0, m, scale, width);
                assert(b == rest);
                assert forall|k: int| 0 <= k < b.len() implies i + k <= #[trigger] b[k].0
                    < s.len() by {
                    assert(rest[k].0 >= (i + 1) + k);
                }
            }
        } else {
            let w = m.char_width_spec(s[i], scale);
            let add = line_x + w > width;
            let nx = if add {
                w
            } else {
                line_x + w
            };
            lemma_scan_bounds(s, i + 1, nx, m, scale, width);
            let rest = scan_breaks(s, i + 1, nx, m, scale, width);
            if !add {
                assert(b == rest);
                assert forall|k: int| 0 <= k < b.len() implies i + k <= #[trigger] b[k].0
                    < s.len() by {
                    assert(rest[k].0 >= (i + 1) + k);
                }
            }
            if add {
                assert forall|k: int| 0 <= k < b.len() implies i + k <= #[trigger] b[k].0
                    < s.len() by {
                    if k == 0 {
                        assert(b[0] == (i, true));
                    } else {
                        assert(b[k] == rest[k - 1]);
                    }
                }
            }
        }
    }
}

impl TextEdit {
    /// Whether a reflow starting at `start_line` would change anything.
    pub fn needs_format(&self, start_line: usize, m: &TextMetrics) -> (r: bool)
        requires
            self.wf(),
            m.wf(),
            start_line < num_lines_spec(self.content()),
            self.content().len() <= MAX_TEXT,
        ensures
            r == needs_format_spec(
                self.content(),
                start_line as int,
                *m,
                self.scale_spec(),
                self.box_size(),
            ),
    {
        let ghost s = self.content();
        let scale = self.text_params.scale;
        proof {
            lemma_count_nonneg(s, s.len() as int);
            lemma_line_start(s, start_line as int);
            lemma_line_start(s, start_line + 1int);
            lemma_line_start_monotone(s, start_line as int, start_line + 1);
        }
        let start = rope_line_to_char(&self.text_rope, start_line);
        let end = rope_line_to_char(&self.text_rope, start_line + 1);
        let w = measure_range(&self.text_rope, start, end, m, scale);
        if w > self.size.x {
            return true;
        }
        let len_lines = rope_len_lines(&self.text_rope);
        if start_line < len_lines - 1 {
            proof {
                lemma_line_start(s, start_line + 2int);
                lemma_line_start_monotone(s, start_line + 1, start_line + 2);
            }
            let nend = rope_line_to_char(&self.text_rope, start_line + 2);
            if nend - end > 0 {
                let nc = rope_char_at(&self.text_rope, end);
                let ncw = m.char_size(nc, scale).x;
                proof {
                    TextMetrics::lemma_scale_bound(m.char_w, scale);
                }
                return w + ncw <= self.size.x;
            }
        }
        false
    }

    /// Move the cursor one step; content is untouched.
    pub fn move_cursor(&mut self, dir: TextCursorDirection)
        requires
            old(self).wf(),
            old(self).content().len() <= MAX_TEXT,
        ensures
            final(self).wf(),
            final(self).content() == old(self).content(),
            final(self).box_size() == old(self).box_size(),
            final(self).scale_spec() == old(self).scale_spec(),
            final(self).is_selected() == old(self).is_selected(),
            final(self).cursor_spec() == move_result(
                old(self).content(),
                old(self).cursor_spec(),
                dir,
            ),
    {
        let ghost s = self.content();
        let cur = self.cursor.char_idx;
        proof {
            lemma_count_bounds(s, cur as int, s.len() as int);
            lemma_count_nonneg(s, cur as int);
            lemma_position_in_line(s, cur as int);
        }
        let cursor_line = rope_char_to_line(&self.text_rope, cur);
        proof {
            lemma_line_start(s, cursor_line as int);
            lemma_line_start(s, cursor_line + 1int);
            lemma_line_start_monotone(s, cursor_line as int, cursor_line + 1);
        }
        let line_start = rope_line_to_char(&self.text_rope, cursor_line);
        let line_end = rope_line_to_char(&self.text_rope, cursor_line + 1);
        let cursor_pos = cur - line_start;
        let line_len = line_end - line_start;
        match dir {
            TextCursorDirection::Left => {
                if cur > 0 {
                    if cursor_pos == 0 && cur >= 2 {
                        self.cursor.char_idx = cur - 2;
                    } else {
                        self.cursor.char_idx = cur - 1;
                    }
                }
            }
            TextCursorDirection::Right => {
                let len = rope_len_chars(&self.text_rope);
                if cur < len {
                    // The cursor sits before the start of the next line,
                    // so it cannot already be past its own line's end.
                    assert(cursor_pos < line_len);
                    if cursor_pos == line_len {
                        self.cursor.char_idx = cur + 2;
                    } else {
                        self.cursor.char_idx = cur + 1;
                    }
                }
            }
            TextCursorDirection::Up => {
                if cursor_line > 0 {
                    proof {
                        lemma_line_start_monotone(s, cursor_line - 1, cursor_line as int);
                    }
                    let prev_start = rope_line_to_char(&self.text_rope, cursor_line - 1);
                    let prev_len = line_start - prev_start;
                    let a = prev_start + prev_len;
                    let b = prev_start + cursor_pos;
                    self.cursor.char_idx = if a <= b {
                        a
                    } else {
                        b
                    };
                }
            }
            TextCursorDirection::Down => {
                let len_lines = rope_len_lines(&self.text_rope);
                proof {
                    lemma_count_nonneg(s, s.len() as int);
                }
                if cursor_line < len_lines - 1 {
                    proof {
                        lemma_line_start(s, cursor_line + 2int);
                        lemma_line_start_monotone(s, cursor_line + 1, cursor_line + 2);
                        // A positive line index starts after its linefeed.
                        if line_start_spec(s, cursor_line + 1int) == 0 {
                            assert(count_newlines_up_to(s, 0int) == 0);
                            assert(false);
                        }
                    }
                    let next_end = rope_line_to_char(&self.text_rope, cursor_line + 2);
                    let next_len = next_end - line_end;
                    let a = line_end + next_len - 1;
                    let b = line_end + cursor_pos;
                    self.cursor.char_idx = if a <= b {
                        a
                    } else {
                        b
                    };
                }
            }
        }
    }


    /// Insert a character at the cursor, refusing it when both the line
    /// width and the vertical budget of the box would overflow.
    pub fn insert_char(&mut self, ch: char, m: &TextMetrics)
        requires
            old(self).wf(),
            m.wf(),
            old(self).content().len() + 2 <= MAX_TEXT,
        ensures
            final(self).wf(),
            final(self).box_size() == old(self).box_size(),
            final(self).scale_spec() == old(self).scale_spec(),
            final(self).is_selected() == old(self).is_selected(),
            (final(self).content(), final(self).cursor_spec()) == insert_result(
                old(self).content(),
                old(self).cursor_spec(),
                ch,
                *m,
                old(self).scale_spec(),
                old(self).box_size(),
            ),
    {
        let ghost s = self.content();
        let scale = self.text_params.scale;
        let cur = self.cursor.char_idx;
        proof {
            lemma_count_bounds(s, cur as int, s.len() as int);
            lemma_count_nonneg(s, cur as int);
            lemma_count_nonneg(s, s.len() as int);
            lemma_position_in_line(s, cur as int);
        }
        let cursor_line = rope_char_to_line(&self.text_rope, cur);
        proof {
            lemma_line_start(s, cursor_line as int);
            lemma_line_start(s, cursor_line + 1int);
            lemma_line_start_monotone(s, cursor_line as int, cursor_line + 1);
        }
        let line_start = rope_line_to_char(&self.text_rope, cursor_line);
        let line_end = rope_line_to_char(&self.text_rope, cursor_line + 1);
        let line_w = measure_range(&self.text_rope, line_start, line_end, m, scale);
        proof {
            TextMetrics::lemma_scale_bound(m.char_w, scale);
            TextMetrics::lemma_scale_bound(m.line_h, scale);
        }
        let new_width = m.char_size(ch, scale).x + line_w;
        let len_lines = rope_len_lines(&self.text_rope) as u64;
        let lh = m.line_height(scale);
        proof {
            assert((1 + len_lines) * lh <= (MAX_TEXT + 2) * (0xFFFF * MAX_SCALE))
                by (nonlinear_arith)
                requires
                    0 <= len_lines <= MAX_TEXT + 1,
                    0 <= lh <= 0xFFFF * MAX_SCALE,
            ;
        }
        if new_width > self.size.x && (1 + len_lines) * lh > self.size.y {
            return;
        }
        let cursor_pos = cur - line_start;
        let line_len = line_end - line_start;
        let len = rope_len_chars(&self.text_rope);
        let insert_break = cursor_pos == line_len && new_width > self.size.x && cur == len;
        rope_insert_char(&mut self.text_rope, cur, ch);
        self.cursor.char_idx = cur + 1;
        proof {
            lemma_count_insert(s, cur as int, ch, s.len() + 1int);
        }
        if insert_break {
            rope_insert_char(&mut self.text_rope, self.cursor.char_idx - 1, '\n');
            self.cursor.char_idx = self.cursor.char_idx + 1;
            proof {
                lemma_count_insert(s.insert(cur as int, ch), cur as int, '\n', s.len() + 2int);
            }
        }
        let new_len = rope_len_chars(&self.text_rope);
        if self.cursor.char_idx < new_len {
            proof {
                lemma_count_bounds(
                    rope_chars(self.text_rope),
                    s.len() as int,
                    rope_chars(self.text_rope).len() as int,
                );
            }
            self.format_text(cursor_line, m);
        }
    }

    /// Delete the character before the cursor, stepping the cursor back
    /// over a line boundary it sits on first; a silent no-op on empty
    /// content or with nothing before the cursor.
    pub fn delete_char(&mut self, m: &TextMetrics)
        requires
            old(self).wf(),
            m.wf(),
            old(self).content().len() <= MAX_TEXT,
        ensures
            final(self).wf(),
            final(self).box_size() == old(self).box_size(),
            final(self).scale_spec() == old(self).scale_spec(),
            final(self).is_selected() == old(self).is_selected(),
            (final(self).content(), final(self).cursor_spec()) == delete_result(
                old(self).content(),
                old(self).cursor_spec(),
                *m,
                old(self).scale_spec(),
                old(self).box_size(),
            ),
    {
        let len = rope_len_chars(&self.text_rope);
        if len == 0 {
            return;
        }
        let ghost s = self.content();
        let cur = self.cursor.char_idx;
        proof {
            lemma_count_bounds(s, cur as int, s.len() as int);
            lemma_count_nonneg(s, cur as int);
            lemma_position_in_line(s, cur as int);
        }
        let cursor_line = rope_char_to_line(&self.text_rope, cur);
        proof {
            lemma_line_start(s, cursor_line as int);
        }
        let lstart = rope_line_to_char(&self.text_rope, cursor_line);
        let mut a = cur;
        if cursor_line > 0 && cur == lstart {
            a = cur - 1;
        }
        if a == 0 {
            return;
        }
        rope_remove_char(&mut self.text_rope, a - 1);
        self.cursor.char_idx = a - 1;
        let new_len = rope_len_chars(&self.text_rope);
        if new_len > 0 && self.cursor.char_idx < new_len - 1 {
            let nlines = rope_len_lines(&self.text_rope);
            if cursor_line < nlines {
                self.format_text(cursor_line, m);
            }
        }
    }


    /// Hit-test a pixel point against the laid-out text: the character
    /// offset under the point, or nothing outside the box.
    pub fn hover_text(&self, pt: &Point, rect: &crate::geom::RotateRect, ctx: &crate::draw::DrawCtx)
        -> (r: Option<usize>)
        requires
            self.wf(),
            ctx.wf(),
            self.content().len() <= MAX_TEXT,
            rect.size.x <= MAX_BOX,
        ensures
            match r {
                Some(u) => hover_spec(self.content(), *pt, *rect, ctx.metrics, self.scale_spec())
                    == Some(u as int) && u <= self.content().len(),
                None => hover_spec(self.content(), *pt, *rect, ctx.metrics, self.scale_spec())
                    is None,
            },
            r is Some ==> rect.offset.x <= pt.x && pt.x - rect.offset.x <= rect.size.x
                && rect.offset.y <= pt.y,
    {
        let ghost s = self.content();
        let m = &ctx.metrics;
        let scale = self.text_params.scale;
        if pt.x < rect.offset.x || pt.y < rect.offset.y {
            return None;
        }
        let lx = pt.x - rect.offset.x;
        let ly = pt.y - rect.offset.y;
        let lh = m.line_height(scale);
        proof {
            assert(lh >= 1) by (nonlinear_arith)
                requires
                    lh == m.line_h * scale,
                    m.line_h >= 1,
                    scale >= 1,
            ;
            lemma_count_nonneg(s, s.len() as int);
        }
        let n_line = ly / lh;
        let len_lines = rope_len_lines(&self.text_rope);
        if lx > rect.size.x || n_line >= len_lines as u64 {
            return None;
        }
        let nl = n_line as usize;
        proof {
            lemma_line_start(s, nl as int);
            lemma_line_start(s, nl + 1int);
            lemma_line_start_monotone(s, nl as int, nl + 1);
        }
        let start = rope_line_to_char(&self.text_rope, nl);
        let end = rope_line_to_char(&self.text_rope, nl + 1);
        let ghost full = hit_scan(s, start + 1int, end as int, 0, lx as int, *m, scale);
        let mut line_x: u64 = 0;
        let mut res: Option<usize> = None;
        let mut i = start + 1;
        while i < end
            invariant_except_break
                m.wf(),
                1 <= scale <= MAX_SCALE,
                s == rope_chars(self.text_rope),
                start + 1 <= i,
                i <= end || end < start + 1,
                end <= s.len(),
                lx <= MAX_BOX,
                line_x <= lx,
                full == (match hit_scan(s, i as int, end as int, line_x as int, lx as int, *m, scale) {
                    Some(j) => Some(j),
                    None => (match res {
                        Some(u) => Some(u as int),
                        None => None,
                    }),
                }),
                match res {
                    Some(u) => start < u <= s.len(),
                    None => true,
                },
            ensures
                full == (match res {
                    Some(u) => Some(u as int),
                    None => None::<int>,
                }),
                match res {
                    Some(u) => start < u <= s.len(),
                    None => true,
                },
            decreases end - i,
        {
            let c = rope_char_at(&self.text_rope, i - 1);
            let w = m.char_size(c, scale).x;
            proof {
                TextMetrics::lemma_scale_bound(m.char_w, scale);
            }
            let nx = line_x + w;
            if nx > lx {
                break;
            }
            res = Some(i);
            line_x = nx;
            i = i + 1;
        }
        res
    }


    /// Emit this editor's draw commands: the text run, and the cursor
    /// line when the editor owns focus.
    pub fn draw(
        &self,
        rect: &crate::geom::RotateRect,
        draw_ctx: &crate::draw::DrawCtx,
        out: &mut Vec<crate::draw::DrawCmd>,
    )
        requires
            self.wf(),
            draw_ctx.wf(),
            self.content().len() <= MAX_TEXT,
        ensures
            final(out)@.len() == old(out)@.len() + (if self.content().len() > 0 {
                1int
            } else {
                0int
            }) + (if self.is_selected() {
                1int
            } else {
                0int
            }),
            forall|i: int| 0 <= i < old(out)@.len() ==> final(out)@[i] == old(out)@[i],
            self.content().len() > 0 ==> (final(out)@[old(out)@.len() as int] matches
                crate::draw::DrawCmd::Text { chars, params, area } && chars@ == self.content()
                && params.scale == self.scale_spec() && area == *rect),
            // The cursor line: from the measured width of the line's
            // prefix before the cursor, one line row tall.
            self.is_selected() ==> final(out)@.last() == ({
                let s = self.content();
                let cur = self.cursor_spec();
                let l = line_of_spec(s, cur);
                let lh = draw_ctx.metrics.line_h * self.scale_spec();
                let bx = crate::geom::sat_add_spec(
                    rect.offset.x,
                    draw_ctx.metrics.measure_spec(
                        s.subrange(line_start_spec(s, l), cur),
                        self.scale_spec(),
                    ) as u64,
                );
                let by = crate::geom::sat_add_spec(rect.offset.y, (l * lh) as u64);
                crate::draw::DrawCmd::Line {
                    p1: Point { x: bx, y: by },
                    p2: Point { x: bx, y: crate::geom::sat_add_spec(by, lh as u64) },
                    color: crate::geom::Color { r: 0u8, g: 0u8, b: 0u8, a: 255u8 },
                    width: 3,
                }
            }),
    {
        let ghost s = self.content();
        let m = &draw_ctx.metrics;
        let scale = self.text_params.scale;
        let cur = self.cursor.char_idx;
        proof {
            lemma_count_bounds(s, cur as int, s.len() as int);
            lemma_count_nonneg(s, cur as int);
            lemma_position_in_line(s, cur as int);
        }
        let cursor_line = rope_char_to_line(&self.text_rope, cur);
        let lh = m.line_height(scale);
        let len = rope_len_chars(&self.text_rope);
        if len > 0 {
            let mut chars: Vec<char> = Vec::new();
            let mut i: usize = 0;
            proof {
                assert(chars@ =~= s.take(0int));
            }
            while i < len
                invariant
                    s == rope_chars(self.text_rope),
                    len == s.len(),
                    0 <= i <= len,
                    chars@ == s.take(i as int),
                decreases len - i,
            {
                let c = rope_char_at(&self.text_rope, i);
                chars.push(c);
                proof {
                    assert(chars@ =~= s.take(i + 1int));
                }
                i = i + 1;
            }
            proof {
                assert(chars@ =~= s);
            }
            out.push(
                crate::draw::DrawCmd::Text {
                    chars,
                    params: self.text_params,
                    area: *rect,
                },
            );
        }
        if self.selected {
            proof {
                lemma_line_start(s, cursor_line as int);
            }
            let lstart = rope_line_to_char(&self.text_rope, cursor_line);
            let before_w = measure_range(&self.text_rope, lstart, cur, m, scale);
            let rel_line = if cursor_line >= self.top_line {
                (cursor_line - self.top_line) as u64
            } else {
                0
            };
            proof {
                TextMetrics::lemma_scale_bound(m.line_h, scale);
                assert(rel_line * lh <= MAX_TEXT * (0xFFFF * MAX_SCALE)) by (nonlinear_arith)
                    requires
                        0 <= rel_line <= MAX_TEXT,
                        0 <= lh <= 0xFFFF * MAX_SCALE,
                ;
            }
            let p1 = Point {
                x: crate::geom::sat_add(rect.offset.x, before_w),
                y: crate::geom::sat_add(rect.offset.y, rel_line * lh),
            };
            let p2 = Point { x: p1.x, y: crate::geom::sat_add(p1.y, lh) };
            out.push(
                crate::draw::DrawCmd::Line {
                    p1,
                    p2,
                    color: crate::geom::Color::rgb(0, 0, 0),
                    width: 3,
                },
            );
        }
    }

    /// Focus gained: remember the selection and ask for the insertion
    /// cursor and a redraw.
    pub fn on_select(&mut self, ctx: &mut crate::status::EventCtx) -> (r: Option<
        crate::status::EventResponse,
    >)
        ensures
            final(self).is_selected(),
            final(self).content() == old(self).content(),
            final(self).cursor_spec() == old(self).cursor_spec(),
            final(self).box_size() == old(self).box_size(),
            final(self).scale_spec() == old(self).scale_spec(),
            old(self).wf() ==> final(self).wf(),
            final(ctx).res.cursor == crate::status::CursorStyle::IBeam,
            final(ctx).res.status == old(ctx).res.status.or_spec(
                crate::status::WidgetStatus { bits: 1u32 },
            ),
            final(ctx).res.callbacks@ == old(ctx).res.callbacks@,
            final(ctx).draw_ctx == old(ctx).draw_ctx,
            r == Some(crate::status::EventResponse::Handled),
    {
        self.selected = true;
        ctx.set_cursor(crate::status::CursorStyle::IBeam);
        ctx.set_redraw();
        Some(crate::status::EventResponse::Handled)
    }

    /// Focus lost: forget the selection and ask for a redraw.
    pub fn on_deselect(&mut self, ctx: &mut crate::status::EventCtx) -> (r: Option<
        crate::status::EventResponse,
    >)
        ensures
            !final(self).is_selected(),
            final(self).content() == old(self).content(),
            final(self).cursor_spec() == old(self).cursor_spec(),
            final(self).box_size() == old(self).box_size(),
            final(self).scale_spec() == old(self).scale_spec(),
            old(self).wf() ==> final(self).wf(),
            final(ctx).res.status == old(ctx).res.status.or_spec(
                crate::status::WidgetStatus { bits: 1u32 },
            ),
            final(ctx).res.callbacks@ == old(ctx).res.callbacks@,
            final(ctx).res.cursor == old(ctx).res.cursor,
            final(ctx).draw_ctx == old(ctx).draw_ctx,
            r == Some(crate::status::EventResponse::Handled),
    {
        self.selected = false;
        ctx.set_redraw();
        Some(crate::status::EventResponse::Handled)
    }

    /// Route a key to the editor: characters insert, arrows move, and
    /// backspace deletes; anything else is left unhandled.
    pub fn handle_key_down(&mut self, kc: &crate::status::Key, ctx: &mut crate::status::EventCtx)
        -> (r: Option<crate::status::EventResponse>)
        requires
            old(self).wf(),
            old(ctx).draw_ctx.wf(),
            old(self).content().len() + 2 <= MAX_TEXT,
        ensures
            final(self).wf(),
            final(self).box_size() == old(self).box_size(),
            final(self).scale_spec() == old(self).scale_spec(),
            final(self).is_selected() == old(self).is_selected(),
            final(ctx).draw_ctx == old(ctx).draw_ctx,
            final(ctx).res.callbacks@ == old(ctx).res.callbacks@,
            final(ctx).res.status == old(ctx).res.status || final(ctx).res.status == old(
                ctx,
            ).res.status.or_spec(crate::status::WidgetStatus { bits: 1u32 }),
            match *kc {
                crate::status::Key::Char(ch) => (final(self).content(), final(self).cursor_spec())
                    == insert_result(
                    old(self).content(),
                    old(self).cursor_spec(),
                    ch,
                    old(ctx).draw_ctx.metrics,
                    old(self).scale_spec(),
                    old(self).box_size(),
                ) && r == Some(crate::status::EventResponse::Handled),
                crate::status::Key::Backspace => (final(self).content(), final(self).cursor_spec())
                    == delete_result(
                    old(self).content(),
                    old(self).cursor_spec(),
                    old(ctx).draw_ctx.metrics,
                    old(self).scale_spec(),
                    old(self).box_size(),
                ) && r == Some(crate::status::EventResponse::Handled),
                crate::status::Key::Left => final(self).content() == old(self).content() && final(self).cursor_spec() == move_result(
                    old(self).content(),
                    old(self).cursor_spec(),
                    TextCursorDirection::Left,
                ) && r == Some(crate::status::EventResponse::Handled),
                crate::status::Key::Right => final(self).content() == old(self).content() && final(self).cursor_spec() == move_result(
                    old(self).content(),
                    old(self).cursor_spec(),
                    TextCursorDirection::Right,
                ) && r == Some(crate::status::EventResponse::Handled),
                crate::status::Key::Up => final(self).content() == old(self).content() && final(self).cursor_spec() == move_result(
                    old(self).content(),
                    old(self).cursor_spec(),
                    TextCursorDirection::Up,
                ) && r == Some(crate::status::EventResponse::Handled),
                crate::status::Key::Down => final(self).content() == old(self).content() && final(self).cursor_spec() == move_result(
                    old(self).content(),
                    old(self).cursor_spec(),
                    TextCursorDirection::Down,
                ) && r == Some(crate::status::EventResponse::Handled),
                _ => final(self).content() == old(self).content() && final(self).cursor_spec()
                    == old(self).cursor_spec() && r is None && final(ctx).res == old(ctx).res,
            },
    {
        let m = ctx.draw_ctx.metrics;
        match *kc {
            crate::status::Key::Char(ch) => {
                self.insert_char(ch, &m);
            }
            crate::status::Key::Backspace => {
                self.delete_char(&m);
            }
            crate::status::Key::Left => {
                self.move_cursor(TextCursorDirection::Left);
            }
            crate::status::Key::Right => {
                self.move_cursor(TextCursorDirection::Right);
            }
            crate::status::Key::Up => {
                self.move_cursor(TextCursorDirection::Up);
            }
            crate::status::Key::Down => {
                self.move_cursor(TextCursorDirection::Down);
            }
            _ => {
                return None;
            }
        }
        ctx.set_redraw();
        Some(crate::status::EventResponse::Handled)
    }

    /// Reflow the content from `start_line` on: scan for break edits,
    /// then replay them, shifting the cursor with edits made before it.
    pub fn format_text(&mut self, start_line: usize, m: &TextMetrics)
        requires
            old(self).wf(),
            m.wf(),
            start_line < num_lines_spec(old(self).content()),
            old(self).content().len() <= MAX_TEXT,
        ensures
            final(self).wf(),
            final(self).box_size() == old(self).box_size(),
            final(self).scale_spec() == old(self).scale_spec(),
            final(self).is_selected() == old(self).is_selected(),
            (final(self).content(), final(self).cursor_spec()) == format_result(
                old(self).content(),
                old(self).cursor_spec(),
                start_line as int,
                *m,
                old(self).scale_spec(),
                old(self).box_size(),
            ),
            final(self).content().len() <= 2 * old(self).content().len(),
    {
        let ghost s0 = self.content();
        let ghost c0 = self.cursor_spec();
        let ghost size0 = self.size;
        let ghost params0 = self.text_params;
        let ghost selected0 = self.selected;
        let ghost top0 = self.top_line;
        if !self.needs_format(start_line, m) {
            return;
        }
        let scale = self.text_params.scale;
        let width = self.size.x;
        proof {
            lemma_line_start(s0, start_line as int);
        }
        let start_char = rope_line_to_char(&self.text_rope, start_line);
        let len = rope_len_chars(&self.text_rope);
        let ghost full = scan_breaks(s0, start_char as int, 0, *m, scale, width as int);

        // Scan pass: walk the characters from the start line on, collecting
        // break inserts and removals.
        let mut line_x: u64 = 0;
        let mut breaks: Vec<(usize, bool)> = Vec::new();
        let mut i: usize = start_char;
        proof {
            assert(breaks_view(breaks@) =~= Seq::<(int, bool)>::empty());
            assert(breaks_view(breaks@) + scan_breaks(
                s0,
                i as int,
                line_x as int,
                *m,
                scale,
                width as int,
            ) =~= full);
        }
        while i < len
            invariant
                m.wf(),
                1 <= scale <= MAX_SCALE,
                width <= MAX_BOX,
                s0 == rope_chars(self.text_rope),
                len == s0.len(),
                start_char <= i <= len,
                line_x <= MAX_BOX,
                self.size == size0,
                self.text_params == params0,
                self.selected == selected0,
                self.top_line == top0,
                self.cursor.char_idx == c0,
                breaks_view(breaks@) + scan_breaks(
                    s0,
                    i as int,
                    line_x as int,
                    *m,
                    scale,
                    width as int,
                ) =~= full,
            decreases len - i,
        {
            let ghost tail = scan_breaks(s0, i as int, line_x as int, *m, scale, width as int);
            let c = rope_char_at(&self.text_rope, i);
            proof {
                TextMetrics::lemma_scale_bound(m.char_w, scale);
            }
            if c == '\n' {
                let removable = if i + 1 < len {
                    let nc = rope_char_at(&self.text_rope, i + 1);
                    line_x + m.char_size(nc, scale).x <= width
                } else {
                    false
                };
                if removable {
                    let ghost before = breaks@;
                    breaks.push((i, false));
                    proof {
                        assert(breaks_view(breaks@) =~= breaks_view(before) + seq![
                            (i as int, false),
                        ]);
                    }
                } else {
                    line_x = 0;
                }
            } else {
                let w = m.char_size(c, scale).x;
                if line_x + w > width {
                    let ghost before = breaks@;
                    breaks.push((i, true));
                    proof {
                        assert(breaks_view(breaks@) =~= breaks_view(before) + seq![
                            (i as int, true),
                        ]);
                    }
                    line_x = w;
                } else {
                    line_x = line_x + w;
                }
            }
            i = i + 1;
            proof {
                assert(breaks_view(breaks@) + scan_breaks(
                    s0,
                    i as int,
                    line_x as int,
                    *m,
                    scale,
                    width as int,
                ) =~= full);
            }
        }
        proof {
            assert(breaks_view(breaks@) =~= full);
            lemma_scan_bounds(s0, start_char as int, 0, *m, scale, width as int);
            if full.len() > 0 {
                assert(start_char + (full.len() - 1) <= full[full.len() - 1].0 < s0.len());
            }
        }

        // Apply pass: replay the edits left to right, shifting positions by
        // the net number of edits already made, and the cursor with them.
        let n = breaks.len();
        let mut adds: usize = 0;
        let mut removes: usize = 0;
        let mut k: usize = 0;
        while k < n
            invariant
                0 <= k <= n,
                n == breaks@.len(),
                n <= s0.len(),
                s0.len() <= MAX_TEXT,
                breaks_view(breaks@) =~= full,
                forall|j: int|
                    0 <= j < full.len() ==> start_char + j <= #[trigger] full[j].0 < s0.len(),
                self.size == size0,
                self.text_params == params0,
                self.selected == selected0,
                self.top_line == top0,
                adds <= k,
                removes <= k,
                ({
                    let st = apply_state(s0, c0, full, k as int);
                    &&& rope_chars(self.text_rope) == st.0
                    &&& self.cursor.char_idx == st.1
                    &&& st.2 == adds - removes
                    &&& st.0.len() == s0.len() + st.2
                    &&& 0 <= st.1 <= st.0.len()
                }),
            decreases n - k,
        {
            let ghost st = apply_state(s0, c0, full, k as int);
            let (idx, is_add) = breaks[k];
            proof {
                assert(full[k as int] == (idx as int, is_add));
                assert(start_char + k <= full[k as int].0 < s0.len());
            }
            proof {
                assert(st.2 == adds - removes);
                assert(idx + adds >= removes);
            }
            let u = idx + adds - removes;
            proof {
                assert(u == full[k as int].0 + st.2);
                assert(u < st.0.len());
                assert(st.0.len() < usize::MAX);
            }
            if is_add {
                rope_insert_char(&mut self.text_rope, u, '\n');
                if u < self.cursor.char_idx {
                    self.cursor.char_idx = self.cursor.char_idx + 1;
                }
                adds = adds + 1;
            } else {
                rope_remove_char(&mut self.text_rope, u);
                if u < self.cursor.char_idx {
                    self.cursor.char_idx = self.cursor.char_idx - 1;
                }
                removes = removes + 1;
            }
            k = k + 1;
        }
    }
}



/// A form field wrapping a reflow editor: the widget half holds the
/// initial text and the pixel box; the editable state itself lives in
/// the field's selection entry.
pub struct TextBox {
    pub default_text: String,
    pub rect: crate::geom::RotateRect,
    pub num_chars: usize,
}

impl TextBox {
    pub fn new(default_text: &str, num_chars: usize) -> (t: TextBox)
        requires
            default_text@.len() <= MAX_TEXT,
            num_chars <= MAX_TEXT,
        ensures
            t.default_text@ == default_text@,
            t.num_chars == num_chars,
            t.rect == (crate::geom::RotateRect {
                offset: Point { x: 0u64, y: 0u64 },
                size: Point { x: 0u64, y: 0u64 },
            }),
    {
        TextBox {
            default_text: default_text.to_owned(),
            rect: crate::geom::RotateRect {
                offset: Point { x: 0, y: 0 },
                size: Point { x: 0, y: 0 },
            },
            num_chars,
        }
    }
}



// ---------------------------------------------------------------------
// Laws of the editor.
// ---------------------------------------------------------------------

/// A character is never negatively wide.
proof fn lemma_char_width_nonneg(m: TextMetrics, c: char, scale: u64)
    ensures
        m.char_width_spec(c, scale) >= 0,
{
    if c != '\n' {
        assert(m.char_w * scale >= 0) by (nonlinear_arith)
            requires
                0 <= m.char_w,
                0 <= scale,
        ;
    }
}

/// A prefix of a text is never wider than the text.
proof fn lemma_measure_take_monotone(m: TextMetrics, s: Seq<char>, scale: u64, k: int)
    requires
        0 <= k <= s.len(),
    ensures
        m.measure_spec(s.take(k), scale) <= m.measure_spec(s, scale),
    decreases s.len() - k,
{
    if k == s.len() {
        assert(s.take(k) =~= s);
    } else {
        lemma_measure_take_monotone(m, s, scale, k + 1);
        assert(s.take(k + 1).drop_last() =~= s.take(k));
        assert(s.take(k + 1).last() == s[k]);
        lemma_char_width_nonneg(m, s[k], scale);
    }
}

/// A text without linefeeds is one line covering all of it.
pub proof fn lemma_single_line(s: Seq<char>)
    requires
        forall|i: int| 0 <= i < s.len() ==> s[i] != '\n',
    ensures
        num_lines_spec(s) == 1,
        line_start_spec(s, 0) == 0,
        line_start_spec(s, 1) == s.len(),
        line_chars(s, 0) =~= s,
{
    lemma_count_constant(s, 0, s.len() as int);
    lemma_next_newline(s, 0);
    if next_newline(s, 0) < s.len() {
        assert(false);
    }
}

/// Inserting a character that still fits the box width at the end of a
/// single-line text simply appends it: no forced break, no reflow.
pub proof fn lemma_insert_at_end_fits(
    s: Seq<char>,
    ch: char,
    m: TextMetrics,
    scale: u64,
    size: Point,
)
    requires
        m.wf(),
        1 <= scale <= MAX_SCALE,
        forall|i: int| 0 <= i < s.len() ==> s[i] != '\n',
        ch != '\n',
        m.char_width_spec(ch, scale) + m.measure_spec(s, scale) <= size.x,
    ensures
        insert_result(s, s.len() as int, ch, m, scale, size) == (s.push(ch), s.len() + 1int),
{
    let cur = s.len() as int;
    lemma_single_line(s);
    lemma_count_constant(s, 0, cur);
    assert(line_of_spec(s, cur) == 0);
    assert(m.measure_spec(line_chars(s, 0), scale) == m.measure_spec(s, scale));
    assert(s.insert(cur, ch) =~= s.push(ch));
}

/// The content and cursor reached by typing the first `k` characters of
/// a string into an empty editor.
pub open spec fn type_chars(
    s: Seq<char>,
    k: int,
    m: TextMetrics,
    scale: u64,
    size: Point,
) -> (Seq<char>, int)
    decreases k,
{
    if k <= 0 {
        (Seq::empty(), 0int)
    } else {
        let prev = type_chars(s, k - 1, m, scale, size);
        insert_result(prev.0, prev.1, s[k - 1], m, scale, size)
    }
}

/// Typing a prefix of a fitting string reproduces exactly that prefix.
proof fn lemma_typing_prefix(s: Seq<char>, k: int, m: TextMetrics, scale: u64, size: Point)
    requires
        m.wf(),
        1 <= scale <= MAX_SCALE,
        forall|i: int| 0 <= i < s.len() ==> s[i] != '\n',
        m.measure_spec(s, scale) <= size.x,
        0 <= k <= s.len(),
    ensures
        type_chars(s, k, m, scale, size) == (s.take(k), k),
    decreases k,
{
    if k == 0 {
        assert(s.take(0int) =~= Seq::<char>::empty());
    } else {
        lemma_typing_prefix(s, k - 1, m, scale, size);
        let prev = s.take(k - 1);
        assert(s.take(k).drop_last() =~= prev);
        assert(s.take(k).last() == s[k - 1]);
        lemma_measure_take_monotone(m, s, scale, k);
        assert(m.char_width_spec(s[k - 1], scale) + m.measure_spec(prev, scale)
            == m.measure_spec(s.take(k), scale));
        assert(forall|i: int| 0 <= i < prev.len() ==> prev[i] != '\n');
        lemma_insert_at_end_fits(prev, s[k - 1], m, scale, size);
        assert(prev.push(s[k - 1]) =~= s.take(k));
    }
}

/// Typing a string whose width fits the box, starting from empty
/// content, produces that string with no soft break inserted, its
/// measure within the box width, and the cursor at its end.
pub proof fn lemma_round_trip_typing(s: Seq<char>, m: TextMetrics, scale: u64, size: Point)
    requires
        m.wf(),
        1 <= scale <= MAX_SCALE,
        forall|i: int| 0 <= i < s.len() ==> s[i] != '\n',
        m.measure_spec(s, scale) <= size.x,
    ensures
        type_chars(s, s.len() as int, m, scale, size) == (s, s.len() as int),
        m.measure_spec(type_chars(s, s.len() as int, m, scale, size).0, scale) <= size.x,
{
    lemma_typing_prefix(s, s.len() as int, m, scale, size);
    assert(s.take(s.len() as int) =~= s);
}


/// A break list with every position shifted by a fixed amount.
pub open spec fn shift_breaks(bs: Seq<(int, bool)>, d: int) -> Seq<(int, bool)> {
    bs.map_values(|p: (int, bool)| (p.0 + d, p.1))
}

/// The text a reflow scan from position `i` reconstructs directly: each
/// character kept in order, a linefeed slipped in before one that would
/// overflow the box width, and an existing linefeed the width budget
/// does not require dropped.
pub open spec fn wrapped(
    s: Seq<char>,
    i: int,
    line_x: int,
    m: TextMetrics,
    scale: u64,
    width: int,
) -> Seq<char>
    decreases s.len() - i,
{
    if !(0 <= i < s.len()) {
        Seq::empty()
    } else if s[i] == '\n' {
        if break_removed(s, i, line_x, m, scale, width) {
            wrapped(s, i + 1, line_x, m, scale, width)
        } else {
            seq!['\n'].add(wrapped(s, i + 1, 0, m, scale, width))
        }
    } else {
        let w = m.char_width_spec(s[i], scale);
        let add = line_x + w > width;
        let nx = if add {
            w
        } else {
            line_x + w
        };
        let rest = wrapped(s, i + 1, nx, m, scale, width);
        if add {
            seq!['\n', s[i]].add(rest)
        } else {
            seq![s[i]].add(rest)
        }
    }
}

/// Scan and reconstruction depend only on the characters from the scan
/// position on: over equal suffixes the reconstruction agrees and the
/// breaks agree up to the position shift.
proof fn lemma_scan_wrapped_congruent(
    s1: Seq<char>,
    i1: int,
    s2: Seq<char>,
    i2: int,
    lx: int,
    m: TextMetrics,
    scale: u64,
    width: int,
)
    requires
        0 <= i1 <= s1.len(),
        0 <= i2 <= s2.len(),
        s1.len() - i1 == s2.len() - i2,
        forall|j: int| 0 <= j < s1.len() - i1 ==> #[trigger] s1[i1 + j] == s2[i2 + j],
    ensures
        wrapped(s1, i1, lx, m, scale, width) == wrapped(s2, i2, lx, m, scale, width),
        scan_breaks(s2, i2, lx, m, scale, width) == shift_breaks(
            scan_breaks(s1, i1, lx, m, scale, width),
            i2 - i1,
        ),
    decreases s1.len() - i1,
{
    if i1 < s1.len() {
        assert(s1[i1] == s2[i2]) by {
            assert(s1[i1 + 0] == s2[i2 + 0]);
        }
        if i1 + 1 < s1.len() {
            assert(s1[i1 + 1] == s2[i2 + 1]);
        }
        if s1[i1] == '\n' {
            assert(break_removed(s1, i1, lx, m, scale, width) == break_removed(
                s2,
                i2,
                lx,
                m,
                scale,
                width,
            ));
            if break_removed(s1, i1, lx, m, scale, width) {
                assert forall|j: int| 0 <= j < s1.len() - (i1 + 1) implies #[trigger] s1[(i1 + 1)
                    + j] == s2[(i2 + 1) + j] by {
                    assert(s1[i1 + (j + 1)] == s2[i2 + (j + 1)]);
                }
                lemma_scan_wrapped_congruent(s1, i1 + 1, s2, i2 + 1, lx, m, scale, width);
                let rest1 = scan_breaks(s1, i1 + 1, lx, m, scale, width);
                let rest2 = scan_breaks(s2, i2 + 1, lx, m, scale, width);
                assert(scan_breaks(s2, i2, lx, m, scale, width) =~= shift_breaks(
                    scan_breaks(s1, i1, lx, m, scale, width),
                    i2 - i1,
                )) by {
                    assert(scan_breaks(s1, i1, lx, m, scale, width) == seq![(i1, false)].add(
                        rest1,
                    ));
                    assert(scan_breaks(s2, i2, lx, m, scale, width) == seq![(i2, false)].add(
                        rest2,
                    ));
                }
            } else {
                assert forall|j: int| 0 <= j < s1.len() - (i1 + 1) implies #[trigger] s1[(i1 + 1)
                    + j] == s2[(i2 + 1) + j] by {
                    assert(s1[i1 + (j + 1)] == s2[i2 + (j + 1)]);
                }
                lemma_scan_wrapped_congruent(s1, i1 + 1, s2, i2 + 1, 0, m, scale, width);
            }
        } else {
            let w = m.char_width_spec(s1[i1], scale);
            let add = lx + w > width;
            let nx = if add {
                w
            } else {
                lx + w
            };
            assert forall|j: int| 0 <= j < s1.len() - (i1 + 1) implies #[trigger] s1[(i1 + 1) + j]
                == s2[(i2 + 1) + j] by {
                assert(s1[i1 + (j + 1)] == s2[i2 + (j + 1)]);
            }
            lemma_scan_wrapped_congruent(s1, i1 + 1, s2, i2 + 1, nx, m, scale, width);
            let rest1 = scan_breaks(s1, i1 + 1, nx, m, scale, width);
            let rest2 = scan_breaks(s2, i2 + 1, nx, m, scale, width);
            if add {
                assert(scan_breaks(s2, i2, lx, m, scale, width) =~= shift_breaks(
                    scan_breaks(s1, i1, lx, m, scale, width),
                    i2 - i1,
                )) by {
                    assert(scan_breaks(s1, i1, lx, m, scale, width) == seq![(i1, true)].add(
                        rest1,
                    ));
                    assert(scan_breaks(s2, i2, lx, m, scale, width) == seq![(i2, true)].add(
                        rest2,
                    ));
                }
            }
        }
    } else {
        assert(scan_breaks(s2, i2, lx, m, scale, width) =~= shift_breaks(
            scan_breaks(s1, i1, lx, m, scale, width),
            i2 - i1,
        ));
    }
}

/// What the reconstruction's first line looks like, scanning with `lx`
/// already on the line and every character narrower than the box: the
/// line up to the first linefeed still fits beside `lx`, and when a
/// linefeed was placed, the character after it would not have fit.
proof fn lemma_wrapped_first_line(
    s: Seq<char>,
    i: int,
    lx: int,
    m: TextMetrics,
    scale: u64,
    width: int,
)
    requires
        m.wf(),
        1 <= scale <= MAX_SCALE,
        m.char_w * scale <= width,
        0 <= i <= s.len(),
        0 <= lx <= width,
    ensures
        ({
            let wv = wrapped(s, i, lx, m, scale, width);
            let k = next_newline(wv, 0);
            &&& lx + m.measure_spec(wv.take(k), scale) <= width
            &&& (k < wv.len() && k + 1 < wv.len() ==> lx + m.measure_spec(wv.take(k), scale)
                + m.char_width_spec(wv[k + 1], scale) > width)
        }),
    decreases s.len() - i,
{
    let wv = wrapped(s, i, lx, m, scale, width);
    if !(0 <= i < s.len()) {
        assert(wv.take(0int) =~= Seq::<char>::empty());
    } else if s[i] == '\n' {
        if break_removed(s, i, lx, m, scale, width) {
            lemma_wrapped_first_line(s, i + 1, lx, m, scale, width);
            assert(wv == wrapped(s, i + 1, lx, m, scale, width));
        } else {
            // The linefeed stays: the first line ends here, and when a
            // character follows, it alone would overflow beside lx.
            let rest = wrapped(s, i + 1, 0, m, scale, width);
            assert(wv == seq!['\n'].add(rest));
            assert(wv[0] == '\n');
            assert(next_newline(wv, 0) == 0);
            assert(wv.take(0int) =~= Seq::<char>::empty());
            if 1 < wv.len() {
                // A follower exists, and it is not a linefeed: a
                // linefeed follower is free and would have been pulled
                // up.
                assert(i + 1 < s.len()) by {
                    if i + 1 >= s.len() {
                        assert(rest =~= Seq::<char>::empty());
                    }
                }
                lemma_char_width_nonneg(m, s[i + 1], scale);
                assert(lx + m.char_width_spec(s[i + 1], scale) > width);
                assert(s[i + 1] != '\n');
                // The reconstruction of the next line starts with that
                // very character: it fits an empty line, so no break is
                // slipped in before it.
                assert(0 + m.char_width_spec(s[i + 1], scale) <= width);
                assert(rest == seq![s[i + 1]].add(
                    wrapped(s, i + 2, m.char_width_spec(s[i + 1], scale), m, scale, width),
                ));
                assert(wv[1] == s[i + 1]);
            }
        }
    } else {
        let w = m.char_width_spec(s[i], scale);
        let add = lx + w > width;
        let nx = if add {
            w
        } else {
            lx + w
        };
        lemma_char_width_nonneg(m, s[i], scale);
        assert(w <= width);
        let rest = wrapped(s, i + 1, nx, m, scale, width);
        if add {
            // A break was placed: the first line beside lx is empty, and
            // the character after the break is the one that overflowed.
            lemma_wrapped_first_line(s, i + 1, nx, m, scale, width);
            assert(wv == seq!['\n', s[i]].add(rest));
            assert(wv[0] == '\n');
            assert(next_newline(wv, 0) == 0);
            assert(wv.take(0int) =~= Seq::<char>::empty());
            assert(wv[1] == s[i]);
        } else {
            lemma_wrapped_first_line(s, i + 1, nx, m, scale, width);
            assert(wv == seq![s[i]].add(rest));
            assert(wv[0] == s[i]);
            assert(wv[0] != '\n');
            let kr = next_newline(rest, 0);
            lemma_next_newline(rest, 0);
            assert(next_newline(wv, 0) == 1 + kr) by {
                lemma_next_newline_cons(wv, rest);
            }
            let k = 1 + kr;
            assert(wv.take(k) =~= seq![s[i]].add(rest.take(kr)));
            lemma_measure_cons(m, s[i], rest.take(kr), scale);
            assert(lx + m.measure_spec(wv.take(k), scale) == nx + m.measure_spec(
                rest.take(kr),
                scale,
            ));
            if k < wv.len() && k + 1 < wv.len() {
                assert(kr < rest.len());
                assert(kr + 1 < rest.len());
                assert(wv[k + 1] == rest[kr + 1]);
            }
        }
    }
}

/// The first linefeed of a list with a non-linefeed head sits one past
/// the first linefeed of its tail.
proof fn lemma_next_newline_cons(wv: Seq<char>, rest: Seq<char>)
    requires
        wv.len() == rest.len() + 1,
        wv[0] != '\n',
        forall|j: int| 0 <= j < rest.len() ==> #[trigger] wv[j + 1] == rest[j],
    ensures
        next_newline(wv, 0) == 1 + next_newline(rest, 0),
{
    lemma_next_newline_shifted(wv, rest, 0);
}

/// Helper: the next linefeed searched from matching positions agrees.
proof fn lemma_next_newline_shifted(wv: Seq<char>, rest: Seq<char>, j: int)
    requires
        wv.len() == rest.len() + 1,
        forall|k: int| 0 <= k < rest.len() ==> #[trigger] wv[k + 1] == rest[k],
        0 <= j <= rest.len(),
    ensures
        next_newline(wv, j + 1) == 1 + next_newline(rest, j),
    decreases rest.len() - j,
{
    if j < rest.len() {
        assert(wv[j + 1] == rest[j]);
        if rest[j] != '\n' {
            lemma_next_newline_shifted(wv, rest, j + 1);
        }
    }
}

/// Widths add over concatenation.
proof fn lemma_measure_add(m: TextMetrics, a: Seq<char>, b: Seq<char>, scale: u64)
    ensures
        m.measure_spec(a.add(b), scale) == m.measure_spec(a, scale) + m.measure_spec(b, scale),
    decreases b.len(),
{
    if b.len() == 0 {
        assert(a.add(b) =~= a);
    } else {
        lemma_measure_add(m, a, b.drop_last(), scale);
        let whole = a.add(b);
        assert(whole.drop_last() =~= a.add(b.drop_last()));
        assert(whole.last() == b.last());
        assert(whole.len() > 0);
        assert(m.measure_spec(whole, scale) == m.measure_spec(whole.drop_last(), scale)
            + m.char_width_spec(whole.last(), scale));
        assert(m.measure_spec(b, scale) == m.measure_spec(b.drop_last(), scale)
            + m.char_width_spec(b.last(), scale));
    }
}

/// The width of a list with one more character in front.
proof fn lemma_measure_cons(m: TextMetrics, c: char, rest: Seq<char>, scale: u64)
    ensures
        m.measure_spec(seq![c].add(rest), scale) == m.char_width_spec(c, scale) + m.measure_spec(
            rest,
            scale,
        ),
{
    lemma_measure_add(m, seq![c], rest, scale);
    let single = seq![c];
    assert(single.len() == 1);
    assert(single.drop_last() =~= Seq::<char>::empty());
    assert(single.last() == c);
    assert(m.measure_spec(Seq::<char>::empty(), scale) == 0);
    assert(m.measure_spec(single, scale) == m.measure_spec(single.drop_last(), scale)
        + m.char_width_spec(single.last(), scale));
    assert(m.measure_spec(single, scale) == m.char_width_spec(c, scale));
}


/// Peeling the first break edit off a batch: replaying the whole batch
/// equals making that insert first, then replaying the rest against the
/// edited text with every position shifted right.
proof fn lemma_apply_peel_insert(s: Seq<char>, c: int, p: int, rest: Seq<(int, bool)>, k: int)
    requires
        0 <= k <= rest.len(),
    ensures
        ({
            let s1 = s.insert(p, '\n');
            let c1 = if p < c {
                c + 1
            } else {
                c
            };
            let r = apply_state(s1, c1, shift_breaks(rest, 1), k);
            apply_state(s, c, seq![(p, true)].add(rest), k + 1) == (r.0, r.1, r.2 + 1)
        }),
    decreases k,
{
    let bs = seq![(p, true)].add(rest);
    let sh = shift_breaks(rest, 1);
    let s1 = s.insert(p, '\n');
    let c1 = if p < c {
        c + 1
    } else {
        c
    };
    if k == 0 {
        assert(bs[0] == (p, true));
        assert(apply_state(s, c, bs, 0int) == (s, c, 0int));
        assert(apply_state(s1, c1, sh, 0int) == (s1, c1, 0int));
        assert(apply_state(s, c, bs, 1int) == (s1, c1, 1int));
    } else {
        lemma_apply_peel_insert(s, c, p, rest, k - 1);
        assert(bs[k] == rest[k - 1]);
        assert(sh[k - 1] == (rest[k - 1].0 + 1, rest[k - 1].1));
        let pl = apply_state(s, c, bs, k);
        let pr = apply_state(s1, c1, sh, k - 1);
        assert(pl == (pr.0, pr.1, pr.2 + 1));
        assert(bs[k].0 + pl.2 == sh[k - 1].0 + pr.2);
    }
}

/// Peeling the first break edit off a batch: replaying the whole batch
/// equals making that removal first, then replaying the rest against
/// the edited text with every position shifted left.
proof fn lemma_apply_peel_remove(s: Seq<char>, c: int, p: int, rest: Seq<(int, bool)>, k: int)
    requires
        0 <= k <= rest.len(),
    ensures
        ({
            let s1 = s.remove(p);
            let c1 = if p < c {
                c - 1
            } else {
                c
            };
            let r = apply_state(s1, c1, shift_breaks(rest, -1), k);
            apply_state(s, c, seq![(p, false)].add(rest), k + 1) == (r.0, r.1, r.2 - 1)
        }),
    decreases k,
{
    let bs = seq![(p, false)].add(rest);
    let sh = shift_breaks(rest, -1);
    let s1 = s.remove(p);
    let c1 = if p < c {
        c - 1
    } else {
        c
    };
    if k == 0 {
        assert(bs[0] == (p, false));
        assert(apply_state(s, c, bs, 0int) == (s, c, 0int));
        assert(apply_state(s1, c1, sh, 0int) == (s1, c1, 0int));
        assert(apply_state(s, c, bs, 1int) == (s1, c1, -1int));
    } else {
        lemma_apply_peel_remove(s, c, p, rest, k - 1);
        assert(bs[k] == rest[k - 1]);
        assert(sh[k - 1] == (rest[k - 1].0 - 1, rest[k - 1].1));
        let pl = apply_state(s, c, bs, k);
        let pr = apply_state(s1, c1, sh, k - 1);
        assert(pl == (pr.0, pr.1, pr.2 - 1));
        assert(bs[k].0 + pl.2 == sh[k - 1].0 + pr.2);
    }
}

/// Replaying everything a reflow scan collected turns the text into its
/// prefix followed by the scan's direct reconstruction.
proof fn lemma_apply_is_wrapped(
    s: Seq<char>,
    c: int,
    i: int,
    lx: int,
    m: TextMetrics,
    scale: u64,
    width: int,
)
    requires
        0 <= i <= s.len(),
    ensures
        ({
            let bs = scan_breaks(s, i, lx, m, scale, width);
            apply_state(s, c, bs, bs.len() as int).0 == s.take(i).add(
                wrapped(s, i, lx, m, scale, width),
            )
        }),
    decreases s.len() - i,
{
    let bs = scan_breaks(s, i, lx, m, scale, width);
    let wv = wrapped(s, i, lx, m, scale, width);
    if i >= s.len() {
        assert(s.take(i).add(wv) =~= s);
    } else if s[i] == '\n' {
        if break_removed(s, i, lx, m, scale, width) {
            // The linefeed goes: peel the removal, then recurse on the
            // shortened text at the same position and width.
            let rest = scan_breaks(s, i + 1, lx, m, scale, width);
            let s2 = s.remove(i);
            let c1 = if i < c {
                c - 1
            } else {
                c
            };
            assert(bs == seq![(i, false)].add(rest));
            lemma_apply_peel_remove(s, c, i, rest, rest.len() as int);
            assert(s2.len() - i == s.len() - (i + 1));
            assert forall|j: int| 0 <= j < s.len() - (i + 1) implies #[trigger] s[(i + 1) + j]
                == s2[i + j] by {
                assert(s2[i + j] == s[(i + 1) + j]);
            }
            lemma_scan_wrapped_congruent(s, i + 1, s2, i, lx, m, scale, width);
            assert(shift_breaks(rest, -1) == scan_breaks(s2, i, lx, m, scale, width));
            lemma_apply_is_wrapped(s2, c1, i, lx, m, scale, width);
            assert(shift_breaks(rest, -1).len() == rest.len());
            assert(s2.take(i) =~= s.take(i));
            assert(wv == wrapped(s, i + 1, lx, m, scale, width));
            assert(wrapped(s2, i, lx, m, scale, width) == wv);
        } else {
            // The linefeed stays: nothing is edited here, and the line
            // width starts over after it.
            lemma_apply_is_wrapped(s, c, i + 1, 0, m, scale, width);
            assert(bs == scan_breaks(s, i + 1, 0, m, scale, width));
            assert(wv == seq!['\n'].add(wrapped(s, i + 1, 0, m, scale, width)));
            assert(s.take(i + 1) =~= s.take(i).push(s[i]));
            assert(s.take(i + 1).add(wrapped(s, i + 1, 0, m, scale, width)) =~= s.take(i).add(
                wv,
            ));
        }
    } else {
        let w = m.char_width_spec(s[i], scale);
        let add = lx + w > width;
        let nx = if add {
            w
        } else {
            lx + w
        };
        let rest = scan_breaks(s, i + 1, nx, m, scale, width);
        if !add {
            lemma_apply_is_wrapped(s, c, i + 1, nx, m, scale, width);
            assert(bs == rest);
            assert(wv == seq![s[i]].add(wrapped(s, i + 1, nx, m, scale, width)));
            assert(s.take(i + 1) =~= s.take(i).push(s[i]));
            assert(s.take(i + 1).add(wrapped(s, i + 1, nx, m, scale, width)) =~= s.take(i).add(
                wv,
            ));
        } else {
            let s1 = s.insert(i, '\n');
            let c1 = if i < c {
                c + 1
            } else {
                c
            };
            assert(bs == seq![(i, true)].add(rest));
            lemma_apply_peel_insert(s, c, i, rest, rest.len() as int);
            assert(s1.len() - (i + 2) == s.len() - (i + 1));
            assert forall|j: int| 0 <= j < s.len() - (i + 1) implies #[trigger] s[(i + 1) + j]
                == s1[(i + 2) + j] by {
                assert(s1[(i + 2) + j] == s[(i + 1) + j]);
            }
            lemma_scan_wrapped_congruent(s, i + 1, s1, i + 2, nx, m, scale, width);
            assert(shift_breaks(rest, 1) == scan_breaks(s1, i + 2, nx, m, scale, width));
            lemma_apply_is_wrapped(s1, c1, i + 2, nx, m, scale, width);
            assert(shift_breaks(rest, 1).len() == rest.len());
            assert(s1.take(i + 2) =~= s.take(i).add(seq!['\n', s[i]]));
            assert(wv == seq!['\n', s[i]].add(wrapped(s, i + 1, nx, m, scale, width)));
            assert(s.take(i).add(seq!['\n', s[i]]).add(
                wrapped(s, i + 1, nx, m, scale, width),
            ) =~= s.take(i).add(wv));
        }
    }
}

/// Reflow is idempotent: with every character narrower than the box, a
/// second reflow of the same line right after a first one changes
/// neither content nor cursor.  Either the first found nothing to do,
/// or it left the line within the width and maximal, so the second's
/// entry check refuses.
pub proof fn lemma_reflow_idempotent(
    s: Seq<char>,
    cursor: int,
    start_line: int,
    m: TextMetrics,
    scale: u64,
    size: Point,
)
    requires
        m.wf(),
        1 <= scale <= MAX_SCALE,
        m.char_w * scale <= size.x,
        0 <= start_line < num_lines_spec(s),
    ensures
        ({
            let r = format_result(s, cursor, start_line, m, scale, size);
            format_result(r.0, r.1, start_line, m, scale, size) == r
        }),
{
    let l = start_line;
    if needs_format_spec(s, l, m, scale, size) {
        let start = line_start_spec(s, l);
        lemma_line_start(s, l);
        lemma_count_nonneg(s, s.len() as int);
        let ww = size.x as int;
        let bs = scan_breaks(s, start, 0, m, scale, ww);
        lemma_apply_is_wrapped(s, cursor, start, 0, m, scale, ww);
        let wv = wrapped(s, start, 0, m, scale, ww);
        let r = apply_state(s, cursor, bs, bs.len() as int);
        let sp = r.0;
        assert(sp == s.take(start).add(wv));
        assert(sp.len() == start + wv.len());
        lemma_wrapped_first_line(s, start, 0, m, scale, ww);
        let k = next_newline(wv, 0);
        lemma_next_newline(wv, 0);
        // The prefix before the reflowed line is untouched, so line l
        // of the result still starts at `start`.
        assert forall|j: int| 0 <= j < start implies sp[j] == s[j] by {
            assert(sp[j] == s.take(start)[j]);
        }
        assert forall|j: int| 0 <= j < wv.len() implies sp[start + j] == wv[j] by {}
        lemma_count_congruent(s, sp, start);
        assert(count_newlines_up_to(sp, start) == l);
        if l > 0 {
            lemma_line_start_preceded(s, l);
            assert(sp[start - 1] == '\n');
        }
        lemma_line_start_char(sp, l, start);
        assert(line_start_spec(sp, l) == start);
        // No linefeed up to the first one of the reconstruction.
        assert forall|j: int| start <= j < start + k implies sp[j] != '\n' by {
            assert(sp[j] == wv[j - start]);
        }
        lemma_count_constant(sp, start, start + k);
        assert(count_newlines_up_to(sp, start + k) == l);
        if k < wv.len() {
            // The reconstruction placed a break: line l of the result
            // runs to it, fits the box, and the character after it
            // would not have fit.
            assert(sp[start + k] == wv[k]);
            assert(wv[k] == '\n');
            assert(count_newlines_up_to(sp, start + k + 1) == l + 1);
            lemma_line_start_char(sp, l + 1, start + k + 1);
            assert(line_start_spec(sp, l + 1) == start + k + 1);
            let line = line_chars(sp, l);
            assert(line =~= wv.take(k).push('\n'));
            assert(line.drop_last() =~= wv.take(k));
            assert(line.last() == '\n');
            assert(m.measure_spec(line, scale) == m.measure_spec(wv.take(k), scale));
            assert(m.measure_spec(line, scale) <= size.x);
            lemma_count_bounds(sp, start + k + 1, sp.len() as int);
            assert(num_lines_spec(sp) >= l + 2);
            let nstart = start + k + 1;
            if k + 1 < wv.len() {
                // The next line exists and is nonempty: the pull-up
                // check fails by maximality.
                assert(nstart < sp.len());
                lemma_position_in_line(sp, nstart);
                assert(count_newlines_up_to(sp, nstart) == l + 1);
                assert(nstart < line_start_spec(sp, l + 2));
                assert(sp[nstart] == wv[k + 1]);
                assert(m.measure_spec(line, scale) + m.char_width_spec(sp[nstart], scale)
                    > size.x);
                assert(!needs_format_spec(sp, l, m, scale, size));
            } else {
                // The kept break ends the content: the next line is
                // empty, so nothing can be pulled up.
                assert(nstart == sp.len());
                lemma_count_constant(sp, start + k + 1, sp.len() as int);
                assert(count_newlines_up_to(sp, sp.len() as int) == l + 1);
                assert(num_lines_spec(sp) == l + 2);
                lemma_line_start_char(sp, l + 1, nstart);
                assert(line_start_spec(sp, l + 1) == sp.len());
                lemma_line_start(sp, l + 2);
                assert(line_start_spec(sp, l + 2) == sp.len());
                assert(!needs_format_spec(sp, l, m, scale, size));
            }
        } else {
            // No break was needed: line l of the result is the last
            // line, and it fits.
            assert(count_newlines_up_to(sp, sp.len() as int) == l);
            assert(num_lines_spec(sp) == l + 1);
            lemma_line_start(sp, l + 1);
            assert(line_start_spec(sp, l + 1) == sp.len());
            let line = line_chars(sp, l);
            assert(line =~= wv);
            assert(wv.take(k) =~= wv);
            assert(m.measure_spec(line, scale) <= size.x);
            assert(!needs_format_spec(sp, l, m, scale, size));
        }
    }
}


} // verus!
