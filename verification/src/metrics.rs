//! The text-measurement capability consumed by every widget.
//!
//! Glyphs are modelled with a uniform advance width per character and a
//! uniform line height, both in integer pixels; a newline occupies no
//! horizontal space.  The graphics backend that owns real font data
//! constructs a `DrawCtx` from plain values.

use vstd::prelude::*;
use crate::geom::Point;

verus! {

/// The largest character count a single piece of text handled by this
/// engine may have; keeps all width sums well inside `u64`.
pub const MAX_TEXT: usize = 0x100000;

/// Upper bound on a text scale factor.
pub const MAX_SCALE: u64 = 0xFF;

/// Style parameters for a run of text.
#[derive(Clone, Copy, Debug, PartialEq, Eq, Structural)]
pub struct TextParams {
    pub scale: u64,
}

impl TextParams {
    pub fn new() -> (t: TextParams)
        ensures
            t == (TextParams { scale: 1u64 }),
    {
        TextParams { scale: 1 }
    }
}

/// Uniform-width text metrics: every character other than a newline is
/// `char_w` pixels wide at scale 1, every line is `line_h` pixels tall.
#[derive(Clone, Copy, Debug, PartialEq, Eq, Structural)]
pub struct TextMetrics {
    pub char_w: u64,
    pub line_h: u64,
}

impl TextMetrics {
    /// Sane metric values: positive and small enough that no width or
    /// height sum over `MAX_TEXT` characters can overflow.
    pub open spec fn wf(self) -> bool {
        &&& 1 <= self.char_w <= 0xFFFF
        &&& 1 <= self.line_h <= 0xFFFF
    }

    /// The width of one character at the given scale; a newline is free.
    pub open spec fn char_width_spec(self, c: char, scale: u64) -> int {
        if c == '\n' {
            0
        } else {
            self.char_w * scale
        }
    }

    /// The width of a sequence of characters: the sum of its character
    /// widths.
    pub open spec fn measure_spec(self, s: Seq<char>, scale: u64) -> int
        decreases s.len(),
    {
        if s.len() == 0 {
            0
        } else {
            self.measure_spec(s.drop_last(), scale) + self.char_width_spec(s.last(), scale)
        }
    }

    /// A scaled metric value stays far below `u64::MAX`.
    pub proof fn lemma_scale_bound(a: u64, scale: u64)
        requires
            a <= 0xFFFF,
            scale <= MAX_SCALE,
        ensures
            a * scale <= 0xFFFF * MAX_SCALE,
    {
        assert(a * scale <= 0xFFFF * MAX_SCALE) by (nonlinear_arith)
            requires
                0 <= a <= 0xFFFF,
                0 <= scale <= MAX_SCALE,
        ;
    }

    pub fn new(char_w: u64, line_h: u64) -> (m: TextMetrics)
        requires
            1 <= char_w <= 0xFFFF,
            1 <= line_h <= 0xFFFF,
        ensures
            m == (TextMetrics { char_w: char_w, line_h: line_h }),
            m.wf(),
    {
        TextMetrics { char_w, line_h }
    }

    /// The bounding size of a single character at the given scale.
    pub fn char_size(&self, c: char, scale: u64) -> (s: Point)
        requires
            self.wf(),
            1 <= scale <= MAX_SCALE,
        ensures
            s.x == self.char_width_spec(c, scale),
            s.y == self.line_h * scale,
    {
        proof {
            Self::lemma_scale_bound(self.char_w, scale);
            Self::lemma_scale_bound(self.line_h, scale);
        }
        let w: u64 = if c == '\n' {
            0
        } else {
            self.char_w * scale
        };
        Point { x: w, y: self.line_h * scale }
    }

    /// The advance width of a character; with uniform metrics this equals
    /// its bounding width.
    pub fn char_size_w_advance(&self, c: char, scale: u64) -> (s: Point)
        requires
            self.wf(),
            1 <= scale <= MAX_SCALE,
        ensures
            s.x == self.char_width_spec(c, scale),
            s.y == self.line_h * scale,
    {
        self.char_size(c, scale)
    }

    /// The height of one text line at the given scale.
    pub fn line_height(&self, scale: u64) -> (h: u64)
        requires
            self.wf(),
            1 <= scale <= MAX_SCALE,
        ensures
            h == self.line_h * scale,
    {
        proof {
            Self::lemma_scale_bound(self.line_h, scale);
        }
        self.line_h * scale
    }

    /// The pixel size of a piece of text laid out on one line.
    pub fn measure(&self, s: &str, scale: u64) -> (m: Point)
        requires
            self.wf(),
            1 <= scale <= MAX_SCALE,
            s@.len() <= MAX_TEXT,
        ensures
            m.x == self.measure_spec(s@, scale),
            m.y == self.line_h * scale,
    {
        let n = s.unicode_len();
        let mut i: usize = 0;
        let mut w: u64 = 0;
        proof {
            assert(s@.take(0int) =~= Seq::<char>::empty());
        }
        while i < n
            invariant
                self.wf(),
                1 <= scale <= MAX_SCALE,
                s@.len() <= MAX_TEXT,
                n == s@.len(),
                0 <= i <= n,
                w == self.measure_spec(s@.take(i as int), scale),
                w <= i * 0xFFFF * MAX_SCALE,
            decreases n - i,
        {
            let c = s.get_char(i);
            proof {
                assert(s@.take(i + 1int).drop_last() =~= s@.take(i as int));
                assert(s@.take(i + 1int).last() == s@[i as int]);
                lemma_measure_bound(*self, s@.take(i + 1int), scale);
            }
            w = w + self.char_size(c, scale).x;
            i = i + 1;
        }
        proof {
            assert(s@.take(n as int) =~= s@);
            Self::lemma_scale_bound(self.line_h, scale);
        }
        Point { x: w, y: self.line_h * scale }
    }
}

/// The width of a text is nonnegative and at most the character count
/// times the largest scaled character width.
pub proof fn lemma_measure_bound(m: TextMetrics, s: Seq<char>, scale: u64)
    requires
        m.wf(),
        1 <= scale <= MAX_SCALE,
    ensures
        0 <= m.measure_spec(s, scale) <= s.len() * 0xFFFF * MAX_SCALE,
    decreases s.len(),
{
    if s.len() > 0 {
        lemma_measure_bound(m, s.drop_last(), scale);
        assert(m.char_width_spec(s.last(), scale) <= 0xFFFF * MAX_SCALE) by (nonlinear_arith)
            requires
                m.wf(),
                1 <= scale <= MAX_SCALE,
                m.char_width_spec(s.last(), scale) == if s.last() == '\n' {
                    0int
                } else {
                    m.char_w * scale
                },
        ;
        assert((s.len() - 1) * 0xFFFF * MAX_SCALE + 0xFFFF * MAX_SCALE == s.len() * 0xFFFF
            * MAX_SCALE) by (nonlinear_arith);
    }
}

} // verus!
