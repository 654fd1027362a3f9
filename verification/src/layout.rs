//! Layout strategies: algorithms that turn a list of child sizes into
//! child rectangles and an aggregate size.  A linear stack places children
//! one after another along an axis; a grid places them in fixed columns,
//! each column as wide as its widest child and each row as tall as its
//! tallest.

use vstd::prelude::*;
use crate::geom::{sat_add, sat_add_spec, Point, Rect};

verus! {

/// The axis a linear stack lays its children out along.
#[derive(Clone, Copy, Debug, PartialEq, Eq, Structural)]
pub enum Orientation {
    Vertical,
    Horizontal,
}

/// What a layout needs to know of each child: its measured size, and
/// whether it is collapsed (taking part in no layout).
#[derive(Clone, Copy, Debug, PartialEq, Eq, Structural)]
pub struct ChildInfo {
    pub size: Point,
    pub collapsed: bool,
}

// ---------------------------------------------------------------------
// Linear stack.
// ---------------------------------------------------------------------

/// The rectangles, running size, and whether no visible child has been
/// placed yet, after laying out the first `k` children of a stack.
/// Collapsed children keep their previous rectangle; visible children
/// are placed after the running size plus spacing (no spacing before the
/// first visible child).
pub open spec fn stack_layout(
    items: Seq<ChildInfo>,
    old_rects: Seq<Rect>,
    orientation: Orientation,
    spacing: u64,
    k: int,
) -> (Seq<Rect>, Point, bool)
    decreases k,
{
    if k <= 0 {
        (Seq::empty(), Point { x: 0u64, y: 0u64 }, true)
    } else {
        let prev = stack_layout(items, old_rects, orientation, spacing, k - 1);
        let rects = prev.0;
        let size = prev.1;
        let first = prev.2;
        let it = items[k - 1];
        if it.collapsed {
            let keep = if k - 1 < old_rects.len() {
                old_rects[k - 1]
            } else {
                Rect { c1: Point { x: 0u64, y: 0u64 }, c2: Point { x: 0u64, y: 0u64 } }
            };
            (rects.push(keep), size, first)
        } else {
            let sp = if first {
                0u64
            } else {
                spacing
            };
            let off = match orientation {
                Orientation::Vertical => Point { x: 0u64, y: sat_add_spec(size.y, sp) },
                Orientation::Horizontal => Point { x: sat_add_spec(size.x, sp), y: 0u64 },
            };
            let nsize = match orientation {
                Orientation::Vertical => Point {
                    x: if size.x >= it.size.x {
                        size.x
                    } else {
                        it.size.x
                    },
                    y: sat_add_spec(sat_add_spec(size.y, it.size.y), sp),
                },
                Orientation::Horizontal => Point {
                    x: sat_add_spec(sat_add_spec(size.x, it.size.x), sp),
                    y: if size.y >= it.size.y {
                        size.y
                    } else {
                        it.size.y
                    },
                },
            };
            let rect = Rect {
                c1: off,
                c2: Point { x: sat_add_spec(off.x, it.size.x), y: sat_add_spec(off.y, it.size.y) },
            };
            (rects.push(rect), nsize, false)
        }
    }
}

/// The index of the first rectangle containing a point, scanning from
/// position `i` on.
pub open spec fn first_hit(rects: Seq<Rect>, p: Point, i: int) -> Option<int>
    decreases rects.len() - i,
{
    if !(0 <= i < rects.len()) {
        None
    } else if rects[i].contains_spec(p) {
        Some(i)
    } else {
        first_hit(rects, p, i + 1)
    }
}


/// Hit-testing finds a rectangle only when the point lies inside it,
/// and never one before the scan position: the first-match rule of
/// event routing.
pub proof fn lemma_first_hit_within(rects: Seq<Rect>, p: Point, i: int)
    requires
        0 <= i,
    ensures
        match first_hit(rects, p, i) {
            Some(j) => i <= j < rects.len() && rects[j].contains_spec(p) && (forall|k: int|
                i <= k < j ==> !(#[trigger] rects[k]).contains_spec(p)),
            None => forall|k: int| i <= k < rects.len() ==> !(#[trigger] rects[k]).contains_spec(
                p,
            ),
        },
    decreases rects.len() - i,
{
    if 0 <= i < rects.len() && !rects[i].contains_spec(p) {
        lemma_first_hit_within(rects, p, i + 1);
    }
}

/// A linear stack of children along one axis, with spacing between
/// consecutive visible children.
pub struct WidgetList {
    pub orientation: Orientation,
    pub spacing: u64,
    pub size: Point,
    pub widget_rects: Vec<Rect>,
}

impl WidgetList {
    /// The child rectangles the last remeasurement produced.
    pub open spec fn rects_spec(self) -> Seq<Rect> {
        self.widget_rects@
    }

    pub fn new(orientation: Orientation, spacing: u64) -> (w: WidgetList)
        ensures
            w.orientation == orientation,
            w.spacing == spacing,
            w.size == (Point { x: 0u64, y: 0u64 }),
            w.rects_spec() =~= Seq::<Rect>::empty(),
    {
        WidgetList { orientation, spacing, widget_rects: Vec::new(), size: Point { x: 0, y: 0 } }
    }

    /// The number of stored rectangles.
    pub fn rect_count(&self) -> (n: usize)
        ensures
            n == self.rects_spec().len(),
    {
        self.widget_rects.len()
    }

    /// The rectangle assigned to one child.
    pub fn rect_at(&self, i: usize) -> (r: Rect)
        requires
            i < self.rects_spec().len(),
        ensures
            r == self.rects_spec()[i as int],
    {
        self.widget_rects[i]
    }

    /// Lay the children out along the axis and fold their sizes into the
    /// stack's own size.  Rectangle count equals child count afterwards.
    pub fn remeasure_items(&mut self, items: &Vec<ChildInfo>) -> (size: Point)
        ensures
            ({
                let out = stack_layout(
                    items@,
                    old(self).rects_spec(),
                    old(self).orientation,
                    old(self).spacing,
                    items@.len() as int,
                );
                &&& final(self).rects_spec() == out.0
                &&& final(self).size == out.1
                &&& size == out.1
                &&& final(self).rects_spec().len() == items@.len()
            }),
            final(self).orientation == old(self).orientation,
            final(self).spacing == old(self).spacing,
            stack_remeasure_post(*old(self), *final(self), items@, size),
    {
        let ghost old_rects = self.widget_rects@;
        let orientation = self.orientation;
        let spacing = self.spacing;
        let n = items.len();
        let mut rects: Vec<Rect> = Vec::new();
        let mut size = Point { x: 0u64, y: 0u64 };
        let mut first = true;
        let mut i: usize = 0;
        while i < n
            invariant
                0 <= i <= n,
                n == items@.len(),
                orientation == old(self).orientation,
                spacing == old(self).spacing,
                old_rects == old(self).rects_spec(),
                self.widget_rects@ == old_rects,
                rects@.len() == i,
                rects@ =~= stack_layout(items@, old_rects, orientation, spacing, i as int).0,
                size == stack_layout(items@, old_rects, orientation, spacing, i as int).1,
                first == stack_layout(items@, old_rects, orientation, spacing, i as int).2,
            decreases n - i,
        {
            let it = items[i];
            if it.collapsed {
                let keep = if i < self.widget_rects.len() {
                    self.widget_rects[i]
                } else {
                    Rect { c1: Point { x: 0, y: 0 }, c2: Point { x: 0, y: 0 } }
                };
                rects.push(keep);
            } else {
                let sp: u64 = if first {
                    0
                } else {
                    spacing
                };
                let off = match orientation {
                    Orientation::Vertical => Point { x: 0, y: sat_add(size.y, sp) },
                    Orientation::Horizontal => Point { x: sat_add(size.x, sp), y: 0 },
                };
                size = match orientation {
                    Orientation::Vertical => Point {
                        x: if size.x >= it.size.x {
                            size.x
                        } else {
                            it.size.x
                        },
                        y: sat_add(sat_add(size.y, it.size.y), sp),
                    },
                    Orientation::Horizontal => Point {
                        x: sat_add(sat_add(size.x, it.size.x), sp),
                        y: if size.y >= it.size.y {
                            size.y
                        } else {
                            it.size.y
                        },
                    },
                };
                rects.push(
                    Rect {
                        c1: off,
                        c2: Point { x: sat_add(off.x, it.size.x), y: sat_add(off.y, it.size.y) },
                    },
                );
                first = false;
            }
            i = i + 1;
        }
        self.widget_rects = rects;
        self.size = size;
        size
    }
}

// ---------------------------------------------------------------------
// Grid.
// ---------------------------------------------------------------------

/// The widest size.x among the first `k` children that fall in column
/// `c` of an `n_cols`-wide grid.
pub open spec fn col_width_spec(items: Seq<ChildInfo>, n_cols: int, c: int, k: int) -> u64
    decreases k,
{
    if k <= 0 {
        0u64
    } else {
        let w = col_width_spec(items, n_cols, c, k - 1);
        if (k - 1) % n_cols == c && items[k - 1].size.x > w {
            items[k - 1].size.x
        } else {
            w
        }
    }
}

/// The tallest size.y among the first `k` children that fall in row `r`.
pub open spec fn row_height_spec(items: Seq<ChildInfo>, n_cols: int, r: int, k: int) -> u64
    decreases k,
{
    if k <= 0 {
        0u64
    } else {
        let h = row_height_spec(items, n_cols, r, k - 1);
        if (k - 1) / n_cols == r && items[k - 1].size.y > h {
            items[k - 1].size.y
        } else {
            h
        }
    }
}

/// Where column `c` starts: the widths of all earlier columns plus one
/// spacing step each.
pub open spec fn col_offset_spec(items: Seq<ChildInfo>, n_cols: int, spacing_x: u64, c: int) -> u64
    decreases c,
{
    if c <= 0 {
        0u64
    } else {
        sat_add_spec(
            sat_add_spec(
                col_offset_spec(items, n_cols, spacing_x, c - 1),
                col_width_spec(items, n_cols, c - 1, items.len() as int),
            ),
            spacing_x,
        )
    }
}

/// Where row `r` starts: the heights of all earlier rows plus one
/// spacing step each.
pub open spec fn row_offset_spec(items: Seq<ChildInfo>, n_cols: int, spacing_y: u64, r: int) -> u64
    decreases r,
{
    if r <= 0 {
        0u64
    } else {
        sat_add_spec(
            sat_add_spec(
                row_offset_spec(items, n_cols, spacing_y, r - 1),
                row_height_spec(items, n_cols, r - 1, items.len() as int),
            ),
            spacing_y,
        )
    }
}

/// A grid with a fixed column count; every child occupies the cell at
/// its index, row-major.
pub struct WidgetGrid {
    pub widget_rects: Vec<Rect>,
    pub n_cols: usize,
    pub spacing: Point,
    pub size: Point,
}

impl WidgetGrid {
    /// The child rectangles the last remeasurement produced.
    pub open spec fn rects_spec(self) -> Seq<Rect> {
        self.widget_rects@
    }

    /// The column count the grid was built with.
    pub open spec fn n_cols_spec(self) -> int {
        self.n_cols as int
    }

    /// The spacing between cells.
    pub open spec fn spacing_spec(self) -> Point {
        self.spacing
    }

    /// The aggregate size the last remeasurement produced.
    pub open spec fn size_spec(self) -> Point {
        self.size
    }

    pub fn new(n_cols: usize, spacing: Point) -> (w: WidgetGrid)
        requires
            n_cols >= 1,
        ensures
            w.n_cols_spec() == n_cols,
            w.spacing_spec() == spacing,
            w.size_spec() == (Point { x: 0u64, y: 0u64 }),
            w.rects_spec() =~= Seq::<Rect>::empty(),
    {
        WidgetGrid { widget_rects: Vec::new(), n_cols, spacing, size: Point { x: 0, y: 0 } }
    }

    /// The number of stored rectangles.
    pub fn rect_count(&self) -> (n: usize)
        ensures
            n == self.rects_spec().len(),
    {
        self.widget_rects.len()
    }

    /// The rectangle assigned to one child.
    pub fn rect_at(&self, i: usize) -> (r: Rect)
        requires
            i < self.rects_spec().len(),
        ensures
            r == self.rects_spec()[i as int],
    {
        self.widget_rects[i]
    }

    /// The widest child in a column.
    fn col_width(items: &Vec<ChildInfo>, n_cols: usize, c: usize) -> (w: u64)
        requires
            n_cols >= 1,
        ensures
            w == col_width_spec(items@, n_cols as int, c as int, items@.len() as int),
    {
        let n = items.len();
        let mut w: u64 = 0;
        let mut k: usize = 0;
        while k < n
            invariant
                0 <= k <= n,
                n == items@.len(),
                n_cols >= 1,
                w == col_width_spec(items@, n_cols as int, c as int, k as int),
            decreases n - k,
        {
            if k % n_cols == c && items[k].size.x > w {
                w = items[k].size.x;
            }
            k = k + 1;
        }
        w
    }

    /// The tallest child in a row.
    fn row_height(items: &Vec<ChildInfo>, n_cols: usize, r: usize) -> (h: u64)
        requires
            n_cols >= 1,
        ensures
            h == row_height_spec(items@, n_cols as int, r as int, items@.len() as int),
    {
        let n = items.len();
        let mut h: u64 = 0;
        let mut k: usize = 0;
        while k < n
            invariant
                0 <= k <= n,
                n == items@.len(),
                n_cols >= 1,
                h == row_height_spec(items@, n_cols as int, r as int, k as int),
            decreases n - k,
        {
            if k / n_cols == r && items[k].size.y > h {
                h = items[k].size.y;
            }
            k = k + 1;
        }
        h
    }

    /// Where a column starts.
    fn col_offset(items: &Vec<ChildInfo>, n_cols: usize, spacing_x: u64, c: usize) -> (x: u64)
        requires
            n_cols >= 1,
        ensures
            x == col_offset_spec(items@, n_cols as int, spacing_x, c as int),
    {
        let mut x: u64 = 0;
        let mut j: usize = 0;
        while j < c
            invariant
                0 <= j <= c,
                n_cols >= 1,
                x == col_offset_spec(items@, n_cols as int, spacing_x, j as int),
            decreases c - j,
        {
            let w = Self::col_width(items, n_cols, j);
            x = sat_add(sat_add(x, w), spacing_x);
            j = j + 1;
        }
        x
    }

    /// Where a row starts.
    fn row_offset(items: &Vec<ChildInfo>, n_cols: usize, spacing_y: u64, r: usize) -> (y: u64)
        requires
            n_cols >= 1,
        ensures
            y == row_offset_spec(items@, n_cols as int, spacing_y, r as int),
    {
        let mut y: u64 = 0;
        let mut j: usize = 0;
        while j < r
            invariant
                0 <= j <= r,
                n_cols >= 1,
                y == row_offset_spec(items@, n_cols as int, spacing_y, j as int),
            decreases r - j,
        {
            let h = Self::row_height(items, n_cols, j);
            y = sat_add(sat_add(y, h), spacing_y);
            j = j + 1;
        }
        y
    }

    /// Place every child at its cell: column offsets are the cumulative
    /// maxima of column widths, row offsets the cumulative maxima of row
    /// heights, each plus spacing.  Rectangle count equals child count.
    pub fn remeasure_items(&mut self, items: &Vec<ChildInfo>) -> (size: Point)
        requires
            old(self).n_cols_spec() >= 1,
            old(self).n_cols_spec() <= 0x10000000,
            items@.len() <= 0x10000000,
        ensures
            final(self).n_cols_spec() == old(self).n_cols_spec(),
            final(self).spacing_spec() == old(self).spacing_spec(),
            final(self).rects_spec().len() == items@.len(),
            forall|i: int|
                0 <= i < items@.len() ==> {
                    let nc = old(self).n_cols_spec();
                    let sp = old(self).spacing_spec();
                    let x = col_offset_spec(items@, nc, sp.x, i % nc);
                    let y = row_offset_spec(items@, nc, sp.y, i / nc);
                    #[trigger] final(self).rects_spec()[i] == (Rect {
                        c1: Point { x: x, y: y },
                        c2: Point {
                            x: sat_add_spec(x, items@[i].size.x),
                            y: sat_add_spec(y, items@[i].size.y),
                        },
                    })
                },
            ({
                let nc = old(self).n_cols_spec();
                let sp = old(self).spacing_spec();
                let n = items@.len() as int;
                let cols = if n >= nc {
                    nc
                } else {
                    n
                };
                let rows = (n + nc - 1) / nc;
                &&& size.x == col_offset_spec(items@, nc, sp.x, cols)
                &&& size.y == row_offset_spec(items@, nc, sp.y, rows)
                &&& final(self).size_spec() == size
            }),
            grid_remeasure_post(*old(self), *final(self), items@, size),
    {
        let n = items.len();
        let n_cols = self.n_cols;
        let spacing = self.spacing;
        proof {
            assert(n + n_cols <= 0x20000000);
        }
        let mut rects: Vec<Rect> = Vec::new();
        let mut i: usize = 0;
        while i < n
            invariant
                0 <= i <= n,
                n == items@.len(),
                n_cols == old(self).n_cols_spec(),
                n_cols >= 1,
                spacing == old(self).spacing_spec(),
                rects@.len() == i,
                forall|j: int|
                    0 <= j < i ==> {
                        let x = col_offset_spec(items@, n_cols as int, spacing.x, j % (
                        n_cols as int));
                        let y = row_offset_spec(items@, n_cols as int, spacing.y, j / (
                        n_cols as int));
                        #[trigger] rects@[j] == (Rect {
                            c1: Point { x: x, y: y },
                            c2: Point {
                                x: sat_add_spec(x, items@[j].size.x),
                                y: sat_add_spec(y, items@[j].size.y),
                            },
                        })
                    },
            decreases n - i,
        {
            let c = i % n_cols;
            let r = i / n_cols;
            let x = Self::col_offset(items, n_cols, spacing.x, c);
            let y = Self::row_offset(items, n_cols, spacing.y, r);
            let m = items[i].size;
            rects.push(
                Rect {
                    c1: Point { x, y },
                    c2: Point { x: sat_add(x, m.x), y: sat_add(y, m.y) },
                },
            );
            i = i + 1;
        }
        let cols = if n >= n_cols {
            n_cols
        } else {
            n
        };
        let rows = (n + n_cols - 1) / n_cols;
        let sx = Self::col_offset(items, n_cols, spacing.x, cols);
        let sy = Self::row_offset(items, n_cols, spacing.y, rows);
        let size = Point { x: sx, y: sy };
        self.widget_rects = rects;
        self.size = size;
        size
    }
}


/// What one stack remeasurement leaves behind, as a relation between
/// the stack before and after, the child information, and the returned
/// size.
pub open spec fn stack_remeasure_post(
    l0: WidgetList,
    l1: WidgetList,
    items: Seq<ChildInfo>,
    size: Point,
) -> bool {
    let out = stack_layout(items, l0.rects_spec(), l0.orientation, l0.spacing, items.len() as int);
    &&& l1.orientation == l0.orientation
    &&& l1.spacing == l0.spacing
    &&& l1.widget_rects@ == out.0
    &&& l1.size == out.1
    &&& size == out.1
}

/// What one grid remeasurement leaves behind: every cell rectangle at
/// its cumulative-maxima offsets, and the aggregate size.
pub open spec fn grid_remeasure_post(
    g0: WidgetGrid,
    g1: WidgetGrid,
    items: Seq<ChildInfo>,
    size: Point,
) -> bool {
    &&& g1.n_cols == g0.n_cols
    &&& g1.spacing == g0.spacing
    &&& g1.widget_rects@.len() == items.len()
    &&& forall|i: int|
        0 <= i < items.len() ==> {
            let nc = g0.n_cols as int;
            let x = col_offset_spec(items, nc, g0.spacing.x, i % nc);
            let y = row_offset_spec(items, nc, g0.spacing.y, i / nc);
            #[trigger] g1.widget_rects@[i] == (Rect {
                c1: Point { x: x, y: y },
                c2: Point {
                    x: sat_add_spec(x, items[i].size.x),
                    y: sat_add_spec(y, items[i].size.y),
                },
            })
        }
    &&& ({
        let n = items.len() as int;
        let nc = g0.n_cols as int;
        let cols = if n >= nc {
            nc
        } else {
            n
        };
        let rows = (n + nc - 1) / nc;
        &&& size.x == col_offset_spec(items, nc, g0.spacing.x, cols)
        &&& size.y == row_offset_spec(items, nc, g0.spacing.y, rows)
        &&& g1.size == size
    })
}

/// What one remeasurement of either strategy leaves behind.
pub open spec fn layout_remeasure_post(p0: Layout, p1: Layout, items: Seq<ChildInfo>, size: Point) -> bool {
    match (p0, p1) {
        (Layout::List(l0), Layout::List(l1)) => stack_remeasure_post(l0, l1, items, size),
        (Layout::Grid(g0), Layout::Grid(g1)) => grid_remeasure_post(g0, g1, items, size),
        _ => false,
    }
}

// ---------------------------------------------------------------------
// The layout strategy a widget carries.
// ---------------------------------------------------------------------

/// The closed set of layout strategies.
pub enum Layout {
    List(WidgetList),
    Grid(WidgetGrid),
}

impl Layout {
    /// The child rectangles the strategy last produced.
    pub open spec fn rects_spec(self) -> Seq<Rect> {
        match self {
            Layout::List(l) => l.rects_spec(),
            Layout::Grid(g) => g.rects_spec(),
        }
    }

    /// The number of stored rectangles.
    pub fn rect_count(&self) -> (n: usize)
        ensures
            n == self.rects_spec().len(),
    {
        match self {
            Layout::List(l) => l.rect_count(),
            Layout::Grid(g) => g.rect_count(),
        }
    }

    /// The rectangle assigned to one child.
    pub fn rect_at(&self, i: usize) -> (r: Rect)
        requires
            i < self.rects_spec().len(),
        ensures
            r == self.rects_spec()[i as int],
    {
        match self {
            Layout::List(l) => l.rect_at(i),
            Layout::Grid(g) => g.rect_at(i),
        }
    }

    /// The first child rectangle containing a point, if any: the
    /// hit-testing rule of event routing.
    pub fn get_idx(&self, offset: &Point) -> (r: Option<usize>)
        ensures
            match r {
                Some(i) => first_hit(self.rects_spec(), *offset, 0) == Some(i as int) && i
                    < self.rects_spec().len() && self.rects_spec()[i as int].contains_spec(*offset),
                None => first_hit(self.rects_spec(), *offset, 0) is None,
            },
    {
        let n = self.rect_count();
        let mut i: usize = 0;
        while i < n
            invariant
                0 <= i <= n,
                n == self.rects_spec().len(),
                first_hit(self.rects_spec(), *offset, 0) == first_hit(
                    self.rects_spec(),
                    *offset,
                    i as int,
                ),
            decreases n - i,
        {
            let rect = self.rect_at(i);
            if rect.in_bounds(offset) {
                return Some(i);
            }
            i = i + 1;
        }
        None
    }
}

} // verus!
