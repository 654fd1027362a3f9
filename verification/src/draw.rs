//! Drawing as data: widgets emit a list of draw commands which a graphics
//! backend outside this crate executes against a real surface.

use vstd::prelude::*;
use crate::geom::{Color, Point, Rect, RotateRect};
use crate::metrics::{TextMetrics, TextParams};

verus! {

/// One primitive drawing operation, in interface pixel coordinates.
pub enum DrawCmd {
    /// A rectangle, filled or outlined.
    FillRect { rect: Rect, color: Color, fill: bool },
    /// A line segment of the given stroke width.
    Line { p1: Point, p2: Point, color: Color, width: u64 },
    /// A circle around a center.
    Circle { center: Point, radius: u64, color: Color, fill: bool },
    /// An isosceles triangle around a center, pointing up or down.
    IsoTri { center: Point, w: u64, h: u64, color: Color, fill: bool, point_up: bool },
    /// A run of text laid out inside a rectangle.
    Text { chars: Vec<char>, params: TextParams, area: RotateRect },
}

/// The drawing context every widget consumes: the text metrics and the
/// viewport size of the surface being drawn to.
#[derive(Clone, Copy, Debug, PartialEq, Eq, Structural)]
pub struct DrawCtx {
    pub metrics: TextMetrics,
    pub viewport: Point,
}

impl DrawCtx {
    pub open spec fn wf(self) -> bool {
        self.metrics.wf()
    }

    pub fn new(metrics: TextMetrics, viewport: Point) -> (c: DrawCtx)
        ensures
            c == (DrawCtx { metrics: metrics, viewport: viewport }),
    {
        DrawCtx { metrics, viewport }
    }
}

} // verus!
