//! Graph sketch mode: vertices placed on a grid over the viewport,
//! edges drawn between every pair of selected vertices, and pointer
//! selection by hitting a vertex's circle.
//!
//! Vertices carry consecutive integer identities, so the adjacency,
//! position, and selection tables are plain vectors indexed by vertex.

use vstd::prelude::*;
use crate::draw::{DrawCmd, DrawCtx};
use crate::geom::{sat_add, Color, Point, RotateRect};
use crate::metrics::TextParams;
use crate::status::{Key, PointerEvent};

verus! {

/// A vertex's identity: its index in the tables.
pub type VertexID = usize;

/// The graph itself: adjacency lists and the edges in insertion order.
pub struct Graph {
    pub adj: Vec<Vec<VertexID>>,
    pub edges: Vec<(VertexID, VertexID)>,
    pub next_id: VertexID,
}

impl Graph {
    /// The identity counter always matches the table size.
    pub open spec fn wf(self) -> bool {
        self.next_id == self.adj@.len()
    }

    pub fn new() -> (g: Graph)
        ensures
            g.wf(),
            g.adj@.len() == 0,
            g.edges@.len() == 0,
    {
        Graph { adj: Vec::new(), edges: Vec::new(), next_id: 0 }
    }

    /// Add a fresh vertex and return its identity.
    pub fn add(&mut self) -> (id: VertexID)
        requires
            old(self).wf(),
            old(self).adj@.len() < usize::MAX,
        ensures
            final(self).wf(),
            id == old(self).adj@.len(),
            final(self).adj@.len() == old(self).adj@.len() + 1,
            final(self).adj@[id as int]@.len() == 0,
            forall|j: int| 0 <= j < old(self).adj@.len() ==> final(self).adj@[j] == old(
                self,
            ).adj@[j],
            final(self).edges == old(self).edges,
    {
        let next_id = self.next_id;
        self.adj.push(Vec::new());
        self.next_id = self.next_id + 1;
        next_id
    }
}

/// Whether a list of vertices holds one.
fn contains_vertex(row: &Vec<VertexID>, x: VertexID) -> (r: bool)
    ensures
        r == row@.contains(x),
{
    let n = row.len();
    let mut i: usize = 0;
    while i < n
        invariant
            0 <= i <= n,
            n == row@.len(),
            forall|j: int| 0 <= j < i ==> row@[j] != x,
        decreases n - i,
    {
        if row[i] == x {
            return true;
        }
        i = i + 1;
    }
    false
}

/// The squared pixel distance between two points.
pub open spec fn dist2_spec(a: Point, b: Point) -> int {
    let dx = if a.x >= b.x {
        a.x - b.x
    } else {
        b.x - a.x
    };
    let dy = if a.y >= b.y {
        a.y - b.y
    } else {
        b.y - a.y
    };
    dx * dx + dy * dy
}

/// The first vertex position whose circle of the given radius holds the
/// point, scanning from index `i` on.
pub open spec fn first_in_circle(positions: Seq<Point>, pt: Point, radius: u64, i: int) -> Option<
    int,
>
    decreases positions.len() - i,
{
    if !(0 <= i < positions.len()) {
        None
    } else if dist2_spec(positions[i], pt) < radius * radius {
        Some(i)
    } else {
        first_in_circle(positions, pt, radius, i + 1)
    }
}

/// Where each vertex is drawn, and where the next one will go.
pub struct GraphDrawing {
    pub positions: Vec<Point>,
    pub next_position: Point,
}

impl GraphDrawing {
    pub fn new() -> (d: GraphDrawing)
        ensures
            d.positions@.len() == 0,
            d.next_position == (Point { x: 0u64, y: 0u64 }),
    {
        GraphDrawing { positions: Vec::new(), next_position: Point { x: 0, y: 0 } }
    }

    /// Place a fresh vertex at the pending position and advance it:
    /// three radii to the right, or back to the left edge one row down
    /// when the row is full.
    pub fn place(&mut self, id: VertexID, ctx: &DrawCtx)
        requires
            id == old(self).positions@.len(),
        ensures
            final(self).positions@.len() == old(self).positions@.len() + 1,
            forall|j: int| 0 <= j < old(self).positions@.len() ==> final(self).positions@[j]
                == old(self).positions@[j],
    {
        let radius = ctx.viewport.x / 24;
        if self.next_position.x == 0 && self.next_position.y == 0 {
            self.next_position = Point { x: radius, y: ctx.viewport.y / 4 };
        }
        self.positions.push(self.next_position);
        if sat_add(self.next_position.x, sat_add(sat_add(radius, radius), sat_add(radius, radius)))
            >= ctx.viewport.x {
            self.next_position = Point {
                x: radius,
                y: sat_add(self.next_position.y, sat_add(radius, sat_add(radius, radius))),
            };
        } else {
            self.next_position = Point {
                x: sat_add(self.next_position.x, sat_add(radius, sat_add(radius, radius))),
                y: self.next_position.y,
            };
        }
    }

    /// The first vertex whose circle holds the point, if any.
    pub fn select_circle(&self, pt: &Point, ctx: &DrawCtx) -> (r: Option<VertexID>)
        ensures
            match r {
                Some(id) => first_in_circle(self.positions@, *pt, ctx.viewport.x / 24, 0) == Some(
                    id as int,
                ) && id < self.positions@.len(),
                None => first_in_circle(self.positions@, *pt, ctx.viewport.x / 24, 0) is None,
            },
    {
        let radius = ctx.viewport.x / 24;
        proof {
            assert(radius <= 0x1000000000000000);
        }
        let n = self.positions.len();
        let mut i: usize = 0;
        while i < n
            invariant
                0 <= i <= n,
                n == self.positions@.len(),
                radius == ctx.viewport.x / 24,
                radius <= 0x1000000000000000,
                first_in_circle(self.positions@, *pt, radius, 0) == first_in_circle(
                    self.positions@,
                    *pt,
                    radius,
                    i as int,
                ),
            decreases n - i,
        {
            let p = self.positions[i];
            let dx = if p.x >= pt.x {
                p.x - pt.x
            } else {
                pt.x - p.x
            };
            let dy = if p.y >= pt.y {
                p.y - pt.y
            } else {
                pt.y - p.y
            };
            if dx < radius && dy < radius {
                proof {
                    assert(radius <= 0x1000000000000000);
                    assert((dx as u128) * (dx as u128) + (dy as u128) * (dy as u128)
                        < 0x40000000000000000000000000000000) by (nonlinear_arith)
                        requires
                            0 <= dx < 0x1000000000000000,
                            0 <= dy < 0x1000000000000000,
                    ;
                    assert((radius as u128) * (radius as u128)
                        <= 0x1000000000000000 * 0x1000000000000000) by (nonlinear_arith)
                        requires
                            0 <= radius <= 0x1000000000000000,
                    ;
                }
                let d2 = (dx as u128) * (dx as u128) + (dy as u128) * (dy as u128);
                if d2 < (radius as u128) * (radius as u128) {
                    proof {
                        assert(dist2_spec(self.positions@[i as int], *pt) == dx * dx + dy * dy);
                    }
                    return Some(i);
                }
            } else {
                // A coordinate gap of at least the radius already rules the
                // circle out.
                proof {
                    assert(dx * dx + dy * dy >= radius * radius) by (nonlinear_arith)
                        requires
                            dx >= radius || dy >= radius,
                            0 <= dx,
                            0 <= dy,
                            0 <= radius,
                    ;
                }
            }
            i = i + 1;
        }
        None
    }
}

/// The decimal digits of a number, most significant first.
fn decimal_chars(n: usize) -> (v: Vec<char>)
    ensures
        v@.len() >= 1,
{
    let mut rev: Vec<char> = Vec::new();
    let mut m = n;
    loop
        invariant_except_break
            true,
        ensures
            rev@.len() >= 1,
        decreases m,
    {
        let d = (m % 10) as u8;
        let c: char = if d == 0 {
            '0'
        } else if d == 1 {
            '1'
        } else if d == 2 {
            '2'
        } else if d == 3 {
            '3'
        } else if d == 4 {
            '4'
        } else if d == 5 {
            '5'
        } else if d == 6 {
            '6'
        } else if d == 7 {
            '7'
        } else if d == 8 {
            '8'
        } else {
            '9'
        };
        rev.push(c);
        m = m / 10;
        if m == 0 {
            break ;
        }
    }
    let mut v: Vec<char> = Vec::new();
    let k = rev.len();
    let mut i: usize = 0;
    while i < k
        invariant
            0 <= i <= k,
            k == rev@.len(),
            v@.len() == i,
        decreases k - i,
    {
        v.push(rev[k - 1 - i]);
        i = i + 1;
    }
    if v.len() == 0 {
        v.push('0');
    }
    v
}

/// The sketch mode's whole state: the graph, its drawing, and which
/// vertices are selected.
pub struct GraphModeState {
    pub graph: Graph,
    pub drawing: GraphDrawing,
    pub selection: Vec<bool>,
}

impl GraphModeState {
    /// All three tables cover the same vertices, and adjacency entries
    /// are vertices.
    pub open spec fn wf(self) -> bool {
        &&& self.graph.wf()
        &&& self.graph.adj@.len() == self.selection@.len()
        &&& self.graph.adj@.len() == self.drawing.positions@.len()
        &&& forall|v: int, k: int|
            0 <= v < self.graph.adj@.len() && 0 <= k < self.graph.adj@[v]@.len()
                ==> #[trigger] self.graph.adj@[v]@[k] < self.graph.adj@.len()
    }

    pub fn new() -> (s: GraphModeState)
        ensures
            s.wf(),
            s.graph.adj@.len() == 0,
            s.graph.edges@.len() == 0,
            s.drawing.positions@.len() == 0,
            s.selection@.len() == 0,
    {
        GraphModeState { graph: Graph::new(), drawing: GraphDrawing::new(), selection: Vec::new() }
    }

    /// Add a vertex: a fresh identity, an unselected flag, and a spot on
    /// the canvas.
    pub fn add_vert(&mut self, ctx: &DrawCtx)
        requires
            old(self).wf(),
            old(self).graph.adj@.len() < usize::MAX,
        ensures
            final(self).wf(),
            final(self).graph.adj@.len() == old(self).graph.adj@.len() + 1,
    {
        let id = self.graph.add();
        self.selection.push(false);
        self.drawing.place(id, ctx);
    }

    /// Connect every pair of selected vertices that is not yet
    /// adjacent, recording each new edge.
    pub fn add_selected_edges(&mut self)
        requires
            old(self).wf(),
        ensures
            final(self).wf(),
            final(self).graph.adj@.len() == old(self).graph.adj@.len(),
            final(self).selection == old(self).selection,
            final(self).drawing == old(self).drawing,
            forall|v: int, w: int|
                0 <= v < final(self).graph.adj@.len() && 0 <= w < final(self).graph.adj@.len()
                    && final(self).selection@[v] && final(self).selection@[w]
                    ==> #[trigger] final(self).graph.adj@[v]@.contains(w as usize),
    {
        let n = self.graph.adj.len();
        let mut v: usize = 0;
        while v < n
            invariant
                0 <= v <= n,
                self.wf(),
                n == self.graph.adj@.len(),
                n == old(self).graph.adj@.len(),
                self.selection == old(self).selection,
                self.drawing == old(self).drawing,
                forall|a: int, b: int|
                    0 <= a < v && 0 <= b < n && self.selection@[a] && self.selection@[b]
                        ==> #[trigger] self.graph.adj@[a]@.contains(b as usize),
            decreases n - v,
        {
            if self.selection[v] {
                let mut w: usize = 0;
                while w < n
                    invariant
                        0 <= w <= n,
                        0 <= v < n,
                        self.wf(),
                        n == self.graph.adj@.len(),
                        n == old(self).graph.adj@.len(),
                        self.selection == old(self).selection,
                        self.drawing == old(self).drawing,
                        self.selection@[v as int],
                        forall|a: int, b: int|
                            0 <= a < v && 0 <= b < n && self.selection@[a] && self.selection@[b]
                                ==> #[trigger] self.graph.adj@[a]@.contains(b as usize),
                        forall|b: int|
                            0 <= b < w && self.selection@[b] ==> #[trigger] self.graph.adj@[
                                v as int
                            ]@.contains(b as usize),
                    decreases n - w,
                {
                    if self.selection[w] {
                        if !contains_vertex(&self.graph.adj[v], w) {
                            let ghost before = self.graph.adj@;
                            let row = crate::widgets::vec_index_mut(&mut self.graph.adj, v);
                            row.push(w);
                            self.graph.edges.push((v, w));
                            proof {
                                assert(self.graph.adj@ =~= before.update(
                                    v as int,
                                    self.graph.adj@[v as int],
                                ));
                                assert forall|a: int, b: int|
                                    0 <= a < v && 0 <= b < n && self.selection@[a]
                                        && self.selection@[b] implies #[trigger] self.graph.adj@[
                                    a
                                ]@.contains(b as usize) by {
                                    assert(before[a]@.contains(b as usize));
                                    assert(self.graph.adj@[a] == before[a]);
                                }
                                assert forall|b: int|
                                    0 <= b < w + 1 && self.selection@[b]
                                        implies #[trigger] self.graph.adj@[v as int]@.contains(
                                    b as usize,
                                ) by {
                                    if b < w {
                                        assert(before[v as int]@.contains(b as usize));
                                        let j = choose|j: int|
                                            0 <= j < before[v as int]@.len() && before[v as int]@[j]
                                                == b as usize;
                                        assert(self.graph.adj@[v as int]@[j] == b as usize);
                                    } else {
                                        assert(self.graph.adj@[v as int]@.last() == w);
                                    }
                                }
                            }
                        } else {
                            proof {
                                assert forall|b: int|
                                    0 <= b < w + 1 && self.selection@[b]
                                        implies #[trigger] self.graph.adj@[v as int]@.contains(
                                    b as usize,
                                ) by {}
                            }
                        }
                    }
                    w = w + 1;
                }
            }
            v = v + 1;
        }
    }

    /// Emit the sketch's draw commands: every edge as a line, every
    /// vertex as a filled circle with its number, and a highlight ring
    /// around each selected vertex.
    pub fn draw(&self, ctx: &DrawCtx) -> (cmds: Vec<DrawCmd>)
        requires
            self.wf(),
    {
        let radius = ctx.viewport.x / 24;
        let purple = Color::rgb(255, 0, 255);
        let black = Color::rgb(0, 0, 0);
        let white = Color::rgb(255, 255, 255);
        let mut cmds: Vec<DrawCmd> = Vec::new();
        let ne = self.graph.edges.len();
        let mut i: usize = 0;
        while i < ne
            invariant
                0 <= i <= ne,
                ne == self.graph.edges@.len(),
                self.wf(),
            decreases ne - i,
        {
            let (a, b) = self.graph.edges[i];
            if a < self.drawing.positions.len() && b < self.drawing.positions.len() {
                cmds.push(
                    DrawCmd::Line {
                        p1: self.drawing.positions[a],
                        p2: self.drawing.positions[b],
                        color: black,
                        width: 3,
                    },
                );
            }
            i = i + 1;
        }
        let nv = self.drawing.positions.len();
        let mut v: usize = 0;
        while v < nv
            invariant
                0 <= v <= nv,
                nv == self.drawing.positions@.len(),
                self.wf(),
            decreases nv - v,
        {
            let pos = self.drawing.positions[v];
            cmds.push(DrawCmd::Circle { center: pos, radius, color: white, fill: true });
            let text_off = Point { x: radius, y: radius / 2 };
            let c1 = Point {
                x: if pos.x >= text_off.x {
                    pos.x - text_off.x
                } else {
                    0
                },
                y: if pos.y >= text_off.y {
                    pos.y - text_off.y
                } else {
                    0
                },
            };
            let c2 = Point { x: sat_add(pos.x, text_off.x), y: sat_add(pos.y, text_off.y) };
            let size = Point {
                x: if c2.x >= c1.x {
                    c2.x - c1.x
                } else {
                    0
                },
                y: if c2.y >= c1.y {
                    c2.y - c1.y
                } else {
                    0
                },
            };
            cmds.push(
                DrawCmd::Text {
                    chars: decimal_chars(v),
                    params: TextParams::new(),
                    area: RotateRect { offset: c1, size },
                },
            );
            if v < self.selection.len() && self.selection[v] {
                cmds.push(DrawCmd::Circle { center: pos, radius, color: purple, fill: false });
            }
            v = v + 1;
        }
        cmds
    }

    /// Select the vertex under the pointer, or clear the whole
    /// selection when the pointer hits none.
    pub fn handle_select(&mut self, pt: &Point, ctx: &DrawCtx)
        requires
            old(self).wf(),
        ensures
            final(self).wf(),
            final(self).graph == old(self).graph,
            final(self).drawing == old(self).drawing,
            match first_in_circle(
                old(self).drawing.positions@,
                *pt,
                ctx.viewport.x / 24,
                0,
            ) {
                Some(id) => id < old(self).selection@.len() ==> final(self).selection@ == old(
                    self,
                ).selection@.update(id, true),
                None => forall|j: int| 0 <= j < final(self).selection@.len()
                    ==> !(#[trigger] final(self).selection@[j]),
            },
    {
        match self.drawing.select_circle(pt, ctx) {
            Some(id) => {
                if id < self.selection.len() {
                    let slot = crate::widgets::vec_index_mut(&mut self.selection, id);
                    *slot = true;
                }
            }
            None => {
                let n = self.selection.len();
                let mut i: usize = 0;
                while i < n
                    invariant
                        0 <= i <= n,
                        n == self.selection@.len(),
                        n == old(self).selection@.len(),
                        self.graph == old(self).graph,
                        self.drawing == old(self).drawing,
                        self.wf(),
                        forall|j: int| 0 <= j < i ==> !(#[trigger] self.selection@[j]),
                    decreases n - i,
                {
                    let slot = crate::widgets::vec_index_mut(&mut self.selection, i);
                    *slot = false;
                    i = i + 1;
                }
            }
        }
    }

    /// A pointer press selects or clears.
    pub fn handle_mouse_event(&mut self, ev: &PointerEvent, ctx: &DrawCtx)
        requires
            old(self).wf(),
        ensures
            final(self).wf(),
    {
        match *ev {
            PointerEvent::ButtonDown { x, y } => {
                let pt = Point { x, y };
                self.handle_select(&pt, ctx);
            }
            _ => {}
        }
    }

    /// A key adds a vertex or connects the selected ones.
    pub fn handle_keyboard_event(&mut self, key: &Key, ctx: &DrawCtx)
        requires
            old(self).wf(),
        ensures
            final(self).wf(),
    {
        match *key {
            Key::Char(c) => {
                if c == 'V' || c == 'v' {
                    if self.graph.adj.len() < usize::MAX {
                        self.add_vert(ctx);
                    }
                } else if c == 'E' || c == 'e' {
                    self.add_selected_edges();
                }
            }
            _ => {}
        }
    }
}

} // verus!
