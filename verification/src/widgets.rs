//! The widget tree: per-widget behavior (label, button, dropdown, text
//! box, or a plain container), a layout strategy, and an ordered list of
//! child widgets, composed recursively.

use vstd::prelude::*;
use crate::draw::{DrawCmd, DrawCtx};
use crate::geom::{sat_add, sat_add_spec, Border, BorderRect, Color, Point, Rect, RotateRect};
use crate::layout::{ChildInfo, Layout, Orientation, WidgetGrid, WidgetList};
use crate::metrics::{TextMetrics, TextParams, MAX_SCALE, MAX_TEXT};
use crate::status::{CursorStyle, Effect, EventResponse, WidgetStatus};
use crate::textedit::TextBox;

verus! {

/// Whether a widget takes part in drawing and layout.
#[derive(Clone, Copy, Debug, PartialEq, Eq, Structural)]
pub enum Visibility {
    Visible,
    Invisible,
    Collapsed,
}

/// Whether a node is a leaf widget or a container of others.
#[derive(Clone, Copy, Debug, PartialEq, Eq, Structural)]
pub enum WidgetType {
    Widget,
    Container,
}

/// The heading of a serialized form document.
pub struct MDTitle {
    pub symbol: String,
    pub strategy: String,
    pub date: String,
}

impl MDTitle {
    pub fn empty() -> (t: MDTitle)
        ensures
            t.symbol@ == Seq::<char>::empty(),
            t.strategy@ == Seq::<char>::empty(),
            t.date@ == Seq::<char>::empty(),
    {
        MDTitle { symbol: String::new(), strategy: String::new(), date: String::new() }
    }
}

/// A serialized form document: a title, a portfolio tag, and a body.
pub struct MDDoc {
    pub title: MDTitle,
    pub portfolio: String,
    pub body: Vec<u8>,
}

impl MDDoc {
    pub fn empty() -> (d: MDDoc)
        ensures
            d.title.symbol@ == Seq::<char>::empty(),
            d.title.strategy@ == Seq::<char>::empty(),
            d.title.date@ == Seq::<char>::empty(),
            d.portfolio@ == Seq::<char>::empty(),
            d.body@ == Seq::<u8>::empty(),
    {
        MDDoc { title: MDTitle::empty(), portfolio: String::new(), body: Vec::new() }
    }
}

/// A plain container with no behavior of its own.
pub struct Container {}

/// A piece of text with optional background and hover fills and an
/// optional minimum width.
pub struct Label {
    pub text: String,
    pub bg_color: Option<Color>,
    pub hover_color: Option<Color>,
    pub is_hover: bool,
    pub min_width: Option<u64>,
    pub text_params: TextParams,
}

/// A bordered, filled widget that defers a bound application action when
/// clicked.
pub struct Button {
    pub action_id: u64,
    pub border_rect: BorderRect,
}

/// A list of options of which one is selected; opens to show them all.
pub struct DropDown {
    pub selected: usize,
    pub hover_idx: Option<usize>,
    pub is_open: bool,
    pub n_items: usize,
}

/// The closed set of widget behaviors.
pub enum Behavior {
    Container(Container),
    Label(Label),
    Button(Button),
    DropDown(DropDown),
    TextBox(TextBox),
}

/// What every widget node carries besides its behavior: the layout
/// strategy, the cached size, the children, and per-node status flags.
pub struct WidgetProps {
    pub layout: Layout,
    pub size_cache: Option<Point>,
    pub children_size: Point,
    pub visible: Visibility,
    pub children: Vec<WidgetS>,
    pub status: WidgetStatus,
}

/// One node of the widget tree.
pub struct WidgetS {
    pub bhv: Behavior,
    pub props: WidgetProps,
}

/// The number of nodes in a widget's subtree, itself included.
pub open spec fn subtree_count(w: WidgetS) -> nat
    decreases w, 0int,
{
    1 + subtree_count_seq(w.props.children@, w.props.children@.len() as int)
}

/// The number of nodes in the subtrees of the first `k` widgets of a
/// list.
pub open spec fn subtree_count_seq(s: Seq<WidgetS>, k: int) -> nat
    decreases s, k,
{
    if k <= 0 {
        0
    } else if k > s.len() {
        subtree_count_seq(s, s.len() as int)
    } else {
        subtree_count_seq(s, k - 1) + subtree_count(s[k - 1])
    }
}

/// Subtree counts of a prefix grow with the prefix.
pub proof fn lemma_subtree_count_mono(s: Seq<WidgetS>, k1: int, k2: int)
    requires
        0 <= k1 <= k2,
    ensures
        subtree_count_seq(s, k1) <= subtree_count_seq(s, k2),
    decreases k2,
{
    if k1 < k2 {
        lemma_subtree_count_mono(s, k1, k2 - 1);
    }
}

/// A child's subtree is no larger than the whole prefix containing it.
pub proof fn lemma_subtree_count_child(s: Seq<WidgetS>, k: int, i: int)
    requires
        0 <= i < k <= s.len(),
    ensures
        subtree_count(s[i]) <= subtree_count_seq(s, k),
    decreases k,
{
    if i < k - 1 {
        lemma_subtree_count_child(s, k - 1, i);
    }
}

/// Every child's subtree is strictly smaller than its parent's.
pub proof fn lemma_child_smaller(w: WidgetS, i: int)
    requires
        0 <= i < w.props.children@.len(),
    ensures
        subtree_count(w.props.children@[i]) < subtree_count(w),
{
    let s = w.props.children@;
    lemma_subtree_count_child(s, i + 1, i);
    lemma_subtree_count_mono(s, i + 1, s.len() as int);
}


/// Saturating addition on indices.
pub open spec fn sat_add_usize_spec(a: usize, b: usize) -> usize {
    if a + b <= usize::MAX {
        (a + b) as usize
    } else {
        usize::MAX
    }
}

/// Saturating addition on indices.
pub fn sat_add_usize(a: usize, b: usize) -> (r: usize)
    ensures
        r == sat_add_usize_spec(a, b),
{
    if a <= usize::MAX - b {
        a + b
    } else {
        usize::MAX
    }
}

/// A mutable reference to one element of a vector.
pub fn vec_index_mut<T>(v: &mut Vec<T>, i: usize) -> (element: &mut T)
    requires
        i < old(v).len(),
    ensures
        *element == old(v)@[i as int],
        final(v)@ == old(v)@.update(i as int, *final(element)),
{
    &mut v[i]
}

/// The per-variant part of a widget's invariant: text lengths and scales
/// within machine bounds, a dropdown's option count matching its
/// children, its chosen index within them.
pub open spec fn behavior_wf(b: Behavior, children_len: int) -> bool {
    match b {
        Behavior::Container(_) => true,
        Behavior::Label(l) => l.text@.len() <= MAX_TEXT && 1 <= l.text_params.scale <= MAX_SCALE,
        Behavior::Button(_) => true,
        Behavior::DropDown(d) => d.n_items == children_len && (d.selected < d.n_items
            || d.n_items == 0),
        Behavior::TextBox(t) => t.default_text@.len() <= MAX_TEXT && t.num_chars <= MAX_TEXT
            && t.rect.size.x <= crate::textedit::MAX_BOX && t.rect.size.y
            <= crate::textedit::MAX_BOX,
    }
}

/// The widget-tree invariant: every node's behavior is well formed, its
/// grid has a sane column count, its child list is bounded, and all its
/// children satisfy the same.
pub open spec fn widget_wf(w: WidgetS) -> bool
    decreases w, 0int,
{
    &&& behavior_wf(w.bhv, w.props.children@.len() as int)
    &&& match w.props.layout {
        Layout::Grid(g) => 1 <= g.n_cols <= 0x10000000,
        Layout::List(_) => true,
    }
    &&& w.props.children@.len() <= 0x10000000
    &&& children_wf_seq(w.props.children@, w.props.children@.len() as int)
}

/// The first `k` widgets of a list all satisfy the tree invariant.
pub open spec fn children_wf_seq(s: Seq<WidgetS>, k: int) -> bool
    decreases s, k,
{
    if k <= 0 || k > s.len() {
        true
    } else {
        children_wf_seq(s, k - 1) && widget_wf(s[k - 1])
    }
}

/// A well-formed widget's children are well formed.
pub proof fn lemma_children_wf(w: WidgetS, i: int)
    requires
        widget_wf(w),
        0 <= i < w.props.children@.len(),
    ensures
        widget_wf(w.props.children@[i]),
{
    lemma_children_wf_seq(w.props.children@, w.props.children@.len() as int, i);
}

/// Within a well-formed prefix, each widget is well formed.
pub proof fn lemma_children_wf_seq(s: Seq<WidgetS>, k: int, i: int)
    requires
        children_wf_seq(s, k),
        0 <= i < k <= s.len(),
    ensures
        widget_wf(s[i]),
    decreases k,
{
    if i < k - 1 {
        lemma_children_wf_seq(s, k - 1, i);
    }
}

/// Replacing one well-formed widget keeps a prefix well formed.
pub proof fn lemma_children_wf_update(s: Seq<WidgetS>, k: int, i: int, c: WidgetS)
    requires
        children_wf_seq(s, k),
        0 <= i < s.len(),
        widget_wf(c),
    ensures
        children_wf_seq(s.update(i, c), k),
    decreases k,
{
    if k > 0 && k <= s.len() {
        lemma_children_wf_update(s, k - 1, i, c);
        if i == k - 1 {
            assert(s.update(i, c)[k - 1] == c);
        } else {
            assert(s.update(i, c)[k - 1] == s[k - 1]);
        }
    }
}

/// Appending a well-formed widget keeps the whole list well formed.
pub proof fn lemma_children_wf_push(s: Seq<WidgetS>, c: WidgetS)
    requires
        children_wf_seq(s, s.len() as int),
        widget_wf(c),
    ensures
        children_wf_seq(s.push(c), s.len() as int + 1),
{
    lemma_children_wf_push_rec(s, s.len() as int, c);
    assert(s.push(c)[s.len() as int] == c);
}

/// Helper: a prefix not touching the appended element is unaffected.
proof fn lemma_children_wf_push_rec(s: Seq<WidgetS>, k: int, c: WidgetS)
    requires
        children_wf_seq(s, k),
        k <= s.len(),
    ensures
        children_wf_seq(s.push(c), k),
    decreases k,
{
    if k > 0 {
        lemma_children_wf_push_rec(s, k - 1, c);
        assert(s.push(c)[k - 1] == s[k - 1]);
    }
}

/// The focusable sub-state a widget exposes, created once per node when
/// the tree is flattened: a dropdown exposes its chosen index, a text
/// box a fresh editor over its initial text.
pub fn selection_of(w: &WidgetS) -> (r: Option<crate::select::SelectEntry>)
    requires
        widget_wf(*w),
    ensures
        match r {
            Some(e) => e.wf() && crate::select::has_entry(*w) && crate::select::entry_matches(
                e,
                *w,
            ),
            None => !crate::select::has_entry(*w),
        },
{
    match &w.bhv {
        Behavior::DropDown(d) => Some(
            crate::select::SelectEntry::DropDown(
                crate::select::DropDownSelect::new(d.selected, d.n_items),
            ),
        ),
        Behavior::TextBox(t) => Some(
            crate::select::SelectEntry::Text(
                crate::textedit::TextEdit::new(t.default_text.as_str(), t.rect.size),
            ),
        ),
        _ => None,
    }
}

impl WidgetS {
    /// Count the nodes of this widget's subtree.
    pub fn count_nodes(&self) -> (n: usize)
        requires
            subtree_count(*self) <= usize::MAX,
        ensures
            n == subtree_count(*self),
        decreases subtree_count(*self),
    {
        let mut n: usize = 1;
        let k = self.props.children.len();
        let mut i: usize = 0;
        while i < k
            invariant
                0 <= i <= k,
                k == self.props.children@.len(),
                subtree_count(*self) <= usize::MAX,
                n == 1 + subtree_count_seq(self.props.children@, i as int),
            decreases k - i,
        {
            proof {
                lemma_child_smaller(*self, i as int);
                lemma_subtree_count_child(self.props.children@, i + 1, i as int);
                lemma_subtree_count_mono(
                    self.props.children@,
                    i + 1,
                    self.props.children@.len() as int,
                );
            }
            let c = self.props.children[i].count_nodes();
            n = n + c;
            i = i + 1;
        }
        n
    }
}


/// The pixel size of a label: its measured text, widened to its minimum
/// width if one is set, one line tall.
pub open spec fn label_size_spec(l: Label, m: TextMetrics) -> Point {
    let w = m.measure_spec(l.text@, l.text_params.scale);
    let wx = match l.min_width {
        Some(mw) => if w >= mw {
            w as int
        } else {
            mw as int
        },
        None => w,
    };
    Point { x: wx as u64, y: (m.line_h * l.text_params.scale) as u64 }
}

impl Label {
    /// A label widget with the given fills, minimum width, and style.
    pub fn new(
        text: &str,
        bg_color: Option<Color>,
        hover_color: Option<Color>,
        min_width: Option<u64>,
        text_params: TextParams,
    ) -> (w: WidgetS)
        requires
            text@.len() <= MAX_TEXT,
            1 <= text_params.scale <= MAX_SCALE,
        ensures
            widget_wf(w),
            w.bhv matches Behavior::Label(l) && l.text@ == text@ && l.bg_color == bg_color
                && l.hover_color == hover_color && l.min_width == min_width && !l.is_hover
                && l.text_params == text_params,
            w.props.children@.len() == 0,
    {
        new_widget(
            Behavior::Label(
                Label {
                    text: text.to_owned(),
                    bg_color,
                    hover_color,
                    min_width,
                    is_hover: false,
                    text_params,
                },
            ),
        )
    }

    /// Flip the hover highlight.
    pub fn set_hover(&mut self, h: bool)
        ensures
            *final(self) == (Label { is_hover: h, ..*old(self) }),
    {
        self.is_hover = h;
    }
}

/// A plain label widget.
pub fn new_label(text: &str) -> (w: WidgetS)
    requires
        text@.len() <= MAX_TEXT,
    ensures
        widget_wf(w),
        w.bhv matches Behavior::Label(l) && l.text@ == text@,
        w.props.children@.len() == 0,
{
    Label::new(text, None, None, None, TextParams::new())
}

impl Button {
    /// A button widget bound to an application action.
    pub fn new(border: Border, fill_color: Color, action_id: u64) -> (w: WidgetS)
        ensures
            widget_wf(w),
            w.bhv matches Behavior::Button(b) && b.action_id == action_id && b.border_rect
                == (BorderRect {
                size: Point { x: 0u64, y: 0u64 },
                fill_color: fill_color,
                border: border,
            }),
            w.props.children@.len() == 0,
    {
        let border_rect = BorderRect::new(Point { x: 0, y: 0 }, fill_color, border);
        new_widget(Behavior::Button(Button { action_id, border_rect }))
    }
}

/// A button widget bound to an application action.
pub fn new_button(border: Border, fill_color: Color, action_id: u64) -> (w: WidgetS)
    ensures
        widget_wf(w),
        w.bhv matches Behavior::Button(b) && b.action_id == action_id,
        w.props.children@.len() == 0,
{
    Button::new(border, fill_color, action_id)
}

impl DropDown {
    /// A dropdown widget over the given options, one label child per
    /// option.
    pub fn new(values: &Vec<String>, selected: usize) -> (w: WidgetS)
        requires
            forall|i: int| 0 <= i < values@.len() ==> (#[trigger] values@[i])@.len() <= MAX_TEXT,
            values@.len() <= 0x10000000,
            selected < values@.len() || values@.len() == 0,
        ensures
            widget_wf(w),
            w.bhv matches Behavior::DropDown(d) && d.selected == selected && !d.is_open
                && d.n_items == values@.len() && d.hover_idx is None,
            w.props.children@.len() == values@.len(),
            forall|i: int|
                0 <= i < values@.len() ==> (#[trigger] w.props.children@[i].bhv matches
                    Behavior::Label(l) && l.text@ == values@[i]@ && !l.is_hover && l.bg_color
                    is Some && l.hover_color is Some),
    {
        let white = Color::rgb(255, 255, 255);
        let lb = Color::rgb(168, 238, 240);
        let mut children: Vec<WidgetS> = Vec::new();
        let n = values.len();
        let mut i: usize = 0;
        while i < n
            invariant
                0 <= i <= n,
                n == values@.len(),
                children@.len() == i,
                forall|j: int| 0 <= j < values@.len() ==> (#[trigger] values@[j])@.len()
                    <= MAX_TEXT,
                children_wf_seq(children@, i as int),
                forall|j: int|
                    0 <= j < i ==> (#[trigger] children@[j].bhv matches Behavior::Label(l)
                        && l.text@ == values@[j]@ && !l.is_hover && l.bg_color is Some
                        && l.hover_color is Some),
            decreases n - i,
        {
            let ghost before = children@;
            let lw = Label::new(
                values[i].as_str(),
                Some(white),
                Some(lb),
                None,
                TextParams::new(),
            );
            proof {
                lemma_children_wf_push(before, lw);
            }
            children.push(lw);
            i = i + 1;
        }
        let layout = Layout::List(WidgetList::new(Orientation::Vertical, 0));
        WidgetS {
            bhv: Behavior::DropDown(
                DropDown { selected, hover_idx: None, n_items: n, is_open: false },
            ),
            props: WidgetProps {
                layout,
                size_cache: None,
                children_size: Point { x: 0, y: 0 },
                visible: Visibility::Visible,
                children,
                status: WidgetStatus::fine(),
            },
        }
    }
}

/// A dropdown widget over the given options.
pub fn new_dropdown(values: &Vec<String>, selected: usize) -> (w: WidgetS)
    requires
        forall|i: int| 0 <= i < values@.len() ==> (#[trigger] values@[i])@.len() <= MAX_TEXT,
        values@.len() <= 0x10000000,
        selected < values@.len() || values@.len() == 0,
    ensures
        widget_wf(w),
        w.bhv matches Behavior::DropDown(d) && d.selected == selected && !d.is_open && d.n_items
            == values@.len(),
{
    DropDown::new(values, selected)
}

/// A text-box widget over a reflow editor.
pub fn new_textbox(default_text: &str, num_chars: usize) -> (w: WidgetS)
    requires
        default_text@.len() <= MAX_TEXT,
        num_chars <= MAX_TEXT,
    ensures
        widget_wf(w),
        w.bhv matches Behavior::TextBox(t) && t.default_text@ == default_text@ && t.num_chars
            == num_chars,
        w.props.children@.len() == 0,
{
    new_widget(Behavior::TextBox(TextBox::new(default_text, num_chars)))
}

/// A leaf widget around a behavior, with default properties.
pub fn new_widget(bhv: Behavior) -> (w: WidgetS)
    ensures
        w.bhv == bhv,
        w.props.children@.len() == 0,
        w.props.size_cache is None,
        w.props.visible == Visibility::Visible,
        w.props.status == WidgetStatus::fine_spec(),
        w.props.layout matches Layout::List(l) && l.orientation == Orientation::Vertical
            && l.spacing == 10 && l.rects_spec().len() == 0,
        behavior_wf(bhv, 0) ==> widget_wf(w),
{
    WidgetS {
        bhv,
        props: WidgetProps {
            layout: Layout::List(WidgetList::new(Orientation::Vertical, 10)),
            size_cache: None,
            children_size: Point { x: 0, y: 0 },
            visible: Visibility::Visible,
            children: Vec::new(),
            status: WidgetStatus::fine(),
        },
    }
}

/// A childless container around a layout strategy.
pub fn new_container(layout: Layout) -> (w: WidgetS)
    ensures
        w.bhv is Container,
        w.props.layout == layout,
        w.props.children@.len() == 0,
        w.props.size_cache is None,
        (match layout {
            Layout::Grid(g) => 1 <= g.n_cols <= 0x10000000,
            Layout::List(_) => true,
        }) ==> widget_wf(w),
{
    WidgetS {
        bhv: Behavior::Container(Container {}),
        props: WidgetProps {
            layout,
            size_cache: None,
            children_size: Point { x: 0, y: 0 },
            visible: Visibility::Visible,
            children: Vec::new(),
            status: WidgetStatus::fine(),
        },
    }
}




/// The per-node size table a measurement pass fills.
pub type WidgetSizes = Vec<Option<Point>>;

/// A cursor over the per-node size table during a measurement pass.
pub struct MeasureContext {
    pub draw_ctx: DrawCtx,
    pub sizes: WidgetSizes,
    pub widget_idx: usize,
}

impl MeasureContext {
    pub fn new(draw_ctx: DrawCtx, sizes: WidgetSizes) -> (c: MeasureContext)
        ensures
            c.draw_ctx == draw_ctx,
            c.sizes == sizes,
            c.widget_idx == 0,
    {
        MeasureContext { draw_ctx, sizes, widget_idx: 0 }
    }

    /// Step to the next widget in pre-order.
    pub fn next_widget_ctx(&mut self)
        ensures
            final(self).widget_idx == sat_add_usize_spec(old(self).widget_idx, 1),
            final(self).draw_ctx == old(self).draw_ctx,
            final(self).sizes == old(self).sizes,
    {
        self.widget_idx = sat_add_usize(self.widget_idx, 1);
    }

    /// The cached size of the widget at the cursor.
    pub fn cur_size(&self) -> (s: Option<Point>)
        ensures
            s == if self.widget_idx < self.sizes@.len() {
                self.sizes@[self.widget_idx as int]
            } else {
                None::<Point>
            },
    {
        if self.widget_idx < self.sizes.len() {
            self.sizes[self.widget_idx]
        } else {
            None
        }
    }
}

/// The characters of a string as a vector.
fn str_chars(s: &str) -> (v: Vec<char>)
    requires
        s@.len() <= MAX_TEXT,
    ensures
        v@ == s@,
{
    let n = s.unicode_len();
    let mut v: Vec<char> = Vec::new();
    let mut i: usize = 0;
    proof {
        assert(v@ =~= s@.take(0int));
    }
    while i < n
        invariant
            0 <= i <= n,
            n == s@.len(),
            v@ == s@.take(i as int),
        decreases n - i,
    {
        v.push(s.get_char(i));
        proof {
            assert(v@ =~= s@.take(i + 1int));
        }
        i = i + 1;
    }
    proof {
        assert(v@ =~= s@);
    }
    v
}

/// Flip the hover highlight of the label at one position, leaving every
/// other widget alone.
fn set_label_hover(children: &mut Vec<WidgetS>, i: usize, h: bool)
    requires
        i < old(children)@.len(),
        children_wf_seq(old(children)@, old(children)@.len() as int),
    ensures
        final(children)@.len() == old(children)@.len(),
        children_wf_seq(final(children)@, final(children)@.len() as int),
        forall|j: int|
            0 <= j < final(children)@.len() ==> (#[trigger] final(children)@[j]).props == old(
                children,
            )@[j].props,
        forall|j: int|
            0 <= j < final(children)@.len() && j != i ==> #[trigger] final(children)@[j] == old(
                children,
            )@[j],
        match old(children)@[i as int].bhv {
            Behavior::Label(l) => final(children)@[i as int].bhv == Behavior::Label(
                Label { is_hover: h, ..l },
            ),
            _ => final(children)@[i as int] == old(children)@[i as int],
        },
{
    let ghost before = children@;
    let c = vec_index_mut(children, i);
    match &mut c.bhv {
        Behavior::Label(l) => {
            l.is_hover = h;
        }
        _ => {}
    }
    proof {
        lemma_children_wf_seq(before, before.len() as int, i as int);
        assert(widget_wf(children@[i as int]));
        lemma_children_wf_update(before, before.len() as int, i as int, children@[i as int]);
        assert(children@ =~= before.update(i as int, children@[i as int]));
        assert forall|j: int| 0 <= j < children@.len() implies (#[trigger] children@[j]).props
            == before[j].props by {}
    }
}

/// The widest measured option text among the first `k` children (a
/// non-label child counts as zero wide).
pub open spec fn options_width(s: Seq<WidgetS>, k: int, m: TextMetrics) -> int
    decreases k,
{
    if k <= 0 || k > s.len() {
        0
    } else {
        let w0 = options_width(s, k - 1, m);
        match s[k - 1].bhv {
            Behavior::Label(l) => {
                let mw = m.measure_spec(l.text@, l.text_params.scale);
                if mw > w0 {
                    mw
                } else {
                    w0
                }
            },
            _ => w0,
        }
    }
}

/// The minimum width a dropdown forces on its option labels: the widest
/// option plus one character.
pub open spec fn forced_option_width(s: Seq<WidgetS>, m: TextMetrics) -> u64 {
    sat_add_spec(options_width(s, s.len() as int, m) as u64, m.char_w)
}

/// Before a dropdown measures its children it forces every option label
/// to the width of the widest option, and collapses every option but
/// the selected one while closed.
fn dropdown_premeasure(d: &DropDown, children: &mut Vec<WidgetS>, ctx: &DrawCtx)
    requires
        ctx.wf(),
        children_wf_seq(old(children)@, old(children)@.len() as int),
        old(children)@.len() <= 0x10000000,
    ensures
        final(children)@.len() == old(children)@.len(),
        children_wf_seq(final(children)@, final(children)@.len() as int),
        forall|j: int|
            0 <= j < final(children)@.len() ==> (#[trigger] final(children)@[j]).props.children
                == old(children)@[j].props.children,
        forall|j: int|
            0 <= j < final(children)@.len() ==> (#[trigger] final(children)@[j]).props.visible
                == (if d.is_open || j == d.selected {
                Visibility::Visible
            } else {
                Visibility::Collapsed
            }),
        forall|j: int|
            0 <= j < final(children)@.len() ==> #[trigger] final(children)@[j].bhv == (match old(
                children,
            )@[j].bhv {
                Behavior::Label(l) => Behavior::Label(
                    Label {
                        min_width: Some(forced_option_width(old(children)@, ctx.metrics)),
                        ..l
                    },
                ),
                b => b,
            }),
{
    let n = children.len();
    let mut max_width: u64 = 0;
    let mut i: usize = 0;
    while i < n
        invariant
            0 <= i <= n,
            n == children@.len(),
            ctx.wf(),
            children_wf_seq(children@, n as int),
            children@ == old(children)@,
            max_width == options_width(children@, i as int, ctx.metrics),
        decreases n - i,
    {
        proof {
            lemma_children_wf_seq(children@, n as int, i as int);
        }
        match &children[i].bhv {
            Behavior::Label(l) => {
                let m = ctx.metrics.measure(l.text.as_str(), l.text_params.scale);
                if m.x > max_width {
                    max_width = m.x;
                }
            }
            _ => {}
        }
        i = i + 1;
    }
    let cs = ctx.metrics.char_size('a', 1);
    let target = sat_add(max_width, cs.x);
    proof {
        assert(target == forced_option_width(old(children)@, ctx.metrics));
    }
    let mut i: usize = 0;
    while i < n
        invariant
            0 <= i <= n,
            n == children@.len(),
            children_wf_seq(children@, n as int),
            target == forced_option_width(old(children)@, ctx.metrics),
            forall|j: int| i <= j < n ==> #[trigger] children@[j] == old(children)@[j],
            forall|j: int|
                0 <= j < n ==> (#[trigger] children@[j]).props.children == old(
                    children,
                )@[j].props.children,
            forall|j: int|
                0 <= j < i ==> (#[trigger] children@[j]).props.visible == (if d.is_open || j
                    == d.selected {
                    Visibility::Visible
                } else {
                    Visibility::Collapsed
                }),
            forall|j: int|
                0 <= j < i ==> #[trigger] children@[j].bhv == (match old(children)@[j].bhv {
                    Behavior::Label(l) => Behavior::Label(
                        Label { min_width: Some(target), ..l },
                    ),
                    b => b,
                }),
        decreases n - i,
    {
        let ghost before = children@;
        let vis = if d.is_open || i == d.selected {
            Visibility::Visible
        } else {
            Visibility::Collapsed
        };
        let c = vec_index_mut(children, i);
        match &mut c.bhv {
            Behavior::Label(l) => {
                l.min_width = Some(target);
            }
            _ => {}
        }
        c.props.visible = vis;
        proof {
            lemma_children_wf_seq(before, before.len() as int, i as int);
            assert(widget_wf(children@[i as int]));
            lemma_children_wf_update(before, before.len() as int, i as int, children@[i as int]);
            assert(children@ =~= before.update(i as int, children@[i as int]));
        }
        i = i + 1;
    }
}

/// What a click does to a dropdown: while closed it opens, keeping the
/// chosen option; while open it closes and chooses the option whose
/// rectangle was hit, or option zero when none was.  Either way the tree
/// must be measured again.
pub fn dropdown_click(
    d: &mut DropDown,
    layout: &Layout,
    offset: &Point,
    ctx: &mut crate::select::WidgetEventCtx,
) -> (r: EventResponse)
    requires
        old(d).selected < old(d).n_items || old(d).n_items == 0,
    ensures
        final(d).n_items == old(d).n_items,
        final(d).hover_idx == old(d).hover_idx,
        final(d).selected < final(d).n_items || final(d).n_items == 0,
        r == EventResponse::Handled,
        final(ctx).res.status == old(ctx).res.status.or_spec(WidgetStatus { bits: 3u32 }),
        final(ctx).res.callbacks@ == old(ctx).res.callbacks@,
        final(ctx).res.cursor == old(ctx).res.cursor,
        final(ctx).draw_ctx == old(ctx).draw_ctx,
        final(ctx).select_state == old(ctx).select_state,
        final(ctx).widget_idx == old(ctx).widget_idx,
        if old(d).is_open {
            !final(d).is_open && final(d).selected as int == (match crate::layout::first_hit(
                layout.rects_spec(),
                *offset,
                0,
            ) {
                Some(i) => if i < old(d).n_items {
                    i
                } else {
                    0int
                },
                None => 0int,
            })
        } else {
            final(d).is_open && final(d).selected == old(d).selected
        },
{
    if d.is_open {
        d.selected = match layout.get_idx(offset) {
            Some(i) => if i < d.n_items {
                i
            } else {
                0
            },
            None => 0,
        };
    }
    d.is_open = !d.is_open;
    ctx.or_status(WidgetStatus::remeasure());
    EventResponse::Handled
}

/// What hovering does to an open dropdown: track the option under the
/// pointer, moving the hover highlight from the previous option to it.
fn dropdown_hover(
    d: &mut DropDown,
    layout: &Layout,
    children: &mut Vec<WidgetS>,
    offset: &Point,
    ctx: &mut crate::select::WidgetEventCtx,
) -> (r: EventResponse)
    requires
        children_wf_seq(old(children)@, old(children)@.len() as int),
    ensures
        final(children)@.len() == old(children)@.len(),
        children_wf_seq(final(children)@, final(children)@.len() as int),
        forall|j: int|
            0 <= j < final(children)@.len() ==> (#[trigger] final(children)@[j]).props == old(
                children,
            )@[j].props,
        final(d).n_items == old(d).n_items,
        final(d).selected == old(d).selected,
        final(d).is_open == old(d).is_open,
        r == EventResponse::Handled,
        final(ctx).draw_ctx == old(ctx).draw_ctx,
        final(ctx).select_state == old(ctx).select_state,
        final(ctx).res.callbacks@ == old(ctx).res.callbacks@,
        final(ctx).res.cursor == old(ctx).res.cursor,
        // Only an open list tracks the option under the pointer; the
        // highlight moves from the previous option's label to the hit
        // one, and a change asks for a redraw.
        if old(d).is_open {
            match crate::layout::first_hit(layout.rects_spec(), *offset, 0) {
                Some(h) => {
                    &&& final(d).hover_idx == Some(h as usize)
                    &&& (old(d).hover_idx != Some(h as usize) ==> final(ctx).res.status == old(ctx).res.status.or_spec(WidgetStatus { bits: 1u32 }) && (h < final(children)@.len() ==> (final(children)@[h as int].bhv matches Behavior::Label(l) ==> l.is_hover)))
                    &&& (old(d).hover_idx == Some(h as usize) ==> final(ctx).res.status == old(ctx).res.status)
                    &&& (match old(d).hover_idx {
                        Some(prev) => (prev != h && prev < final(children)@.len()) ==> (final(children)@[prev as int].bhv matches Behavior::Label(l) ==> !l.is_hover),
                        None => true,
                    })
                },
                None => final(d).hover_idx == old(d).hover_idx && *final(children) == *old(children) && final(ctx).res.status == old(ctx).res.status,
            }
        } else {
            final(d).hover_idx == old(d).hover_idx && *final(children) == *old(children) && final(ctx).res.status == old(ctx).res.status
        },
{
    if d.is_open {
        match layout.get_idx(offset) {
            Some(h) => {
                let mut change = true;
                match d.hover_idx {
                    Some(prev) => {
                        change = prev != h;
                        if prev < children.len() {
                            set_label_hover(children, prev, false);
                        }
                    }
                    None => {}
                }
                if change {
                    if h < children.len() {
                        set_label_hover(children, h, true);
                    }
                    d.hover_idx = Some(h);
                    ctx.or_status(WidgetStatus::redraw());
                }
            }
            None => {}
        }
    }
    EventResponse::Handled
}

/// The character offset a pointer click into a text field selects: the
/// hit-tested position in the field's editor, or zero when the point
/// hits no character or the entry is no editor.
pub open spec fn textbox_hit_pos(
    e: crate::select::SelectEntry,
    pt: Point,
    rect: crate::geom::RotateRect,
    m: TextMetrics,
) -> int {
    match e {
        crate::select::SelectEntry::Text(te) => if te.content().len() <= MAX_TEXT {
            match crate::textedit::hover_spec(te.content(), pt, rect, m, te.scale_spec()) {
                Some(p) => p,
                None => 0,
            }
        } else {
            0
        },
        _ => 0,
    }
}

/// What a click does to a text box: hit-test the pointer into the
/// field's editor to find a character offset, then defer an application
/// effect that focuses this field and places its cursor there.
fn textbox_click(
    t: &TextBox,
    offset: &Point,
    ctx: &mut crate::select::WidgetEventCtx,
) -> (r: EventResponse)
    requires
        old(ctx).draw_ctx.wf(),
        old(ctx).select_state.wf(),
        t.rect.size.x <= crate::textedit::MAX_BOX,
        t.rect.size.y <= crate::textedit::MAX_BOX,
    ensures
        r == EventResponse::Handled,
        final(ctx).res.cursor == CursorStyle::IBeam,
        final(ctx).draw_ctx == old(ctx).draw_ctx,
        final(ctx).select_state == old(ctx).select_state,
        final(ctx).widget_idx == old(ctx).widget_idx,
        final(ctx).res.status == old(ctx).res.status,
        old(ctx).res.callbacks@.is_prefix_of(final(ctx).res.callbacks@),
        // The deferred effect focuses this field's entry and places its
        // cursor at the hit-tested offset; a field with no entry defers
        // nothing.
        ({
            let ss = old(ctx).select_state;
            let widx = old(ctx).widget_idx;
            let sel = if widx.0 < ss.list.widget_idx@.len() {
                ss.list.widget_idx@[widx.0 as int]
            } else {
                None
            };
            match sel {
                Some(idx) => idx < ss.list.vec@.len() ==> final(ctx).res.callbacks@ == old(
                    ctx,
                ).res.callbacks@.push(
                    Effect::FocusText {
                        select_idx: idx,
                        cursor_pos: textbox_hit_pos(
                            ss.list.vec@[idx as int],
                            *offset,
                            t.rect,
                            old(ctx).draw_ctx.metrics,
                        ) as usize,
                    },
                ),
                None => final(ctx).res.callbacks@ == old(ctx).res.callbacks@,
            }
        }),
{
    let ss: &crate::select::SelectionState = ctx.select_state;
    let ghost widx = ctx.widget_idx;
    let entry = ss.get_select_w(ctx.widget_idx);
    let cursor_pos: usize = match entry {
        Some(e) => match e {
            crate::select::SelectEntry::Text(te) => {
                proof {
                    assert(te.wf());
                }
                if te.len_chars() <= MAX_TEXT {
                    match te.hover_text(offset, &t.rect, &ctx.draw_ctx) {
                        Some(p) => p,
                        None => 0,
                    }
                } else {
                    0
                }
            }
            _ => 0,
        },
        None => 0,
    };
    ctx.set_cursor(CursorStyle::IBeam);
    match ctx.select_idx() {
        Some(idx) => {
            ctx.push_cb(Effect::FocusText { select_idx: idx, cursor_pos });
            proof {
                assert(old(ctx).res.callbacks@.is_prefix_of(ctx.res.callbacks@));
            }
        }
        None => {}
    }
    EventResponse::Handled
}



impl WidgetS {
    /// Append a child widget.
    pub fn push(&mut self, child: WidgetS)
        requires
            widget_wf(*old(self)),
            widget_wf(child),
            old(self).props.children@.len() < 0x10000000,
            !(old(self).bhv is DropDown),
        ensures
            widget_wf(*final(self)),
            final(self).props.children@ == old(self).props.children@.push(child),
            final(self).bhv == old(self).bhv,
    {
        proof {
            lemma_children_wf_push(self.props.children@, child);
        }
        self.props.children.push(child);
    }

    /// The child widgets.
    pub fn children(&self) -> (r: &Vec<WidgetS>)
        ensures
            r == &self.props.children,
    {
        &self.props.children
    }

    /// This node's status flags.
    pub fn status(&self) -> (s: WidgetStatus)
        ensures
            s == self.props.status,
    {
        self.props.status
    }

    /// The cached size, if still valid.
    pub fn size_cache(&self) -> (s: Option<Point>)
        ensures
            s == self.props.size_cache,
    {
        self.props.size_cache
    }

    /// Whether the node must be measured before it can be drawn.
    pub fn needs_measure(&self) -> (r: bool)
        ensures
            r == (self.props.size_cache is None),
    {
        self.props.size_cache.is_none()
    }

    /// Replace the layout strategy.
    pub fn set_layout(&mut self, layout: Layout)
        requires
            widget_wf(*old(self)),
            match layout {
                Layout::Grid(g) => 1 <= g.n_cols <= 0x10000000,
                Layout::List(_) => true,
            },
        ensures
            widget_wf(*final(self)),
            final(self).props.layout == layout,
            final(self).bhv == old(self).bhv,
            final(self).props.children == old(self).props.children,
    {
        self.props.layout = layout;
    }

    /// Change the visibility tag.
    pub fn set_visible(&mut self, visible: Visibility)
        requires
            widget_wf(*old(self)),
        ensures
            widget_wf(*final(self)),
            final(self).props.visible == visible,
            final(self).bhv == old(self).bhv,
            final(self).props.children == old(self).props.children,
    {
        self.props.visible = visible;
    }

    /// Invalidate the cached size when this node was flagged for
    /// remeasurement.
    pub fn handle_response(&mut self)
        ensures
            final(self).props.size_cache == if old(self).props.status.bits & 3u32 != 0u32 {
                None::<Point>
            } else {
                old(self).props.size_cache
            },
            final(self).bhv == old(self).bhv,
            final(self).props.children == old(self).props.children,
            final(self).props.layout == old(self).props.layout,
            final(self).props.status == old(self).props.status,
            final(self).props.visible == old(self).props.visible,
    {
        if self.props.status.bits & 3u32 != 0u32 {
            self.props.size_cache = None;
        }
    }

    /// Measure the subtree bottom-up: run the dropdown pre-measure hook,
    /// measure every non-collapsed child, lay the children out, let the
    /// behavior adjust the folded size, and cache the result.  The
    /// layout holds exactly one rectangle per child afterwards.
    pub fn remeasure(&mut self, ctx: &DrawCtx) -> (size: Point)
        requires
            widget_wf(*old(self)),
            ctx.wf(),
        ensures
            widget_wf(*final(self)),
            final(self).props.size_cache == Some(size),
            final(self).props.children@.len() == old(self).props.children@.len(),
            final(self).props.layout.rects_spec().len() == final(self).props.children@.len(),
            final(self).props.visible == old(self).props.visible,
            old(self).bhv matches Behavior::Label(l) ==> size == label_size_spec(l, ctx.metrics),
            old(self).bhv matches Behavior::TextBox(t) ==> size == (Point {
                x: (ctx.metrics.char_w * t.num_chars) as u64,
                y: ctx.metrics.line_h,
            }),
            // The children's sizes are folded by the layout strategy:
            // rectangles and aggregate size follow its contract over the
            // children's freshly cached sizes.
            crate::layout::layout_remeasure_post(
                old(self).props.layout,
                final(self).props.layout,
                child_infos(final(self).props.children@),
                final(self).props.children_size,
            ),
            // The behavior's own post-adjustment of the folded size.
            match old(self).bhv {
                Behavior::Container(_) => final(self).bhv == old(self).bhv && size == final(self).props.children_size,
                Behavior::Label(_) => final(self).bhv == old(self).bhv,
                Behavior::DropDown(d) => final(self).bhv == old(self).bhv && size == final(self).props.children_size && (forall|j: int|
                    0 <= j < final(self).props.children@.len()
                        ==> (#[trigger] final(self).props.children@[j]).props.visible == (if d.is_open
                        || j == d.selected {
                        Visibility::Visible
                    } else {
                        Visibility::Collapsed
                    })) && (forall|j: int|
                    0 <= j < final(self).props.children@.len()
                        ==> match old(self).props.children@[j].bhv {
                        Behavior::Label(l) => #[trigger] final(self).props.children@[j].bhv
                            == Behavior::Label(
                            Label {
                                min_width: Some(
                                    forced_option_width(old(self).props.children@, ctx.metrics),
                                ),
                                ..l
                            },
                        ),
                        _ => true,
                    }),
                Behavior::Button(b) => final(self).bhv == Behavior::Button(
                    Button {
                        border_rect: BorderRect {
                            size: final(self).props.children_size,
                            ..b.border_rect
                        },
                        ..b
                    },
                ) && size == (Point {
                    x: sat_add_spec(
                        final(self).props.children_size.x,
                        sat_add_spec(b.border_rect.border.width.x, b.border_rect.border.width.x),
                    ),
                    y: sat_add_spec(
                        final(self).props.children_size.y,
                        sat_add_spec(b.border_rect.border.width.y, b.border_rect.border.width.y),
                    ),
                }),
                Behavior::TextBox(t) => final(self).bhv == Behavior::TextBox(
                    TextBox { rect: crate::geom::RotateRect { size: size, ..t.rect }, ..t },
                ),
            },
        decreases subtree_count(*old(self)),
    {
        match &self.bhv {
            Behavior::DropDown(d) => {
                dropdown_premeasure(d, &mut self.props.children, ctx);
            }
            _ => {}
        }
        proof {
            assert(subtree_count(*self) == subtree_count(*old(self))) by {
                assert forall|j: int|
                    0 <= j < self.props.children@.len() implies subtree_count(
                    #[trigger] self.props.children@[j],
                ) == subtree_count(old(self).props.children@[j]) by {
                    assert(self.props.children@[j].props.children == old(
                        self,
                    ).props.children@[j].props.children);
                }
                lemma_subtree_count_seq_congruent(
                    self.props.children@,
                    old(self).props.children@,
                    self.props.children@.len() as int,
                );
            }
        }
        let ghost base = *self;
        proof {
            assert forall|j: int| 0 <= j < base.props.children@.len() implies subtree_count(
                #[trigger] base.props.children@[j],
            ) < subtree_count(base) by {
                lemma_child_smaller(base, j);
            }
        }
        let n = self.props.children.len();
        let mut items: Vec<ChildInfo> = Vec::new();
        proof {
            assert(items@ =~= child_infos(self.props.children@.take(0int)));
        }
        let mut i: usize = 0;
        while i < n
            invariant
                0 <= i <= n,
                n == self.props.children@.len(),
                ctx.wf(),
                items@.len() == i,
                subtree_count(base) == subtree_count(*old(self)),
                self.bhv == base.bhv,
                self.props.layout == base.props.layout,
                self.props.visible == base.props.visible,
                self.props.status == base.props.status,
                self.props.children_size == base.props.children_size,
                self.props.size_cache == base.props.size_cache,
                behavior_wf(self.bhv, n as int),
                match self.props.layout {
                    Layout::Grid(g) => 1 <= g.n_cols <= 0x10000000,
                    Layout::List(_) => true,
                },
                n <= 0x10000000,
                children_wf_seq(self.props.children@, n as int),
                items@ =~= child_infos(self.props.children@.take(i as int)),
                forall|j: int|
                    0 <= j < i ==> (#[trigger] self.props.children@[j]).props.visible
                        == base.props.children@[j].props.visible,
                forall|j: int|
                    0 <= j < i ==> match base.props.children@[j].bhv {
                        Behavior::Label(_) => #[trigger] self.props.children@[j].bhv
                            == base.props.children@[j].bhv,
                        _ => true,
                    },
                forall|j: int|
                    i <= j < n ==> #[trigger] self.props.children@[j] == base.props.children@[j],
                forall|j: int|
                    0 <= j < n ==> subtree_count(#[trigger] base.props.children@[j])
                        < subtree_count(base),
            decreases n - i,
        {
            let collapsed = matches!(self.props.children[i].props.visible, Visibility::Collapsed);
            let sz = if collapsed {
                Point { x: 0, y: 0 }
            } else {
                proof {
                    lemma_children_wf_seq(self.props.children@, n as int, i as int);
                }
                let ghost before = self.props.children@;
                let child = vec_index_mut(&mut self.props.children, i);
                let s = child.remeasure(ctx);
                proof {
                    lemma_children_wf_update(
                        before,
                        before.len() as int,
                        i as int,
                        self.props.children@[i as int],
                    );
                    assert(self.props.children@ =~= before.update(
                        i as int,
                        self.props.children@[i as int],
                    ));
                }
                s
            };
            items.push(ChildInfo { size: sz, collapsed });
            proof {
                assert(items@ =~= child_infos(self.props.children@.take(i + 1int)));
            }
            i = i + 1;
        }
        proof {
            assert(self.props.children@.take(n as int) =~= self.props.children@);
            assert(items@ =~= child_infos(self.props.children@));
        }
        let ghost layout0 = self.props.layout;
        let children_size = match &mut self.props.layout {
            Layout::List(l) => l.remeasure_items(&items),
            Layout::Grid(g) => g.remeasure_items(&items),
        };
        self.props.children_size = children_size;
        proof {
            assert(crate::layout::layout_remeasure_post(
                layout0,
                self.props.layout,
                items@,
                children_size,
            ));
        }
        let size = match &mut self.bhv {
            Behavior::Container(_) => children_size,
            Behavior::Label(l) => {
                let mut m = ctx.metrics.measure(l.text.as_str(), l.text_params.scale);
                match l.min_width {
                    Some(mw) => {
                        if mw > m.x {
                            m.x = mw;
                        }
                    }
                    None => {}
                }
                m
            }
            Behavior::Button(b) => {
                b.border_rect.size = children_size;
                Point {
                    x: sat_add(
                        children_size.x,
                        sat_add(b.border_rect.border.width.x, b.border_rect.border.width.x),
                    ),
                    y: sat_add(
                        children_size.y,
                        sat_add(b.border_rect.border.width.y, b.border_rect.border.width.y),
                    ),
                }
            }
            Behavior::DropDown(_) => children_size,
            Behavior::TextBox(t) => {
                proof {
                    assert(ctx.metrics.char_w * t.num_chars <= 0xFFFF * MAX_TEXT)
                        by (nonlinear_arith)
                        requires
                            0 <= ctx.metrics.char_w <= 0xFFFF,
                            0 <= t.num_chars <= MAX_TEXT,
                    ;
                }
                let s = Point { x: ctx.metrics.char_w * (t.num_chars as u64), y: ctx.metrics.line_h };
                t.rect.size = s;
                s
            }
        };
        self.props.size_cache = Some(size);
        size
    }

    /// Route a pointer click: the behavior's own hook first; if it
    /// leaves the click unhandled, descend into the first child whose
    /// rectangle holds the point, translating it into that child's
    /// coordinates.  A node flagged for remeasurement loses its cached
    /// size.
    pub fn click(
        &mut self,
        offset: &Point,
        ctx: &mut crate::select::WidgetEventCtx,
    ) -> (resp: Option<EventResponse>)
        requires
            widget_wf(*old(self)),
            old(ctx).draw_ctx.wf(),
            old(ctx).select_state.wf(),
        ensures
            widget_wf(*final(self)),
            final(ctx).draw_ctx == old(ctx).draw_ctx,
            final(ctx).select_state == old(ctx).select_state,
            old(ctx).res.callbacks@.is_prefix_of(final(ctx).res.callbacks@),
            // A button defers exactly its bound action.
            old(self).bhv matches Behavior::Button(b) ==> final(ctx).res.callbacks@ == old(
                ctx,
            ).res.callbacks@.push(Effect::Action { action_id: b.action_id }) && resp == Some(
                EventResponse::Handled,
            ),
            // Only containers and labels pass a click to their
            // children; every other behavior handles it itself.
            (!(old(self).bhv is Container) && !(old(self).bhv is Label)) ==> final(self).props.children@ == old(self).props.children@,
            // A click that nothing handles leaves the accumulated result
            // untouched; the response is empty exactly when the click
            // falls through the whole subtree.
            resp is None ==> final(ctx).res == old(ctx).res,
            resp is None <==> click_misses(*old(self), *offset),
            // Containers and labels route: the first child rectangle
            // holding the point receives the click in its own
            // coordinates; every other child is untouched and the
            // child's status flags fold into this node's.
            (old(self).bhv is Container || old(self).bhv is Label) ==> {
                &&& final(self).bhv == old(self).bhv
                &&& final(self).props.layout == old(self).props.layout
                &&& final(self).props.visible == old(self).props.visible
                &&& match crate::layout::first_hit(old(self).props.layout.rects_spec(), *offset, 0) {
                    Some(ci) => if ci < old(self).props.children@.len() {
                        (forall|j: int|
                            0 <= j < final(self).props.children@.len() && j != ci
                                ==> #[trigger] final(self).props.children@[j] == old(self).props.children@[j])
                            && final(self).props.status == old(self).props.status.or_spec(
                            final(self).props.children@[ci].props.status,
                        )
                    } else {
                        final(self).props.children@ == old(self).props.children@ && final(self).props.status == old(self).props.status
                    },
                    None => final(self).props.children@ == old(self).props.children@ && final(self).props.status == old(self).props.status,
                }
            },
            // A dropdown toggles: opening keeps the chosen option;
            // closing chooses the option whose rectangle was hit, or
            // option zero when none was.
            old(self).bhv matches Behavior::DropDown(d) ==> (final(self).bhv matches
                Behavior::DropDown(d2) && d2.n_items == d.n_items && resp == Some(
                EventResponse::Handled,
            ) && (if d.is_open {
                !d2.is_open && d2.selected as int == (match crate::layout::first_hit(
                    old(self).props.layout.rects_spec(),
                    *offset,
                    0,
                ) {
                    Some(i) => if i < d.n_items {
                        i
                    } else {
                        0int
                    },
                    None => 0int,
                })
            } else {
                d2.is_open && d2.selected == d.selected
            })),
        decreases subtree_count(*old(self)),
    {
        let handled = match &mut self.bhv {
            Behavior::Button(b) => {
                ctx.push_cb(Effect::Action { action_id: b.action_id });
                EventResponse::Handled
            }
            Behavior::DropDown(d) => dropdown_click(d, &self.props.layout, offset, ctx),
            Behavior::TextBox(t) => textbox_click(t, offset, ctx),
            _ => EventResponse::NotHandled,
        };
        let resp: Option<EventResponse> = match handled {
            EventResponse::Handled => Some(EventResponse::Handled),
            EventResponse::NotHandled => {
                let w_idx = ctx.widget_idx;
                let n = self.props.children.len();
                match self.props.layout.get_idx(offset) {
                    Some(ci) => {
                        if ci < n {
                            let r = self.props.layout.rect_at(ci);
                            let off2 = Point { x: offset.x - r.c1.x, y: offset.y - r.c1.y };
                            ctx.child_ctx(w_idx, ci);
                            proof {
                                lemma_child_smaller(*self, ci as int);
                                lemma_children_wf_seq(self.props.children@, n as int, ci as int);
                            }
                            let ghost before = self.props.children@;
                            let child = vec_index_mut(&mut self.props.children, ci);
                            let cresp = child.click(&off2, ctx);
                            proof {
                                lemma_children_wf_update(
                                    before,
                                    before.len() as int,
                                    ci as int,
                                    self.props.children@[ci as int],
                                );
                                assert(self.props.children@ =~= before.update(
                                    ci as int,
                                    self.props.children@[ci as int],
                                ));
                            }
                            let st = self.props.children[ci].status();
                            self.props.status = self.props.status.or(&st);
                            cresp
                        } else {
                            None
                        }
                    }
                    None => None,
                }
            }
        };
        self.handle_response();
        resp
    }

    /// Route a pointer hover, the same way a click is routed.
    pub fn hover(
        &mut self,
        offset: &Point,
        ctx: &mut crate::select::WidgetEventCtx,
    ) -> (resp: Option<EventResponse>)
        requires
            widget_wf(*old(self)),
            old(ctx).draw_ctx.wf(),
            old(ctx).select_state.wf(),
        ensures
            widget_wf(*final(self)),
            final(ctx).draw_ctx == old(ctx).draw_ctx,
            final(ctx).select_state == old(ctx).select_state,
            final(ctx).res.callbacks@ == old(ctx).res.callbacks@,
            final(ctx).res.status == old(ctx).res.status || final(ctx).res.status == old(
                ctx,
            ).res.status.or_spec(WidgetStatus { bits: 1u32 }),
            // Only containers pass a hover on, and only an open
            // dropdown touches its children's highlights.
            (!(old(self).bhv is Container) && !(old(self).bhv is DropDown)) ==> final(self).props.children@ == old(self).props.children@,
            // A hover that nothing handles leaves the accumulated result
            // untouched.
            resp is None ==> final(ctx).res == old(ctx).res,
            // Containers route: the first child rectangle holding the
            // point receives the hover in its own coordinates; every
            // other child is untouched and the child's status flags
            // fold into this node's.
            old(self).bhv is Container ==> {
                &&& final(self).bhv == old(self).bhv
                &&& final(self).props.layout == old(self).props.layout
                &&& final(self).props.visible == old(self).props.visible
                &&& match crate::layout::first_hit(old(self).props.layout.rects_spec(), *offset, 0) {
                    Some(ci) => if ci < old(self).props.children@.len() {
                        (forall|j: int|
                            0 <= j < final(self).props.children@.len() && j != ci
                                ==> #[trigger] final(self).props.children@[j] == old(self).props.children@[j])
                            && final(self).props.status == old(self).props.status.or_spec(
                            final(self).props.children@[ci].props.status,
                        )
                    } else {
                        final(self).props.children@ == old(self).props.children@ && final(self).props.status == old(self).props.status
                    },
                    None => final(self).props.children@ == old(self).props.children@ && final(self).props.status == old(self).props.status,
                }
            },
            // An open dropdown tracks the option under the pointer,
            // moving the hover highlight to it and asking for a redraw
            // on change; a closed one ignores hovering.
            old(self).bhv matches Behavior::DropDown(d) ==> (final(self).bhv matches
                Behavior::DropDown(d2) && d2.n_items == d.n_items && d2.selected == d.selected
                && d2.is_open == d.is_open && resp == Some(EventResponse::Handled) && (if d.is_open {
                match crate::layout::first_hit(old(self).props.layout.rects_spec(), *offset, 0) {
                    Some(h) => d2.hover_idx == Some(h as usize) && (h
                        < final(self).props.children@.len() && d.hover_idx != Some(h as usize)
                        ==> (final(self).props.children@[h as int].bhv matches Behavior::Label(l)
                        ==> l.is_hover)),
                    None => d2.hover_idx == d.hover_idx,
                }
            } else {
                d2.hover_idx == d.hover_idx
            })),
            // A hovered label with a hover fill turns its highlight on.
            old(self).bhv matches Behavior::Label(l) ==> (final(self).bhv matches Behavior::Label(
                l2,
            ) && l2.is_hover == (l.is_hover || l.hover_color is Some) && resp == Some(
                EventResponse::Handled,
            )),
        decreases subtree_count(*old(self)),
    {
        let handled = match &mut self.bhv {
            Behavior::Label(l) => {
                if l.hover_color.is_some() && !l.is_hover {
                    l.is_hover = true;
                    self.props.status = self.props.status.or(&WidgetStatus::redraw());
                }
                EventResponse::Handled
            }
            Behavior::Button(_) => {
                ctx.set_cursor(CursorStyle::Hand);
                EventResponse::Handled
            }
            Behavior::DropDown(d) => dropdown_hover(
                d,
                &self.props.layout,
                &mut self.props.children,
                offset,
                ctx,
            ),
            Behavior::TextBox(_) => {
                ctx.set_cursor(CursorStyle::IBeam);
                EventResponse::Handled
            }
            Behavior::Container(_) => EventResponse::NotHandled,
        };
        let resp: Option<EventResponse> = match handled {
            EventResponse::Handled => Some(EventResponse::Handled),
            EventResponse::NotHandled => {
                let w_idx = ctx.widget_idx;
                let n = self.props.children.len();
                match self.props.layout.get_idx(offset) {
                    Some(ci) => {
                        if ci < n {
                            let r = self.props.layout.rect_at(ci);
                            let off2 = Point { x: offset.x - r.c1.x, y: offset.y - r.c1.y };
                            ctx.child_ctx(w_idx, ci);
                            proof {
                                lemma_child_smaller(*self, ci as int);
                                lemma_children_wf_seq(self.props.children@, n as int, ci as int);
                            }
                            let ghost before = self.props.children@;
                            let child = vec_index_mut(&mut self.props.children, ci);
                            let cresp = child.hover(&off2, ctx);
                            proof {
                                lemma_children_wf_update(
                                    before,
                                    before.len() as int,
                                    ci as int,
                                    self.props.children@[ci as int],
                                );
                                assert(self.props.children@ =~= before.update(
                                    ci as int,
                                    self.props.children@[ci as int],
                                ));
                            }
                            let st = self.props.children[ci].status();
                            self.props.status = self.props.status.or(&st);
                            cresp
                        } else {
                            None
                        }
                    }
                    None => None,
                }
            }
        };
        self.handle_response();
        resp
    }

    /// Drop transient interaction state everywhere in the subtree:
    /// every dropdown, at this node and below, closes; nothing else
    /// changes.
    pub fn deselect(&mut self)
        requires
            widget_wf(*old(self)),
        ensures
            widget_wf(*final(self)),
            all_closed(*final(self)),
            final(self).props.children@.len() == old(self).props.children@.len(),
            final(self).props.layout == old(self).props.layout,
            final(self).props.visible == old(self).props.visible,
            final(self).props.status == old(self).props.status,
            final(self).props.size_cache == old(self).props.size_cache,
            match old(self).bhv {
                Behavior::DropDown(d) => final(self).bhv == Behavior::DropDown(
                    DropDown { is_open: false, ..d },
                ),
                _ => final(self).bhv == old(self).bhv,
            },
        decreases subtree_count(*old(self)),
    {
        match &mut self.bhv {
            Behavior::DropDown(d) => {
                if d.is_open {
                    d.is_open = false;
                }
            }
            _ => {}
        }
        let ghost base = *self;
        proof {
            assert(subtree_count(base) == subtree_count(*old(self))) by {
                assert(base.props.children == old(self).props.children);
            }
            assert forall|j: int| 0 <= j < base.props.children@.len() implies subtree_count(
                #[trigger] base.props.children@[j],
            ) < subtree_count(base) by {
                lemma_child_smaller(base, j);
            }
        }
        let n = self.props.children.len();
        let mut i: usize = 0;
        while i < n
            invariant
                0 <= i <= n,
                n == self.props.children@.len(),
                subtree_count(base) == subtree_count(*old(self)),
                self.bhv == base.bhv,
                self.props.layout == base.props.layout,
                self.props.visible == base.props.visible,
                self.props.status == base.props.status,
                self.props.size_cache == base.props.size_cache,
                behavior_wf(self.bhv, n as int),
                base.bhv matches Behavior::DropDown(d) ==> !d.is_open,
                match self.props.layout {
                    Layout::Grid(g) => 1 <= g.n_cols <= 0x10000000,
                    Layout::List(_) => true,
                },
                n <= 0x10000000,
                children_wf_seq(self.props.children@, n as int),
                forall|j: int| 0 <= j < i ==> all_closed(#[trigger] self.props.children@[j]),
                forall|j: int|
                    i <= j < n ==> #[trigger] self.props.children@[j] == base.props.children@[j],
                forall|j: int|
                    0 <= j < n ==> subtree_count(#[trigger] base.props.children@[j])
                        < subtree_count(base),
            decreases n - i,
        {
            proof {
                lemma_children_wf_seq(self.props.children@, n as int, i as int);
            }
            let ghost before = self.props.children@;
            let child = vec_index_mut(&mut self.props.children, i);
            child.deselect();
            proof {
                lemma_children_wf_update(
                    before,
                    before.len() as int,
                    i as int,
                    self.props.children@[i as int],
                );
                assert(self.props.children@ =~= before.update(
                    i as int,
                    self.props.children@[i as int],
                ));
            }
            i = i + 1;
        }
        proof {
            lemma_all_closed_seq_from_forall(self.props.children@, n as int);
        }
    }
}


/// No dropdown anywhere in the subtree is open.
pub open spec fn all_closed(w: WidgetS) -> bool
    decreases w, 0int,
{
    &&& (w.bhv matches Behavior::DropDown(d) ==> !d.is_open)
    &&& all_closed_seq(w.props.children@, w.props.children@.len() as int)
}

/// No dropdown in the first `k` widgets' subtrees is open.
pub open spec fn all_closed_seq(s: Seq<WidgetS>, k: int) -> bool
    decreases s, k,
{
    if k <= 0 || k > s.len() {
        true
    } else {
        all_closed_seq(s, k - 1) && all_closed(s[k - 1])
    }
}

/// Whether a click at this offset falls through the whole subtree:
/// only containers and labels pass a click on, and it descends into the
/// first child rectangle holding the point, translated by that
/// rectangle's corner.
pub open spec fn click_misses(w: WidgetS, pt: Point) -> bool
    decreases w, 0int,
{
    match w.bhv {
        Behavior::Button(_) => false,
        Behavior::DropDown(_) => false,
        Behavior::TextBox(_) => false,
        _ => match crate::layout::first_hit(w.props.layout.rects_spec(), pt, 0) {
            None => true,
            Some(ci) => if 0 <= ci < w.props.children@.len() {
                click_misses(
                    w.props.children@[ci],
                    Point {
                        x: (pt.x - w.props.layout.rects_spec()[ci].c1.x) as u64,
                        y: (pt.y - w.props.layout.rects_spec()[ci].c1.y) as u64,
                    },
                )
            } else {
                true
            },
        },
    }
}

/// What the layout learns of each child when a node is remeasured: a
/// collapsed child takes no part (zero size), any other child reports
/// its freshly cached size.
pub open spec fn child_infos(s: Seq<WidgetS>) -> Seq<ChildInfo> {
    Seq::new(
        s.len(),
        |j: int|
            ChildInfo {
                size: if s[j].props.visible is Collapsed {
                    Point { x: 0u64, y: 0u64 }
                } else {
                    match s[j].props.size_cache {
                        Some(p) => p,
                        None => Point { x: 0u64, y: 0u64 },
                    }
                },
                collapsed: s[j].props.visible is Collapsed,
            },
    )
}

/// A list whose members are all closed is closed as a prefix.
pub proof fn lemma_all_closed_seq_from_forall(s: Seq<WidgetS>, k: int)
    requires
        forall|j: int| 0 <= j < s.len() ==> all_closed(#[trigger] s[j]),
        k <= s.len(),
    ensures
        all_closed_seq(s, k),
    decreases k,
{
    if k > 0 {
        lemma_all_closed_seq_from_forall(s, k - 1);
    }
}

/// Subtree counts agree for lists that agree elementwise.
pub proof fn lemma_subtree_count_seq_congruent(s1: Seq<WidgetS>, s2: Seq<WidgetS>, k: int)
    requires
        s1.len() == s2.len(),
        forall|j: int| 0 <= j < s1.len() ==> subtree_count(#[trigger] s1[j]) == subtree_count(
            s2[j],
        ),
    ensures
        subtree_count_seq(s1, k) == subtree_count_seq(s2, k),
    decreases k,
{
    if k > 0 {
        lemma_subtree_count_seq_congruent(s1, s2, k - 1);
    }
}



/// Emit a label's commands: its background (hover fill while hovered),
/// then its text.
fn label_draw(l: &Label, offset: &Point, ctx: &mut crate::select::WidgetDrawCtx)
    requires
        l.text@.len() <= MAX_TEXT,
        1 <= l.text_params.scale <= MAX_SCALE,
        old(ctx).draw_ctx.wf(),
    ensures
        final(ctx).draw_ctx == old(ctx).draw_ctx,
        final(ctx).select_state == old(ctx).select_state,
        final(ctx).widget_idx == old(ctx).widget_idx,
        old(ctx).cmds@.is_prefix_of(final(ctx).cmds@),
        ({
            let base = old(ctx).cmds@.len() as int;
            let m = label_size_spec(*l, old(ctx).draw_ctx.metrics);
            let bg = if l.is_hover && l.hover_color is Some {
                l.hover_color
            } else {
                l.bg_color
            };
            let nn: int = if bg is Some {
                2
            } else {
                1
            };
            &&& final(ctx).cmds@.len() == base + nn
            &&& (final(ctx).cmds@[base + nn - 1] matches DrawCmd::Text { chars, params, area }
                && chars@ == l.text@ && params == l.text_params && area == (RotateRect {
                offset: *offset,
                size: m,
            }))
            &&& match bg {
                Some(c) => final(ctx).cmds@[base] == (DrawCmd::FillRect {
                    rect: Rect {
                        c1: *offset,
                        c2: Point {
                            x: sat_add_spec(offset.x, m.x),
                            y: sat_add_spec(offset.y, m.y),
                        },
                    },
                    color: c,
                    fill: true,
                }),
                None => true,
            }
        }),
{
    let dctx = ctx.draw_ctx;
    let mut m = dctx.metrics.measure(l.text.as_str(), l.text_params.scale);
    match l.min_width {
        Some(mw) => {
            if mw > m.x {
                m.x = mw;
            }
        }
        None => {}
    }
    let r = Rect {
        c1: *offset,
        c2: Point { x: sat_add(offset.x, m.x), y: sat_add(offset.y, m.y) },
    };
    let bg = if l.is_hover && l.hover_color.is_some() {
        l.hover_color
    } else {
        l.bg_color
    };
    match bg {
        Some(color) => {
            ctx.cmds.push(DrawCmd::FillRect { rect: r, color, fill: true });
        }
        None => {}
    }
    let chars = str_chars(l.text.as_str());
    ctx.cmds.push(
        DrawCmd::Text {
            chars,
            params: l.text_params,
            area: RotateRect { offset: *offset, size: m },
        },
    );
}

/// Emit a button's commands: the border rectangle, then the fill inside
/// it.
fn button_draw(b: &Button, offset: &Point, ctx: &mut crate::select::WidgetDrawCtx)
    ensures
        final(ctx).draw_ctx == old(ctx).draw_ctx,
        final(ctx).select_state == old(ctx).select_state,
        final(ctx).widget_idx == old(ctx).widget_idx,
        old(ctx).cmds@.is_prefix_of(final(ctx).cmds@),
        ({
            let base = old(ctx).cmds@.len() as int;
            &&& final(ctx).cmds@.len() == base + 2
            &&& (final(ctx).cmds@[base] matches DrawCmd::FillRect { rect, color, fill } && color
                == b.border_rect.border.color && fill)
            &&& (final(ctx).cmds@[base + 1] matches DrawCmd::FillRect { rect, color, fill }
                && color == b.border_rect.fill_color && fill)
        }),
{
    let bw = b.border_rect.border.width;
    let outer = Rect {
        c1: *offset,
        c2: Point {
            x: sat_add(offset.x, sat_add(b.border_rect.size.x, sat_add(bw.x, bw.x))),
            y: sat_add(offset.y, sat_add(b.border_rect.size.y, sat_add(bw.y, bw.y))),
        },
    };
    ctx.cmds.push(DrawCmd::FillRect { rect: outer, color: b.border_rect.border.color, fill: true });
    let inner_c1 = Point { x: sat_add(offset.x, bw.x), y: sat_add(offset.y, bw.y) };
    let inner = Rect {
        c1: inner_c1,
        c2: Point {
            x: sat_add(inner_c1.x, b.border_rect.size.x),
            y: sat_add(inner_c1.y, b.border_rect.size.y),
        },
    };
    ctx.cmds.push(DrawCmd::FillRect { rect: inner, color: b.border_rect.fill_color, fill: true });
}

/// Emit the dropdown indicator: a triangle at the right edge, pointing
/// up while the list is open and down while it is closed.
fn dropdown_triangle(
    d: &DropDown,
    offset: &Point,
    children_size: Point,
    ctx: &mut crate::select::WidgetDrawCtx,
)
    requires
        old(ctx).draw_ctx.wf(),
    ensures
        final(ctx).draw_ctx == old(ctx).draw_ctx,
        final(ctx).select_state == old(ctx).select_state,
        final(ctx).widget_idx == old(ctx).widget_idx,
        old(ctx).cmds@.is_prefix_of(final(ctx).cmds@),
        final(ctx).cmds@.len() == old(ctx).cmds@.len() + 1,
        (final(ctx).cmds@.last() matches DrawCmd::IsoTri { point_up, w, h, fill, .. } && point_up
            == d.is_open && w == old(ctx).draw_ctx.metrics.char_w && h == old(
            ctx,
        ).draw_ctx.metrics.line_h && fill),
{
    let cs = ctx.draw_ctx.metrics.char_size('a', 1);
    let right = sat_add(offset.x, children_size.x);
    let cx = if right >= cs.x / 2 {
        right - cs.x / 2
    } else {
        0
    };
    let center = Point { x: cx, y: sat_add(offset.y, cs.y / 2) };
    let blue = Color::rgb(0, 0, 255);
    ctx.cmds.push(
        DrawCmd::IsoTri {
            center,
            w: cs.x,
            h: cs.y,
            color: blue,
            fill: true,
            point_up: d.is_open,
        },
    );
}

/// Emit a text box's commands: a white backing rectangle, then the
/// wrapped editor's own commands.
fn textbox_draw(t: &TextBox, offset: &Point, ctx: &mut crate::select::WidgetDrawCtx)
    requires
        old(ctx).draw_ctx.wf(),
        old(ctx).select_state.wf(),
    ensures
        final(ctx).draw_ctx == old(ctx).draw_ctx,
        final(ctx).select_state == old(ctx).select_state,
        final(ctx).widget_idx == old(ctx).widget_idx,
        old(ctx).cmds@.is_prefix_of(final(ctx).cmds@),
        final(ctx).cmds@.len() > old(ctx).cmds@.len(),
        final(ctx).cmds@[old(ctx).cmds@.len() as int] == (DrawCmd::FillRect {
            rect: Rect {
                c1: *offset,
                c2: Point {
                    x: sat_add_spec(offset.x, t.rect.size.x),
                    y: sat_add_spec(offset.y, t.rect.size.y),
                },
            },
            color: Color { r: 255u8, g: 255u8, b: 255u8, a: 255u8 },
            fill: true,
        }),
{
    let area = RotateRect { offset: *offset, size: t.rect.size };
    let white = Color::rgb(255, 255, 255);
    ctx.cmds.push(
        DrawCmd::FillRect {
            rect: Rect {
                c1: *offset,
                c2: Point {
                    x: sat_add(offset.x, t.rect.size.x),
                    y: sat_add(offset.y, t.rect.size.y),
                },
            },
            color: white,
            fill: true,
        },
    );
    let ss: &crate::select::SelectionState = ctx.select_state;
    let entry = ss.get_select_w(ctx.widget_idx);
    match entry {
        Some(e) => match e {
            crate::select::SelectEntry::Text(te) => {
                proof {
                    assert(te.wf());
                }
                if te.len_chars() <= MAX_TEXT {
                    let dctx = ctx.draw_ctx;
                    te.draw(&area, &dctx, &mut ctx.cmds);
                }
            }
            _ => {}
        },
        None => {}
    }
}

impl WidgetS {
    /// Emit this subtree's draw commands top-down: the node's own face
    /// first, then every visible child inside its layout rectangle.
    /// The pre-order position in the context steps once per child.
    pub fn draw(&self, offset: &Point, ctx: &mut crate::select::WidgetDrawCtx)
        requires
            widget_wf(*self),
            old(ctx).draw_ctx.wf(),
            old(ctx).select_state.wf(),
        ensures
            final(ctx).draw_ctx == old(ctx).draw_ctx,
            final(ctx).select_state == old(ctx).select_state,
            old(ctx).cmds@.is_prefix_of(final(ctx).cmds@),
            // Every widget but a plain container emits its own face.
            self.bhv is Container || final(ctx).cmds@.len() > old(ctx).cmds@.len(),
            // A label's face: its background fill (when one applies),
            // then its text run at its measured size.
            self.bhv matches Behavior::Label(l) ==> ({
                let base = old(ctx).cmds@.len() as int;
                let m = label_size_spec(l, old(ctx).draw_ctx.metrics);
                let bg = if l.is_hover && l.hover_color is Some {
                    l.hover_color
                } else {
                    l.bg_color
                };
                let ti: int = base + (if bg is Some {
                    1int
                } else {
                    0int
                });
                &&& ti < final(ctx).cmds@.len()
                &&& (final(ctx).cmds@[ti] matches DrawCmd::Text { chars, params, area } && chars@
                    == l.text@ && params == l.text_params && area == (RotateRect {
                    offset: *offset,
                    size: m,
                }))
                &&& match bg {
                    Some(c) => final(ctx).cmds@[base] == (DrawCmd::FillRect {
                        rect: Rect {
                            c1: *offset,
                            c2: Point {
                                x: sat_add_spec(offset.x, m.x),
                                y: sat_add_spec(offset.y, m.y),
                            },
                        },
                        color: c,
                        fill: true,
                    }),
                    None => true,
                }
            }),
            // A button's face: its border rectangle, then its fill.
            self.bhv matches Behavior::Button(b) ==> ({
                let base = old(ctx).cmds@.len() as int;
                &&& base + 1 < final(ctx).cmds@.len()
                &&& (final(ctx).cmds@[base] matches DrawCmd::FillRect { color, fill, .. } && color
                    == b.border_rect.border.color && fill)
                &&& (final(ctx).cmds@[base + 1] matches DrawCmd::FillRect { color, fill, .. }
                    && color == b.border_rect.fill_color && fill)
            }),
            // A dropdown ends with its indicator triangle, pointing up
            // exactly while open.
            self.bhv matches Behavior::DropDown(d) ==> (final(ctx).cmds@.last() matches
                DrawCmd::IsoTri { point_up, .. } && point_up == d.is_open),
            // A text box starts with its white backing rectangle.
            self.bhv matches Behavior::TextBox(t) ==> final(ctx).cmds@[old(ctx).cmds@.len() as int]
                == (DrawCmd::FillRect {
                rect: Rect {
                    c1: *offset,
                    c2: Point {
                        x: sat_add_spec(offset.x, t.rect.size.x),
                        y: sat_add_spec(offset.y, t.rect.size.y),
                    },
                },
                color: Color { r: 255u8, g: 255u8, b: 255u8, a: 255u8 },
                fill: true,
            }),
        decreases subtree_count(*self),
    {
        match &self.bhv {
            Behavior::Label(l) => {
                label_draw(l, offset, ctx);
            }
            Behavior::Button(b) => {
                button_draw(b, offset, ctx);
            }
            Behavior::TextBox(t) => {
                textbox_draw(t, offset, ctx);
                return ;
            }
            _ => {}
        }
        let ghost mid = ctx.cmds@;
        let n = self.props.children.len();
        let rc = self.props.layout.rect_count();
        let k = if n <= rc {
            n
        } else {
            rc
        };
        let mut i: usize = 0;
        while i < k
            invariant
                0 <= i <= k,
                k <= n,
                n == self.props.children@.len(),
                k <= self.props.layout.rects_spec().len(),
                widget_wf(*self),
                ctx.draw_ctx == old(ctx).draw_ctx,
                ctx.select_state == old(ctx).select_state,
                old(ctx).cmds@.is_prefix_of(ctx.cmds@),
                mid.is_prefix_of(ctx.cmds@),
                ctx.draw_ctx.wf(),
                ctx.select_state.wf(),
            decreases k - i,
        {
            ctx.next_widget_ctx();
            let vis = matches!(self.props.children[i].props.visible, Visibility::Visible);
            if vis {
                let r = self.props.layout.rect_at(i);
                let off2 = Point { x: sat_add(offset.x, r.c1.x), y: sat_add(offset.y, r.c1.y) };
                proof {
                    lemma_child_smaller(*self, i as int);
                    lemma_children_wf(*self, i as int);
                }
                self.props.children[i].draw(&off2, ctx);
            }
            i = i + 1;
        }
        proof {
            assert(ctx.cmds@.take(mid.len() as int) =~= mid);
        }
        match &self.bhv {
            Behavior::DropDown(d) => {
                dropdown_triangle(d, offset, self.props.children_size, ctx);
            }
            _ => {}
        }
        proof {
            assert(ctx.cmds@.take(mid.len() as int) =~= mid);
        }
    }
}



} // verus!
