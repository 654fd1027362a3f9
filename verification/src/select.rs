//! Selection state: the depth-first flattening of every focusable
//! sub-state in the widget tree, the tab-order traversal over it, and the
//! index arithmetic that correlates a tree position with its entry.

use vstd::prelude::*;
use crate::draw::{DrawCmd, DrawCtx};
use crate::metrics::MAX_TEXT;
use crate::status::{CursorStyle, Effect, EventCtx, EventResponse, EventResult, Key, WidgetStatus};
use crate::metrics::TextMetrics;
use crate::textedit::{
    delete_result, insert_result, move_result, TextCursorDirection, TextEdit,
};
use crate::widgets::{
    lemma_child_smaller, subtree_count, subtree_count_seq, widget_wf, Behavior, WidgetS,
};

verus! {

/// The focusable sub-state of a dropdown: its chosen option index and
/// the option count.
#[derive(Clone, Copy, Debug, PartialEq, Eq, Structural)]
pub struct DropDownSelect {
    pub selected: usize,
    pub max_value: usize,
}

impl DropDownSelect {
    /// The chosen index stays within the options.
    pub open spec fn wf(self) -> bool {
        self.selected < self.max_value || self.max_value == 0
    }

    pub fn new(selected: usize, max_value: usize) -> (d: DropDownSelect)
        ensures
            d.selected == selected,
            d.max_value == max_value,
    {
        DropDownSelect { selected, max_value }
    }

    /// Up and down move the chosen index one step, staying within
    /// `[0, max_value - 1]`; each handled step asks for a redraw.
    pub fn handle_key_down(&mut self, kc: &Key, ctx: &mut EventCtx) -> (r: Option<EventResponse>)
        requires
            old(self).wf(),
        ensures
            final(self).wf(),
            final(self).max_value == old(self).max_value,
            final(ctx).draw_ctx == old(ctx).draw_ctx,
            final(ctx).res.callbacks@ == old(ctx).res.callbacks@,
            final(ctx).res.cursor == old(ctx).res.cursor,
            match *kc {
                Key::Down => if old(self).selected + 1 < old(self).max_value {
                    final(self).selected == old(self).selected + 1 && r == Some(
                        EventResponse::Handled,
                    ) && final(ctx).res.status == old(ctx).res.status.or_spec(
                        WidgetStatus { bits: 1u32 },
                    )
                } else {
                    final(self).selected == old(self).selected && r is None && final(ctx).res
                        == old(ctx).res
                },
                Key::Up => if old(self).selected > 0 {
                    final(self).selected == old(self).selected - 1 && r == Some(
                        EventResponse::Handled,
                    ) && final(ctx).res.status == old(ctx).res.status.or_spec(
                        WidgetStatus { bits: 1u32 },
                    )
                } else {
                    final(self).selected == old(self).selected && r is None && final(ctx).res
                        == old(ctx).res
                },
                _ => final(self).selected == old(self).selected && r is None && final(ctx).res
                    == old(ctx).res,
            },
    {
        match *kc {
            Key::Down => {
                if self.max_value > 0 && self.selected < self.max_value - 1 {
                    self.selected = self.selected + 1;
                    ctx.set_redraw();
                    Some(EventResponse::Handled)
                } else {
                    None
                }
            }
            Key::Up => {
                if self.selected > 0 {
                    self.selected = self.selected - 1;
                    ctx.set_redraw();
                    Some(EventResponse::Handled)
                } else {
                    None
                }
            }
            _ => None,
        }
    }
}


/// What one key does to a focusable entry, and what it answers: a
/// dropdown steps its chosen index within the options on Up and Down; a
/// text editor inserts, deletes, or moves exactly as its own operation
/// results state, refusing insertion at its capacity limit; anything
/// else is left unhandled and unchanged.
pub open spec fn entry_key_rel(
    e0: SelectEntry,
    e1: SelectEntry,
    r: Option<EventResponse>,
    k: Key,
    m: TextMetrics,
) -> bool {
    match (e0, e1) {
        (SelectEntry::DropDown(d0), SelectEntry::DropDown(d1)) => {
            &&& d1.max_value == d0.max_value
            &&& match k {
                Key::Down => if d0.selected + 1 < d0.max_value {
                    d1.selected == d0.selected + 1 && r == Some(EventResponse::Handled)
                } else {
                    d1 == d0 && r is None
                },
                Key::Up => if d0.selected > 0 {
                    d1.selected == d0.selected - 1 && r == Some(EventResponse::Handled)
                } else {
                    d1 == d0 && r is None
                },
                _ => d1 == d0 && r is None,
            }
        },
        (SelectEntry::Text(t0), SelectEntry::Text(t1)) => {
            &&& t1.box_size() == t0.box_size()
            &&& t1.scale_spec() == t0.scale_spec()
            &&& t1.is_selected() == t0.is_selected()
            &&& if t0.content().len() <= MAX_TEXT - 2 {
                match k {
                    Key::Char(ch) => (t1.content(), t1.cursor_spec()) == insert_result(
                        t0.content(),
                        t0.cursor_spec(),
                        ch,
                        m,
                        t0.scale_spec(),
                        t0.box_size(),
                    ) && r == Some(EventResponse::Handled),
                    Key::Backspace => (t1.content(), t1.cursor_spec()) == delete_result(
                        t0.content(),
                        t0.cursor_spec(),
                        m,
                        t0.scale_spec(),
                        t0.box_size(),
                    ) && r == Some(EventResponse::Handled),
                    Key::Left => t1.content() == t0.content() && t1.cursor_spec() == move_result(
                        t0.content(),
                        t0.cursor_spec(),
                        TextCursorDirection::Left,
                    ) && r == Some(EventResponse::Handled),
                    Key::Right => t1.content() == t0.content() && t1.cursor_spec() == move_result(
                        t0.content(),
                        t0.cursor_spec(),
                        TextCursorDirection::Right,
                    ) && r == Some(EventResponse::Handled),
                    Key::Up => t1.content() == t0.content() && t1.cursor_spec() == move_result(
                        t0.content(),
                        t0.cursor_spec(),
                        TextCursorDirection::Up,
                    ) && r == Some(EventResponse::Handled),
                    Key::Down => t1.content() == t0.content() && t1.cursor_spec() == move_result(
                        t0.content(),
                        t0.cursor_spec(),
                        TextCursorDirection::Down,
                    ) && r == Some(EventResponse::Handled),
                    _ => t1.content() == t0.content() && t1.cursor_spec() == t0.cursor_spec() && r
                        is None,
                }
            } else {
                t1.content() == t0.content() && t1.cursor_spec() == t0.cursor_spec() && r is None
            }
        },
        _ => false,
    }
}

/// One focusable sub-state: a dropdown's chosen index or a text box's
/// editor.
pub enum SelectEntry {
    DropDown(DropDownSelect),
    Text(TextEdit),
}

impl SelectEntry {
    pub open spec fn wf(self) -> bool {
        match self {
            SelectEntry::DropDown(d) => d.wf(),
            SelectEntry::Text(t) => t.wf(),
        }
    }

    /// Whether the entry is a focused text editor.
    pub open spec fn text_focused(self) -> bool {
        match self {
            SelectEntry::Text(t) => t.is_selected(),
            SelectEntry::DropDown(_) => false,
        }
    }

    /// Focus-gained hook: a text editor notes its selection; a dropdown
    /// entry has nothing to do.
    pub fn on_select(&mut self, ctx: &mut EventCtx) -> (r: Option<EventResponse>)
        requires
            old(self).wf(),
        ensures
            final(self).wf(),
            *old(self) is Text ==> final(self).text_focused(),
            *old(self) is DropDown ==> *final(self) == *old(self),
            final(ctx).draw_ctx == old(ctx).draw_ctx,
            final(ctx).res.callbacks@ == old(ctx).res.callbacks@,
            final(ctx).res.status == old(ctx).res.status || final(ctx).res.status == old(
                ctx,
            ).res.status.or_spec(WidgetStatus { bits: 1u32 }),
    {
        match self {
            SelectEntry::DropDown(_) => None,
            SelectEntry::Text(t) => t.on_select(ctx),
        }
    }

    /// Focus-lost hook: a text editor forgets its selection; a dropdown
    /// entry has nothing to do.
    pub fn on_deselect(&mut self, ctx: &mut EventCtx) -> (r: Option<EventResponse>)
        requires
            old(self).wf(),
        ensures
            final(self).wf(),
            !final(self).text_focused(),
            *old(self) is DropDown ==> *final(self) == *old(self),
            final(ctx).draw_ctx == old(ctx).draw_ctx,
            final(ctx).res.callbacks@ == old(ctx).res.callbacks@,
            final(ctx).res.status == old(ctx).res.status || final(ctx).res.status == old(
                ctx,
            ).res.status.or_spec(WidgetStatus { bits: 1u32 }),
    {
        match self {
            SelectEntry::DropDown(_) => None,
            SelectEntry::Text(t) => t.on_deselect(ctx),
        }
    }

    /// Key hook: a dropdown moves its chosen index, a text editor edits
    /// its content.  A text editor at its capacity limit refuses further
    /// insertion silently.
    pub fn handle_key_down(&mut self, kc: &Key, ctx: &mut EventCtx) -> (r: Option<EventResponse>)
        requires
            old(self).wf(),
            old(ctx).draw_ctx.wf(),
        ensures
            final(self).wf(),
            final(ctx).draw_ctx == old(ctx).draw_ctx,
            final(ctx).res.callbacks@ == old(ctx).res.callbacks@,
            final(ctx).res.status == old(ctx).res.status || final(ctx).res.status == old(
                ctx,
            ).res.status.or_spec(WidgetStatus { bits: 1u32 }),
            entry_key_rel(*old(self), *final(self), r, *kc, old(ctx).draw_ctx.metrics),
    {
        match self {
            SelectEntry::DropDown(d) => d.handle_key_down(kc, ctx),
            SelectEntry::Text(t) => {
                if t.len_chars() <= MAX_TEXT - 2 {
                    t.handle_key_down(kc, ctx)
                } else {
                    None
                }
            }
        }
    }
}


/// Whether a widget node exposes a focusable sub-state: dropdowns and
/// text boxes do, nothing else does.
pub open spec fn has_entry(w: WidgetS) -> bool {
    w.bhv is DropDown || w.bhv is TextBox
}

/// Whether a selection entry is the one a widget node exposes at
/// flattening time: a dropdown's chosen index and option count, or a
/// fresh editor over a text box's initial text and pixel box.
pub open spec fn entry_matches(e: SelectEntry, w: WidgetS) -> bool {
    match (e, w.bhv) {
        (SelectEntry::DropDown(d), Behavior::DropDown(b)) => d.selected == b.selected
            && d.max_value == b.n_items,
        (SelectEntry::Text(t), Behavior::TextBox(tb)) => t.content() == tb.default_text@
            && t.cursor_spec() == 0 && t.box_size() == tb.rect.size && t.scale_spec() == 1 && !t.is_selected(),
        _ => false,
    }
}

/// How many focusable sub-states a widget's subtree exposes.
pub open spec fn entry_count(w: WidgetS) -> nat
    decreases w, 0int,
{
    (if has_entry(w) {
        1nat
    } else {
        0nat
    }) + entry_count_seq(w.props.children@, w.props.children@.len() as int)
}

/// How many focusable sub-states the first `k` widgets' subtrees
/// expose.
pub open spec fn entry_count_seq(s: Seq<WidgetS>, k: int) -> nat
    decreases s, k,
{
    if k <= 0 || k > s.len() {
        0
    } else {
        entry_count_seq(s, k - 1) + entry_count(s[k - 1])
    }
}

/// The depth-first pre-order flattening invariant of spec 4.3: the
/// subtree rooted at `w` occupies flattened positions from `n` on and
/// entry ranks from `e` on.  Its own position maps to rank `e` exactly
/// when the node is focusable (its entry matching the node), and each
/// child's subtree follows at the position past its earlier siblings'
/// subtrees, with the ranks they consumed.
pub open spec fn flattens(
    wi: Seq<Option<usize>>,
    es: Seq<SelectEntry>,
    w: WidgetS,
    n: int,
    e: int,
) -> bool
    decreases w, 1int,
{
    &&& 0 <= n < wi.len()
    &&& wi[n] == (if has_entry(w) {
        Some(e as usize)
    } else {
        None::<usize>
    })
    &&& (has_entry(w) ==> 0 <= e < es.len() && entry_matches(es[e], w))
    &&& flattens_kids(
        wi,
        es,
        w.props.children@,
        w.props.children@.len() as int,
        n,
        e + if has_entry(w) {
            1int
        } else {
            0int
        },
    )
}

/// The first `k` children of a node at position `n` flatten in order:
/// child `j` starts at `n + 1` plus its earlier siblings' subtree
/// sizes, and at rank `e` plus the entries they exposed.
pub open spec fn flattens_kids(
    wi: Seq<Option<usize>>,
    es: Seq<SelectEntry>,
    s: Seq<WidgetS>,
    k: int,
    n: int,
    e: int,
) -> bool
    decreases s, k,
{
    if k <= 0 || k > s.len() {
        true
    } else {
        &&& flattens_kids(wi, es, s, k - 1, n, e)
        &&& flattens(
            wi,
            es,
            s[k - 1],
            n + 1 + subtree_count_seq(s, k - 1) as int,
            e + entry_count_seq(s, k - 1) as int,
        )
    }
}

/// Flattening facts survive appending to either table.
proof fn lemma_flattens_grow(
    wi1: Seq<Option<usize>>,
    es1: Seq<SelectEntry>,
    wi2: Seq<Option<usize>>,
    es2: Seq<SelectEntry>,
    w: WidgetS,
    n: int,
    e: int,
)
    requires
        flattens(wi1, es1, w, n, e),
        wi1.is_prefix_of(wi2),
        es1.is_prefix_of(es2),
    ensures
        flattens(wi2, es2, w, n, e),
    decreases w, 1int,
{
    assert(wi2[n] == wi1[n]) by {
        assert(wi2.take(wi1.len() as int) =~= wi1);
    }
    if has_entry(w) {
        assert(es2[e] == es1[e]) by {
            assert(es2.take(es1.len() as int) =~= es1);
        }
    }
    lemma_flattens_kids_grow(
        wi1,
        es1,
        wi2,
        es2,
        w.props.children@,
        w.props.children@.len() as int,
        n,
        e + if has_entry(w) {
            1int
        } else {
            0int
        },
    );
}

/// Flattening facts about a child prefix survive appending too.
proof fn lemma_flattens_kids_grow(
    wi1: Seq<Option<usize>>,
    es1: Seq<SelectEntry>,
    wi2: Seq<Option<usize>>,
    es2: Seq<SelectEntry>,
    s: Seq<WidgetS>,
    k: int,
    n: int,
    e: int,
)
    requires
        flattens_kids(wi1, es1, s, k, n, e),
        wi1.is_prefix_of(wi2),
        es1.is_prefix_of(es2),
    ensures
        flattens_kids(wi2, es2, s, k, n, e),
    decreases s, k,
{
    if 0 < k <= s.len() {
        lemma_flattens_kids_grow(wi1, es1, wi2, es2, s, k - 1, n, e);
        lemma_flattens_grow(
            wi1,
            es1,
            wi2,
            es2,
            s[k - 1],
            n + 1 + subtree_count_seq(s, k - 1) as int,
            e + entry_count_seq(s, k - 1) as int,
        );
    }
}

/// The subtree-size table invariant of spec 4.3: row `n` lists, for the
/// node at flattened position `n`, each direct child's subtree size in
/// child order (clamped at the machine's index limit), and the
/// children's own rows follow at their pre-order positions.
pub open spec fn sizes_table(tab: Seq<Vec<usize>>, w: WidgetS, n: int) -> bool
    decreases w, 1int,
{
    &&& 0 <= n < tab.len()
    &&& tab[n]@.len() == w.props.children@.len()
    &&& (forall|j: int|
        0 <= j < w.props.children@.len() ==> #[trigger] tab[n]@[j] as int == (if subtree_count(
            w.props.children@[j],
        ) <= usize::MAX {
            subtree_count(w.props.children@[j]) as int
        } else {
            usize::MAX as int
        }))
    &&& sizes_table_kids(tab, w.props.children@, w.props.children@.len() as int, n)
}

/// The table rows of the first `k` children of the node at position
/// `n`.
pub open spec fn sizes_table_kids(tab: Seq<Vec<usize>>, s: Seq<WidgetS>, k: int, n: int) -> bool
    decreases s, k,
{
    if k <= 0 || k > s.len() {
        true
    } else {
        &&& sizes_table_kids(tab, s, k - 1, n)
        &&& sizes_table(tab, s[k - 1], n + 1 + subtree_count_seq(s, k - 1) as int)
    }
}

/// Table facts about a child prefix survive replacing a row strictly
/// before every child position.
proof fn lemma_sizes_table_kids_update_head(
    tab1: Seq<Vec<usize>>,
    tab2: Seq<Vec<usize>>,
    s: Seq<WidgetS>,
    k: int,
    n: int,
)
    requires
        sizes_table_kids(tab1, s, k, n),
        tab2.len() == tab1.len(),
        forall|p: int| 0 <= p < tab1.len() && p != n ==> #[trigger] tab2[p] == tab1[p],
    ensures
        sizes_table_kids(tab2, s, k, n),
    decreases s, k,
{
    if 0 < k <= s.len() {
        lemma_sizes_table_kids_update_head(tab1, tab2, s, k - 1, n);
        lemma_sizes_table_same_except(
            tab1,
            tab2,
            s[k - 1],
            n + 1 + subtree_count_seq(s, k - 1) as int,
            n,
        );
    }
}

/// Table facts about a subtree at one position survive changing a row
/// at a position strictly before it.
proof fn lemma_sizes_table_same_except(
    tab1: Seq<Vec<usize>>,
    tab2: Seq<Vec<usize>>,
    w: WidgetS,
    n: int,
    changed: int,
)
    requires
        sizes_table(tab1, w, n),
        tab2.len() == tab1.len(),
        changed < n,
        forall|p: int| 0 <= p < tab1.len() && p != changed ==> #[trigger] tab2[p] == tab1[p],
    ensures
        sizes_table(tab2, w, n),
    decreases w, 1int,
{
    lemma_sizes_table_except_kids(
        tab1,
        tab2,
        w.props.children@,
        w.props.children@.len() as int,
        n,
        changed,
    );
}

/// The child-row facts survive the same change.
proof fn lemma_sizes_table_except_kids(
    tab1: Seq<Vec<usize>>,
    tab2: Seq<Vec<usize>>,
    s: Seq<WidgetS>,
    k: int,
    n: int,
    changed: int,
)
    requires
        sizes_table_kids(tab1, s, k, n),
        tab2.len() == tab1.len(),
        changed <= n,
        forall|p: int| 0 <= p < tab1.len() && p != changed ==> #[trigger] tab2[p] == tab1[p],
    ensures
        sizes_table_kids(tab2, s, k, n),
    decreases s, k,
{
    if 0 < k <= s.len() {
        lemma_sizes_table_except_kids(tab1, tab2, s, k - 1, n, changed);
        lemma_sizes_table_same_except(
            tab1,
            tab2,
            s[k - 1],
            n + 1 + subtree_count_seq(s, k - 1) as int,
            changed,
        );
    }
}

/// Table facts survive appending rows.
proof fn lemma_sizes_table_grow(tab1: Seq<Vec<usize>>, tab2: Seq<Vec<usize>>, w: WidgetS, n: int)
    requires
        sizes_table(tab1, w, n),
        tab1.is_prefix_of(tab2),
    ensures
        sizes_table(tab2, w, n),
    decreases w, 1int,
{
    assert(tab2[n] == tab1[n]) by {
        assert(tab2.take(tab1.len() as int) =~= tab1);
    }
    lemma_sizes_table_kids_grow(
        tab1,
        tab2,
        w.props.children@,
        w.props.children@.len() as int,
        n,
    );
}

/// Table facts about a child prefix survive appending rows too.
proof fn lemma_sizes_table_kids_grow(
    tab1: Seq<Vec<usize>>,
    tab2: Seq<Vec<usize>>,
    s: Seq<WidgetS>,
    k: int,
    n: int,
)
    requires
        sizes_table_kids(tab1, s, k, n),
        tab1.is_prefix_of(tab2),
    ensures
        sizes_table_kids(tab2, s, k, n),
    decreases s, k,
{
    if 0 < k <= s.len() {
        lemma_sizes_table_kids_grow(tab1, tab2, s, k - 1, n);
        lemma_sizes_table_grow(tab1, tab2, s[k - 1], n + 1 + subtree_count_seq(s, k - 1) as int);
    }
}

/// Folding the redraw bit in twice is the same as once.
proof fn lemma_or1_idem(a: u32)
    ensures
        (a | 1u32) | 1u32 == a | 1u32,
{
    assert((a | 1u32) | 1u32 == a | 1u32) by (bit_vector);
}

/// Prefix-of is transitive.
proof fn lemma_prefix_trans<T>(a: Seq<T>, b: Seq<T>, c: Seq<T>)
    requires
        a.is_prefix_of(b),
        b.is_prefix_of(c),
    ensures
        a.is_prefix_of(c),
{
    assert(c.take(a.len() as int) =~= b.take(a.len() as int));
}

/// The flattened selection entries plus, per tree node, the index of its
/// entry (none for nodes with no focusable state).
pub struct SelectionList {
    pub vec: Vec<SelectEntry>,
    pub widget_idx: Vec<Option<usize>>,
}

/// A tree position: a node's index in the depth-first pre-order
/// flattening of the widget tree.
#[derive(Clone, Copy, Debug, PartialEq, Eq, Structural)]
pub struct WidgetIdx(pub usize);

/// The saturating sum of the first `k` recorded subtree sizes of a
/// table row.
pub open spec fn row_sum_sat(row: Seq<usize>, k: int) -> usize
    decreases k,
{
    if k <= 0 || k > row.len() {
        0usize
    } else {
        crate::widgets::sat_add_usize_spec(row_sum_sat(row, k - 1), row[k - 1])
    }
}

/// The selection state: the flattened entries, the currently focused
/// entry, and the per-node child-subtree-size table used to map tree
/// walks to flattened positions.
pub struct SelectionState {
    pub list: SelectionList,
    pub cur_select: Option<usize>,
    pub child_sizes: Vec<Vec<usize>>,
}

impl SelectionState {
    /// Entry references stay inside the entry list, the focused index is
    /// an entry, and every entry keeps its own invariant.
    pub open spec fn wf(self) -> bool {
        &&& forall|k: int|
            0 <= k < self.list.widget_idx@.len() ==> match #[trigger] self.list.widget_idx@[k] {
                Some(i) => i < self.list.vec@.len(),
                None => true,
            }
        &&& match self.cur_select {
            Some(i) => i < self.list.vec@.len(),
            None => true,
        }
        &&& forall|k: int|
            0 <= k < self.list.vec@.len() ==> (#[trigger] self.list.vec@[k]).wf()
    }

    /// Whether anything is focused.
    pub fn is_select(&self) -> (r: bool)
        ensures
            r == (self.cur_select is Some),
    {
        self.cur_select.is_some()
    }

    /// The entry at a flattened index.
    pub fn get(&self, idx: usize) -> (r: &SelectEntry)
        requires
            idx < self.list.vec@.len(),
        ensures
            *r == self.list.vec@[idx as int],
    {
        &self.list.vec[idx]
    }

    /// The entry index of a tree position, if that node is focusable.
    pub fn select_idx(&self, widx: WidgetIdx) -> (r: Option<usize>)
        ensures
            r == if widx.0 < self.list.widget_idx@.len() {
                self.list.widget_idx@[widx.0 as int]
            } else {
                None
            },
    {
        if widx.0 < self.list.widget_idx.len() {
            self.list.widget_idx[widx.0]
        } else {
            None
        }
    }

    /// Whether the node at a tree position holds the focus.
    pub fn is_select_w(&self, widx: WidgetIdx) -> (r: bool)
        ensures
            r == (self.cur_select is Some && self.cur_select == if widx.0
                < self.list.widget_idx@.len() {
                self.list.widget_idx@[widx.0 as int]
            } else {
                None
            }),
    {
        match (self.select_idx(widx), self.cur_select) {
            (Some(a), Some(b)) => a == b,
            _ => false,
        }
    }

    /// The entry of a tree position, if that node is focusable.
    pub fn get_select_w(&self, widx: WidgetIdx) -> (r: Option<&SelectEntry>)
        requires
            self.wf(),
        ensures
            match r {
                Some(e) => widx.0 < self.list.widget_idx@.len() && (self.list.widget_idx@[widx.0 as int] matches Some(i) && *e == self.list.vec@[i as int]),
                None => widx.0 >= self.list.widget_idx@.len() || self.list.widget_idx@[widx.0 as int]
                    is None,
            },
    {
        if widx.0 < self.list.widget_idx.len() {
            match self.list.widget_idx[widx.0] {
                Some(i) => Some(&self.list.vec[i]),
                None => None,
            }
        } else {
            None
        }
    }

    /// The mutable entry at a flattened index.
    pub fn get_mut(&mut self, idx: usize) -> (r: &mut SelectEntry)
        requires
            idx < old(self).list.vec@.len(),
        ensures
            *r == old(self).list.vec@[idx as int],
            final(self).list.vec@ == old(self).list.vec@.update(idx as int, *final(r)),
            final(self).list.widget_idx == old(self).list.widget_idx,
            final(self).cur_select == old(self).cur_select,
            final(self).child_sizes == old(self).child_sizes,
    {
        &mut self.list.vec[idx]
    }

    /// The flattened tree index of a node's child: the parent's index,
    /// plus one, plus the subtree sizes of all earlier siblings
    /// (saturating at the machine's index limit), exactly as the
    /// subtree-size table records them.  An index outside the table is
    /// handed back unchanged.
    pub fn child_widget_idx(&self, parent_idx: WidgetIdx, child_pos: usize) -> (r: WidgetIdx)
        ensures
            r.0 == if parent_idx.0 < self.child_sizes@.len() {
                let row = self.child_sizes@[parent_idx.0 as int]@;
                let upto = if child_pos <= row.len() {
                    child_pos as int
                } else {
                    row.len() as int
                };
                crate::widgets::sat_add_usize_spec(
                    crate::widgets::sat_add_usize_spec(parent_idx.0, row_sum_sat(row, upto)),
                    1,
                ) as int
            } else {
                parent_idx.0 as int
            },
    {
        let mut sz: usize = 0;
        if parent_idx.0 >= self.child_sizes.len() {
            return WidgetIdx(parent_idx.0);
        }
        let row = &self.child_sizes[parent_idx.0];
        let n = row.len();
        let upto = if child_pos <= n {
            child_pos
        } else {
            n
        };
        let mut i: usize = 0;
        while i < upto
            invariant
                0 <= i <= upto,
                upto <= row@.len(),
                sz == row_sum_sat(row@, i as int),
            decreases upto - i,
        {
            sz = crate::widgets::sat_add_usize(sz, row[i]);
            i = i + 1;
        }
        WidgetIdx(crate::widgets::sat_add_usize(crate::widgets::sat_add_usize(parent_idx.0, sz), 1))
    }

    /// Focus an entry (or nothing): the previous entry's deselect hook
    /// runs first, then the new entry's select hook.
    pub fn set_select(&mut self, idx: Option<usize>, ctx: &mut EventCtx)
        requires
            old(self).wf(),
            old(ctx).draw_ctx.wf(),
            match idx {
                Some(i) => i < old(self).list.vec@.len(),
                None => true,
            },
        ensures
            final(self).wf(),
            final(self).cur_select == idx,
            final(self).list.vec@.len() == old(self).list.vec@.len(),
            final(self).list.widget_idx == old(self).list.widget_idx,
            final(self).child_sizes == old(self).child_sizes,
            final(ctx).draw_ctx == old(ctx).draw_ctx,
            final(ctx).res.callbacks@ == old(ctx).res.callbacks@,
            final(ctx).res.status == old(ctx).res.status || final(ctx).res.status == old(
                ctx,
            ).res.status.or_spec(WidgetStatus { bits: 1u32 }),
            // The old entry's deselect hook runs before the new entry's
            // select hook: the newly focused entry ends focused even
            // when it is the one just defocused.
            match idx {
                Some(i) => final(self).list.vec@[i as int] is Text ==> final(self).list.vec@[
                    i as int
                ].text_focused(),
                None => true,
            },
            match old(self).cur_select {
                Some(p) => (idx is None || idx != Some(p)) ==> !(final(self).list.vec@[
                    p as int
                ].text_focused()),
                None => true,
            },
    {
        if let Some(prev) = self.cur_select {
            let e = self.get_mut(prev);
            e.on_deselect(ctx);
        }
        self.cur_select = idx;
        if let Some(cur) = idx {
            let e = self.get_mut(cur);
            e.on_select(ctx);
        }
        proof {
            lemma_or1_idem(old(ctx).res.status.bits);
        }
    }

    /// Advance the focus to the next entry; at the last entry this is a
    /// no-op.  The old entry is deselected before the new one is
    /// selected.
    pub fn select_next(&mut self, ctx: &mut EventCtx) -> (r: Option<EventResponse>)
        requires
            old(self).wf(),
            old(ctx).draw_ctx.wf(),
        ensures
            final(self).wf(),
            final(self).list.vec@.len() == old(self).list.vec@.len(),
            final(self).list.widget_idx == old(self).list.widget_idx,
            final(self).child_sizes == old(self).child_sizes,
            final(ctx).draw_ctx == old(ctx).draw_ctx,
            final(ctx).res.callbacks@ == old(ctx).res.callbacks@,
            final(ctx).res.status == old(ctx).res.status || final(ctx).res.status == old(
                ctx,
            ).res.status.or_spec(WidgetStatus { bits: 1u32 }),
            match old(self).cur_select {
                Some(i) => if i + 1 < old(self).list.vec@.len() {
                    final(self).cur_select == Some((i + 1) as usize) && !(final(self).list.vec@[
                        i as int
                    ].text_focused()) && (final(self).list.vec@[i + 1] is Text ==> final(self).list.vec@[
                        i + 1
                    ].text_focused()) && r == Some(EventResponse::Handled)
                } else {
                    final(self).cur_select == old(self).cur_select && final(self).list.vec@ == old(
                        self,
                    ).list.vec@ && r is None && *final(ctx) == *old(ctx)
                },
                None => final(self).cur_select == old(self).cur_select && final(self).list.vec@
                    == old(self).list.vec@ && r is None && *final(ctx) == *old(ctx),
            },
    {
        if let Some(i) = self.cur_select {
            let n = self.list.vec.len();
            if i < n && i < n - 1 {
                self.set_select(Some(i + 1), ctx);
                return Some(EventResponse::Handled);
            }
        }
        None
    }

    /// Step the focus back to the previous entry; at the first entry
    /// this is a no-op.  The old entry is deselected before the new one
    /// is selected.
    pub fn select_prev(&mut self, ctx: &mut EventCtx) -> (r: Option<EventResponse>)
        requires
            old(self).wf(),
            old(ctx).draw_ctx.wf(),
        ensures
            final(self).wf(),
            final(self).list.vec@.len() == old(self).list.vec@.len(),
            final(self).list.widget_idx == old(self).list.widget_idx,
            final(self).child_sizes == old(self).child_sizes,
            final(ctx).draw_ctx == old(ctx).draw_ctx,
            final(ctx).res.callbacks@ == old(ctx).res.callbacks@,
            final(ctx).res.status == old(ctx).res.status || final(ctx).res.status == old(
                ctx,
            ).res.status.or_spec(WidgetStatus { bits: 1u32 }),
            match old(self).cur_select {
                Some(i) => if i > 0 {
                    final(self).cur_select == Some((i - 1) as usize) && !(final(self).list.vec@[
                        i as int
                    ].text_focused()) && (final(self).list.vec@[i - 1] is Text ==> final(self).list.vec@[
                        i - 1
                    ].text_focused()) && r == Some(EventResponse::Handled)
                } else {
                    final(self).cur_select == old(self).cur_select && final(self).list.vec@ == old(
                        self,
                    ).list.vec@ && r is None && *final(ctx) == *old(ctx)
                },
                None => final(self).cur_select == old(self).cur_select && final(self).list.vec@
                    == old(self).list.vec@ && r is None && *final(ctx) == *old(ctx),
            },
    {
        if let Some(i) = self.cur_select {
            if i > 0 {
                self.set_select(Some(i - 1), ctx);
                return Some(EventResponse::Handled);
            }
        }
        None
    }

    /// Route a key to the focused entry, if any: that entry alone
    /// changes, exactly as its own key relation states; with nothing
    /// focused the key is left unhandled.
    pub fn handle_key_down(&mut self, kc: &Key, ctx: &mut EventCtx) -> (r: Option<EventResponse>)
        requires
            old(self).wf(),
            old(ctx).draw_ctx.wf(),
        ensures
            final(self).wf(),
            final(self).cur_select == old(self).cur_select,
            final(self).list.vec@.len() == old(self).list.vec@.len(),
            final(self).list.widget_idx == old(self).list.widget_idx,
            final(self).child_sizes == old(self).child_sizes,
            final(ctx).draw_ctx == old(ctx).draw_ctx,
            final(ctx).res.callbacks@ == old(ctx).res.callbacks@,
            final(ctx).res.status == old(ctx).res.status || final(ctx).res.status == old(
                ctx,
            ).res.status.or_spec(WidgetStatus { bits: 1u32 }),
            match old(self).cur_select {
                Some(i) => (forall|j: int|
                    0 <= j < final(self).list.vec@.len() && j != i
                        ==> #[trigger] final(self).list.vec@[j] == old(self).list.vec@[j])
                    && entry_key_rel(
                    old(self).list.vec@[i as int],
                    final(self).list.vec@[i as int],
                    r,
                    *kc,
                    old(ctx).draw_ctx.metrics,
                ),
                None => final(self).list.vec@ == old(self).list.vec@ && r is None && final(ctx).res == old(ctx).res,
            },
    {
        if let Some(i) = self.cur_select {
            let e = self.get_mut(i);
            e.handle_key_down(kc, ctx)
        } else {
            None
        }
    }

    /// Flatten a widget subtree: push the node's focusable entry (if
    /// any), then every child's, depth first.  The tables gain exactly
    /// the subtree's nodes and entries, in pre-order, as `flattens`
    /// states.
    fn recurse_build(
        cur: &WidgetS,
        v: &mut Vec<SelectEntry>,
        widget_idx: &mut Vec<Option<usize>>,
    )
        requires
            widget_wf(*cur),
            forall|k: int|
                0 <= k < old(widget_idx)@.len() ==> match #[trigger] old(widget_idx)@[k] {
                    Some(i) => i < old(v)@.len(),
                    None => true,
                },
            forall|k: int| 0 <= k < old(v)@.len() ==> (#[trigger] old(v)@[k]).wf(),
        ensures
            final(widget_idx)@.len() == old(widget_idx)@.len() + subtree_count(*cur),
            final(v)@.len() == old(v)@.len() + entry_count(*cur),
            old(widget_idx)@.is_prefix_of(final(widget_idx)@),
            old(v)@.is_prefix_of(final(v)@),
            flattens(
                final(widget_idx)@,
                final(v)@,
                *cur,
                old(widget_idx)@.len() as int,
                old(v)@.len() as int,
            ),
            forall|k: int|
                0 <= k < final(widget_idx)@.len() ==> match #[trigger] final(widget_idx)@[k] {
                    Some(i) => i < final(v)@.len(),
                    None => true,
                },
            forall|k: int| 0 <= k < final(v)@.len() ==> (#[trigger] final(v)@[k]).wf(),
        decreases subtree_count(*cur),
    {
        let ghost base_n = widget_idx@.len() as int;
        let ghost base_e = v@.len() as int;
        let entry = crate::widgets::selection_of(cur);
        match entry {
            Some(e) => {
                widget_idx.push(Some(v.len()));
                v.push(e);
            }
            None => {
                widget_idx.push(None);
            }
        }
        let ghost eh: int = if has_entry(*cur) {
            1int
        } else {
            0int
        };
        let n = cur.props.children.len();
        let mut i: usize = 0;
        while i < n
            invariant
                0 <= i <= n,
                n == cur.props.children@.len(),
                widget_wf(*cur),
                eh == (if has_entry(*cur) {
                    1int
                } else {
                    0int
                }),
                base_n == old(widget_idx)@.len(),
                base_e == old(v)@.len(),
                widget_idx@.len() == base_n + 1 + subtree_count_seq(
                    cur.props.children@,
                    i as int,
                ),
                v@.len() == base_e + eh + entry_count_seq(cur.props.children@, i as int),
                old(widget_idx)@.is_prefix_of(widget_idx@),
                old(v)@.is_prefix_of(v@),
                widget_idx@[base_n] == (if has_entry(*cur) {
                    Some(base_e as usize)
                } else {
                    None::<usize>
                }),
                has_entry(*cur) ==> base_e < v@.len() && entry_matches(v@[base_e], *cur),
                flattens_kids(
                    widget_idx@,
                    v@,
                    cur.props.children@,
                    i as int,
                    base_n,
                    base_e + eh,
                ),
                forall|k: int|
                    0 <= k < widget_idx@.len() ==> match #[trigger] widget_idx@[k] {
                        Some(j) => j < v@.len(),
                        None => true,
                    },
                forall|k: int| 0 <= k < v@.len() ==> (#[trigger] v@[k]).wf(),
            decreases n - i,
        {
            proof {
                lemma_child_smaller(*cur, i as int);
                crate::widgets::lemma_children_wf(*cur, i as int);
            }
            let ghost pre_wi = widget_idx@;
            let ghost pre_es = v@;
            Self::recurse_build(&cur.props.children[i], v, widget_idx);
            proof {
                lemma_flattens_kids_grow(
                    pre_wi,
                    pre_es,
                    widget_idx@,
                    v@,
                    cur.props.children@,
                    i as int,
                    base_n,
                    base_e + eh,
                );
                assert(widget_idx@.take(pre_wi.len() as int) =~= pre_wi);
                assert(widget_idx@[base_n] == pre_wi[base_n]);
                assert(v@.take(pre_es.len() as int) =~= pre_es);
                if has_entry(*cur) {
                    assert(v@[base_e] == pre_es[base_e]);
                }
                lemma_prefix_trans(old(widget_idx)@, pre_wi, widget_idx@);
                lemma_prefix_trans(old(v)@, pre_es, v@);
                assert(subtree_count_seq(cur.props.children@, i + 1int) == subtree_count_seq(
                    cur.props.children@,
                    i as int,
                ) + subtree_count(cur.props.children@[i as int]));
                assert(entry_count_seq(cur.props.children@, i + 1int) == entry_count_seq(
                    cur.props.children@,
                    i as int,
                ) + entry_count(cur.props.children@[i as int]));
            }
            i = i + 1;
        }
    }

    /// Record, for every node in pre-order, the subtree sizes of its
    /// children (clamped at the machine's index limit), and return this
    /// node's own subtree size, clamped the same way.
    fn children_recurse(cur: &WidgetS, vec: &mut Vec<Vec<usize>>) -> (size: usize)
        ensures
            size == if subtree_count(*cur) <= usize::MAX {
                subtree_count(*cur) as int
            } else {
                usize::MAX as int
            },
            final(vec)@.len() == old(vec)@.len() + subtree_count(*cur),
            old(vec)@.is_prefix_of(final(vec)@),
            sizes_table(final(vec)@, *cur, old(vec)@.len() as int),
        decreases subtree_count(*cur),
    {
        let ghost base = vec@.len() as int;
        let idx = vec.len();
        vec.push(Vec::new());
        let mut row: Vec<usize> = Vec::new();
        let mut size: usize = 1;
        let n = cur.props.children.len();
        let mut i: usize = 0;
        while i < n
            invariant
                0 <= i <= n,
                n == cur.props.children@.len(),
                base == old(vec)@.len(),
                idx == base,
                vec@.len() == base + 1 + subtree_count_seq(cur.props.children@, i as int),
                old(vec)@.is_prefix_of(vec@),
                row@.len() == i,
                forall|j: int|
                    0 <= j < i ==> #[trigger] row@[j] as int == (if subtree_count(
                        cur.props.children@[j],
                    ) <= usize::MAX {
                        subtree_count(cur.props.children@[j]) as int
                    } else {
                        usize::MAX as int
                    }),
                sizes_table_kids(vec@, cur.props.children@, i as int, base),
                size == ({
                    let c = 1 + subtree_count_seq(cur.props.children@, i as int) as int;
                    if c <= usize::MAX {
                        c
                    } else {
                        usize::MAX as int
                    }
                }),
            decreases n - i,
        {
            proof {
                lemma_child_smaller(*cur, i as int);
                crate::widgets::lemma_subtree_count_child(cur.props.children@, i + 1, i as int);
                crate::widgets::lemma_subtree_count_mono(
                    cur.props.children@,
                    i + 1,
                    cur.props.children@.len() as int,
                );
            }
            let ghost pre = vec@;
            let csize = Self::children_recurse(&cur.props.children[i], vec);
            proof {
                lemma_sizes_table_kids_grow(pre, vec@, cur.props.children@, i as int, base);
                lemma_prefix_trans(old(vec)@, pre, vec@);
            }
            row.push(csize);
            size = crate::widgets::sat_add_usize(size, csize);
            i = i + 1;
        }
        if idx < vec.len() {
            let ghost pre = vec@;
            let slot = crate::widgets::vec_index_mut(vec, idx);
            *slot = row;
            proof {
                // Writing this node's own row keeps every other row, so
                // the children's recorded tables survive.
                assert(vec@ =~= pre.update(idx as int, vec@[idx as int]));
                lemma_sizes_table_kids_update_head(
                    pre,
                    vec@,
                    cur.props.children@,
                    n as int,
                    base,
                );
                assert(old(vec)@.is_prefix_of(vec@)) by {
                    assert(vec@.take(base) =~= pre.take(base));
                }
            }
        }
        size
    }

    /// Build the selection state of a tree: the entry list and node map
    /// are the depth-first pre-order flattening of the tree's focusable
    /// sub-states, and the table records every node's child subtree
    /// sizes; nothing starts focused.
    pub fn new(root: &WidgetS) -> (s: SelectionState)
        requires
            widget_wf(*root),
        ensures
            s.wf(),
            s.cur_select is None,
            s.list.widget_idx@.len() == subtree_count(*root),
            s.list.vec@.len() == entry_count(*root),
            flattens(s.list.widget_idx@, s.list.vec@, *root, 0, 0),
            s.child_sizes@.len() == subtree_count(*root),
            sizes_table(s.child_sizes@, *root, 0),
    {
        let mut vec: Vec<SelectEntry> = Vec::new();
        let mut widget_idx: Vec<Option<usize>> = Vec::new();
        Self::recurse_build(root, &mut vec, &mut widget_idx);
        let mut child_sizes: Vec<Vec<usize>> = Vec::new();
        Self::children_recurse(root, &mut child_sizes);
        SelectionState {
            list: SelectionList { vec, widget_idx },
            cur_select: None,
            child_sizes,
        }
    }
}

/// The context a widget draw traversal runs in: the drawing capability,
/// the selection state for focus queries, the pre-order position of the
/// widget being drawn, and the commands emitted so far.
pub struct WidgetDrawCtx<'a> {
    pub draw_ctx: DrawCtx,
    pub select_state: &'a SelectionState,
    pub widget_idx: WidgetIdx,
    pub cmds: Vec<DrawCmd>,
}

impl<'a> WidgetDrawCtx<'a> {
    pub fn new(draw_ctx: DrawCtx, select_state: &'a SelectionState) -> (c: WidgetDrawCtx<'a>)
        ensures
            c.draw_ctx == draw_ctx,
            c.select_state == select_state,
            c.widget_idx.0 == 0,
            c.cmds@ =~= Seq::<DrawCmd>::empty(),
    {
        WidgetDrawCtx { draw_ctx, select_state, widget_idx: WidgetIdx(0), cmds: Vec::new() }
    }

    /// Step to the next widget in pre-order.
    pub fn next_widget_ctx(&mut self)
        ensures
            final(self).widget_idx.0 == crate::widgets::sat_add_usize_spec(
                old(self).widget_idx.0,
                1,
            ),
            final(self).draw_ctx == old(self).draw_ctx,
            final(self).select_state == old(self).select_state,
            final(self).cmds == old(self).cmds,
    {
        self.widget_idx = WidgetIdx(crate::widgets::sat_add_usize(self.widget_idx.0, 1));
    }

    /// Whether the widget being drawn holds the focus.
    pub fn is_selected(&self) -> (r: bool)
        ensures
            r == (self.select_state.cur_select is Some && self.select_state.cur_select
                == if self.widget_idx.0 < self.select_state.list.widget_idx@.len() {
                self.select_state.list.widget_idx@[self.widget_idx.0 as int]
            } else {
                None
            }),
    {
        self.select_state.is_select_w(self.widget_idx)
    }

    /// The entry index of the widget being drawn.
    pub fn select_idx(&self) -> (r: Option<usize>)
        ensures
            r == if self.widget_idx.0 < self.select_state.list.widget_idx@.len() {
                self.select_state.list.widget_idx@[self.widget_idx.0 as int]
            } else {
                None
            },
    {
        self.select_state.select_idx(self.widget_idx)
    }
}

/// The context an event dispatch runs in: the drawing capability, the
/// selection state, the pre-order position of the widget being visited,
/// and the accumulated result.
pub struct WidgetEventCtx<'a> {
    pub draw_ctx: DrawCtx,
    pub select_state: &'a SelectionState,
    pub widget_idx: WidgetIdx,
    pub res: EventResult,
}

impl<'a> WidgetEventCtx<'a> {
    pub fn new(draw_ctx: DrawCtx, select_state: &'a SelectionState) -> (c: WidgetEventCtx<'a>)
        ensures
            c.draw_ctx == draw_ctx,
            c.select_state == select_state,
            c.widget_idx.0 == 0,
            c.res.cursor == CursorStyle::Arrow,
            c.res.callbacks@ =~= Seq::<Effect>::empty(),
            c.res.status == WidgetStatus::fine_spec(),
    {
        WidgetEventCtx { draw_ctx, select_state, widget_idx: WidgetIdx(0), res: EventResult::new() }
    }

    /// Move the context to a child of the current widget, by subtree
    /// index arithmetic.
    pub fn child_ctx(&mut self, parent_idx: WidgetIdx, child_pos: usize)
        ensures
            final(self).draw_ctx == old(self).draw_ctx,
            final(self).select_state == old(self).select_state,
            final(self).res == old(self).res,
    {
        self.widget_idx = self.select_state.child_widget_idx(parent_idx, child_pos);
    }

    /// Whether the widget being visited holds the focus.
    pub fn is_selected(&self) -> (r: bool)
        ensures
            r == (self.select_state.cur_select is Some && self.select_state.cur_select
                == if self.widget_idx.0 < self.select_state.list.widget_idx@.len() {
                self.select_state.list.widget_idx@[self.widget_idx.0 as int]
            } else {
                None
            }),
    {
        self.select_state.is_select_w(self.widget_idx)
    }

    /// The entry index of the widget being visited.
    pub fn select_idx(&self) -> (r: Option<usize>)
        ensures
            r == if self.widget_idx.0 < self.select_state.list.widget_idx@.len() {
                self.select_state.list.widget_idx@[self.widget_idx.0 as int]
            } else {
                None
            },
    {
        self.select_state.select_idx(self.widget_idx)
    }

    /// Defer an application effect.
    pub fn push_cb(&mut self, cb: Effect)
        ensures
            final(self).res.callbacks@ == old(self).res.callbacks@.push(cb),
            final(self).res.status == old(self).res.status,
            final(self).res.cursor == old(self).res.cursor,
            final(self).draw_ctx == old(self).draw_ctx,
            final(self).select_state == old(self).select_state,
            final(self).widget_idx == old(self).widget_idx,
    {
        self.res.callbacks.push(cb);
    }

    /// Pick the cursor icon.
    pub fn set_cursor(&mut self, cursor: CursorStyle)
        ensures
            final(self).res.cursor == cursor,
            final(self).res.callbacks@ == old(self).res.callbacks@,
            final(self).res.status == old(self).res.status,
            final(self).draw_ctx == old(self).draw_ctx,
            final(self).select_state == old(self).select_state,
            final(self).widget_idx == old(self).widget_idx,
    {
        self.res.cursor = cursor;
    }

    /// Merge status flags into the accumulated result.
    pub fn or_status(&mut self, st: WidgetStatus)
        ensures
            final(self).res.status == old(self).res.status.or_spec(st),
            final(self).res.callbacks@ == old(self).res.callbacks@,
            final(self).res.cursor == old(self).res.cursor,
            final(self).draw_ctx == old(self).draw_ctx,
            final(self).select_state == old(self).select_state,
            final(self).widget_idx == old(self).widget_idx,
    {
        self.res.status = self.res.status.or(&st);
    }

    /// Overwrite the accumulated status flags.
    pub fn set_status(&mut self, st: WidgetStatus)
        ensures
            final(self).res.status == st,
            final(self).res.callbacks@ == old(self).res.callbacks@,
            final(self).res.cursor == old(self).res.cursor,
            final(self).draw_ctx == old(self).draw_ctx,
            final(self).select_state == old(self).select_state,
            final(self).widget_idx == old(self).widget_idx,
    {
        self.res.status = st;
    }
}

} // verus!
