//! The base of the accessibility tree: the window, its tab list and its
//! pane area, one tab per pane in tab order, the window buttons of the
//! custom title bar, each pane with a window onto its scrollback and its
//! visible rows, and the input buffer that sends text to the focused pane.
//!
//! Only the cursor row of the focused pane is announced; the focused pane
//! carries the caret as a text selection on that row.

use vstd::prelude::*;
use vstd::string::StringExecFns;
use crate::accessibility::{
    cursor_character_index, pane_node_id, pane_row_node_id, pane_row_text_with_lengths,
    pane_scrollback_row_node_id, scrollback_row_text_with_lengths, spec_len_utf8, spec_row_text,
    tab_node_id, Cell, Grid, NodeId, MAX_ROWS_PER_PANE, MAX_SCROLLBACK_ROWS_PER_PANE,
    MAX_VIEWPORT_ROWS_PER_PANE, NODE_ID_PANE_OFFSET, NODE_ID_PANE_ROW_OFFSET, NODE_ID_TAB_OFFSET,
    PANE_AREA_ID, PANE_INPUT_BUFFER_ID, ROOT_ID, SCROLLBACK_WINDOW_RADIUS, TAB_BAR_ID,
    WINDOW_CLOSE_BTN_ID, WINDOW_MAXIMIZE_BTN_ID, WINDOW_MINIMIZE_BTN_ID,
};
use crate::picker_nodes::{views, A11yNode, Live, NodeView, Role};
use crate::text::{decimal, decimal_chars, string_from_chars};
use crate::tree_state::{ascending_from, ascending_ids};

verus! {

/// What the tree shows of a pane.
pub struct PaneContent {
    pub id: u32,
    pub title: String,
    pub cwd: Option<String>,
    pub grid: Grid,
    pub cursor_row: u16,
    pub cursor_col: u16,
    /// Scrollback lines, oldest first.
    pub scrollback: Vec<Vec<Cell>>,
    /// How many rows the view is scrolled up from the newest screen.
    pub scroll_offset: usize,
}

/// What the base of the tree is built from.
pub struct BaseState {
    pub tab_order: Vec<u32>,
    pub focused_pane_id: Option<u32>,
    pub panes: Vec<PaneContent>,
    /// Whether the custom title bar shows its window buttons.
    pub window_buttons_visible: bool,
}

/// A node with a role and nothing else.
pub open spec fn blank_view(id: NodeId, role: Role) -> NodeView {
    NodeView {
        id,
        role,
        label: None,
        description: None,
        modal: false,
        selected: false,
        children: Seq::empty(),
        value: None,
        character_lengths: Seq::empty(),
        live: Live::Off,
        text_selection: None,
        clickable: false,
    }
}

/// A node with a role, a label and children.
pub open spec fn labelled_view(id: NodeId, role: Role, label: Seq<char>, children: Seq<NodeId>) -> NodeView {
    NodeView { label: Some(label), children, ..blank_view(id, role) }
}

/// The first pane with id `id`.
pub open spec fn find_content(panes: Seq<PaneContent>, id: u32) -> Option<PaneContent>
    decreases panes.len(),
{
    if panes.len() == 0 {
        None
    } else if panes[0].id == id {
        Some(panes[0])
    } else {
        find_content(panes.drop_first(), id)
    }
}

/// The ids of the panes, in their stored order.
pub open spec fn content_ids(panes: Seq<PaneContent>) -> Seq<u32> {
    panes.map_values(|p: PaneContent| p.id)
}

/// The order of the tabs: the tab order, or, without one, the pane ids in
/// ascending order.
pub open spec fn base_order(s: BaseState) -> Seq<u32> {
    if s.tab_order@.len() == 0 {
        ascending_from(content_ids(s.panes@), 0)
    } else {
        s.tab_order@
    }
}

pub open spec fn is_focused(s: BaseState, pid: u32) -> bool {
    s.focused_pane_id == Some(pid)
}

pub open spec fn tab_id(pid: u32) -> NodeId {
    (NODE_ID_TAB_OFFSET + pid) as NodeId
}

pub open spec fn pane_id(pid: u32) -> NodeId {
    (NODE_ID_PANE_OFFSET + pid) as NodeId
}

pub open spec fn row_id(pid: u32, row: int) -> NodeId {
    (NODE_ID_PANE_ROW_OFFSET + pid * MAX_ROWS_PER_PANE + row) as NodeId
}

pub open spec fn scroll_row_id(pid: u32, idx: int) -> NodeId {
    (NODE_ID_PANE_ROW_OFFSET + pid * MAX_ROWS_PER_PANE + MAX_VIEWPORT_ROWS_PER_PANE + idx) as NodeId
}

/// The title of a tab: its pane's title, or "Untitled" when the pane is
/// missing or has none.
pub open spec fn tab_title(s: BaseState, pid: u32) -> Seq<char> {
    match find_content(s.panes@, pid) {
        Some(p) => if p.title@.len() > 0 {
            p.title@
        } else {
            "Untitled"@
        },
        None => "Untitled"@,
    }
}

/// `"Tab <position>: <title>"`, positions counted from one.
pub open spec fn tab_label(s: BaseState, k: int, pid: u32) -> Seq<char> {
    "Tab "@ + decimal((k + 1) as nat) + ": "@ + tab_title(s, pid)
}

/// The tab at position `k`, selected when its pane has the focus.
pub open spec fn tab_view(s: BaseState, k: int, pid: u32) -> NodeView {
    NodeView { selected: is_focused(s, pid), ..labelled_view(tab_id(pid), Role::Tab, tab_label(s, k, pid), Seq::empty()) }
}

pub open spec fn tab_views(s: BaseState) -> Seq<NodeView> {
    let o = base_order(s);
    Seq::new(o.len(), |k: int| tab_view(s, k, o[k]))
}

/// A clickable button.
pub open spec fn button_view(id: NodeId, label: Seq<char>) -> NodeView {
    NodeView { clickable: true, ..labelled_view(id, Role::Button, label, Seq::empty()) }
}

pub open spec fn window_button_views(s: BaseState) -> Seq<NodeView> {
    if s.window_buttons_visible {
        seq![
            button_view(WINDOW_MINIMIZE_BTN_ID, "Minimize window"@),
            button_view(WINDOW_MAXIMIZE_BTN_ID, "Maximize or restore window"@),
            button_view(WINDOW_CLOSE_BTN_ID, "Close window"@),
        ]
    } else {
        Seq::empty()
    }
}

/// The tabs, then the window buttons when they are shown.
pub open spec fn tab_bar_children(s: BaseState) -> Seq<NodeId> {
    base_order(s).map_values(|pid: u32| tab_id(pid)) + if s.window_buttons_visible {
        seq![WINDOW_MINIMIZE_BTN_ID, WINDOW_MAXIMIZE_BTN_ID, WINDOW_CLOSE_BTN_ID]
    } else {
        Seq::<NodeId>::empty()
    }
}

/// The panes, then the input buffer.
pub open spec fn pane_area_children(s: BaseState) -> Seq<NodeId> {
    base_order(s).map_values(|pid: u32| pane_id(pid)).push(PANE_INPUT_BUFFER_ID)
}

// ---- One pane ----

/// The newest scrollback line before the view.
pub open spec fn scroll_center(p: PaneContent) -> int {
    let c = p.scrollback@.len() - (p.scroll_offset + 1);
    if c > 0 { c } else { 0 }
}

/// The scrollback lines shown: up to `SCROLLBACK_WINDOW_RADIUS` on each side
/// of the center, below `MAX_SCROLLBACK_ROWS_PER_PANE`.
pub open spec fn scroll_start(p: PaneContent) -> int {
    let c = scroll_center(p) - SCROLLBACK_WINDOW_RADIUS;
    if c > 0 { c } else { 0 }
}

pub open spec fn scroll_end(p: PaneContent) -> int {
    let a = scroll_center(p) + SCROLLBACK_WINDOW_RADIUS + 1;
    let b = if a < p.scrollback@.len() { a } else { p.scrollback@.len() as int };
    if b < MAX_SCROLLBACK_ROWS_PER_PANE { b } else { MAX_SCROLLBACK_ROWS_PER_PANE as int }
}

pub open spec fn scroll_count(p: PaneContent) -> int {
    if scroll_end(p) > scroll_start(p) { scroll_end(p) - scroll_start(p) } else { 0 }
}

/// The UTF-8 byte lengths of the characters of `t`.
pub open spec fn lengths_of(t: Seq<char>) -> Seq<u8> {
    t.map_values(|c: char| spec_len_utf8(c))
}

/// A text run showing `cells`.
pub open spec fn text_run_view(id: NodeId, cells: Seq<Cell>) -> NodeView {
    NodeView {
        value: Some(spec_row_text(cells)),
        character_lengths: lengths_of(spec_row_text(cells)),
        ..blank_view(id, Role::TextRun)
    }
}

pub open spec fn scroll_row_view(p: PaneContent, idx: int) -> NodeView {
    text_run_view(scroll_row_id(p.id, idx), p.scrollback@[idx]@)
}

pub open spec fn scroll_views(p: PaneContent) -> Seq<NodeView> {
    Seq::new(scroll_count(p) as nat, |j: int| scroll_row_view(p, scroll_start(p) + j))
}

pub open spec fn scroll_ids(p: PaneContent) -> Seq<NodeId> {
    Seq::new(scroll_count(p) as nat, |j: int| scroll_row_id(p.id, scroll_start(p) + j))
}

/// The visible rows shown: `min(height, rows, MAX_VIEWPORT_ROWS_PER_PANE)`.
pub open spec fn view_row_count(p: PaneContent) -> int {
    let a = if (p.grid.height as int) < p.grid.rows@.len() { p.grid.height as int } else { p.grid.rows@.len() as int };
    if a < MAX_VIEWPORT_ROWS_PER_PANE { a } else { MAX_VIEWPORT_ROWS_PER_PANE as int }
}

/// Visible row `r`; announced politely when it is the cursor row of the
/// focused pane.
pub open spec fn view_row_view(p: PaneContent, r: int, focused: bool) -> NodeView {
    NodeView {
        live: if focused && r == p.cursor_row { Live::Polite } else { Live::Off },
        ..text_run_view(row_id(p.id, r), p.grid.rows@[r]@)
    }
}

pub open spec fn view_row_views(p: PaneContent, focused: bool) -> Seq<NodeView> {
    Seq::new(view_row_count(p) as nat, |r: int| view_row_view(p, r, focused))
}

pub open spec fn view_row_ids(p: PaneContent) -> Seq<NodeId> {
    Seq::new(view_row_count(p) as nat, |r: int| row_id(p.id, r))
}

/// The caret of the focused pane: on its cursor row when that row is shown,
/// at the cursor column clamped to the row's text.
pub open spec fn caret(p: PaneContent, focused: bool) -> Option<(NodeId, usize)> {
    if focused && (p.cursor_row as int) < view_row_count(p) {
        let t = spec_row_text(p.grid.rows@[p.cursor_row as int]@);
        Some((row_id(p.id, p.cursor_row as int), if (p.cursor_col as int) < t.len() { p.cursor_col as usize } else { t.len() as usize }))
    } else {
        None
    }
}

/// A pane's title, or `"Pane <id>"` when it has none.
pub open spec fn pane_title(p: PaneContent) -> Seq<char> {
    if p.title@.len() == 0 {
        "Pane "@ + decimal(p.id as nat)
    } else {
        p.title@
    }
}

pub open spec fn pane_description(p: PaneContent) -> Option<Seq<char>> {
    match p.cwd {
        Some(c) => Some("Working directory: "@ + c@),
        None => None,
    }
}

/// The terminal node of a pane: its scrollback rows, then its visible rows.
pub open spec fn pane_view(p: PaneContent, focused: bool) -> NodeView {
    NodeView {
        description: pane_description(p),
        text_selection: caret(p, focused),
        ..labelled_view(pane_id(p.id), Role::Terminal, pane_title(p), scroll_ids(p) + view_row_ids(p))
    }
}

/// The nodes of a pane: scrollback rows, visible rows, the pane itself.
pub open spec fn pane_block(p: PaneContent, focused: bool) -> Seq<NodeView> {
    scroll_views(p) + view_row_views(p, focused) + seq![pane_view(p, focused)]
}

/// The nodes of the panes of `order` that exist, in order.
pub open spec fn pane_blocks(s: BaseState, order: Seq<u32>) -> Seq<NodeView>
    decreases order.len(),
{
    if order.len() == 0 {
        Seq::empty()
    } else {
        let rest = pane_blocks(s, order.drop_last());
        match find_content(s.panes@, order.last()) {
            Some(p) => rest + pane_block(p, is_focused(s, order.last())),
            None => rest,
        }
    }
}

/// Which pane input goes to: the focused pane's title, or "No focused pane".
pub open spec fn input_hint(s: BaseState) -> Seq<char> {
    match s.focused_pane_id {
        Some(fid) => match find_content(s.panes@, fid) {
            Some(p) => pane_title(p),
            None => "No focused pane"@,
        },
        None => "No focused pane"@,
    }
}

pub open spec fn input_view(s: BaseState) -> NodeView {
    NodeView {
        value: Some(Seq::empty()),
        description: Some(
            "Current pane: "@ + input_hint(s)
                + " \u{2014} committing input sends the text to the PTY (use \\n for newline)"@,
        ),
        ..labelled_view(PANE_INPUT_BUFFER_ID, Role::TextInput, "Terminal input buffer"@, Seq::empty())
    }
}

/// The base nodes: the window (its children still to be completed by the
/// overlays), the tab list, the pane area, the tabs, the window buttons, the
/// panes and the input buffer.
pub open spec fn spec_base_nodes(s: BaseState) -> Seq<NodeView> {
    seq![
        labelled_view(ROOT_ID, Role::Window, "Nexterm"@, seq![TAB_BAR_ID, PANE_AREA_ID]),
        labelled_view(TAB_BAR_ID, Role::TabList, "Terminal tabs"@, tab_bar_children(s)),
        labelled_view(PANE_AREA_ID, Role::Group, "Panes"@, pane_area_children(s)),
    ] + tab_views(s) + window_button_views(s) + pane_blocks(s, base_order(s)) + seq![input_view(s)]
}

/// The default focus: the focused pane, or the window.
pub open spec fn base_focus(s: BaseState) -> NodeId {
    match s.focused_pane_id {
        Some(id) => pane_id(id),
        None => ROOT_ID,
    }
}

// ---- Building ----

pub(crate) fn blank(id: NodeId, role: Role) -> (n: A11yNode)
    ensures
        n@ == blank_view(id, role),
{
    let n = A11yNode {
        id,
        role,
        label: None,
        description: None,
        modal: false,
        selected: false,
        children: Vec::new(),
        value: None,
        character_lengths: Vec::new(),
        live: Live::Off,
        text_selection: None,
        clickable: false,
    };
    assert(n@.children =~= Seq::<NodeId>::empty());
    assert(n@.character_lengths =~= Seq::<u8>::empty());
    n
}

pub(crate) fn push_node(out: &mut Vec<A11yNode>, n: A11yNode)
    ensures
        views(final(out)@) == views(old(out)@).push(n@),
{
    let ghost m = n@;
    out.push(n);
    assert(views(out@) =~= views(old(out)@).push(m));
}

fn find_content_index(panes: &Vec<PaneContent>, id: u32) -> (r: Option<usize>)
    ensures
        match find_content(panes@, id) {
            Some(p) => r matches Some(i) && i < panes@.len() && panes@[i as int] == p,
            None => r is None,
        },
{
    let n = panes.len();
    let mut i: usize = 0;
    assert(panes@.subrange(0, n as int) =~= panes@);
    while i < n
        invariant
            i <= n,
            n == panes@.len(),
            find_content(panes@, id) == find_content(panes@.subrange(i as int, n as int), id),
            forall|j: int| 0 <= j < i ==> panes@[j].id != id,
        decreases n - i,
    {
        let ghost sub = panes@.subrange(i as int, n as int);
        assert(sub[0] == panes@[i as int]);
        if panes[i].id == id {
            return Some(i);
        }
        assert(sub.drop_first() =~= panes@.subrange(i + 1, n as int));
        i = i + 1;
    }
    assert(panes@.subrange(n as int, n as int).len() == 0);
    None
}

fn content_id_vec(panes: &Vec<PaneContent>) -> (r: Vec<u32>)
    ensures
        r@ == content_ids(panes@),
{
    let mut r: Vec<u32> = Vec::new();
    let n = panes.len();
    for i in 0..n
        invariant
            n == panes@.len(),
            r@ == content_ids(panes@.take(i as int)),
    {
        r.push(panes[i].id);
        assert(content_ids(panes@.take(i + 1)) =~= content_ids(panes@.take(i as int)).push(panes@[i as int].id));
    }
    assert(panes@.take(n as int) =~= panes@);
    r
}

fn text_run(id: NodeId, text: String, lengths: Vec<u8>, Ghost(cells): Ghost<Seq<Cell>>) -> (n: A11yNode)
    requires
        text@ == spec_row_text(cells),
        lengths@.len() == text@.len(),
        forall|i: int| 0 <= i < lengths@.len() ==> lengths@[i] == #[trigger] spec_len_utf8(text@[i]),
    ensures
        n@ == text_run_view(id, cells),
{
    let mut n = blank(id, Role::TextRun);
    assert(lengths@ =~= lengths_of(text@));
    n.value = Some(text);
    n.character_lengths = lengths;
    n
}

fn pane_title_string(p: &PaneContent) -> (r: String)
    ensures
        r@ == pane_title(*p),
{
    if p.title.as_str().is_empty() {
        proof {
            reveal_strlit("Pane ");
        }
        let mut t = String::from_str("Pane ");
        let digits = decimal_chars(p.id as u64);
        t.append(string_from_chars(&digits).as_str());
        assert(t@ =~= pane_title(*p));
        t
    } else {
        p.title.clone()
    }
}

/// The scrollback rows of a pane, appended to `out`; their ids to `ids`.
fn push_scroll_rows(out: &mut Vec<A11yNode>, ids: &mut Vec<NodeId>, p: &PaneContent)
    ensures
        views(final(out)@) == views(old(out)@) + scroll_views(*p),
        final(ids)@ == old(ids)@ + scroll_ids(*p),
{
    let len = p.scrollback.len();
    let center: usize = if p.scroll_offset < len {
        len - p.scroll_offset - 1
    } else {
        0
    };
    let start: usize = if center > SCROLLBACK_WINDOW_RADIUS {
        center - SCROLLBACK_WINDOW_RADIUS
    } else {
        0
    };
    let a: usize = if center < 8899 {
        center + SCROLLBACK_WINDOW_RADIUS + 1
    } else {
        9000
    };
    let b: usize = if a < len { a } else { len };
    let end: usize = if b < 9000 { b } else { 9000 };
    assert(center == scroll_center(*p));
    assert(start == scroll_start(*p));
    assert(end == scroll_end(*p));
    let ghost out0 = views(out@);
    let ghost ids0 = ids@;
    let mut idx = start;
    while idx < end
        invariant
            start >= end ==> idx == start,
            start == scroll_start(*p),
            end == scroll_end(*p),
            end <= 9000,
            idx >= start,
            idx <= end || start >= end,
            views(out@) == out0 + Seq::new((idx - start) as nat, |j: int| scroll_row_view(*p, start + j)),
            ids@ == ids0 + Seq::new((idx - start) as nat, |j: int| scroll_row_id(p.id, start + j)),
        decreases end - idx,
    {
        let (text, lengths) = scrollback_row_text_with_lengths(p.scrollback[idx].as_slice());
        let row = pane_scrollback_row_node_id(p.id, idx as u16);
        let node = text_run(row, text, lengths, Ghost(p.scrollback@[idx as int]@));
        push_node(out, node);
        ids.push(row);
        proof {
            assert(Seq::new((idx + 1 - start) as nat, |j: int| scroll_row_view(*p, start + j)) =~= Seq::new(
                (idx - start) as nat,
                |j: int| scroll_row_view(*p, start + j),
            ).push(scroll_row_view(*p, idx as int)));
            assert(Seq::new((idx + 1 - start) as nat, |j: int| scroll_row_id(p.id, start + j)) =~= Seq::new(
                (idx - start) as nat,
                |j: int| scroll_row_id(p.id, start + j),
            ).push(scroll_row_id(p.id, idx as int)));
        }
        idx = idx + 1;
    }
    proof {
        if start < end {
            assert(idx == end);
        } else {
            assert(idx == start);
        }
        assert(Seq::new((idx - start) as nat, |j: int| scroll_row_view(*p, start + j)) =~= scroll_views(*p));
        assert(Seq::new((idx - start) as nat, |j: int| scroll_row_id(p.id, start + j)) =~= scroll_ids(*p));
    }
}

/// The visible rows of a pane, appended to `out`, their ids to `ids`; the
/// caret of the pane is returned.
fn push_view_rows(out: &mut Vec<A11yNode>, ids: &mut Vec<NodeId>, p: &PaneContent, focused: bool) -> (c: Option<(NodeId, usize)>)
    ensures
        views(final(out)@) == views(old(out)@) + view_row_views(*p, focused),
        final(ids)@ == old(ids)@ + view_row_ids(*p),
        c == caret(*p, focused),
{
    let h = p.grid.height as usize;
    let a: usize = if h < p.grid.rows.len() { h } else { p.grid.rows.len() };
    let count: usize = if a < 1000 { a } else { 1000 };
    assert(count == view_row_count(*p));
    let ghost out0 = views(out@);
    let ghost ids0 = ids@;
    let mut sel: Option<(NodeId, usize)> = None;
    let mut r: usize = 0;
    while r < count
        invariant
            r <= count,
            count == view_row_count(*p),
            count <= 1000,
            count <= p.grid.rows@.len(),
            views(out@) == out0 + Seq::new(r as nat, |j: int| view_row_view(*p, j, focused)),
            ids@ == ids0 + Seq::new(r as nat, |j: int| row_id(p.id, j)),
            sel == if focused && (p.cursor_row as int) < r { caret(*p, focused) } else { None },
        decreases count - r,
    {
        let (text, lengths) = pane_row_text_with_lengths(&p.grid, r);
        let row = pane_row_node_id(p.id, r as u16);
        let is_cursor_row = focused && r == p.cursor_row as usize;
        let index = cursor_character_index(text.as_str(), p.cursor_col);
        let mut node = text_run(row, text, lengths, Ghost(p.grid.rows@[r as int]@));
        node.live = if is_cursor_row { Live::Polite } else { Live::Off };
        if is_cursor_row {
            sel = Some((row, index));
        }
        push_node(out, node);
        ids.push(row);
        proof {
            assert(Seq::new((r + 1) as nat, |j: int| view_row_view(*p, j, focused)) =~= Seq::new(
                r as nat,
                |j: int| view_row_view(*p, j, focused),
            ).push(view_row_view(*p, r as int, focused)));
            assert(Seq::new((r + 1) as nat, |j: int| row_id(p.id, j)) =~= Seq::new(r as nat, |j: int| row_id(p.id, j)).push(
                row_id(p.id, r as int),
            ));
        }
        r = r + 1;
    }
    sel
}

/// The nodes of one pane, appended to `out`.
fn push_pane_block(out: &mut Vec<A11yNode>, p: &PaneContent, focused: bool)
    ensures
        views(final(out)@) == views(old(out)@) + pane_block(*p, focused),
{
    let ghost out0 = views(out@);
    let mut child_ids: Vec<NodeId> = Vec::new();
    push_scroll_rows(out, &mut child_ids, p);
    let c = push_view_rows(out, &mut child_ids, p, focused);
    assert(child_ids@ =~= scroll_ids(*p) + view_row_ids(*p));
    let mut node = blank(pane_node_id(p.id), Role::Terminal);
    node.label = Some(pane_title_string(p));
    node.description = match &p.cwd {
        Some(cwd) => {
            proof {
                reveal_strlit("Working directory: ");
            }
            let mut d = String::from_str("Working directory: ");
            d.append(cwd.as_str());
            Some(d)
        },
        None => None,
    };
    node.children = child_ids;
    node.text_selection = c;
    assert(node@ == pane_view(*p, focused));
    push_node(out, node);
    assert(views(out@) =~= out0 + pane_block(*p, focused));
}

fn tab_title_string(s: &BaseState, pid: u32) -> (r: String)
    ensures
        r@ == tab_title(*s, pid),
{
    proof {
        reveal_strlit("Untitled");
    }
    match find_content_index(&s.panes, pid) {
        Some(i) => if s.panes[i].title.as_str().is_empty() {
            String::from_str("Untitled")
        } else {
            s.panes[i].title.clone()
        },
        None => String::from_str("Untitled"),
    }
}

fn tab_label_string(s: &BaseState, k: usize, pid: u32) -> (r: String)
    requires
        k < usize::MAX,
    ensures
        r@ == tab_label(*s, k as int, pid),
{
    proof {
        reveal_strlit("Tab ");
        reveal_strlit(": ");
    }
    let mut t = String::from_str("Tab ");
    let digits = decimal_chars((k + 1) as u64);
    t.append(string_from_chars(&digits).as_str());
    t.append(": ");
    let title = tab_title_string(s, pid);
    t.append(title.as_str());
    assert(t@ =~= tab_label(*s, k as int, pid));
    t
}

fn button(id: NodeId, label: &str) -> (n: A11yNode)
    ensures
        n@ == button_view(id, label@),
{
    let mut n = blank(id, Role::Button);
    n.label = Some(label.to_string());
    n.clickable = true;
    n
}

fn input_hint_string(s: &BaseState) -> (r: String)
    ensures
        r@ == input_hint(*s),
{
    proof {
        reveal_strlit("No focused pane");
    }
    match s.focused_pane_id {
        Some(fid) => match find_content_index(&s.panes, fid) {
            Some(i) => pane_title_string(&s.panes[i]),
            None => String::from_str("No focused pane"),
        },
        None => String::from_str("No focused pane"),
    }
}

/// The base nodes of the tree, the window's children so far (the tab list
/// and the pane area) and the default focus (the focused pane, or the
/// window). The tab order falls back to the pane ids in ascending order
/// when empty.
pub fn build_base_nodes(s: &BaseState) -> (r: (Vec<A11yNode>, Vec<NodeId>, NodeId))
    ensures
        views(r.0@) == spec_base_nodes(*s),
        r.1@ == seq![TAB_BAR_ID, PANE_AREA_ID],
        r.2 == base_focus(*s),
{
    let order: Vec<u32> = if s.tab_order.len() == 0 {
        ascending_ids(&content_id_vec(&s.panes))
    } else {
        let mut o: Vec<u32> = Vec::new();
        for i in 0..s.tab_order.len()
            invariant
                o@ == s.tab_order@.take(i as int),
        {
            o.push(s.tab_order[i]);
            assert(s.tab_order@.take(i + 1) =~= s.tab_order@.take(i as int).push(s.tab_order@[i as int]));
        }
        assert(s.tab_order@.take(s.tab_order@.len() as int) =~= s.tab_order@);
        o
    };
    assert(order@ == base_order(*s));
    let n = order.len();

    // The window, the tab list and the pane area.
    proof {
        reveal_strlit("Nexterm");
        reveal_strlit("Terminal tabs");
        reveal_strlit("Panes");
    }
    let mut root = blank(ROOT_ID, Role::Window);
    root.label = Some(String::from_str("Nexterm"));
    let mut root_children: Vec<NodeId> = Vec::new();
    root_children.push(TAB_BAR_ID);
    root_children.push(PANE_AREA_ID);
    root.children = root_children;
    assert(root@.children =~= seq![TAB_BAR_ID, PANE_AREA_ID]);

    let mut tab_ids: Vec<NodeId> = Vec::new();
    let mut pane_ids: Vec<NodeId> = Vec::new();
    for k in 0..n
        invariant
            n == order@.len(),
            tab_ids@ == order@.take(k as int).map_values(|pid: u32| tab_id(pid)),
            pane_ids@ == order@.take(k as int).map_values(|pid: u32| pane_id(pid)),
    {
        tab_ids.push(tab_node_id(order[k]));
        pane_ids.push(pane_node_id(order[k]));
        assert(order@.take(k + 1).map_values(|pid: u32| tab_id(pid)) =~= order@.take(k as int).map_values(
            |pid: u32| tab_id(pid),
        ).push(tab_id(order@[k as int])));
        assert(order@.take(k + 1).map_values(|pid: u32| pane_id(pid)) =~= order@.take(k as int).map_values(
            |pid: u32| pane_id(pid),
        ).push(pane_id(order@[k as int])));
    }
    assert(order@.take(n as int) =~= order@);
    if s.window_buttons_visible {
        tab_ids.push(WINDOW_MINIMIZE_BTN_ID);
        tab_ids.push(WINDOW_MAXIMIZE_BTN_ID);
        tab_ids.push(WINDOW_CLOSE_BTN_ID);
    }
    assert(tab_ids@ =~= tab_bar_children(*s));
    pane_ids.push(PANE_INPUT_BUFFER_ID);
    assert(pane_ids@ =~= pane_area_children(*s));
    let mut tab_bar = blank(TAB_BAR_ID, Role::TabList);
    tab_bar.label = Some(String::from_str("Terminal tabs"));
    tab_bar.children = tab_ids;
    let mut pane_area = blank(PANE_AREA_ID, Role::Group);
    pane_area.label = Some(String::from_str("Panes"));
    pane_area.children = pane_ids;

    let mut nodes: Vec<A11yNode> = Vec::new();
    push_node(&mut nodes, root);
    push_node(&mut nodes, tab_bar);
    push_node(&mut nodes, pane_area);
    let ghost head = views(nodes@);

    // The tabs.
    for k in 0..n
        invariant
            n == order@.len(),
            order@ == base_order(*s),
            views(nodes@) == head + Seq::new(k as nat, |j: int| tab_view(*s, j, order@[j])),
    {
        let pid = order[k];
        let mut tab = blank(tab_node_id(pid), Role::Tab);
        tab.label = Some(tab_label_string(s, k, pid));
        tab.selected = match s.focused_pane_id {
            Some(f) => f == pid,
            None => false,
        };
        assert(tab@ == tab_view(*s, k as int, pid));
        push_node(&mut nodes, tab);
        assert(Seq::new((k + 1) as nat, |j: int| tab_view(*s, j, order@[j])) =~= Seq::new(
            k as nat,
            |j: int| tab_view(*s, j, order@[j]),
        ).push(tab_view(*s, k as int, pid)));
    }
    assert(Seq::new(n as nat, |j: int| tab_view(*s, j, order@[j])) =~= tab_views(*s));

    // The window buttons.
    let ghost tabs_done = views(nodes@);
    if s.window_buttons_visible {
        proof {
            reveal_strlit("Minimize window");
            reveal_strlit("Maximize or restore window");
            reveal_strlit("Close window");
        }
        push_node(&mut nodes, button(WINDOW_MINIMIZE_BTN_ID, "Minimize window"));
        push_node(&mut nodes, button(WINDOW_MAXIMIZE_BTN_ID, "Maximize or restore window"));
        push_node(&mut nodes, button(WINDOW_CLOSE_BTN_ID, "Close window"));
    }
    assert(views(nodes@) =~= tabs_done + window_button_views(*s));

    // The panes.
    let ghost panes_start = views(nodes@);
    for k in 0..n
        invariant
            n == order@.len(),
            views(nodes@) == panes_start + pane_blocks(*s, order@.take(k as int)),
    {
        let pid = order[k];
        proof {
            let t = order@.take(k + 1);
            assert(t.drop_last() =~= order@.take(k as int));
            assert(t.last() == pid);
        }
        match find_content_index(&s.panes, pid) {
            Some(i) => {
                let focused = match s.focused_pane_id {
                    Some(f) => f == pid,
                    None => false,
                };
                push_pane_block(&mut nodes, &s.panes[i], focused);
                assert(views(nodes@) =~= panes_start + pane_blocks(*s, order@.take(k + 1)));
            },
            None => {},
        }
    }

    // The input buffer.
    proof {
        reveal_strlit("Terminal input buffer");
        reveal_strlit("Current pane: ");
        reveal_strlit(" \u{2014} committing input sends the text to the PTY (use \\n for newline)");
    }
    let mut input = blank(PANE_INPUT_BUFFER_ID, Role::TextInput);
    input.label = Some(String::from_str("Terminal input buffer"));
    input.value = Some(String::new());
    let mut d = String::from_str("Current pane: ");
    let hint = input_hint_string(s);
    d.append(hint.as_str());
    d.append(" \u{2014} committing input sends the text to the PTY (use \\n for newline)");
    input.description = Some(d);
    assert(input@ == input_view(*s));
    push_node(&mut nodes, input);
    assert(views(nodes@) =~= spec_base_nodes(*s));

    let focus = match s.focused_pane_id {
        Some(f) => pane_node_id(f),
        None => ROOT_ID,
    };
    let mut children: Vec<NodeId> = Vec::new();
    children.push(TAB_BAR_ID);
    children.push(PANE_AREA_ID);
    assert(children@ =~= seq![TAB_BAR_ID, PANE_AREA_ID]);
    (nodes, children, focus)
}

} // verus!
