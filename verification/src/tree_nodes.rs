//! The accessibility tree: the base nodes, at most one overlay (the
//! highest-priority one that is open), the info bars and the alert region.
//!
//! Overlay priority, from high to low: the close-window dialog, Quick
//! Select, the context menu, the command palette, the host manager, the
//! macro picker, the settings panel. The window's children are the tab list
//! and the pane area, then the overlay, the info bars and the alert region;
//! the focus goes to the overlay when one is open.

use vstd::prelude::*;
use vstd::string::StringExecFns;
use crate::accessibility::{
    alert_node_id, context_item_id, quickselect_item_id, NodeId, ALERT_REGION_ID,
    CLOSE_DIALOG_CANCEL_BTN, CLOSE_DIALOG_ID, CLOSE_DIALOG_KILL_BTN, CONTEXT_MENU_ID,
    HOST_MANAGER_ID, MACRO_PICKER_ID, NODE_ID_ALERT_OFFSET, NODE_ID_CONTEXT_ITEM_OFFSET,
    NODE_ID_HOST_ITEM_OFFSET, NODE_ID_MACRO_ITEM_OFFSET, NODE_ID_QUICKSELECT_ITEM_OFFSET, PALETTE_ID,
    PANE_AREA_ID, QUICK_SELECT_ID, QUICK_SELECT_LIST_ID, ROOT_ID, SETTINGS_PANEL_ID, TAB_BAR_ID,
};
use crate::alerts::{AlertEntry, AlertKind, AlertQueue};
use crate::host_manager::HostManager;
use crate::macro_picker::MacroPicker;
use crate::pane_tree::{base_focus, blank, blank_view, build_base_nodes, labelled_view, push_node, spec_base_nodes, BaseState};
use crate::picker_nodes::{opt_chars, host_listing, host_manager_nodes, macro_listing, macro_picker_nodes, views, A11yNode, Live, NodeView, Role};
use crate::text::{chars_of, decimal, decimal_chars, push_char, string_from_chars};

verus! {

/// The close-window dialog.
pub struct CloseDialog {
    pub message: String,
    pub kill_label: String,
    pub cancel_label: String,
    /// 0 for the kill button, 1 for cancel; other values once confirmed.
    pub selected_button: u8,
}

/// One context-menu item; a separator has no action.
pub struct MenuItem {
    pub label: String,
    pub hint: String,
    pub is_separator: bool,
}

/// The context menu and the item under the pointer.
pub struct ContextMenu {
    pub items: Vec<MenuItem>,
    pub hovered: Option<usize>,
}

/// One Quick Select match: the label key that copies it and its text.
pub struct QuickMatch {
    pub label: String,
    pub text: String,
}

/// Quick Select: whether it is active, the label typed so far and the
/// matches on screen.
pub struct QuickSelect {
    pub is_active: bool,
    pub typed_label: String,
    pub matches: Vec<QuickMatch>,
}

// ---- The close dialog ----

pub open spec fn close_views(d: CloseDialog) -> Seq<NodeView> {
    seq![
        NodeView {
            description: Some(d.message@),
            modal: true,
            ..labelled_view(CLOSE_DIALOG_ID, Role::AlertDialog, "Close window?"@, seq![CLOSE_DIALOG_KILL_BTN, CLOSE_DIALOG_CANCEL_BTN])
        },
        NodeView { selected: d.selected_button == 0, ..labelled_view(CLOSE_DIALOG_KILL_BTN, Role::Button, d.kill_label@, Seq::empty()) },
        NodeView { selected: d.selected_button == 1, ..labelled_view(CLOSE_DIALOG_CANCEL_BTN, Role::Button, d.cancel_label@, Seq::empty()) },
    ]
}

/// The cancel button when it is selected, the kill button otherwise.
pub open spec fn close_focus(d: CloseDialog) -> NodeId {
    if d.selected_button == 1 { CLOSE_DIALOG_CANCEL_BTN } else { CLOSE_DIALOG_KILL_BTN }
}

// ---- The alert region ----

pub open spec fn alert_id(a: AlertEntry) -> NodeId {
    (NODE_ID_ALERT_OFFSET + a.seq) as NodeId
}

/// A bell is labelled by its title; a notification by
/// `"Notification: <title>"`. A non-empty body is the description.
pub open spec fn alert_view(a: AlertEntry) -> NodeView {
    NodeView {
        description: if a.body@.len() == 0 { None } else { Some(a.body@) },
        ..labelled_view(
            alert_id(a),
            Role::Alert,
            match a.kind {
                AlertKind::Bell => a.title@,
                AlertKind::Notification => "Notification: "@ + a.title@,
            },
            Seq::empty(),
        )
    }
}

/// Nothing for an empty queue; otherwise the assertive "Notifications"
/// group, then one alert node per queued alert, oldest first.
pub open spec fn alert_region_views(q: Seq<AlertEntry>) -> Seq<NodeView> {
    if q.len() == 0 {
        Seq::empty()
    } else {
        seq![
            NodeView {
                live: Live::Assertive,
                ..labelled_view(ALERT_REGION_ID, Role::Group, "Notifications"@, q.map_values(|a: AlertEntry| alert_id(a)))
            },
        ] + q.map_values(|a: AlertEntry| alert_view(a))
    }
}

pub open spec fn alert_ids_fit(q: Seq<AlertEntry>) -> bool {
    forall|i: int| 0 <= i < q.len() ==> NODE_ID_ALERT_OFFSET + #[trigger] q[i].seq <= u64::MAX
}

fn close_dialog_nodes(d: &CloseDialog, out: &mut Vec<A11yNode>) -> (focus: NodeId)
    ensures
        views(final(out)@) == views(old(out)@) + close_views(*d),
        focus == close_focus(*d),
{
    proof {
        reveal_strlit("Close window?");
    }
    let ghost out0 = views(out@);
    let mut dialog = blank(CLOSE_DIALOG_ID, Role::AlertDialog);
    dialog.label = Some(String::from_str("Close window?"));
    dialog.description = Some(d.message.clone());
    dialog.modal = true;
    let mut kids: Vec<NodeId> = Vec::new();
    kids.push(CLOSE_DIALOG_KILL_BTN);
    kids.push(CLOSE_DIALOG_CANCEL_BTN);
    dialog.children = kids;
    assert(dialog@.children =~= seq![CLOSE_DIALOG_KILL_BTN, CLOSE_DIALOG_CANCEL_BTN]);
    push_node(out, dialog);
    let mut kill = blank(CLOSE_DIALOG_KILL_BTN, Role::Button);
    kill.label = Some(d.kill_label.clone());
    kill.selected = d.selected_button == 0;
    push_node(out, kill);
    let mut cancel = blank(CLOSE_DIALOG_CANCEL_BTN, Role::Button);
    cancel.label = Some(d.cancel_label.clone());
    cancel.selected = d.selected_button == 1;
    push_node(out, cancel);
    assert(views(out@) =~= out0 + close_views(*d));
    if d.selected_button == 1 {
        CLOSE_DIALOG_CANCEL_BTN
    } else {
        CLOSE_DIALOG_KILL_BTN
    }
}

fn alert_region_nodes(q: &AlertQueue, out: &mut Vec<A11yNode>)
    requires
        alert_ids_fit(q.alerts@),
    ensures
        views(final(out)@) == views(old(out)@) + alert_region_views(q.alerts@),
{
    let ghost out0 = views(out@);
    let n = q.alerts.len();
    if n == 0 {
        assert(views(out@) =~= out0 + alert_region_views(q.alerts@));
        return;
    }
    proof {
        reveal_strlit("Notifications");
        reveal_strlit("Notification: ");
    }
    let mut ids: Vec<NodeId> = Vec::new();
    for i in 0..n
        invariant
            n == q.alerts@.len(),
            alert_ids_fit(q.alerts@),
            ids@ == q.alerts@.take(i as int).map_values(|a: AlertEntry| alert_id(a)),
    {
        ids.push(alert_node_id(q.alerts[i].seq));
        assert(q.alerts@.take(i + 1).map_values(|a: AlertEntry| alert_id(a)) =~= q.alerts@.take(i as int).map_values(
            |a: AlertEntry| alert_id(a),
        ).push(alert_id(q.alerts@[i as int])));
    }
    assert(q.alerts@.take(n as int) =~= q.alerts@);
    let mut region = blank(ALERT_REGION_ID, Role::Group);
    region.label = Some(String::from_str("Notifications"));
    region.live = Live::Assertive;
    region.children = ids;
    push_node(out, region);
    let ghost head = views(out@);
    for i in 0..n
        invariant
            n == q.alerts@.len(),
            alert_ids_fit(q.alerts@),
            views(out@) == head + q.alerts@.take(i as int).map_values(|a: AlertEntry| alert_view(a)),
    {
        let a = &q.alerts[i];
        let mut node = blank(alert_node_id(a.seq), Role::Alert);
        node.label = Some(
            match a.kind {
                AlertKind::Bell => a.title.clone(),
                AlertKind::Notification => {
                    let mut t = String::from_str("Notification: ");
                    t.append(a.title.as_str());
                    t
                },
            },
        );
        if !a.body.as_str().is_empty() {
            node.description = Some(a.body.clone());
        }
        assert(node@ == alert_view(*a));
        push_node(out, node);
        assert(q.alerts@.take(i + 1).map_values(|a: AlertEntry| alert_view(a)) =~= q.alerts@.take(i as int).map_values(
            |a: AlertEntry| alert_view(a),
        ).push(alert_view(q.alerts@[i as int])));
    }
    assert(views(out@) =~= out0 + alert_region_views(q.alerts@));
}

// ---- The context menu ----

pub open spec fn context_item_view(m: MenuItem, k: int) -> NodeView {
    NodeView {
        label: if m.label@.len() == 0 { None } else { Some(m.label@) },
        description: if m.hint@.len() == 0 { None } else { Some(m.hint@) },
        ..blank_view((NODE_ID_CONTEXT_ITEM_OFFSET + k) as NodeId, if m.is_separator { Role::Splitter } else { Role::MenuItem })
    }
}

pub open spec fn context_views(c: ContextMenu) -> Seq<NodeView> {
    seq![
        labelled_view(
            CONTEXT_MENU_ID,
            Role::Menu,
            "Context menu"@,
            Seq::new(c.items@.len(), |k: int| (NODE_ID_CONTEXT_ITEM_OFFSET + k) as NodeId),
        ),
    ] + Seq::new(c.items@.len(), |k: int| context_item_view(c.items@[k], k))
}

/// The hovered item when it exists, the menu otherwise.
pub open spec fn context_focus(c: ContextMenu) -> NodeId {
    match c.hovered {
        Some(i) => if i < c.items@.len() { (NODE_ID_CONTEXT_ITEM_OFFSET + i) as NodeId } else { CONTEXT_MENU_ID },
        None => CONTEXT_MENU_ID,
    }
}

fn context_menu_nodes(c: &ContextMenu, out: &mut Vec<A11yNode>) -> (focus: NodeId)
    requires
        c.items@.len() + NODE_ID_CONTEXT_ITEM_OFFSET <= u64::MAX,
    ensures
        views(final(out)@) == views(old(out)@) + context_views(*c),
        focus == context_focus(*c),
{
    proof {
        reveal_strlit("Context menu");
    }
    let ghost out0 = views(out@);
    let n = c.items.len();
    let mut ids: Vec<NodeId> = Vec::new();
    for k in 0..n
        invariant
            n == c.items@.len(),
            n + NODE_ID_CONTEXT_ITEM_OFFSET <= u64::MAX,
            ids@ == Seq::new(k as nat, |j: int| (NODE_ID_CONTEXT_ITEM_OFFSET + j) as NodeId),
    {
        ids.push(context_item_id(k));
        assert(ids@ =~= Seq::new((k + 1) as nat, |j: int| (NODE_ID_CONTEXT_ITEM_OFFSET + j) as NodeId));
    }
    let mut menu = blank(CONTEXT_MENU_ID, Role::Menu);
    menu.label = Some(String::from_str("Context menu"));
    menu.children = ids;
    push_node(out, menu);
    let ghost head = views(out@);
    for k in 0..n
        invariant
            n == c.items@.len(),
            n + NODE_ID_CONTEXT_ITEM_OFFSET <= u64::MAX,
            views(out@) == head + Seq::new(k as nat, |j: int| context_item_view(c.items@[j], j)),
    {
        let m = &c.items[k];
        let mut node = blank(context_item_id(k), if m.is_separator { Role::Splitter } else { Role::MenuItem });
        if !m.label.as_str().is_empty() {
            node.label = Some(m.label.clone());
        }
        if !m.hint.as_str().is_empty() {
            node.description = Some(m.hint.clone());
        }
        assert(node@ == context_item_view(*m, k as int));
        push_node(out, node);
        assert(views(out@) =~= head + Seq::new((k + 1) as nat, |j: int| context_item_view(c.items@[j], j)));
    }
    assert(views(out@) =~= out0 + context_views(*c));
    match c.hovered {
        Some(i) => if i < n {
            context_item_id(i)
        } else {
            CONTEXT_MENU_ID
        },
        None => CONTEXT_MENU_ID,
    }
}

// ---- Quick Select ----

/// Whether `a` begins `b`.
pub open spec fn begins(a: Seq<char>, b: Seq<char>) -> bool {
    a.len() <= b.len() && b.subrange(0, a.len() as int) == a
}

/// A match is selected when a label is being typed and its label begins
/// with what was typed.
pub open spec fn qs_selected(typed: Seq<char>, m: QuickMatch) -> bool {
    typed.len() > 0 && begins(typed, m.label@)
}

/// The first selected match.
pub open spec fn first_selected(typed: Seq<char>, ms: Seq<QuickMatch>) -> Option<int>
    decreases ms.len(),
{
    if ms.len() == 0 {
        None
    } else {
        match first_selected(typed, ms.drop_last()) {
            Some(i) => Some(i),
            None => if qs_selected(typed, ms.last()) { Some(ms.len() - 1) } else { None },
        }
    }
}

pub open spec fn qs_description(q: QuickSelect) -> Seq<char> {
    if q.typed_label@.len() == 0 {
        "Press a label key to copy an item to the clipboard"@
    } else {
        "Typing label: '"@ + q.typed_label@ + "'"@
    }
}

pub open spec fn qs_item_view(q: QuickSelect, k: int) -> NodeView {
    NodeView {
        selected: qs_selected(q.typed_label@, q.matches@[k]),
        ..labelled_view(
            (NODE_ID_QUICKSELECT_ITEM_OFFSET + k) as NodeId,
            Role::ListBoxOption,
            "["@ + q.matches@[k].label@ + "] "@ + q.matches@[k].text@,
            Seq::empty(),
        )
    }
}

pub open spec fn quick_views(q: QuickSelect) -> Seq<NodeView> {
    let n = q.matches@.len();
    seq![
        NodeView {
            modal: true,
            description: Some(qs_description(q)),
            ..labelled_view(QUICK_SELECT_ID, Role::Dialog, "Quick Select"@, seq![QUICK_SELECT_LIST_ID])
        },
        labelled_view(
            QUICK_SELECT_LIST_ID,
            Role::ListBox,
            decimal(n) + " match(es)"@,
            Seq::new(n, |k: int| (NODE_ID_QUICKSELECT_ITEM_OFFSET + k) as NodeId),
        ),
    ] + Seq::new(n, |k: int| qs_item_view(q, k))
}

/// The first selected match, else the first match, else the list.
pub open spec fn quick_focus(q: QuickSelect) -> NodeId {
    match first_selected(q.typed_label@, q.matches@) {
        Some(i) => (NODE_ID_QUICKSELECT_ITEM_OFFSET + i) as NodeId,
        None => if q.matches@.len() > 0 { NODE_ID_QUICKSELECT_ITEM_OFFSET as NodeId } else { QUICK_SELECT_LIST_ID },
    }
}

proof fn lemma_first_selected(typed: Seq<char>, ms: Seq<QuickMatch>)
    ensures
        first_selected(typed, ms) matches Some(i) ==> 0 <= i < ms.len(),
    decreases ms.len(),
{
    if ms.len() > 0 {
        lemma_first_selected(typed, ms.drop_last());
    }
}

fn begins_with(a: &Vec<char>, b: &Vec<char>) -> (r: bool)
    ensures
        r == begins(a@, b@),
{
    if a.len() > b.len() {
        return false;
    }
    let mut i: usize = 0;
    while i < a.len()
        invariant
            i <= a@.len(),
            a@.len() <= b@.len(),
            b@.subrange(0, i as int) == a@.subrange(0, i as int),
        decreases a@.len() - i,
    {
        if a[i] != b[i] {
            assert(b@.subrange(0, a@.len() as int)[i as int] != a@[i as int]);
            return false;
        }
        assert(b@.subrange(0, i + 1) =~= b@.subrange(0, i as int).push(b@[i as int]));
        assert(a@.subrange(0, i + 1) =~= a@.subrange(0, i as int).push(a@[i as int]));
        i = i + 1;
    }
    assert(a@.subrange(0, a@.len() as int) =~= a@);
    true
}

fn quick_select_nodes(q: &QuickSelect, out: &mut Vec<A11yNode>) -> (focus: NodeId)
    requires
        q.matches@.len() + NODE_ID_QUICKSELECT_ITEM_OFFSET <= u64::MAX,
    ensures
        views(final(out)@) == views(old(out)@) + quick_views(*q),
        focus == quick_focus(*q),
{
    proof {
        reveal_strlit("Quick Select");
        reveal_strlit("Press a label key to copy an item to the clipboard");
        reveal_strlit("Typing label: '");
        reveal_strlit("'");
        reveal_strlit(" match(es)");
        reveal_strlit("[");
        reveal_strlit("] ");
    }
    let ghost out0 = views(out@);
    let n = q.matches.len();
    let mut dialog = blank(QUICK_SELECT_ID, Role::Dialog);
    dialog.label = Some(String::from_str("Quick Select"));
    dialog.modal = true;
    let desc = if q.typed_label.as_str().is_empty() {
        String::from_str("Press a label key to copy an item to the clipboard")
    } else {
        let mut t = String::from_str("Typing label: '");
        t.append(q.typed_label.as_str());
        t.append("'");
        t
    };
    dialog.description = Some(desc);
    let mut kids: Vec<NodeId> = Vec::new();
    kids.push(QUICK_SELECT_LIST_ID);
    dialog.children = kids;
    assert(dialog@.children =~= seq![QUICK_SELECT_LIST_ID]);
    push_node(out, dialog);

    let mut ids: Vec<NodeId> = Vec::new();
    for k in 0..n
        invariant
            n == q.matches@.len(),
            n + NODE_ID_QUICKSELECT_ITEM_OFFSET <= u64::MAX,
            ids@ == Seq::new(k as nat, |j: int| (NODE_ID_QUICKSELECT_ITEM_OFFSET + j) as NodeId),
    {
        ids.push(quickselect_item_id(k));
        assert(ids@ =~= Seq::new((k + 1) as nat, |j: int| (NODE_ID_QUICKSELECT_ITEM_OFFSET + j) as NodeId));
    }
    let mut list = blank(QUICK_SELECT_LIST_ID, Role::ListBox);
    let mut count = string_from_chars(&decimal_chars(n as u64));
    count.append(" match(es)");
    list.label = Some(count);
    list.children = ids;
    push_node(out, list);

    let typed = chars_of(q.typed_label.as_str());
    let ghost head = views(out@);
    let mut first: Option<usize> = None;
    for k in 0..n
        invariant
            n == q.matches@.len(),
            n + NODE_ID_QUICKSELECT_ITEM_OFFSET <= u64::MAX,
            typed@ == q.typed_label@,
            views(out@) == head + Seq::new(k as nat, |j: int| qs_item_view(*q, j)),
            first == match first_selected(q.typed_label@, q.matches@.take(k as int)) {
                Some(i) => Some(i as usize),
                None => None::<usize>,
            },
            first matches Some(i) ==> i < k,
    {
        let m = &q.matches[k];
        let mut label = String::from_str("[");
        label.append(m.label.as_str());
        label.append("] ");
        label.append(m.text.as_str());
        let sel = typed.len() > 0 && begins_with(&typed, &chars_of(m.label.as_str()));
        let mut node = blank(quickselect_item_id(k), Role::ListBoxOption);
        node.label = Some(label);
        node.selected = sel;
        assert(node@ == qs_item_view(*q, k as int));
        push_node(out, node);
        proof {
            let t = q.matches@.take(k + 1);
            assert(t.drop_last() =~= q.matches@.take(k as int));
            assert(t.last() == q.matches@[k as int]);
            lemma_first_selected(q.typed_label@, q.matches@.take(k as int));
        }
        if sel && first.is_none() {
            first = Some(k);
        }
        assert(views(out@) =~= head + Seq::new((k + 1) as nat, |j: int| qs_item_view(*q, j)));
    }
    assert(q.matches@.take(n as int) =~= q.matches@);
    proof {
        lemma_first_selected(q.typed_label@, q.matches@);
    }
    assert(views(out@) =~= out0 + quick_views(*q));
    match first {
        Some(i) => quickselect_item_id(i),
        None => if n > 0 {
            quickselect_item_id(0)
        } else {
            QUICK_SELECT_LIST_ID
        },
    }
}

// ---- The whole tree ----

/// The nodes of an overlay built by its owner, and the node it focuses.
pub struct BuiltOverlay {
    pub nodes: Vec<A11yNode>,
    pub focus: NodeId,
}

/// Everything the tree is built from. The command palette and the settings
/// panel come as their built nodes while they are open.
pub struct TreeParts {
    pub base: BaseState,
    pub close_dialog: Option<CloseDialog>,
    pub quick_select: QuickSelect,
    pub context_menu: Option<ContextMenu>,
    pub palette: Option<BuiltOverlay>,
    pub host_manager: HostManager,
    pub macro_picker: MacroPicker,
    pub settings_panel: Option<BuiltOverlay>,
    /// The info bars' nodes, loudest first.
    pub info_bars: Vec<A11yNode>,
    pub alerts: AlertQueue,
}

/// The root of the overlay shown, the highest-priority open one.
pub open spec fn overlay_root(p: TreeParts) -> Option<NodeId> {
    if p.close_dialog is Some {
        Some(CLOSE_DIALOG_ID)
    } else if p.quick_select.is_active {
        Some(QUICK_SELECT_ID)
    } else if p.context_menu is Some {
        Some(CONTEXT_MENU_ID)
    } else if p.palette is Some {
        Some(PALETTE_ID)
    } else if p.host_manager.is_open {
        Some(HOST_MANAGER_ID)
    } else if p.macro_picker.is_open {
        Some(MACRO_PICKER_ID)
    } else if p.settings_panel is Some {
        Some(SETTINGS_PANEL_ID)
    } else {
        None
    }
}

/// `ov` and `f` are the nodes and the focus of the overlay shown (nothing,
/// and the base focus, when none is open).
pub open spec fn overlay_shown(p: TreeParts, ov: Seq<NodeView>, f: NodeId) -> bool {
    match p.close_dialog {
        Some(d) => ov == close_views(d) && f == close_focus(d),
        None => if p.quick_select.is_active {
            ov == quick_views(p.quick_select) && f == quick_focus(p.quick_select)
        } else {
            match p.context_menu {
                Some(c) => ov == context_views(c) && f == context_focus(c),
                None => match p.palette {
                    Some(b) => ov == views(b.nodes@) && f == b.focus,
                    None => if p.host_manager.is_open {
                        host_listing(p.host_manager, ov, f)
                    } else if p.macro_picker.is_open {
                        macro_listing(p.macro_picker, ov, f)
                    } else {
                        match p.settings_panel {
                            Some(b) => ov == views(b.nodes@) && f == b.focus,
                            None => ov == Seq::<NodeView>::empty() && f == base_focus(p.base),
                        }
                    },
                },
            }
        }
    }
}

/// The window's children: the tab list, the pane area, the overlay shown,
/// the info bars and, when alerts are queued, the alert region.
pub open spec fn root_children(p: TreeParts) -> Seq<NodeId> {
    seq![TAB_BAR_ID, PANE_AREA_ID] + (match overlay_root(p) {
        Some(id) => seq![id],
        None => Seq::<NodeId>::empty(),
    }) + p.info_bars@.map_values(|n: A11yNode| n.id) + if p.alerts.alerts@.len() > 0 {
        seq![ALERT_REGION_ID]
    } else {
        Seq::<NodeId>::empty()
    }
}

/// The tree with overlay nodes `ov`: the window, the rest of the base, the
/// overlay, the info bars and the alert region.
pub open spec fn spec_tree(p: TreeParts, ov: Seq<NodeView>) -> Seq<NodeView> {
    seq![labelled_view(ROOT_ID, Role::Window, "Nexterm"@, root_children(p))] + spec_base_nodes(p.base).drop_first() + ov
        + views(p.info_bars@) + alert_region_views(p.alerts.alerts@)
}

/// The id limits of the lists that the tree numbers.
pub open spec fn tree_ids_fit(p: TreeParts) -> bool {
    &&& p.context_menu matches Some(c) ==> c.items@.len() + NODE_ID_CONTEXT_ITEM_OFFSET <= u64::MAX
    &&& p.quick_select.matches@.len() + NODE_ID_QUICKSELECT_ITEM_OFFSET <= u64::MAX
    &&& p.host_manager.hosts@.len() <= u64::MAX - NODE_ID_HOST_ITEM_OFFSET
    &&& p.macro_picker.macros@.len() <= u64::MAX - NODE_ID_MACRO_ITEM_OFFSET
    &&& alert_ids_fit(p.alerts.alerts@)
}

fn copy_text(s: &Option<String>) -> (r: Option<String>)
    ensures
        opt_chars(r) == opt_chars(*s),
{
    match s {
        Some(t) => Some(t.clone()),
        None => None,
    }
}

fn copy_node(n: &A11yNode) -> (r: A11yNode)
    ensures
        r@ == n@,
{
    let mut children: Vec<NodeId> = Vec::new();
    for i in 0..n.children.len()
        invariant
            children@ == n.children@.take(i as int),
    {
        children.push(n.children[i]);
        assert(n.children@.take(i + 1) =~= n.children@.take(i as int).push(n.children@[i as int]));
    }
    assert(n.children@.take(n.children@.len() as int) =~= n.children@);
    let mut lengths: Vec<u8> = Vec::new();
    for i in 0..n.character_lengths.len()
        invariant
            lengths@ == n.character_lengths@.take(i as int),
    {
        lengths.push(n.character_lengths[i]);
        assert(n.character_lengths@.take(i + 1) =~= n.character_lengths@.take(i as int).push(n.character_lengths@[i as int]));
    }
    assert(n.character_lengths@.take(n.character_lengths@.len() as int) =~= n.character_lengths@);
    A11yNode {
        id: n.id,
        role: n.role,
        label: copy_text(&n.label),
        description: copy_text(&n.description),
        modal: n.modal,
        selected: n.selected,
        children,
        value: copy_text(&n.value),
        character_lengths: lengths,
        live: n.live,
        text_selection: n.text_selection,
        clickable: n.clickable,
    }
}

/// Appends copies of `v`.
fn append_copies(out: &mut Vec<A11yNode>, v: &Vec<A11yNode>)
    ensures
        views(final(out)@) == views(old(out)@) + views(v@),
{
    let ghost out0 = views(out@);
    for i in 0..v.len()
        invariant
            views(out@) == out0 + views(v@.take(i as int)),
    {
        push_node(out, copy_node(&v[i]));
        assert(views(v@.take(i + 1)) =~= views(v@.take(i as int)).push(v@[i as int]@));
    }
    assert(v@.take(v@.len() as int) =~= v@);
}

fn append_nodes(out: &mut Vec<A11yNode>, mut v: Vec<A11yNode>)
    ensures
        views(final(out)@) == views(old(out)@) + views(v@),
{
    let ghost v0 = v@;
    out.append(&mut v);
    assert(views(out@) =~= views(old(out)@) + views(v0));
}

/// The accessibility tree and the node that has the focus.
pub fn build_tree(p: &TreeParts) -> (r: (Vec<A11yNode>, NodeId))
    requires
        tree_ids_fit(*p),
    ensures
        exists|ov: Seq<NodeView>| #[trigger] overlay_shown(*p, ov, r.1) && views(r.0@) == spec_tree(*p, ov),
{
    let ghost p0 = *p;
    let base = &p.base;
    let close_dialog = &p.close_dialog;
    let quick_select = &p.quick_select;
    let context_menu = &p.context_menu;
    let palette = &p.palette;
    let host_manager = &p.host_manager;
    let macro_picker = &p.macro_picker;
    let settings_panel = &p.settings_panel;
    let info_bars = &p.info_bars;
    let alerts = &p.alerts;
    let (mut nodes, mut kids, mut focus) = build_base_nodes(base);
    let ghost base_views = views(nodes@);
    let ghost mut ov: Seq<NodeView> = Seq::empty();
    match close_dialog {
        Some(d) => {
            focus = close_dialog_nodes(d, &mut nodes);
            kids.push(CLOSE_DIALOG_ID);
            proof { ov = close_views(*d); }
        },
        None => if quick_select.is_active {
            focus = quick_select_nodes(quick_select, &mut nodes);
            kids.push(QUICK_SELECT_ID);
            proof { ov = quick_views(*quick_select); }
        } else {
            match context_menu {
                Some(c) => {
                    focus = context_menu_nodes(c, &mut nodes);
                    kids.push(CONTEXT_MENU_ID);
                    proof { ov = context_views(*c); }
                },
                None => match palette {
                    Some(b) => {
                        proof { ov = views(b.nodes@); }
                        focus = b.focus;
                        append_copies(&mut nodes, &b.nodes);
                        kids.push(PALETTE_ID);
                    },
                    None => if host_manager.is_open {
                        let (hn, hf) = host_manager_nodes(host_manager);
                        proof { ov = views(hn@); }
                        focus = hf;
                        append_nodes(&mut nodes, hn);
                        kids.push(HOST_MANAGER_ID);
                    } else if macro_picker.is_open {
                        let (mn, mf) = macro_picker_nodes(macro_picker);
                        proof { ov = views(mn@); }
                        focus = mf;
                        append_nodes(&mut nodes, mn);
                        kids.push(MACRO_PICKER_ID);
                    } else {
                        match settings_panel {
                            Some(b) => {
                                proof { ov = views(b.nodes@); }
                                focus = b.focus;
                                append_copies(&mut nodes, &b.nodes);
                                kids.push(SETTINGS_PANEL_ID);
                            },
                            None => {},
                        }
                    },
                },
            }
        },
    }
    assert(overlay_shown(p0, ov, focus));
    assert(views(nodes@) == base_views + ov);

    let ghost bar_ids = info_bars@.map_values(|n: A11yNode| n.id);
    let nb = info_bars.len();
    for i in 0..nb
        invariant
            nb == info_bars@.len(),
            kids@ == seq![TAB_BAR_ID, PANE_AREA_ID] + (match overlay_root(p0) {
                Some(id) => seq![id],
                None => Seq::<NodeId>::empty(),
            }) + info_bars@.take(i as int).map_values(|n: A11yNode| n.id),
    {
        kids.push(info_bars[i].id);
        assert(info_bars@.take(i + 1).map_values(|n: A11yNode| n.id) =~= info_bars@.take(i as int).map_values(
            |n: A11yNode| n.id,
        ).push(info_bars@[i as int].id));
    }
    assert(info_bars@.take(nb as int) =~= info_bars@);
    let ghost ib = info_bars@;
    append_copies(&mut nodes, info_bars);
    assert(views(nodes@) == base_views + ov + views(ib));
    if alerts.alerts.len() > 0 {
        kids.push(ALERT_REGION_ID);
    }
    alert_region_nodes(alerts, &mut nodes);
    assert(kids@ =~= root_children(p0));

    proof {
        reveal_strlit("Nexterm");
    }
    let mut root = blank(ROOT_ID, Role::Window);
    root.label = Some(String::from_str("Nexterm"));
    root.children = kids;
    let ghost before = views(nodes@);
    assert(before == spec_base_nodes(*base) + ov + views(info_bars@) + alert_region_views(alerts.alerts@));
    assert(before.len() >= 1);
    assert(nodes@.len() >= 1);
    nodes.set(0, root);
    assert(views(nodes@) =~= before.update(0, labelled_view(ROOT_ID, Role::Window, "Nexterm"@, root_children(p0))));
    assert(views(nodes@) =~= spec_tree(p0, ov));
    assert(overlay_shown(p0, ov, focus));
    assert(overlay_shown(*p, ov, focus));
    assert(views(nodes@) == spec_tree(*p, ov));
    let r = (nodes, focus);
    assert(views(r.0@) == spec_tree(*p, ov));
    assert(overlay_shown(*p, ov, r.1));
    r
}

} // verus!
