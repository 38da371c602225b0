//! Accessibility nodes of the host manager and the macro picker.
//!
//! Each picker is a modal dialog whose children are its listed entries, one
//! list-box option per entry; the selected entry is marked and takes the
//! focus (the dialog itself does when nothing valid is selected). The nodes
//! are plain values here; the application turns them into the accessibility
//! toolkit's nodes.

use vstd::prelude::*;
use vstd::string::StringExecFns;
use crate::accessibility::{NodeId, HOST_MANAGER_ID, MACRO_PICKER_ID, NODE_ID_HOST_ITEM_OFFSET, NODE_ID_MACRO_ITEM_OFFSET, host_item_id, macro_item_id};
use crate::host_manager::{HostConfig, HostManager, HostView};
use crate::macro_picker::{MacroConfig, MacroPicker};
use crate::text::{decimal, decimal_chars, string_from_chars, push_char};

verus! {

/// The accessibility role of a node.
#[derive(Clone, Copy, Debug, PartialEq, Eq, Structural)]
pub enum Role {
    Window,
    TabList,
    Tab,
    Button,
    Group,
    Terminal,
    TextRun,
    TextInput,
    Dialog,
    ListBoxOption,
    AlertDialog,
    Menu,
    MenuItem,
    Splitter,
    ListBox,
    Alert,
}

/// How a screen reader announces changes of a node.
#[derive(Clone, Copy, Debug, PartialEq, Eq, Structural)]
pub enum Live {
    Off,
    Polite,
    Assertive,
}

/// One accessibility node.
#[derive(Clone, Debug)]
pub struct A11yNode {
    pub id: NodeId,
    pub role: Role,
    pub label: Option<String>,
    pub description: Option<String>,
    pub modal: bool,
    pub selected: bool,
    pub children: Vec<NodeId>,
    /// The text of a text run or an input.
    pub value: Option<String>,
    /// The UTF-8 byte length of each character of `value`.
    pub character_lengths: Vec<u8>,
    /// How changes of the node are announced.
    pub live: Live,
    /// A caret: the text run it stands in and its character index.
    pub text_selection: Option<(NodeId, usize)>,
    /// Whether the node offers the click action.
    pub clickable: bool,
}

/// The contents of a node.
pub struct NodeView {
    pub id: NodeId,
    pub role: Role,
    pub label: Option<Seq<char>>,
    pub description: Option<Seq<char>>,
    pub modal: bool,
    pub selected: bool,
    pub children: Seq<NodeId>,
    pub value: Option<Seq<char>>,
    pub character_lengths: Seq<u8>,
    pub live: Live,
    pub text_selection: Option<(NodeId, usize)>,
    pub clickable: bool,
}

/// The characters of an optional string.
pub open spec fn opt_chars(s: Option<String>) -> Option<Seq<char>> {
    match s {
        Some(t) => Some(t@),
        None => None,
    }
}

impl View for A11yNode {
    type V = NodeView;

    open spec fn view(&self) -> NodeView {
        NodeView {
            id: self.id,
            role: self.role,
            label: opt_chars(self.label),
            description: opt_chars(self.description),
            modal: self.modal,
            selected: self.selected,
            children: self.children@,
            value: opt_chars(self.value),
            character_lengths: self.character_lengths@,
            live: self.live,
            text_selection: self.text_selection,
            clickable: self.clickable,
        }
    }
}

/// The contents of a list of nodes.
pub open spec fn views(v: Seq<A11yNode>) -> Seq<NodeView> {
    v.map_values(|n: A11yNode| n@)
}

/// `ov` lists the host manager with focus `f`: the "SSH host manager"
/// dialog, then one option per listed host in list order.
pub open spec fn host_listing(manager: HostManager, ov: Seq<NodeView>, f: NodeId) -> bool {
    exists|order: Seq<usize>|
        #[trigger] manager.is_filtered_order(order) && ov.len() == order.len() + 1 && ov[0] == dialog_node(
            HOST_MANAGER_ID,
            "SSH host manager"@,
            NODE_ID_HOST_ITEM_OFFSET,
            order.len(),
        ) && (forall|k: int|
            0 <= k < order.len() ==> ov[k + 1] == host_node(manager.hosts_spec()[order[k] as int], k, manager.selected))
            && f == picker_focus(HOST_MANAGER_ID, NODE_ID_HOST_ITEM_OFFSET, order.len(), manager.selected)
}

/// `ov` lists the macro picker with focus `f`: the "Lua macro picker"
/// dialog, then one option per listed macro in list order.
pub open spec fn macro_listing(picker: MacroPicker, ov: Seq<NodeView>, f: NodeId) -> bool {
    exists|order: Seq<usize>|
        #[trigger] picker.is_filtered_order(order) && ov.len() == order.len() + 1 && ov[0] == dialog_node(
            MACRO_PICKER_ID,
            "Lua macro picker"@,
            NODE_ID_MACRO_ITEM_OFFSET,
            order.len(),
        ) && (forall|k: int|
            0 <= k < order.len() ==> ov[k + 1] == macro_node(picker.macros@[order[k] as int], k, picker.selected))
            && f == picker_focus(MACRO_PICKER_ID, NODE_ID_MACRO_ITEM_OFFSET, order.len(), picker.selected)
}

/// The ids `offset + 0 .. offset + n`.
pub open spec fn item_ids(offset: u64, n: nat) -> Seq<NodeId> {
    Seq::new(n, |k: int| (offset + k) as NodeId)
}

/// The focus of a picker: its selected entry when the selection is inside the
/// list, the dialog otherwise.
pub open spec fn picker_focus(dialog: NodeId, offset: u64, n: nat, selected: usize) -> NodeId {
    if n == 0 || selected >= n {
        dialog
    } else {
        (offset + selected) as NodeId
    }
}

/// The label of a host entry: its name, or `user@host` when it has none.
pub open spec fn host_label(h: HostView) -> Seq<char> {
    if h.name.len() == 0 {
        h.username + seq!['@'] + h.host
    } else {
        h.name
    }
}

/// The description of a host entry: `"Host: <host>, user: <user>, port: <port>"`.
pub open spec fn host_description(h: HostView) -> Seq<char> {
    seq!['H', 'o', 's', 't', ':', ' '] + h.host + seq![',', ' ', 'u', 's', 'e', 'r', ':', ' '] + h.username
        + seq![',', ' ', 'p', 'o', 'r', 't', ':', ' '] + decimal(h.port as nat)
}

/// The dialog node of a picker over `n` entries.
pub open spec fn dialog_node(id: NodeId, label: Seq<char>, offset: u64, n: nat) -> NodeView {
    NodeView {
        id,
        role: Role::Dialog,
        label: Some(label),
        description: None,
        modal: true,
        selected: false,
        children: item_ids(offset, n),
        value: None,
        character_lengths: Seq::empty(),
        live: Live::Off,
        text_selection: None,
        clickable: false,
    }
}

/// The node of the host listed at position `k`.
pub open spec fn host_node(h: HostView, k: int, selected: usize) -> NodeView {
    NodeView {
        id: (NODE_ID_HOST_ITEM_OFFSET + k) as NodeId,
        role: Role::ListBoxOption,
        label: Some(host_label(h)),
        description: Some(host_description(h)),
        modal: false,
        selected: k == selected,
        children: Seq::empty(),
        value: None,
        character_lengths: Seq::empty(),
        live: Live::Off,
        text_selection: None,
        clickable: false,
    }
}

/// The node of the macro listed at position `k`: the description is left
/// out when empty.
pub open spec fn macro_node(m: MacroConfig, k: int, selected: usize) -> NodeView {
    NodeView {
        id: (NODE_ID_MACRO_ITEM_OFFSET + k) as NodeId,
        role: Role::ListBoxOption,
        label: Some(m.name@),
        description: if m.description@.len() == 0 {
            None
        } else {
            Some(m.description@)
        },
        modal: false,
        selected: k == selected,
        children: Seq::empty(),
        value: None,
        character_lengths: Seq::empty(),
        live: Live::Off,
        text_selection: None,
        clickable: false,
    }
}

fn children_ids(offset: u64, n: usize) -> (r: Vec<NodeId>)
    requires
        offset + n <= u64::MAX,
    ensures
        r@ == item_ids(offset, n as nat),
{
    let mut r: Vec<NodeId> = Vec::new();
    let mut k: usize = 0;
    while k < n
        invariant
            k <= n,
            offset + n <= u64::MAX,
            r@ == item_ids(offset, k as nat),
        decreases n - k,
    {
        r.push(offset + k as u64);
        assert(r@ =~= item_ids(offset, (k + 1) as nat));
        k = k + 1;
    }
    r
}

fn host_label_string(h: &HostConfig) -> (r: String)
    ensures
        r@ == host_label(h@),
{
    if h.name.as_str().is_empty() {
        let mut s = h.username.clone();
        push_char(&mut s, '@');
        s.append(h.host.as_str());
        assert(s@ =~= host_label(h@));
        s
    } else {
        h.name.clone()
    }
}

fn host_description_string(h: &HostConfig) -> (r: String)
    ensures
        r@ == host_description(h@),
{
    proof {
        reveal_strlit("Host: ");
        reveal_strlit(", user: ");
        reveal_strlit(", port: ");
    }
    let mut s = String::from_str("Host: ");
    s.append(h.host.as_str());
    s.append(", user: ");
    s.append(h.username.as_str());
    s.append(", port: ");
    let digits = decimal_chars(h.port as u64);
    s.append(string_from_chars(&digits).as_str());
    assert(s@ =~= host_description(h@));
    s
}

/// The nodes of the host manager and the node that takes the focus: the
/// "SSH host manager" dialog, then one option per listed host in list order.
pub fn host_manager_nodes(manager: &HostManager) -> (r: (Vec<A11yNode>, NodeId))
    requires
        manager.hosts@.len() <= u64::MAX - NODE_ID_HOST_ITEM_OFFSET,
    ensures
        host_listing(*manager, views(r.0@), r.1),
{
    let order = manager.filtered_order();
    let n = order.len();
    let mut nodes: Vec<A11yNode> = Vec::new();
    nodes.push(A11yNode {
        id: HOST_MANAGER_ID,
        role: Role::Dialog,
        label: Some(String::from_str("SSH host manager")),
        description: None,
        modal: true,
        selected: false,
        children: children_ids(NODE_ID_HOST_ITEM_OFFSET, n),
        value: None,
        character_lengths: Vec::new(),
        live: Live::Off,
        text_selection: None,
        clickable: false,
    });
    let mut k: usize = 0;
    while k < n
        invariant
            k <= n,
            n == order@.len(),
            n <= u64::MAX - NODE_ID_HOST_ITEM_OFFSET,
            forall|j: int| 0 <= j < n ==> order@[j] < manager.hosts_spec().len(),
            nodes@.len() == k + 1,
            nodes@[0]@ == dialog_node(HOST_MANAGER_ID, "SSH host manager"@, NODE_ID_HOST_ITEM_OFFSET, n as nat),
            forall|j: int| 0 <= j < k ==> nodes@[j + 1]@ == host_node(
                manager.hosts_spec()[order@[j] as int],
                j,
                manager.selected,
            ),
        decreases n - k,
    {
        let h = &manager.hosts[order[k]];
        assert(manager.hosts_spec()[order@[k as int] as int] == h@);
        let node = A11yNode {
            id: host_item_id(k),
            role: Role::ListBoxOption,
            label: Some(host_label_string(h)),
            description: Some(host_description_string(h)),
            modal: false,
            selected: k == manager.selected,
            children: Vec::new(),
            value: None,
            character_lengths: Vec::new(),
            live: Live::Off,
            text_selection: None,
            clickable: false,
        };
        assert(node@.children =~= Seq::<NodeId>::empty());
        assert(node@.character_lengths =~= Seq::<u8>::empty());
        nodes.push(node);
        k = k + 1;
    }
    let focus = if n == 0 || manager.selected >= n {
        HOST_MANAGER_ID
    } else {
        host_item_id(manager.selected)
    };
    assert(manager.is_filtered_order(order@));
    assert(views(nodes@)[0] == nodes@[0]@);
    assert forall|k: int| 0 <= k < n implies views(nodes@)[k + 1] == #[trigger] nodes@[k + 1]@ by {}
    (nodes, focus)
}

/// The nodes of the macro picker and the node that takes the focus: the
/// "Lua macro picker" dialog, then one option per listed macro in list order.
pub fn macro_picker_nodes(picker: &MacroPicker) -> (r: (Vec<A11yNode>, NodeId))
    requires
        picker.macros@.len() <= u64::MAX - NODE_ID_MACRO_ITEM_OFFSET,
    ensures
        macro_listing(*picker, views(r.0@), r.1),
{
    let order = picker.filtered_order();
    let n = order.len();
    let mut nodes: Vec<A11yNode> = Vec::new();
    nodes.push(A11yNode {
        id: MACRO_PICKER_ID,
        role: Role::Dialog,
        label: Some(String::from_str("Lua macro picker")),
        description: None,
        modal: true,
        selected: false,
        children: children_ids(NODE_ID_MACRO_ITEM_OFFSET, n),
        value: None,
        character_lengths: Vec::new(),
        live: Live::Off,
        text_selection: None,
        clickable: false,
    });
    let mut k: usize = 0;
    while k < n
        invariant
            k <= n,
            n == order@.len(),
            n <= u64::MAX - NODE_ID_MACRO_ITEM_OFFSET,
            forall|j: int| 0 <= j < n ==> order@[j] < picker.macros@.len(),
            nodes@.len() == k + 1,
            nodes@[0]@ == dialog_node(MACRO_PICKER_ID, "Lua macro picker"@, NODE_ID_MACRO_ITEM_OFFSET, n as nat),
            forall|j: int| 0 <= j < k ==> nodes@[j + 1]@ == macro_node(
                picker.macros@[order@[j] as int],
                j,
                picker.selected,
            ),
        decreases n - k,
    {
        let m = &picker.macros[order[k]];
        let description = if m.description.as_str().is_empty() {
            None
        } else {
            Some(m.description.clone())
        };
        let node = A11yNode {
            id: macro_item_id(k),
            role: Role::ListBoxOption,
            label: Some(m.name.clone()),
            description,
            modal: false,
            selected: k == picker.selected,
            children: Vec::new(),
            value: None,
            character_lengths: Vec::new(),
            live: Live::Off,
            text_selection: None,
            clickable: false,
        };
        assert(node@.children =~= Seq::<NodeId>::empty());
        assert(node@.character_lengths =~= Seq::<u8>::empty());
        nodes.push(node);
        k = k + 1;
    }
    let focus = if n == 0 || picker.selected >= n {
        MACRO_PICKER_ID
    } else {
        macro_item_id(picker.selected)
    };
    assert(picker.is_filtered_order(order@));
    assert(views(nodes@)[0] == nodes@[0]@);
    assert forall|k: int| 0 <= k < n implies views(nodes@)[k + 1] == #[trigger] nodes@[k + 1]@ by {}
    (nodes, focus)
}

} // verus!
