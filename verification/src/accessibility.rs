//! Screen-reader node identities and row text.
//!
//! Every accessibility node gets a stable numeric id: fixed ids for the
//! window, the containers and the overlay roots, and offset ranges for the
//! dynamic nodes (overlay list items, settings tabs and widgets, tabs, panes,
//! pane rows, scrollback rows, alerts). `decode_node_id` maps an id back to
//! the node it denotes. The ranges are laid out so that no two encoders can
//! produce the same id, which the round-trip lemmas below prove.

use vstd::prelude::*;
use crate::text::{string_from_chars};
use crate::tree_state::{spec_tree_hash_input, tree_hash_input, TreeState};

verus! {

/// A node id in the accessibility tree (the raw value of the platform
/// adapter's node id).
pub type NodeId = u64;

/// Root node (the whole OS window).
pub const ROOT_ID: NodeId = 1;
/// Tab bar.
pub const TAB_BAR_ID: NodeId = 2;
/// Pane area container.
pub const PANE_AREA_ID: NodeId = 3;
/// Settings panel root.
pub const SETTINGS_PANEL_ID: NodeId = 4;
/// Command palette root.
pub const PALETTE_ID: NodeId = 5;
/// Host manager root.
pub const HOST_MANAGER_ID: NodeId = 6;
/// Macro picker root.
pub const MACRO_PICKER_ID: NodeId = 7;
/// Context menu root.
pub const CONTEXT_MENU_ID: NodeId = 8;
/// Close-confirmation dialog root.
pub const CLOSE_DIALOG_ID: NodeId = 9;
/// Quick Select overlay root.
pub const QUICK_SELECT_ID: NodeId = 11;
/// Palette search input.
pub const PALETTE_SEARCH_ID: NodeId = 12;
/// Palette candidate list.
pub const PALETTE_LIST_ID: NodeId = 13;
/// "Kill" button of the close dialog.
pub const CLOSE_DIALOG_KILL_BTN: NodeId = 14;
/// "Cancel" button of the close dialog.
pub const CLOSE_DIALOG_CANCEL_BTN: NodeId = 15;
/// Quick Select match list.
pub const QUICK_SELECT_LIST_ID: NodeId = 16;
/// Settings category tab list.
pub const SETTINGS_TABLIST_ID: NodeId = 17;
/// Settings content container.
pub const SETTINGS_CONTENT_ID: NodeId = 25;
/// Screen-reader alert region.
pub const ALERT_REGION_ID: NodeId = 26;
/// Terminal input buffer of the focused pane.
pub const PANE_INPUT_BUFFER_ID: NodeId = 27;
/// Settings footer: open the config file.
pub const SETTINGS_FOOTER_OPEN_ID: NodeId = 31;
/// Settings footer: reset the category.
pub const SETTINGS_FOOTER_RESET_ID: NodeId = 32;
/// SSH delete-confirmation dialog.
pub const SETTINGS_SSH_DELETE_DIALOG_ID: NodeId = 47;
/// Its "Delete" button.
pub const SETTINGS_SSH_DELETE_CONFIRM_BTN_ID: NodeId = 48;
/// Its "Cancel" button.
pub const SETTINGS_SSH_DELETE_CANCEL_BTN_ID: NodeId = 49;
/// Keybinding delete-confirmation dialog.
pub const SETTINGS_KEY_DELETE_DIALOG_ID: NodeId = 54;
/// Its "Delete" button.
pub const SETTINGS_KEY_DELETE_CONFIRM_BTN_ID: NodeId = 55;
/// Its "Cancel" button.
pub const SETTINGS_KEY_DELETE_CANCEL_BTN_ID: NodeId = 56;
/// Title bar: minimise.
pub const WINDOW_MINIMIZE_BTN_ID: NodeId = 57;
/// Title bar: maximise / restore.
pub const WINDOW_MAXIMIZE_BTN_ID: NodeId = 58;
/// Title bar: close.
pub const WINDOW_CLOSE_BTN_ID: NodeId = 59;

/// Base of widget-derived settings nodes (`700M..800M`).
pub const SETTINGS_WIDGET_BASE: u64 = 700_000_000;
/// Base of the settings category tabs (`60..100`).
pub const SETTINGS_TAB_BASE: u64 = 60;
/// Command palette items (`100M + idx`).
pub const NODE_ID_PALETTE_ITEM_OFFSET: u64 = 100_000_000;
/// Host list items (`200M + idx`).
pub const NODE_ID_HOST_ITEM_OFFSET: u64 = 200_000_000;
/// Macro list items (`300M + idx`).
pub const NODE_ID_MACRO_ITEM_OFFSET: u64 = 300_000_000;
/// Context menu items (`400M + idx`).
pub const NODE_ID_CONTEXT_ITEM_OFFSET: u64 = 400_000_000;
/// Quick Select matches (`500M + idx`).
pub const NODE_ID_QUICKSELECT_ITEM_OFFSET: u64 = 500_000_000;
/// Width of each overlay item range.
pub const DYN_RANGE: u64 = 100_000_000;
/// Tabs (`1e9 + pane_id`).
pub const NODE_ID_TAB_OFFSET: u64 = 1_000_000_000;
/// Panes (`1e10 + pane_id`).
pub const NODE_ID_PANE_OFFSET: u64 = 10_000_000_000;
/// Pane rows (`2e10 + pane_id * MAX_ROWS_PER_PANE + offset`).
pub const NODE_ID_PANE_ROW_OFFSET: u64 = 20_000_000_000;
/// Alerts (`5e13 + seq`).
pub const NODE_ID_ALERT_OFFSET: u64 = 50_000_000_000_000;
/// Row ids per pane.
pub const MAX_ROWS_PER_PANE: u64 = 10_000;
/// Row ids per pane reserved for viewport rows.
pub const MAX_VIEWPORT_ROWS_PER_PANE: u64 = 1_000;
/// Row ids per pane reserved for scrollback rows.
pub const MAX_SCROLLBACK_ROWS_PER_PANE: u64 = 9_000;
/// Scrollback rows exposed on each side of the scroll position.
pub const SCROLLBACK_WINDOW_RADIUS: usize = 100;
/// One past the last pane-row id.
pub const PANE_ROW_RANGE_END: u64 = 20_000_000_000 + 0xffff_ffff * 10_000 + 10_000;

/// The single-slot messages of the info-bar stack.
#[derive(Clone, Copy, Debug, PartialEq, Eq, Hash, Structural)]
pub enum InfoBarSlot {
    Update,
    Offline,
    ServerError,
}

/// Identifies a widget of the settings panel: its category (index into the
/// category list) and its position within the category, packed into the low
/// three bytes of a `u32` as `category << 16 | index`.
#[derive(Clone, Copy, Debug, PartialEq, Eq, Hash, Structural)]
pub struct WidgetId {
    pub category: u8,
    pub index: u16,
}

impl WidgetId {
    pub fn new(category: u8, index: u16) -> (w: Self)
        ensures
            w.category == category,
            w.index == index,
    {
        WidgetId { category, index }
    }

    /// The packed form `category << 16 | index`.
    pub fn as_u32(&self) -> (v: u32)
        ensures
            v == self.category as int * 0x1_0000 + self.index as int,
    {
        (self.category as u32) * 0x1_0000 + self.index as u32
    }

    /// Unpack; `None` for values with bits above the category byte.
    pub fn from_u32(v: u32) -> (r: Option<Self>)
        ensures
            r == spec_widget_from_u32(v),
    {
        if v > 0xff_ffff {
            None
        } else {
            Some(WidgetId { category: (v / 0x1_0000) as u8, index: (v % 0x1_0000) as u16 })
        }
    }
}

pub open spec fn spec_widget_from_u32(v: u32) -> Option<WidgetId> {
    if v > 0xff_ffff {
        None
    } else {
        Some(WidgetId { category: (v / 0x1_0000) as u8, index: (v % 0x1_0000) as u16 })
    }
}

/// The kind of node an id denotes.
#[derive(Clone, Copy, Debug, PartialEq, Eq, Structural)]
pub enum NodeIdKind {
    Root,
    TabBar,
    PaneArea,
    SettingsPanel,
    Palette,
    HostManager,
    MacroPicker,
    ContextMenu,
    CloseDialog,
    InfoBar { slot: InfoBarSlot },
    QuickSelect,
    PaletteSearch,
    PaletteList,
    CloseDialogKill,
    CloseDialogCancel,
    QuickSelectList,
    Tab { pane_id: u32 },
    Pane { pane_id: u32 },
    PaletteItem { idx: usize },
    HostItem { idx: usize },
    MacroItem { idx: usize },
    ContextItem { idx: usize },
    QuickSelectItem { idx: usize },
    SettingsTabList,
    SettingsTab { idx: usize },
    WindowMinimizeButton,
    WindowMaximizeButton,
    WindowCloseButton,
    SettingsContent,
    SettingsFooterOpenConfig,
    SettingsFooterResetCategory,
    SettingsWidget { category: u8, index: u16 },
    PaneRow { pane_id: u32, row: u16 },
    PaneScrollbackRow { pane_id: u32, idx: u16 },
    AlertRegion,
    Alert { seq: u64 },
    PaneInputBuffer,
    SettingsSshDeleteDialog,
    SettingsSshDeleteConfirmBtn,
    SettingsSshDeleteCancelBtn,
    SettingsKeyDeleteDialog,
    SettingsKeyDeleteConfirmBtn,
    SettingsKeyDeleteCancelBtn,
    Unknown,
}

/// The id of the info bar in `slot` (one stable id per slot).
pub fn info_bar_node_id(slot: InfoBarSlot) -> (id: NodeId)
    ensures
        id == match slot {
            InfoBarSlot::Update => 28u64,
            InfoBarSlot::Offline => 29u64,
            InfoBarSlot::ServerError => 30u64,
        },
{
    match slot {
        InfoBarSlot::Update => 28,
        InfoBarSlot::Offline => 29,
        InfoBarSlot::ServerError => 30,
    }
}

/// The id of a widget-derived settings node.
pub fn settings_widget_id(id: WidgetId) -> (n: NodeId)
    ensures
        n == SETTINGS_WIDGET_BASE + id.category as int * 0x1_0000 + id.index as int,
{
    SETTINGS_WIDGET_BASE + id.as_u32() as u64
}

/// The id of the settings category tab at `idx`.
pub fn settings_tab_id_at(idx: usize) -> (n: NodeId)
    requires
        idx as int + SETTINGS_TAB_BASE <= u64::MAX,
    ensures
        n == SETTINGS_TAB_BASE + idx,
{
    SETTINGS_TAB_BASE + idx as u64
}

/// The id of the alert with sequence number `seq`.
pub fn alert_node_id(seq: u64) -> (n: NodeId)
    requires
        NODE_ID_ALERT_OFFSET + seq <= u64::MAX,
    ensures
        n == NODE_ID_ALERT_OFFSET + seq,
{
    NODE_ID_ALERT_OFFSET + seq
}

/// The id of the tab of pane `pane_id`.
pub fn tab_node_id(pane_id: u32) -> (n: NodeId)
    ensures
        n == NODE_ID_TAB_OFFSET + pane_id,
{
    NODE_ID_TAB_OFFSET + pane_id as u64
}

/// The id of the terminal node of pane `pane_id`.
pub fn pane_node_id(pane_id: u32) -> (n: NodeId)
    ensures
        n == NODE_ID_PANE_OFFSET + pane_id,
{
    NODE_ID_PANE_OFFSET + pane_id as u64
}

/// The id of viewport row `row` of pane `pane_id`; `row` must be below
/// `MAX_VIEWPORT_ROWS_PER_PANE`.
pub fn pane_row_node_id(pane_id: u32, row: u16) -> (n: NodeId)
    requires
        (row as u64) < MAX_VIEWPORT_ROWS_PER_PANE,
    ensures
        n == NODE_ID_PANE_ROW_OFFSET + pane_id * MAX_ROWS_PER_PANE + row,
{
    assert((pane_id as u64) * MAX_ROWS_PER_PANE <= 0xffff_ffff * 10_000) by (nonlinear_arith)
        requires
            pane_id <= 0xffff_ffff,
    ;
    NODE_ID_PANE_ROW_OFFSET + (pane_id as u64) * MAX_ROWS_PER_PANE + row as u64
}

/// The id of scrollback row `scrollback_idx` of pane `pane_id`;
/// `scrollback_idx` must be below `MAX_SCROLLBACK_ROWS_PER_PANE`.
pub fn pane_scrollback_row_node_id(pane_id: u32, scrollback_idx: u16) -> (n: NodeId)
    requires
        (scrollback_idx as u64) < MAX_SCROLLBACK_ROWS_PER_PANE,
    ensures
        n == NODE_ID_PANE_ROW_OFFSET + pane_id * MAX_ROWS_PER_PANE + MAX_VIEWPORT_ROWS_PER_PANE
            + scrollback_idx,
{
    assert((pane_id as u64) * MAX_ROWS_PER_PANE <= 0xffff_ffff * 10_000) by (nonlinear_arith)
        requires
            pane_id <= 0xffff_ffff,
    ;
    
        NODE_ID_PANE_ROW_OFFSET + (pane_id as u64) * MAX_ROWS_PER_PANE + MAX_VIEWPORT_ROWS_PER_PANE
            + scrollback_idx as u64
    
}

/// The id of palette candidate `idx`.
pub fn palette_item_id(idx: usize) -> (n: NodeId)
    requires
        idx as int + NODE_ID_PALETTE_ITEM_OFFSET <= u64::MAX,
    ensures
        n == NODE_ID_PALETTE_ITEM_OFFSET + idx,
{
    NODE_ID_PALETTE_ITEM_OFFSET + idx as u64
}

/// The id of host list entry `idx`.
pub fn host_item_id(idx: usize) -> (n: NodeId)
    requires
        idx as int + NODE_ID_HOST_ITEM_OFFSET <= u64::MAX,
    ensures
        n == NODE_ID_HOST_ITEM_OFFSET + idx,
{
    NODE_ID_HOST_ITEM_OFFSET + idx as u64
}

/// The id of macro list entry `idx`.
pub fn macro_item_id(idx: usize) -> (n: NodeId)
    requires
        idx as int + NODE_ID_MACRO_ITEM_OFFSET <= u64::MAX,
    ensures
        n == NODE_ID_MACRO_ITEM_OFFSET + idx,
{
    NODE_ID_MACRO_ITEM_OFFSET + idx as u64
}

/// The id of context menu item `idx`.
pub fn context_item_id(idx: usize) -> (n: NodeId)
    requires
        idx as int + NODE_ID_CONTEXT_ITEM_OFFSET <= u64::MAX,
    ensures
        n == NODE_ID_CONTEXT_ITEM_OFFSET + idx,
{
    NODE_ID_CONTEXT_ITEM_OFFSET + idx as u64
}

/// The id of Quick Select match `idx`.
pub fn quickselect_item_id(idx: usize) -> (n: NodeId)
    requires
        idx as int + NODE_ID_QUICKSELECT_ITEM_OFFSET <= u64::MAX,
    ensures
        n == NODE_ID_QUICKSELECT_ITEM_OFFSET + idx,
{
    NODE_ID_QUICKSELECT_ITEM_OFFSET + idx as u64
}

/// What an id in the dynamic ranges denotes.
pub open spec fn spec_decode_dynamic(raw: u64) -> NodeIdKind {
    if NODE_ID_PALETTE_ITEM_OFFSET <= raw < NODE_ID_PALETTE_ITEM_OFFSET + DYN_RANGE {
        NodeIdKind::PaletteItem { idx: (raw - NODE_ID_PALETTE_ITEM_OFFSET) as usize }
    } else if NODE_ID_HOST_ITEM_OFFSET <= raw < NODE_ID_HOST_ITEM_OFFSET + DYN_RANGE {
        NodeIdKind::HostItem { idx: (raw - NODE_ID_HOST_ITEM_OFFSET) as usize }
    } else if NODE_ID_MACRO_ITEM_OFFSET <= raw < NODE_ID_MACRO_ITEM_OFFSET + DYN_RANGE {
        NodeIdKind::MacroItem { idx: (raw - NODE_ID_MACRO_ITEM_OFFSET) as usize }
    } else if NODE_ID_CONTEXT_ITEM_OFFSET <= raw < NODE_ID_CONTEXT_ITEM_OFFSET + DYN_RANGE {
        NodeIdKind::ContextItem { idx: (raw - NODE_ID_CONTEXT_ITEM_OFFSET) as usize }
    } else if NODE_ID_QUICKSELECT_ITEM_OFFSET <= raw < NODE_ID_QUICKSELECT_ITEM_OFFSET + DYN_RANGE {
        NodeIdKind::QuickSelectItem { idx: (raw - NODE_ID_QUICKSELECT_ITEM_OFFSET) as usize }
    } else if NODE_ID_TAB_OFFSET <= raw < NODE_ID_TAB_OFFSET + 0x1_0000_0000 {
        NodeIdKind::Tab { pane_id: (raw - NODE_ID_TAB_OFFSET) as u32 }
    } else if NODE_ID_PANE_OFFSET <= raw < NODE_ID_PANE_OFFSET + 0x1_0000_0000 {
        NodeIdKind::Pane { pane_id: (raw - NODE_ID_PANE_OFFSET) as u32 }
    } else if NODE_ID_PANE_ROW_OFFSET <= raw < PANE_ROW_RANGE_END {
        let normalized = raw - NODE_ID_PANE_ROW_OFFSET;
        let pane_id = (normalized / MAX_ROWS_PER_PANE as int) as u32;
        let offset = normalized % MAX_ROWS_PER_PANE as int;
        if offset < MAX_VIEWPORT_ROWS_PER_PANE {
            NodeIdKind::PaneRow { pane_id, row: offset as u16 }
        } else {
            NodeIdKind::PaneScrollbackRow { pane_id, idx: (offset - MAX_VIEWPORT_ROWS_PER_PANE) as u16 }
        }
    } else if raw >= NODE_ID_ALERT_OFFSET {
        NodeIdKind::Alert { seq: (raw - NODE_ID_ALERT_OFFSET) as u64 }
    } else {
        NodeIdKind::Unknown
    }
}

/// What an id denotes: the fixed ids, the settings tabs (`60..=99`), the
/// settings widgets (`700M..800M`, only the packable sub-range), then the
/// dynamic ranges; anything else is `Unknown`.
pub open spec fn spec_decode_node_id(raw: u64) -> NodeIdKind {
    if raw == 1 {
        NodeIdKind::Root
    } else if raw == 2 {
        NodeIdKind::TabBar
    } else if raw == 3 {
        NodeIdKind::PaneArea
    } else if raw == 4 {
        NodeIdKind::SettingsPanel
    } else if raw == 5 {
        NodeIdKind::Palette
    } else if raw == 6 {
        NodeIdKind::HostManager
    } else if raw == 7 {
        NodeIdKind::MacroPicker
    } else if raw == 8 {
        NodeIdKind::ContextMenu
    } else if raw == 9 {
        NodeIdKind::CloseDialog
    } else if raw == 11 {
        NodeIdKind::QuickSelect
    } else if raw == 12 {
        NodeIdKind::PaletteSearch
    } else if raw == 13 {
        NodeIdKind::PaletteList
    } else if raw == 14 {
        NodeIdKind::CloseDialogKill
    } else if raw == 15 {
        NodeIdKind::CloseDialogCancel
    } else if raw == 16 {
        NodeIdKind::QuickSelectList
    } else if raw == 17 {
        NodeIdKind::SettingsTabList
    } else if 60 <= raw <= 99 {
        NodeIdKind::SettingsTab { idx: (raw - SETTINGS_TAB_BASE) as usize }
    } else if raw == 25 {
        NodeIdKind::SettingsContent
    } else if raw == 26 {
        NodeIdKind::AlertRegion
    } else if raw == 27 {
        NodeIdKind::PaneInputBuffer
    } else if raw == 28 {
        NodeIdKind::InfoBar { slot: InfoBarSlot::Update }
    } else if raw == 29 {
        NodeIdKind::InfoBar { slot: InfoBarSlot::Offline }
    } else if raw == 30 {
        NodeIdKind::InfoBar { slot: InfoBarSlot::ServerError }
    } else if raw == 31 {
        NodeIdKind::SettingsFooterOpenConfig
    } else if raw == 32 {
        NodeIdKind::SettingsFooterResetCategory
    } else if 700_000_000 <= raw <= 799_999_999 {
        match spec_widget_from_u32((raw - SETTINGS_WIDGET_BASE) as u32) {
            Some(w) => NodeIdKind::SettingsWidget { category: w.category, index: w.index },
            None => NodeIdKind::Unknown,
        }
    } else if raw == 47 {
        NodeIdKind::SettingsSshDeleteDialog
    } else if raw == 48 {
        NodeIdKind::SettingsSshDeleteConfirmBtn
    } else if raw == 49 {
        NodeIdKind::SettingsSshDeleteCancelBtn
    } else if raw == 54 {
        NodeIdKind::SettingsKeyDeleteDialog
    } else if raw == 55 {
        NodeIdKind::SettingsKeyDeleteConfirmBtn
    } else if raw == 56 {
        NodeIdKind::SettingsKeyDeleteCancelBtn
    } else if raw == 57 {
        NodeIdKind::WindowMinimizeButton
    } else if raw == 58 {
        NodeIdKind::WindowMaximizeButton
    } else if raw == 59 {
        NodeIdKind::WindowCloseButton
    } else {
        spec_decode_dynamic(raw)
    }
}

/// Decode the dynamic offset ranges.
pub fn decode_dynamic(raw: u64) -> (k: NodeIdKind)
    ensures
        k == spec_decode_dynamic(raw),
{
    if NODE_ID_PALETTE_ITEM_OFFSET <= raw && raw < NODE_ID_PALETTE_ITEM_OFFSET + DYN_RANGE {
        return NodeIdKind::PaletteItem { idx: (raw - NODE_ID_PALETTE_ITEM_OFFSET) as usize };
    }
    if NODE_ID_HOST_ITEM_OFFSET <= raw && raw < NODE_ID_HOST_ITEM_OFFSET + DYN_RANGE {
        return NodeIdKind::HostItem { idx: (raw - NODE_ID_HOST_ITEM_OFFSET) as usize };
    }
    if NODE_ID_MACRO_ITEM_OFFSET <= raw && raw < NODE_ID_MACRO_ITEM_OFFSET + DYN_RANGE {
        return NodeIdKind::MacroItem { idx: (raw - NODE_ID_MACRO_ITEM_OFFSET) as usize };
    }
    if NODE_ID_CONTEXT_ITEM_OFFSET <= raw && raw < NODE_ID_CONTEXT_ITEM_OFFSET + DYN_RANGE {
        return NodeIdKind::ContextItem { idx: (raw - NODE_ID_CONTEXT_ITEM_OFFSET) as usize };
    }
    if NODE_ID_QUICKSELECT_ITEM_OFFSET <= raw && raw < NODE_ID_QUICKSELECT_ITEM_OFFSET + DYN_RANGE {
        return NodeIdKind::QuickSelectItem { idx: (raw - NODE_ID_QUICKSELECT_ITEM_OFFSET) as usize };
    }
    if NODE_ID_TAB_OFFSET <= raw && raw < NODE_ID_TAB_OFFSET + 0x1_0000_0000 {
        return NodeIdKind::Tab { pane_id: (raw - NODE_ID_TAB_OFFSET) as u32 };
    }
    if NODE_ID_PANE_OFFSET <= raw && raw < NODE_ID_PANE_OFFSET + 0x1_0000_0000 {
        return NodeIdKind::Pane { pane_id: (raw - NODE_ID_PANE_OFFSET) as u32 };
    }
    if NODE_ID_PANE_ROW_OFFSET <= raw && raw < PANE_ROW_RANGE_END {
        let normalized = raw - NODE_ID_PANE_ROW_OFFSET;
        let pane_id = (normalized / MAX_ROWS_PER_PANE) as u32;
        let offset_in_pane = normalized % MAX_ROWS_PER_PANE;
        if offset_in_pane < MAX_VIEWPORT_ROWS_PER_PANE {
            return NodeIdKind::PaneRow { pane_id, row: offset_in_pane as u16 };
        } else {
            return NodeIdKind::PaneScrollbackRow {
                pane_id,
                idx: (offset_in_pane - MAX_VIEWPORT_ROWS_PER_PANE) as u16,
            };
        }
    }
    if raw >= NODE_ID_ALERT_OFFSET {
        return NodeIdKind::Alert { seq: raw - NODE_ID_ALERT_OFFSET };
    }
    NodeIdKind::Unknown
}

/// Decode a node id into the kind of node it denotes.
pub fn decode_node_id(id: NodeId) -> (k: NodeIdKind)
    ensures
        k == spec_decode_node_id(id),
{
    let raw = id;
    if raw == 1 {
        NodeIdKind::Root
    } else if raw == 2 {
        NodeIdKind::TabBar
    } else if raw == 3 {
        NodeIdKind::PaneArea
    } else if raw == 4 {
        NodeIdKind::SettingsPanel
    } else if raw == 5 {
        NodeIdKind::Palette
    } else if raw == 6 {
        NodeIdKind::HostManager
    } else if raw == 7 {
        NodeIdKind::MacroPicker
    } else if raw == 8 {
        NodeIdKind::ContextMenu
    } else if raw == 9 {
        NodeIdKind::CloseDialog
    } else if raw == 11 {
        NodeIdKind::QuickSelect
    } else if raw == 12 {
        NodeIdKind::PaletteSearch
    } else if raw == 13 {
        NodeIdKind::PaletteList
    } else if raw == 14 {
        NodeIdKind::CloseDialogKill
    } else if raw == 15 {
        NodeIdKind::CloseDialogCancel
    } else if raw == 16 {
        NodeIdKind::QuickSelectList
    } else if raw == 17 {
        NodeIdKind::SettingsTabList
    } else if 60 <= raw && raw <= 99 {
        NodeIdKind::SettingsTab { idx: (raw - SETTINGS_TAB_BASE) as usize }
    } else if raw == 25 {
        NodeIdKind::SettingsContent
    } else if raw == 26 {
        NodeIdKind::AlertRegion
    } else if raw == 27 {
        NodeIdKind::PaneInputBuffer
    } else if raw == 28 {
        NodeIdKind::InfoBar { slot: InfoBarSlot::Update }
    } else if raw == 29 {
        NodeIdKind::InfoBar { slot: InfoBarSlot::Offline }
    } else if raw == 30 {
        NodeIdKind::InfoBar { slot: InfoBarSlot::ServerError }
    } else if raw == 31 {
        NodeIdKind::SettingsFooterOpenConfig
    } else if raw == 32 {
        NodeIdKind::SettingsFooterResetCategory
    } else if 700_000_000 <= raw && raw <= 799_999_999 {
        match WidgetId::from_u32((raw - SETTINGS_WIDGET_BASE) as u32) {
            Some(w) => NodeIdKind::SettingsWidget { category: w.category, index: w.index },
            None => NodeIdKind::Unknown,
        }
    } else if raw == 47 {
        NodeIdKind::SettingsSshDeleteDialog
    } else if raw == 48 {
        NodeIdKind::SettingsSshDeleteConfirmBtn
    } else if raw == 49 {
        NodeIdKind::SettingsSshDeleteCancelBtn
    } else if raw == 54 {
        NodeIdKind::SettingsKeyDeleteDialog
    } else if raw == 55 {
        NodeIdKind::SettingsKeyDeleteConfirmBtn
    } else if raw == 56 {
        NodeIdKind::SettingsKeyDeleteCancelBtn
    } else if raw == 57 {
        NodeIdKind::WindowMinimizeButton
    } else if raw == 58 {
        NodeIdKind::WindowMaximizeButton
    } else if raw == 59 {
        NodeIdKind::WindowCloseButton
    } else {
        decode_dynamic(raw)
    }
}

/// Decoding inverts every encoder on its documented domain, so ids of
/// different nodes never collide: tabs and panes by pane id, viewport rows
/// below `MAX_VIEWPORT_ROWS_PER_PANE`, scrollback rows below
/// `MAX_SCROLLBACK_ROWS_PER_PANE`, overlay items below the range width,
/// settings tabs below 40 slots, every packable widget, every info-bar slot
/// and every alert whose id fits.
pub proof fn lemma_decode_inverts_encoders(
    pane_id: u32,
    row: u16,
    sb_idx: u16,
    item: usize,
    tab_idx: usize,
    widget: WidgetId,
    slot: InfoBarSlot,
    seq: u64,
)
    ensures
        spec_decode_node_id((NODE_ID_TAB_OFFSET + pane_id) as u64) == (NodeIdKind::Tab { pane_id }),
        spec_decode_node_id((NODE_ID_PANE_OFFSET + pane_id) as u64) == (NodeIdKind::Pane { pane_id }),
        (row as u64) < MAX_VIEWPORT_ROWS_PER_PANE ==> spec_decode_node_id(
            (NODE_ID_PANE_ROW_OFFSET + pane_id * MAX_ROWS_PER_PANE + row) as u64,
        ) == (NodeIdKind::PaneRow { pane_id, row }),
        (sb_idx as u64) < MAX_SCROLLBACK_ROWS_PER_PANE ==> spec_decode_node_id(
            (NODE_ID_PANE_ROW_OFFSET + pane_id * MAX_ROWS_PER_PANE + MAX_VIEWPORT_ROWS_PER_PANE
                + sb_idx) as u64,
        ) == (NodeIdKind::PaneScrollbackRow { pane_id, idx: sb_idx }),
        (item as u64) < DYN_RANGE ==> spec_decode_node_id((NODE_ID_PALETTE_ITEM_OFFSET + item) as u64)
            == (NodeIdKind::PaletteItem { idx: item }),
        (item as u64) < DYN_RANGE ==> spec_decode_node_id((NODE_ID_HOST_ITEM_OFFSET + item) as u64)
            == (NodeIdKind::HostItem { idx: item }),
        (item as u64) < DYN_RANGE ==> spec_decode_node_id((NODE_ID_MACRO_ITEM_OFFSET + item) as u64)
            == (NodeIdKind::MacroItem { idx: item }),
        (item as u64) < DYN_RANGE ==> spec_decode_node_id((NODE_ID_CONTEXT_ITEM_OFFSET + item) as u64)
            == (NodeIdKind::ContextItem { idx: item }),
        (item as u64) < DYN_RANGE ==> spec_decode_node_id(
            (NODE_ID_QUICKSELECT_ITEM_OFFSET + item) as u64,
        ) == (NodeIdKind::QuickSelectItem { idx: item }),
        tab_idx < 40 ==> spec_decode_node_id((SETTINGS_TAB_BASE + tab_idx) as u64)
            == (NodeIdKind::SettingsTab { idx: tab_idx }),
        spec_decode_node_id(
            (SETTINGS_WIDGET_BASE + widget.category as int * 0x1_0000 + widget.index as int) as u64,
        ) == (NodeIdKind::SettingsWidget { category: widget.category, index: widget.index }),
        spec_decode_node_id(
            match slot {
                InfoBarSlot::Update => 28u64,
                InfoBarSlot::Offline => 29u64,
                InfoBarSlot::ServerError => 30u64,
            },
        ) == (NodeIdKind::InfoBar { slot }),
        NODE_ID_ALERT_OFFSET + seq <= u64::MAX ==> spec_decode_node_id((NODE_ID_ALERT_OFFSET + seq) as u64)
            == (NodeIdKind::Alert { seq }),
{
    let p = pane_id as int;
    assert(0 <= p * 10_000 <= 0xffff_ffff * 10_000) by (nonlinear_arith)
        requires
            0 <= p <= 0xffff_ffff,
    ;
    if (row as u64) < MAX_VIEWPORT_ROWS_PER_PANE {
        let n = p * 10_000 + row;
        assert(n / 10_000 == p && n % 10_000 == row) by (nonlinear_arith)
            requires
                n == p * 10_000 + row,
                0 <= row < 1000,
                0 <= p,
        ;
    }
    if (sb_idx as u64) < MAX_SCROLLBACK_ROWS_PER_PANE {
        let n = p * 10_000 + 1000 + sb_idx;
        assert(n / 10_000 == p && n % 10_000 == 1000 + sb_idx) by (nonlinear_arith)
            requires
                n == p * 10_000 + 1000 + sb_idx,
                0 <= sb_idx < 9000,
                0 <= p,
        ;
    }
    let c = widget.category as int;
    let i = widget.index as int;
    let v = c * 0x1_0000 + i;
    assert(0 <= v <= 0xff_ffff && v / 0x1_0000 == c && v % 0x1_0000 == i) by (nonlinear_arith)
        requires
            v == c * 0x1_0000 + i,
            0 <= c <= 0xff,
            0 <= i <= 0xffff,
    ;
}

/// One terminal cell, as far as the screen reader is concerned: its
/// character (colours and attributes do not reach the text).
#[derive(Clone, Copy, Debug, PartialEq, Eq, Structural)]
pub struct Cell {
    pub ch: char,
}

/// The visible grid of a pane: its rows of cells and its height in rows.
#[derive(Clone, Debug)]
pub struct Grid {
    pub rows: Vec<Vec<Cell>>,
    pub height: u16,
}

/// The characters of a row of cells.
pub open spec fn row_chars(cells: Seq<Cell>) -> Seq<char> {
    cells.map_values(|c: Cell| c.ch)
}

/// `s` without its trailing ASCII spaces.
pub open spec fn trim_trailing_spaces(s: Seq<char>) -> Seq<char>
    decreases s.len(),
{
    if s.len() > 0 && s.last() == ' ' {
        trim_trailing_spaces(s.drop_last())
    } else {
        s
    }
}

/// The screen-reader text of a row: its characters without trailing ASCII
/// spaces, or a single space when nothing is left.
pub open spec fn spec_row_text(cells: Seq<Cell>) -> Seq<char> {
    let t = trim_trailing_spaces(row_chars(cells));
    if t.len() == 0 {
        seq![' ']
    } else {
        t
    }
}

/// The number of bytes of the UTF-8 encoding of `c`.
pub open spec fn spec_len_utf8(c: char) -> u8 {
    let u = c as u32;
    if u < 0x80 {
        1
    } else if u < 0x800 {
        2
    } else if u < 0x1_0000 {
        3
    } else {
        4
    }
}

/// Byte length of the UTF-8 encoding of `c`.
pub fn len_utf8(c: char) -> (n: u8)
    ensures
        n == spec_len_utf8(c),
{
    let u = c as u32;
    if u < 0x80 {
        1
    } else if u < 0x800 {
        2
    } else if u < 0x1_0000 {
        3
    } else {
        4
    }
}

proof fn lemma_trim_trailing_spaces_at(s: Seq<char>, b: int)
    requires
        0 <= b <= s.len(),
        forall|j: int| b <= j < s.len() ==> #[trigger] s[j] == ' ',
        b == 0 || s[b - 1] != ' ',
    ensures
        trim_trailing_spaces(s) == s.subrange(0, b),
    decreases s.len() - b,
{
    if b == s.len() {
        assert(s.subrange(0, b) =~= s);
    } else {
        let t = s.drop_last();
        assert forall|j: int| b <= j < t.len() implies #[trigger] t[j] == ' ' by {
            assert(t[j] == s[j]);
        }
        lemma_trim_trailing_spaces_at(t, b);
        assert(t.subrange(0, b) =~= s.subrange(0, b));
    }
}

/// The characters of `cells`, trimmed of trailing spaces, and their count
/// before trimming.
fn trimmed_row_chars(cells: &[Cell]) -> (v: Vec<char>)
    ensures
        v@ == trim_trailing_spaces(row_chars(cells@)),
{
    let mut all: Vec<char> = Vec::new();
    let n = cells.len();
    for i in 0..n
        invariant
            n == cells@.len(),
            all@ == row_chars(cells@.take(i as int)),
    {
        all.push(cells[i].ch);
        assert(row_chars(cells@.take(i + 1)) =~= row_chars(cells@.take(i as int)).push(cells@[i as int].ch));
    }
    assert(cells@.take(n as int) =~= cells@);
    let mut b = all.len();
    while b > 0 && all[b - 1] == ' '
        invariant
            b <= all@.len(),
            forall|j: int| b <= j < all@.len() ==> #[trigger] all@[j] == ' ',
        decreases b,
    {
        b = b - 1;
    }
    proof {
        lemma_trim_trailing_spaces_at(all@, b as int);
    }
    let mut v: Vec<char> = Vec::new();
    for i in 0..b
        invariant
            b <= all@.len(),
            v@ == all@.subrange(0, i as int),
    {
        v.push(all[i]);
        assert(all@.subrange(0, i + 1) =~= all@.subrange(0, i as int).push(all@[i as int]));
    }
    v
}

/// Screen-reader text of row `row` of `grid`: the row's characters with
/// trailing ASCII spaces removed, `" "` for an empty result or a row that
/// does not exist.
pub fn pane_row_text(grid: &Grid, row: usize) -> (s: String)
    ensures
        row < grid.rows@.len() ==> s@ == spec_row_text(grid.rows@[row as int]@),
        row >= grid.rows@.len() ==> s@ == seq![' '],
{
    if row >= grid.rows.len() {
        let mut sp = String::new();
        crate::text::push_char(&mut sp, ' ');
        assert(sp@ =~= seq![' ']);
        return sp;
    }
    let v = trimmed_row_chars(grid.rows[row].as_slice());
    if v.len() == 0 {
        let mut sp = String::new();
        crate::text::push_char(&mut sp, ' ');
        assert(sp@ =~= seq![' ']);
        sp
    } else {
        string_from_chars(&v)
    }
}

/// Row text plus the UTF-8 byte length of each of its characters.
pub fn cells_to_row_text_with_lengths(cells: &[Cell]) -> (r: (String, Vec<u8>))
    ensures
        r.0@ == spec_row_text(cells@),
        r.1@.len() == r.0@.len(),
        forall|i: int| 0 <= i < r.1@.len() ==> r.1@[i] == #[trigger] spec_len_utf8(r.0@[i]),
{
    let v = trimmed_row_chars(cells);
    if v.len() == 0 {
        let mut sp = String::new();
        crate::text::push_char(&mut sp, ' ');
        assert(sp@ =~= seq![' ']);
        let mut lens: Vec<u8> = Vec::new();
        lens.push(1);
        return (sp, lens);
    }
    let mut lens: Vec<u8> = Vec::new();
    let n = v.len();
    for i in 0..n
        invariant
            n == v@.len(),
            lens@.len() == i,
            forall|j: int| 0 <= j < i ==> lens@[j] == #[trigger] spec_len_utf8(v@[j]),
    {
        lens.push(len_utf8(v[i]));
    }
    (string_from_chars(&v), lens)
}

/// Row text and character lengths of row `row` of `grid` (`(" ", [1])` for
/// a missing row).
pub fn pane_row_text_with_lengths(grid: &Grid, row: usize) -> (r: (String, Vec<u8>))
    ensures
        row < grid.rows@.len() ==> r.0@ == spec_row_text(grid.rows@[row as int]@),
        row >= grid.rows@.len() ==> r.0@ == seq![' '] && r.1@ == seq![1u8],
        r.1@.len() == r.0@.len(),
        forall|i: int| 0 <= i < r.1@.len() ==> r.1@[i] == #[trigger] spec_len_utf8(r.0@[i]),
{
    if row >= grid.rows.len() {
        let mut sp = String::new();
        crate::text::push_char(&mut sp, ' ');
        assert(sp@ =~= seq![' ']);
        let mut lens: Vec<u8> = Vec::new();
        lens.push(1);
        assert(lens@ =~= seq![1u8]);
        return (sp, lens);
    }
    cells_to_row_text_with_lengths(grid.rows[row].as_slice())
}

/// Row text and character lengths of one scrollback line.
pub fn scrollback_row_text_with_lengths(line: &[Cell]) -> (r: (String, Vec<u8>))
    ensures
        r.0@ == spec_row_text(line@),
        r.1@.len() == r.0@.len(),
        forall|i: int| 0 <= i < r.1@.len() ==> r.1@[i] == #[trigger] spec_len_utf8(r.0@[i]),
{
    cells_to_row_text_with_lengths(line)
}

/// The text position of cell column `cursor_col`: the column itself,
/// clamped to the number of characters of `text`.
pub fn cursor_character_index(text: &str, cursor_col: u16) -> (i: usize)
    ensures
        i == if (cursor_col as int) < text@.len() { cursor_col as int } else { text@.len() as int },
{
    let v = crate::text::chars_of(text);
    let char_count = v.len();
    if (cursor_col as usize) < char_count {
        cursor_col as usize
    } else {
        char_count
    }
}

/// What `DefaultHasher` (created with `DefaultHasher::new`, fixed keys)
/// yields after hashing the string `s`.
pub uninterp spec fn default_hash_of_text(s: Seq<char>) -> u64;

/// Hashes a string with a fresh `std::collections::hash_map::DefaultHasher`.
/// The result is a function of the text alone within one build of the
/// program; std documents the algorithm as unspecified across releases.
#[verifier::external_body]
fn hash_text(s: &String) -> (h: u64)
    ensures
        h == default_hash_of_text(s@),
{
    let mut hasher = std::collections::hash_map::DefaultHasher::new();
    std::hash::Hash::hash(s, &mut hasher);
    std::hash::Hasher::finish(&hasher)
}

/// Per-row text hashes of the grid: one per row, for the first
/// `min(height, rows.len())` rows, each the hash of the row's screen-reader
/// text.
pub fn compute_grid_row_hashes(grid: &Grid) -> (hashes: Vec<u64>)
    ensures
        hashes@.len() == if (grid.height as int) < grid.rows@.len() { grid.height as int } else { grid.rows@.len() as int },
        forall|r: int|
            0 <= r < hashes@.len() ==> hashes@[r] == default_hash_of_text(
                spec_row_text(#[trigger] grid.rows@[r]@),
            ),
{
    let row_count = if (grid.height as usize) < grid.rows.len() {
        grid.height as usize
    } else {
        grid.rows.len()
    };
    let mut hashes: Vec<u64> = Vec::new();
    for r in 0..row_count
        invariant
            row_count <= grid.rows@.len(),
            hashes@.len() == r,
            forall|j: int|
                0 <= j < r ==> hashes@[j] == default_hash_of_text(spec_row_text(#[trigger] grid.rows@[j]@)),
    {
        let text = pane_row_text(grid, r);
        hashes.push(hash_text(&text));
    }
    hashes
}


/// What `DefaultHasher` (created with `DefaultHasher::new`, fixed keys)
/// yields after hashing the word slice `w` (its length, then each word).
pub uninterp spec fn default_hash_of_words(w: Seq<u64>) -> u64;

/// Hashes a slice of words with a fresh
/// `std::collections::hash_map::DefaultHasher` (`Hash for [u64]`, then
/// `finish`). The result is a function of the words alone within one build
/// of the program.
#[verifier::external_body]
fn hash_words(w: &Vec<u64>) -> (h: u64)
    ensures
        h == default_hash_of_words(w@),
{
    let mut hasher = std::collections::hash_map::DefaultHasher::new();
    std::hash::Hash::hash(w.as_slice(), &mut hasher);
    std::hash::Hasher::finish(&hasher)
}

/// A hash of every piece of client state the accessibility tree is built
/// from, read in a deterministic pane order (the tab order, or the pane ids
/// ascending without one), so the tree is rebuilt exactly when its input
/// may have changed (see `lemma_tree_input_determines_state`).
pub fn compute_tree_state_hash(s: &TreeState) -> (h: u64)
    ensures
        h == default_hash_of_words(spec_tree_hash_input(*s)),
{
    let words = tree_hash_input(s);
    hash_words(&words)
}

} // verus!
