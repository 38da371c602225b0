use nexterm_client::accessibility::{
    alert_node_id, context_item_id, decode_node_id, pane_node_id, pane_row_node_id, NodeIdKind, SCROLLBACK_WINDOW_RADIUS, quickselect_item_id, tab_node_id, Cell, Grid, ALERT_REGION_ID,
    CLOSE_DIALOG_CANCEL_BTN, CLOSE_DIALOG_ID, CLOSE_DIALOG_KILL_BTN, CONTEXT_MENU_ID, HOST_MANAGER_ID,
    MACRO_PICKER_ID, PALETTE_ID, PANE_AREA_ID, PANE_INPUT_BUFFER_ID, QUICK_SELECT_ID, QUICK_SELECT_LIST_ID, ROOT_ID,
    SETTINGS_PANEL_ID, TAB_BAR_ID,
};
use nexterm_client::alerts::{AlertKind, AlertQueue};
use nexterm_client::host_manager::HostManager;
use nexterm_client::macro_picker::{MacroConfig, MacroPicker};
use nexterm_client::pane_tree::{BaseState, PaneContent};
use nexterm_client::picker_nodes::{A11yNode, Live, Role};
use nexterm_client::tree_nodes::{
    build_tree, BuiltOverlay, CloseDialog, ContextMenu, MenuItem, QuickMatch, QuickSelect, TreeParts,
};

fn pane(id: u32, title: &str) -> PaneContent {
    PaneContent {
        id,
        title: title.to_string(),
        cwd: None,
        grid: Grid { rows: (0..24).map(|_| vec![Cell { ch: ' ' }; 80]).collect(), height: 24 },
        cursor_row: 0,
        cursor_col: 0,
        scrollback: Vec::new(),
        scroll_offset: 0,
    }
}

fn parts() -> TreeParts {
    TreeParts {
        base: BaseState { tab_order: Vec::new(), focused_pane_id: None, panes: Vec::new(), window_buttons_visible: false },
        close_dialog: None,
        quick_select: QuickSelect { is_active: false, typed_label: String::new(), matches: Vec::new() },
        context_menu: None,
        palette: None,
        host_manager: HostManager::new(Vec::new(), Vec::new(), Vec::new()),
        macro_picker: MacroPicker::new(Vec::new()),
        settings_panel: None,
        info_bars: Vec::new(),
        alerts: AlertQueue::new(),
    }
}

fn plain(id: u64, role: Role, label: &str) -> A11yNode {
    A11yNode {
        id,
        role,
        label: Some(label.to_string()),
        description: None,
        modal: false,
        selected: false,
        children: Vec::new(),
        value: None,
        character_lengths: Vec::new(),
        live: Live::Off,
        text_selection: None,
        clickable: false,
    }
}

fn palette() -> BuiltOverlay {
    BuiltOverlay { nodes: vec![plain(PALETTE_ID, Role::Dialog, "Command palette")], focus: PALETTE_ID }
}

fn close_dialog(selected_button: u8) -> CloseDialog {
    CloseDialog {
        message: "Test".to_string(),
        kill_label: "OK".to_string(),
        cancel_label: "Cancel".to_string(),
        selected_button,
    }
}

fn menu() -> ContextMenu {
    ContextMenu {
        items: vec![
            MenuItem { label: "Copy".to_string(), hint: "Ctrl+C".to_string(), is_separator: false },
            MenuItem { label: String::new(), hint: String::new(), is_separator: true },
            MenuItem { label: "Paste".to_string(), hint: String::new(), is_separator: false },
        ],
        hovered: None,
    }
}

fn quick(label: &str, text: &str) -> QuickMatch {
    QuickMatch { label: label.to_string(), text: text.to_string() }
}

fn ids(nodes: &[A11yNode]) -> Vec<u64> {
    nodes.iter().map(|n| n.id).collect()
}

fn node(nodes: &[A11yNode], id: u64) -> &A11yNode {
    nodes.iter().find(|n| n.id == id).expect("node present")
}

#[test]
fn build_tree_from_empty_state() {
    let (nodes, focus) = build_tree(&parts());
    // Window, tab list, pane area and the input buffer.
    assert_eq!(nodes.len(), 4);
    assert_eq!(focus, ROOT_ID);
    assert_eq!(nodes[0].children, vec![TAB_BAR_ID, PANE_AREA_ID]);
}

#[test]
fn build_tree_with_single_pane() {
    let mut p = parts();
    p.base.panes = vec![pane(42, "")];
    p.base.tab_order = vec![42];
    p.base.focused_pane_id = Some(42);
    let (nodes, focus) = build_tree(&p);
    assert_eq!(nodes.len(), 30);
    assert_eq!(focus, pane_node_id(42));
    let all = ids(&nodes);
    assert!(all.contains(&tab_node_id(42)));
    assert!(all.contains(&pane_node_id(42)));
    assert!(all.contains(&PANE_INPUT_BUFFER_ID));
}

#[test]
fn build_tree_respects_tab_order() {
    let mut p = parts();
    p.base.panes = vec![pane(10, ""), pane(20, ""), pane(30, "")];
    p.base.tab_order = vec![30, 10, 20];
    p.base.focused_pane_id = Some(10);
    let (nodes, focus) = build_tree(&p);
    assert_eq!(nodes.len(), 82);
    assert_eq!(focus, pane_node_id(10));
}

#[test]
fn build_tree_uses_pane_title() {
    let mut p = parts();
    let mut pn = pane(1, "vim main.rs");
    pn.cwd = Some("/home/user/project".to_string());
    p.base.panes = vec![pn];
    p.base.tab_order = vec![1];
    let (nodes, _) = build_tree(&p);
    assert_eq!(nodes.len(), 30);
    assert_eq!(node(&nodes, pane_node_id(1)).label.as_deref(), Some("vim main.rs"));
}

#[test]
fn build_tree_with_close_dialog() {
    let mut p = parts();
    p.close_dialog = Some(CloseDialog {
        message: "A process is still running. Close anyway?".to_string(),
        kill_label: "Force kill".to_string(),
        cancel_label: "Cancel".to_string(),
        selected_button: 1,
    });
    let (nodes, focus) = build_tree(&p);
    let all = ids(&nodes);
    assert!(all.contains(&CLOSE_DIALOG_ID));
    assert!(all.contains(&CLOSE_DIALOG_KILL_BTN));
    assert!(all.contains(&CLOSE_DIALOG_CANCEL_BTN));
    assert_eq!(focus, CLOSE_DIALOG_CANCEL_BTN);
    let d = node(&nodes, CLOSE_DIALOG_ID);
    assert_eq!(d.role, Role::AlertDialog);
    assert_eq!(d.label.as_deref(), Some("Close window?"));
    assert_eq!(d.description.as_deref(), Some("A process is still running. Close anyway?"));
    assert!(d.modal);
    assert!(node(&nodes, CLOSE_DIALOG_CANCEL_BTN).selected);
    assert!(!node(&nodes, CLOSE_DIALOG_KILL_BTN).selected);
    assert_eq!(nodes[0].children, vec![TAB_BAR_ID, PANE_AREA_ID, CLOSE_DIALOG_ID]);
}

#[test]
fn a_confirmed_close_dialog_focuses_the_kill_button() {
    let mut p = parts();
    p.close_dialog = Some(close_dialog(0xFE));
    let (_, focus) = build_tree(&p);
    assert_eq!(focus, CLOSE_DIALOG_KILL_BTN);
}

#[test]
fn build_tree_with_context_menu() {
    let mut p = parts();
    p.context_menu = Some(menu());
    let (nodes, focus) = build_tree(&p);
    assert!(ids(&nodes).contains(&CONTEXT_MENU_ID));
    assert_eq!(focus, CONTEXT_MENU_ID);
    let copy = node(&nodes, context_item_id(0));
    assert_eq!(copy.role, Role::MenuItem);
    assert_eq!(copy.label.as_deref(), Some("Copy"));
    assert_eq!(copy.description.as_deref(), Some("Ctrl+C"));
    let sep = node(&nodes, context_item_id(1));
    assert_eq!(sep.role, Role::Splitter);
    assert_eq!(sep.label, None);
    assert_eq!(node(&nodes, context_item_id(2)).description, None);
}

#[test]
fn context_menu_focus_follows_the_hovered_item() {
    let mut p = parts();
    let mut m = menu();
    m.hovered = Some(2);
    p.context_menu = Some(m);
    assert_eq!(build_tree(&p).1, context_item_id(2));
    let mut m = menu();
    m.hovered = Some(3);
    p.context_menu = Some(m);
    assert_eq!(build_tree(&p).1, CONTEXT_MENU_ID);
}

#[test]
fn close_dialog_takes_priority_over_palette() {
    let mut p = parts();
    p.palette = Some(palette());
    p.close_dialog = Some(close_dialog(0));
    let (nodes, _) = build_tree(&p);
    let all = ids(&nodes);
    assert!(all.contains(&CLOSE_DIALOG_ID));
    assert!(!all.contains(&PALETTE_ID), "Palette should not be present while CloseWindowDialog is shown");
}

#[test]
fn build_tree_with_quick_select_overlay() {
    let mut p = parts();
    p.quick_select.is_active = true;
    p.quick_select.matches = vec![quick("a", "https://example.com"), quick("b", "foo@bar.com")];
    let (nodes, focus) = build_tree(&p);
    let all = ids(&nodes);
    assert!(all.contains(&QUICK_SELECT_ID), "QUICK_SELECT_ID is missing");
    assert!(all.contains(&QUICK_SELECT_LIST_ID), "QUICK_SELECT_LIST_ID is missing");
    assert!(all.contains(&quickselect_item_id(0)), "match item 0 is missing");
    assert!(all.contains(&quickselect_item_id(1)), "match item 1 is missing");
    assert_eq!(focus, quickselect_item_id(0));
    assert_eq!(node(&nodes, QUICK_SELECT_LIST_ID).label.as_deref(), Some("2 match(es)"));
    assert_eq!(node(&nodes, quickselect_item_id(0)).label.as_deref(), Some("[a] https://example.com"));
    assert_eq!(
        node(&nodes, QUICK_SELECT_ID).description.as_deref(),
        Some("Press a label key to copy an item to the clipboard")
    );
}

#[test]
fn quick_select_focus_follows_typed_label() {
    let mut p = parts();
    p.quick_select.is_active = true;
    p.quick_select.typed_label = "b".to_string();
    p.quick_select.matches = vec![quick("a", "alpha"), quick("b", "beta")];
    let (nodes, focus) = build_tree(&p);
    assert_eq!(focus, quickselect_item_id(1));
    assert!(node(&nodes, quickselect_item_id(1)).selected);
    assert!(!node(&nodes, quickselect_item_id(0)).selected);
    assert_eq!(node(&nodes, QUICK_SELECT_ID).description.as_deref(), Some("Typing label: 'b'"));
}

#[test]
fn quick_select_focus_falls_back_to_list_when_empty() {
    let mut p = parts();
    p.quick_select.is_active = true;
    assert_eq!(build_tree(&p).1, QUICK_SELECT_LIST_ID);
}

#[test]
fn close_dialog_takes_priority_over_quick_select() {
    let mut p = parts();
    p.quick_select.is_active = true;
    p.quick_select.matches = vec![quick("a", "foo")];
    p.close_dialog = Some(close_dialog(0));
    let all = ids(&build_tree(&p).0);
    assert!(all.contains(&CLOSE_DIALOG_ID));
    assert!(!all.contains(&QUICK_SELECT_ID), "Quick Select must not appear while CloseDialog is shown");
}

#[test]
fn quick_select_takes_priority_over_context_menu_and_palette() {
    let mut p = parts();
    p.quick_select.is_active = true;
    p.palette = Some(palette());
    p.context_menu = Some(menu());
    let all = ids(&build_tree(&p).0);
    assert!(all.contains(&QUICK_SELECT_ID));
    assert!(!all.contains(&CONTEXT_MENU_ID), "ContextMenu must not appear while Quick Select is active");
    assert!(!all.contains(&PALETTE_ID), "Palette must not appear while Quick Select is active");
}

#[test]
fn the_pickers_and_the_settings_panel_follow_in_priority_order() {
    let mut p = parts();
    p.host_manager.is_open = true;
    p.macro_picker = MacroPicker::new(vec![MacroConfig { name: "m".to_string(), description: String::new() }]);
    p.macro_picker.is_open = true;
    p.settings_panel = Some(BuiltOverlay {
        nodes: vec![plain(SETTINGS_PANEL_ID, Role::Dialog, "Settings")],
        focus: SETTINGS_PANEL_ID,
    });
    let (nodes, focus) = build_tree(&p);
    assert_eq!(focus, HOST_MANAGER_ID);
    assert_eq!(nodes[0].children, vec![TAB_BAR_ID, PANE_AREA_ID, HOST_MANAGER_ID]);
    p.host_manager.is_open = false;
    let (nodes, _) = build_tree(&p);
    assert!(ids(&nodes).contains(&MACRO_PICKER_ID));
    assert!(!ids(&nodes).contains(&SETTINGS_PANEL_ID));
    p.macro_picker.is_open = false;
    let (nodes, focus) = build_tree(&p);
    assert_eq!(focus, SETTINGS_PANEL_ID);
    assert_eq!(nodes.last().unwrap().label.as_deref(), Some("Settings"));
}

#[test]
fn info_bars_coexist_with_an_overlay() {
    let mut p = parts();
    p.palette = Some(palette());
    let mut bar = plain(40, Role::Alert, "Update available");
    bar.live = Live::Polite;
    p.info_bars = vec![bar];
    let (nodes, focus) = build_tree(&p);
    assert_eq!(focus, PALETTE_ID);
    assert_eq!(nodes[0].children, vec![TAB_BAR_ID, PANE_AREA_ID, PALETTE_ID, 40]);
    assert_eq!(nodes.last().unwrap().label.as_deref(), Some("Update available"));
}

#[test]
fn build_tree_without_alerts_omits_alert_region() {
    let (nodes, _) = build_tree(&parts());
    assert!(!ids(&nodes).contains(&ALERT_REGION_ID));
    assert!(!nodes[0].children.contains(&ALERT_REGION_ID));
}

#[test]
fn build_tree_with_alerts_includes_alert_region_and_children() {
    let mut p = parts();
    let s0 = p.alerts.add_alert_at(AlertKind::Bell, 1, "Bell".to_string(), String::new(), 0);
    let s1 = p.alerts.add_alert_at(AlertKind::Notification, 1, "Build done".to_string(), "All green".to_string(), 0);
    let (nodes, _) = build_tree(&p);
    assert!(nodes[0].children.contains(&ALERT_REGION_ID));
    let region = node(&nodes, ALERT_REGION_ID);
    assert_eq!(region.role, Role::Group);
    assert_eq!(region.label.as_deref(), Some("Notifications"));
    assert_eq!(region.live, Live::Assertive);
    assert_eq!(region.children, vec![alert_node_id(s0), alert_node_id(s1)]);
    let bell = node(&nodes, alert_node_id(s0));
    assert_eq!(bell.role, Role::Alert);
    assert_eq!(bell.label.as_deref(), Some("Bell"));
    assert_eq!(bell.description, None);
    let note = node(&nodes, alert_node_id(s1));
    assert_eq!(note.label.as_deref(), Some("Notification: Build done"));
    assert_eq!(note.description.as_deref(), Some("All green"));
}

fn sized_pane(id: u32, cols: usize, rows: u16) -> PaneContent {
    PaneContent {
        id,
        title: String::new(),
        cwd: None,
        grid: Grid { rows: (0..rows).map(|_| vec![Cell { ch: ' ' }; cols]).collect(), height: rows },
        cursor_row: 0,
        cursor_col: 0,
        scrollback: Vec::new(),
        scroll_offset: 0,
    }
}

fn write(p: &mut PaneContent, row: usize, text: &str) {
    for (c, ch) in text.chars().enumerate() {
        p.grid.rows[row][c] = Cell { ch };
    }
}

fn with_panes(panes: Vec<PaneContent>, order: Vec<u32>, focused: u32) -> TreeParts {
    let mut p = parts();
    p.base.panes = panes;
    p.base.tab_order = order;
    p.base.focused_pane_id = Some(focused);
    p
}

fn count_kind(nodes: &[A11yNode], pred: impl Fn(NodeIdKind) -> bool) -> usize {
    nodes.iter().filter(|n| pred(decode_node_id(n.id))).count()
}

#[test]
fn build_tree_includes_pane_rows() {
    let mut pane = sized_pane(1, 10, 5);
    pane.title = "test".to_string();
    write(&mut pane, 0, "hello");
    let (nodes, _) = build_tree(&with_panes(vec![pane], vec![1], 1));
    let rows = count_kind(&nodes, |k| matches!(k, NodeIdKind::PaneRow { pane_id: 1, .. }));
    assert_eq!(rows, 5, "5 PaneRow nodes are not present");
    assert_eq!(node(&nodes, pane_row_node_id(1, 0)).value.as_deref(), Some("hello"));
}

#[test]
fn build_tree_focused_pane_has_live_polite() {
    let mut pane1 = sized_pane(1, 5, 3);
    pane1.cursor_row = 1;
    let pane2 = sized_pane(2, 5, 3);
    let (nodes, _) = build_tree(&with_panes(vec![pane1, pane2], vec![1, 2], 1));
    assert_eq!(node(&nodes, pane_row_node_id(1, 1)).live, Live::Polite);
    for row in [0u16, 2u16] {
        assert_eq!(node(&nodes, pane_row_node_id(1, row)).live, Live::Off, "pane 1 row {row} is a non-cursor row");
    }
    for row in 0u16..3u16 {
        assert_eq!(node(&nodes, pane_row_node_id(2, row)).live, Live::Off, "non-focused pane 2 row {row}");
    }
}

fn scrollback_of(lines: Vec<&str>) -> Vec<Vec<Cell>> {
    lines.into_iter().map(|l| l.chars().map(|ch| Cell { ch }).collect()).collect()
}

#[test]
fn build_tree_no_scrollback_when_empty() {
    let (nodes, _) = build_tree(&with_panes(vec![sized_pane(1, 5, 2)], vec![1], 1));
    let sb = count_kind(&nodes, |k| matches!(k, NodeIdKind::PaneScrollbackRow { .. }));
    assert_eq!(sb, 0, "an empty scrollback yields 0 row nodes");
}

#[test]
fn build_tree_includes_scrollback_rows_when_present() {
    let mut pane = sized_pane(1, 5, 2);
    pane.scrollback = scrollback_of(vec!["line0", "line1", "line2"]);
    let (nodes, _) = build_tree(&with_panes(vec![pane], vec![1], 1));
    let sb = count_kind(&nodes, |k| matches!(k, NodeIdKind::PaneScrollbackRow { pane_id: 1, .. }));
    assert_eq!(sb, 3, "3 scrollback row nodes must be present");
}

#[test]
fn build_tree_scrollback_window_radius_limit() {
    let mut pane = sized_pane(1, 5, 2);
    pane.scrollback = scrollback_of(vec!["x"; 500]);
    let (nodes, _) = build_tree(&with_panes(vec![pane], vec![1], 1));
    let sb = count_kind(&nodes, |k| matches!(k, NodeIdKind::PaneScrollbackRow { pane_id: 1, .. }));
    let expected_max = SCROLLBACK_WINDOW_RADIUS * 2 + 1;
    assert!(sb <= expected_max, "scrollback row count {sb} exceeds window limit {expected_max}");
    assert!(sb > 0, "at least 1 row must fall within the window");
}

#[test]
fn build_tree_focused_pane_cursor_row_has_text_selection() {
    let mut pane = sized_pane(1, 10, 5);
    write(&mut pane, 2, "abc");
    pane.cursor_row = 2;
    pane.cursor_col = 2;
    let (nodes, _) = build_tree(&with_panes(vec![pane], vec![1], 1));
    let sel = node(&nodes, pane_node_id(1)).text_selection.expect("a caret on the focused pane's cursor row");
    assert_eq!(sel.0, pane_row_node_id(1, 2));
    assert_eq!(sel.1, 2);
}

#[test]
fn build_tree_non_focused_pane_has_no_text_selection() {
    let (nodes, _) = build_tree(&with_panes(vec![sized_pane(1, 5, 2), sized_pane(2, 5, 2)], vec![1, 2], 1));
    assert!(node(&nodes, pane_node_id(2)).text_selection.is_none(), "a non-focused pane must not have a caret");
}

#[test]
fn build_tree_alert_without_body_omits_description() {
    let mut p = parts();
    let seq = p.alerts.add_alert(AlertKind::Bell, 1, "Bell".to_string(), String::new());
    let (nodes, _) = build_tree(&p);
    let bell = node(&nodes, alert_node_id(seq));
    assert_eq!(bell.label.as_deref(), Some("Bell"));
    assert!(bell.description.is_none());
}

#[test]
fn build_tree_includes_pane_input_buffer() {
    let mut pane = sized_pane(1, 5, 2);
    pane.title = "zsh".to_string();
    let (nodes, _) = build_tree(&with_panes(vec![pane], vec![1], 1));
    let input = node(&nodes, PANE_INPUT_BUFFER_ID);
    assert_eq!(input.role, Role::TextInput);
    assert_eq!(input.label.as_deref(), Some("Terminal input buffer"));
    assert_eq!(input.value.as_deref(), Some(""));
    assert!(input.description.as_deref().unwrap().contains("zsh"));
    assert_eq!(node(&nodes, PANE_AREA_ID).children.last(), Some(&PANE_INPUT_BUFFER_ID));
}
