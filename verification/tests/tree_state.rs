use nexterm_client::accessibility::compute_tree_state_hash;
use nexterm_client::tree_state::{
    tree_hash_input, AlertSummary, CloseDialogSummary, InfoBarSummary, KeyEditing, PaneSummary, PickerSummary,
    QuickSelectSummary, SettingsSummary, SshHostEntry, TextEdit, TextPair, TreeState,
};

fn picker() -> PickerSummary {
    PickerSummary { is_open: false, query: String::new(), selected: 0 }
}

fn settings() -> SettingsSummary {
    SettingsSummary {
        is_open: false,
        category: "Font".to_string(),
        font_family: "monospace".to_string(),
        font_family_editing: false,
        font_size_bits: 14.0f32.to_bits(),
        opacity_bits: 1.0f32.to_bits(),
        scheme_index: 0,
        language_index: 0,
        auto_check_update: true,
        focused_widget_index: 0,
        cursor_style: "block".to_string(),
        present_mode: "fifo".to_string(),
        padding_x: 4,
        padding_y: 4,
        selected_profile: 0,
        active_profile_index: None,
        profiles: vec![TextPair { first: "default".to_string(), second: "".to_string() }],
        selected_host_index: 0,
        ssh_hosts: Vec::new(),
        ssh_field_editing: None,
        ssh_delete_dialog_open: false,
        ssh_delete_dialog_confirm_focused: false,
        selected_key_index: 0,
        keybindings: Vec::new(),
        key_delete_dialog_open: false,
        key_delete_dialog_confirm_focused: false,
        leader_key: "ctrl+b".to_string(),
        leader_key_editing: None,
        key_editing: KeyEditing::Off,
    }
}

fn pane(id: u32, title: &str) -> PaneSummary {
    PaneSummary {
        id,
        title: title.to_string(),
        cwd: None,
        cursor_col: 0,
        cursor_row: 0,
        scrollback_len: 0,
        scroll_offset: 0,
    }
}

fn state() -> TreeState {
    TreeState {
        tab_order: vec![1, 2],
        focused_pane_id: Some(1),
        panes: vec![pane(1, "bash"), pane(2, "vim")],
        close_dialog: None,
        context_menu: None,
        palette: picker(),
        host_manager: picker(),
        macro_picker: picker(),
        settings: settings(),
        quick_select: QuickSelectSummary { is_active: false, typed_label: String::new(), matches: Vec::new() },
        info_bars: Vec::new(),
        alerts: Vec::new(),
    }
}

#[test]
fn tree_state_hash_is_stable_for_the_same_state() {
    assert_eq!(compute_tree_state_hash(&state()), compute_tree_state_hash(&state()));
    assert_eq!(tree_hash_input(&state()), tree_hash_input(&state()));
}

#[test]
fn tree_state_hash_follows_titles_focus_and_cursor() {
    let base = compute_tree_state_hash(&state());
    let mut s = state();
    s.panes[1].title = "htop".to_string();
    assert_ne!(compute_tree_state_hash(&s), base);
    let mut s = state();
    s.focused_pane_id = Some(2);
    assert_ne!(compute_tree_state_hash(&s), base);
    let mut s = state();
    s.panes[0].cursor_col = 5;
    assert_ne!(tree_hash_input(&s), tree_hash_input(&state()));
}

#[test]
fn a_closed_picker_query_is_not_read_but_an_open_one_is() {
    let mut s = state();
    s.palette.query = "hidden".to_string();
    assert_eq!(tree_hash_input(&s), tree_hash_input(&state()));
    s.palette.is_open = true;
    let open = tree_hash_input(&s);
    s.palette.query = "shown".to_string();
    assert_ne!(tree_hash_input(&s), open);
}

#[test]
fn without_a_tab_order_panes_are_read_by_ascending_id() {
    let mut a = state();
    a.tab_order = Vec::new();
    let mut b = state();
    b.tab_order = Vec::new();
    b.panes.reverse();
    assert_eq!(tree_hash_input(&a), tree_hash_input(&b));
    // With a tab order, the order of reading follows it.
    let mut c = state();
    c.tab_order = vec![2, 1];
    assert_ne!(tree_hash_input(&c), tree_hash_input(&state()));
}

#[test]
fn dismissed_bars_are_not_read_and_alerts_are() {
    let mut s = state();
    s.info_bars.push(InfoBarSummary { slot: 1, message: Some("1.2".to_string()), dismissed: true });
    assert_eq!(tree_hash_input(&s), tree_hash_input(&state()));
    s.info_bars[0].dismissed = false;
    assert_ne!(tree_hash_input(&s), tree_hash_input(&state()));
    let mut t = state();
    t.alerts.push(AlertSummary { seq: 0, kind: 1 });
    assert_ne!(tree_hash_input(&t), tree_hash_input(&state()));
}

#[test]
fn settings_fields_are_read_only_while_the_panel_is_open() {
    let mut s = state();
    s.settings.leader_key = "ctrl+a".to_string();
    assert_eq!(tree_hash_input(&s), tree_hash_input(&state()));
    let mut open = state();
    open.settings.is_open = true;
    let before = tree_hash_input(&open);
    open.settings.key_editing = KeyEditing::Text(TextEdit { buffer: "c".to_string(), cursor: 1, preedit: String::new() });
    assert_ne!(tree_hash_input(&open), before);
}

/// A state with no panes and every overlay closed.
fn empty_state() -> TreeState {
    let mut s = state();
    s.tab_order = Vec::new();
    s.focused_pane_id = None;
    s.panes = Vec::new();
    s
}

fn one_pane(title: &str, focused: bool) -> TreeState {
    let mut s = empty_state();
    s.panes = vec![pane(1, title)];
    s.tab_order = vec![1];
    if focused {
        s.focused_pane_id = Some(1);
    }
    s
}

fn open_settings() -> TreeState {
    let mut s = empty_state();
    s.settings.is_open = true;
    s
}

fn ssh_host(name: &str, host: &str, port: u16, user: &str) -> SshHostEntry {
    SshHostEntry {
        name: name.to_string(),
        host: host.to_string(),
        port,
        username: user.to_string(),
        auth_type: "key".to_string(),
    }
}

fn ssh_panel_with_2_hosts() -> TreeState {
    let mut s = open_settings();
    s.settings.category = "SSH".to_string();
    s.settings.ssh_hosts = vec![
        ssh_host("prod", "prod.example.com", 22, "deploy"),
        ssh_host("dev", "dev.example.com", 2222, "me"),
    ];
    s
}

#[test]
fn tree_state_hash_is_deterministic() {
    let state = one_pane("vim", true);
    let h1 = compute_tree_state_hash(&state);
    let h2 = compute_tree_state_hash(&state);
    assert_eq!(h1, h2, "hash differs for identical state");
}

#[test]
fn tree_state_hash_detects_title_change() {
    let mut state = one_pane("vim", false);
    let h1 = compute_tree_state_hash(&state);
    state.panes[0].title = "emacs".to_string();
    let h2 = compute_tree_state_hash(&state);
    assert_ne!(h1, h2, "hash did not change after title change");
}

#[test]
fn tree_state_hash_detects_focus_change() {
    let mut state = empty_state();
    state.panes = vec![pane(1, ""), pane(2, "")];
    state.tab_order = vec![1, 2];
    state.focused_pane_id = Some(1);
    let h1 = compute_tree_state_hash(&state);
    state.focused_pane_id = Some(2);
    let h2 = compute_tree_state_hash(&state);
    assert_ne!(h1, h2, "hash did not change after focus change");
}

#[test]
fn tree_state_hash_detects_palette_open() {
    let state_closed = empty_state();
    let h_closed = compute_tree_state_hash(&state_closed);
    let mut state_open = empty_state();
    state_open.palette.is_open = true;
    let h_open = compute_tree_state_hash(&state_open);
    assert_ne!(h_closed, h_open, "hash did not change after toggling the palette");
}

#[test]
fn tree_state_hash_detects_palette_query_change() {
    let mut state = empty_state();
    state.palette.is_open = true;
    state.palette.query = "abc".to_string();
    let h1 = compute_tree_state_hash(&state);
    state.palette.query = "xyz".to_string();
    let h2 = compute_tree_state_hash(&state);
    assert_ne!(h1, h2, "hash did not change after palette query change");
}

#[test]
fn tree_state_hash_detects_dialog_button_change() {
    let mut state = empty_state();
    state.close_dialog = Some(CloseDialogSummary {
        message: "Test".to_string(),
        kill_label: "OK".to_string(),
        cancel_label: "Cancel".to_string(),
        selected_button: 0,
    });
    let h1 = compute_tree_state_hash(&state);
    state.close_dialog.as_mut().unwrap().selected_button = 1;
    let h2 = compute_tree_state_hash(&state);
    assert_ne!(h1, h2, "hash did not change after CloseWindowDialog button change");
}

#[test]
fn tree_state_hash_detects_quick_select_open() {
    let state_closed = empty_state();
    let h_closed = compute_tree_state_hash(&state_closed);
    let mut state_open = empty_state();
    state_open.quick_select.is_active = true;
    let h_open = compute_tree_state_hash(&state_open);
    assert_ne!(h_closed, h_open, "hash did not change after toggling Quick Select");
}

#[test]
fn tree_state_hash_detects_quick_select_typed_label_change() {
    let mut state = empty_state();
    state.quick_select.is_active = true;
    state.quick_select.typed_label = "a".to_string();
    let h1 = compute_tree_state_hash(&state);
    state.quick_select.typed_label = "ab".to_string();
    let h2 = compute_tree_state_hash(&state);
    assert_ne!(h1, h2, "hash did not change after typed_label change");
}

#[test]
fn tree_state_hash_detects_settings_category_change() {
    let mut state = open_settings();
    state.settings.category = "Font".to_string();
    let h1 = compute_tree_state_hash(&state);
    state.settings.category = "Theme".to_string();
    let h2 = compute_tree_state_hash(&state);
    assert_ne!(h1, h2, "hash did not change after category switch");
}

#[test]
fn tree_state_hash_detects_settings_font_size_change() {
    let mut state = open_settings();
    state.settings.category = "Font".to_string();
    state.settings.font_size_bits = 14.0f32.to_bits();
    let h1 = compute_tree_state_hash(&state);
    state.settings.font_size_bits = 16.0f32.to_bits();
    let h2 = compute_tree_state_hash(&state);
    assert_ne!(h1, h2, "hash did not change after font_size change");
}

#[test]
fn tree_state_hash_detects_settings_auto_update_toggle() {
    let mut state = open_settings();
    state.settings.auto_check_update = false;
    let h1 = compute_tree_state_hash(&state);
    state.settings.auto_check_update = true;
    let h2 = compute_tree_state_hash(&state);
    assert_ne!(h1, h2, "hash did not change after auto_check_update toggle");
}

#[test]
fn tree_state_hash_detects_cursor_move() {
    let mut state = one_pane("", true);
    let h1 = compute_tree_state_hash(&state);
    state.panes[0].cursor_col = 3;
    let h2 = compute_tree_state_hash(&state);
    assert_ne!(h1, h2, "the hash must change when cursor_col changes");
    state.panes[0].cursor_row = 2;
    let h3 = compute_tree_state_hash(&state);
    assert_ne!(h2, h3, "the hash must change when cursor_row changes");
}

#[test]
fn tree_state_hash_detects_alert_added() {
    let mut state = empty_state();
    let h0 = compute_tree_state_hash(&state);
    state.alerts.push(AlertSummary { seq: 0, kind: 0 });
    let h1 = compute_tree_state_hash(&state);
    assert_ne!(h0, h1, "the hash must change when an alert is added");
    // A second alert of the same kind has another sequence number.
    state.alerts.push(AlertSummary { seq: 1, kind: 0 });
    let h2 = compute_tree_state_hash(&state);
    assert_ne!(h1, h2, "the hash must change after the second alert is added");
}

#[test]
fn tree_state_hash_detects_alert_kind_difference() {
    let mut s1 = empty_state();
    s1.alerts.push(AlertSummary { seq: 0, kind: 0 });
    let mut s2 = empty_state();
    s2.alerts.push(AlertSummary { seq: 0, kind: 1 });
    let h1 = compute_tree_state_hash(&s1);
    let h2 = compute_tree_state_hash(&s2);
    assert_ne!(h1, h2, "Bell and Notification produce different hashes");
}

#[test]
fn tree_state_hash_detects_focused_pane_title_change() {
    let mut state = one_pane("old title", true);
    let h0 = compute_tree_state_hash(&state);
    state.panes[0].title = "new title".to_string();
    let h1 = compute_tree_state_hash(&state);
    assert_ne!(h0, h1, "the hash must change when the focused pane's title changes");
}

fn profile(name: &str) -> TextPair {
    TextPair { first: name.to_string(), second: String::new() }
}

#[test]
fn tree_state_hash_detects_selected_profile_change() {
    let mut state = open_settings();
    state.settings.profiles = vec![profile("a"), profile("b")];
    state.settings.selected_profile = 0;
    let h0 = compute_tree_state_hash(&state);
    state.settings.selected_profile = 1;
    let h1 = compute_tree_state_hash(&state);
    assert_ne!(h0, h1, "the hash must change when selected_profile changes");
}

#[test]
fn tree_state_hash_detects_active_profile_change() {
    let mut state = open_settings();
    state.settings.profiles = vec![profile("a")];
    let h0 = compute_tree_state_hash(&state);
    // The next active profile after none is the first.
    state.settings.active_profile_index = Some(0);
    let h1 = compute_tree_state_hash(&state);
    assert_ne!(h0, h1, "the hash must change when the active profile changes");
}

#[test]
fn tree_state_hash_detects_leader_key_change() {
    let mut state = open_settings();
    state.settings.category = "Keybindings".to_string();
    let h0 = compute_tree_state_hash(&state);
    state.settings.leader_key = "ctrl+q".to_string();
    let h1 = compute_tree_state_hash(&state);
    assert_ne!(h0, h1, "the hash must change with the stored leader key");
    state.settings.focused_widget_index = 5;
    // Entering the leader-key editor starts from the stored chord.
    state.settings.leader_key_editing =
        Some(TextEdit { buffer: "ctrl+q".to_string(), cursor: 6, preedit: String::new() });
    let h2 = compute_tree_state_hash(&state);
    assert_ne!(h1, h2, "entering the leader-key editor must change the hash");
}

#[test]
fn tree_state_hash_detects_profiles_change() {
    let mut state = open_settings();
    state.settings.profiles = vec![];
    let h0 = compute_tree_state_hash(&state);
    state.settings.profiles = vec![profile("added")];
    let h1 = compute_tree_state_hash(&state);
    assert_ne!(h0, h1, "the hash must change when profiles are added");
}

#[test]
fn ssh_host_entry_label_format() {
    let h = SshHostEntry {
        name: "myhost".to_string(),
        host: "example.com".to_string(),
        port: 2222,
        username: "alice".to_string(),
        auth_type: "key".to_string(),
    };
    assert_eq!(h.label(), "myhost (alice@example.com:2222)");
    let h22 = SshHostEntry { port: 22, ..h.clone() };
    assert_eq!(h22.label(), "myhost (alice@example.com)");
    let h_noname = SshHostEntry { name: String::new(), ..h.clone() };
    assert_eq!(h_noname.label(), "alice@example.com:2222");
    let h_nouser = SshHostEntry { username: String::new(), ..h.clone() };
    assert_eq!(h_nouser.label(), "myhost (example.com:2222)");
}

#[test]
fn tree_state_hash_detects_selected_host_index_change() {
    let mut state = open_settings();
    state.settings.ssh_hosts = vec![ssh_host("a", "a.example.com", 22, "u"), ssh_host("b", "b.example.com", 22, "u")];
    state.settings.selected_host_index = 0;
    let h0 = compute_tree_state_hash(&state);
    state.settings.selected_host_index = 1;
    let h1 = compute_tree_state_hash(&state);
    assert_ne!(h0, h1, "the hash must change when selected_host_index changes");
}

#[test]
fn tree_state_hash_detects_ssh_hosts_change() {
    let mut state = open_settings();
    state.settings.ssh_hosts = vec![];
    let h0 = compute_tree_state_hash(&state);
    state.settings.ssh_hosts = vec![ssh_host("added", "new.example.com", 22, "u")];
    let h1 = compute_tree_state_hash(&state);
    assert_ne!(h0, h1, "the hash must change when an ssh_hosts entry is added");
}

#[test]
fn tree_state_hash_detects_ssh_field_focus_change() {
    let mut state = ssh_panel_with_2_hosts();
    state.settings.focused_widget_index = 0;
    let h0 = compute_tree_state_hash(&state);
    state.settings.focused_widget_index = 3;
    let h1 = compute_tree_state_hash(&state);
    assert_ne!(h0, h1, "the hash must change when focused_widget_index changes");
}

#[test]
fn tree_state_hash_detects_ssh_delete_dialog_changes() {
    let mut state = ssh_panel_with_2_hosts();
    let h0 = compute_tree_state_hash(&state);
    state.settings.ssh_delete_dialog_open = true;
    state.settings.ssh_delete_dialog_confirm_focused = false;
    let h1 = compute_tree_state_hash(&state);
    assert_ne!(h0, h1, "the hash must change when the dialog opens");
    state.settings.ssh_delete_dialog_confirm_focused = true;
    let h2 = compute_tree_state_hash(&state);
    assert_ne!(h1, h2, "the hash must change when confirm_focused changes");
}

#[test]
fn tree_state_hash_detects_keybindings_changes() {
    let mut state = open_settings();
    state.settings.category = "Keybindings".to_string();
    state.settings.keybindings = vec![
        TextPair { first: "ctrl+shift+p".to_string(), second: "CommandPalette".to_string() },
        TextPair { first: "ctrl+c".to_string(), second: "Copy".to_string() },
    ];
    let h0 = compute_tree_state_hash(&state);
    state.settings.focused_widget_index = 2;
    let h1 = compute_tree_state_hash(&state);
    assert_ne!(h0, h1);
    state.settings.selected_key_index = 1;
    let h2 = compute_tree_state_hash(&state);
    assert_ne!(h1, h2);
    state.settings.keybindings[1].first = "f5".to_string();
    let h3 = compute_tree_state_hash(&state);
    assert_ne!(h2, h3);
    state.settings.keybindings[1].second = "Paste".to_string();
    let h4 = compute_tree_state_hash(&state);
    assert_ne!(h3, h4);
    // Open the delete dialog.
    state.settings.key_delete_dialog_open = true;
    let h5 = compute_tree_state_hash(&state);
    assert_ne!(h4, h5);
    // Toggle confirm focus inside the dialog.
    state.settings.key_delete_dialog_confirm_focused = true;
    let h6 = compute_tree_state_hash(&state);
    assert_ne!(h5, h6);
    // Cancel the dialog, then start recording a key.
    state.settings.key_delete_dialog_open = false;
    state.settings.key_delete_dialog_confirm_focused = false;
    let h7 = compute_tree_state_hash(&state);
    state.settings.key_editing = KeyEditing::Record;
    let h8 = compute_tree_state_hash(&state);
    assert_ne!(h7, h8);
}

#[test]
fn the_order_the_panes_arrive_in_is_not_read() {
    let a = state();
    let mut b = state();
    b.panes.reverse();
    assert_eq!(tree_hash_input(&a), tree_hash_input(&b));
    assert_eq!(compute_tree_state_hash(&a), compute_tree_state_hash(&b));
}

#[test]
fn every_read_field_of_a_listed_pane_changes_the_input() {
    let base = tree_hash_input(&state());
    let changes: Vec<fn(&mut PaneSummary)> = vec![
        |p| p.title = "zsh".to_string(),
        |p| p.cwd = Some("/tmp".to_string()),
        |p| p.cursor_col = 9,
        |p| p.cursor_row = 9,
        |p| p.scrollback_len = 9,
        |p| p.scroll_offset = 9,
    ];
    for change in changes {
        let mut s = state();
        change(&mut s.panes[1]);
        assert_ne!(tree_hash_input(&s), base);
    }
    // A pane that is not in the tab order is not read.
    let mut s = state();
    s.tab_order = vec![1];
    let only_first = tree_hash_input(&s);
    s.panes[1].title = "unread".to_string();
    assert_eq!(tree_hash_input(&s), only_first);
}

#[test]
fn a_dismissed_bar_reads_as_a_missing_bar() {
    let mut with_bar = state();
    with_bar.info_bars.push(InfoBarSummary { slot: 2, message: Some("pty launch failed".to_string()), dismissed: false });
    let mut dismissed = state();
    dismissed.info_bars.push(InfoBarSummary { slot: 2, message: Some("pty launch failed".to_string()), dismissed: true });
    assert_ne!(tree_hash_input(&with_bar), tree_hash_input(&state()));
    assert_eq!(tree_hash_input(&dismissed), tree_hash_input(&state()));
    // The offline bar carries no message, so its elapsed time is never read.
    let mut offline = state();
    offline.info_bars.push(InfoBarSummary { slot: 0, message: None, dismissed: false });
    assert_ne!(tree_hash_input(&offline), tree_hash_input(&state()));
}
