use nexterm_client::accessibility::{context_item_id, host_item_id, macro_item_id, palette_item_id};
use nexterm_client::accessibility::{
    alert_node_id, compute_grid_row_hashes, cursor_character_index, decode_node_id,
    info_bar_node_id, pane_node_id, pane_row_node_id, pane_row_text, pane_row_text_with_lengths,
    scrollback_row_text_with_lengths,
    pane_scrollback_row_node_id, quickselect_item_id, settings_tab_id_at, settings_widget_id,
    tab_node_id, Cell, Grid, InfoBarSlot, NodeIdKind, WidgetId, ALERT_REGION_ID, CLOSE_DIALOG_CANCEL_BTN,
    CLOSE_DIALOG_ID, CLOSE_DIALOG_KILL_BTN, CONTEXT_MENU_ID, HOST_MANAGER_ID, MACRO_PICKER_ID,
    MAX_ROWS_PER_PANE, MAX_SCROLLBACK_ROWS_PER_PANE, NODE_ID_ALERT_OFFSET,
    NODE_ID_CONTEXT_ITEM_OFFSET, NODE_ID_HOST_ITEM_OFFSET, NODE_ID_MACRO_ITEM_OFFSET,
    NODE_ID_PALETTE_ITEM_OFFSET, NODE_ID_PANE_ROW_OFFSET, NODE_ID_QUICKSELECT_ITEM_OFFSET,
    NODE_ID_TAB_OFFSET, PALETTE_ID, PALETTE_LIST_ID, PALETTE_SEARCH_ID, PANE_AREA_ID,
    PANE_INPUT_BUFFER_ID, QUICK_SELECT_ID, QUICK_SELECT_LIST_ID, ROOT_ID, SETTINGS_CONTENT_ID,
    SETTINGS_FOOTER_OPEN_ID, SETTINGS_FOOTER_RESET_ID, SETTINGS_KEY_DELETE_CANCEL_BTN_ID,
    SETTINGS_KEY_DELETE_CONFIRM_BTN_ID, SETTINGS_KEY_DELETE_DIALOG_ID, SETTINGS_PANEL_ID,
    SETTINGS_SSH_DELETE_CANCEL_BTN_ID, SETTINGS_SSH_DELETE_CONFIRM_BTN_ID,
    SETTINGS_SSH_DELETE_DIALOG_ID, SETTINGS_TABLIST_ID, SETTINGS_WIDGET_BASE, TAB_BAR_ID,
    WINDOW_CLOSE_BTN_ID, WINDOW_MAXIMIZE_BTN_ID, WINDOW_MINIMIZE_BTN_ID,
};

/// A grid whose rows hold the characters of `lines`, padded with blank
/// cells to the widest line.
fn grid_from_lines(lines: &[&str]) -> Grid {
    let width = lines.iter().map(|l| l.chars().count()).max().unwrap_or(0);
    let rows = lines
        .iter()
        .map(|line| {
            let mut row: Vec<Cell> = line.chars().map(|ch| Cell { ch }).collect();
            while row.len() < width {
                row.push(Cell { ch: ' ' });
            }
            row
        })
        .collect();
    Grid {
        rows,
        height: lines.len() as u16,
    }
}

#[test]
fn node_id_offsets_do_not_overlap() {
    let max_tab = tab_node_id(u32::MAX);
    let min_pane = pane_node_id(0);
    assert!(
        max_tab < min_pane,
        "Tab ID range [{}, {}] collides with Pane ID range [{}, ...]",
        NODE_ID_TAB_OFFSET,
        max_tab,
        min_pane
    );
    assert!(NODE_ID_TAB_OFFSET > 99);
}
#[test]
fn overlay_offsets_do_not_overlap_with_tabs() {
    // Each overlay ID offset must be below the Tab offset.
    assert!(NODE_ID_PALETTE_ITEM_OFFSET < NODE_ID_TAB_OFFSET);
    assert!(NODE_ID_HOST_ITEM_OFFSET < NODE_ID_TAB_OFFSET);
    assert!(NODE_ID_MACRO_ITEM_OFFSET < NODE_ID_TAB_OFFSET);
    assert!(NODE_ID_CONTEXT_ITEM_OFFSET < NODE_ID_TAB_OFFSET);
    assert!(NODE_ID_QUICKSELECT_ITEM_OFFSET < NODE_ID_TAB_OFFSET);
    // The ID ranges of different overlays must not intersect (assumed safe up to 100k items).
    let item_cap: u64 = 100_000_000; // Spacing between offsets.
    assert!(NODE_ID_HOST_ITEM_OFFSET - NODE_ID_PALETTE_ITEM_OFFSET >= item_cap);
    assert!(NODE_ID_MACRO_ITEM_OFFSET - NODE_ID_HOST_ITEM_OFFSET >= item_cap);
    assert!(NODE_ID_CONTEXT_ITEM_OFFSET - NODE_ID_MACRO_ITEM_OFFSET >= item_cap);
    assert!(NODE_ID_QUICKSELECT_ITEM_OFFSET - NODE_ID_CONTEXT_ITEM_OFFSET >= item_cap);
}
#[test]
fn decode_fixed_node_ids() {
    assert_eq!(decode_node_id(ROOT_ID), NodeIdKind::Root);
    assert_eq!(decode_node_id(TAB_BAR_ID), NodeIdKind::TabBar);
    assert_eq!(decode_node_id(PANE_AREA_ID), NodeIdKind::PaneArea);
    assert_eq!(decode_node_id(SETTINGS_PANEL_ID), NodeIdKind::SettingsPanel);
    assert_eq!(decode_node_id(PALETTE_ID), NodeIdKind::Palette);
    assert_eq!(decode_node_id(HOST_MANAGER_ID), NodeIdKind::HostManager);
    assert_eq!(decode_node_id(MACRO_PICKER_ID), NodeIdKind::MacroPicker);
    assert_eq!(decode_node_id(CONTEXT_MENU_ID), NodeIdKind::ContextMenu);
    assert_eq!(decode_node_id(CLOSE_DIALOG_ID), NodeIdKind::CloseDialog);
    for slot in [
        InfoBarSlot::Update,
        InfoBarSlot::Offline,
        InfoBarSlot::ServerError,
    ] {
        assert_eq!(
            decode_node_id(info_bar_node_id(slot)),
            NodeIdKind::InfoBar { slot }
        );
    }
    assert_eq!(decode_node_id(QUICK_SELECT_ID), NodeIdKind::QuickSelect);
    assert_eq!(decode_node_id(PALETTE_SEARCH_ID), NodeIdKind::PaletteSearch);
    assert_eq!(decode_node_id(PALETTE_LIST_ID), NodeIdKind::PaletteList);
    assert_eq!(
        decode_node_id(CLOSE_DIALOG_KILL_BTN),
        NodeIdKind::CloseDialogKill
    );
    assert_eq!(
        decode_node_id(CLOSE_DIALOG_CANCEL_BTN),
        NodeIdKind::CloseDialogCancel
    );
    assert_eq!(
        decode_node_id(QUICK_SELECT_LIST_ID),
        NodeIdKind::QuickSelectList
    );
}
#[test]
fn decode_quick_select_item_ids() {
    assert_eq!(
        decode_node_id(quickselect_item_id(0)),
        NodeIdKind::QuickSelectItem { idx: 0 }
    );
    assert_eq!(
        decode_node_id(quickselect_item_id(42)),
        NodeIdKind::QuickSelectItem { idx: 42 }
    );
    assert_eq!(
        decode_node_id(500_000_000),
        NodeIdKind::QuickSelectItem { idx: 0 }
    );
    assert_eq!(
        decode_node_id(500_000_099),
        NodeIdKind::QuickSelectItem { idx: 99 }
    );
}
#[test]
fn decode_tab_node_id_roundtrip() {
    for &pane_id in &[0u32, 1, 42, 12345, u32::MAX] {
        assert_eq!(
            decode_node_id(tab_node_id(pane_id)),
            NodeIdKind::Tab { pane_id }
        );
    }
}
#[test]
fn decode_pane_node_id_roundtrip() {
    for &pane_id in &[0u32, 1, 42, 12345, u32::MAX] {
        assert_eq!(
            decode_node_id(pane_node_id(pane_id)),
            NodeIdKind::Pane { pane_id }
        );
    }
}
#[test]
fn decode_dynamic_item_ids() {
    assert_eq!(
        decode_node_id(100_000_000),
        NodeIdKind::PaletteItem { idx: 0 }
    );
    assert_eq!(
        decode_node_id(100_000_042),
        NodeIdKind::PaletteItem { idx: 42 }
    );
    assert_eq!(
        decode_node_id(200_000_000),
        NodeIdKind::HostItem { idx: 0 }
    );
    assert_eq!(
        decode_node_id(200_000_007),
        NodeIdKind::HostItem { idx: 7 }
    );
    assert_eq!(
        decode_node_id(300_000_000),
        NodeIdKind::MacroItem { idx: 0 }
    );
    assert_eq!(
        decode_node_id(400_000_000),
        NodeIdKind::ContextItem { idx: 0 }
    );
    assert_eq!(
        decode_node_id(400_000_099),
        NodeIdKind::ContextItem { idx: 99 }
    );
}
#[test]
fn decode_unknown_node_ids() {
    assert_eq!(decode_node_id(0), NodeIdKind::Unknown);
    // Fixed ids: 17 settings tab list, 25 settings content, 26 alert region,
    // 27 pane input buffer, 28..=30 info bar slots, 31..=32 settings footer
    // links, 36..=56 settings fields and dialogs, 57..=59 window buttons,
    // 60..=99 settings tabs. 18..=24 and 33..=35 are unassigned.
    assert_eq!(decode_node_id(18), NodeIdKind::Unknown);
    assert_eq!(decode_node_id(24), NodeIdKind::Unknown);
    assert_eq!(decode_node_id(33), NodeIdKind::Unknown);
    assert_eq!(decode_node_id(35), NodeIdKind::Unknown);
    assert_eq!(
        decode_node_id(SETTINGS_FOOTER_OPEN_ID),
        NodeIdKind::SettingsFooterOpenConfig
    );
    assert_eq!(
        decode_node_id(SETTINGS_FOOTER_RESET_ID),
        NodeIdKind::SettingsFooterResetCategory
    );
    // 700M..800M holds the settings widgets: every value decodes to a
    // widget except those carrying bits outside the packed (category, index)
    // pair, which no `WidgetId` can produce.
    assert_eq!(
        decode_node_id(700_000_000),
        NodeIdKind::SettingsWidget {
            category: 0,
            index: 0
        }
    );
    assert_eq!(decode_node_id(799_999_999), NodeIdKind::Unknown);
    // The gap between the Tab and Pane ranges (5.3e9..1e10) is also Unknown.
    assert_eq!(decode_node_id(7_000_000_000), NodeIdKind::Unknown);
    // The gap between the Pane range and the row range (1e10 + u32::MAX .. 2e10) is also Unknown.
    assert_eq!(decode_node_id(15_000_000_000), NodeIdKind::Unknown);
    // Beyond the row range (u32::MAX * MAX_ROWS_PER_PANE + 2e10 onward).
    let row_range_end =
        NODE_ID_PANE_ROW_OFFSET + (u32::MAX as u64) * MAX_ROWS_PER_PANE + MAX_ROWS_PER_PANE;
    assert_eq!(decode_node_id(row_range_end), NodeIdKind::Unknown);
}
#[test]
fn decode_settings_tab_node_ids() {
    assert_eq!(
        decode_node_id(SETTINGS_TABLIST_ID),
        NodeIdKind::SettingsTabList
    );
    assert_eq!(
        decode_node_id(SETTINGS_CONTENT_ID),
        NodeIdKind::SettingsContent
    );
    for idx in 0..7 {
        assert_eq!(
            decode_node_id(settings_tab_id_at(idx)),
            NodeIdKind::SettingsTab { idx },
            "settings_tab_id_at({}) failed to round-trip",
            idx
        );
    }
}
#[test]
fn decode_settings_field_node_ids() {
    assert_eq!(
        decode_node_id(settings_widget_id(WidgetId::new(2, 0))),
        NodeIdKind::SettingsWidget {
            category: 2,
            index: 0
        }
    );
}
#[test]
fn pane_row_text_strips_trailing_spaces() {
    let grid = grid_from_lines(&["hello   "]);
    assert_eq!(pane_row_text(&grid, 0), "hello");
}
#[test]
fn pane_row_text_empty_row_returns_space() {
    let grid = grid_from_lines(&["        "]);
    assert_eq!(pane_row_text(&grid, 0), " ");
}
#[test]
fn pane_row_text_preserves_full_width() {
    let grid = grid_from_lines(&["あいう  "]);
    // grid.set writes by column, so 3 chars + 5 padding cells = 8 cells.
    // The result is "あいう" with trailing spaces stripped.
    let text = pane_row_text(&grid, 0);
    assert!(text.starts_with("あいう"), "unexpected: {:?}", text);
    assert!(!text.ends_with(' '), "trailing space remains: {:?}", text);
}
#[test]
fn pane_row_text_handles_out_of_range_row() {
    let grid = grid_from_lines(&["hello"]);
    assert_eq!(pane_row_text(&grid, 100), " ");
}
#[test]
fn pane_row_node_id_no_collision_with_pane() {
    let pane_min = pane_node_id(0);
    let pane_max = pane_node_id(u32::MAX);
    let row_min = pane_row_node_id(0, 0);
    assert!(
        pane_max < row_min,
        "pane range [{}, {}] collides with row range [{}, ...]",
        pane_min,
        pane_max,
        row_min
    );
}
#[test]
fn pane_row_node_id_no_collision_with_tab() {
    let tab_max = tab_node_id(u32::MAX);
    let row_min = pane_row_node_id(0, 0);
    assert!(tab_max < row_min);
}
#[test]
fn decode_pane_row_roundtrip() {
    for (pane_id, row) in [(0u32, 0u16), (42, 7), (1234, 23), (u32::MAX, 999)] {
        let id = pane_row_node_id(pane_id, row);
        match decode_node_id(id) {
            NodeIdKind::PaneRow { pane_id: p, row: r } => {
                assert_eq!(
                    p, pane_id,
                    "pane_id round-trip failed for ({}, {})",
                    pane_id, row
                );
                assert_eq!(r, row, "row round-trip failed for ({}, {})", pane_id, row);
            }
            other => panic!(
                "decode_node_id returned non-PaneRow variant: {:?} for ({}, {})",
                other, pane_id, row
            ),
        }
    }
}
#[test]
fn compute_grid_row_hashes_detects_change() {
    let mut grid = grid_from_lines(&["hello", "world", "     "]);
    let baseline = compute_grid_row_hashes(&grid);
    assert_eq!(baseline.len(), 3);

    // The same grid yields the same hashes.
    let same = compute_grid_row_hashes(&grid);
    assert_eq!(baseline, same);

    // Change a single cell on row 1.
    grid.rows[1][0] = Cell { ch: 'W' };
    let after = compute_grid_row_hashes(&grid);
    assert_eq!(after.len(), 3);
    // Row 0 and row 2 are unchanged; only row 1 changes.
    assert_eq!(after[0], baseline[0], "row 0 must be unchanged");
    assert_ne!(after[1], baseline[1], "row 1 must change");
    assert_eq!(after[2], baseline[2], "row 2 must be unchanged");
}
#[test]
fn pane_row_text_with_lengths_ascii() {
    let grid = grid_from_lines(&["abc"]);
    let (text, lengths) = pane_row_text_with_lengths(&grid, 0);
    assert_eq!(text, "abc");
    assert_eq!(lengths, vec![1, 1, 1]);
}
#[test]
fn pane_row_text_with_lengths_cjk() {
    let grid = grid_from_lines(&["あい"]);
    let (text, lengths) = pane_row_text_with_lengths(&grid, 0);
    // On the grid this is 2 full-width cells + 1 placeholder space cell each = 4 cells.
    // However the `grid_from_lines` helper may not insert placeholders when set()
    // writes chars directly, so just verify behaviour matches pane_row_text.
    assert!(text.starts_with("あ"));
    assert!(text.contains("い"));
    // Each char is in the 1..=4 byte range.
    assert!(lengths.iter().all(|&b| (1..=4).contains(&b)));
    // Sum of byte lengths == text.len()
    let sum: usize = lengths.iter().map(|&b| b as usize).sum();
    assert_eq!(sum, text.len());
}
#[test]
fn pane_row_text_with_lengths_empty_row() {
    // Build a grid with one row of empty cells (grid_from_lines makes an empty
    // grid for empty strings, so we use a single space instead).
    let grid = grid_from_lines(&[" "]);
    let (text, lengths) = pane_row_text_with_lengths(&grid, 0);
    assert_eq!(text, " ");
    assert_eq!(lengths, vec![1]);
}
#[test]
fn pane_row_text_with_lengths_out_of_range_row() {
    let grid = grid_from_lines(&["abc"]);
    let (text, lengths) = pane_row_text_with_lengths(&grid, 99);
    assert_eq!(text, " ");
    assert_eq!(lengths, vec![1]);
}
#[test]
fn cursor_character_index_within_range() {
    assert_eq!(cursor_character_index("hello", 0), 0);
    assert_eq!(cursor_character_index("hello", 3), 3);
    assert_eq!(cursor_character_index("hello", 5), 5);
}
#[test]
fn cursor_character_index_clamps_to_char_count() {
    // "hello" is 5 chars.
    assert_eq!(cursor_character_index("hello", 10), 5);
    // Empty string (in practice pane_row_text returns " ", so this is defensive).
    assert_eq!(cursor_character_index("", 5), 0);
}
#[test]
fn cursor_character_index_cjk_is_char_based() {
    // "あい" is 2 chars (6 bytes).
    assert_eq!(cursor_character_index("あい", 2), 2);
    // Clamping is also based on 2 chars.
    assert_eq!(cursor_character_index("あい", 5), 2);
}
#[test]
fn pane_scrollback_row_node_id_no_collision_with_viewport_row() {
    let pane_id = 7u32;
    // Viewport rows [0..1000) and scrollback rows [0..9000) do not collide within
    // the same pane.
    for row in [0u16, 100, 500, 999] {
        let v_id = pane_row_node_id(pane_id, row);
        for sb in [0u16, 100, 500, 8999] {
            let sb_id = pane_scrollback_row_node_id(pane_id, sb);
            assert_ne!(
                v_id, sb_id,
                "viewport row {row} and scrollback {sb} NodeIds collide"
            );
        }
    }
}
#[test]
fn pane_scrollback_row_node_id_no_collision_between_panes() {
    // Pane 1's last scrollback entry (idx=8999) and pane 2's first scrollback entry
    // (idx=0) are separated by MAX_ROWS_PER_PANE, so they do not collide.
    let id1_last = pane_scrollback_row_node_id(1, (MAX_SCROLLBACK_ROWS_PER_PANE - 1) as u16);
    let id2_first = pane_scrollback_row_node_id(2, 0);
    assert_ne!(id1_last, id2_first);
    // Range check.
    assert!(id1_last < id2_first);
}
#[test]
fn decode_scrollback_row_roundtrip() {
    for pane_id in [0u32, 1, 42, u32::MAX] {
        for idx in [0u16, 1, 100, 8999] {
            let id = pane_scrollback_row_node_id(pane_id, idx);
            let decoded = decode_node_id(id);
            match decoded {
                NodeIdKind::PaneScrollbackRow { pane_id: p, idx: i } => {
                    assert_eq!(p, pane_id);
                    assert_eq!(i, idx);
                }
                other => panic!(
                    "expected PaneScrollbackRow {{ pane_id: {pane_id}, idx: {idx} }}, got {other:?}"
                ),
            }
        }
    }
}
#[test]
fn alert_node_id_in_correct_offset() {
    let id0 = alert_node_id(0);
    let id_big = alert_node_id(u32::MAX as u64);
    assert_eq!(id0, NODE_ID_ALERT_OFFSET);
    assert_eq!(id_big, NODE_ID_ALERT_OFFSET + u32::MAX as u64);
    // Must exceed the upper bound of the pane row range (~4.3e13).
    let pane_row_end =
        NODE_ID_PANE_ROW_OFFSET + (u32::MAX as u64) * MAX_ROWS_PER_PANE + MAX_ROWS_PER_PANE;
    assert!(
        NODE_ID_ALERT_OFFSET >= pane_row_end,
        "Alert offset ({}) must be at least the pane row upper bound ({})",
        NODE_ID_ALERT_OFFSET,
        pane_row_end
    );
}
#[test]
fn decode_alert_node_id_roundtrip() {
    for seq in [0u64, 1, 16, 100, u32::MAX as u64] {
        let nid = alert_node_id(seq);
        let kind = decode_node_id(nid);
        assert_eq!(kind, NodeIdKind::Alert { seq });
    }
    // AlertRegion fixed ID.
    assert_eq!(decode_node_id(ALERT_REGION_ID), NodeIdKind::AlertRegion);
}
#[test]
fn decode_pane_input_buffer() {
    assert_eq!(
        decode_node_id(PANE_INPUT_BUFFER_ID),
        NodeIdKind::PaneInputBuffer
    );
    assert_eq!(decode_node_id(27), NodeIdKind::PaneInputBuffer);
}
#[test]
fn settings_widget_range_decodes_only_encodable_ids() {
    for (category, index) in [(0u8, 0u16), (2, 0), (2, 18), (255, 65535)] {
        let id = WidgetId::new(category, index);
        assert_eq!(
            decode_node_id(settings_widget_id(id)),
            NodeIdKind::SettingsWidget { category, index }
        );
    }
    // Above the packed category byte: not producible by `as_u32`.
    assert_eq!(
        decode_node_id(SETTINGS_WIDGET_BASE + 0x0100_0000),
        NodeIdKind::Unknown
    );
    assert_eq!(decode_node_id(799_999_999), NodeIdKind::Unknown);
}
#[test]
fn settings_ssh_field_node_ids_decode() {
    for retired in 40u64..=46 {
        assert_eq!(
            decode_node_id(retired),
            NodeIdKind::Unknown,
            "retired fixed id {retired} must no longer alias a control"
        );
    }
    assert_eq!(
        decode_node_id(SETTINGS_SSH_DELETE_DIALOG_ID),
        NodeIdKind::SettingsSshDeleteDialog
    );
    assert_eq!(
        decode_node_id(SETTINGS_SSH_DELETE_CONFIRM_BTN_ID),
        NodeIdKind::SettingsSshDeleteConfirmBtn
    );
    assert_eq!(
        decode_node_id(SETTINGS_SSH_DELETE_CANCEL_BTN_ID),
        NodeIdKind::SettingsSshDeleteCancelBtn
    );
    // 57..=59 belong to the custom title bar window buttons.
    assert_eq!(
        decode_node_id(WINDOW_MINIMIZE_BTN_ID),
        NodeIdKind::WindowMinimizeButton
    );
    assert_eq!(
        decode_node_id(WINDOW_MAXIMIZE_BTN_ID),
        NodeIdKind::WindowMaximizeButton
    );
    assert_eq!(
        decode_node_id(WINDOW_CLOSE_BTN_ID),
        NodeIdKind::WindowCloseButton
    );
}
#[test]
fn retired_keybinding_node_ids_decode_as_unknown() {
    for raw in [50u64, 51, 52, 53] {
        assert_eq!(
            decode_node_id(raw),
            NodeIdKind::Unknown,
            "fixed id {raw} was retired with the migration"
        );
    }
    for raw in [900_000_000u64, 900_000_042, 999_999_999] {
        assert_eq!(
            decode_node_id(raw),
            NodeIdKind::Unknown,
            "the 900M binding-item range was retired with the migration"
        );
    }
}
#[test]
fn settings_key_delete_dialog_ids_decode() {
    assert_eq!(
        decode_node_id(SETTINGS_KEY_DELETE_DIALOG_ID),
        NodeIdKind::SettingsKeyDeleteDialog
    );
    assert_eq!(
        decode_node_id(SETTINGS_KEY_DELETE_CONFIRM_BTN_ID),
        NodeIdKind::SettingsKeyDeleteConfirmBtn
    );
    assert_eq!(
        decode_node_id(SETTINGS_KEY_DELETE_CANCEL_BTN_ID),
        NodeIdKind::SettingsKeyDeleteCancelBtn
    );
}


#[test]
fn decoding_inverts_every_overlay_item_encoder() {
    for idx in [0usize, 1, 99_999_999] {
        assert_eq!(decode_node_id(palette_item_id(idx)), NodeIdKind::PaletteItem { idx });
        assert_eq!(decode_node_id(host_item_id(idx)), NodeIdKind::HostItem { idx });
        assert_eq!(decode_node_id(macro_item_id(idx)), NodeIdKind::MacroItem { idx });
        assert_eq!(decode_node_id(context_item_id(idx)), NodeIdKind::ContextItem { idx });
        assert_eq!(decode_node_id(quickselect_item_id(idx)), NodeIdKind::QuickSelectItem { idx });
    }
}

#[test]
fn widget_ids_pack_category_then_index() {
    let w = WidgetId::new(0x12, 0x3456);
    assert_eq!(w.as_u32(), 0x12_3456);
    assert_eq!(WidgetId::from_u32(0x12_3456), Some(w));
    assert_eq!(WidgetId::from_u32(0x100_0000), None);
    assert_eq!(settings_widget_id(w), SETTINGS_WIDGET_BASE + 0x12_3456);
}

#[test]
fn row_text_lengths_count_utf8_bytes_per_char() {
    let grid = grid_from_lines(&["aé日😀  "]);
    let (text, lengths) = pane_row_text_with_lengths(&grid, 0);
    assert_eq!(text, "aé日😀");
    assert_eq!(lengths, vec![1, 2, 3, 4]);
}

#[test]
fn grid_row_hashes_stop_at_the_grid_height() {
    let mut grid = grid_from_lines(&["a", "b", "c"]);
    grid.height = 2;
    assert_eq!(compute_grid_row_hashes(&grid).len(), 2);
}

#[test]
fn scrollback_rows_drop_trailing_blanks_and_report_utf8_lengths() {
    let line: Vec<Cell> = "aé字  ".chars().map(|ch| Cell { ch }).collect();
    let (text, lengths) = scrollback_row_text_with_lengths(&line);
    assert_eq!(text, "aé字");
    assert_eq!(lengths, vec![1, 2, 3]);
}
