use nexterm_client::accessibility::{
    pane_node_id, pane_row_node_id, pane_scrollback_row_node_id, tab_node_id, Cell, Grid, PANE_AREA_ID,
    PANE_INPUT_BUFFER_ID, ROOT_ID, TAB_BAR_ID, WINDOW_CLOSE_BTN_ID, WINDOW_MAXIMIZE_BTN_ID,
    WINDOW_MINIMIZE_BTN_ID,
};
use nexterm_client::pane_tree::{build_base_nodes, BaseState, PaneContent};
use nexterm_client::picker_nodes::{A11yNode, Live, Role};

fn row(text: &str, width: usize) -> Vec<Cell> {
    let mut cells: Vec<Cell> = text.chars().map(|ch| Cell { ch }).collect();
    while cells.len() < width {
        cells.push(Cell { ch: ' ' });
    }
    cells
}

fn pane(id: u32, cols: usize, rows: u16) -> PaneContent {
    PaneContent {
        id,
        title: String::new(),
        cwd: None,
        grid: Grid { rows: (0..rows).map(|_| row("", cols)).collect(), height: rows },
        cursor_row: 0,
        cursor_col: 0,
        scrollback: Vec::new(),
        scroll_offset: 0,
    }
}

fn state(panes: Vec<PaneContent>, tab_order: Vec<u32>, focused: Option<u32>) -> BaseState {
    BaseState { tab_order, focused_pane_id: focused, panes, window_buttons_visible: false }
}

fn node(nodes: &[A11yNode], id: u64) -> &A11yNode {
    nodes.iter().find(|n| n.id == id).expect("node present")
}

#[test]
fn base_nodes_of_an_empty_state() {
    let (nodes, root_children, focus) = build_base_nodes(&state(Vec::new(), Vec::new(), None));
    // Window, tab list, pane area and the input buffer.
    assert_eq!(nodes.len(), 4);
    assert_eq!(focus, ROOT_ID);
    assert_eq!(root_children, vec![TAB_BAR_ID, PANE_AREA_ID]);
    assert_eq!(nodes[0].role, Role::Window);
    assert_eq!(nodes[0].label.as_deref(), Some("Nexterm"));
    assert_eq!(nodes[2].children, vec![PANE_INPUT_BUFFER_ID]);
    assert_eq!(nodes[3].id, PANE_INPUT_BUFFER_ID);
    assert_eq!(nodes[3].value.as_deref(), Some(""));
    assert_eq!(
        nodes[3].description.as_deref(),
        Some("Current pane: No focused pane \u{2014} committing input sends the text to the PTY (use \\n for newline)")
    );
}

#[test]
fn base_nodes_of_a_single_pane() {
    let s = state(vec![pane(42, 80, 24)], vec![42], Some(42));
    let (nodes, _, focus) = build_base_nodes(&s);
    // Window + tab list + pane area + tab + pane + 24 rows + input buffer.
    assert_eq!(nodes.len(), 30);
    assert_eq!(focus, pane_node_id(42));
    let ids: Vec<u64> = nodes.iter().map(|n| n.id).collect();
    assert!(ids.contains(&tab_node_id(42)));
    assert!(ids.contains(&pane_node_id(42)));
    assert!(ids.contains(&PANE_INPUT_BUFFER_ID));
    let tab = node(&nodes, tab_node_id(42));
    assert_eq!(tab.label.as_deref(), Some("Tab 1: Untitled"));
    assert!(tab.selected);
    let p = node(&nodes, pane_node_id(42));
    assert_eq!(p.label.as_deref(), Some("Pane 42"));
    assert_eq!(p.children.len(), 24);
    assert_eq!(
        node(&nodes, PANE_INPUT_BUFFER_ID).description.as_deref(),
        Some("Current pane: Pane 42 \u{2014} committing input sends the text to the PTY (use \\n for newline)")
    );
}

#[test]
fn base_nodes_follow_the_tab_order() {
    let s = state(vec![pane(10, 80, 24), pane(20, 80, 24), pane(30, 80, 24)], vec![30, 10, 20], Some(10));
    let (nodes, _, focus) = build_base_nodes(&s);
    // Window + tab list + pane area + 3 tabs + 3 panes + 3 * 24 rows + input buffer.
    assert_eq!(nodes.len(), 82);
    assert_eq!(focus, pane_node_id(10));
    assert_eq!(nodes[1].children, vec![tab_node_id(30), tab_node_id(10), tab_node_id(20)]);
    assert_eq!(nodes[2].children, vec![pane_node_id(30), pane_node_id(10), pane_node_id(20), PANE_INPUT_BUFFER_ID]);
    assert_eq!(nodes[3].label.as_deref(), Some("Tab 1: Untitled"));
    assert!(!nodes[3].selected);
    assert!(nodes[4].selected);
    assert_eq!(nodes[5].label.as_deref(), Some("Tab 3: Untitled"));
}

#[test]
fn base_nodes_fall_back_to_ascending_pane_ids() {
    let s = state(vec![pane(5, 10, 1), pane(2, 10, 1)], Vec::new(), None);
    let (nodes, _, focus) = build_base_nodes(&s);
    assert_eq!(focus, ROOT_ID);
    assert_eq!(nodes[1].children, vec![tab_node_id(2), tab_node_id(5)]);
}

#[test]
fn base_nodes_use_the_pane_title_and_directory() {
    let mut p = pane(1, 80, 24);
    p.title = "vim main.rs".to_string();
    p.cwd = Some("/home/user/project".to_string());
    let (nodes, _, _) = build_base_nodes(&state(vec![p], vec![1], None));
    assert_eq!(nodes.len(), 30);
    assert_eq!(node(&nodes, tab_node_id(1)).label.as_deref(), Some("Tab 1: vim main.rs"));
    let pn = node(&nodes, pane_node_id(1));
    assert_eq!(pn.role, Role::Terminal);
    assert_eq!(pn.label.as_deref(), Some("vim main.rs"));
    assert_eq!(pn.description.as_deref(), Some("Working directory: /home/user/project"));
    assert_eq!(pn.text_selection, None);
}

#[test]
fn base_nodes_skip_a_tab_without_a_pane() {
    let (nodes, _, _) = build_base_nodes(&state(vec![pane(1, 10, 2)], vec![1, 9], Some(9)));
    // Window + tab list + pane area + 2 tabs + pane + 2 rows + input buffer.
    assert_eq!(nodes.len(), 9);
    assert_eq!(node(&nodes, tab_node_id(9)).label.as_deref(), Some("Tab 2: Untitled"));
    assert!(nodes.iter().all(|n| n.id != pane_node_id(9)));
    assert_eq!(
        node(&nodes, PANE_INPUT_BUFFER_ID).description.as_deref(),
        Some("Current pane: No focused pane \u{2014} committing input sends the text to the PTY (use \\n for newline)")
    );
}

#[test]
fn base_nodes_mark_the_cursor_row_of_the_focused_pane() {
    let mut p = pane(7, 10, 3);
    p.grid.rows[1] = row("hello", 10);
    p.grid.rows[2] = row("ab", 10);
    p.cursor_row = 1;
    p.cursor_col = 8;
    let (nodes, _, _) = build_base_nodes(&state(vec![p], vec![7], Some(7)));
    let r1 = node(&nodes, pane_row_node_id(7, 1));
    assert_eq!(r1.role, Role::TextRun);
    assert_eq!(r1.value.as_deref(), Some("hello"));
    assert_eq!(r1.character_lengths, vec![1, 1, 1, 1, 1]);
    assert_eq!(r1.live, Live::Polite);
    let r0 = node(&nodes, pane_row_node_id(7, 0));
    assert_eq!(r0.value.as_deref(), Some(" "));
    assert_eq!(r0.live, Live::Off);
    // The caret is clamped to the end of the row's text.
    assert_eq!(node(&nodes, pane_node_id(7)).text_selection, Some((pane_row_node_id(7, 1), 5)));
}

#[test]
fn base_nodes_give_no_caret_to_an_unfocused_pane() {
    let mut p = pane(7, 10, 3);
    p.cursor_row = 1;
    let (nodes, _, _) = build_base_nodes(&state(vec![p], vec![7], None));
    assert_eq!(node(&nodes, pane_row_node_id(7, 1)).live, Live::Off);
    assert_eq!(node(&nodes, pane_node_id(7)).text_selection, None);
}

#[test]
fn base_nodes_show_a_window_onto_the_scrollback() {
    let mut p = pane(3, 4, 2);
    p.scrollback = (0..300).map(|i| row(&format!("{}", i % 10), 4)).collect();
    let (nodes, _, _) = build_base_nodes(&state(vec![p], vec![3], None));
    let pn = node(&nodes, pane_node_id(3));
    // Lines 199..300 around the newest line, then the 2 visible rows.
    assert_eq!(pn.children.len(), 101 + 2);
    assert_eq!(pn.children[0], pane_scrollback_row_node_id(3, 199));
    assert_eq!(pn.children[100], pane_scrollback_row_node_id(3, 299));
    assert_eq!(pn.children[101], pane_row_node_id(3, 0));
    assert_eq!(node(&nodes, pane_scrollback_row_node_id(3, 205)).value.as_deref(), Some("5"));

    let mut q = pane(4, 4, 1);
    q.scrollback = (0..300).map(|_| row("x", 4)).collect();
    q.scroll_offset = 250;
    let (nodes, _, _) = build_base_nodes(&state(vec![q], vec![4], None));
    let qn = node(&nodes, pane_node_id(4));
    // Center 49: lines 0..150.
    assert_eq!(qn.children.len(), 150 + 1);
    assert_eq!(qn.children[0], pane_scrollback_row_node_id(4, 0));
}

#[test]
fn base_nodes_list_the_window_buttons_after_the_tabs() {
    let mut s = state(vec![pane(1, 4, 1)], vec![1], Some(1));
    s.window_buttons_visible = true;
    let (nodes, _, _) = build_base_nodes(&s);
    assert_eq!(
        nodes[1].children,
        vec![tab_node_id(1), WINDOW_MINIMIZE_BTN_ID, WINDOW_MAXIMIZE_BTN_ID, WINDOW_CLOSE_BTN_ID]
    );
    let close = node(&nodes, WINDOW_CLOSE_BTN_ID);
    assert_eq!(close.role, Role::Button);
    assert_eq!(close.label.as_deref(), Some("Close window"));
    assert!(close.clickable);
    assert_eq!(node(&nodes, WINDOW_MAXIMIZE_BTN_ID).label.as_deref(), Some("Maximize or restore window"));
}

#[test]
fn base_nodes_report_utf8_lengths_of_wide_characters() {
    let mut p = pane(2, 4, 1);
    p.grid.rows[0] = vec![Cell { ch: 'a' }, Cell { ch: 'é' }, Cell { ch: '日' }, Cell { ch: ' ' }];
    let (nodes, _, _) = build_base_nodes(&state(vec![p], vec![2], None));
    let r = node(&nodes, pane_row_node_id(2, 0));
    assert_eq!(r.value.as_deref(), Some("aé日"));
    assert_eq!(r.character_lengths, vec![1, 2, 3]);
}
