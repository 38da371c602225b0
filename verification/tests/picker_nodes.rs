use nexterm_client::accessibility::{host_item_id, macro_item_id, HOST_MANAGER_ID, MACRO_PICKER_ID};
use nexterm_client::host_manager::{HostConfig, HostManager};
use nexterm_client::macro_picker::{MacroConfig, MacroPicker};
use nexterm_client::picker_nodes::{host_manager_nodes, macro_picker_nodes, Role};

fn host(name: &str, addr: &str, user: &str, port: u16) -> HostConfig {
    HostConfig {
        name: name.to_string(),
        host: addr.to_string(),
        port,
        username: user.to_string(),
        auth_type: "agent".to_string(),
        key_path: None,
        proxy_jump: None,
        x11_forward: false,
        x11_trusted: false,
        group: String::new(),
        tags: Vec::new(),
    }
}

#[test]
fn host_manager_dialog_lists_hosts_and_focuses_the_selection() {
    let mut mgr = HostManager::new(
        vec![host("web", "web.example.com", "admin", 2222), host("", "db.example.com", "pg", 22)],
        Vec::new(),
        Vec::new(),
    );
    mgr.selected = 1;
    let (nodes, focus) = host_manager_nodes(&mgr);
    assert_eq!(nodes.len(), 3);
    assert_eq!(nodes[0].id, HOST_MANAGER_ID);
    assert_eq!(nodes[0].role, Role::Dialog);
    assert!(nodes[0].modal);
    assert_eq!(nodes[0].label.as_deref(), Some("SSH host manager"));
    assert_eq!(nodes[0].children, vec![host_item_id(0), host_item_id(1)]);
    // Empty query: hosts ordered by name ("" before "web").
    assert_eq!(nodes[1].label.as_deref(), Some("pg@db.example.com"));
    assert_eq!(nodes[1].description.as_deref(), Some("Host: db.example.com, user: pg, port: 22"));
    assert!(!nodes[1].selected);
    assert_eq!(nodes[2].label.as_deref(), Some("web"));
    assert_eq!(nodes[2].description.as_deref(), Some("Host: web.example.com, user: admin, port: 2222"));
    assert!(nodes[2].selected);
    assert_eq!(focus, host_item_id(1));

    mgr.selected = 5;
    let (_, focus) = host_manager_nodes(&mgr);
    assert_eq!(focus, HOST_MANAGER_ID);
}

#[test]
fn macro_picker_dialog_omits_empty_descriptions() {
    let p = MacroPicker::new(vec![
        MacroConfig { name: "build".to_string(), description: "cargo build".to_string() },
        MacroConfig { name: "test".to_string(), description: String::new() },
    ]);
    let (nodes, focus) = macro_picker_nodes(&p);
    assert_eq!(nodes.len(), 3);
    assert_eq!(nodes[0].id, MACRO_PICKER_ID);
    assert_eq!(nodes[0].label.as_deref(), Some("Lua macro picker"));
    assert_eq!(nodes[1].id, macro_item_id(0));
    assert_eq!(nodes[1].label.as_deref(), Some("build"));
    assert_eq!(nodes[1].description.as_deref(), Some("cargo build"));
    assert!(nodes[1].selected);
    assert_eq!(nodes[2].description, None);
    assert_eq!(focus, macro_item_id(0));

    let empty = MacroPicker::new(Vec::new());
    let (nodes, focus) = macro_picker_nodes(&empty);
    assert_eq!(nodes.len(), 1);
    assert!(nodes[0].children.is_empty());
    assert_eq!(focus, MACRO_PICKER_ID);
}
