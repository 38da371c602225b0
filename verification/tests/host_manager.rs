use nexterm_client::host_manager::{
    parse_ssh_config, HistoryEntry, HostConfig, HostManager, KeychainAction, PasswordModal,
};

fn make_host(name: &str, host: &str, username: &str) -> HostConfig {
    HostConfig {
        name: name.to_string(),
        host: host.to_string(),
        port: 22,
        username: username.to_string(),
        auth_type: "key".to_string(),
        key_path: None,
        proxy_jump: None,
        x11_forward: false,
        x11_trusted: false,
        group: String::new(),
        tags: Vec::new(),
    }
}

fn make_host_with_tags(name: &str, host: &str, group: &str, tags: &[&str]) -> HostConfig {
    HostConfig {
        name: name.to_string(),
        host: host.to_string(),
        port: 22,
        username: "ubuntu".to_string(),
        auth_type: "agent".to_string(),
        key_path: None,
        proxy_jump: None,
        x11_forward: false,
        x11_trusted: false,
        group: group.to_string(),
        tags: tags.iter().map(|s| s.to_string()).collect(),
    }
}

fn manager(hosts: Vec<HostConfig>) -> HostManager {
    HostManager::new(hosts, Vec::new(), Vec::new())
}

#[test]
fn empty_query_returns_all() {
    let mgr = manager(vec![
        make_host("web", "192.168.1.1", "admin"),
        make_host("db", "192.168.1.2", "admin"),
    ]);
    assert_eq!(mgr.filtered().len(), 2);
}

#[test]
fn fuzzy_filter_works() {
    let mut mgr = manager(vec![
        make_host("web-server", "web.example.com", "ubuntu"),
        make_host("db-server", "db.example.com", "postgres"),
    ]);
    mgr.query = "web".to_string();
    let results = mgr.filtered();
    assert_eq!(results.len(), 1);
    assert_eq!(results[0].name, "web-server");
}

#[test]
fn selection_wraps() {
    let mut mgr = manager(vec![make_host("a", "a.local", "user"), make_host("b", "b.local", "user")]);
    mgr.selected = 1;
    mgr.select_next();
    assert_eq!(mgr.selected, 0);
    mgr.select_prev();
    assert_eq!(mgr.selected, 1);
}

#[test]
fn tag_filter_works() {
    let mut mgr = manager(vec![
        make_host_with_tags("web", "web.example.com", "prod", &["web", "prod"]),
        make_host_with_tags("db", "db.example.com", "prod", &["db", "prod"]),
        make_host_with_tags("dev", "dev.example.com", "dev", &["dev"]),
    ]);
    mgr.set_tag_filter(Some("prod".to_string()));
    assert_eq!(mgr.filtered().len(), 2);
    mgr.set_tag_filter(Some("web".to_string()));
    assert_eq!(mgr.filtered().len(), 1);
    assert_eq!(mgr.filtered()[0].name, "web");
    mgr.set_tag_filter(None);
    assert_eq!(mgr.filtered().len(), 3);
}

#[test]
fn group_filter_works() {
    let mut mgr = manager(vec![
        make_host_with_tags("web", "web.example.com", "production", &[]),
        make_host_with_tags("db", "db.example.com", "production", &[]),
        make_host_with_tags("dev", "dev.example.com", "development", &[]),
    ]);
    mgr.set_group_filter(Some("production".to_string()));
    assert_eq!(mgr.filtered().len(), 2);
    mgr.set_group_filter(Some("development".to_string()));
    assert_eq!(mgr.filtered().len(), 1);
}

#[test]
fn all_tags_returns_unique_sorted() {
    let mgr = manager(vec![
        make_host_with_tags("a", "a.example.com", "", &["web", "prod"]),
        make_host_with_tags("b", "b.example.com", "", &["db", "prod"]),
    ]);
    let tags = mgr.all_tags();
    assert_eq!(tags, vec!["db", "prod", "web"]);
}

#[test]
fn all_groups_returns_unique_sorted() {
    let mgr = manager(vec![
        make_host_with_tags("a", "a.example.com", "prod", &[]),
        make_host_with_tags("b", "b.example.com", "prod", &[]),
        make_host_with_tags("c", "c.example.com", "dev", &[]),
    ]);
    let groups = mgr.all_groups();
    assert_eq!(groups, vec!["dev", "prod"]);
}

#[test]
fn connection_history_is_recorded() {
    let host = make_host("prod", "prod.example.com", "ubuntu");
    let mut mgr = manager(vec![host.clone()]);
    assert!(mgr.history_for(&host).is_none());

    mgr.record_connection(&host);
    mgr.record_connection(&host);

    let entry = mgr.history_for(&host).unwrap();
    assert_eq!(entry.count, 2);
}

#[test]
fn frequently_connected_hosts_rank_first() {
    let host_a = make_host("alpha", "alpha.example.com", "user");
    let host_b = make_host("beta", "beta.example.com", "user");
    let mut mgr = manager(vec![host_a.clone(), host_b.clone()]);
    for _ in 0..3 {
        mgr.record_connection(&host_b);
    }
    mgr.record_connection(&host_a);
    let results = mgr.filtered();
    assert_eq!(results[0].name, "beta");
    assert_eq!(results[1].name, "alpha");
}

#[test]
fn tag_filter_combines_with_fuzzy_query() {
    let mut mgr = manager(vec![
        make_host_with_tags("web-prod", "web.example.com", "prod", &["web", "prod"]),
        make_host_with_tags("db-prod", "db.example.com", "prod", &["db", "prod"]),
    ]);
    mgr.set_tag_filter(Some("prod".to_string()));
    mgr.query = "web".to_string();
    let results = mgr.filtered();
    assert_eq!(results.len(), 1);
    assert_eq!(results[0].name, "web-prod");
}

#[test]
fn ssh_config_parses_basic_host() {
    let config = r#"
Host myserver
    Hostname 192.168.1.100
    User admin
    Port 2222
    IdentityFile ~/.ssh/id_rsa
"#;
    let hosts = parse_ssh_config(config, "/home/me");
    assert_eq!(hosts.len(), 1);
    assert_eq!(hosts[0].host, "192.168.1.100");
    assert_eq!(hosts[0].username, "admin");
    assert_eq!(hosts[0].port, 2222);
    assert_eq!(hosts[0].auth_type, "key");
}

#[test]
fn ssh_config_without_hostname_uses_alias() {
    let config = r#"
Host myalias
    User alice
"#;
    let hosts = parse_ssh_config(config, "/home/me");
    assert_eq!(hosts.len(), 1);
    assert_eq!(hosts[0].host, "myalias");
}

#[test]
fn ssh_config_skips_wildcards() {
    let config = r#"
Host *
    ServerAliveInterval 60

Host real-server
    Hostname srv.example.com
"#;
    let hosts = parse_ssh_config(config, "/home/me");
    assert_eq!(hosts.len(), 1);
    assert_eq!(hosts[0].host, "srv.example.com");
}

#[test]
fn ssh_config_parses_multiple_hosts() {
    let config = r#"
Host web
    Hostname web.example.com
    User ubuntu

Host db
    Hostname db.example.com
    User postgres
    Port 2222
"#;
    let hosts = parse_ssh_config(config, "/home/me");
    assert_eq!(hosts.len(), 2);
    assert_eq!(hosts[0].host, "web.example.com");
    assert_eq!(hosts[1].port, 2222);
}

#[test]
fn ssh_config_ignores_comments() {
    let config = r#"
# これはコメント
Host myhost
    # ホスト名コメント
    Hostname 10.0.0.1
"#;
    let hosts = parse_ssh_config(config, "/home/me");
    assert_eq!(hosts.len(), 1);
    assert_eq!(hosts[0].host, "10.0.0.1");
}

fn make_test_host_for_modal(name: &str) -> HostConfig {
    HostConfig {
        name: name.to_string(),
        host: "127.0.0.1".to_string(),
        port: 22,
        username: "testuser".to_string(),
        auth_type: "password".to_string(),
        key_path: None,
        proxy_jump: None,
        x11_forward: false,
        x11_trusted: false,
        group: String::new(),
        tags: Vec::new(),
    }
}

#[test]
fn password_modal_starts_empty() {
    let host = make_test_host_for_modal("__pm_test_init__");
    let modal = PasswordModal::new(host.clone(), None);
    assert_eq!(modal.input_len(), 0);
    assert!(!modal.prefilled);
    assert!(!modal.remember);
}

#[test]
fn password_modal_push_pop_matches_input_len() {
    let host = make_test_host_for_modal("__pm_test_input__");
    let mut modal = PasswordModal::new(host, None);
    modal.push_char('a');
    modal.push_char('b');
    modal.push_char('c');
    assert_eq!(modal.input_len(), 3);
    modal.pop_char();
    assert_eq!(modal.input_len(), 2);
}

#[test]
fn password_modal_toggle_remember_flips_flag() {
    let host = make_test_host_for_modal("__pm_test_toggle__");
    let mut modal = PasswordModal::new(host, None);
    assert!(!modal.remember);
    modal.toggle_remember();
    assert!(modal.remember);
    modal.toggle_remember();
    assert!(!modal.remember);
}

#[test]
fn password_modal_take_password_clears_input() {
    let host = make_test_host_for_modal("__pm_test_take__");
    let mut modal = PasswordModal::new(host, None);
    modal.push_char('p');
    modal.push_char('w');
    let (pw, action) = modal.take_password();
    assert_eq!(pw.expose(), "pw");
    assert_eq!(action, KeychainAction::Keep);
    assert_eq!(modal.input_len(), 0);
}

// --- further cases ---

#[test]
fn prefilled_modal_remembers_and_says_what_to_do_with_the_keychain() {
    let host = make_test_host_for_modal("h");
    let mut modal = PasswordModal::new(host.clone(), Some("secret".to_string()));
    assert!(modal.prefilled && modal.remember);
    assert_eq!(modal.input_len(), 6);
    let (pw, action) = modal.take_password();
    assert_eq!(pw.expose(), "secret");
    assert_eq!(action, KeychainAction::Store);

    let mut modal = PasswordModal::new(host.clone(), Some("secret".to_string()));
    modal.toggle_remember();
    let (_, action) = modal.take_password();
    assert_eq!(action, KeychainAction::Delete);

    let mut modal = PasswordModal::new(host, None);
    modal.toggle_remember();
    let (_, action) = modal.take_password();
    assert_eq!(action, KeychainAction::Keep);
}

#[test]
fn ssh_config_edge_cases() {
    let config = "host=a\r\nHOSTNAME = a.example.com\r\nport +2200\nIdentityFile ~/.ssh/k\n\
                  Host b?\nUser x\nHost c\nPort 70000\nIdentityFile /abs/key\nUser\nHost d\nPort 22x";
    let hosts = parse_ssh_config(config, "/home/me");
    assert_eq!(hosts.len(), 3);
    assert_eq!(hosts[0].name, "a (ssh config)");
    assert_eq!(hosts[0].host, "a.example.com");
    assert_eq!(hosts[0].port, 2200);
    assert_eq!(hosts[0].username, "root");
    assert_eq!(hosts[0].key_path.as_deref(), Some("/home/me/.ssh/k"));
    assert_eq!(hosts[1].name, "c (ssh config)");
    assert_eq!(hosts[1].port, 22);
    assert_eq!(hosts[1].key_path.as_deref(), Some("/abs/key"));
    assert_eq!(hosts[1].auth_type, "key");
    assert_eq!(hosts[2].host, "d");
    assert_eq!(hosts[2].port, 22);
    assert_eq!(hosts[2].auth_type, "agent");
    assert!(parse_ssh_config("", "/h").is_empty());
    assert!(parse_ssh_config("Hostname x\nUser y\n", "/h").is_empty());
}

#[test]
fn ssh_hosts_already_configured_are_not_merged() {
    let mut ssh = make_host("ssh-web", "web.example.com", "u");
    ssh.port = 22;
    let mut other = make_host("ssh-db", "db.example.com", "u");
    other.port = 2222;
    let mgr = HostManager::new(vec![make_host("web", "web.example.com", "admin")], vec![ssh, other], Vec::new());
    let names: Vec<&str> = mgr.hosts().iter().map(|h| h.name.as_str()).collect();
    assert_eq!(names, vec!["web", "ssh-db"]);
}

#[test]
fn history_from_disk_orders_the_list() {
    let a = make_host("alpha", "alpha.example.com", "user");
    let b = make_host("beta", "beta.example.com", "user");
    let key = "user@beta.example.com:22".to_string();
    let entry = HistoryEntry { key: key.clone(), count: 5, last_connected: 1 };
    let mut mgr = HostManager::new(vec![a, b.clone()], Vec::new(), vec![(key, entry)]);
    assert_eq!(mgr.filtered()[0].name, "beta");
    assert_eq!(mgr.history_for(&b).unwrap().count, 5);
    mgr.record_connection(&b);
    assert_eq!(mgr.history_for(&b).unwrap().count, 6);
    assert_eq!(mgr.selected_host().unwrap().name, "beta");
    mgr.selected = 7;
    assert!(mgr.selected_host().is_none());
}

#[test]
fn equal_scores_fall_back_to_name_order() {
    let mgr = manager(vec![make_host("zeta", "z", "u"), make_host("alpha", "a", "u")]);
    let names: Vec<&str> = mgr.filtered().iter().map(|h| h.name.as_str()).collect();
    assert_eq!(names, vec!["alpha", "zeta"]);
}

#[test]
fn query_editing_resets_the_selection() {
    let mut mgr = manager(vec![make_host("a", "a", "u")]);
    mgr.open();
    assert!(mgr.is_open);
    mgr.push_char('x');
    mgr.push_char('y');
    mgr.selected = 3;
    mgr.pop_char();
    assert_eq!(mgr.query, "x");
    assert_eq!(mgr.selected, 0);
    mgr.close();
    assert!(!mgr.is_open);
    assert_eq!(mgr.query, "");
    mgr.reload(vec![make_host("b", "b", "u"), make_host("c", "c", "u")], Vec::new());
    assert_eq!(mgr.filtered().len(), 2);
}

#[test]
fn record_connection_at_stores_the_given_time_and_counts() {
    let host = make_host("prod", "prod.example.com", "ubuntu");
    let mut mgr = manager(vec![host.clone()]);
    mgr.record_connection_at(&host, 1_700_000_000);
    let entry = mgr.history_for(&host).unwrap();
    assert_eq!((entry.count, entry.last_connected), (1, 1_700_000_000));
    mgr.record_connection_at(&host, 1_700_000_100);
    let entry = mgr.history_for(&host).unwrap();
    assert_eq!((entry.count, entry.last_connected), (2, 1_700_000_100));
    assert_eq!(entry.key, "ubuntu@prod.example.com:22");
}
