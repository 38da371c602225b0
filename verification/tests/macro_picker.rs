use nexterm_client::macro_picker::{MacroConfig, MacroPicker};

fn mac(name: &str, description: &str) -> MacroConfig {
    MacroConfig { name: name.to_string(), description: description.to_string() }
}

fn names(p: &MacroPicker) -> Vec<String> {
    p.filtered().iter().map(|m| m.name.clone()).collect()
}

#[test]
fn empty_query_lists_every_macro_in_order() {
    let p = MacroPicker::new(vec![mac("zeta", "z"), mac("alpha", "a"), mac("mid", "m")]);
    assert_eq!(names(&p), vec!["zeta", "alpha", "mid"]);
}

#[test]
fn query_keeps_matches_only() {
    let mut p = MacroPicker::new(vec![mac("deploy", "push to prod"), mac("lint", "run clippy")]);
    p.push_char('c');
    p.push_char('l');
    p.push_char('i');
    p.push_char('p');
    assert_eq!(names(&p), vec!["lint"]);
    p.pop_char();
    p.pop_char();
    p.pop_char();
    p.pop_char();
    assert_eq!(p.filtered().len(), 2);
}

#[test]
fn selection_wraps_and_selected_macro_follows() {
    let mut p = MacroPicker::new(vec![mac("a", ""), mac("b", ""), mac("c", "")]);
    p.open();
    p.select_prev();
    assert_eq!(p.selected, 2);
    assert_eq!(p.selected_macro().unwrap().name, "c");
    p.select_next();
    assert_eq!(p.selected, 0);
    p.reload(Vec::new());
    assert_eq!(p.selected, 0);
    p.select_next();
    assert_eq!(p.selected, 0);
    assert!(p.selected_macro().is_none());
    p.close();
    assert!(!p.is_open);
}

#[test]
fn no_match_gives_an_empty_list() {
    let mut p = MacroPicker::new(vec![mac("alpha", "first")]);
    p.push_char('q');
    assert!(p.filtered().is_empty());
}
