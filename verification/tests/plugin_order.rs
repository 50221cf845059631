use pdf_ast::plugins::registry::{check_dependencies, find_by_author, find_by_tag, get_dependency_order};
use pdf_ast::plugins::{PluginMetadata, PluginResult};

fn plugin(name: &str, deps: &[&str]) -> PluginMetadata {
    let mut m = PluginMetadata::new(name, "1.0.0", "test plugin", "tester");
    m.dependencies = deps.iter().map(|d| d.to_string()).collect();
    m
}

fn names(list: &[&str]) -> Vec<String> {
    list.iter().map(|s| s.to_string()).collect()
}

#[test]
fn dependencies_come_first() {
    let meta = vec![plugin("A", &["B"]), plugin("B", &["C"]), plugin("C", &[])];
    assert_eq!(get_dependency_order(&meta, &names(&["A"])), Ok(names(&["C", "B", "A"])));
    assert_eq!(get_dependency_order(&meta, &names(&["A", "B"])), Ok(names(&["C", "B", "A"])));
    assert_eq!(get_dependency_order(&meta, &names(&["C", "A"])), Ok(names(&["C", "B", "A"])));
    assert_eq!(get_dependency_order(&meta, &[]), Ok(vec![]));
}

#[test]
fn shared_dependencies_are_ordered_once() {
    let meta = vec![plugin("A", &["C", "B"]), plugin("B", &["C"]), plugin("C", &[])];
    assert_eq!(get_dependency_order(&meta, &names(&["A"])), Ok(names(&["C", "B", "A"])));
}

#[test]
fn unregistered_dependencies_are_ordered_as_they_are() {
    let meta = vec![plugin("A", &["X"])];
    assert_eq!(get_dependency_order(&meta, &names(&["A"])), Ok(names(&["X", "A"])));
}

#[test]
fn cycles_are_reported() {
    let meta = vec![plugin("A", &["B"]), plugin("B", &["A"])];
    assert_eq!(
        get_dependency_order(&meta, &names(&["A"])),
        Err("Circular dependency detected involving 'A'".to_string())
    );
    let own = vec![plugin("S", &["S"])];
    assert_eq!(
        get_dependency_order(&own, &names(&["S"])),
        Err("Circular dependency detected involving 'S'".to_string())
    );
}

#[test]
fn dependency_checks_name_the_missing_plugin() {
    let meta = vec![plugin("A", &["B", "X", "Y"]), plugin("B", &[])];
    match check_dependencies(&meta, "A") {
        PluginResult::Error(m) => assert_eq!(m, "Plugin 'A' depends on 'X' which is not registered"),
        other => panic!("unexpected {:?}", other),
    }
    assert!(matches!(check_dependencies(&meta, "B"), PluginResult::Success));
    match check_dependencies(&meta, "Z") {
        PluginResult::Error(m) => assert_eq!(m, "Plugin 'Z' not found"),
        other => panic!("unexpected {:?}", other),
    }
}

#[test]
fn plugins_are_found_by_tag_and_author() {
    let mut a = plugin("A", &[]);
    a.tags = vec!["security".to_string()];
    let mut b = PluginMetadata::new("B", "1.0.0", "other", "someone");
    b.tags = vec!["forms".to_string(), "security".to_string()];
    let c = plugin("C", &[]);
    let meta = vec![a, b, c];
    assert_eq!(find_by_tag(&meta, "security"), names(&["A", "B"]));
    assert!(find_by_tag(&meta, "none").is_empty());
    assert_eq!(find_by_author(&meta, "tester"), names(&["A", "C"]));
}
