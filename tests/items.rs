use formation::configuration::{ConfigurationNodeType, ConfigurationScope, Parser, SourceInfo};
use formation::fs::{CreateOptions, FileSystem, FileSystemEntity};
use formation::manifest::IgnoredSource;
use formation::settings::{Inner, Monitoring};
use formation::storage::MockStorageService;

#[test]
fn format_identifier_trims_brackets() {
    assert_eq!(Parser::format_identifier(None, "[editor]"), "editor");
    assert_eq!(Parser::format_identifier(Some("window"), "[[editor]]"), "window/editor");
    assert_eq!(Parser::format_identifier(None, "[a]b]"), "a]b");
    assert_eq!(Parser::format_identifier(Some("p"), "[]"), "p/");
    assert_eq!(Parser::format_identifier(None, "plain"), "plain");
    let _ = Parser::new();
}

#[test]
fn configuration_defaults() {
    assert_eq!(ConfigurationScope::default(), ConfigurationScope::Window);
    assert_eq!(ConfigurationNodeType::default(), ConfigurationNodeType::Null);
    assert!(ConfigurationNodeType::Object.is_object());
    assert!(!ConfigurationNodeType::Array.is_object());
    let info = SourceInfo { id: "core".to_string(), display_name: None };
    assert_eq!(info.id, "core");
}

#[test]
fn file_system_items() {
    let options = CreateOptions::default();
    assert!(!options.overwrite);
    assert!(options.ignore_if_exists);
    let _ = FileSystem::new();
    let file = FileSystemEntity::File { name: "a.txt".to_string(), content: None };
    let dir = FileSystemEntity::Directory { name: "src".to_string(), children: Some(vec![file]) };
    assert_eq!(dir.name(), "src");
    if let FileSystemEntity::Directory { children: Some(children), .. } = &dir {
        assert_eq!(children[0].name(), "a.txt");
    }
}

#[test]
fn plain_records() {
    let source = IgnoredSource { id: "x1".to_string(), source: "target".to_string() };
    assert_eq!(source.clone(), source);
    let inner = Inner { monitoring: Monitoring { exclude: Some(vec!["target".to_string()]) } };
    assert_eq!(inner.monitoring.exclude.map(|v| v.len()), Some(1));
    let _ = MockStorageService::new();
}

fn strings(items: &[&str]) -> Vec<String> {
    items.iter().map(|s| s.to_string()).collect()
}

#[test]
fn append_to_exclude_list_skips_known_paths() {
    let mut m = Monitoring { exclude: Some(strings(&["target", "node_modules"])) };
    let (r, changed) = m.append_to_monitoring_exclude_list(&strings(&["dist", "target", "out"]));
    assert!(changed);
    assert_eq!(r, strings(&["target", "node_modules", "dist", "out"]));
    assert_eq!(m.exclude, Some(strings(&["target", "node_modules"])));
    m.commit_exclude_list(r.clone());
    assert_eq!(m.exclude, Some(r));

    let (r, changed) = m.append_to_monitoring_exclude_list(&strings(&["dist"]));
    assert!(!changed);
    assert_eq!(Some(r), m.exclude);
}

#[test]
fn append_to_unset_exclude_list() {
    let m = Monitoring { exclude: None };
    let (r, changed) = m.append_to_monitoring_exclude_list(&vec![]);
    assert!(r.is_empty());
    assert!(!changed);
    let (r, changed) = m.append_to_monitoring_exclude_list(&strings(&["a"]));
    assert!(changed);
    assert_eq!(r, strings(&["a"]));
    assert_eq!(m.exclude, None);
}

#[test]
fn remove_from_exclude_list() {
    let mut m = Monitoring { exclude: Some(strings(&["a", "b", "a", "c"])) };
    let (r, changed) = m.remove_from_monitoring_exclude_list(&strings(&["a", "z"]));
    assert!(changed);
    assert_eq!(r, strings(&["b", "c"]));
    m.commit_exclude_list(r);
    assert_eq!(m.exclude, Some(strings(&["b", "c"])));

    let unset = Monitoring { exclude: None };
    let (r, changed) = unset.remove_from_monitoring_exclude_list(&strings(&["a"]));
    assert!(r.is_empty());
    assert!(!changed);
}
