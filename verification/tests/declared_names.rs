//! A module is served under the name its `package.json` declares, whatever that name is.

use et_services::modules::{list_modules, DirProbe, EntryScan, ModulesConfig, ScannedPath};

/// A configured directory holding one module directory `<root>/<dir>` whose `package.json` declares `name`.
fn module_entry(root: &str, dir: &str, name: &str) -> EntryScan {
    EntryScan {
        path: format!("{root}/{dir}"),
        name: Some(dir.to_string()),
        is_dir: true,
        probe: DirProbe::PackageJson { declared: Some(name.to_string()) },
    }
}

fn discovered(scans: Vec<ScannedPath>) -> Vec<String> {
    let mut names: Vec<String> = list_modules(&scans).into_iter().map(|(name, _)| name).collect();
    names.sort();
    names
}

fn parent(root: &str, entries: Vec<EntryScan>) -> ScannedPath {
    ScannedPath { path: root.to_string(), probe: DirProbe::Neither, entries: Some(entries) }
}

#[test]
fn a_scoped_name_is_served_exactly_as_declared() {
    let root = "/tmp/root";
    let scans = vec![parent(root, vec![module_entry(root, "math1", "@edge-toolkit/et-ws-math1")])];
    assert_eq!(discovered(scans), vec!["@edge-toolkit/et-ws-math1".to_string()]);
}

#[test]
fn no_scope_is_privileged_over_another() {
    let root = "/tmp/root";
    let scans = vec![parent(
        root,
        vec![
            module_entry(root, "ours", "@edge-toolkit/et-ws-math1"),
            module_entry(root, "theirs", "@huggingface/transformers"),
        ],
    )];
    assert_eq!(
        discovered(scans),
        vec!["@edge-toolkit/et-ws-math1".to_string(), "@huggingface/transformers".to_string()]
    );
}

#[test]
fn an_unscoped_name_is_served_exactly_as_declared() {
    let root = "/tmp/root";
    let scans = vec![parent(root, vec![module_entry(root, "agent", "et-ws-wasm-agent")])];
    assert_eq!(discovered(scans), vec!["et-ws-wasm-agent".to_string()]);
}

#[test]
fn a_configured_path_that_does_not_exist_is_skipped_rather_than_breaking_the_scan() {
    let root = "/tmp/root";
    let missing = ScannedPath { path: "/definitely/not/a/directory".to_string(), probe: DirProbe::Neither, entries: None };
    let scans = vec![missing, parent(root, vec![module_entry(root, "math1", "@edge-toolkit/et-ws-math1")])];
    let names: Vec<String> = list_modules(&scans).into_iter().map(|(name, _)| name).collect();
    assert_eq!(names, vec!["@edge-toolkit/et-ws-math1".to_string()]);
}

#[test]
fn modules_config_new_serves_exactly_the_given_paths() {
    let config = ModulesConfig::new(vec!["/a".to_string(), "/b".to_string()], "root".to_string());
    assert_eq!(config.paths, vec!["/a".to_string(), "/b".to_string()]);
    assert_eq!(config.root, "root");
    assert!(!config.mise_discover);
}
