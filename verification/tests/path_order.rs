//! The module directory list: `Path` ordering with `==` duplicates removed.

use std::path::PathBuf;

use et_services::modules::{module_paths, ModulesConfig};
use et_services::path_order::sorted_unique_paths;

fn std_sorted_unique(paths: &[&str]) -> Vec<String> {
    let mut v: Vec<PathBuf> = paths.iter().map(PathBuf::from).collect();
    v.sort();
    v.dedup();
    v.into_iter().map(|p| p.display().to_string()).collect()
}

fn ours(paths: &[&str]) -> Vec<String> {
    sorted_unique_paths(&paths.iter().map(|p| p.to_string()).collect())
}

#[test]
fn paths_sort_and_dedup_as_path_buf_does() {
    let cases: Vec<Vec<&str>> = vec![
        vec!["b", "a", "a/", "a//", "./a", "a/."],
        vec!["/srv/mods", "/srv/mods/", "/srv", "/srv/mods/x", "/srv/m", "/srv//mods"],
        vec!["..", "../a", "a/..", "a/../b", ".", "./.", "x", "/"],
        vec!["a.b", "a-b", "a/b", "ab", "a", "A", "é", "z"],
        vec!["modules/one", "modules/two", "modules/one", "modules//one/"],
        vec![],
    ];
    for case in cases {
        assert_eq!(ours(&case), std_sorted_unique(&case), "input {case:?}");
    }
}

#[test]
fn the_first_spelling_of_a_duplicate_is_kept() {
    assert_eq!(ours(&["x//y", "x/y", "w"]), vec!["w".to_string(), "x//y".to_string()]);
}

#[test]
fn configured_paths_stay_as_given_without_mise() {
    let config = ModulesConfig::new(vec!["b".to_string(), "a".to_string(), "b".to_string()], String::new());
    assert_eq!(module_paths(&config, &vec!["c".to_string()]), vec!["b", "a", "b"]);
}

#[test]
fn staged_directories_join_the_sorted_list_with_mise() {
    let mut config = ModulesConfig::new(vec!["/m/b".to_string(), "/m/a".to_string()], String::new());
    config.mise_discover = true;
    let staged = vec!["/m/a/".to_string(), "/m/c".to_string()];
    assert_eq!(module_paths(&config, &staged), vec!["/m/a", "/m/b", "/m/c"]);
}
