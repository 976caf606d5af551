//! Which module is served at `/`, and the module routes.

use et_services::modules::{
    choose_root, list_modules, module_names, mount_path, read_package_name, DirProbe, RootChoice, ScannedPath,
};

fn module(path: &str, declared: Option<&str>) -> ScannedPath {
    ScannedPath {
        path: path.to_string(),
        probe: DirProbe::PkgDir { declared: declared.map(str::to_string) },
        entries: None,
    }
}

#[test]
fn an_unset_root_serves_nothing_at_the_root() {
    let modules = list_modules(&vec![module("/m/a", Some("a"))]);
    assert!(matches!(choose_root(&modules, ""), RootChoice::Unset));
}

#[test]
fn a_root_no_scan_provides_is_missing() {
    let modules = list_modules(&vec![module("/m/a", Some("a"))]);
    assert!(matches!(choose_root(&modules, "nonexistent-root"), RootChoice::Missing));
}

#[test]
fn the_root_is_served_from_its_module_directory() {
    let modules = list_modules(&vec![module("/m/static", Some("et-ws-server-static")), module("/m/a", None)]);
    match choose_root(&modules, "et-ws-server-static") {
        RootChoice::Found(dir) => assert_eq!(dir, "/m/static/pkg"),
        _ => panic!("root not found"),
    }
}

#[test]
fn modules_are_listed_by_name_and_fall_back_to_the_directory_name() {
    let modules = list_modules(&vec![
        module("/m/zeta", Some("zeta")),
        module("/m/unnamed/", None),
        ScannedPath {
            path: "/m/flat".to_string(),
            probe: DirProbe::PackageJson { declared: Some("alpha".to_string()) },
            entries: None,
        },
    ]);
    assert_eq!(
        modules,
        vec![
            ("alpha".to_string(), "/m/flat".to_string()),
            ("unnamed".to_string(), "/m/unnamed/pkg".to_string()),
            ("zeta".to_string(), "/m/zeta/pkg".to_string()),
        ]
    );
    assert_eq!(module_names(&modules), vec!["alpha", "unnamed", "zeta"]);
    assert_eq!(mount_path("alpha"), "/modules/alpha");
}

#[test]
fn an_entry_that_is_itself_configured_is_left_to_its_own_scan() {
    let parent = ScannedPath {
        path: "/m".to_string(),
        probe: DirProbe::Neither,
        entries: Some(vec![et_services::modules::EntryScan {
            path: "/m/a".to_string(),
            name: Some("a".to_string()),
            is_dir: true,
            probe: DirProbe::PkgDir { declared: Some("a".to_string()) },
        }]),
    };
    let own = module("/m//a/", Some("a"));
    let modules = list_modules(&vec![parent, own]);
    assert_eq!(modules, vec![("a".to_string(), "/m//a/pkg".to_string())]);
}

#[test]
fn the_package_name_is_read_exactly_as_written() {
    let read = |t: &str| read_package_name(Some(t.to_string()));
    assert_eq!(read(r#"{"name": "@scope/et-ws-comm1", "version": "1.0.0"}"#), Some("@scope/et-ws-comm1".to_string()));
    assert_eq!(read(r#"{"version": "1.0.0"}"#), None);
    assert_eq!(read(r#"{"name": 3}"#), None);
    assert_eq!(read("not json"), None);
    assert_eq!(read_package_name(None), None);
}
