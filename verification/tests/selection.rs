use rclean::config::{validate_root, RootError, RunConfig};
use rclean::entry::{is_hidden, is_symlink, path_to_str, strategy, string_in, EntryMeta};
use rclean::outcome::{apply_outcomes, clean_args};
use rclean::select::{has_reserved_component, is_project, DirNode};

fn dir_entry(name: &str) -> EntryMeta {
    EntryMeta { name: name.to_string(), is_dir: true, is_symlink: false, extension: None }
}

fn default_config() -> RunConfig {
    RunConfig::new(
        "root".to_string(),
        false,
        false,
        false,
        true,
        rclean::config::reserved_dir_names(),
        Vec::new(),
    )
}

fn all_config() -> RunConfig {
    RunConfig::new(
        "root".to_string(),
        false,
        false,
        true,
        true,
        rclean::config::reserved_dir_names(),
        Vec::new(),
    )
}

fn project(name: &str, has_manifest: bool, has_build_output: bool) -> DirNode {
    DirNode { entry: dir_entry(name), has_manifest, has_build_output, children: Vec::new() }
}

fn comps(parts: &[&str]) -> Vec<String> {
    parts.iter().map(|p| p.to_string()).collect()
}

#[test]
fn hidden_names_are_recognised() {
    assert!(is_hidden(&dir_entry(".git")));
    assert!(is_hidden(&dir_entry(".")));
    assert!(!is_hidden(&dir_entry("src")));
    assert!(!is_hidden(&dir_entry("")));
}

#[test]
fn strategy_prunes_hidden_and_symlinks_and_files() {
    let cfg = default_config();
    assert!(strategy(&dir_entry("proj"), &cfg));
    assert!(!strategy(&dir_entry(".hidden"), &cfg));
    let mut link = dir_entry("link");
    link.is_symlink = true;
    assert!(is_symlink(&link));
    assert!(!strategy(&link, &cfg));
    let mut file = dir_entry("README");
    file.is_dir = false;
    assert!(!strategy(&file, &cfg));
}

#[test]
fn strategy_prunes_bundle_directories() {
    let mut cfg = default_config();
    cfg.bundle_extensions = rclean::config::bundle_dir_extensions();
    let mut bundle = dir_entry("Thing.app");
    bundle.extension = Some("app".to_string());
    assert!(!strategy(&bundle, &cfg));
    let plain = default_config();
    assert!(strategy(&bundle, &plain));
}

#[test]
fn manifest_and_build_output_selected_by_default() {
    let cfg = default_config();
    assert!(is_project(&project("a", true, true), &comps(&["root", "a"]), &cfg));
}

#[test]
fn missing_build_output_needs_all_mode() {
    let cfg = default_config();
    let all = all_config();
    let p = project("b", true, false);
    assert!(!is_project(&p, &comps(&["root", "b"]), &cfg));
    assert!(is_project(&p, &comps(&["root", "b"]), &all));
    assert!(is_project(&project("a", true, true), &comps(&["root", "a"]), &all));
}

#[test]
fn no_manifest_never_selected() {
    let cfg = default_config();
    let all = all_config();
    let p = project("c", false, true);
    assert!(!is_project(&p, &comps(&["root", "c"]), &cfg));
    assert!(!is_project(&p, &comps(&["root", "c"]), &all));
}

#[test]
fn hidden_child_never_selected() {
    let cfg = default_config();
    let all = all_config();
    let p = project(".hidden", true, true);
    assert!(!is_project(&p, &comps(&["root", ".hidden"]), &cfg));
    assert!(!is_project(&p, &comps(&["root", ".hidden"]), &all));
}

#[test]
fn reserved_components_respected_when_rule_is_on() {
    let mut cfg = default_config();
    let p = project("demo", true, true);
    assert!(!is_project(&p, &comps(&["root", "examples", "demo"]), &cfg));
    assert!(!is_project(&p, &comps(&["root", "tests", "demo"]), &cfg));
    assert!(!is_project(&p, &comps(&["root", "benches", "demo"]), &cfg));
    cfg.exclude_reserved = false;
    assert!(is_project(&p, &comps(&["root", "examples", "demo"]), &cfg));
}

#[test]
fn selector_is_deterministic() {
    let cfg = default_config();
    let p = project("a", true, true);
    let path = comps(&["root", "a"]);
    let first = is_project(&p, &path, &cfg);
    let second = is_project(&p, &path, &cfg);
    assert_eq!(first, second);
}

#[test]
fn cleaned_project_is_not_reselected() {
    let cfg = default_config();
    let before = project("a", true, true);
    assert!(is_project(&before, &comps(&["root", "a"]), &cfg));
    let after = project("a", true, false);
    assert!(!is_project(&after, &comps(&["root", "a"]), &cfg));
}

#[test]
fn string_membership() {
    let names = comps(&["examples", "tests", "benches"]);
    assert!(string_in(&names, &"tests".to_string()));
    assert!(!string_in(&names, &"src".to_string()));
    assert!(has_reserved_component(&comps(&["root", "benches", "x"]), &names));
    assert!(!has_reserved_component(&comps(&["root", "x"]), &names));
}

#[test]
fn validate_root_decides_the_fatal_case() {
    assert_eq!(validate_root(false, false), Err(RootError::Missing));
    assert_eq!(validate_root(false, true), Err(RootError::Missing));
    assert_eq!(validate_root(true, false), Err(RootError::NotADirectory));
    assert_eq!(validate_root(true, true), Ok(()));
}

#[test]
fn clean_args_for_each_flag_combination() {
    let mut cfg = default_config();
    assert_eq!(clean_args(&cfg), vec!["clean".to_string()]);
    cfg.release = true;
    assert_eq!(clean_args(&cfg), vec!["clean".to_string(), "--release".to_string()]);
    cfg.release = false;
    cfg.doc = true;
    assert_eq!(clean_args(&cfg), vec!["clean".to_string(), "--doc".to_string()]);
    cfg.release = true;
    assert_eq!(
        clean_args(&cfg),
        vec!["clean".to_string(), "--release".to_string(), "--doc".to_string()]
    );
}

#[test]
fn path_rendering_joins_components() {
    assert_eq!(path_to_str(&comps(&["root", "a", "b"]), "/"), "root/a/b");
    assert_eq!(path_to_str(&comps(&["solo"]), "/"), "solo");
    assert_eq!(path_to_str(&comps(&[]), "/"), "");
}

#[test]
fn failure_on_one_project_leaves_the_others_reported() {
    let targets = vec![comps(&["root", "a"]), comps(&["root", "b"]), comps(&["root", "c"])];
    let attempts = vec![None, Some("exit status 101".to_string()), None];
    let results = apply_outcomes(&targets, &attempts);
    assert_eq!(results.len(), 3);
    assert!(results[0].ok);
    assert!(!results[1].ok);
    assert!(results[2].ok);
    assert_eq!(results[1].message, Some("exit status 101".to_string()));
    assert_eq!(results[2].path, comps(&["root", "c"]));
    let all_ok = vec![None, None, None];
    let other = apply_outcomes(&targets, &all_ok);
    assert_eq!(other[0].ok, results[0].ok);
    assert_eq!(other[2].ok, results[2].ok);
}
