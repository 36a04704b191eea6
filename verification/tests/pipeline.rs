use rclean::config::RunConfig;
use rclean::entry::EntryMeta;
use rclean::select::DirNode;
use rclean::walk::{clean_targets, collect_candidates};

fn dir_entry(name: &str) -> EntryMeta {
    EntryMeta { name: name.to_string(), is_dir: true, is_symlink: false, extension: None }
}

fn leaf(name: &str, has_manifest: bool, has_build_output: bool) -> DirNode {
    DirNode { entry: dir_entry(name), has_manifest, has_build_output, children: Vec::new() }
}

fn tree(name: &str, children: Vec<DirNode>) -> DirNode {
    DirNode { entry: dir_entry(name), has_manifest: false, has_build_output: false, children }
}

fn config(all: bool) -> RunConfig {
    RunConfig::new(
        "root".to_string(),
        false,
        false,
        all,
        true,
        rclean::config::reserved_dir_names(),
        Vec::new(),
    )
}

fn comps(parts: &[&str]) -> Vec<String> {
    parts.iter().map(|p| p.to_string()).collect()
}

fn scenario_root() -> DirNode {
    let a = leaf("A", true, true);
    let b = leaf("B", true, false);
    let mut hidden = leaf(".hidden", true, true);
    hidden.entry.name = ".hidden".to_string();
    tree("root", vec![a, b, hidden])
}

#[test]
fn default_run_selects_only_built_projects() {
    let root = scenario_root();
    let targets = clean_targets(&root, &Vec::new(), &config(false));
    assert_eq!(targets, vec![comps(&["root", "A"])]);
}

#[test]
fn all_run_selects_unbuilt_projects_but_never_hidden_ones() {
    let root = scenario_root();
    let targets = clean_targets(&root, &Vec::new(), &config(true));
    assert_eq!(targets, vec![comps(&["root", "A"]), comps(&["root", "B"])]);
}

#[test]
fn hidden_directories_are_not_descended_into() {
    let nested = leaf("inner", true, true);
    let mut hidden = tree(".cache", vec![nested]);
    hidden.has_manifest = true;
    hidden.has_build_output = true;
    let root = tree("root", vec![hidden]);
    let cfg = config(false);
    let candidates = collect_candidates(&root, &Vec::new(), &cfg);
    assert_eq!(candidates, vec![comps(&["root"])]);
    let targets = clean_targets(&root, &Vec::new(), &cfg);
    assert!(targets.is_empty());
}

#[test]
fn symlinked_directories_are_not_descended_into() {
    let nested = leaf("inner", true, true);
    let mut link = tree("link", vec![nested]);
    link.entry.is_symlink = true;
    let root = tree("root", vec![link]);
    let cfg = config(false);
    let candidates = collect_candidates(&root, &Vec::new(), &cfg);
    assert_eq!(candidates, vec![comps(&["root"])]);
    let targets = clean_targets(&root, &Vec::new(), &cfg);
    assert!(targets.is_empty());
}

#[test]
fn candidates_come_in_depth_first_order() {
    let grandchild = leaf("deep", false, false);
    let child = tree("mid", vec![grandchild]);
    let sibling = leaf("sib", false, false);
    let root = tree("root", vec![child, sibling]);
    let candidates = collect_candidates(&root, &Vec::new(), &config(false));
    assert_eq!(
        candidates,
        vec![
            comps(&["root"]),
            comps(&["root", "mid"]),
            comps(&["root", "mid", "deep"]),
            comps(&["root", "sib"]),
        ]
    );
}

#[test]
fn nested_projects_are_found_at_every_depth() {
    let inner_proj = leaf("tool", true, true);
    let workspace = tree("ws", vec![inner_proj]);
    let top_proj = leaf("top", true, true);
    let root = tree("root", vec![workspace, top_proj]);
    let targets = clean_targets(&root, &Vec::new(), &config(false));
    assert_eq!(targets, vec![comps(&["root", "top"]), comps(&["root", "ws", "tool"])]);
}

#[test]
fn reserved_subtrees_yield_no_projects_when_rule_is_on() {
    let demo = leaf("demo", true, true);
    let examples = tree("examples", vec![demo]);
    let root = tree("root", vec![examples]);
    let mut cfg = config(false);
    let targets = clean_targets(&root, &Vec::new(), &cfg);
    assert!(targets.is_empty());
    cfg.exclude_reserved = false;
    let relaxed = clean_targets(&root, &Vec::new(), &cfg);
    assert_eq!(relaxed, vec![comps(&["root", "examples", "demo"])]);
}

#[test]
fn second_run_after_cleaning_selects_nothing() {
    let before = tree("root", vec![leaf("A", true, true)]);
    let cfg = config(false);
    assert_eq!(clean_targets(&before, &Vec::new(), &cfg), vec![comps(&["root", "A"])]);
    let after = tree("root", vec![leaf("A", true, false)]);
    assert!(clean_targets(&after, &Vec::new(), &cfg).is_empty());
    assert!(clean_targets(&after, &Vec::new(), &cfg).is_empty());
}
