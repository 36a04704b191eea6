//! Run configuration and root-path validation.

use vstd::prelude::*;

verus! {

/// Immutable configuration for one run, resolved once at startup and
/// read-only afterwards.
pub struct RunConfig {
    /// The root path the scan starts from, as the user supplied it.
    pub root: String,
    /// Pass the release flag to the clean action.
    pub release: bool,
    /// Clean only documentation artifacts.
    pub doc: bool,
    /// Select every manifest-bearing directory, whether or not a
    /// build-output directory is present.
    pub all: bool,
    /// Whether projects nested under one of `reserved_names` are skipped.
    pub exclude_reserved: bool,
    /// Directory names whose subtrees never hold independent projects
    /// (for instance `examples`, `tests`, `benches`).
    pub reserved_names: Vec<String>,
    /// Extensions of bundle directories that are never descended into
    /// (for instance `app` on platforms with bundle directories).
    pub bundle_extensions: Vec<String>,
}

/// The fatal condition: the supplied root is unusable, so the run stops
/// before any traversal begins.
#[derive(Clone, Copy, PartialEq, Eq, Debug)]
pub enum RootError {
    /// The root path does not exist.
    Missing,
    /// The root path exists but is not a directory.
    NotADirectory,
}

impl RunConfig {
    /// Builds the configuration from the resolved command-line values.
    pub fn new(
        root: String,
        release: bool,
        doc: bool,
        all: bool,
        exclude_reserved: bool,
        reserved_names: Vec<String>,
        bundle_extensions: Vec<String>,
    ) -> (cfg: RunConfig)
        ensures
            cfg.root == root,
            cfg.release == release,
            cfg.doc == doc,
            cfg.all == all,
            cfg.exclude_reserved == exclude_reserved,
            cfg.reserved_names == reserved_names,
            cfg.bundle_extensions == bundle_extensions,
    {
        RunConfig { root, release, doc, all, exclude_reserved, reserved_names, bundle_extensions }
    }
}

/// The directory names whose subtrees are skipped when the reserved
/// rule is on: the conventional homes of example, test and benchmark
/// sub-crates.
pub fn reserved_dir_names() -> (r: Vec<String>)
    ensures
        r.deep_view() == seq!["examples"@, "tests"@, "benches"@],
{
    let mut r: Vec<String> = Vec::new();
    r.push("examples".to_owned());
    r.push("tests".to_owned());
    r.push("benches".to_owned());
    proof {
        assert(r.deep_view() =~= seq!["examples"@, "tests"@, "benches"@]);
    }
    r
}

/// The bundle-directory extensions for a platform whose bundles are
/// plain directories; on other platforms the set stays empty.
pub fn bundle_dir_extensions() -> (r: Vec<String>)
    ensures
        r.deep_view() == seq!["app"@],
{
    let mut r: Vec<String> = Vec::new();
    r.push("app".to_owned());
    proof {
        assert(r.deep_view() =~= seq!["app"@]);
    }
    r
}

/// Decides the fatal case: the run may only proceed when the root path
/// exists and is a directory; otherwise it reports which of the two
/// conditions failed.
pub fn validate_root(exists: bool, is_dir: bool) -> (r: Result<(), RootError>)
    ensures
        r is Ok <==> exists && is_dir,
        !exists ==> r == Err::<(), RootError>(RootError::Missing),
        exists && !is_dir ==> r == Err::<(), RootError>(RootError::NotADirectory),
{
    if !exists {
        Err(RootError::Missing)
    } else if !is_dir {
        Err(RootError::NotADirectory)
    } else {
        Ok(())
    }
}

} // verus!
