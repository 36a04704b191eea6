//! The project selector: which children of a candidate directory
//! qualify as projects to clean.

use vstd::prelude::*;
use crate::config::RunConfig;
use crate::entry::{EntryMeta, contains_str, spec_hidden, string_in, is_hidden};

verus! {

/// One directory of the modelled tree: its entry metadata, what the
/// selector reads of its direct contents, and its child directories.
pub struct DirNode {
    /// The entry metadata of the directory itself.
    pub entry: EntryMeta,
    /// Whether the manifest file lies directly inside the directory.
    pub has_manifest: bool,
    /// Whether the build-output directory lies directly inside it.
    pub has_build_output: bool,
    /// The child directories, in listing order.
    pub children: Vec<DirNode>,
}

/// Whether one of the components of `comps` is a reserved name.
pub open spec fn spec_has_reserved(comps: Seq<Seq<char>>, reserved: Seq<Seq<char>>) -> bool {
    exists|i: int| 0 <= i < comps.len() && contains_str(reserved, comps[i])
}

/// The selection predicate: the child `c`, whose full path reads
/// `comps`, is a project to clean exactly when it is a directory, the
/// manifest file lies directly inside it, its own name is not hidden,
/// no component of its path is a reserved name (when that rule is
/// switched on), and the build-output directory is present — unless the
/// run selects every manifest-bearing directory.
pub open spec fn spec_is_project(c: DirNode, comps: Seq<Seq<char>>, cfg: RunConfig) -> bool {
    &&& c.entry.is_dir
    &&& c.has_manifest
    &&& !spec_hidden(c.entry.name@)
    &&& (cfg.exclude_reserved ==> !spec_has_reserved(comps, cfg.reserved_names.deep_view()))
    &&& (cfg.all || c.has_build_output)
}

/// Whether one of the components of `comps` is a reserved name.
pub fn has_reserved_component(comps: &Vec<String>, reserved: &Vec<String>) -> (r: bool)
    ensures
        r == spec_has_reserved(comps.deep_view(), reserved.deep_view()),
{
    let mut i: usize = 0;
    while i < comps.len()
        invariant
            i <= comps.len(),
            forall|j: int| 0 <= j < i
                ==> !contains_str(reserved.deep_view(), comps.deep_view()[j]),
        decreases comps.len() - i,
    {
        if string_in(reserved, &comps[i]) {
            assert(contains_str(reserved.deep_view(), comps.deep_view()[i as int]));
            return true;
        }
        i += 1;
    }
    false
}

/// Classifies the child `c`, whose full path is given by `comps`, as a
/// project to clean or not.
pub fn is_project(c: &DirNode, comps: &Vec<String>, cfg: &RunConfig) -> (r: bool)
    ensures
        r == spec_is_project(*c, comps.deep_view(), *cfg),
{
    if !c.entry.is_dir || !c.has_manifest || is_hidden(&c.entry) {
        return false;
    }
    if cfg.exclude_reserved && has_reserved_component(comps, &cfg.reserved_names) {
        return false;
    }
    cfg.all || c.has_build_output
}

/// A directory holding both the manifest file and the build-output
/// directory is selected in the default mode; without the build-output
/// directory it is not selected in the default mode but is selected
/// when the run covers every manifest-bearing directory.
pub proof fn lemma_build_output_rule(c: DirNode, comps: Seq<Seq<char>>, cfg: RunConfig)
    requires
        c.entry.is_dir,
        c.has_manifest,
        !spec_hidden(c.entry.name@),
        cfg.exclude_reserved ==> !spec_has_reserved(comps, cfg.reserved_names.deep_view()),
    ensures
        !cfg.all && c.has_build_output ==> spec_is_project(c, comps, cfg),
        !cfg.all && !c.has_build_output ==> !spec_is_project(c, comps, cfg),
        cfg.all ==> spec_is_project(c, comps, cfg),
{
}

/// A directory without the manifest file is never selected, whatever
/// else it contains and whatever the configuration says.
pub proof fn lemma_no_manifest_never_selected(c: DirNode, comps: Seq<Seq<char>>, cfg: RunConfig)
    requires
        !c.has_manifest,
    ensures
        !spec_is_project(c, comps, cfg),
{
}

/// A hidden directory is never selected as a project, whatever else it
/// contains and whatever the configuration says.
pub proof fn lemma_hidden_never_selected(c: DirNode, comps: Seq<Seq<char>>, cfg: RunConfig)
    requires
        spec_hidden(c.entry.name@),
    ensures
        !spec_is_project(c, comps, cfg),
{
}

/// Selection is deterministic in the directory state: once a project
/// has been cleaned and its build-output directory is gone, a second
/// run in the default mode does not select it again, so the second run
/// performs no work on it.
pub proof fn lemma_cleaned_not_reselected(c: DirNode, comps: Seq<Seq<char>>, cfg: RunConfig)
    requires
        !cfg.all,
        !c.has_build_output,
    ensures
        !spec_is_project(c, comps, cfg),
{
}

} // verus!
