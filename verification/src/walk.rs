//! The traversal filter and the selection pipeline over a modelled
//! directory tree: a depth-first walk that prunes per the entry
//! predicate, and for every surviving directory classifies its children
//! as projects to clean.

use vstd::prelude::*;
use crate::config::RunConfig;
use crate::entry::{spec_keep, spec_hidden, strategy};
use crate::select::{DirNode, spec_is_project, is_project};

verus! {

/// Clones a component path, keeping its contents.
pub fn clone_path(path: &Vec<String>) -> (r: Vec<String>)
    ensures
        r.deep_view() == path.deep_view(),
{
    let r = path.clone();
    proof {
        assert forall|i: int| 0 <= i < r@.len() implies r@[i]@ == path@[i]@ by {
            assert(cloned::<String>(path@[i], r@[i]));
        }
        assert(r.deep_view() =~= path.deep_view());
    }
    r
}

/// Extends a component path by one more component.
pub fn push_component(path: &Vec<String>, name: &String) -> (r: Vec<String>)
    ensures
        r.deep_view() == path.deep_view().push(name@),
{
    let mut r = clone_path(path);
    r.push(name.clone());
    proof {
        assert(r.deep_view() =~= path.deep_view().push(name@));
    }
    r
}

/// The component paths of the directories that the traversal filter
/// yields under `t`, in depth-first order, when the walk reaches `t`
/// from a directory whose path reads `parent`. A pruned directory
/// contributes nothing: it is neither yielded nor descended into.
pub open spec fn candidate_paths(t: DirNode, parent: Seq<Seq<char>>, cfg: RunConfig) -> Seq<
    Seq<Seq<char>>,
>
    decreases t,
{
    if spec_keep(t.entry, cfg) {
        seq![parent.push(t.entry.name@)]
            + candidate_paths_of(t.children@, parent.push(t.entry.name@), cfg)
    } else {
        Seq::empty()
    }
}

/// The candidate paths contributed by a run of sibling directories.
pub open spec fn candidate_paths_of(
    cs: Seq<DirNode>,
    parent: Seq<Seq<char>>,
    cfg: RunConfig,
) -> Seq<Seq<Seq<char>>>
    decreases cs,
{
    if cs.len() == 0 {
        Seq::empty()
    } else {
        candidate_paths(cs[0], parent, cfg) + candidate_paths_of(cs.drop_first(), parent, cfg)
    }
}

proof fn lemma_candidate_paths_of_add(
    a: Seq<DirNode>,
    b: Seq<DirNode>,
    parent: Seq<Seq<char>>,
    cfg: RunConfig,
)
    ensures
        candidate_paths_of(a + b, parent, cfg) == candidate_paths_of(a, parent, cfg)
            + candidate_paths_of(b, parent, cfg),
    decreases a.len(),
{
    if a.len() == 0 {
        assert(a + b =~= b);
        assert(candidate_paths_of(a, parent, cfg) + candidate_paths_of(b, parent, cfg)
            =~= candidate_paths_of(b, parent, cfg));
    } else {
        assert((a + b).len() > 0);
        assert((a + b)[0] == a[0]);
        assert((a + b).drop_first() =~= a.drop_first() + b);
        lemma_candidate_paths_of_add(a.drop_first(), b, parent, cfg);
        assert(candidate_paths(a[0], parent, cfg) + (candidate_paths_of(a.drop_first(), parent, cfg)
            + candidate_paths_of(b, parent, cfg)) =~= (candidate_paths(a[0], parent, cfg)
            + candidate_paths_of(a.drop_first(), parent, cfg)) + candidate_paths_of(b, parent, cfg));
    }
}

proof fn lemma_candidate_paths_of_one(c: DirNode, parent: Seq<Seq<char>>, cfg: RunConfig)
    ensures
        candidate_paths_of(seq![c], parent, cfg) == candidate_paths(c, parent, cfg),
{
    reveal_with_fuel(candidate_paths_of, 2);
    assert(seq![c].drop_first() =~= Seq::<DirNode>::empty());
    assert(candidate_paths_of(seq![c], parent, cfg) =~= candidate_paths(c, parent, cfg));
}

/// The traversal filter on the modelled tree: returns the component
/// paths of the directories that survive pruning under `t`, in
/// depth-first order, with `parent` the path of the directory the walk
/// reached `t` from.
pub fn collect_candidates(t: &DirNode, parent: &Vec<String>, cfg: &RunConfig) -> (r: Vec<
    Vec<String>,
>)
    ensures
        r.deep_view() == candidate_paths(*t, parent.deep_view(), *cfg),
    decreases *t,
{
    let mut out: Vec<Vec<String>> = Vec::new();
    if !strategy(&t.entry, cfg) {
        proof {
            assert(out.deep_view() =~= candidate_paths(*t, parent.deep_view(), *cfg));
        }
        return out;
    }
    let my_path = push_component(parent, &t.entry.name);
    let ghost mypv = my_path.deep_view();
    out.push(clone_path(&my_path));
    proof {
        assert(t.children@.subrange(0, 0) =~= Seq::<DirNode>::empty());
        assert(out.deep_view() =~= seq![mypv] + candidate_paths_of(
            t.children@.subrange(0, 0),
            mypv,
            *cfg,
        ));
    }
    let n = t.children.len();
    let mut i: usize = 0;
    while i < n
        invariant
            n == t.children.len(),
            i <= n,
            mypv == my_path.deep_view(),
            mypv == parent.deep_view().push(t.entry.name@),
            spec_keep(t.entry, *cfg),
            out.deep_view() == seq![mypv] + candidate_paths_of(
                t.children@.subrange(0, i as int),
                mypv,
                *cfg,
            ),
        decreases n - i,
    {
        let ghost pre = out.deep_view();
        let mut sub = collect_candidates(&t.children[i], &my_path, cfg);
        let ghost subv = sub.deep_view();
        out.append(&mut sub);
        proof {
            let cs = t.children@;
            assert(out.deep_view() =~= pre + subv);
            assert(cs.subrange(0, i + 1) =~= cs.subrange(0, i as int) + seq![cs[i as int]]);
            lemma_candidate_paths_of_add(cs.subrange(0, i as int), seq![cs[i as int]], mypv, *cfg);
            lemma_candidate_paths_of_one(cs[i as int], mypv, *cfg);
            assert(out.deep_view() =~= seq![mypv] + candidate_paths_of(
                cs.subrange(0, i + 1),
                mypv,
                *cfg,
            ));
        }
        i += 1;
    }
    proof {
        assert(t.children@.subrange(0, t.children.len() as int) =~= t.children@);
    }
    out
}

/// The component paths of the children of one candidate directory that
/// the selector picks as projects to clean, in listing order; `parent`
/// is the candidate's own path.
pub open spec fn selected_of(cs: Seq<DirNode>, parent: Seq<Seq<char>>, cfg: RunConfig) -> Seq<
    Seq<Seq<char>>,
>
    decreases cs.len(),
{
    if cs.len() == 0 {
        Seq::empty()
    } else {
        (if spec_is_project(cs[0], parent.push(cs[0].entry.name@), cfg) {
            seq![parent.push(cs[0].entry.name@)]
        } else {
            Seq::empty()
        }) + selected_of(cs.drop_first(), parent, cfg)
    }
}

/// The component paths of every project the whole run cleans under `t`:
/// for each directory the traversal filter yields, the projects its
/// selector picks among the children, candidates in depth-first order
/// and, within one candidate, children in listing order.
pub open spec fn target_paths(t: DirNode, parent: Seq<Seq<char>>, cfg: RunConfig) -> Seq<
    Seq<Seq<char>>,
>
    decreases t,
{
    if spec_keep(t.entry, cfg) {
        selected_of(t.children@, parent.push(t.entry.name@), cfg)
            + target_paths_of(t.children@, parent.push(t.entry.name@), cfg)
    } else {
        Seq::empty()
    }
}

/// The target paths contributed by the subtrees of a run of sibling
/// directories.
pub open spec fn target_paths_of(
    cs: Seq<DirNode>,
    parent: Seq<Seq<char>>,
    cfg: RunConfig,
) -> Seq<Seq<Seq<char>>>
    decreases cs,
{
    if cs.len() == 0 {
        Seq::empty()
    } else {
        target_paths(cs[0], parent, cfg) + target_paths_of(cs.drop_first(), parent, cfg)
    }
}

proof fn lemma_selected_of_add(
    a: Seq<DirNode>,
    b: Seq<DirNode>,
    parent: Seq<Seq<char>>,
    cfg: RunConfig,
)
    ensures
        selected_of(a + b, parent, cfg) == selected_of(a, parent, cfg)
            + selected_of(b, parent, cfg),
    decreases a.len(),
{
    if a.len() == 0 {
        assert(a + b =~= b);
        assert(selected_of(a, parent, cfg) + selected_of(b, parent, cfg)
            =~= selected_of(b, parent, cfg));
    } else {
        assert((a + b)[0] == a[0]);
        assert((a + b).drop_first() =~= a.drop_first() + b);
        lemma_selected_of_add(a.drop_first(), b, parent, cfg);
        let head = if spec_is_project(a[0], parent.push(a[0].entry.name@), cfg) {
            seq![parent.push(a[0].entry.name@)]
        } else {
            Seq::empty()
        };
        assert(head + (selected_of(a.drop_first(), parent, cfg) + selected_of(b, parent, cfg))
            =~= (head + selected_of(a.drop_first(), parent, cfg)) + selected_of(b, parent, cfg));
    }
}

proof fn lemma_selected_of_one(c: DirNode, parent: Seq<Seq<char>>, cfg: RunConfig)
    ensures
        selected_of(seq![c], parent, cfg) == (if spec_is_project(
            c,
            parent.push(c.entry.name@),
            cfg,
        ) {
            seq![parent.push(c.entry.name@)]
        } else {
            Seq::<Seq<Seq<char>>>::empty()
        }),
{
    reveal_with_fuel(selected_of, 2);
    assert(seq![c].drop_first() =~= Seq::<DirNode>::empty());
    if spec_is_project(c, parent.push(c.entry.name@), cfg) {
        assert(selected_of(seq![c], parent, cfg) =~= seq![parent.push(c.entry.name@)]);
    } else {
        assert(selected_of(seq![c], parent, cfg) =~= Seq::<Seq<Seq<char>>>::empty());
    }
}

proof fn lemma_target_paths_of_add(
    a: Seq<DirNode>,
    b: Seq<DirNode>,
    parent: Seq<Seq<char>>,
    cfg: RunConfig,
)
    ensures
        target_paths_of(a + b, parent, cfg) == target_paths_of(a, parent, cfg)
            + target_paths_of(b, parent, cfg),
    decreases a.len(),
{
    if a.len() == 0 {
        assert(a + b =~= b);
        assert(target_paths_of(a, parent, cfg) + target_paths_of(b, parent, cfg)
            =~= target_paths_of(b, parent, cfg));
    } else {
        assert((a + b)[0] == a[0]);
        assert((a + b).drop_first() =~= a.drop_first() + b);
        lemma_target_paths_of_add(a.drop_first(), b, parent, cfg);
        assert(target_paths(a[0], parent, cfg) + (target_paths_of(a.drop_first(), parent, cfg)
            + target_paths_of(b, parent, cfg)) =~= (target_paths(a[0], parent, cfg)
            + target_paths_of(a.drop_first(), parent, cfg)) + target_paths_of(b, parent, cfg));
    }
}

proof fn lemma_target_paths_of_one(c: DirNode, parent: Seq<Seq<char>>, cfg: RunConfig)
    ensures
        target_paths_of(seq![c], parent, cfg) == target_paths(c, parent, cfg),
{
    reveal_with_fuel(target_paths_of, 2);
    assert(seq![c].drop_first() =~= Seq::<DirNode>::empty());
    assert(target_paths_of(seq![c], parent, cfg) =~= target_paths(c, parent, cfg));
}

/// The whole run on the modelled tree: walks the tree with the pruning
/// predicate and returns the component paths of every project the
/// selector picks, in the order the run would clean them. `parent` is
/// the path of the directory the root was reached from.
pub fn clean_targets(t: &DirNode, parent: &Vec<String>, cfg: &RunConfig) -> (r: Vec<Vec<String>>)
    ensures
        r.deep_view() == target_paths(*t, parent.deep_view(), *cfg),
    decreases *t,
{
    let mut out: Vec<Vec<String>> = Vec::new();
    if !strategy(&t.entry, cfg) {
        proof {
            assert(out.deep_view() =~= target_paths(*t, parent.deep_view(), *cfg));
        }
        return out;
    }
    let my_path = push_component(parent, &t.entry.name);
    let ghost mypv = my_path.deep_view();
    let n = t.children.len();
    proof {
        assert(t.children@.subrange(0, 0) =~= Seq::<DirNode>::empty());
        assert(out.deep_view() =~= selected_of(t.children@.subrange(0, 0), mypv, *cfg));
    }
    let mut i: usize = 0;
    while i < n
        invariant
            n == t.children.len(),
            i <= n,
            mypv == my_path.deep_view(),
            mypv == parent.deep_view().push(t.entry.name@),
            spec_keep(t.entry, *cfg),
            out.deep_view() == selected_of(t.children@.subrange(0, i as int), mypv, *cfg),
        decreases n - i,
    {
        let ghost pre = out.deep_view();
        let child_path = push_component(&my_path, &t.children[i].entry.name);
        if is_project(&t.children[i], &child_path, cfg) {
            out.push(child_path);
        }
        proof {
            let cs = t.children@;
            assert(cs.subrange(0, i + 1) =~= cs.subrange(0, i as int) + seq![cs[i as int]]);
            lemma_selected_of_add(cs.subrange(0, i as int), seq![cs[i as int]], mypv, *cfg);
            lemma_selected_of_one(cs[i as int], mypv, *cfg);
            assert(out.deep_view() =~= selected_of(cs.subrange(0, i + 1), mypv, *cfg));
        }
        i += 1;
    }
    proof {
        assert(t.children@.subrange(0, t.children.len() as int) =~= t.children@);
        assert(t.children@.subrange(0, 0) =~= Seq::<DirNode>::empty());
    }
    let ghost sel = out.deep_view();
    let mut j: usize = 0;
    while j < n
        invariant
            n == t.children.len(),
            j <= n,
            mypv == my_path.deep_view(),
            mypv == parent.deep_view().push(t.entry.name@),
            spec_keep(t.entry, *cfg),
            sel == selected_of(t.children@, mypv, *cfg),
            out.deep_view() == sel + target_paths_of(t.children@.subrange(0, j as int), mypv, *cfg),
        decreases n - j,
    {
        let ghost pre = out.deep_view();
        let mut sub = clean_targets(&t.children[j], &my_path, cfg);
        let ghost subv = sub.deep_view();
        out.append(&mut sub);
        proof {
            let cs = t.children@;
            assert(out.deep_view() =~= pre + subv);
            assert(cs.subrange(0, j + 1) =~= cs.subrange(0, j as int) + seq![cs[j as int]]);
            lemma_target_paths_of_add(cs.subrange(0, j as int), seq![cs[j as int]], mypv, *cfg);
            lemma_target_paths_of_one(cs[j as int], mypv, *cfg);
            assert(out.deep_view() =~= sel + target_paths_of(cs.subrange(0, j + 1), mypv, *cfg));
        }
        j += 1;
    }
    proof {
        assert(t.children@.subrange(0, t.children.len() as int) =~= t.children@);
    }
    out
}

/// A hidden directory is never descended into: the walk prunes it, so
/// its whole subtree yields no candidate and no project.
pub proof fn lemma_hidden_not_descended(t: DirNode, parent: Seq<Seq<char>>, cfg: RunConfig)
    requires
        spec_hidden(t.entry.name@),
    ensures
        candidate_paths(t, parent, cfg) == Seq::<Seq<Seq<char>>>::empty(),
        target_paths(t, parent, cfg) == Seq::<Seq<Seq<char>>>::empty(),
{
    assert(!spec_keep(t.entry, cfg));
}

/// A directory reached through a symbolic link is never descended
/// into: the walk prunes it, so its whole subtree yields no candidate
/// and no project, and a cycle of links cannot keep the walk going.
pub proof fn lemma_symlink_not_descended(t: DirNode, parent: Seq<Seq<char>>, cfg: RunConfig)
    requires
        t.entry.is_symlink,
    ensures
        candidate_paths(t, parent, cfg) == Seq::<Seq<Seq<char>>>::empty(),
        target_paths(t, parent, cfg) == Seq::<Seq<Seq<char>>>::empty(),
{
    assert(!spec_keep(t.entry, cfg));
}

/// `p` extends `parent` by at least one component and none of the
/// added components is hidden.
pub open spec fn unhidden_extension(p: Seq<Seq<char>>, parent: Seq<Seq<char>>) -> bool {
    &&& p.len() > parent.len()
    &&& p.subrange(0, parent.len() as int) == parent
    &&& forall|c: int| parent.len() <= c < p.len() ==> !spec_hidden(p[c])
}

proof fn lemma_unhidden_extension_trans(
    p: Seq<Seq<char>>,
    mid: Seq<Seq<char>>,
    parent: Seq<Seq<char>>,
)
    requires
        unhidden_extension(p, mid),
        unhidden_extension(mid, parent),
    ensures
        unhidden_extension(p, parent),
{
    assert forall|c: int| 0 <= c < mid.len() implies p[c] == mid[c] by {
        assert(p.subrange(0, mid.len() as int)[c] == p[c]);
    }
    assert(p.subrange(0, parent.len() as int) =~= parent);
}

proof fn lemma_selected_of_unhidden(cs: Seq<DirNode>, parent: Seq<Seq<char>>, cfg: RunConfig)
    ensures
        forall|k: int| 0 <= k < selected_of(cs, parent, cfg).len()
            ==> unhidden_extension(selected_of(cs, parent, cfg)[k], parent),
    decreases cs.len(),
{
    if cs.len() > 0 {
        lemma_selected_of_unhidden(cs.drop_first(), parent, cfg);
        let head = if spec_is_project(cs[0], parent.push(cs[0].entry.name@), cfg) {
            seq![parent.push(cs[0].entry.name@)]
        } else {
            Seq::<Seq<Seq<char>>>::empty()
        };
        assert forall|k: int| 0 <= k < selected_of(cs, parent, cfg).len() implies
            unhidden_extension(selected_of(cs, parent, cfg)[k], parent) by {
            if k < head.len() {
                let p = parent.push(cs[0].entry.name@);
                assert(selected_of(cs, parent, cfg)[k] == p);
                assert(p.subrange(0, parent.len() as int) =~= parent);
            } else {
                assert(selected_of(cs, parent, cfg)[k] == selected_of(
                    cs.drop_first(),
                    parent,
                    cfg,
                )[k - head.len()]);
            }
        }
    }
}

/// No hidden directory is ever selected: every project path the run
/// would clean strictly extends the path the walk started from, and
/// none of the components the walk added — the directories it
/// descended through and the selected project's own name — is hidden.
pub proof fn lemma_no_hidden_selected(t: DirNode, parent: Seq<Seq<char>>, cfg: RunConfig)
    ensures
        forall|k: int| 0 <= k < target_paths(t, parent, cfg).len()
            ==> unhidden_extension(target_paths(t, parent, cfg)[k], parent),
    decreases t,
{
    if spec_keep(t.entry, cfg) {
        let p = parent.push(t.entry.name@);
        assert(p.subrange(0, parent.len() as int) =~= parent);
        assert(unhidden_extension(p, parent));
        lemma_selected_of_unhidden(t.children@, p, cfg);
        lemma_no_hidden_selected_of(t.children@, p, cfg);
        let sel = selected_of(t.children@, p, cfg);
        let rest = target_paths_of(t.children@, p, cfg);
        assert forall|k: int| 0 <= k < target_paths(t, parent, cfg).len() implies
            unhidden_extension(target_paths(t, parent, cfg)[k], parent) by {
            if k < sel.len() {
                assert(target_paths(t, parent, cfg)[k] == sel[k]);
                lemma_unhidden_extension_trans(sel[k], p, parent);
            } else {
                assert(target_paths(t, parent, cfg)[k] == rest[k - sel.len()]);
                lemma_unhidden_extension_trans(rest[k - sel.len()], p, parent);
            }
        }
    }
}

proof fn lemma_no_hidden_selected_of(cs: Seq<DirNode>, parent: Seq<Seq<char>>, cfg: RunConfig)
    ensures
        forall|k: int| 0 <= k < target_paths_of(cs, parent, cfg).len()
            ==> unhidden_extension(target_paths_of(cs, parent, cfg)[k], parent),
    decreases cs,
{
    if cs.len() > 0 {
        lemma_no_hidden_selected(cs[0], parent, cfg);
        lemma_no_hidden_selected_of(cs.drop_first(), parent, cfg);
        let head = target_paths(cs[0], parent, cfg);
        let rest = target_paths_of(cs.drop_first(), parent, cfg);
        assert forall|k: int| 0 <= k < target_paths_of(cs, parent, cfg).len() implies
            unhidden_extension(target_paths_of(cs, parent, cfg)[k], parent) by {
            if k < head.len() {
                assert(target_paths_of(cs, parent, cfg)[k] == head[k]);
            } else {
                assert(target_paths_of(cs, parent, cfg)[k] == rest[k - head.len()]);
            }
        }
    }
}

/// Every path the traversal filter yields strictly extends the path
/// the walk started from, and none of the components the walk added is
/// hidden: the walk never reaches a hidden directory, nor anything
/// beneath one.
pub proof fn lemma_candidates_not_hidden(t: DirNode, parent: Seq<Seq<char>>, cfg: RunConfig)
    ensures
        forall|k: int| 0 <= k < candidate_paths(t, parent, cfg).len()
            ==> unhidden_extension(candidate_paths(t, parent, cfg)[k], parent),
    decreases t,
{
    if spec_keep(t.entry, cfg) {
        let p = parent.push(t.entry.name@);
        assert(p.subrange(0, parent.len() as int) =~= parent);
        assert(unhidden_extension(p, parent));
        lemma_candidates_not_hidden_of(t.children@, p, cfg);
        let rest = candidate_paths_of(t.children@, p, cfg);
        assert forall|k: int| 0 <= k < candidate_paths(t, parent, cfg).len() implies
            unhidden_extension(candidate_paths(t, parent, cfg)[k], parent) by {
            if k == 0 {
                assert(candidate_paths(t, parent, cfg)[0] == p);
            } else {
                assert(candidate_paths(t, parent, cfg)[k] == rest[k - 1]);
                lemma_unhidden_extension_trans(rest[k - 1], p, parent);
            }
        }
    }
}

/// Whether every directory of the subtree is without its build-output
/// directory — the state a tree is in right after a run cleaned it.
pub open spec fn all_cleaned(t: DirNode) -> bool
    decreases t,
{
    !t.has_build_output && all_cleaned_of(t.children@)
}

/// Whether every directory under a run of siblings is cleaned.
pub open spec fn all_cleaned_of(cs: Seq<DirNode>) -> bool
    decreases cs,
{
    cs.len() == 0 || (all_cleaned(cs[0]) && all_cleaned_of(cs.drop_first()))
}

proof fn lemma_selected_of_cleaned(cs: Seq<DirNode>, parent: Seq<Seq<char>>, cfg: RunConfig)
    requires
        !cfg.all,
        all_cleaned_of(cs),
    ensures
        selected_of(cs, parent, cfg) == Seq::<Seq<Seq<char>>>::empty(),
    decreases cs.len(),
{
    if cs.len() > 0 {
        lemma_selected_of_cleaned(cs.drop_first(), parent, cfg);
        assert(all_cleaned(cs[0]));
        assert(!cs[0].has_build_output);
        assert(!spec_is_project(cs[0], parent.push(cs[0].entry.name@), cfg));
        assert(selected_of(cs, parent, cfg) =~= Seq::<Seq<Seq<char>>>::empty());
    }
}

/// Running the run again on a tree it has already cleaned is a no-op:
/// in the default mode no build-output directory remains, so the
/// selector picks nothing anywhere in the tree. Together with the full
/// contract of `clean_targets` — whose result is a function of the
/// tree and the configuration alone — this makes a repeated run on the
/// same state deterministic and workless.
pub proof fn lemma_cleaned_tree_selects_nothing(
    t: DirNode,
    parent: Seq<Seq<char>>,
    cfg: RunConfig,
)
    requires
        !cfg.all,
        all_cleaned(t),
    ensures
        target_paths(t, parent, cfg) == Seq::<Seq<Seq<char>>>::empty(),
    decreases t,
{
    if spec_keep(t.entry, cfg) {
        let p = parent.push(t.entry.name@);
        lemma_selected_of_cleaned(t.children@, p, cfg);
        lemma_cleaned_subtrees_select_nothing(t.children@, p, cfg);
        assert(target_paths(t, parent, cfg) =~= Seq::<Seq<Seq<char>>>::empty());
    }
}

proof fn lemma_cleaned_subtrees_select_nothing(
    cs: Seq<DirNode>,
    parent: Seq<Seq<char>>,
    cfg: RunConfig,
)
    requires
        !cfg.all,
        all_cleaned_of(cs),
    ensures
        target_paths_of(cs, parent, cfg) == Seq::<Seq<Seq<char>>>::empty(),
    decreases cs,
{
    if cs.len() > 0 {
        lemma_cleaned_tree_selects_nothing(cs[0], parent, cfg);
        lemma_cleaned_subtrees_select_nothing(cs.drop_first(), parent, cfg);
        assert(target_paths_of(cs, parent, cfg) =~= Seq::<Seq<Seq<char>>>::empty());
    }
}

proof fn lemma_candidates_not_hidden_of(cs: Seq<DirNode>, parent: Seq<Seq<char>>, cfg: RunConfig)
    ensures
        forall|k: int| 0 <= k < candidate_paths_of(cs, parent, cfg).len()
            ==> unhidden_extension(candidate_paths_of(cs, parent, cfg)[k], parent),
    decreases cs,
{
    if cs.len() > 0 {
        lemma_candidates_not_hidden(cs[0], parent, cfg);
        lemma_candidates_not_hidden_of(cs.drop_first(), parent, cfg);
        let head = candidate_paths(cs[0], parent, cfg);
        let rest = candidate_paths_of(cs.drop_first(), parent, cfg);
        assert forall|k: int| 0 <= k < candidate_paths_of(cs, parent, cfg).len() implies
            unhidden_extension(candidate_paths_of(cs, parent, cfg)[k], parent) by {
            if k < head.len() {
                assert(candidate_paths_of(cs, parent, cfg)[k] == head[k]);
            } else {
                assert(candidate_paths_of(cs, parent, cfg)[k] == rest[k - head.len()]);
            }
        }
    }
}

} // verus!
