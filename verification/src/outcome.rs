//! The clean action seen from the library: the argument list handed to
//! the external build tool, and the per-project outcome records.

use vstd::prelude::*;
use crate::config::RunConfig;

verus! {

/// The outcome of one clean attempt: the project's component path,
/// whether the external tool reported success, and the error message of
/// a failed attempt.
pub struct CleanResult {
    /// The component path of the project the attempt ran on.
    pub path: Vec<String>,
    /// Whether the attempt succeeded.
    pub ok: bool,
    /// The error message of a failed attempt, `None` on success.
    pub message: Option<String>,
}

impl View for CleanResult {
    type V = (Seq<Seq<char>>, bool, Option<Seq<char>>);

    open spec fn view(&self) -> (Seq<Seq<char>>, bool, Option<Seq<char>>) {
        (self.path.deep_view(), self.ok, self.message.deep_view())
    }
}

/// The arguments of the external tool's clean subcommand: the
/// subcommand name, then the release flag when the run asks for release
/// artifacts, then the doc flag when it asks for documentation
/// artifacts only.
pub open spec fn spec_clean_args(cfg: RunConfig) -> Seq<Seq<char>> {
    seq!["clean"@] + (if cfg.release {
        seq!["--release"@]
    } else {
        Seq::empty()
    }) + (if cfg.doc {
        seq!["--doc"@]
    } else {
        Seq::empty()
    })
}

/// Builds the argument list of the clean invocation for this run.
pub fn clean_args(cfg: &RunConfig) -> (r: Vec<String>)
    ensures
        r.deep_view() == spec_clean_args(*cfg),
{
    let mut r: Vec<String> = Vec::new();
    r.push("clean".to_owned());
    if cfg.release {
        r.push("--release".to_owned());
    }
    if cfg.doc {
        r.push("--doc".to_owned());
    }
    proof {
        assert(r.deep_view() =~= spec_clean_args(*cfg));
    }
    r
}

/// The outcome record of one attempt: a function of that project's path
/// and that attempt's result alone.
pub open spec fn spec_result(path: Seq<Seq<char>>, attempt: Option<Seq<char>>) -> (
    Seq<Seq<char>>,
    bool,
    Option<Seq<char>>,
) {
    (path, attempt is None, attempt)
}

/// The outcome records of a whole run, one per selected project, in
/// order.
pub open spec fn spec_results(
    targets: Seq<Seq<Seq<char>>>,
    attempts: Seq<Option<Seq<char>>>,
) -> Seq<(Seq<Seq<char>>, bool, Option<Seq<char>>)> {
    Seq::new(targets.len(), |i: int| spec_result(targets[i], attempts[i]))
}

/// Pairs every selected project with the result of its clean attempt
/// (`None` for success, the error message for a failure). Every project
/// gets a record, whatever happened to the others: a failed attempt
/// never swallows the rest of the run.
pub fn apply_outcomes(targets: &Vec<Vec<String>>, attempts: &Vec<Option<String>>) -> (r: Vec<
    CleanResult,
>)
    requires
        attempts.len() == targets.len(),
    ensures
        r@.map_values(|c: CleanResult| c@) == spec_results(
            targets.deep_view(),
            attempts.deep_view(),
        ),
{
    let mut r: Vec<CleanResult> = Vec::new();
    let mut i: usize = 0;
    while i < targets.len()
        invariant
            attempts.len() == targets.len(),
            i <= targets.len(),
            r@.len() == i,
            forall|k: int| 0 <= k < i ==> r@[k]@ == spec_result(
                targets.deep_view()[k],
                attempts.deep_view()[k],
            ),
        decreases targets.len() - i,
    {
        let attempt = attempts[i].clone();
        let ok = attempt.is_none();
        proof {
            if attempts@[i as int] is Some {
                assert(cloned::<String>(attempts@[i as int].unwrap(), attempt.unwrap()));
            }
            assert(attempt.deep_view() == attempts.deep_view()[i as int]);
        }
        r.push(CleanResult { path: crate::walk::clone_path(&targets[i]), ok, message: attempt });
        i += 1;
    }
    proof {
        assert(r@.map_values(|c: CleanResult| c@) =~= spec_results(
            targets.deep_view(),
            attempts.deep_view(),
        ));
    }
    r
}

/// Failure isolation: each project's record depends on its own attempt
/// alone, so changing one attempt's result — one project failing
/// instead of succeeding — leaves every other project's record exactly
/// as it was, and the run still records all of them.
pub proof fn lemma_failure_isolation(
    targets: Seq<Seq<Seq<char>>>,
    attempts1: Seq<Option<Seq<char>>>,
    attempts2: Seq<Option<Seq<char>>>,
    j: int,
)
    requires
        attempts1.len() == targets.len(),
        attempts2.len() == targets.len(),
        forall|i: int| 0 <= i < targets.len() && i != j ==> attempts1[i] == attempts2[i],
    ensures
        spec_results(targets, attempts1).len() == targets.len(),
        spec_results(targets, attempts2).len() == targets.len(),
        forall|i: int| 0 <= i < targets.len() && i != j ==> spec_results(targets, attempts1)[i]
            == spec_results(targets, attempts2)[i],
{
}

} // verus!
