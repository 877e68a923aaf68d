//! Lifecycle decisions and build plans. The embedding binary lists the
//! runtime's labelled artifacts, hands them here as plain values, and
//! performs exactly the actions these functions decide: every illegal
//! transition of the per-problem state machine is rejected here, never
//! silently coerced.

use vstd::prelude::*;
use vstd::string::*;

use crate::docker::{
    spec_container_from_prob_exists, spec_container_from_prob_running, spec_container_of_prob,
    spec_image_from_prob_exists, spec_image_from_repo_exists, spec_stoppable_state, SomaContainer,
    SomaImage,
};
use crate::error::SomaError;
use crate::manifest::{SolidBinaryConfig, SolidFileEntry};
use crate::name::NameString;
use crate::path::{is_absolute_path, join_path, spec_file_name, spec_join, file_name, strip_root};
use crate::problem::Problem;
use crate::repository::ProblemIndexEntry;
use crate::strutil::{decimal_digits, str_eq, u64_to_decimal};

verus! {

/// The in-container port a problem's service listens on; a run binds it to
/// the caller-supplied host port.
pub const CONTAINER_PORT: &'static str = "1337/tcp";

/// Whether a run of the problem must be refused: exactly when a running
/// container for it already exists.
pub open spec fn spec_run_refused(cs: Seq<SomaContainer>, repo: Seq<char>, prob: Seq<char>) -> bool {
    spec_container_from_prob_running(cs, repo, prob)
}

/// Whether a stop of the problem must be refused: exactly when no container
/// for it exists at all.
pub open spec fn spec_stop_refused(cs: Seq<SomaContainer>, repo: Seq<char>, prob: Seq<char>) -> bool {
    !spec_container_from_prob_exists(cs, repo, prob)
}

/// Whether a clean of the problem must be refused: exactly when any
/// container for it — running or not — still exists.
pub open spec fn spec_clean_refused(cs: Seq<SomaContainer>, repo: Seq<char>, prob: Seq<char>) -> bool {
    spec_container_from_prob_exists(cs, repo, prob)
}

/// Consistency of the state machine's guards on one observed container
/// list: a problem refused for `run` (a running container exists) is also
/// refused for `clean` — `stop` must intervene; and a problem refused for
/// `stop` (no container at all) is never refused for `run`.
pub proof fn lemma_lifecycle_guards(cs: Seq<SomaContainer>, repo: Seq<char>, prob: Seq<char>)
    ensures
        spec_run_refused(cs, repo, prob) ==> spec_clean_refused(cs, repo, prob),
        spec_stop_refused(cs, repo, prob) ==> !spec_run_refused(cs, repo, prob),
{
    if spec_container_from_prob_running(cs, repo, prob) {
        let i = choose|i: int|
            0 <= i < cs.len() && spec_container_of_prob(#[trigger] cs[i], repo, prob)
                && cs[i].state@ == "running"@;
        assert(spec_container_of_prob(cs[i], repo, prob));
    }
}

/// Refuses to run a problem that already has a running container.
pub fn run_precheck(containers: &Vec<SomaContainer>, problem: &Problem) -> (r: Result<
    (),
    SomaError,
>)
    ensures
        match r {
            Ok(()) => !spec_run_refused(containers@, problem.repo_name@, problem.prob_name@),
            Err(e) => e == SomaError::ProblemAlreadyRunning && spec_run_refused(
                containers@,
                problem.repo_name@,
                problem.prob_name@,
            ),
        },
{
    if crate::docker::container_from_prob_running(containers, problem) {
        Err(SomaError::ProblemAlreadyRunning)
    } else {
        Ok(())
    }
}

/// What a stop operation must do: issue a stop for every container of the
/// problem in a stoppable state, then remove every container of the problem
/// unconditionally — which also cleans up dead containers left by prior
/// runs.
pub struct StopPlan {
    /// Ids to issue a stop for, in listing order.
    pub to_stop: Vec<String>,
    /// Ids to remove afterwards, in listing order.
    pub to_remove: Vec<String>,
}

/// The ids of the problem's containers in stoppable states, in order.
pub open spec fn spec_stop_ids(cs: Seq<SomaContainer>, repo: Seq<char>, prob: Seq<char>) -> Seq<
    Seq<char>,
>
    decreases cs.len(),
{
    if cs.len() == 0 {
        Seq::empty()
    } else {
        let rest = spec_stop_ids(cs.drop_last(), repo, prob);
        if spec_container_of_prob(cs.last(), repo, prob) && spec_stoppable_state(cs.last().state@) {
            rest.push(cs.last().container_id@)
        } else {
            rest
        }
    }
}

/// The ids of all the problem's containers, in order.
pub open spec fn spec_remove_ids(cs: Seq<SomaContainer>, repo: Seq<char>, prob: Seq<char>) -> Seq<
    Seq<char>,
>
    decreases cs.len(),
{
    if cs.len() == 0 {
        Seq::empty()
    } else {
        let rest = spec_remove_ids(cs.drop_last(), repo, prob);
        if spec_container_of_prob(cs.last(), repo, prob) {
            rest.push(cs.last().container_id@)
        } else {
            rest
        }
    }
}

/// Decides a stop: refused with `ProblemNotRunning` exactly when no
/// container for the problem exists; otherwise the plan stops every
/// container of the problem in a stoppable state and removes every container
/// of the problem.
pub fn stop_plan(containers: &Vec<SomaContainer>, problem: &Problem) -> (r: Result<
    StopPlan,
    SomaError,
>)
    ensures
        match r {
            Ok(plan) => {
                &&& !spec_stop_refused(containers@, problem.repo_name@, problem.prob_name@)
                &&& plan.to_stop.deep_view() == spec_stop_ids(
                    containers@,
                    problem.repo_name@,
                    problem.prob_name@,
                )
                &&& plan.to_remove.deep_view() == spec_remove_ids(
                    containers@,
                    problem.repo_name@,
                    problem.prob_name@,
                )
            },
            Err(e) => e == SomaError::ProblemNotRunning && spec_stop_refused(
                containers@,
                problem.repo_name@,
                problem.prob_name@,
            ),
        },
{
    if !crate::docker::container_from_prob_exists(containers, problem) {
        return Err(SomaError::ProblemNotRunning);
    }
    let ghost repo = problem.repo_name@;
    let ghost prob = problem.prob_name@;
    let n = containers.len();
    let mut to_stop: Vec<String> = Vec::new();
    let mut to_remove: Vec<String> = Vec::new();
    let mut i: usize = 0;
    while i < n
        invariant
            0 <= i <= n,
            n == containers@.len(),
            to_stop.deep_view() == spec_stop_ids(containers@.subrange(0, i as int), repo, prob),
            to_remove.deep_view() == spec_remove_ids(containers@.subrange(0, i as int), repo, prob),
            repo == problem.repo_name@,
            prob == problem.prob_name@,
        decreases n - i,
    {
        proof {
            let sub1 = containers@.subrange(0, i + 1);
            assert(sub1.drop_last() =~= containers@.subrange(0, i as int));
            assert(sub1.last() == containers@[i as int]);
        }
        let c = &containers[i];
        let of_prob = str_eq(c.repo_name.as_str(), problem.repo_name.as_str()) && str_eq(
            c.prob_name.as_str(),
            problem.prob_name.as_str(),
        );
        if of_prob {
            let stoppable = str_eq(c.state.as_str(), "paused") || str_eq(
                c.state.as_str(),
                "restarting",
            ) || str_eq(c.state.as_str(), "running");
            if stoppable {
                to_stop.push(c.container_id.clone());
            }
            to_remove.push(c.container_id.clone());
            proof {
                assert(to_stop.deep_view() =~= spec_stop_ids(
                    containers@.subrange(0, i + 1),
                    repo,
                    prob,
                ));
                assert(to_remove.deep_view() =~= spec_remove_ids(
                    containers@.subrange(0, i + 1),
                    repo,
                    prob,
                ));
            }
        }
        i += 1;
    }
    proof {
        assert(containers@.subrange(0, n as int) =~= containers@);
    }
    Ok(StopPlan { to_stop, to_remove })
}

/// Refuses to clean a problem while any container for it still exists.
pub fn clean_precheck(containers: &Vec<SomaContainer>, problem: &Problem) -> (r: Result<
    (),
    SomaError,
>)
    ensures
        match r {
            Ok(()) => !spec_clean_refused(containers@, problem.repo_name@, problem.prob_name@),
            Err(e) => e == SomaError::RepositoryInUse && spec_clean_refused(
                containers@,
                problem.repo_name@,
                problem.prob_name@,
            ),
        },
{
    if crate::docker::container_from_prob_exists(containers, problem) {
        Err(SomaError::RepositoryInUse)
    } else {
        Ok(())
    }
}

/// Refuses to unregister a repository while any image of it still exists.
pub fn remove_precheck(images: &Vec<SomaImage>, repo_name: &str) -> (r: Result<(), SomaError>)
    ensures
        match r {
            Ok(()) => !spec_image_from_repo_exists(images@, repo_name@),
            Err(e) => e == SomaError::RepositoryInUse && spec_image_from_repo_exists(
                images@,
                repo_name@,
            ),
        },
{
    if crate::docker::image_from_repo_exists(images, repo_name) {
        Err(SomaError::RepositoryInUse)
    } else {
        Ok(())
    }
}

/// One copy a build or fetch must perform.
pub struct CopyInstruction {
    /// Where to copy from.
    pub source: String,
    /// Where to copy to.
    pub destination: String,
}

/// The copy a solid entry asks for: its source below the problem directory,
/// its target re-rooted (root separator stripped) below the image root.
pub open spec fn spec_copy_of_entry(
    e: SolidFileEntry,
    problem_dir: Seq<char>,
    image_root: Seq<char>,
) -> (Seq<char>, Seq<char>) {
    (
        spec_join(problem_dir, e.path@),
        spec_join(image_root, e.target_path@.subrange(1, e.target_path@.len() as int)),
    )
}

/// The copies that materialize a build context from a solidified
/// configuration: every solid entry's source is copied from the problem
/// directory to its target path re-rooted below the image root.
pub fn copy_instructions(problem_dir: &str, image_root: &str, binary: &SolidBinaryConfig) -> (r:
    Vec<CopyInstruction>)
    requires
        forall|i: int|
            0 <= i < binary.file_entries@.len() ==> is_absolute_path(
                (#[trigger] binary.file_entries@[i]).target_path@,
            ),
    ensures
        r@.len() == binary.file_entries@.len(),
        forall|i: int|
            0 <= i < r@.len() ==> {
                let c = spec_copy_of_entry(
                    binary.file_entries@[i],
                    problem_dir@,
                    image_root@,
                );
                (#[trigger] r@[i]).source@ == c.0 && r@[i].destination@ == c.1
            },
{
    let mut out: Vec<CopyInstruction> = Vec::new();
    let n = binary.file_entries.len();
    let mut i: usize = 0;
    while i < n
        invariant
            0 <= i <= n,
            n == binary.file_entries@.len(),
            forall|j: int|
                0 <= j < n ==> is_absolute_path(
                    (#[trigger] binary.file_entries@[j]).target_path@,
                ),
            out@.len() == i,
            forall|j: int|
                0 <= j < i ==> {
                    let c = spec_copy_of_entry(
                        binary.file_entries@[j],
                        problem_dir@,
                        image_root@,
                    );
                    (#[trigger] out@[j]).source@ == c.0 && out@[j].destination@ == c.1
                },
        decreases n - i,
    {
        let e = &binary.file_entries[i];
        let source = join_path(problem_dir, e.path.as_str());
        let rerooted = strip_root(e.target_path.as_str());
        let destination = join_path(image_root, rerooted.as_str());
        out.push(CopyInstruction { source, destination });
        i += 1;
    }
    out
}

/// The copies a fetch must perform: each public path, resolved below the
/// problem directory, lands under its own base name in the working
/// directory. A public path with no base name fails with `FileNameNotFound`.
pub fn fetch_plan(problem_dir: &str, cwd: &str, public_paths: &Vec<String>) -> (r: Result<
    Vec<CopyInstruction>,
    SomaError,
>)
    ensures
        match r {
            Ok(plan) => {
                &&& plan@.len() == public_paths@.len()
                &&& forall|i: int|
                    0 <= i < public_paths@.len() ==> spec_file_name(
                        (#[trigger] public_paths@[i])@,
                    ) is Some
                &&& forall|i: int|
                    0 <= i < plan@.len() ==> (#[trigger] plan@[i]).source@ == spec_join(
                        problem_dir@,
                        public_paths@[i]@,
                    ) && plan@[i].destination@ == spec_join(
                        cwd@,
                        spec_file_name(public_paths@[i]@)->Some_0,
                    )
            },
            Err(e) => e == SomaError::FileNameNotFound && exists|i: int|
                0 <= i < public_paths@.len() && spec_file_name(
                    (#[trigger] public_paths@[i])@,
                ) is None,
        },
{
    let mut out: Vec<CopyInstruction> = Vec::new();
    let n = public_paths.len();
    let mut i: usize = 0;
    while i < n
        invariant
            0 <= i <= n,
            n == public_paths@.len(),
            out@.len() == i,
            forall|j: int|
                0 <= j < i ==> spec_file_name((#[trigger] public_paths@[j])@) is Some,
            forall|j: int|
                0 <= j < i ==> (#[trigger] out@[j]).source@ == spec_join(
                    problem_dir@,
                    public_paths@[j]@,
                ) && out@[j].destination@ == spec_join(
                    cwd@,
                    spec_file_name(public_paths@[j]@)->Some_0,
                ),
        decreases n - i,
    {
        let p = &public_paths[i];
        let base = match file_name(p.as_str()) {
            Some(b) => b,
            None => {
                return Err(SomaError::FileNameNotFound);
            },
        };
        let source = join_path(problem_dir, p.as_str());
        let destination = join_path(cwd, base.as_str());
        out.push(CopyInstruction { source, destination });
        i += 1;
    }
    Ok(out)
}

/// The host port rendered for the runtime's port binding.
pub fn host_port_string(port: u32) -> (r: String)
    ensures
        r@ == decimal_digits(port as nat),
{
    u64_to_decimal(port as u64)
}

/// Whether a problem name survives a re-scan.
pub open spec fn spec_name_in_list(new_list: Seq<ProblemIndexEntry>, name: Seq<char>) -> bool {
    exists|j: int| 0 <= j < new_list.len() && (#[trigger] new_list[j]).name@ == name
}

/// Whether an update must be refused: some problem disappeared from the
/// re-scanned list while an image built for it still exists.
pub open spec fn spec_update_refused(
    old_names: Seq<NameString>,
    new_list: Seq<ProblemIndexEntry>,
    images: Seq<SomaImage>,
    repo: Seq<char>,
) -> bool {
    exists|i: int|
        0 <= i < old_names.len() && !spec_name_in_list(new_list, (#[trigger] old_names[i])@)
            && spec_image_from_prob_exists(images, repo, old_names[i]@)
}

/// Decides an update of a repository's cached problem list: refused with
/// `UnsupportedUpdate` exactly when a problem that the re-scan no longer
/// finds still has an image — the operator must clean it first.
pub fn update_precheck(
    old_names: &Vec<NameString>,
    new_list: &Vec<ProblemIndexEntry>,
    images: &Vec<SomaImage>,
    repo_name: &NameString,
) -> (r: Result<(), SomaError>)
    ensures
        match r {
            Ok(()) => !spec_update_refused(old_names@, new_list@, images@, repo_name@),
            Err(e) => e == SomaError::UnsupportedUpdate && spec_update_refused(
                old_names@,
                new_list@,
                images@,
                repo_name@,
            ),
        },
{
    let n = old_names.len();
    let mut i: usize = 0;
    while i < n
        invariant
            0 <= i <= n,
            n == old_names@.len(),
            forall|a: int|
                0 <= a < i ==> !(!spec_name_in_list(new_list@, (#[trigger] old_names@[a])@)
                    && spec_image_from_prob_exists(images@, repo_name@, old_names@[a]@)),
        decreases n - i,
    {
        let old_name = &old_names[i];
        let m = new_list.len();
        let mut found: bool = false;
        let mut j: usize = 0;
        while j < m
            invariant
                0 <= j <= m,
                i < n,
                n == old_names@.len(),
                m == new_list@.len(),
                old_name == &old_names@[i as int],
                !found ==> forall|b: int|
                    0 <= b < j ==> (#[trigger] new_list@[b]).name@ != old_names@[i as int]@,
                found ==> spec_name_in_list(new_list@, old_names@[i as int]@),
            decreases m - j,
        {
            if str_eq(new_list[j].name.as_str(), old_name.as_str()) {
                found = true;
            }
            j += 1;
        }
        if !found {
            let mut k: usize = 0;
            let kn = images.len();
            while k < kn
                invariant
                    0 <= k <= kn,
                    i < n,
                    n == old_names@.len(),
                    kn == images@.len(),
                    old_name == &old_names@[i as int],
                    !spec_name_in_list(new_list@, old_names@[i as int]@),
                    forall|c: int|
                        0 <= c < k ==> !crate::docker::spec_image_of_prob(
                            #[trigger] images@[c],
                            repo_name@,
                            old_names@[i as int]@,
                        ),
                decreases kn - k,
            {
                if str_eq(images[k].repo_name.as_str(), repo_name.as_str()) && str_eq(
                    images[k].prob_name.as_str(),
                    old_name.as_str(),
                ) {
                    proof {
                        assert(!spec_name_in_list(new_list@, (old_names@[i as int])@));
                        assert(crate::docker::spec_image_of_prob(
                            images@[k as int],
                            repo_name@,
                            old_names@[i as int]@,
                        ));
                        assert(spec_image_from_prob_exists(
                            images@,
                            repo_name@,
                            old_names@[i as int]@,
                        ));
                        assert(spec_update_refused(old_names@, new_list@, images@, repo_name@));
                    }
                    return Err(SomaError::UnsupportedUpdate);
                }
                k += 1;
            }
        }
        i += 1;
    }
    Ok(())
}

} // verus!
