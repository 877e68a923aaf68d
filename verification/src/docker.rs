//! The library's model of the container runtime's artifacts. Every image and
//! container this tool creates carries four identity labels — tool version,
//! owning user, repository and problem — and every listing is filtered and
//! classified by them; that is the sole mechanism telling this tool's
//! artifacts apart from unrelated ones on a shared host. The runtime calls
//! themselves are issued by the embedding binary, which hands the labelled
//! results back as plain values.

use vstd::prelude::*;
use vstd::string::*;

use crate::problem::Problem;
use crate::strutil::{is_prefix_of, str_eq, str_starts_with};
use crate::VERSION;

verus! {

/// The label carrying the tool version an artifact was created by.
pub const LABEL_KEY_VERSION: &'static str = "soma.version";

/// The label carrying the owning user.
pub const LABEL_KEY_USERNAME: &'static str = "soma.username";

/// The label carrying the repository name.
pub const LABEL_KEY_REPOSITORY: &'static str = "soma.repository";

/// The label carrying the problem name.
pub const LABEL_KEY_PROBLEM: &'static str = "soma.problem";

/// How an artifact's version label compares to this tool's version.
#[derive(Clone, Copy, Debug, PartialEq, Eq, Structural)]
pub enum VersionStatus {
    /// The artifact carries this tool's version.
    Normal,
    /// The artifact carries another version.
    VersionMismatch,
    /// The artifact carries no version label.
    NoVersionFound,
}

/// The first value stored under `key`, scanning the label pairs in order.
pub open spec fn spec_label_lookup(labels: Seq<(String, String)>, key: Seq<char>) -> Option<
    Seq<char>,
>
    decreases labels.len(),
{
    if labels.len() == 0 {
        None
    } else if labels[0].0@ == key {
        Some(labels[0].1@)
    } else {
        spec_label_lookup(labels.drop_first(), key)
    }
}

/// Looks a key up among label pairs.
pub fn label_lookup(labels: &Vec<(String, String)>, key: &str) -> (r: Option<String>)
    ensures
        match r {
            Some(v) => spec_label_lookup(labels@, key@) == Some(v@),
            None => spec_label_lookup(labels@, key@) is None,
        },
{
    let n = labels.len();
    proof {
        assert(labels@.subrange(0, n as int) =~= labels@);
    }
    let mut i: usize = 0;
    while i < n
        invariant
            0 <= i <= n,
            n == labels@.len(),
            spec_label_lookup(labels@, key@) == spec_label_lookup(
                labels@.subrange(i as int, n as int),
                key@,
            ),
        decreases n - i,
    {
        proof {
            let sub = labels@.subrange(i as int, n as int);
            assert(sub[0] == labels@[i as int]);
            assert(sub.drop_first() =~= labels@.subrange(i + 1, n as int));
        }
        if str_eq(labels[i].0.as_str(), key) {
            return Some(labels[i].1.clone());
        }
        i += 1;
    }
    proof {
        assert(labels@.subrange(n as int, n as int) =~= Seq::<(String, String)>::empty());
    }
    None
}

/// The version status the version label implies.
pub open spec fn spec_version_status(labels: Seq<(String, String)>, version: Seq<char>) -> VersionStatus {
    match spec_label_lookup(labels, LABEL_KEY_VERSION@) {
        Some(v) => if v == version {
            VersionStatus::Normal
        } else {
            VersionStatus::VersionMismatch
        },
        None => VersionStatus::NoVersionFound,
    }
}

/// What label classification yields, when the identity labels are present.
pub open spec fn spec_classified(labels: Seq<(String, String)>, version: Seq<char>) -> Option<
    (Seq<char>, Seq<char>, VersionStatus),
> {
    match (
        spec_label_lookup(labels, LABEL_KEY_REPOSITORY@),
        spec_label_lookup(labels, LABEL_KEY_PROBLEM@),
    ) {
        (Some(repo), Some(prob)) => Some((repo, prob, spec_version_status(labels, version))),
        _ => None,
    }
}

/// Classifies a labelled artifact: reads the repository and problem labels
/// (an artifact without both is not this tool's and yields `None`) and
/// compares the version label against `version`.
pub fn classify_labels(labels: &Vec<(String, String)>, version: &str) -> (r: Option<
    (String, String, VersionStatus),
>)
    ensures
        match r {
            Some(t) => spec_classified(labels@, version@) == Some((t.0@, t.1@, t.2)),
            None => spec_classified(labels@, version@) is None,
        },
{
    let repo = label_lookup(labels, LABEL_KEY_REPOSITORY);
    let prob = label_lookup(labels, LABEL_KEY_PROBLEM);
    match (repo, prob) {
        (Some(repo), Some(prob)) => {
            let status = match label_lookup(labels, LABEL_KEY_VERSION) {
                Some(v) => {
                    if str_eq(v.as_str(), version) {
                        VersionStatus::Normal
                    } else {
                        VersionStatus::VersionMismatch
                    }
                },
                None => VersionStatus::NoVersionFound,
            };
            Some((repo, prob, status))
        },
        _ => None,
    }
}

/// An image of this tool, as classified from a runtime listing.
#[derive(Debug)]
pub struct SomaImage {
    /// The repository label's value.
    pub repo_name: String,
    /// The problem label's value.
    pub prob_name: String,
    /// The image's repository tags, when the runtime reports them.
    pub repo_tags: Option<Vec<String>>,
    /// How the version label compares to this tool's version.
    pub status: VersionStatus,
}

impl SomaImage {
    /// Builds an image record from its parts.
    pub fn new(
        repo_name: String,
        prob_name: String,
        repo_tags: Option<Vec<String>>,
        status: VersionStatus,
    ) -> (r: SomaImage)
        ensures
            r.repo_name == repo_name,
            r.prob_name == prob_name,
            r.repo_tags == repo_tags,
            r.status == status,
    {
        SomaImage { repo_name, prob_name, repo_tags, status }
    }

    /// The repository label's value.
    pub fn repo_name(&self) -> (r: &String)
        ensures
            r == &self.repo_name,
    {
        &self.repo_name
    }

    /// The problem label's value.
    pub fn prob_name(&self) -> (r: &String)
        ensures
            r == &self.prob_name,
    {
        &self.prob_name
    }

    /// How the version label compares to this tool's version.
    pub fn status(&self) -> (r: VersionStatus)
        ensures
            r == self.status,
    {
        self.status
    }
}

/// A container of this tool, as classified from a runtime listing.
#[derive(Debug)]
pub struct SomaContainer {
    /// The repository label's value.
    pub repo_name: String,
    /// The problem label's value.
    pub prob_name: String,
    /// The runtime's container id.
    pub container_id: String,
    /// The runtime's container state (such as `running` or `exited`).
    pub state: String,
    /// How the version label compares to this tool's version.
    pub status: VersionStatus,
}

impl Clone for SomaContainer {
    /// A clone holds the same record.
    fn clone(&self) -> (r: Self)
        ensures
            r == *self,
    {
        SomaContainer {
            repo_name: self.repo_name.clone(),
            prob_name: self.prob_name.clone(),
            container_id: self.container_id.clone(),
            state: self.state.clone(),
            status: self.status,
        }
    }
}

impl SomaContainer {
    /// Builds a container record from its parts.
    pub fn new(
        repo_name: String,
        prob_name: String,
        container_id: String,
        state: String,
        status: VersionStatus,
    ) -> (r: SomaContainer)
        ensures
            r.repo_name == repo_name,
            r.prob_name == prob_name,
            r.container_id == container_id,
            r.state == state,
            r.status == status,
    {
        SomaContainer { repo_name, prob_name, container_id, state, status }
    }

    /// The repository label's value.
    pub fn repo_name(&self) -> (r: &String)
        ensures
            r == &self.repo_name,
    {
        &self.repo_name
    }

    /// The problem label's value.
    pub fn prob_name(&self) -> (r: &String)
        ensures
            r == &self.prob_name,
    {
        &self.prob_name
    }

    /// The runtime's container id.
    pub fn container_id(&self) -> (r: &String)
        ensures
            r == &self.container_id,
    {
        &self.container_id
    }

    /// The runtime's container state.
    pub fn state(&self) -> (r: &String)
        ensures
            r == &self.state,
    {
        &self.state
    }

    /// How the version label compares to this tool's version.
    pub fn status(&self) -> (r: VersionStatus)
        ensures
            r == self.status,
    {
        self.status
    }
}

/// Whether a container belongs to the problem, by its identity labels.
pub open spec fn spec_container_of_prob(c: SomaContainer, repo: Seq<char>, prob: Seq<char>) -> bool {
    c.repo_name@ == repo && c.prob_name@ == prob
}

/// Whether an image belongs to the problem, by its identity labels.
pub open spec fn spec_image_of_prob(im: SomaImage, repo: Seq<char>, prob: Seq<char>) -> bool {
    im.repo_name@ == repo && im.prob_name@ == prob
}

/// The container states a stop operation must issue a stop for.
pub open spec fn spec_stoppable_state(s: Seq<char>) -> bool {
    s == "paused"@ || s == "restarting"@ || s == "running"@
}

/// Whether a container id occurs in a listing.
pub open spec fn spec_container_exists(cs: Seq<SomaContainer>, id: Seq<char>) -> bool {
    exists|i: int| 0 <= i < cs.len() && (#[trigger] cs[i]).container_id@ == id
}

/// Whether any listed container belongs to the problem.
pub open spec fn spec_container_from_prob_exists(
    cs: Seq<SomaContainer>,
    repo: Seq<char>,
    prob: Seq<char>,
) -> bool {
    exists|i: int| 0 <= i < cs.len() && spec_container_of_prob(#[trigger] cs[i], repo, prob)
}

/// Whether any listed container of the problem is running.
pub open spec fn spec_container_from_prob_running(
    cs: Seq<SomaContainer>,
    repo: Seq<char>,
    prob: Seq<char>,
) -> bool {
    exists|i: int|
        0 <= i < cs.len() && spec_container_of_prob(#[trigger] cs[i], repo, prob)
            && cs[i].state@ == "running"@
}

/// Whether some container in the listing has the given id.
pub fn container_exists(containers: &Vec<SomaContainer>, container_id: &str) -> (r: bool)
    ensures
        r == spec_container_exists(containers@, container_id@),
{
    let n = containers.len();
    let mut i: usize = 0;
    while i < n
        invariant
            0 <= i <= n,
            n == containers@.len(),
            forall|j: int| 0 <= j < i ==> (#[trigger] containers@[j]).container_id@ != container_id@,
        decreases n - i,
    {
        if str_eq(containers[i].container_id.as_str(), container_id) {
            return true;
        }
        i += 1;
    }
    false
}

/// Whether any listed container belongs to the problem.
pub fn container_from_prob_exists(containers: &Vec<SomaContainer>, problem: &Problem) -> (r: bool)
    ensures
        r == spec_container_from_prob_exists(
            containers@,
            problem.repo_name@,
            problem.prob_name@,
        ),
{
    let n = containers.len();
    let mut i: usize = 0;
    while i < n
        invariant
            0 <= i <= n,
            n == containers@.len(),
            forall|j: int|
                0 <= j < i ==> !spec_container_of_prob(
                    #[trigger] containers@[j],
                    problem.repo_name@,
                    problem.prob_name@,
                ),
        decreases n - i,
    {
        if str_eq(containers[i].repo_name.as_str(), problem.repo_name.as_str()) && str_eq(
            containers[i].prob_name.as_str(),
            problem.prob_name.as_str(),
        ) {
            return true;
        }
        i += 1;
    }
    false
}

/// Whether any listed container of the problem is in the `running` state.
pub fn container_from_prob_running(containers: &Vec<SomaContainer>, problem: &Problem) -> (r: bool)
    ensures
        r == spec_container_from_prob_running(
            containers@,
            problem.repo_name@,
            problem.prob_name@,
        ),
{
    let n = containers.len();
    let mut i: usize = 0;
    while i < n
        invariant
            0 <= i <= n,
            n == containers@.len(),
            forall|j: int|
                0 <= j < i ==> !(spec_container_of_prob(
                    #[trigger] containers@[j],
                    problem.repo_name@,
                    problem.prob_name@,
                ) && containers@[j].state@ == "running"@),
        decreases n - i,
    {
        if str_eq(containers[i].repo_name.as_str(), problem.repo_name.as_str()) && str_eq(
            containers[i].prob_name.as_str(),
            problem.prob_name.as_str(),
        ) && str_eq(containers[i].state.as_str(), "running") {
            return true;
        }
        i += 1;
    }
    false
}

/// The listed containers of the problem, in listing order.
pub open spec fn spec_containers_from_prob(
    cs: Seq<SomaContainer>,
    repo: Seq<char>,
    prob: Seq<char>,
) -> Seq<SomaContainer>
    decreases cs.len(),
{
    if cs.len() == 0 {
        Seq::empty()
    } else {
        let rest = spec_containers_from_prob(cs.drop_last(), repo, prob);
        if spec_container_of_prob(cs.last(), repo, prob) {
            rest.push(cs.last())
        } else {
            rest
        }
    }
}

/// Keeps only the containers that belong to the problem, in order.
pub fn containers_from_prob(containers: Vec<SomaContainer>, problem: &Problem) -> (r: Vec<
    SomaContainer,
>)
    ensures
        r@ == spec_containers_from_prob(containers@, problem.repo_name@, problem.prob_name@),
{
    let n = containers.len();
    let mut out: Vec<SomaContainer> = Vec::new();
    let mut i: usize = 0;
    while i < n
        invariant
            0 <= i <= n,
            n == containers@.len(),
            out@ == spec_containers_from_prob(
                containers@.subrange(0, i as int),
                problem.repo_name@,
                problem.prob_name@,
            ),
        decreases n - i,
    {
        proof {
            let sub1 = containers@.subrange(0, i + 1);
            assert(sub1.drop_last() =~= containers@.subrange(0, i as int));
            assert(sub1.last() == containers@[i as int]);
        }
        if str_eq(containers[i].repo_name.as_str(), problem.repo_name.as_str()) && str_eq(
            containers[i].prob_name.as_str(),
            problem.prob_name.as_str(),
        ) {
            out.push(containers[i].clone());
        }
        i += 1;
    }
    proof {
        assert(containers@.subrange(0, n as int) =~= containers@);
    }
    out
}

/// Whether some listed image carries a tag starting with `<image_name>:`.
pub open spec fn spec_image_exists(images: Seq<SomaImage>, image_name: Seq<char>) -> bool {
    exists|i: int, t: int|
        0 <= i < images.len() && (#[trigger] images[i]).repo_tags is Some && 0 <= t
            < images[i].repo_tags->Some_0@.len() && is_prefix_of(
            image_name + seq![':'],
            (#[trigger] images[i].repo_tags->Some_0@[t])@,
        )
}

/// Whether an image with that name (under any tag) is listed.
pub fn image_exists(images: &Vec<SomaImage>, image_name: &str) -> (r: bool)
    ensures
        r == spec_image_exists(images@, image_name@),
{
    proof {
        reveal_strlit(":");
    }
    let mut prefix = String::from_str(image_name);
    prefix.append(":");
    proof {
        assert(prefix@ =~= image_name@ + seq![':']);
    }
    let n = images.len();
    let mut i: usize = 0;
    while i < n
        invariant
            0 <= i <= n,
            n == images@.len(),
            prefix@ == image_name@ + seq![':'],
            forall|j: int, t: int|
                0 <= j < i && (#[trigger] images@[j]).repo_tags is Some && 0 <= t
                    < images@[j].repo_tags->Some_0@.len() ==> !is_prefix_of(
                    image_name@ + seq![':'],
                    (#[trigger] images@[j].repo_tags->Some_0@[t])@,
                ),
        decreases n - i,
    {
        match &images[i].repo_tags {
            Some(tags) => {
                let m = tags.len();
                let mut t: usize = 0;
                while t < m
                    invariant
                        0 <= t <= m,
                        i < n,
                        n == images@.len(),
                        images@[i as int].repo_tags is Some,
                        m == images@[i as int].repo_tags->Some_0@.len(),
                        tags@ == images@[i as int].repo_tags->Some_0@,
                        prefix@ == image_name@ + seq![':'],
                        forall|u: int|
                            0 <= u < t ==> !is_prefix_of(
                                image_name@ + seq![':'],
                                (#[trigger] images@[i as int].repo_tags->Some_0@[u])@,
                            ),
                    decreases m - t,
                {
                    if str_starts_with(tags[t].as_str(), prefix.as_str()) {
                        return true;
                    }
                    t += 1;
                }
            },
            None => {},
        }
        i += 1;
    }
    false
}

/// Whether any listed image belongs to the repository.
pub open spec fn spec_image_from_repo_exists(images: Seq<SomaImage>, repo: Seq<char>) -> bool {
    exists|i: int| 0 <= i < images.len() && (#[trigger] images[i]).repo_name@ == repo
}

/// Whether any listed image belongs to the repository.
pub fn image_from_repo_exists(images: &Vec<SomaImage>, repo_name: &str) -> (r: bool)
    ensures
        r == spec_image_from_repo_exists(images@, repo_name@),
{
    let n = images.len();
    let mut i: usize = 0;
    while i < n
        invariant
            0 <= i <= n,
            n == images@.len(),
            forall|j: int| 0 <= j < i ==> (#[trigger] images@[j]).repo_name@ != repo_name@,
        decreases n - i,
    {
        if str_eq(images[i].repo_name.as_str(), repo_name) {
            return true;
        }
        i += 1;
    }
    false
}

/// Whether any listed image belongs to the problem.
pub open spec fn spec_image_from_prob_exists(
    images: Seq<SomaImage>,
    repo: Seq<char>,
    prob: Seq<char>,
) -> bool {
    exists|i: int| 0 <= i < images.len() && spec_image_of_prob(#[trigger] images[i], repo, prob)
}

/// Whether any listed image belongs to the problem.
pub fn image_from_prob_exists(images: &Vec<SomaImage>, problem: &Problem) -> (r: bool)
    ensures
        r == spec_image_from_prob_exists(images@, problem.repo_name@, problem.prob_name@),
{
    let n = images.len();
    let mut i: usize = 0;
    while i < n
        invariant
            0 <= i <= n,
            n == images@.len(),
            forall|j: int|
                0 <= j < i ==> !spec_image_of_prob(
                    #[trigger] images@[j],
                    problem.repo_name@,
                    problem.prob_name@,
                ),
        decreases n - i,
    {
        if str_eq(images[i].repo_name.as_str(), problem.repo_name.as_str()) && str_eq(
            images[i].prob_name.as_str(),
            problem.prob_name.as_str(),
        ) {
            return true;
        }
        i += 1;
    }
    false
}

/// The four identity labels every created image and container carries.
pub fn docker_labels(username: &str, problem: &Problem) -> (r: Vec<(String, String)>)
    ensures
        r@.len() == 4,
        r@[0].0@ == LABEL_KEY_VERSION@ && r@[0].1@ == VERSION@,
        r@[1].0@ == LABEL_KEY_USERNAME@ && r@[1].1@ == username@,
        r@[2].0@ == LABEL_KEY_REPOSITORY@ && r@[2].1@ == problem.repo_name@,
        r@[3].0@ == LABEL_KEY_PROBLEM@ && r@[3].1@ == problem.prob_name@,
{
    let mut out: Vec<(String, String)> = Vec::new();
    out.push((String::from_str(LABEL_KEY_VERSION), String::from_str(VERSION)));
    out.push((String::from_str(LABEL_KEY_USERNAME), String::from_str(username)));
    out.push((String::from_str(LABEL_KEY_REPOSITORY), String::from_str(problem.repo_name.as_str())));
    out.push((String::from_str(LABEL_KEY_PROBLEM), String::from_str(problem.prob_name.as_str())));
    out
}

/// A builder for the `<key>=<value>` label filter a listing or prune call
/// hands to the runtime.
pub struct SomaFilterBuilder {
    /// The accumulated `<key>=<value>` filter terms.
    pub label_filter: Vec<String>,
}

/// The filter term for one label.
pub open spec fn spec_filter_term(key: Seq<char>, value: Seq<char>) -> Seq<char> {
    key + seq!['='] + value
}

impl SomaFilterBuilder {
    /// An empty filter.
    pub fn new() -> (r: SomaFilterBuilder)
        ensures
            r.label_filter@.len() == 0,
    {
        SomaFilterBuilder { label_filter: Vec::new() }
    }

    /// Appends one `<key>=<value>` term.
    pub fn append_filter(self, key: &str, value: &str) -> (r: SomaFilterBuilder)
        ensures
            r.label_filter@.len() == self.label_filter@.len() + 1,
            forall|i: int|
                0 <= i < self.label_filter@.len() ==> r.label_filter@[i] == self.label_filter@[i],
            r.label_filter@.last()@ == spec_filter_term(key@, value@),
    {
        proof {
            reveal_strlit("=");
        }
        let mut s = String::from_str(key);
        s.append("=");
        s.append(value);
        proof {
            assert(s@ =~= spec_filter_term(key@, value@));
        }
        let mut out = self;
        out.label_filter.push(s);
        out
    }

    /// Appends the owning-user term.
    pub fn append_user(self, username: &str) -> (r: SomaFilterBuilder)
        ensures
            r.label_filter@.len() == self.label_filter@.len() + 1,
            forall|i: int|
                0 <= i < self.label_filter@.len() ==> r.label_filter@[i] == self.label_filter@[i],
            r.label_filter@.last()@ == spec_filter_term(LABEL_KEY_USERNAME@, username@),
    {
        self.append_filter(LABEL_KEY_USERNAME, username)
    }

    /// Appends the repository and problem terms of a problem.
    pub fn append_prob(self, problem: &Problem) -> (r: SomaFilterBuilder)
        ensures
            r.label_filter@.len() == self.label_filter@.len() + 2,
            forall|i: int|
                0 <= i < self.label_filter@.len() ==> r.label_filter@[i] == self.label_filter@[i],
            r.label_filter@[r.label_filter@.len() - 2]@ == spec_filter_term(
                LABEL_KEY_REPOSITORY@,
                problem.repo_name@,
            ),
            r.label_filter@.last()@ == spec_filter_term(LABEL_KEY_PROBLEM@, problem.prob_name@),
    {
        let out = self.append_filter(LABEL_KEY_REPOSITORY, problem.repo_name.as_str());
        out.append_filter(LABEL_KEY_PROBLEM, problem.prob_name.as_str())
    }

    /// The finished filter terms, to be submitted under the runtime's
    /// `label` filter key.
    pub fn build(self) -> (r: Vec<String>)
        ensures
            r == self.label_filter,
    {
        self.label_filter
    }
}

} // verus!
