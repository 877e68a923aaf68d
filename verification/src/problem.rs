//! A resolved, addressable problem: repository name, problem name and source
//! directory. The qualified `<repository>.<problem>` form is decomposable —
//! names never contain a dot — which is what makes qualified queries
//! unambiguous.

use vstd::prelude::*;
use vstd::string::*;

use crate::name::{lemma_valid_name_no_dot, valid_name, NameString};

verus! {

/// The qualified `<repository>.<problem>` name.
pub open spec fn spec_fqn(repo: Seq<char>, prob: Seq<char>) -> Seq<char> {
    repo + seq!['.'] + prob
}

/// The image name used for a problem built for a given user:
/// `soma.<user>/<repository>.<problem>`.
pub open spec fn spec_image_name(user: Seq<char>, repo: Seq<char>, prob: Seq<char>) -> Seq<char> {
    "soma."@ + user + seq!['/'] + spec_fqn(repo, prob)
}

/// Two equal qualified names of valid repository names decompose identically:
/// the first dot is the separator, and valid names hold no dot.
pub proof fn lemma_fqn_unique(r1: Seq<char>, p1: Seq<char>, r2: Seq<char>, p2: Seq<char>)
    requires
        valid_name(r1),
        valid_name(r2),
        spec_fqn(r1, p1) == spec_fqn(r2, p2),
    ensures
        r1 == r2,
        p1 == p2,
{
    let f1 = r1 + seq!['.'] + p1;
    let f2 = r2 + seq!['.'] + p2;
    assert(f1 == f2);
    assert(f1.len() == r1.len() + 1 + p1.len());
    assert(f2.len() == r2.len() + 1 + p2.len());
    if r1.len() < r2.len() {
        assert(f1[r1.len() as int] == '.');
        assert(f2[r1.len() as int] == r2[r1.len() as int]);
        lemma_valid_name_no_dot(r2, r1.len() as int);
        assert(false);
    }
    if r2.len() < r1.len() {
        assert(f2[r2.len() as int] == '.');
        assert(f1[r2.len() as int] == r1[r2.len() as int]);
        lemma_valid_name_no_dot(r1, r2.len() as int);
        assert(false);
    }
    assert(r1 =~= r2) by {
        assert forall|i: int| 0 <= i < r1.len() implies r1[i] == r2[i] by {
            assert(f1[i] == r1[i]);
            assert(f2[i] == r2[i]);
        }
    }
    assert(p1 =~= p2) by {
        assert forall|i: int| 0 <= i < p1.len() implies p1[i] == p2[i] by {
            assert(f1[r1.len() + 1 + i] == p1[i]);
            assert(f2[r2.len() + 1 + i] == p2[i]);
        }
    }
}

/// A valid (hence dot-free) name is never a qualified name.
pub proof fn lemma_bare_name_not_fqn(q: Seq<char>, repo: Seq<char>, prob: Seq<char>)
    requires
        valid_name(q),
    ensures
        q != spec_fqn(repo, prob),
{
    if q == spec_fqn(repo, prob) {
        assert(q[repo.len() as int] == '.');
        lemma_valid_name_no_dot(q, repo.len() as int);
    }
}

/// A resolved problem: repository name, problem name, and the absolute path
/// of its source directory in the local working copy. Ephemeral — it is
/// reconstructed from the index per query and never itself persisted.
#[derive(Debug)]
pub struct Problem {
    /// The name of the repository the problem belongs to.
    pub repo_name: NameString,
    /// The problem's own name.
    pub prob_name: NameString,
    /// The problem's source directory.
    pub path: String,
}

impl Problem {
    /// Builds a problem from its parts.
    pub fn new(repo_name: NameString, prob_name: NameString, path: String) -> (r: Problem)
        ensures
            r.repo_name == repo_name,
            r.prob_name == prob_name,
            r.path == path,
    {
        Problem { repo_name, prob_name, path }
    }

    /// The qualified `<repository>.<problem>` name.
    pub fn fully_qualified_name(&self) -> (r: String)
        ensures
            r@ == spec_fqn(self.repo_name@, self.prob_name@),
    {
        proof {
            reveal_strlit(".");
        }
        let mut s = String::from_str(self.repo_name.as_str());
        s.append(".");
        s.append(self.prob_name.as_str());
        proof {
            assert(s@ =~= spec_fqn(self.repo_name@, self.prob_name@));
        }
        s
    }

    /// The image name for this problem built for `user_name`.
    pub fn docker_image_name(&self, user_name: &str) -> (r: String)
        ensures
            r@ == spec_image_name(user_name@, self.repo_name@, self.prob_name@),
    {
        proof {
            reveal_strlit("soma.");
            reveal_strlit("/");
        }
        let mut s = String::from_str("soma.");
        s.append(user_name);
        s.append("/");
        let fqn = self.fully_qualified_name();
        s.append(fqn.as_str());
        proof {
            assert(s@ =~= spec_image_name(user_name@, self.repo_name@, self.prob_name@));
        }
        s
    }

    /// The repository name.
    pub fn repo_name(&self) -> (r: &NameString)
        ensures
            r == &self.repo_name,
    {
        &self.repo_name
    }

    /// The problem name.
    pub fn prob_name(&self) -> (r: &NameString)
        ensures
            r == &self.prob_name,
    {
        &self.prob_name
    }

    /// The problem's source directory.
    pub fn path(&self) -> (r: &String)
        ensures
            r == &self.path,
    {
        &self.path
    }
}

} // verus!
