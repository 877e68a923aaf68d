//! The repository registry: a unique-keyed, in-memory index from repository
//! name to backend and cached problem list, together with cross-repository
//! problem search. The index is mutated in memory and marked dirty; the
//! embedding binary persists it through the codec when told to.

use vstd::prelude::*;
use vstd::string::*;

use crate::backend::Backend;
use crate::error::SomaError;
use crate::name::{valid_name, NameString};
use crate::path::{join_path, spec_join};
use crate::problem::{
    lemma_bare_name_not_fqn, lemma_fqn_unique, spec_fqn, Problem,
};
use crate::strutil::{lemma_lex_irrefl, lemma_lex_trans, lex_lt, str_eq, str_lt};

verus! {

/// One cached problem of a repository: its name and its path relative to the
/// repository root, recorded when the repository was added or last updated.
pub struct ProblemIndexEntry {
    /// The problem's name, as its manifest declares it.
    pub name: NameString,
    /// The problem directory, relative to the repository root.
    pub path: String,
}

impl Clone for ProblemIndexEntry {
    /// A clone holds the same name and path.
    fn clone(&self) -> (r: Self)
        ensures
            r == *self,
    {
        ProblemIndexEntry { name: self.name.clone(), path: self.path.clone() }
    }
}

impl ProblemIndexEntry {
    /// Builds an entry from its parts.
    pub fn new(name: NameString, path: String) -> (r: ProblemIndexEntry)
        ensures
            r.name == name,
            r.path == path,
    {
        ProblemIndexEntry { name, path }
    }
}

/// What the registry records per repository: its backend and its cached
/// problem list.
pub struct RepositoryIndexEntry {
    /// The backend the repository synchronizes from.
    pub backend: Backend,
    /// The cached problem list, recorded at add or update time.
    pub prob_list: Vec<ProblemIndexEntry>,
}

impl Clone for RepositoryIndexEntry {
    /// A clone holds the same backend and problem list.
    fn clone(&self) -> (r: Self)
        ensures
            r.backend == self.backend,
            r.prob_list@ == self.prob_list@,
    {
        let backend = self.backend.clone();
        let prob_list = self.prob_list.clone();
        proof {
            assert forall|i: int| 0 <= i < prob_list@.len() implies prob_list@[i]
                == self.prob_list@[i] by {
                assert(vstd::pervasive::cloned(self.prob_list@[i], prob_list@[i]));
            }
            assert(prob_list@ =~= self.prob_list@);
        }
        RepositoryIndexEntry { backend, prob_list }
    }
}

impl RepositoryIndexEntry {
    /// Builds an entry from its parts.
    pub fn new(backend: Backend, prob_list: Vec<ProblemIndexEntry>) -> (r: RepositoryIndexEntry)
        ensures
            r.backend == backend,
            r.prob_list == prob_list,
    {
        RepositoryIndexEntry { backend, prob_list }
    }
}

/// Registered repository names are pairwise distinct.
pub open spec fn names_distinct(entries: Seq<(NameString, RepositoryIndexEntry)>) -> bool {
    forall|i: int, j: int|
        0 <= i < j < entries.len() ==> (#[trigger] entries[i]).0@ != (#[trigger] entries[j]).0@
}

/// Registered repository names ascend strictly in lexicographic code-point
/// order — the order a name-keyed ordered map would list them in. Listing
/// therefore yields ascending name order.
pub open spec fn names_sorted(entries: Seq<(NameString, RepositoryIndexEntry)>) -> bool {
    forall|i: int, j: int|
        0 <= i < j < entries.len() ==> lex_lt((#[trigger] entries[i]).0@, (#[trigger] entries[j]).0@)
}

/// A strictly ascending index registers no name twice.
proof fn lemma_sorted_implies_distinct(entries: Seq<(NameString, RepositoryIndexEntry)>)
    requires
        names_sorted(entries),
    ensures
        names_distinct(entries),
{
    assert forall|i: int, j: int| 0 <= i < j < entries.len() implies (#[trigger] entries[i]).0@
        != (#[trigger] entries[j]).0@ by {
        assert(lex_lt(entries[i].0@, entries[j].0@));
        lemma_lex_irrefl(entries[i].0@);
    }
}

/// Strict ascent of every adjacent pair gives strict ascent of every pair.
proof fn lemma_sorted_from_adjacent(
    entries: Seq<(NameString, RepositoryIndexEntry)>,
    i: int,
    j: int,
)
    requires
        forall|k: int|
            1 <= k < entries.len() ==> lex_lt((#[trigger] entries[k - 1]).0@, entries[k].0@),
        0 <= i < j < entries.len(),
    ensures
        lex_lt(entries[i].0@, entries[j].0@),
    decreases j - i,
{
    if j == i + 1 {
        assert(lex_lt(entries[j - 1].0@, entries[j].0@));
    } else {
        lemma_sorted_from_adjacent(entries, i, j - 1);
        assert(lex_lt(entries[j - 1].0@, entries[j].0@));
        lemma_lex_trans(entries[i].0@, entries[j - 1].0@, entries[j].0@);
    }
}

/// Every repository and problem name in the index satisfies the name
/// grammar. This holds by construction — the names were validated when
/// made — and is what makes qualified queries unambiguous.
pub open spec fn names_valid(entries: Seq<(NameString, RepositoryIndexEntry)>) -> bool {
    &&& forall|i: int| 0 <= i < entries.len() ==> valid_name((#[trigger] entries[i]).0@)
    &&& forall|i: int, k: int|
        0 <= i < entries.len() && 0 <= k < entries[i].1.prob_list@.len() ==> valid_name(
            (#[trigger] entries[i].1.prob_list@[k]).name@,
        )
}

/// Whether some entry registers `name`.
pub open spec fn index_has_name(
    entries: Seq<(NameString, RepositoryIndexEntry)>,
    name: Seq<char>,
) -> bool {
    exists|i: int| 0 <= i < entries.len() && (#[trigger] entries[i]).0@ == name
}

/// The flattened (repository name, problem entry) pairs of one registry
/// entry, in list order.
pub open spec fn pair_seq(e: (NameString, RepositoryIndexEntry)) -> Seq<
    (NameString, ProblemIndexEntry),
> {
    Seq::new(e.1.prob_list@.len(), |k: int| (e.0, e.1.prob_list@[k]))
}

/// The flattened (repository name, problem entry) pairs of the whole
/// registry, repository order first, list order within a repository.
pub open spec fn probs_of(entries: Seq<(NameString, RepositoryIndexEntry)>) -> Seq<
    (NameString, ProblemIndexEntry),
>
    decreases entries.len(),
{
    if entries.len() == 0 {
        Seq::empty()
    } else {
        probs_of(entries.drop_last()) + pair_seq(entries.last())
    }
}

/// A query matches a problem when it equals the problem's bare name or its
/// qualified `<repository>.<problem>` name.
pub open spec fn query_matches(repo: Seq<char>, prob: Seq<char>, q: Seq<char>) -> bool {
    q == prob || q == spec_fqn(repo, prob)
}

/// How many flattened problems a query matches.
pub open spec fn match_count(ms: Seq<(NameString, ProblemIndexEntry)>, q: Seq<char>) -> nat
    decreases ms.len(),
{
    if ms.len() == 0 {
        0
    } else {
        match_count(ms.drop_last(), q) + if query_matches(
            ms.last().0@,
            ms.last().1.name@,
            q,
        ) {
            1nat
        } else {
            0nat
        }
    }
}

/// What a `Problem` value reconstructed from the index looks like: the pair's
/// names, and the working-copy path `<root>/<repository>/<relative path>`.
pub open spec fn problem_models(
    p: Problem,
    m: (NameString, ProblemIndexEntry),
    root: Seq<char>,
) -> bool {
    &&& p.repo_name@ == m.0@
    &&& p.prob_name@ == m.1.name@
    &&& p.path@ == spec_join(spec_join(root, m.0@), m.1.path@)
}

/// Whether two of the resolved problem-list directories coincide.
pub open spec fn has_duplicate_path(paths: Seq<String>) -> bool {
    exists|i: int, j: int| 0 <= i < j < paths.len() && (#[trigger] paths[i])@ == (#[trigger] paths[j])@
}

/// Validates a declared problem list against the directories its entries
/// resolved to: every entry must denote a distinct canonical directory, else
/// the list fails with `InvalidSomaList`. (An entry that resolves to no
/// directory at all is rejected by the caller with the same error.)
pub fn validate_problem_list(canonical_paths: &Vec<String>) -> (r: Result<(), SomaError>)
    ensures
        match r {
            Ok(()) => !has_duplicate_path(canonical_paths@),
            Err(e) => e == SomaError::InvalidSomaList && has_duplicate_path(canonical_paths@),
        },
{
    let n = canonical_paths.len();
    let mut i: usize = 0;
    while i < n
        invariant
            0 <= i <= n,
            n == canonical_paths@.len(),
            forall|a: int, b: int|
                0 <= a < b < i ==> (#[trigger] canonical_paths@[a])@ != (
                #[trigger] canonical_paths@[b])@,
        decreases n - i,
    {
        let mut j: usize = 0;
        while j < i
            invariant
                0 <= j <= i < n,
                n == canonical_paths@.len(),
                forall|b: int|
                    0 <= b < j ==> (#[trigger] canonical_paths@[b])@ != canonical_paths@[i as int]@,
            decreases i - j,
        {
            if str_eq(canonical_paths[j].as_str(), canonical_paths[i].as_str()) {
                proof {
                    assert((canonical_paths@[j as int])@ == (canonical_paths@[i as int])@);
                }
                return Err(SomaError::InvalidSomaList);
            }
            j += 1;
        }
        i += 1;
    }
    Ok(())
}

/// A repository as handed out by the registry: a copy of its record plus its
/// working-copy path.
pub struct Repository {
    /// The repository's name.
    pub name: NameString,
    /// The backend it synchronizes from.
    pub backend: Backend,
    /// Its cached problem list.
    pub prob_list: Vec<ProblemIndexEntry>,
    /// Its working copy: `<root>/<name>`.
    pub local_path: String,
}

impl Repository {
    /// The repository's name.
    pub fn name(&self) -> (r: &NameString)
        ensures
            r == &self.name,
    {
        &self.name
    }

    /// The backend the repository synchronizes from.
    pub fn backend(&self) -> (r: &Backend)
        ensures
            r == &self.backend,
    {
        &self.backend
    }

    /// The working-copy path.
    pub fn path(&self) -> (r: &String)
        ensures
            r == &self.local_path,
    {
        &self.local_path
    }

    /// The names of the repository's cached problems, in list order.
    pub fn prob_names(&self) -> (r: Vec<NameString>)
        ensures
            r@.len() == self.prob_list@.len(),
            forall|i: int| 0 <= i < r@.len() ==> r@[i]@ == (#[trigger] self.prob_list@[i]).name@,
    {
        let mut out: Vec<NameString> = Vec::new();
        let mut i: usize = 0;
        while i < self.prob_list.len()
            invariant
                0 <= i <= self.prob_list@.len(),
                out@.len() == i,
                forall|j: int| 0 <= j < i ==> out@[j]@ == (#[trigger] self.prob_list@[j]).name@,
            decreases self.prob_list@.len() - i,
        {
            out.push(self.prob_list[i].name.clone());
            i += 1;
        }
        out
    }
}

/// The repository registry. It owns the in-memory index and a dirty flag;
/// whoever embeds it reads the index file before construction and writes the
/// serialized index back on teardown when the flag is set.
pub struct RepositoryManager {
    /// The directory under which working copies live, one per repository.
    pub root_path: String,
    /// The index: unique-keyed (name, record) pairs in ascending name
    /// order.
    pub repo_index: Vec<(NameString, RepositoryIndexEntry)>,
    /// Whether the index changed since construction.
    pub dirty: bool,
}

impl RepositoryManager {
    /// The registry invariant: repository names strictly ascending (hence
    /// distinct), and every name valid.
    pub open spec fn wf(&self) -> bool {
        names_sorted(self.repo_index@) && names_distinct(self.repo_index@) && names_valid(
            self.repo_index@,
        )
    }

    /// An empty registry.
    pub fn new(root_path: String) -> (r: RepositoryManager)
        ensures
            r.wf(),
            r.root_path == root_path,
            r.repo_index@.len() == 0,
            !r.dirty,
    {
        RepositoryManager { root_path, repo_index: Vec::new(), dirty: false }
    }

    /// A registry over entries read back from persistence; refuses a list
    /// whose repository names are not strictly ascending (in particular, one
    /// that registers a name twice).
    pub fn from_entries(
        root_path: String,
        entries: Vec<(NameString, RepositoryIndexEntry)>,
    ) -> (r: Option<RepositoryManager>)
        ensures
            match r {
                Some(m) => {
                    &&& m.wf()
                    &&& m.root_path == root_path
                    &&& m.repo_index == entries
                    &&& !m.dirty
                },
                None => !names_sorted(entries@),
            },
    {
        let n = entries.len();
        let mut i: usize = 0;
        while i < n
            invariant
                0 <= i <= n,
                n == entries@.len(),
                forall|a: int|
                    1 <= a < i ==> lex_lt((#[trigger] entries@[a - 1]).0@, entries@[a].0@),
                forall|a: int| 0 <= a < i ==> valid_name((#[trigger] entries@[a]).0@),
                forall|a: int, k: int|
                    0 <= a < i && 0 <= k < entries@[a].1.prob_list@.len() ==> valid_name(
                        (#[trigger] entries@[a].1.prob_list@[k]).name@,
                    ),
            decreases n - i,
        {
            let entry_name = entries[i].0.as_str();
            proof {
                assert(valid_name(entry_name@));
            }
            if i > 0 {
                if !str_lt(entries[i - 1].0.as_str(), entry_name) {
                    proof {
                        assert(!lex_lt(entries@[i - 1].0@, entries@[i as int].0@));
                    }
                    return None;
                }
            }
            let plen = entries[i].1.prob_list.len();
            let mut k: usize = 0;
            while k < plen
                invariant
                    0 <= k <= plen,
                    i < n,
                    n == entries@.len(),
                    plen == entries@[i as int].1.prob_list@.len(),
                    forall|t: int|
                        0 <= t < k ==> valid_name(
                            (#[trigger] entries@[i as int].1.prob_list@[t]).name@,
                        ),
                decreases plen - k,
            {
                let prob_name = entries[i].1.prob_list[k].name.as_str();
                proof {
                    assert(valid_name(prob_name@));
                }
                k += 1;
            }
            i += 1;
        }
        proof {
            assert forall|a: int, b: int| 0 <= a < b < entries@.len() implies lex_lt(
                (#[trigger] entries@[a]).0@,
                (#[trigger] entries@[b]).0@,
            ) by {
                lemma_sorted_from_adjacent(entries@, a, b);
            }
            lemma_sorted_implies_distinct(entries@);
        }
        Some(RepositoryManager { root_path, repo_index: entries, dirty: false })
    }

    /// Whether the index changed since construction and needs persisting.
    pub fn dirty(&self) -> (r: bool)
        ensures
            r == self.dirty,
    {
        self.dirty
    }

    /// The working-copy path of a repository: `<root>/<name>`.
    pub fn repo_path(&self, repo_name: &str) -> (r: String)
        ensures
            r@ == spec_join(self.root_path@, repo_name@),
    {
        join_path(self.root_path.as_str(), repo_name)
    }

    /// The position of `name` in the index, if registered.
    fn find_entry(&self, name: &str) -> (r: Option<usize>)
        ensures
            match r {
                Some(i) => i < self.repo_index@.len() && self.repo_index@[i as int].0@ == name@,
                None => !index_has_name(self.repo_index@, name@),
            },
    {
        let n = self.repo_index.len();
        let mut i: usize = 0;
        while i < n
            invariant
                0 <= i <= n,
                n == self.repo_index@.len(),
                forall|j: int| 0 <= j < i ==> (#[trigger] self.repo_index@[j]).0@ != name@,
            decreases n - i,
        {
            if str_eq(self.repo_index[i].0.as_str(), name) {
                return Some(i);
            }
            i += 1;
        }
        None
    }

    /// Whether a repository of that name is registered; a string that is not
    /// a valid name registers nothing.
    pub fn repo_exists(&self, repo_name: &str) -> (r: bool)
        ensures
            r == (valid_name(repo_name@) && index_has_name(self.repo_index@, repo_name@)),
    {
        if !crate::name::check_name(repo_name) {
            return false;
        }
        match self.find_entry(repo_name) {
            Some(_) => true,
            None => false,
        }
    }

    /// Registers a repository under `repo_name` with its backend and scanned
    /// problem list. Fails with `InvalidName` on a name outside the grammar
    /// and with `DuplicateRepository` when the name is already registered;
    /// either failure leaves the registry unchanged. On success the entry is
    /// inserted at its position in name order and the registry is dirty.
    pub fn add_repo(
        &mut self,
        repo_name: &str,
        backend: Backend,
        prob_list: Vec<ProblemIndexEntry>,
    ) -> (r: Result<(), SomaError>)
        requires
            old(self).wf(),
        ensures
            final(self).wf(),
            final(self).root_path == old(self).root_path,
            match r {
                Ok(()) => {
                    &&& valid_name(repo_name@)
                    &&& !index_has_name(old(self).repo_index@, repo_name@)
                    &&& final(self).repo_index@.len() == old(self).repo_index@.len() + 1
                    &&& exists|p: int|
                        {
                            &&& 0 <= p <= old(self).repo_index@.len()
                            &&& forall|k: int|
                                0 <= k < p ==> #[trigger] final(self).repo_index@[k] == old(
                                    self,
                                ).repo_index@[k]
                            &&& forall|k: int|
                                p <= k < old(self).repo_index@.len()
                                    ==> #[trigger] final(self).repo_index@[k + 1] == old(
                                    self,
                                ).repo_index@[k]
                            &&& (#[trigger] final(self).repo_index@[p]).0@ == repo_name@
                            &&& final(self).repo_index@[p].1.backend == backend
                            &&& final(self).repo_index@[p].1.prob_list == prob_list
                        }
                    &&& final(self).dirty
                },
                Err(e) => {
                    &&& *final(self) == *old(self)
                    &&& (e == SomaError::InvalidName && !valid_name(repo_name@)) || (e
                        == SomaError::DuplicateRepository && valid_name(repo_name@)
                        && index_has_name(old(self).repo_index@, repo_name@))
                },
            },
    {
        let name = match NameString::try_from(repo_name) {
            Ok(n) => n,
            Err(e) => {
                return Err(e);
            },
        };
        match self.find_entry(repo_name) {
            Some(_) => Err(SomaError::DuplicateRepository),
            None => {
                let plen = prob_list.len();
                let mut k: usize = 0;
                while k < plen
                    invariant
                        0 <= k <= plen,
                        plen == prob_list@.len(),
                        forall|t: int|
                            0 <= t < k ==> valid_name((#[trigger] prob_list@[t]).name@),
                    decreases plen - k,
                {
                    let prob_name = prob_list[k].name.as_str();
                    proof {
                        assert(valid_name(prob_name@));
                    }
                    k += 1;
                }
                let n = self.repo_index.len();
                let mut p: usize = 0;
                while p < n && str_lt(self.repo_index[p].0.as_str(), repo_name)
                    invariant
                        0 <= p <= n,
                        n == self.repo_index@.len(),
                        forall|t: int|
                            0 <= t < p ==> lex_lt((#[trigger] self.repo_index@[t]).0@, repo_name@),
                    decreases n - p,
                {
                    p += 1;
                }
                proof {
                    let oldix = self.repo_index@;
                    assert forall|t: int| p <= t < n implies lex_lt(
                        repo_name@,
                        (#[trigger] oldix[t]).0@,
                    ) by {
                        assert(oldix[p as int].0@ != repo_name@);
                        assert(!lex_lt(oldix[p as int].0@, repo_name@));
                        crate::strutil::lemma_lex_connex(repo_name@, oldix[p as int].0@);
                        if t > p {
                            assert(lex_lt(oldix[p as int].0@, oldix[t].0@));
                            lemma_lex_trans(repo_name@, oldix[p as int].0@, oldix[t].0@);
                        }
                    }
                }
                let ghost oldix = self.repo_index@;
                let entry = (name, RepositoryIndexEntry { backend, prob_list });
                let ghost elem = entry;
                self.repo_index.insert(p, entry);
                self.dirty = true;
                proof {
                    assert(self.repo_index@ == oldix.insert(p as int, elem));
                    oldix.insert_ensures(p as int, elem);
                    let newix = self.repo_index@;
                    assert(newix[p as int] == elem);
                    assert(newix[p as int].0@ == repo_name@);
                    assert forall|a: int, b: int| 0 <= a < b < newix.len() implies lex_lt(
                        (#[trigger] newix[a]).0@,
                        (#[trigger] newix[b]).0@,
                    ) by {
                        if a < p {
                            assert(newix[a] == oldix[a]);
                        } else if a > p {
                            assert(newix[a] == oldix[a - 1]);
                        }
                        if b < p {
                            assert(newix[b] == oldix[b]);
                        } else if b > p {
                            assert(newix[b] == oldix[b - 1]);
                        }
                        if a == p {
                            assert(lex_lt(repo_name@, oldix[b - 1].0@));
                        } else if b == p {
                            assert(lex_lt(oldix[a].0@, repo_name@));
                        } else if a < p && b < p {
                            assert(lex_lt(oldix[a].0@, oldix[b].0@));
                        } else if a < p && b > p {
                            assert(lex_lt(oldix[a].0@, repo_name@));
                            assert(lex_lt(repo_name@, oldix[b - 1].0@));
                            lemma_lex_trans(oldix[a].0@, repo_name@, oldix[b - 1].0@);
                        } else {
                            assert(lex_lt(oldix[a - 1].0@, oldix[b - 1].0@));
                        }
                    }
                    lemma_sorted_implies_distinct(newix);
                    assert forall|a: int| 0 <= a < newix.len() implies valid_name(
                        (#[trigger] newix[a]).0@,
                    ) by {
                        if a < p {
                            assert(newix[a] == oldix[a]);
                            assert(valid_name(oldix[a].0@));
                        } else if a > p {
                            assert(newix[a] == oldix[a - 1]);
                            assert(valid_name(oldix[a - 1].0@));
                        }
                    }
                    assert forall|a: int, t: int|
                        0 <= a < newix.len() && 0 <= t < newix[a].1.prob_list@.len() implies valid_name(
                        (#[trigger] newix[a].1.prob_list@[t]).name@,
                    ) by {
                        if a < p {
                            assert(newix[a] == oldix[a]);
                            assert(valid_name(oldix[a].1.prob_list@[t].name@));
                        } else if a > p {
                            assert(newix[a] == oldix[a - 1]);
                            assert(valid_name(oldix[a - 1].1.prob_list@[t].name@));
                        } else {
                            assert(valid_name(newix[a].1.prob_list@[t].name@));
                        }
                    }
                }
                Ok(())
            },
        }
    }

    /// Replaces a repository's cached problem list after an explicit
    /// re-scan of its working copy — the cache is populated at add time and
    /// must never be treated as a live view. Fails with `InvalidName` on a
    /// name outside the grammar and with `RepositoryNotFound` when nothing
    /// is registered under it; either failure leaves the registry unchanged.
    pub fn set_prob_list(&mut self, repo_name: &str, prob_list: Vec<ProblemIndexEntry>) -> (r:
        Result<(), SomaError>)
        requires
            old(self).wf(),
        ensures
            final(self).wf(),
            final(self).root_path == old(self).root_path,
            match r {
                Ok(()) => {
                    &&& valid_name(repo_name@)
                    &&& final(self).repo_index@.len() == old(self).repo_index@.len()
                    &&& exists|i: int|
                        0 <= i < old(self).repo_index@.len() && (#[trigger] old(
                            self,
                        ).repo_index@[i]).0@ == repo_name@ && final(self).repo_index@[i].1.prob_list
                            == prob_list && final(self).repo_index@[i].1.backend == old(
                            self,
                        ).repo_index@[i].1.backend && final(self).repo_index@[i].0 == old(
                            self,
                        ).repo_index@[i].0 && (forall|j: int|
                            0 <= j < old(self).repo_index@.len() && j != i
                                ==> final(self).repo_index@[j] == old(self).repo_index@[j])
                    &&& final(self).dirty
                },
                Err(e) => {
                    &&& *final(self) == *old(self)
                    &&& (e == SomaError::InvalidName && !valid_name(repo_name@)) || (e
                        == SomaError::RepositoryNotFound && valid_name(repo_name@)
                        && !index_has_name(old(self).repo_index@, repo_name@))
                },
            },
    {
        if !crate::name::check_name(repo_name) {
            return Err(SomaError::InvalidName);
        }
        match self.find_entry(repo_name) {
            Some(i) => {
                let plen = prob_list.len();
                let mut k: usize = 0;
                while k < plen
                    invariant
                        0 <= k <= plen,
                        plen == prob_list@.len(),
                        forall|t: int| 0 <= t < k ==> valid_name((#[trigger] prob_list@[t]).name@),
                    decreases plen - k,
                {
                    let prob_name = prob_list[k].name.as_str();
                    proof {
                        assert(valid_name(prob_name@));
                    }
                    k += 1;
                }
                let name = self.repo_index[i].0.clone();
                let backend = self.repo_index[i].1.backend.clone();
                self.repo_index.set(i, (name, RepositoryIndexEntry { backend, prob_list }));
                self.dirty = true;
                proof {
                    let oldix = old(self).repo_index@;
                    assert forall|a: int, b: int|
                        0 <= a < b < self.repo_index@.len() implies (#[trigger] self.repo_index@[a]).0@
                        != (#[trigger] self.repo_index@[b]).0@ by {
                        assert(oldix[a].0@ != oldix[b].0@);
                    }
                }
                Ok(())
            },
            None => Err(SomaError::RepositoryNotFound),
        }
    }

    /// Unregisters a repository. Fails with `InvalidName` on a name outside
    /// the grammar and with `RepositoryNotFound` when nothing is registered
    /// under it; either failure leaves the registry unchanged. On success
    /// the entry is removed and the registry is dirty.
    pub fn remove_repo(&mut self, repo_name: &str) -> (r: Result<(), SomaError>)
        requires
            old(self).wf(),
        ensures
            final(self).wf(),
            final(self).root_path == old(self).root_path,
            match r {
                Ok(()) => {
                    &&& valid_name(repo_name@)
                    &&& exists|i: int|
                        0 <= i < old(self).repo_index@.len() && (#[trigger] old(
                            self,
                        ).repo_index@[i]).0@ == repo_name@ && final(self).repo_index@ == old(
                            self,
                        ).repo_index@.remove(i)
                    &&& final(self).dirty
                },
                Err(e) => {
                    &&& *final(self) == *old(self)
                    &&& (e == SomaError::InvalidName && !valid_name(repo_name@)) || (e
                        == SomaError::RepositoryNotFound && valid_name(repo_name@)
                        && !index_has_name(old(self).repo_index@, repo_name@))
                },
            },
    {
        if !crate::name::check_name(repo_name) {
            return Err(SomaError::InvalidName);
        }
        match self.find_entry(repo_name) {
            Some(i) => {
                self.repo_index.remove(i);
                self.dirty = true;
                proof {
                    let oldix = old(self).repo_index@;
                    assert forall|a: int, b: int|
                        0 <= a < b < self.repo_index@.len() implies (#[trigger] self.repo_index@[a]).0@
                        != (#[trigger] self.repo_index@[b]).0@ by {
                        let a0 = if a < i { a } else { a + 1 };
                        let b0 = if b < i { b } else { b + 1 };
                        assert(self.repo_index@[a] == oldix[a0]);
                        assert(self.repo_index@[b] == oldix[b0]);
                    }
                    assert forall|a: int|
                        0 <= a < self.repo_index@.len() implies valid_name(
                        (#[trigger] self.repo_index@[a]).0@,
                    ) by {
                        let a0 = if a < i { a } else { a + 1 };
                        assert(self.repo_index@[a] == oldix[a0]);
                    }
                    assert forall|a: int, k: int|
                        0 <= a < self.repo_index@.len() && 0 <= k
                            < self.repo_index@[a].1.prob_list@.len() implies valid_name(
                        (#[trigger] self.repo_index@[a].1.prob_list@[k]).name@,
                    ) by {
                        let a0 = if a < i { a } else { a + 1 };
                        assert(self.repo_index@[a] == oldix[a0]);
                        assert(valid_name(oldix[a0].1.prob_list@[k].name@));
                    }
                }
                Ok(())
            },
            None => Err(SomaError::RepositoryNotFound),
        }
    }

    /// Hands out the registered repository of that name, with its
    /// working-copy path. Read-only and in-memory.
    pub fn get_repo(&self, repo_name: &str) -> (r: Result<Repository, SomaError>)
        ensures
            match r {
                Ok(rep) => exists|i: int|
                    0 <= i < self.repo_index@.len() && (#[trigger] self.repo_index@[i]).0@
                        == repo_name@ && rep.name@ == repo_name@ && rep.backend
                        == self.repo_index@[i].1.backend && rep.prob_list@
                        == self.repo_index@[i].1.prob_list@ && rep.local_path@ == spec_join(
                        self.root_path@,
                        repo_name@,
                    ),
                Err(e) => {
                    ||| (e == SomaError::InvalidName && !valid_name(repo_name@))
                    ||| (e == SomaError::RepositoryNotFound && !index_has_name(
                        self.repo_index@,
                        repo_name@,
                    ))
                },
            },
    {
        if !crate::name::check_name(repo_name) {
            return Err(SomaError::InvalidName);
        }
        match self.find_entry(repo_name) {
            Some(i) => {
                let entry = &self.repo_index[i];
                let rep = Repository {
                    name: entry.0.clone(),
                    backend: entry.1.backend.clone(),
                    prob_list: entry.1.prob_list.clone(),
                    local_path: self.repo_path(repo_name),
                };
                proof {
                    assert forall|k: int| 0 <= k < rep.prob_list@.len() implies rep.prob_list@[k]
                        == self.repo_index@[i as int].1.prob_list@[k] by {
                        assert(vstd::pervasive::cloned(
                            self.repo_index@[i as int].1.prob_list@[k],
                            rep.prob_list@[k],
                        ));
                    }
                    assert(rep.prob_list@ =~= self.repo_index@[i as int].1.prob_list@);
                }
                Ok(rep)
            },
            None => Err(SomaError::RepositoryNotFound),
        }
    }

    /// Hands out every registered repository, in index order — on a
    /// well-formed registry that is ascending name order.
    pub fn list_repo(&self) -> (r: Vec<Repository>)
        ensures
            r@.len() == self.repo_index@.len(),
            self.wf() ==> forall|i: int, j: int|
                0 <= i < j < r@.len() ==> lex_lt((#[trigger] r@[i]).name@, (#[trigger] r@[j]).name@),
            forall|i: int|
                0 <= i < r@.len() ==> {
                    &&& (#[trigger] r@[i]).name@ == self.repo_index@[i].0@
                    &&& r@[i].backend == self.repo_index@[i].1.backend
                    &&& r@[i].prob_list@ == self.repo_index@[i].1.prob_list@
                    &&& r@[i].local_path@ == spec_join(self.root_path@, self.repo_index@[i].0@)
                },
    {
        let mut out: Vec<Repository> = Vec::new();
        let n = self.repo_index.len();
        let mut i: usize = 0;
        while i < n
            invariant
                0 <= i <= n,
                n == self.repo_index@.len(),
                out@.len() == i,
                forall|j: int|
                    0 <= j < i ==> {
                        &&& (#[trigger] out@[j]).name@ == self.repo_index@[j].0@
                        &&& out@[j].backend == self.repo_index@[j].1.backend
                        &&& out@[j].prob_list@ == self.repo_index@[j].1.prob_list@
                        &&& out@[j].local_path@ == spec_join(self.root_path@, self.repo_index@[j].0@)
                    },
            decreases n - i,
        {
            let entry = &self.repo_index[i];
            let rep = Repository {
                name: entry.0.clone(),
                backend: entry.1.backend.clone(),
                prob_list: entry.1.prob_list.clone(),
                local_path: self.repo_path(entry.0.as_str()),
            };
            proof {
                assert forall|k: int| 0 <= k < rep.prob_list@.len() implies rep.prob_list@[k]
                    == self.repo_index@[i as int].1.prob_list@[k] by {
                    assert(vstd::pervasive::cloned(
                        self.repo_index@[i as int].1.prob_list@[k],
                        rep.prob_list@[k],
                    ));
                }
                assert(rep.prob_list@ =~= self.repo_index@[i as int].1.prob_list@);
            }
            out.push(rep);
            i += 1;
        }
        out
    }

    /// Reconstructs every problem of every repository, repository order
    /// first: the flattened view of the index.
    pub fn list_prob(&self) -> (r: Vec<Problem>)
        ensures
            r@.len() == probs_of(self.repo_index@).len(),
            forall|i: int|
                0 <= i < r@.len() ==> problem_models(
                    #[trigger] r@[i],
                    probs_of(self.repo_index@)[i],
                    self.root_path@,
                ),
    {
        let mut out: Vec<Problem> = Vec::new();
        let n = self.repo_index.len();
        let mut i: usize = 0;
        while i < n
            invariant
                0 <= i <= n,
                n == self.repo_index@.len(),
                out@.len() == probs_of(self.repo_index@.subrange(0, i as int)).len(),
                forall|j: int|
                    0 <= j < out@.len() ==> problem_models(
                        #[trigger] out@[j],
                        probs_of(self.repo_index@.subrange(0, i as int))[j],
                        self.root_path@,
                    ),
            decreases n - i,
        {
            let entry = &self.repo_index[i];
            let repo_dir = self.repo_path(entry.0.as_str());
            let plen = entry.1.prob_list.len();
            let ghost prefix = probs_of(self.repo_index@.subrange(0, i as int));
            let ghost pairs = pair_seq(self.repo_index@[i as int]);
            let mut k: usize = 0;
            while k < plen
                invariant
                    0 <= k <= plen,
                    i < n,
                    n == self.repo_index@.len(),
                    plen == self.repo_index@[i as int].1.prob_list@.len(),
                    entry == &self.repo_index@[i as int],
                    repo_dir@ == spec_join(self.root_path@, self.repo_index@[i as int].0@),
                    prefix == probs_of(self.repo_index@.subrange(0, i as int)),
                    pairs == pair_seq(self.repo_index@[i as int]),
                    out@.len() == prefix.len() + k,
                    forall|j: int|
                        0 <= j < prefix.len() ==> problem_models(
                            #[trigger] out@[j],
                            prefix[j],
                            self.root_path@,
                        ),
                    forall|t: int|
                        0 <= t < k ==> problem_models(
                            #[trigger] out@[prefix.len() + t],
                            pairs[t],
                            self.root_path@,
                        ),
                decreases plen - k,
            {
                let pi = &entry.1.prob_list[k];
                let p = Problem {
                    repo_name: entry.0.clone(),
                    prob_name: pi.name.clone(),
                    path: join_path(repo_dir.as_str(), pi.path.as_str()),
                };
                out.push(p);
                k += 1;
            }
            proof {
                let sub1 = self.repo_index@.subrange(0, i + 1);
                assert(sub1.drop_last() =~= self.repo_index@.subrange(0, i as int));
                assert(sub1.last() == self.repo_index@[i as int]);
                assert(probs_of(sub1) == prefix + pairs);
                assert forall|j: int| 0 <= j < out@.len() implies problem_models(
                    #[trigger] out@[j],
                    probs_of(self.repo_index@.subrange(0, i + 1))[j],
                    self.root_path@,
                ) by {
                    if j < prefix.len() {
                        assert((prefix + pairs)[j] == prefix[j]);
                    } else {
                        let t = j - prefix.len();
                        assert((prefix + pairs)[j] == pairs[t]);
                        assert(problem_models(out@[prefix.len() + t], pairs[t], self.root_path@));
                        assert(out@[prefix.len() + t] == out@[j]);
                    }
                }
            }
            i += 1;
        }
        proof {
            assert(self.repo_index@.subrange(0, n as int) =~= self.repo_index@);
        }
        out
    }

    /// Resolves a problem query: the query matches a problem whose bare name
    /// or qualified name equals it. No match gives `ProblemNotFound`, more
    /// than one gives `ProblemQueryAmbiguous`, exactly one resolves.
    pub fn search_prob(&self, query: &str) -> (r: Result<Problem, SomaError>)
        ensures
            match r {
                Ok(p) => {
                    &&& match_count(probs_of(self.repo_index@), query@) == 1
                    &&& exists|i: int|
                        0 <= i < probs_of(self.repo_index@).len() && query_matches(
                            (#[trigger] probs_of(self.repo_index@)[i]).0@,
                            probs_of(self.repo_index@)[i].1.name@,
                            query@,
                        ) && problem_models(p, probs_of(self.repo_index@)[i], self.root_path@)
                },
                Err(e) => {
                    ||| (e == SomaError::ProblemNotFound && match_count(
                        probs_of(self.repo_index@),
                        query@,
                    ) == 0)
                    ||| (e == SomaError::ProblemQueryAmbiguous && match_count(
                        probs_of(self.repo_index@),
                        query@,
                    ) >= 2)
                },
            },
    {
        let ghost ms = probs_of(self.repo_index@);
        let mut problems = self.list_prob();
        let n = problems.len();
        let mut count: usize = 0;
        let mut first: usize = 0;
        let mut i: usize = 0;
        while i < n
            invariant
                0 <= i <= n,
                n == problems@.len(),
                n == ms.len(),
                ms == probs_of(self.repo_index@),
                forall|j: int|
                    0 <= j < n ==> problem_models(#[trigger] problems@[j], ms[j], self.root_path@),
                count == match_count(ms.subrange(0, i as int), query@),
                count <= i,
                count >= 1 ==> first < i && query_matches(
                    ms[first as int].0@,
                    ms[first as int].1.name@,
                    query@,
                ),
            decreases n - i,
        {
            let p = &problems[i];
            let bare = str_eq(query, p.prob_name.as_str());
            let fqn = p.fully_qualified_name();
            let qualified = str_eq(query, fqn.as_str());
            proof {
                let sub1 = ms.subrange(0, i + 1);
                assert(sub1.drop_last() =~= ms.subrange(0, i as int));
                assert(sub1.last() == ms[i as int]);
            }
            if bare || qualified {
                if count == 0 {
                    first = i;
                }
                count += 1;
            }
            i += 1;
        }
        proof {
            assert(ms.subrange(0, n as int) =~= ms);
        }
        if count == 0 {
            Err(SomaError::ProblemNotFound)
        } else if count == 1 {
            let p = problems.remove(first);
            Ok(p)
        } else {
            Err(SomaError::ProblemQueryAmbiguous)
        }
    }
}

/// Every repository and problem name among flattened pairs is valid.
pub open spec fn prob_names_valid(ms: Seq<(NameString, ProblemIndexEntry)>) -> bool {
    forall|i: int|
        0 <= i < ms.len() ==> valid_name((#[trigger] ms[i]).0@) && valid_name(ms[i].1.name@)
}

/// No two flattened pairs carry the same repository and problem name.
pub open spec fn prob_pairs_distinct(ms: Seq<(NameString, ProblemIndexEntry)>) -> bool {
    forall|i: int, j: int|
        0 <= i < j < ms.len() ==> !((#[trigger] ms[i]).0@ == (#[trigger] ms[j]).0@ && ms[i].1.name@
            == ms[j].1.name@)
}

/// How many flattened problems carry the bare name `q`.
pub open spec fn prob_name_count(ms: Seq<(NameString, ProblemIndexEntry)>, q: Seq<char>) -> nat
    decreases ms.len(),
{
    if ms.len() == 0 {
        0
    } else {
        prob_name_count(ms.drop_last(), q) + if ms.last().1.name@ == q {
            1nat
        } else {
            0nat
        }
    }
}

/// How many flattened problems are exactly repository `r`'s problem `x`.
pub open spec fn qualified_count(
    ms: Seq<(NameString, ProblemIndexEntry)>,
    r: Seq<char>,
    x: Seq<char>,
) -> nat
    decreases ms.len(),
{
    if ms.len() == 0 {
        0
    } else {
        qualified_count(ms.drop_last(), r, x) + if ms.last().0@ == r && ms.last().1.name@ == x {
            1nat
        } else {
            0nat
        }
    }
}

/// The index a well-formed registry flattens to has only valid names.
pub proof fn lemma_probs_of_names_valid(entries: Seq<(NameString, RepositoryIndexEntry)>)
    requires
        names_valid(entries),
    ensures
        prob_names_valid(probs_of(entries)),
    decreases entries.len(),
{
    if entries.len() > 0 {
        let front = entries.drop_last();
        assert(names_valid(front)) by {
            assert forall|i: int| 0 <= i < front.len() implies valid_name(
                (#[trigger] front[i]).0@,
            ) by {
                assert(front[i] == entries[i]);
            }
            assert forall|i: int, k: int|
                0 <= i < front.len() && 0 <= k < front[i].1.prob_list@.len() implies valid_name(
                (#[trigger] front[i].1.prob_list@[k]).name@,
            ) by {
                assert(front[i] == entries[i]);
                assert(valid_name(entries[i].1.prob_list@[k].name@));
            }
        }
        lemma_probs_of_names_valid(front);
        let ms = probs_of(entries);
        let rec = probs_of(front);
        let pairs = pair_seq(entries.last());
        assert forall|i: int| 0 <= i < ms.len() implies valid_name((#[trigger] ms[i]).0@)
            && valid_name(ms[i].1.name@) by {
            if i < rec.len() {
                assert(ms[i] == rec[i]);
                assert(valid_name(rec[i].0@) && valid_name(rec[i].1.name@));
            } else {
                let k = i - rec.len();
                assert(ms[i] == pairs[k]);
                let last = entries.len() - 1;
                assert(entries.last() == entries[last]);
                assert(valid_name(entries[last].0@));
                assert(valid_name(entries[last].1.prob_list@[k].name@));
            }
        }
    }
}

/// Search correctness, bare form: a valid (hence dot-free) query can only
/// match a problem's bare name, never a qualified name, so the number of
/// matches is exactly the number of problems named `q` across repositories.
pub proof fn lemma_bare_query_counts_names(ms: Seq<(NameString, ProblemIndexEntry)>, q: Seq<char>)
    requires
        valid_name(q),
    ensures
        match_count(ms, q) == prob_name_count(ms, q),
    decreases ms.len(),
{
    if ms.len() > 0 {
        lemma_bare_query_counts_names(ms.drop_last(), q);
        lemma_bare_name_not_fqn(q, ms.last().0@, ms.last().1.name@);
    }
}

/// Search correctness, qualified form, counting: when every name is valid, a
/// qualified query `<r>.<x>` matches a problem exactly when that problem is
/// repository `r`'s problem `x`.
pub proof fn lemma_qualified_query_counts_pairs(
    ms: Seq<(NameString, ProblemIndexEntry)>,
    r: Seq<char>,
    x: Seq<char>,
)
    requires
        valid_name(r),
        prob_names_valid(ms),
    ensures
        match_count(ms, spec_fqn(r, x)) == qualified_count(ms, r, x),
    decreases ms.len(),
{
    if ms.len() > 0 {
        let front = ms.drop_last();
        assert(prob_names_valid(front)) by {
            assert forall|i: int| 0 <= i < front.len() implies valid_name((#[trigger] front[i]).0@)
                && valid_name(front[i].1.name@) by {
                assert(front[i] == ms[i]);
                assert(valid_name(ms[i].0@) && valid_name(ms[i].1.name@));
            }
        }
        lemma_qualified_query_counts_pairs(front, r, x);
        let last = ms.len() - 1;
        assert(ms.last() == ms[last]);
        assert(valid_name(ms[last].0@) && valid_name(ms[last].1.name@));
        let repo = ms.last().0@;
        let prob = ms.last().1.name@;
        let q = spec_fqn(r, x);
        lemma_bare_name_not_fqn(prob, r, x);
        if q == spec_fqn(repo, prob) {
            lemma_fqn_unique(r, x, repo, prob);
        }
        assert(query_matches(repo, prob, q) == (repo == r && prob == x));
    }
}

/// No occurrence, no count.
proof fn lemma_qualified_count_zero(
    ms: Seq<(NameString, ProblemIndexEntry)>,
    r: Seq<char>,
    x: Seq<char>,
)
    requires
        forall|i: int|
            0 <= i < ms.len() ==> !((#[trigger] ms[i]).0@ == r && ms[i].1.name@ == x),
    ensures
        qualified_count(ms, r, x) == 0,
    decreases ms.len(),
{
    if ms.len() > 0 {
        let front = ms.drop_last();
        assert forall|i: int| 0 <= i < front.len() implies !((#[trigger] front[i]).0@ == r
            && front[i].1.name@ == x) by {
            assert(front[i] == ms[i]);
        }
        lemma_qualified_count_zero(front, r, x);
        assert(ms.last() == ms[ms.len() - 1]);
    }
}

/// Search correctness, qualified form: when every name is valid, no two
/// repositories register the same (repository, problem) pair, and repository
/// `r` does hold a problem `x`, the qualified query `<r>.<x>` matches exactly
/// one problem — whatever bare-name ambiguity exists.
pub proof fn lemma_qualified_query_unambiguous(
    ms: Seq<(NameString, ProblemIndexEntry)>,
    r: Seq<char>,
    x: Seq<char>,
)
    requires
        valid_name(r),
        prob_names_valid(ms),
        prob_pairs_distinct(ms),
        exists|i: int| 0 <= i < ms.len() && (#[trigger] ms[i]).0@ == r && ms[i].1.name@ == x,
    ensures
        match_count(ms, spec_fqn(r, x)) == 1,
    decreases ms.len(),
{
    lemma_qualified_query_counts_pairs(ms, r, x);
    lemma_qualified_count_unique(ms, r, x);
}

/// Exactly one occurrence of a pair that is present and never duplicated.
proof fn lemma_qualified_count_unique(
    ms: Seq<(NameString, ProblemIndexEntry)>,
    r: Seq<char>,
    x: Seq<char>,
)
    requires
        prob_pairs_distinct(ms),
        exists|i: int| 0 <= i < ms.len() && (#[trigger] ms[i]).0@ == r && ms[i].1.name@ == x,
    ensures
        qualified_count(ms, r, x) == 1,
    decreases ms.len(),
{
    let w = choose|i: int| 0 <= i < ms.len() && (#[trigger] ms[i]).0@ == r && ms[i].1.name@ == x;
    let front = ms.drop_last();
    let last = ms.len() - 1;
    assert(ms.last() == ms[last]);
    assert(prob_pairs_distinct(front)) by {
        assert forall|i: int, j: int| 0 <= i < j < front.len() implies !((#[trigger] front[i]).0@
            == (#[trigger] front[j]).0@ && front[i].1.name@ == front[j].1.name@) by {
            assert(front[i] == ms[i] && front[j] == ms[j]);
        }
    }
    if w == last {
        assert forall|i: int| 0 <= i < front.len() implies !((#[trigger] front[i]).0@ == r
            && front[i].1.name@ == x) by {
            assert(front[i] == ms[i]);
            assert(!(ms[i].0@ == ms[last].0@ && ms[i].1.name@ == ms[last].1.name@));
        }
        lemma_qualified_count_zero(front, r, x);
    } else {
        assert(front[w] == ms[w]);
        lemma_qualified_count_unique(front, r, x);
        assert(!(ms[w].0@ == ms[last].0@ && ms[w].1.name@ == ms[last].1.name@));
    }
}


/// Within each registered repository, the cached problem names are pairwise
/// distinct. The add-time scan guarantees distinct problem directories; this
/// is the corresponding condition on the declared names, and what the
/// unambiguity of qualified queries rests on.
pub open spec fn prob_names_unique_per_repo(entries: Seq<(NameString, RepositoryIndexEntry)>) -> bool {
    forall|i: int, k1: int, k2: int|
        0 <= i < entries.len() && 0 <= k1 < k2 < entries[i].1.prob_list@.len() ==> (
        #[trigger] entries[i].1.prob_list@[k1]).name@ != (
        #[trigger] entries[i].1.prob_list@[k2]).name@
}

/// Every flattened pair carries the repository name of some registry entry.
proof fn lemma_probs_of_repo_membership(entries: Seq<(NameString, RepositoryIndexEntry)>, t: int)
    requires
        0 <= t < probs_of(entries).len(),
    ensures
        exists|a: int|
            0 <= a < entries.len() && probs_of(entries)[t].0 == (#[trigger] entries[a]).0,
    decreases entries.len(),
{
    let front = entries.drop_last();
    let rec = probs_of(front);
    let pairs = pair_seq(entries.last());
    if t < rec.len() {
        lemma_probs_of_repo_membership(front, t);
        let a = choose|a: int| 0 <= a < front.len() && rec[t].0 == (#[trigger] front[a]).0;
        assert(front[a] == entries[a]);
        assert(probs_of(entries)[t] == rec[t]);
    } else {
        let last = entries.len() - 1;
        assert(probs_of(entries)[t] == pairs[t - rec.len()]);
        assert(pairs[t - rec.len()].0 == entries[last].0);
        assert(entries.last() == entries[last]);
    }
}

/// A well-formed registry whose repositories cache distinct problem names
/// flattens to pairwise-distinct (repository, problem) pairs.
pub proof fn lemma_probs_of_pairs_distinct(entries: Seq<(NameString, RepositoryIndexEntry)>)
    requires
        names_distinct(entries),
        prob_names_unique_per_repo(entries),
    ensures
        prob_pairs_distinct(probs_of(entries)),
    decreases entries.len(),
{
    if entries.len() == 0 {
        return ;
    }
    let front = entries.drop_last();
    let last = entries.len() - 1;
    let rec = probs_of(front);
    let pairs = pair_seq(entries.last());
    let ms = probs_of(entries);
    assert(entries.last() == entries[last]);
    assert(names_distinct(front)) by {
        assert forall|a: int, b: int| 0 <= a < b < front.len() implies (#[trigger] front[a]).0@
            != (#[trigger] front[b]).0@ by {
            assert(front[a] == entries[a] && front[b] == entries[b]);
        }
    }
    assert(prob_names_unique_per_repo(front)) by {
        assert forall|i: int, k1: int, k2: int|
            0 <= i < front.len() && 0 <= k1 < k2 < front[i].1.prob_list@.len() implies (
        #[trigger] front[i].1.prob_list@[k1]).name@ != (
        #[trigger] front[i].1.prob_list@[k2]).name@ by {
            assert(front[i] == entries[i]);
            assert(entries[i].1.prob_list@[k1].name@ != entries[i].1.prob_list@[k2].name@);
        }
    }
    lemma_probs_of_pairs_distinct(front);
    assert forall|i: int, j: int| 0 <= i < j < ms.len() implies !((#[trigger] ms[i]).0@ == (
    #[trigger] ms[j]).0@ && ms[i].1.name@ == ms[j].1.name@) by {
        if j < rec.len() {
            assert(ms[i] == rec[i] && ms[j] == rec[j]);
            assert(!(rec[i].0@ == rec[j].0@ && rec[i].1.name@ == rec[j].1.name@));
        } else if i >= rec.len() {
            let k1 = i - rec.len();
            let k2 = j - rec.len();
            assert(ms[i] == pairs[k1] && ms[j] == pairs[k2]);
            assert(pairs[k1].1 == entries[last].1.prob_list@[k1]);
            assert(pairs[k2].1 == entries[last].1.prob_list@[k2]);
            assert(entries[last].1.prob_list@[k1].name@ != entries[last].1.prob_list@[k2].name@);
        } else {
            assert(ms[i] == rec[i] && ms[j] == pairs[j - rec.len()]);
            lemma_probs_of_repo_membership(front, i);
            let a = choose|a: int| 0 <= a < front.len() && rec[i].0 == (#[trigger] front[a]).0;
            assert(front[a] == entries[a]);
            assert(entries[a].0@ != entries[last].0@);
            assert(ms[j].0 == entries[last].0);
        }
    }
}

/// Search correctness at the registry: on a well-formed registry whose
/// repositories cache distinct problem names, a qualified query for a
/// registered problem matches exactly one problem, whatever bare-name
/// ambiguity exists across repositories.
pub proof fn lemma_registry_qualified_search(mgr: RepositoryManager, r: Seq<char>, x: Seq<char>)
    requires
        mgr.wf(),
        prob_names_unique_per_repo(mgr.repo_index@),
        valid_name(r),
        exists|i: int|
            0 <= i < probs_of(mgr.repo_index@).len() && (#[trigger] probs_of(
                mgr.repo_index@,
            )[i]).0@ == r && probs_of(mgr.repo_index@)[i].1.name@ == x,
    ensures
        match_count(probs_of(mgr.repo_index@), spec_fqn(r, x)) == 1,
{
    lemma_probs_of_names_valid(mgr.repo_index@);
    lemma_probs_of_pairs_distinct(mgr.repo_index@);
    lemma_qualified_query_unambiguous(probs_of(mgr.repo_index@), r, x);
}

} // verus!
