//! A repository backend: the origin a repository's content is synchronized
//! from — a version-controlled origin URL or a local directory mirror. The
//! set of kinds is fixed and small, so it is a closed tagged variant.
//!
//! Synchronization itself (clone/fetch/reset, remove-then-copy) is a
//! capability of the embedding binary; the library only decides which
//! backend a repository location denotes and what name it implies.

use vstd::prelude::*;
use vstd::string::*;

use crate::error::SomaError;
use crate::path::{file_name, spec_file_name};
use crate::strutil::{is_suffix_of, str_ends_with};

verus! {

/// The source a repository is synchronized from.
#[derive(Debug)]
pub enum Backend {
    /// A version-controlled origin, by URL.
    GitBackend(String),
    /// A local directory mirror, by canonical source path.
    LocalBackend(String),
}

impl Clone for Backend {
    /// A clone holds the same origin.
    fn clone(&self) -> (r: Self)
        ensures
            r == *self,
    {
        match self {
            Backend::GitBackend(url) => Backend::GitBackend(url.clone()),
            Backend::LocalBackend(path) => Backend::LocalBackend(path.clone()),
        }
    }
}

/// The human-readable summary of a backend for listing.
pub open spec fn spec_description(b: Backend) -> Seq<char> {
    match b {
        Backend::GitBackend(url) => "Git: "@ + url@,
        Backend::LocalBackend(path) => "Local: "@ + path@,
    }
}

impl Backend {
    /// A human-readable summary ("Git: <url>" or "Local: <path>").
    pub fn description(&self) -> (r: String)
        ensures
            r@ == spec_description(*self),
    {
        match self {
            Backend::GitBackend(url) => {
                let mut s = String::from_str("Git: ");
                s.append(url.as_str());
                s
            },
            Backend::LocalBackend(path) => {
                let mut s = String::from_str("Local: ");
                s.append(path.as_str());
                s
            },
        }
    }
}

/// The final `/`-separated path segment of the URL that `s` parses to:
/// `None` when `s` does not parse as an absolute URL or the URL cannot be a
/// base. A function of the input string alone.
pub uninterp spec fn url_last_path_segment(s: Seq<char>) -> Option<Seq<char>>;

/// Relies on `url::Url::parse` and `url::Url::path_segments`: parsing either
/// fails, or yields a URL whose path splits into one or more `/`-separated
/// segments (the iterator is documented to always hold at least one, possibly
/// empty, string), of which this returns the last. The result depends on the
/// input string alone.
#[verifier::external_body]
fn parse_url_last_segment(location: &str) -> (r: Option<String>)
    ensures
        match r {
            Some(seg) => url_last_path_segment(location@) == Some(seg@),
            None => url_last_path_segment(location@) is None,
        },
{
    match url::Url::parse(location) {
        Ok(parsed) => match parsed.path_segments() {
            Some(segments) => segments.last().map(|seg| seg.to_owned()),
            None => None,
        },
        Err(_) => None,
    }
}

/// The lowercase form of `s`, as `str::to_lowercase` defines it. A function
/// of the characters alone.
pub uninterp spec fn lower_of(s: Seq<char>) -> Seq<char>;

/// Relies on `str::to_lowercase`: the result depends on the characters
/// alone, and an empty string stays empty.
#[verifier::external_body]
fn lowercase(s: &str) -> (r: String)
    ensures
        r@ == lower_of(s@),
        s@.len() == 0 ==> r@.len() == 0,
{
    s.to_lowercase()
}

/// `s` with a trailing `.git` removed, when it has one.
pub open spec fn strip_git_suffix(s: Seq<char>) -> Seq<char> {
    if is_suffix_of(".git"@, s) {
        s.subrange(0, s.len() - ".git"@.len())
    } else {
        s
    }
}

/// The repository name a version-controlled location implies: the last URL
/// path segment, without a trailing `.git`, lowercased. `None` when the
/// location does not parse as a URL with path segments.
pub open spec fn spec_git_repo_name(location: Seq<char>) -> Option<Seq<char>> {
    match url_last_path_segment(location) {
        Some(seg) => Some(lower_of(strip_git_suffix(seg))),
        None => None,
    }
}

/// Decides which backend a repository location denotes and the repository
/// name it implies. `local_dir` carries the canonical path when the caller
/// found the location to be an existing directory; the location's own base
/// name, lowercased, then names the repository. Otherwise the location must
/// parse as a URL, whose last path segment (without a trailing `.git`),
/// lowercased, names the repository.
pub fn location_to_backend(repo_location: &str, local_dir: Option<&String>) -> (r: Result<
    (String, Backend),
    SomaError,
>)
    ensures
        match r {
            Ok(p) => match local_dir {
                Some(d) => {
                    &&& spec_file_name(repo_location@) is Some
                    &&& p.0@ == lower_of(spec_file_name(repo_location@)->Some_0)
                    &&& p.1 matches Backend::LocalBackend(o) && o@ == d@
                },
                None => {
                    &&& spec_git_repo_name(repo_location@) is Some
                    &&& p.0@ == spec_git_repo_name(repo_location@)->Some_0
                    &&& p.1 matches Backend::GitBackend(u) && u@ == repo_location@
                },
            },
            Err(e) => match local_dir {
                Some(_) => e == SomaError::FileNameNotFound && spec_file_name(repo_location@) is None,
                None => e == SomaError::RepositoryNotFound && url_last_path_segment(repo_location@) is None,
            },
        },
{
    match local_dir {
        Some(canonical) => {
            let base = match file_name(repo_location) {
                Some(b) => b,
                None => {
                    return Err(SomaError::FileNameNotFound);
                },
            };
            let name = lowercase(base.as_str());
            Ok((name, Backend::LocalBackend(canonical.clone())))
        },
        None => {
            let seg = match parse_url_last_segment(repo_location) {
                Some(s) => s,
                None => {
                    return Err(SomaError::RepositoryNotFound);
                },
            };
            let stripped: String = if str_ends_with(seg.as_str(), ".git") {
                let glen = ".git".unicode_len();
                let slen = seg.as_str().unicode_len();
                String::from_str(seg.as_str().substring_char(0, slen - glen))
            } else {
                seg
            };
            let name = lowercase(stripped.as_str());
            Ok((name, Backend::GitBackend(String::from_str(repo_location))))
        },
    }
}

} // verus!
