//! Paths handled as slash-separated strings. The library only ever reasons
//! about path text — whether it is absolute, its base name, joining — and
//! leaves every file-system access to the embedding binary.

use vstd::prelude::*;
use vstd::string::*;

use crate::strutil::str_eq;

verus! {

/// A path is absolute when it starts with the root separator.
pub open spec fn is_absolute_path(s: Seq<char>) -> bool {
    s.len() > 0 && s[0] == '/'
}

/// Checks whether a path string is absolute.
pub fn path_is_absolute(s: &str) -> (r: bool)
    ensures
        r == is_absolute_path(s@),
{
    if s.unicode_len() == 0 {
        false
    } else {
        s.get_char(0) == '/'
    }
}

/// The join of `base` and `rel` with a single separator between them.
pub open spec fn spec_join(base: Seq<char>, rel: Seq<char>) -> Seq<char> {
    base + seq!['/'] + rel
}

/// Joins two path strings with a separator.
pub fn join_path(base: &str, rel: &str) -> (r: String)
    ensures
        r@ == spec_join(base@, rel@),
{
    proof {
        reveal_strlit("/");
    }
    let mut s = String::from_str(base);
    s.append("/");
    s.append(rel);
    proof {
        assert(s@ =~= spec_join(base@, rel@));
    }
    s
}

/// The longest suffix of `s` that contains no separator: the candidate base
/// name of the path. Empty when `s` is empty or ends with a separator.
pub open spec fn base_name(s: Seq<char>) -> Seq<char>
    decreases s.len(),
{
    if s.len() == 0 {
        Seq::empty()
    } else if s[s.len() - 1] == '/' {
        Seq::empty()
    } else {
        base_name(s.subrange(0, s.len() - 1)).push(s[s.len() - 1])
    }
}

/// The base name of a path, when it has one, following the usual path
/// normalization: trailing separators are ignored, a trailing `.` component
/// refers to the directory before it and is skipped, and a path ending in
/// `..` (or holding nothing else) has no base name.
pub open spec fn spec_file_name(s: Seq<char>) -> Option<Seq<char>>
    decreases s.len(),
{
    if s.len() == 0 {
        None
    } else if s[s.len() - 1] == '/' {
        spec_file_name(s.subrange(0, s.len() - 1))
    } else {
        let b = base_name(s);
        if b == seq!['.'] {
            spec_file_name(s.subrange(0, s.len() - 1))
        } else if b == seq!['.', '.'] {
            None
        } else {
            Some(b)
        }
    }
}

/// A suffix of `s` that follows a separator (or starts the string) and holds
/// no separator itself is exactly `base_name(s)`.
proof fn lemma_base_name_suffix(s: Seq<char>, k: int)
    requires
        0 <= k <= s.len(),
        forall|j: int| k <= j < s.len() ==> s[j] != '/',
        k == 0 || s[k - 1] == '/',
    ensures
        base_name(s) == s.subrange(k, s.len() as int),
    decreases s.len(),
{
    if k == s.len() {
        if s.len() == 0 {
            assert(base_name(s) =~= s.subrange(k, s.len() as int));
        } else {
            assert(s[s.len() - 1] == '/');
            assert(base_name(s) =~= s.subrange(k, s.len() as int));
        }
    } else {
        assert(s[s.len() - 1] != '/');
        let t = s.subrange(0, s.len() - 1);
        lemma_base_name_suffix(t, if k <= t.len() { k } else { t.len() as int });
        assert(base_name(s) == base_name(t).push(s[s.len() - 1]));
        assert(base_name(s) =~= s.subrange(k, s.len() as int));
    }
}

/// Extracts the base name of a path, if any.
pub fn file_name(s: &str) -> (r: Option<String>)
    ensures
        match r {
            Some(b) => spec_file_name(s@) == Some(b@),
            None => spec_file_name(s@) is None,
        },
{
    let len = s.unicode_len();
    proof {
        assert(s@.subrange(0, len as int) =~= s@);
    }
    let mut end: usize = len;
    loop
        invariant
            0 <= end <= len,
            len == s@.len(),
            spec_file_name(s@) == spec_file_name(s@.subrange(0, end as int)),
        decreases end,
    {
        proof {
            reveal_strlit(".");
            reveal_strlit("..");
            assert((".")@ =~= seq!['.']);
            assert(("..")@ =~= seq!['.', '.']);
        }
        let ghost sub = s@.subrange(0, end as int);
        if end == 0 {
            return None;
        }
        if s.get_char(end - 1) == '/' {
            proof {
                assert(sub[sub.len() - 1] == '/');
                assert(sub.subrange(0, sub.len() - 1) =~= s@.subrange(0, end - 1));
            }
            end -= 1;
            continue ;
        }
        // find the start of the final component of s[0..end]
        let mut k: usize = end;
        loop
            invariant
                0 <= k <= end <= len,
                len == s@.len(),
                forall|j: int| k <= j < end ==> s@[j] != '/',
            ensures
                0 <= k <= end,
                forall|j: int| k <= j < end ==> s@[j] != '/',
                k == 0 || s@[k - 1] == '/',
            decreases k,
        {
            if k == 0 {
                break ;
            }
            if s.get_char(k - 1) == '/' {
                break ;
            }
            k -= 1;
        }
        proof {
            assert forall|j: int| k <= j < sub.len() implies sub[j] != '/' by {
                assert(sub[j] == s@[j]);
            }
            if k > 0 {
                assert(sub[k - 1] == s@[k - 1]);
            }
            lemma_base_name_suffix(sub, k as int);
            assert(sub.subrange(k as int, sub.len() as int) =~= s@.subrange(
                k as int,
                end as int,
            ));
            assert(base_name(sub) == s@.subrange(k as int, end as int));
        }
        let b = s.substring_char(k, end);
        if str_eq(b, ".") {
            proof {
                assert(base_name(sub) == seq!['.']);
                assert(sub.subrange(0, sub.len() - 1) =~= s@.subrange(0, end - 1));
            }
            end -= 1;
            continue ;
        }
        if str_eq(b, "..") {
            proof {
                assert(base_name(sub) == seq!['.', '.']);
            }
            return None;
        }
        proof {
            assert(base_name(sub) == b@);
            assert(b@.len() > 0);
            assert(base_name(sub) != seq!['.'] && base_name(sub) != seq!['.', '.']);
        }
        return Some(String::from_str(b));
    }
}

/// The path with its leading root separator removed; used to place an
/// absolute in-container target below a build-context directory.
pub fn strip_root(s: &str) -> (r: String)
    requires
        is_absolute_path(s@),
    ensures
        r@ == s@.subrange(1, s@.len() as int),
{
    let len = s.unicode_len();
    String::from_str(s.substring_char(1, len))
}

} // verus!
