//! Repository and problem identifiers, restricted to a container-image-name
//! compatible grammar: lowercase alphanumerics, with a single `_`, a double
//! `__` or a run of `-` allowed only between alphanumerics. Validity is
//! checked at construction; every held value satisfies [`valid_name`].

use vstd::prelude::*;
use vstd::string::*;

use crate::error::SomaError;

verus! {

/// A lowercase letter or a digit, the only characters that may start or end a
/// name.
pub open spec fn is_lower_alnum(c: char) -> bool {
    ('a' as u32 <= c as u32 && c as u32 <= 'z' as u32) || ('0' as u32 <= c as u32 && c as u32
        <= '9' as u32)
}

/// Whether position `i` of `s` is acceptable: alphanumerics anywhere; `_`
/// only between characters that are not `-`, and never as the middle of
/// `___`; `-` only between characters that are not `_`.
pub open spec fn valid_name_char_at(s: Seq<char>, i: int) -> bool {
    let c = s[i];
    if is_lower_alnum(c) {
        true
    } else if c == '_' {
        &&& 0 < i && i + 1 < s.len()
        &&& s[i - 1] != '-' && s[i + 1] != '-'
        &&& !(s[i - 1] == '_' && s[i + 1] == '_')
    } else if c == '-' {
        &&& 0 < i && i + 1 < s.len()
        &&& s[i - 1] != '_' && s[i + 1] != '_'
    } else {
        false
    }
}

/// The name grammar: non-empty runs of lowercase alphanumerics joined by
/// interior separators, where a separator is `_`, `__` or one or more `-`.
pub open spec fn valid_name(s: Seq<char>) -> bool {
    s.len() > 0 && forall|i: int| 0 <= i < s.len() ==> valid_name_char_at(s, i)
}

/// A name never contains a dot, which makes the qualified
/// `<repository>.<problem>` form decomposable.
pub proof fn lemma_valid_name_no_dot(s: Seq<char>, i: int)
    requires
        valid_name(s),
        0 <= i < s.len(),
    ensures
        s[i] != '.',
{
    assert(valid_name_char_at(s, i));
}

/// Checks a string against the name grammar.
pub fn check_name(s: &str) -> (r: bool)
    ensures
        r == valid_name(s@),
{
    let len = s.unicode_len();
    if len == 0 {
        return false;
    }
    let mut i: usize = 0;
    while i < len
        invariant
            0 <= i <= len,
            len == s@.len(),
            len > 0,
            forall|j: int| 0 <= j < i ==> valid_name_char_at(s@, j),
        decreases len - i,
    {
        let c = s.get_char(i);
        let u = c as u32;
        let alnum = ('a' as u32 <= u && u <= 'z' as u32) || ('0' as u32 <= u && u <= '9' as u32);
        proof {
            assert(alnum == is_lower_alnum(s@[i as int]));
        }
        if !alnum {
            if c != '_' && c != '-' {
                proof {
                    assert(!valid_name_char_at(s@, i as int));
                }
                return false;
            }
            if i == 0 || i + 1 >= len {
                proof {
                    assert(!valid_name_char_at(s@, i as int));
                }
                return false;
            }
            let prev = s.get_char(i - 1);
            let next = s.get_char(i + 1);
            proof {
                assert(prev == s@[i as int - 1] && next == s@[i as int + 1]);
            }
            if c == '_' {
                if prev == '-' || next == '-' {
                    proof {
                        assert(!valid_name_char_at(s@, i as int));
                    }
                    return false;
                }
                if prev == '_' && next == '_' {
                    proof {
                        assert(!valid_name_char_at(s@, i as int));
                    }
                    return false;
                }
            } else {
                if prev == '_' || next == '_' {
                    proof {
                        assert(!valid_name_char_at(s@, i as int));
                    }
                    return false;
                }
            }
        }
        i += 1;
    }
    true
}

/// A validated repository or problem identifier.
#[derive(Debug)]
pub struct NameString {
    inner: String,
}

impl View for NameString {
    type V = Seq<char>;

    closed spec fn view(&self) -> Seq<char> {
        self.inner@
    }
}

impl Clone for NameString {
    /// A clone is the same name.
    fn clone(&self) -> (r: Self)
        ensures
            r == *self,
            r@ == self@,
    {
        proof {
            use_type_invariant(self);
        }
        NameString { inner: self.inner.clone() }
    }
}

impl NameString {
    #[verifier::type_invariant]
    spec fn type_inv(&self) -> bool {
        valid_name(self.inner@)
    }

    /// Validates `value` against the name grammar; rejected strings give
    /// `InvalidName`.
    pub fn try_from(value: &str) -> (r: Result<NameString, SomaError>)
        ensures
            match r {
                Ok(n) => n@ == value@ && valid_name(value@),
                Err(e) => e == SomaError::InvalidName && !valid_name(value@),
            },
    {
        if check_name(value) {
            Ok(NameString { inner: String::from_str(value) })
        } else {
            Err(SomaError::InvalidName)
        }
    }

    /// Validates an owned string, keeping it on success.
    pub fn try_from_string(value: String) -> (r: Result<NameString, SomaError>)
        ensures
            match r {
                Ok(n) => n@ == value@ && valid_name(value@),
                Err(e) => e == SomaError::InvalidName && !valid_name(value@),
            },
    {
        if check_name(value.as_str()) {
            Ok(NameString { inner: value })
        } else {
            Err(SomaError::InvalidName)
        }
    }

    /// The name as a string slice. The returned text satisfies the grammar:
    /// every held value was validated at construction.
    pub fn as_str(&self) -> (r: &str)
        ensures
            r@ == self@,
            valid_name(self@),
    {
        proof {
            use_type_invariant(self);
        }
        self.inner.as_str()
    }
}

impl PartialEq for NameString {
    fn eq(&self, other: &NameString) -> (r: bool)
        ensures
            r == (self@ == other@),
    {
        crate::strutil::str_eq(self.inner.as_str(), other.inner.as_str())
    }
}

impl vstd::std_specs::cmp::PartialEqSpecImpl for NameString {
    open spec fn obeys_eq_spec() -> bool {
        true
    }

    open spec fn eq_spec(&self, other: &NameString) -> bool {
        self@ == other@
    }
}

impl PartialEq<str> for NameString {
    fn eq(&self, other: &str) -> (r: bool)
        ensures
            r == (self@ == other@),
    {
        crate::strutil::str_eq(self.inner.as_str(), other)
    }
}

impl vstd::std_specs::cmp::PartialEqSpecImpl<str> for NameString {
    open spec fn obeys_eq_spec() -> bool {
        true
    }

    open spec fn eq_spec(&self, other: &str) -> bool {
        self@ == other@
    }
}

impl PartialEq<NameString> for str {
    fn eq(&self, other: &NameString) -> (r: bool)
        ensures
            r == (self@ == other@),
    {
        crate::strutil::str_eq(self, other.inner.as_str())
    }
}

impl vstd::std_specs::cmp::PartialEqSpecImpl<NameString> for str {
    open spec fn obeys_eq_spec() -> bool {
        true
    }

    open spec fn eq_spec(&self, other: &NameString) -> bool {
        self@ == other@
    }
}

impl PartialEq<String> for NameString {
    fn eq(&self, other: &String) -> (r: bool)
        ensures
            r == (self@ == other@),
    {
        crate::strutil::str_eq(self.inner.as_str(), other.as_str())
    }
}

impl vstd::std_specs::cmp::PartialEqSpecImpl<String> for NameString {
    open spec fn obeys_eq_spec() -> bool {
        true
    }

    open spec fn eq_spec(&self, other: &String) -> bool {
        self@ == other@
    }
}

impl PartialEq<NameString> for String {
    fn eq(&self, other: &NameString) -> (r: bool)
        ensures
            r == (self@ == other@),
    {
        crate::strutil::str_eq(self.as_str(), other.inner.as_str())
    }
}

impl vstd::std_specs::cmp::PartialEqSpecImpl<NameString> for String {
    open spec fn obeys_eq_spec() -> bool {
        true
    }

    open spec fn eq_spec(&self, other: &NameString) -> bool {
        self@ == other@
    }
}

} // verus!
