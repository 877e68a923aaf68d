//! The template sets a build renders. Rendering itself — a pure function of
//! (template text, context) — is a collaborator of the embedding binary,
//! which holds the template texts; the library fixes which files a set
//! renders into the build context.

use vstd::prelude::*;
use vstd::string::*;

verus! {

/// A template set for one kind of problem.
#[derive(Clone, Copy, Debug, PartialEq, Eq, Structural)]
pub enum Templates {
    /// The set for a binary problem: the image descriptor and the entry
    /// scripts.
    Binary,
}

impl Templates {
    /// The context-relative files this set renders into, in render order.
    pub fn file_names(&self) -> (r: Vec<String>)
        ensures
            r@.len() == 3,
            r@[0]@ == "Dockerfile"@,
            r@[1]@ == ".soma/start.sh"@,
            r@[2]@ == ".soma/configure_permissions.sh"@,
    {
        let mut out: Vec<String> = Vec::new();
        match self {
            Templates::Binary => {
                out.push(String::from_str("Dockerfile"));
                out.push(String::from_str(".soma/start.sh"));
                out.push(String::from_str(".soma/configure_permissions.sh"));
            },
        }
        out
    }
}

} // verus!
