//! The data the tool works over: commits, tags, and the outcome of
//! resolving a user reference.

use vstd::prelude::*;

verus! {

/// One commit of the repository history. The fetched list holds these
/// newest first.
pub struct CommitRecord {
    /// Full hex commit identifier.
    pub sha: String,
    /// Full commit message; only its first line is displayed.
    pub message: String,
    /// Login of the author, when the hosting service reports one.
    pub author_login: Option<String>,
}

/// One tag of the repository.
pub struct TagRecord {
    /// The tag's name, as a user would type it.
    pub name: String,
    /// The commit the tag points at.
    pub target_sha: String,
}

/// How a user reference was resolved against the tag list.
pub enum Resolution {
    /// The reference named a tag; holds the tag's target commit SHA.
    FromTag(String),
    /// No tag carried the name; the reference is kept as it came, taken
    /// to be a SHA or SHA prefix.
    Passthrough(String),
}

impl Resolution {
    /// The string to search the commit history for.
    pub open spec fn spec_sha(&self) -> Seq<char> {
        match self {
            Resolution::FromTag(s) => s@,
            Resolution::Passthrough(s) => s@,
        }
    }

    /// The string to search the commit history for.
    pub fn sha(&self) -> (r: &String)
        ensures
            r@ == self.spec_sha(),
    {
        match self {
            Resolution::FromTag(s) => s,
            Resolution::Passthrough(s) => s,
        }
    }
}

} // verus!
