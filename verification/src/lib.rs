//! Verified core of a release-notes tool.
//!
//! The library resolves user-supplied references (tag names, full SHAs or
//! SHA prefixes) against a repository's tag list, slices an inclusive
//! commit range out of a newest-first commit history, and renders the
//! range — header, one line per commit, and a diff capped at a fixed
//! number of lines — as plain display lines. All network and file I/O
//! stays outside the library; callers hand in the fetched tag list,
//! commit list and diff text as plain values.

pub mod compose;
pub mod diff;
pub mod model;
pub mod range;
pub mod resolve;
pub mod text;
