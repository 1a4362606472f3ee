//! Locating two references in a newest-first commit history and
//! rendering the inclusive range between them.

use vstd::prelude::*;
use vstd::string::*;
use crate::model::CommitRecord;
use crate::text::{find_newline, is_char_prefix, lemma_first_newline_unique, ref_matches,
    spec_lines, strip_cr};

verus! {

/// Index of the first (newest) commit whose SHA the query names, if
/// any. The first match wins; an ambiguous prefix is not flagged.
pub open spec fn first_commit_match(commits: Seq<CommitRecord>, q: Seq<char>) -> Option<int>
    decreases commits.len(),
{
    if commits.len() == 0 {
        None
    } else if ref_matches(q, commits[0].sha@) {
        Some(0int)
    } else {
        match first_commit_match(commits.drop_first(), q) {
            Some(i) => Some(i + 1),
            None => None,
        }
    }
}

pub proof fn lemma_first_commit_match(commits: Seq<CommitRecord>, q: Seq<char>)
    ensures
        match first_commit_match(commits, q) {
            Some(i) => 0 <= i < commits.len() && ref_matches(q, commits[i].sha@) && forall|j: int|
                0 <= j < i ==> !ref_matches(q, commits[j].sha@),
            None => forall|j: int| 0 <= j < commits.len() ==> !ref_matches(q, commits[j].sha@),
        },
    decreases commits.len(),
{
    if commits.len() > 0 && !ref_matches(q, commits[0].sha@) {
        lemma_first_commit_match(commits.drop_first(), q);
        match first_commit_match(commits.drop_first(), q) {
            Some(i) => {
                assert(commits[i + 1] == commits.drop_first()[i]);
                assert forall|j: int| 0 <= j < i + 1 implies !ref_matches(q, commits[j].sha@) by {
                    if j > 0 {
                        assert(commits[j] == commits.drop_first()[j - 1]);
                    }
                }
            },
            None => {
                assert forall|j: int| 0 <= j < commits.len() implies !ref_matches(
                    q,
                    commits[j].sha@,
                ) by {
                    if j > 0 {
                        assert(commits[j] == commits.drop_first()[j - 1]);
                    }
                }
            },
        }
    }
}

/// A position the query matches, with no match before it, is the first
/// match; the length, when no position matches, means there is none.
pub proof fn lemma_first_commit_match_unique(commits: Seq<CommitRecord>, q: Seq<char>, i: int)
    requires
        0 <= i <= commits.len(),
        i < commits.len() ==> ref_matches(q, commits[i].sha@),
        forall|j: int| 0 <= j < i ==> !ref_matches(q, commits[j].sha@),
    ensures
        i < commits.len() ==> first_commit_match(commits, q) == Some(i),
        i == commits.len() ==> first_commit_match(commits, q) is None,
    decreases commits.len(),
{
    if commits.len() > 0 && !ref_matches(q, commits[0].sha@) {
        assert(i > 0);
        lemma_first_commit_match_unique(commits.drop_first(), q, i - 1);
    }
}

/// Position of the first (newest) commit whose SHA equals `q` or has
/// `q` as a prefix.
pub fn find_commit(commits: &Vec<CommitRecord>, q: &str) -> (r: Option<usize>)
    ensures
        match r {
            Some(i) => first_commit_match(commits@, q@) == Some(i as int),
            None => first_commit_match(commits@, q@) is None,
        },
{
    let n = commits.len();
    let mut i: usize = 0;
    while i < n
        invariant
            i <= n,
            n == commits@.len(),
            forall|j: int| 0 <= j < i ==> !ref_matches(q@, commits@[j].sha@),
        decreases n - i,
    {
        if is_char_prefix(q, commits[i].sha.as_str()) {
            proof {
                lemma_first_commit_match_unique(commits@, q@, i as int);
            }
            return Some(i);
        }
        i += 1;
    }
    proof {
        lemma_first_commit_match_unique(commits@, q@, n as int);
    }
    None
}

/// The author as displayed: the login, or a placeholder when the
/// hosting service reports none.
pub open spec fn author_display(c: CommitRecord) -> Seq<char> {
    match c.author_login {
        Some(a) => a@,
        None => "Unknown"@,
    }
}

/// The message as displayed: its first line, or a placeholder when the
/// message is empty.
pub open spec fn message_display(c: CommitRecord) -> Seq<char> {
    if c.message@.len() == 0 {
        "No message"@
    } else {
        spec_lines(c.message@)[0]
    }
}

/// The display line of one commit of the range.
pub open spec fn commit_line(c: CommitRecord) -> Seq<char> {
    "- "@ + c.sha@ + " by "@ + author_display(c) + ": "@ + message_display(c)
}

/// The header naming both references and their resolved SHAs.
pub open spec fn header_line(
    from: Seq<char>,
    from_sha: Seq<char>,
    to: Seq<char>,
    to_sha: Seq<char>,
) -> Seq<char> {
    "Commits between "@ + from + " ("@ + from_sha + ") and "@ + to + " ("@ + to_sha + "):"@
}

/// The line introducing the diff, naming the head (newest) and base
/// (oldest) SHAs of the range.
pub open spec fn diff_header_line(
    from: Seq<char>,
    head_sha: Seq<char>,
    to: Seq<char>,
    base_sha: Seq<char>,
) -> Seq<char> {
    "\nDiff between "@ + from + " ("@ + head_sha + ") and "@ + to + " ("@ + base_sha + "):"@
}

/// The normalized inclusive index range between the first matches of
/// the two references: the smaller index (the newer commit) first.
pub open spec fn range_bounds(
    commits: Seq<CommitRecord>,
    from_sha: Seq<char>,
    to_sha: Seq<char>,
) -> (int, int)
    recommends
        first_commit_match(commits, from_sha) is Some,
        first_commit_match(commits, to_sha) is Some,
{
    let fi = first_commit_match(commits, from_sha)->0;
    let ti = first_commit_match(commits, to_sha)->0;
    (if fi <= ti { fi } else { ti }, if fi <= ti { ti } else { fi })
}

/// The display lines of the commits of the normalized range, one per
/// commit, in the history's newest-first order.
pub open spec fn range_commit_lines(
    commits: Seq<CommitRecord>,
    from_sha: Seq<char>,
    to_sha: Seq<char>,
) -> Seq<Seq<char>>
    recommends
        first_commit_match(commits, from_sha) is Some,
        first_commit_match(commits, to_sha) is Some,
{
    let b = range_bounds(commits, from_sha, to_sha);
    Seq::new((b.1 - b.0 + 1) as nat, |k: int| commit_line(commits[b.0 + k]))
}

/// The rendered range: display lines, and the base/head pair for a
/// compare-diff request.
pub struct RangeSummary {
    /// Header, one line per commit of the range, and the diff header.
    pub lines: Vec<String>,
    /// SHA of the oldest commit of the range: the base of the diff.
    pub base_sha: String,
    /// SHA of the newest commit of the range: the head of the diff.
    pub head_sha: String,
}

/// What range extraction produced: the summary of a located range, or
/// the report that a reference was not found.
pub enum RangeOutcome {
    /// Either reference matched no commit. A normal outcome, reported
    /// as a single informational line, not a fault.
    NotFound,
    /// Both references were located.
    Found(RangeSummary),
}

fn message_first_line(m: &str) -> (r: String)
    ensures
        r@ == (if m@.len() == 0 {
            "No message"@
        } else {
            spec_lines(m@)[0]
        }),
{
    let n = m.unicode_len();
    if n == 0 {
        return "No message".to_owned();
    }
    let i = find_newline(m, 0);
    proof {
        lemma_first_newline_unique(m@, i as int);
    }
    if i == n {
        return m.to_owned();
    }
    let line = if i > 0 && m.get_char(i - 1) == '\r' {
        let l = m.substring_char(0, i - 1);
        assert(l@ =~= strip_cr(m@.take(i as int))) by {
            assert(m@.take(i as int).last() == m@[i - 1]);
            assert(m@.take(i as int).drop_last() =~= m@.subrange(0, i - 1));
        }
        l
    } else {
        let l = m.substring_char(0, i);
        assert(l@ =~= strip_cr(m@.take(i as int))) by {
            if i > 0 {
                assert(m@.take(i as int).last() == m@[i - 1]);
            }
            assert(m@.take(i as int) =~= m@.subrange(0, i as int));
        }
        l
    };
    line.to_owned()
}

/// The display line of one commit: its SHA, its author or a
/// placeholder, and the first line of its message or a placeholder.
pub fn format_commit_line(c: &CommitRecord) -> (r: String)
    ensures
        r@ == commit_line(*c),
{
    let mut s = "- ".to_owned();
    s.append(c.sha.as_str());
    s.append(" by ");
    match &c.author_login {
        Some(a) => s.append(a.as_str()),
        None => s.append("Unknown"),
    }
    s.append(": ");
    let m = message_first_line(c.message.as_str());
    s.append(m.as_str());
    assert(s@ =~= commit_line(*c));
    s
}

fn format_header(from: &str, from_sha: &str, to: &str, to_sha: &str) -> (r: String)
    ensures
        r@ == header_line(from@, from_sha@, to@, to_sha@),
{
    let mut s = "Commits between ".to_owned();
    s.append(from);
    s.append(" (");
    s.append(from_sha);
    s.append(") and ");
    s.append(to);
    s.append(" (");
    s.append(to_sha);
    s.append("):");
    assert(s@ =~= header_line(from@, from_sha@, to@, to_sha@));
    s
}

fn format_diff_header(from: &str, head_sha: &str, to: &str, base_sha: &str) -> (r: String)
    ensures
        r@ == diff_header_line(from@, head_sha@, to@, base_sha@),
{
    let mut s = "\nDiff between ".to_owned();
    s.append(from);
    s.append(" (");
    s.append(head_sha);
    s.append(") and ");
    s.append(to);
    s.append(" (");
    s.append(base_sha);
    s.append("):");
    assert(s@ =~= diff_header_line(from@, head_sha@, to@, base_sha@));
    s
}

/// The whole output reported when a reference matches no commit:
/// exactly one informational line, no commit list and no diff section.
pub fn render_not_found() -> (r: Vec<String>)
    ensures
        r@.len() == 1,
        r@[0]@ == "Could not find one or both of the specified commit references."@,
{
    let mut r: Vec<String> = Vec::new();
    r.push("Could not find one or both of the specified commit references.".to_owned());
    r
}

/// Locate both references in the newest-first history and render the
/// inclusive range between them.
///
/// `from_ref` and `to_ref` are the references as the user gave them;
/// `from_sha` and `to_sha` are what resolution made of them. The
/// outcome is `NotFound` exactly when either resolved reference matches
/// no commit. Otherwise the summary holds the header, one display line
/// per commit of the normalized range (newest first), and the diff
/// header; its base and head name the oldest and the newest commit of
/// the range.
pub fn extract_range(
    commits: &Vec<CommitRecord>,
    from_ref: &str,
    to_ref: &str,
    from_sha: &str,
    to_sha: &str,
) -> (r: RangeOutcome)
    ensures
        r is NotFound <==> (first_commit_match(commits@, from_sha@) is None
            || first_commit_match(commits@, to_sha@) is None),
        (r matches RangeOutcome::Found(s) ==> {
            let b = range_bounds(commits@, from_sha@, to_sha@);
            &&& s.lines.deep_view() == seq![
                header_line(from_ref@, from_sha@, to_ref@, to_sha@),
            ] + range_commit_lines(commits@, from_sha@, to_sha@) + seq![
                diff_header_line(from_ref@, commits@[b.0].sha@, to_ref@, commits@[b.1].sha@),
            ]
            &&& s.base_sha@ == commits@[b.1].sha@
            &&& s.head_sha@ == commits@[b.0].sha@
        }),
{
    let fi_opt = find_commit(commits, from_sha);
    let ti_opt = find_commit(commits, to_sha);
    let (fi, ti): (usize, usize) = match (fi_opt, ti_opt) {
        (Some(f), Some(t)) => (f, t),
        _ => {
            return RangeOutcome::NotFound;
        },
    };
    proof {
        lemma_first_commit_match(commits@, from_sha@);
        lemma_first_commit_match(commits@, to_sha@);
    }
    let (start, end): (usize, usize) = if fi <= ti {
        (fi, ti)
    } else {
        (ti, fi)
    };
    let ghost b = range_bounds(commits@, from_sha@, to_sha@);
    assert(b.0 == start && b.1 == end);
    let n = commits.len();
    let mut lines: Vec<String> = Vec::new();
    lines.push(format_header(from_ref, from_sha, to_ref, to_sha));
    let mut k = start;
    while k <= end
        invariant
            start <= k <= end + 1,
            end < n,
            n == commits@.len(),
            lines@.len() == 1 + k - start,
            lines@[0]@ == header_line(from_ref@, from_sha@, to_ref@, to_sha@),
            forall|t: int| 0 <= t < k - start ==> #[trigger] lines@[1 + t]@ == commit_line(
                commits@[start + t],
            ),
        decreases end + 1 - k,
    {
        lines.push(format_commit_line(&commits[k]));
        k += 1;
    }
    let head_sha = commits[start].sha.clone();
    let base_sha = commits[end].sha.clone();
    let ghost pre = lines@;
    lines.push(format_diff_header(from_ref, head_sha.as_str(), to_ref, base_sha.as_str()));
    proof {
        let rhs = seq![header_line(from_ref@, from_sha@, to_ref@, to_sha@)]
            + range_commit_lines(commits@, from_sha@, to_sha@) + seq![
            diff_header_line(from_ref@, commits@[b.0].sha@, to_ref@, commits@[b.1].sha@),
        ];
        assert(lines@.len() == rhs.len());
        assert forall|i: int| 0 <= i < lines@.len() implies lines.deep_view()[i] == rhs[i] by {
            assert(lines@ == pre.push(lines@.last()));
            if i < pre.len() {
                assert(lines@[i] == pre[i]);
            }
            if 1 <= i < lines@.len() - 1 {
                assert(pre[1 + (i - 1)]@ == commit_line(commits@[start + (i - 1)]));
                assert(rhs[i] == range_commit_lines(commits@, from_sha@, to_sha@)[i - 1]);
            }
        }
        assert(lines.deep_view() =~= rhs);
    }
    RangeOutcome::Found(RangeSummary { lines, base_sha, head_sha })
}

/// Ordering law: the produced range does not depend on which reference
/// came first, and it lists commits in the history's own newest-first
/// order — line `k` shows the commit at history index `start + k`.
pub proof fn lemma_range_order(commits: Seq<CommitRecord>, x: Seq<char>, y: Seq<char>)
    requires
        first_commit_match(commits, x) is Some,
        first_commit_match(commits, y) is Some,
    ensures
        range_bounds(commits, x, y) == range_bounds(commits, y, x),
        range_commit_lines(commits, x, y) == range_commit_lines(commits, y, x),
        forall|k: int|
            0 <= k < range_commit_lines(commits, x, y).len()
                ==> #[trigger] range_commit_lines(commits, x, y)[k] == commit_line(
                commits[range_bounds(commits, x, y).0 + k],
            ),
{
    assert(range_commit_lines(commits, x, y) =~= range_commit_lines(commits, y, x));
}

/// Inclusivity law: both endpoint commits stand inside the produced
/// range, and each contributes exactly the line at the position of its
/// own history index — once, since positions map one-to-one to indices.
pub proof fn lemma_range_inclusive(commits: Seq<CommitRecord>, x: Seq<char>, y: Seq<char>)
    requires
        first_commit_match(commits, x) is Some,
        first_commit_match(commits, y) is Some,
    ensures
        range_bounds(commits, x, y).0 <= first_commit_match(commits, x)->0
            <= range_bounds(commits, x, y).1,
        range_bounds(commits, x, y).0 <= first_commit_match(commits, y)->0
            <= range_bounds(commits, x, y).1,
        range_commit_lines(commits, x, y).len() == range_bounds(commits, x, y).1 - range_bounds(
            commits,
            x,
            y,
        ).0 + 1,
        range_commit_lines(commits, x, y)[first_commit_match(commits, x)->0 - range_bounds(
            commits,
            x,
            y,
        ).0] == commit_line(commits[first_commit_match(commits, x)->0]),
        range_commit_lines(commits, x, y)[first_commit_match(commits, y)->0 - range_bounds(
            commits,
            x,
            y,
        ).0] == commit_line(commits[first_commit_match(commits, y)->0]),
{
    lemma_first_commit_match(commits, x);
    lemma_first_commit_match(commits, y);
}

/// Reflexivity law: one reference taken as both endpoints yields a
/// range of exactly one commit — the reference's first match.
pub proof fn lemma_range_reflexive(commits: Seq<CommitRecord>, x: Seq<char>)
    requires
        first_commit_match(commits, x) is Some,
    ensures
        range_bounds(commits, x, x).0 == range_bounds(commits, x, x).1,
        range_commit_lines(commits, x, x).len() == 1,
        range_commit_lines(commits, x, x)[0] == commit_line(
            commits[first_commit_match(commits, x)->0],
        ),
{
    lemma_first_commit_match(commits, x);
}

/// Two references whose first matches coincide — a full SHA and a
/// prefix of it, say — yield a range of exactly that one commit.
pub proof fn lemma_range_single(commits: Seq<CommitRecord>, x: Seq<char>, y: Seq<char>)
    requires
        first_commit_match(commits, x) is Some,
        first_commit_match(commits, x) == first_commit_match(commits, y),
    ensures
        range_commit_lines(commits, x, y).len() == 1,
        range_commit_lines(commits, x, y)[0] == commit_line(
            commits[first_commit_match(commits, x)->0],
        ),
{
    lemma_first_commit_match(commits, x);
}

} // verus!
