//! Appending the fetched diff — or the report of its failure — to the
//! display lines of a commit range.

use vstd::prelude::*;
use vstd::string::*;
use crate::text::{spec_decimal, spec_lines, split_lines, u64_to_decimal};

verus! {

/// What the diff fetch produced: the diff text, or one of the three
/// failure classes — the request could not be made at all, it answered
/// with a failure status, or its body was not text.
pub enum DiffFetch {
    /// The fetched unified diff text.
    Text(String),
    /// The request could not be sent; the error's description.
    RequestError(String),
    /// The request answered with a failure status; its description.
    StatusError(String),
    /// The response body was not valid text; the error's description.
    DecodeError(String),
}

/// The single diagnostic line each failure class is reported with.
pub open spec fn failure_line(f: DiffFetch) -> Seq<char>
    recommends
        !(f is Text),
{
    match f {
        DiffFetch::Text(_) => Seq::empty(),
        DiffFetch::RequestError(e) => "  Could not send the diff request: "@ + e@,
        DiffFetch::StatusError(e) => "  Diff request failed: "@ + e@,
        DiffFetch::DecodeError(e) => "  Could not read the diff response: "@ + e@,
    }
}

/// The display lines of a fetched diff: an introductory line, the
/// diff's own lines indented — at most 50 of them — and, only when
/// lines were cut, one closing line counting the rest.
pub open spec fn diff_section(text: Seq<char>) -> Seq<Seq<char>> {
    let ls = spec_lines(text);
    let shown = if ls.len() <= 50 {
        ls.len() as int
    } else {
        50
    };
    seq!["  Diff:"@] + Seq::new(shown as nat, |k: int| "    "@ + ls[k]) + (if ls.len() > 50 {
        seq!["    ... ("@ + spec_decimal(ls.len() - 50) + " more lines in diff)"@]
    } else {
        Seq::<Seq<char>>::empty()
    })
}

/// Append what the diff fetch produced to the lines collected so far.
///
/// The lines already collected are never touched. Fetched text appends
/// the capped diff section: when the diff holds more than 50 lines,
/// exactly 50 are shown and one closing line counts the omitted rest;
/// when it holds at most 50, all are shown and no closing line follows.
/// Each failure appends exactly one diagnostic line in the section's
/// place.
pub fn append_diff(out: &mut Vec<String>, fetch: &DiffFetch)
    ensures
        (match fetch {
            DiffFetch::Text(t) => final(out).deep_view() == old(out).deep_view() + diff_section(
                t@,
            ),
            _ => final(out).deep_view() == old(out).deep_view().push(failure_line(*fetch)),
        }),
{
    let ghost base = out@;
    match fetch {
        DiffFetch::Text(t) => {
            let ls = split_lines(t.as_str());
            out.push("  Diff:".to_owned());
            let total = ls.len();
            let shown = if total < 50 {
                total
            } else {
                50
            };
            let mut k: usize = 0;
            while k < shown
                invariant
                    k <= shown,
                    shown <= total,
                    total == ls@.len(),
                    ls.deep_view() == spec_lines(t@),
                    out@.len() == base.len() + 1 + k,
                    forall|i: int| 0 <= i < base.len() ==> #[trigger] out@[i] == base[i],
                    out@[base.len() as int]@ == "  Diff:"@,
                    forall|j: int|
                        0 <= j < k ==> #[trigger] out@[base.len() + 1 + j]@ == "    "@
                            + spec_lines(t@)[j],
                decreases shown - k,
            {
                let mut line = "    ".to_owned();
                line.append(ls[k].as_str());
                proof {
                    assert(ls@[k as int]@ == ls.deep_view()[k as int]);
                }
                out.push(line);
                k += 1;
            }
            if total > 50 {
                let mut closing = "    ... (".to_owned();
                let count = u64_to_decimal((total - 50) as u64);
                closing.append(count.as_str());
                closing.append(" more lines in diff)");
                assert(closing@ =~= "    ... ("@ + spec_decimal(total - 50) + " more lines in diff)"@);
                out.push(closing);
            }
            proof {
                let target = old(out).deep_view() + diff_section(t@);
                assert(out@.len() == target.len());
                assert forall|i: int| 0 <= i < out@.len() implies out.deep_view()[i]
                    == target[i] by {
                    if i < base.len() {
                    } else if i == base.len() {
                    } else if i < base.len() + 1 + shown {
                        assert(out@[base.len() + 1 + (i - base.len() - 1)]@ == "    "@
                            + spec_lines(t@)[i - base.len() - 1]);
                    }
                }
                assert(out.deep_view() =~= target);
            }
        },
        DiffFetch::RequestError(e) => {
            let mut l = "  Could not send the diff request: ".to_owned();
            l.append(e.as_str());
            out.push(l);
            assert(out.deep_view() =~= old(out).deep_view().push(failure_line(*fetch)));
        },
        DiffFetch::StatusError(e) => {
            let mut l = "  Diff request failed: ".to_owned();
            l.append(e.as_str());
            out.push(l);
            assert(out.deep_view() =~= old(out).deep_view().push(failure_line(*fetch)));
        },
        DiffFetch::DecodeError(e) => {
            let mut l = "  Could not read the diff response: ".to_owned();
            l.append(e.as_str());
            out.push(l);
            assert(out.deep_view() =~= old(out).deep_view().push(failure_line(*fetch)));
        },
    }
}

} // verus!
