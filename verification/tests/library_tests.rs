use releasenotes::compose::join_lines;
use releasenotes::diff::{append_diff, DiffFetch};
use releasenotes::model::{CommitRecord, Resolution, TagRecord};
use releasenotes::range::{extract_range, format_commit_line, render_not_found, RangeOutcome};
use releasenotes::resolve::resolve_reference;
use releasenotes::text::{split_lines, u64_to_decimal};

fn commit(sha: &str, message: &str, author: Option<&str>) -> CommitRecord {
    CommitRecord {
        sha: sha.to_string(),
        message: message.to_string(),
        author_login: author.map(|a| a.to_string()),
    }
}

fn tag(name: &str, target: &str) -> TagRecord {
    TagRecord {
        name: name.to_string(),
        target_sha: target.to_string(),
    }
}

fn history() -> Vec<CommitRecord> {
    vec![
        commit("c3333333", "Third commit", Some("carol")),
        commit("c2222222", "Second commit", Some("bob")),
        commit("c1111111", "First commit", Some("alice")),
    ]
}

#[test]
fn test_module_compiles() {
    assert!(true);
}

#[test]
fn test_range_includes_all_regardless_of_order() {
    let commits = history();
    let fwd = match extract_range(&commits, "c1111111", "c3333333", "c1111111", "c3333333") {
        RangeOutcome::Found(s) => s,
        RangeOutcome::NotFound => panic!("expected a located range"),
    };
    assert_eq!(fwd.lines.len(), 5);
    assert_eq!(
        fwd.lines[0],
        "Commits between c1111111 (c1111111) and c3333333 (c3333333):"
    );
    assert_eq!(fwd.lines[1], "- c3333333 by carol: Third commit");
    assert_eq!(fwd.lines[2], "- c2222222 by bob: Second commit");
    assert_eq!(fwd.lines[3], "- c1111111 by alice: First commit");
    assert_eq!(
        fwd.lines[4],
        "\nDiff between c1111111 (c3333333) and c3333333 (c1111111):"
    );
    assert_eq!(fwd.head_sha, "c3333333");
    assert_eq!(fwd.base_sha, "c1111111");

    let rev = match extract_range(&commits, "c3333333", "c1111111", "c3333333", "c1111111") {
        RangeOutcome::Found(s) => s,
        RangeOutcome::NotFound => panic!("expected a located range"),
    };
    assert_eq!(&rev.lines[1..4], &fwd.lines[1..4]);
    assert_eq!(rev.head_sha, "c3333333");
    assert_eq!(rev.base_sha, "c1111111");
}

#[test]
fn test_prefix_match_single_commit() {
    let commits = vec![
        commit("ffff0000aaaa", "Newest", Some("carol")),
        commit("abc123ef5678", "Middle", Some("bob")),
        commit("000011112222", "Oldest", Some("alice")),
    ];
    let s = match extract_range(
        &commits,
        "abc123ef",
        "abc123ef5678",
        "abc123ef",
        "abc123ef5678",
    ) {
        RangeOutcome::Found(s) => s,
        RangeOutcome::NotFound => panic!("expected a located range"),
    };
    assert_eq!(s.lines.len(), 3);
    assert_eq!(s.lines[1], "- abc123ef5678 by bob: Middle");
    assert_eq!(s.base_sha, "abc123ef5678");
    assert_eq!(s.head_sha, "abc123ef5678");
}

#[test]
fn test_same_reference_single_commit() {
    let commits = history();
    let s = match extract_range(&commits, "c2222222", "c2222222", "c2222222", "c2222222") {
        RangeOutcome::Found(s) => s,
        RangeOutcome::NotFound => panic!("expected a located range"),
    };
    assert_eq!(s.lines.len(), 3);
    assert_eq!(s.lines[1], "- c2222222 by bob: Second commit");
    assert_eq!(s.base_sha, "c2222222");
    assert_eq!(s.head_sha, "c2222222");
}

#[test]
fn test_unresolvable_reference_message_only() {
    let commits = history();
    let r = extract_range(&commits, "nonexistent", "c2222222", "nonexistent", "c2222222");
    assert!(matches!(r, RangeOutcome::NotFound));
    let lines = render_not_found();
    assert_eq!(lines.len(), 1);
    assert_eq!(
        lines[0],
        "Could not find one or both of the specified commit references."
    );
}

#[test]
fn test_diff_truncated_at_fifty_lines() {
    let mut text = String::new();
    for i in 0..120 {
        text.push_str(&format!("line {}\n", i));
    }
    let mut out = vec!["header".to_string()];
    append_diff(&mut out, &DiffFetch::Text(text));
    assert_eq!(out.len(), 1 + 1 + 50 + 1);
    assert_eq!(out[0], "header");
    assert_eq!(out[1], "  Diff:");
    assert_eq!(out[2], "    line 0");
    assert_eq!(out[51], "    line 49");
    assert_eq!(out[52], "    ... (70 more lines in diff)");
}

#[test]
fn test_diff_fifty_lines_not_truncated() {
    let mut text = String::new();
    for i in 0..50 {
        text.push_str(&format!("line {}\n", i));
    }
    let mut out: Vec<String> = Vec::new();
    append_diff(&mut out, &DiffFetch::Text(text));
    assert_eq!(out.len(), 1 + 50);
    assert_eq!(out[0], "  Diff:");
    assert_eq!(out[50], "    line 49");
}

#[test]
fn test_diff_fifty_one_lines_truncated_by_one() {
    let mut text = String::new();
    for i in 0..51 {
        text.push_str(&format!("line {}\n", i));
    }
    let mut out: Vec<String> = Vec::new();
    append_diff(&mut out, &DiffFetch::Text(text));
    assert_eq!(out.len(), 1 + 50 + 1);
    assert_eq!(out[51], "    ... (1 more lines in diff)");
}

#[test]
fn test_diff_empty_text() {
    let mut out = vec!["kept".to_string()];
    append_diff(&mut out, &DiffFetch::Text(String::new()));
    assert_eq!(out, vec!["kept".to_string(), "  Diff:".to_string()]);
}

#[test]
fn test_diff_failure_keeps_commit_lines() {
    let commits = history();
    let mut s = match extract_range(&commits, "c1111111", "c3333333", "c1111111", "c3333333") {
        RangeOutcome::Found(s) => s,
        RangeOutcome::NotFound => panic!("expected a located range"),
    };
    let before = s.lines.clone();
    append_diff(
        &mut s.lines,
        &DiffFetch::RequestError("connection refused".to_string()),
    );
    assert_eq!(&s.lines[..before.len()], &before[..]);
    assert_eq!(s.lines.len(), before.len() + 1);
    assert_eq!(
        s.lines[before.len()],
        "  Could not send the diff request: connection refused"
    );
}

#[test]
fn test_diff_status_failure_line() {
    let mut out = vec!["kept".to_string()];
    append_diff(&mut out, &DiffFetch::StatusError("404 Not Found".to_string()));
    assert_eq!(out.len(), 2);
    assert_eq!(out[0], "kept");
    assert_eq!(out[1], "  Diff request failed: 404 Not Found");
}

#[test]
fn test_diff_decode_failure_line() {
    let mut out = vec!["kept".to_string()];
    append_diff(
        &mut out,
        &DiffFetch::DecodeError("invalid utf-8 sequence".to_string()),
    );
    assert_eq!(out.len(), 2);
    assert_eq!(out[1], "  Could not read the diff response: invalid utf-8 sequence");
}

#[test]
fn test_resolve_tag_match() {
    let tags = vec![tag("v1.0", "aaa111"), tag("v2.0", "bbb222")];
    match resolve_reference(&tags, "v2.0") {
        Resolution::FromTag(sha) => assert_eq!(sha, "bbb222"),
        Resolution::Passthrough(_) => panic!("expected a tag match"),
    }
}

#[test]
fn test_resolve_passthrough() {
    let tags = vec![tag("v1.0", "aaa111")];
    let r = resolve_reference(&tags, "deadbeef");
    assert_eq!(r.sha(), "deadbeef");
    assert!(matches!(r, Resolution::Passthrough(_)));
}

#[test]
fn test_resolve_first_tag_wins() {
    let tags = vec![tag("v1.0", "first1"), tag("v1.0", "second")];
    match resolve_reference(&tags, "v1.0") {
        Resolution::FromTag(sha) => assert_eq!(sha, "first1"),
        Resolution::Passthrough(_) => panic!("expected a tag match"),
    }
}

#[test]
fn test_commit_line_placeholders() {
    let c = commit("abc", "", None);
    assert_eq!(format_commit_line(&c), "- abc by Unknown: No message");
}

#[test]
fn test_commit_line_first_message_line_only() {
    let c = commit("abc", "Subject line\r\nBody text", Some("dev"));
    assert_eq!(format_commit_line(&c), "- abc by dev: Subject line");
}

#[test]
fn test_split_lines_handles_terminators() {
    assert_eq!(
        split_lines("a\nb\r\nc"),
        vec!["a".to_string(), "b".to_string(), "c".to_string()]
    );
    assert_eq!(split_lines("a\n"), vec!["a".to_string()]);
    assert_eq!(split_lines(""), Vec::<String>::new());
    assert_eq!(split_lines("x\r"), vec!["x\r".to_string()]);
}

#[test]
fn test_join_lines() {
    assert_eq!(
        join_lines(&vec!["a".to_string(), "b".to_string()]),
        "a\nb"
    );
    assert_eq!(join_lines(&Vec::new()), "");
    assert_eq!(join_lines(&vec!["only".to_string()]), "only");
}

#[test]
fn test_decimal_rendering() {
    assert_eq!(u64_to_decimal(0), "0");
    assert_eq!(u64_to_decimal(7), "7");
    assert_eq!(u64_to_decimal(70), "70");
    assert_eq!(u64_to_decimal(120), "120");
    assert_eq!(u64_to_decimal(10050), "10050");
}
