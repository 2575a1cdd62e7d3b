use gitpow::commits::{
    normalize_sha, parse_ahead_behind, parse_count_output, parse_rebase_commits, parse_stash_list,
    trimmed_output,
};
use gitpow::commits::is_nonblank;
use gitpow::hunks::parse_hunks;
use gitpow::status::{classify_conflict, parse_conflicts, parse_status, ConflictCause};

#[test]
fn hunk_parsing_two_hunks() {
    let diff = "--- a/f.txt\n+++ b/f.txt\n@@ -1,2 +1,3 @@\n-a\n+b\n+c\n@@ -10,1 +11,2 @@\n context\n+d\n";
    let hunks = parse_hunks(diff);
    assert_eq!(hunks.len(), 2);
    assert_eq!(hunks[0].old_start, 1);
    assert_eq!(hunks[0].old_count, 2);
    assert_eq!(hunks[0].new_start, 1);
    assert_eq!(hunks[0].new_count, 3);
    assert_eq!(hunks[0].line_start, 2);
    assert_eq!(hunks[0].lines, vec!["@@ -1,2 +1,3 @@", "-a", "+b", "+c"]);
    assert_eq!(hunks[1].old_start, 10);
    assert_eq!(hunks[1].old_count, 1);
    assert_eq!(hunks[1].new_start, 11);
    assert_eq!(hunks[1].new_count, 2);
    assert_eq!(hunks[1].line_start, 6);
    // The final newline leaves a trailing empty line in the last hunk.
    assert_eq!(hunks[1].lines, vec!["@@ -10,1 +11,2 @@", " context", "+d", ""]);
}

#[test]
fn hunk_header_counts_default_to_one() {
    let diff = "@@ -5 +7 @@\n-x\n+y";
    let hunks = parse_hunks(diff);
    assert_eq!(hunks.len(), 1);
    assert_eq!(hunks[0].old_start, 5);
    assert_eq!(hunks[0].old_count, 1);
    assert_eq!(hunks[0].new_start, 7);
    assert_eq!(hunks[0].new_count, 1);
}

#[test]
fn malformed_hunk_header_is_skipped() {
    let diff = "@@ not a header\n+orphan\n@@ -1,1 +1,1 @@\n-x\n+y\n";
    let hunks = parse_hunks(diff);
    assert_eq!(hunks.len(), 1);
    assert_eq!(hunks[0].old_start, 1);
    assert_eq!(hunks[0].lines[0], "@@ -1,1 +1,1 @@");
}

#[test]
fn status_conflicted_and_clean_lines() {
    let out = "UU conflicted.txt\nM  clean.txt\n";
    let conflicts = parse_conflicts(out);
    assert!(conflicts.has_conflicts);
    assert_eq!(conflicts.files.len(), 1);
    assert_eq!(conflicts.files[0].path, "conflicted.txt");
    assert_eq!(conflicts.files[0].kind, "both-modified");
}

#[test]
fn status_rename_line() {
    let out = "R  old.txt -> new.txt\n";
    let status = parse_status(out);
    assert_eq!(status.files.len(), 1);
    let f = &status.files[0];
    assert_eq!(f.path, "new.txt");
    assert_eq!(f.old_path.as_deref(), Some("old.txt"));
    assert_eq!(f.kind, "renamed");
    assert_eq!(f.status, "R ");
    assert!(f.staged);
    assert!(!f.unstaged);
}

#[test]
fn status_kinds_and_flags() {
    let out = "A  staged_new.txt\n D unstaged_del.txt\n?? untracked.txt\nMM both.txt\n";
    let status = parse_status(out);
    assert_eq!(status.files.len(), 4);
    assert_eq!(status.files[0].kind, "added");
    assert!(status.files[0].staged && !status.files[0].unstaged);
    assert_eq!(status.files[1].kind, "deleted");
    assert!(!status.files[1].staged && status.files[1].unstaged);
    assert_eq!(status.files[2].kind, "untracked");
    assert!(!status.files[2].staged && !status.files[2].unstaged);
    assert_eq!(status.files[3].kind, "modified");
    assert!(status.files[3].staged && status.files[3].unstaged);
}

#[test]
fn short_and_blank_status_lines_are_skipped() {
    let out = "\nM\nXY\nM  ok.txt\n";
    let status = parse_status(out);
    assert_eq!(status.files.len(), 1);
    assert_eq!(status.files[0].path, "ok.txt");
}

#[test]
fn conflict_pair_classification() {
    assert_eq!(classify_conflict('A', 'A'), Some(ConflictCause::BothAdded));
    assert_eq!(classify_conflict('D', 'D'), Some(ConflictCause::BothDeleted));
    assert_eq!(classify_conflict('U', 'U'), Some(ConflictCause::BothModified));
    assert_eq!(classify_conflict('A', 'U'), Some(ConflictCause::AddedByUs));
    assert_eq!(classify_conflict('U', 'A'), Some(ConflictCause::AddedByThem));
    assert_eq!(classify_conflict('D', 'U'), Some(ConflictCause::DeletedByUs));
    assert_eq!(classify_conflict('U', 'D'), Some(ConflictCause::DeletedByThem));
    assert_eq!(classify_conflict('M', ' '), None);
    assert_eq!(classify_conflict('A', 'M'), None);
}

#[test]
fn conflict_rename_resolves_to_new_path() {
    let out = "UU a.txt -> b.txt\n";
    let conflicts = parse_conflicts(out);
    assert_eq!(conflicts.files.len(), 1);
    assert_eq!(conflicts.files[0].path, "b.txt");
}

#[test]
fn sha_normalization() {
    assert_eq!(normalize_sha("  abc123\n"), "abc123");
    assert_eq!(normalize_sha("deadbeef (HEAD -> main)"), "deadbeef");
    assert_eq!(normalize_sha("zzz"), "");
}

#[test]
fn ahead_behind_parsing() {
    assert_eq!(parse_ahead_behind("1\t2\n"), (1, 2));
    assert_eq!(parse_ahead_behind("  4   7  "), (4, 7));
    assert_eq!(parse_ahead_behind("garbage"), (0, 0));
    assert_eq!(parse_ahead_behind("1 2 3"), (0, 0));
    assert_eq!(parse_ahead_behind("x y"), (0, 0));
}

#[test]
fn count_parsing() {
    assert_eq!(parse_count_output("42\n"), 42);
    assert_eq!(parse_count_output("  0  "), 0);
    assert_eq!(parse_count_output("not a number"), 0);
}

#[test]
fn trimmed_and_blank_outputs() {
    assert_eq!(trimmed_output("  main\n"), "main");
    assert!(is_nonblank(" M x\n"));
    assert!(!is_nonblank("  \n\t"));
}

#[test]
fn stash_listing() {
    let out = "stash@{0}\u{1f}WIP on main\u{1f}2024-01-01 10:00:00 +0000\nstash@{1}\u{1f}fix\u{1f}2024-01-02 11:00:00 +0000\nbad line\n";
    let entries = parse_stash_list(out);
    assert_eq!(entries.len(), 2);
    assert_eq!(entries[0].index, "stash@{0}");
    assert_eq!(entries[0].message, "WIP on main");
    assert_eq!(entries[0].date, "2024-01-01 10:00:00 +0000");
    assert_eq!(entries[1].index, "stash@{1}");
}

#[test]
fn rebase_preview_records() {
    let out = "abc123\u{1f}Alice\u{1f}2024-01-01T10:00:00+00:00\u{1f}first\u{1e}\ndef456\u{1f}Bob\u{1f}2024-01-02T10:00:00+00:00\u{1f}second\u{1e}\nshort\u{1f}record\u{1e}";
    let commits = parse_rebase_commits(out);
    assert_eq!(commits.len(), 2);
    assert_eq!(commits[0].sha, "abc123");
    assert_eq!(commits[0].author, "Alice");
    assert_eq!(commits[0].email, "");
    assert_eq!(commits[0].date, "2024-01-01T10:00:00+00:00");
    assert_eq!(commits[0].message, "first");
    assert!(commits[0].parents.is_empty());
    assert!(!commits[0].is_merge);
    assert_eq!(commits[1].sha, "def456");
    assert_eq!(commits[1].author, "Bob");
}

#[test]
fn both_added_and_both_deleted_conflict() {
    let out = "AA added_twice.txt\nDD deleted_twice.txt\nAM not_conflicted.txt\n";
    let conflicts = parse_conflicts(out);
    assert!(conflicts.has_conflicts);
    assert_eq!(conflicts.files.len(), 2);
    assert_eq!(conflicts.files[0].path, "added_twice.txt");
    assert_eq!(conflicts.files[1].path, "deleted_twice.txt");
}

#[test]
fn no_conflicts_reports_false() {
    let conflicts = parse_conflicts("M  a.txt\n?? b.txt\n");
    assert!(!conflicts.has_conflicts);
    assert!(conflicts.files.is_empty());
}

#[test]
fn carriage_returns_are_trimmed_from_status_lines() {
    let status = parse_status("M  a.txt\r\n");
    assert_eq!(status.files.len(), 1);
    assert_eq!(status.files[0].path, "a.txt");
}

#[test]
fn sha_normalization_keeps_case() {
    assert_eq!(normalize_sha("ABCdef12"), "ABCdef12");
}
