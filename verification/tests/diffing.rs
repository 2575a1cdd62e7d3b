use gitpow::assemble::{assemble_diff, RawDiffLine};
use gitpow::diffs::{
    added_diff_response, added_file_diff, bootstrap_diff_response, deleted_file_diff,
    empty_file_diff, removed_diff_response,
};
use gitpow::hunks::parse_hunks;

#[test]
fn added_response_shape() {
    // A newline-terminated 3-line file has exactly 3 source lines: the
    // empty piece after the final newline is not a line.
    let r = added_diff_response("file.txt", "a\nb\nc\n");
    assert!(r.diff.starts_with("--- /dev/null\n+++ b/file.txt\n"));
    assert_eq!(
        r.diff,
        "--- /dev/null\n+++ b/file.txt\n@@ -0,0 +1,3 @@\n+a\n+b\n+c\n"
    );
    assert_eq!(r.hunks.len(), 1);
    assert_eq!(r.hunks[0].old_start, 0);
    assert_eq!(r.hunks[0].old_count, 0);
    assert_eq!(r.hunks[0].new_start, 1);
    assert_eq!(r.hunks[0].new_count, 3);
    assert_eq!(r.file_path, "file.txt");
}

#[test]
fn removed_response_shape() {
    let r = removed_diff_response("gone.txt", "x\ny");
    assert_eq!(r.diff, "--- a/gone.txt\n+++ /dev/null\n@@ -1,2 +0,0 @@\n-x\n-y\n");
    assert_eq!(r.hunks.len(), 1);
    assert_eq!(r.hunks[0].old_start, 1);
    assert_eq!(r.hunks[0].old_count, 2);
    assert_eq!(r.hunks[0].new_start, 0);
    assert_eq!(r.hunks[0].new_count, 0);
}

#[test]
fn round_trip_counts_match_headers() {
    // Re-deriving the counts from the counted +/- lines of the re-parsed
    // generated diff must match the header's declared counts.
    let r = added_diff_response("f", "one\ntwo\nthree");
    let hunks = parse_hunks(&r.diff);
    assert_eq!(hunks.len(), 1);
    let plus = hunks[0].lines.iter().filter(|l| l.starts_with('+')).count() as i32;
    let minus = hunks[0].lines.iter().filter(|l| l.starts_with('-')).count() as i32;
    assert_eq!(plus, hunks[0].new_count);
    assert_eq!(minus, hunks[0].old_count);
    let d = removed_diff_response("f", "one\ntwo\nthree");
    let hunks = parse_hunks(&d.diff);
    assert_eq!(hunks.len(), 1);
    let plus = hunks[0].lines.iter().filter(|l| l.starts_with('+')).count() as i32;
    let minus = hunks[0].lines.iter().filter(|l| l.starts_with('-')).count() as i32;
    assert_eq!(plus, hunks[0].new_count);
    assert_eq!(minus, hunks[0].old_count);
}

#[test]
fn three_line_file_diff() {
    // A commit with no parent and one new 3-line file.
    let d = added_file_diff("src/new.rs", "x\ny\nz\n");
    assert!(d.diff.starts_with("--- /dev/null\n+++ b/src/new.rs\n"));
    assert_eq!(d.hunks.len(), 1);
    assert_eq!(d.hunks[0].old_start, 0);
    assert_eq!(d.hunks[0].old_count, 0);
    assert_eq!(d.hunks[0].new_start, 1);
    assert_eq!(d.hunks[0].new_count, 3);
    assert_eq!(d.hunks[0].lines, vec!["@@ -0,0 +1,3 @@", "+x", "+y", "+z"]);
}

#[test]
fn deleted_file_diff_shape() {
    let d = deleted_file_diff("old.rs", "p\nq\n");
    assert!(d.diff.starts_with("--- a/old.rs\n+++ /dev/null\n"));
    assert_eq!(d.hunks.len(), 1);
    assert_eq!(d.hunks[0].old_start, 1);
    assert_eq!(d.hunks[0].old_count, 2);
    assert_eq!(d.hunks[0].new_start, 0);
    assert_eq!(d.hunks[0].new_count, 0);
    assert_eq!(d.hunks[0].lines, vec!["@@ -1,2 +0,0 @@", "-p", "-q"]);
}

#[test]
fn empty_diff_for_absent_file() {
    let d = empty_file_diff("nowhere.txt");
    assert_eq!(d.diff, "");
    assert!(d.hunks.is_empty());
    assert_eq!(d.file_path, "nowhere.txt");
}

#[test]
fn bootstrap_response_is_hunkless() {
    let r = bootstrap_diff_response("boot.txt", "a\nb");
    assert_eq!(r.diff, "+ a\n+ b");
    assert!(r.hunks.is_empty());
}

fn line_event(origin: char, content: &str) -> RawDiffLine {
    RawDiffLine {
        origin,
        content: content.to_string(),
        hunk: None,
        old_path: Some("f.txt".to_string()),
        new_path: Some("f.txt".to_string()),
        is_added: false,
        is_deleted: false,
    }
}

#[test]
fn assembly_from_structured_events() {
    let mut events = Vec::new();
    events.push(line_event('F', ""));
    let mut h = line_event('H', "@@ -1,2 +1,2 @@\n");
    h.hunk = Some((1, 2, 1, 2));
    events.push(h);
    events.push(line_event(' ', "same\n"));
    events.push(line_event('-', "old\n"));
    events.push(line_event('+', "new\n"));
    let d = assemble_diff(&events, true, "f.txt");
    assert_eq!(
        d.diff,
        "--- a/f.txt\n+++ b/f.txt\n@@ -1,2 +1,2 @@\n same\n-old\n+new\n"
    );
    assert_eq!(d.hunks.len(), 1);
    assert_eq!(d.hunks[0].old_start, 1);
    assert_eq!(d.hunks[0].old_count, 2);
    assert_eq!(d.hunks[0].new_start, 1);
    assert_eq!(d.hunks[0].new_count, 2);
    assert_eq!(d.hunks[0].lines, vec!["@@ -1,2 +1,2 @@", " same", "-old", "+new"]);
}

#[test]
fn assembly_commit_style_dev_null_headers() {
    let mut f = line_event('F', "");
    f.is_added = true;
    let mut events = vec![f];
    let mut h = line_event('H', "");
    h.hunk = Some((0, 0, 1, 1));
    events.push(h);
    events.push(line_event('+', "only\n"));
    let d = assemble_diff(&events, true, "f.txt");
    assert!(d.diff.starts_with("--- /dev/null\n+++ b/f.txt\n"));
    assert_eq!(d.hunks.len(), 1);
    assert_eq!(d.hunks[0].lines, vec!["@@ -0,0 +1,1 @@", "+only"]);
}

#[test]
fn assembly_seals_hunks_at_next_header() {
    let mut events = Vec::new();
    let mut h1 = line_event('H', "");
    h1.hunk = Some((1, 1, 1, 1));
    events.push(h1);
    events.push(line_event('-', "a\n"));
    events.push(line_event('+', "b\n"));
    let mut h2 = line_event('H', "");
    h2.hunk = Some((9, 1, 9, 1));
    events.push(h2);
    events.push(line_event(' ', "ctx\n"));
    let d = assemble_diff(&events, false, "f.txt");
    assert_eq!(d.hunks.len(), 2);
    assert_eq!(d.hunks[0].lines, vec!["@@ -1,1 +1,1 @@", "-a", "+b"]);
    assert_eq!(d.hunks[1].lines, vec!["@@ -9,1 +9,1 @@", " ctx"]);
}

#[test]
fn assembly_rederives_counts_from_lines() {
    let mut events = Vec::new();
    let mut h = line_event('H', "");
    h.hunk = Some((1, 9, 1, 9));
    events.push(h);
    events.push(line_event('-', "a\n"));
    events.push(line_event('+', "b\n"));
    let d = assemble_diff(&events, false, "f.txt");
    assert_eq!(d.hunks.len(), 1);
    // The hunk's counts come from its own lines, not the declared header
    // numbers; the printed header keeps the source's own numbers.
    assert_eq!(d.hunks[0].old_count, 1);
    assert_eq!(d.hunks[0].new_count, 1);
    assert!(d.diff.contains("@@ -1,9 +1,9 @@"));
}
