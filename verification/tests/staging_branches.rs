use gitpow::branches::{
    choose_main_branch, current_branch_name, is_stale, refs_fingerprint, sort_branches,
    strip_heads_prefix_exec, HeadInfo,
};
use gitpow::gitio::{DeltaKind, RawDelta};
use gitpow::models::RebasePlanItem;
use gitpow::repo::{branches_at, changed_files_of, stats_to_counts};
use gitpow::gitio::{BranchTip, ResolveOutcome};
use gitpow::repo::{merged_fallback, merged_query, outcome_is_unborn, resolved_id, walk_start};
use gitpow::staging::{build_partial_patch, plan_rebase, validate_resolution};

const THREE_HUNK_DIFF: &str = "--- a/f.txt\n+++ b/f.txt\n@@ -1,1 +1,1 @@\n-a\n+A\n@@ -5,1 +5,1 @@\n-b\n+B\n@@ -9,1 +9,1 @@\n-c\n+C\n";

#[test]
fn partial_patch_keeps_headers_and_selected_hunks() {
    let sel: Vec<usize> = vec![0, 2];
    let patch = build_partial_patch(THREE_HUNK_DIFF, &sel).expect("patch");
    assert_eq!(
        patch,
        "--- a/f.txt\n+++ b/f.txt\n@@ -1,1 +1,1 @@\n-a\n+A\n@@ -9,1 +9,1 @@\n-c\n+C\n\n"
    );
    assert!(!patch.contains("+B"));
    assert!(!patch.contains("-b"));
}

#[test]
fn partial_patch_empty_selection_is_no_op() {
    let sel: Vec<usize> = Vec::new();
    assert!(build_partial_patch(THREE_HUNK_DIFF, &sel).is_none());
    let sel: Vec<usize> = vec![7];
    assert!(build_partial_patch(THREE_HUNK_DIFF, &sel).is_none());
}

#[test]
fn resolution_requires_path_and_content() {
    assert_eq!(
        validate_resolution("a.txt", "").unwrap_err(),
        "path and content required"
    );
    assert_eq!(
        validate_resolution("", "text").unwrap_err(),
        "path and content required"
    );
    assert!(validate_resolution("a.txt", "merged\n").is_ok());
}

#[test]
fn rebase_plan_validation_and_dry_run() {
    let item = |action: &str| RebasePlanItem {
        sha: "abc".to_string(),
        action: action.to_string(),
        message: "msg".to_string(),
    };
    let err = plan_rebase("", vec![item("pick")], true, false).unwrap_err();
    assert_eq!(err, "onto and plan (array) required");
    let err = plan_rebase("main", Vec::new(), true, false).unwrap_err();
    assert_eq!(err, "onto and plan (array) required");
    let err = plan_rebase("main", vec![item("pick")], true, true).unwrap_err();
    assert_eq!(err, "Cannot rebase with uncommitted changes");
    let ok = plan_rebase("main", vec![item(""), item("squash")], true, false).unwrap();
    assert!(ok.success);
    assert_eq!(ok.dry_run, Some(true));
    let plan = ok.plan.unwrap();
    assert_eq!(plan[0].action, "pick");
    assert_eq!(plan[1].action, "squash");
    let real = plan_rebase("main", vec![item("pick")], false, false).unwrap();
    assert!(!real.success);
    assert!(real.error.is_some());
}

#[test]
fn branch_sorting_rank_then_name() {
    let input: Vec<String> = ["zeta", "main", "apple", "master"]
        .iter()
        .map(|s| s.to_string())
        .collect();
    let sorted = sort_branches(&input);
    assert_eq!(sorted, vec!["main", "master", "apple", "zeta"]);
}

#[test]
fn branch_sorting_dedups_and_ranks_develop() {
    let input: Vec<String> = ["feature", "develop", "main", "feature", "develop"]
        .iter()
        .map(|s| s.to_string())
        .collect();
    let sorted = sort_branches(&input);
    assert_eq!(sorted, vec!["main", "develop", "feature"]);
}

fn pairs(v: &[(&str, Option<&str>)]) -> Vec<(String, Option<String>)> {
    v.iter()
        .map(|(n, i)| (n.to_string(), i.map(|s| s.to_string())))
        .collect()
}

#[test]
fn fingerprint_invariant_under_reordering() {
    let a = pairs(&[("main", Some("abc")), ("dev", Some("def")), ("wip", None)]);
    let b = pairs(&[("wip", None), ("main", Some("abc")), ("dev", Some("def"))]);
    assert_eq!(refs_fingerprint(&a), refs_fingerprint(&b));
}

#[test]
fn fingerprint_changes_on_add_remove_or_move() {
    let base = pairs(&[("main", Some("abc")), ("dev", Some("def"))]);
    let added = pairs(&[("main", Some("abc")), ("dev", Some("def")), ("new", Some("123"))]);
    let removed = pairs(&[("main", Some("abc"))]);
    let moved = pairs(&[("main", Some("abd")), ("dev", Some("def"))]);
    let unborn = pairs(&[("main", None), ("dev", Some("def"))]);
    let h = refs_fingerprint(&base);
    assert_ne!(h, refs_fingerprint(&added));
    assert_ne!(h, refs_fingerprint(&removed));
    assert_ne!(h, refs_fingerprint(&moved));
    assert_ne!(h, refs_fingerprint(&unborn));
}

#[test]
fn fingerprint_of_no_branches() {
    let none: Vec<(String, Option<String>)> = Vec::new();
    assert_eq!(refs_fingerprint(&none), "0");
}

#[test]
fn staleness_is_age_over_ninety_days() {
    let day = 86_400i64;
    assert!(!is_stale(0, 90 * day));
    assert!(!is_stale(0, 90 * day + day - 1));
    assert!(is_stale(0, 91 * day));
    assert!(!is_stale(100, 0));
}

#[test]
fn current_branch_fallbacks() {
    let r = current_branch_name(HeadInfo::Branch(Some("feature".to_string())), None).unwrap();
    assert_eq!(r, "feature");
    let r = current_branch_name(HeadInfo::Branch(None), None).unwrap();
    assert_eq!(r, "HEAD");
    let r = current_branch_name(
        HeadInfo::Unborn,
        Some("refs/heads/trunk".to_string()),
    )
    .unwrap();
    assert_eq!(r, "trunk");
    let r = current_branch_name(HeadInfo::Unborn, None).unwrap();
    assert_eq!(r, "main");
    let e = current_branch_name(HeadInfo::Failed("broken".to_string()), None).unwrap_err();
    assert_eq!(e, "broken");
}

#[test]
fn heads_prefix_stripping() {
    assert_eq!(strip_heads_prefix_exec("refs/heads/feature/x"), "feature/x");
    assert_eq!(strip_heads_prefix_exec("refs/tags/v1"), "refs/tags/v1");
}

#[test]
fn main_branch_choice() {
    let bs: Vec<String> = ["main", "master", "dev"].iter().map(|s| s.to_string()).collect();
    assert_eq!(choose_main_branch(&bs), "main");
    let bs: Vec<String> = ["master", "dev"].iter().map(|s| s.to_string()).collect();
    assert_eq!(choose_main_branch(&bs), "master");
    let bs: Vec<String> = ["dev", "wip"].iter().map(|s| s.to_string()).collect();
    assert_eq!(choose_main_branch(&bs), "main");
}

#[test]
fn stats_clamping() {
    assert_eq!(stats_to_counts(3, 10, 5), (3, 15));
    assert_eq!(stats_to_counts(usize::MAX, usize::MAX, 1), (i32::MAX, i32::MAX));
}

#[test]
fn changed_files_mapping() {
    let deltas = vec![
        RawDelta {
            old_path: None,
            new_path: Some("a.txt".to_string()),
            kind: DeltaKind::Added,
        },
        RawDelta {
            old_path: Some("b.txt".to_string()),
            new_path: Some("b.txt".to_string()),
            kind: DeltaKind::Deleted,
        },
        RawDelta {
            old_path: Some("c.txt".to_string()),
            new_path: Some("c2.txt".to_string()),
            kind: DeltaKind::Renamed,
        },
        RawDelta { old_path: None, new_path: None, kind: DeltaKind::Modified },
        RawDelta {
            old_path: None,
            new_path: Some("d.txt".to_string()),
            kind: DeltaKind::Untracked,
        },
    ];
    let changes = changed_files_of(&deltas);
    assert_eq!(changes.len(), 4);
    assert_eq!((changes[0].path.as_str(), changes[0].status.as_str()), ("a.txt", "added"));
    assert_eq!((changes[1].path.as_str(), changes[1].status.as_str()), ("b.txt", "removed"));
    assert_eq!((changes[2].path.as_str(), changes[2].status.as_str()), ("c2.txt", "modified"));
    assert_eq!((changes[3].path.as_str(), changes[3].status.as_str()), ("d.txt", "added"));
}

#[test]
fn branch_decoration_filter() {
    let tips = vec![
        ("main".to_string(), "abc".to_string()),
        ("dev".to_string(), "def".to_string()),
        ("hotfix".to_string(), "abc".to_string()),
    ];
    assert_eq!(branches_at(&tips, "abc"), vec!["main", "hotfix"]);
    assert_eq!(branches_at(&tips, "zzz"), Vec::<String>::new());
}

#[test]
fn fingerprint_is_lowercase_hex() {
    let ps = pairs(&[("main", Some("abc"))]);
    let h = refs_fingerprint(&ps);
    assert!(!h.is_empty());
    assert!(h.chars().all(|c| c.is_ascii_hexdigit() && !c.is_ascii_uppercase()));
}

#[test]
fn partial_patch_single_hunk() {
    let sel: Vec<usize> = vec![1];
    let patch = build_partial_patch(THREE_HUNK_DIFF, &sel).expect("patch");
    assert_eq!(patch, "--- a/f.txt\n+++ b/f.txt\n@@ -5,1 +5,1 @@\n-b\n+B\n");
}

#[test]
fn partial_patch_of_a_headerless_diff() {
    let diff = "@@ -1,1 +1,1 @@\n-a\n+A";
    let sel: Vec<usize> = vec![0];
    let patch = build_partial_patch(diff, &sel).expect("patch");
    assert_eq!(patch, "@@ -1,1 +1,1 @@\n-a\n+A\n");
}

#[test]
fn resolution_outcome_dispatch() {
    let r = walk_start(ResolveOutcome::Resolved("abc".to_string())).unwrap();
    assert_eq!(r, Some("abc".to_string()));
    assert_eq!(walk_start(ResolveOutcome::Unborn("m".to_string())).unwrap(), None);
    assert_eq!(walk_start(ResolveOutcome::NotFound("m".to_string())).unwrap(), None);
    assert_eq!(walk_start(ResolveOutcome::Failed("boom".to_string())).unwrap_err(), "boom");
    assert_eq!(resolved_id(ResolveOutcome::Resolved("abc".to_string())).unwrap(), "abc");
    assert_eq!(resolved_id(ResolveOutcome::NotFound("gone".to_string())).unwrap_err(), "gone");
    assert!(outcome_is_unborn(ResolveOutcome::Unborn("m".to_string())));
    assert!(!outcome_is_unborn(ResolveOutcome::Failed("m".to_string())));
    assert!(!outcome_is_unborn(ResolveOutcome::Resolved("abc".to_string())));
}

#[test]
fn merged_decision_fallbacks() {
    assert!(!merged_fallback(None));
    assert!(!merged_fallback(Some(false)));
    assert!(merged_fallback(Some(true)));
    let tip = |oid: &str| BranchTip { oid: oid.to_string(), time_secs: Some(0) };
    assert!(merged_query(None, Some(tip("m"))).is_none());
    assert!(merged_query(Some(tip("b")), None).is_none());
    let q = merged_query(Some(tip("b")), Some(tip("m"))).unwrap();
    assert_eq!(q.0, "b");
    assert_eq!(q.1, "m");
}
