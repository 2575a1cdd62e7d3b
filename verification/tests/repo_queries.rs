use gitpow::repo::GitRepository;

/// Builds a repository with two commits touching one file, entirely
/// through the object database, and returns the two commit ids.
fn build_two_commit_repo(path: &str) -> (git2::Repository, String, String) {
    let repo = git2::Repository::init(path).expect("init");
    let (c1, c2) = build_commits(&repo);
    (repo, c1, c2)
}

fn build_commits(repo: &git2::Repository) -> (String, String) {
    let sig1 = git2::Signature::new("Tester", "tester@example.com", &git2::Time::new(86_400, 0))
        .expect("sig");
    let sig2 = git2::Signature::new("Tester", "tester@example.com", &git2::Time::new(172_800, 0))
        .expect("sig");
    let blob1 = repo.blob(b"x\ny\nz\n").expect("blob");
    let mut tb = repo.treebuilder(None).expect("tb");
    tb.insert("f.txt", blob1, 0o100644).expect("insert");
    let tree1_id = tb.write().expect("tree");
    let tree1 = repo.find_tree(tree1_id).expect("find tree");
    let c1 = repo
        .commit(None, &sig1, &sig1, "first", &tree1, &[])
        .expect("commit1");
    let parent = repo.find_commit(c1).expect("parent");
    let blob2 = repo.blob(b"x\nY\nz\n").expect("blob2");
    let mut tb = repo.treebuilder(None).expect("tb2");
    tb.insert("f.txt", blob2, 0o100644).expect("insert2");
    let tree2_id = tb.write().expect("tree2");
    let tree2 = repo.find_tree(tree2_id).expect("find tree2");
    let c2 = repo
        .commit(None, &sig2, &sig2, "second", &tree2, &[&parent])
        .expect("commit2");
    repo.reference("refs/heads/main", c2, true, "test setup").expect("ref");
    repo.set_head("refs/heads/main").expect("set head");
    let leftovers: Vec<String> = repo
        .branches(Some(git2::BranchType::Local))
        .expect("branches")
        .filter_map(|b| b.ok())
        .filter_map(|(b, _)| b.name().ok().flatten().map(|s| s.to_string()))
        .filter(|n| n != "main")
        .collect();
    for name in leftovers {
        let mut b = repo.find_branch(&name, git2::BranchType::Local).expect("find");
        let _ = b.delete();
    }
    (c1.to_string(), c2.to_string())
}

#[test]
fn walks_history_newest_first_and_truncates() {
    let (_raw, c1, c2) = build_two_commit_repo("/tmp/gitpow_qrepo_walk");
    let repo = GitRepository::open("/tmp/gitpow_qrepo_walk").expect("open");
    let all = repo.get_commits("", 10).expect("commits");
    assert_eq!(all.len(), 2);
    assert_eq!(all[0].sha, c2);
    assert_eq!(all[1].sha, c1);
    assert_eq!(all[0].author, "Tester");
    assert_eq!(all[0].email, "tester@example.com");
    assert_eq!(all[0].message, "second");
    assert_eq!(all[0].date, "1970-01-03T00:00:00+00:00");
    assert_eq!(all[0].parents, vec![c1.clone()]);
    assert!(!all[0].is_merge);
    assert!(all[1].parents.is_empty());
    // The tip commit carries the branch whose tip points at it.
    assert_eq!(all[0].branches.len(), 1);
    assert!(all[1].branches.is_empty());
    let one = repo.get_commits("", 1).expect("commits");
    assert_eq!(one.len(), 1);
    assert_eq!(one[0].sha, c2);
    let none = repo.get_commits("no-such-branch", 10).expect("commits");
    assert!(none.is_empty());
}

#[test]
fn local_walk_decorates_with_the_input_revision() {
    let (_raw, _c1, c2) = build_two_commit_repo("/tmp/gitpow_qrepo_local");
    let repo = GitRepository::open("/tmp/gitpow_qrepo_local").expect("open");
    let commits = repo.get_commits_local("HEAD", 5).expect("commits");
    assert_eq!(commits.len(), 2);
    for c in &commits {
        assert_eq!(c.branches, vec!["HEAD"]);
    }
    assert_eq!(commits[0].sha, c2);
}

#[test]
fn branch_info_of_a_live_repository() {
    let (_raw, _c1, _c2) = build_two_commit_repo("/tmp/gitpow_qrepo_info");
    let branch = "main".to_string();
    let repo = GitRepository::open("/tmp/gitpow_qrepo_info").expect("open");
    let info = repo.get_branch_info().expect("info");
    assert_eq!(info.current, branch);
    assert_eq!(info.branches, vec![branch.clone()]);
    assert!(info.head.is_some());
    assert!(info.refs_hash.is_some());
    let md = info.branch_metadata.expect("metadata");
    assert_eq!(md.len(), 1);
    assert_eq!(md[0].0, branch);
    assert!(!md[0].1.is_unborn);
    assert!(md[0].1.is_stale);
    assert_eq!(md[0].1.last_commit_date.as_deref(), Some("1970-01-03T00:00:00+00:00"));
}

#[test]
fn branch_info_of_an_empty_repository() {
    git2::Repository::init("/tmp/gitpow_qrepo_empty").expect("init");
    let repo = GitRepository::open("/tmp/gitpow_qrepo_empty").expect("open");
    let info = repo.get_branch_info().expect("info");
    assert!(info.branches.is_empty());
    assert!(!info.current.is_empty());
    assert!(info.head.is_none());
    assert_eq!(info.refs_hash.as_deref(), Some("0"));
    let commits = repo.get_commits("", 10).expect("commits");
    assert!(commits.is_empty());
    assert_eq!(repo.get_branch_last_commit_date("").expect("date"), None);
}

#[test]
fn commit_relative_file_diffs() {
    let (_raw, c1, c2) = build_two_commit_repo("/tmp/gitpow_qrepo_diff");
    let repo = GitRepository::open("/tmp/gitpow_qrepo_diff").expect("open");
    // Root commit: the file is new, so the whole file is an addition.
    let added = repo.get_file_diff(&c1, "f.txt").expect("diff");
    assert!(added.diff.starts_with("--- /dev/null\n+++ b/f.txt\n"));
    assert_eq!(added.hunks.len(), 1);
    assert_eq!(added.hunks[0].old_start, 0);
    assert_eq!(added.hunks[0].old_count, 0);
    assert_eq!(added.hunks[0].new_start, 1);
    assert_eq!(added.hunks[0].new_count, 3);
    // Second commit: present in both sides, structured tree diff.
    let modified = repo.get_file_diff(&c2, "f.txt").expect("diff");
    assert!(modified.diff.starts_with("--- a/f.txt\n+++ b/f.txt\n"));
    assert_eq!(modified.hunks.len(), 1);
    assert_eq!(modified.hunks[0].old_start, 1);
    assert_eq!(modified.hunks[0].old_count, 3);
    assert_eq!(modified.hunks[0].new_start, 1);
    assert_eq!(modified.hunks[0].new_count, 3);
    assert_eq!(
        modified.hunks[0].lines,
        vec!["@@ -1,3 +1,3 @@", " x", "-y", "+Y", " z"]
    );
    // A path in neither tree yields the empty diff.
    let absent = repo.get_file_diff(&c1, "missing.txt").expect("diff");
    assert_eq!(absent.diff, "");
    assert!(absent.hunks.is_empty());
}

#[test]
fn graph_queries() {
    let (_raw, c1, c2) = build_two_commit_repo("/tmp/gitpow_qrepo_graph");
    let repo = GitRepository::open("/tmp/gitpow_qrepo_graph").expect("open");
    assert!(repo.is_ancestor(&c2, &c1).expect("ancestor"));
    assert!(!repo.is_ancestor(&c1, &c2).expect("ancestor"));
    assert_eq!(repo.count_commits_between(&c1, &c2).expect("count"), 1);
    assert_eq!(repo.rev_parse("HEAD").expect("rev"), c2);
    assert!(repo.rev_parse("no-such-rev").is_err());
    let (files, lines) = repo.get_commit_stats(&c2).expect("stats");
    assert_eq!(files, 1);
    assert_eq!(lines, 2);
    let changes = repo.get_commit_changed_files(&c1).expect("changes");
    assert_eq!(changes.len(), 1);
    assert_eq!(changes[0].path, "f.txt");
    assert_eq!(changes[0].status, "added");
    let changes = repo.get_commit_changed_files(&c2).expect("changes");
    assert_eq!(changes[0].status, "modified");
}

#[test]
fn open_fails_on_a_missing_repository() {
    let err = match GitRepository::open("/tmp/gitpow_qrepo_does_not_exist") {
        Ok(_) => panic!("expected failure"),
        Err(e) => e,
    };
    assert!(err.starts_with("Failed to open git repository at"));
}
