//! The engine's data records: branch, commit, diff, status, conflict and
//! staging shapes, plus the request parameter records of the public
//! operations.  All are plain values recomputed on every call; none caches
//! repository state.

use vstd::prelude::*;

verus! {

/// One region of changed lines in a parsed unified diff, with the raw lines
/// (header included) and the zero-based index of the header line in the
/// source text.
#[derive(Debug, Clone)]
pub struct DiffHunk {
    pub old_start: i32,
    pub old_count: i32,
    pub new_start: i32,
    pub new_count: i32,
    pub lines: Vec<String>,
    pub line_start: i32,
}

/// One region of changed lines in a structured (tree-driven) diff.
#[derive(Debug, Clone)]
pub struct DiffHunkData {
    pub old_start: i32,
    pub old_count: i32,
    pub new_start: i32,
    pub new_count: i32,
    pub lines: Vec<String>,
}

/// A structured diff for a single file: unified text plus parsed hunks.
#[derive(Debug, Clone)]
pub struct FileDiff {
    pub diff: String,
    pub hunks: Vec<DiffHunkData>,
    pub file_path: String,
}

/// A textual diff for a single file: unified text plus parsed hunks.
#[derive(Debug, Clone)]
pub struct DiffResponse {
    pub diff: String,
    pub hunks: Vec<DiffHunk>,
    pub file_path: String,
}

/// One path in the working-tree status listing.
#[derive(Debug, Clone)]
pub struct StatusFile {
    pub path: String,
    pub old_path: Option<String>,
    pub status: String,
    pub staged: bool,
    pub unstaged: bool,
    pub kind: String,
}

#[derive(Debug, Clone)]
pub struct StatusResponse {
    pub files: Vec<StatusFile>,
}

/// One conflicted path, with the surfaced conflict label.
#[derive(Debug, Clone)]
pub struct ConflictFile {
    pub path: String,
    pub kind: String,
}

#[derive(Debug, Clone)]
pub struct ConflictsResponse {
    pub files: Vec<ConflictFile>,
    pub has_conflicts: bool,
}

/// The three-way content of a conflicted path plus the live working-tree
/// content.
#[derive(Debug, Clone)]
pub struct ConflictFileResponse {
    pub base: String,
    pub mine: String,
    pub theirs: String,
    pub result: String,
    pub file_path: String,
}

#[derive(Debug, Clone)]
pub struct SuccessResponse {
    pub success: bool,
}

/// One stash entry as listed by the underlying tool.
#[derive(Debug, Clone)]
pub struct StashEntry {
    pub index: String,
    pub message: String,
    pub date: String,
}

/// One commit record projected from the repository history.
#[derive(Debug, Clone)]
pub struct Commit {
    pub sha: String,
    pub author: String,
    pub email: String,
    pub date: String,
    pub message: String,
    pub parents: Vec<String>,
    pub is_merge: bool,
    pub branches: Vec<String>,
    pub primary_branch: Option<String>,
    pub is_head: Option<bool>,
    pub is_main: Option<bool>,
}

/// Derived per-branch facts: merge status against the main line, staleness,
/// and whether the branch has no commits yet.
#[derive(Debug, Clone)]
pub struct BranchMetadata {
    pub is_merged: bool,
    pub is_stale: bool,
    pub is_unborn: bool,
    pub last_commit_date: Option<String>,
}

/// The branch listing: the current branch, the rank-ordered deduplicated
/// branch names, per-branch metadata keyed in the same order, the head
/// commit id, and the cache-invalidation fingerprint over all refs.
#[derive(Debug, Clone)]
pub struct BranchInfo {
    pub current: String,
    pub branches: Vec<String>,
    pub branch_metadata: Option<Vec<(String, BranchMetadata)>>,
    pub head: Option<String>,
    pub refs_hash: Option<String>,
}

/// One changed path in a commit, with its change label.
#[derive(Debug, Clone)]
pub struct FileChange {
    pub path: String,
    pub status: String,
}

#[derive(Debug, Clone)]
pub struct RebasePlanItem {
    pub sha: String,
    pub action: String,
    pub message: String,
}

#[derive(Debug, Clone)]
pub struct RebasePreview {
    pub commits: Vec<Commit>,
    pub onto: String,
    pub from: String,
    pub merge_base: String,
}

#[derive(Debug, Clone)]
pub struct RebasePlanResponse {
    pub success: bool,
    pub dry_run: Option<bool>,
    pub plan: Option<Vec<RebasePlanItem>>,
    pub error: Option<String>,
}

#[derive(Debug, Clone)]
pub struct GetDiffParams {
    pub repo: String,
    pub path: String,
    pub ref_: Option<String>,
    pub staged: Option<String>,
}

#[derive(Debug, Clone)]
pub struct GetConflictFileParams {
    pub repo: String,
    pub path: String,
}

#[derive(Debug, Clone)]
pub struct ResolveConflictParams {
    pub repo: String,
    pub path: String,
    pub content: String,
}

#[derive(Debug, Clone)]
pub struct OpenExplorerParams {
    pub repo: String,
    pub path: String,
}

#[derive(Debug, Clone)]
pub struct ExplorerQuery {
    pub path: String,
}

#[derive(Debug, Clone)]
pub struct GetRebasePreviewParams {
    pub repo: String,
    pub onto: Option<String>,
    pub from: Option<String>,
}

#[derive(Debug, Clone)]
pub struct PostRebasePlanParams {
    pub repo: String,
    pub onto: String,
    pub plan: Vec<RebasePlanItem>,
    pub dry_run: Option<bool>,
}

#[derive(Debug, Clone)]
pub struct StageRequest {
    pub repo: String,
    pub path: String,
    pub hunks: Option<Vec<usize>>,
}

#[derive(Debug, Clone)]
pub struct UnstageRequest {
    pub repo: String,
    pub path: String,
    pub hunks: Option<Vec<usize>>,
}

#[derive(Debug, Clone)]
pub struct CommitRequest {
    pub repo: String,
    pub message: String,
}

} // verus!
