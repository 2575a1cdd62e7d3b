//! Trusted wrappers around the structured repository library and the
//! timestamp formatter.  Each wrapper makes one outside call (with the
//! accessor calls that convert its result to plain values) and states only
//! what the outside source shows; everything computed from the returned
//! plain values is verified elsewhere.

use vstd::prelude::*;

use crate::assemble::RawDiffLine;
use crate::branches::HeadInfo;

verus! {

#[verifier::external_type_specification]
#[verifier::external_body]
pub struct ExRepository(git2::Repository);

#[verifier::external_type_specification]
#[verifier::external_body]
pub struct ExDiff<'a>(git2::Diff<'a>);

#[verifier::external_type_specification]
#[verifier::external_body]
pub struct ExGitError(git2::Error);

/// A branch tip: its commit id, and the tip commit's time where the tip
/// peels to a commit.
pub struct BranchTip {
    pub oid: String,
    pub time_secs: Option<i64>,
}

/// A commit's projected fields, read straight from the object store.
pub struct CommitRaw {
    pub author: String,
    pub email: String,
    pub time_secs: i64,
    pub message: String,
    pub parents: Vec<String>,
}

/// How a revision expression resolved.
pub enum ResolveOutcome {
    Resolved(String),
    Unborn(String),
    NotFound(String),
    Failed(String),
}

/// One changed path of a commit's tree diff.
pub struct RawDelta {
    pub old_path: Option<String>,
    pub new_path: Option<String>,
    pub kind: DeltaKind,
}

/// The change classification of one delta.
#[derive(Debug, Clone, PartialEq, Eq, Structural)]
pub enum DeltaKind {
    Added,
    Deleted,
    Modified,
    Typechange,
    Renamed,
    Copied,
    Untracked,
    Other,
}

/// Relies on `git2::Error::message`: the library's failure text.
#[verifier::external_body]
fn err_msg(e: git2::Error) -> (r: String) {
    e.message().to_string()
}

/// Relies on `git2::Repository::open`: a handle on the repository at the
/// path, or the library's failure message.
#[verifier::external_body]
pub(crate) fn open_repository(path: &str) -> (r: Result<git2::Repository, String>) {
    match git2::Repository::open(path) {
        Ok(repo) => Ok(repo),
        Err(e) => Err(
            format!("Failed to open git repository at {}: {}", path, e.message()),
        ),
    }
}

/// Relies on `git2::Repository::branches` and `git2::Branch::name`: the
/// names of the listed branches, local and remote-tracking or local only,
/// skipping branches with no valid name.
#[verifier::external_body]
pub(crate) fn branch_names(repo: &git2::Repository, local_only: bool) -> (r: Result<
    Vec<String>,
    String,
>) {
    let filter = if local_only { Some(git2::BranchType::Local) } else { None };
    let mut out: Vec<String> = Vec::new();
    for item in repo.branches(filter).map_err(err_msg)? {
        let (branch, _) = item.map_err(err_msg)?;
        if let Some(name) = branch.name().map_err(err_msg)? {
            out.push(name.to_string());
        }
    }
    Ok(out)
}

/// Relies on `git2::Repository::head`, `git2::Reference::shorthand` and
/// `git2::Error::code`: the attached head's shorthand, the unborn-branch
/// condition, or the failure message.
#[verifier::external_body]
pub(crate) fn head_info(repo: &git2::Repository) -> (r: HeadInfo) {
    match repo.head() {
        Ok(head) => HeadInfo::Branch(head.shorthand().ok().map(|s| s.to_string())),
        Err(e) if e.code() == git2::ErrorCode::UnbornBranch => HeadInfo::Unborn,
        Err(e) => HeadInfo::Failed(e.message().to_string()),
    }
}

/// Relies on `git2::Repository::find_reference` and
/// `git2::Reference::symbolic_target`: the literal symbolic target of the
/// head reference, where one can be read.
#[verifier::external_body]
pub(crate) fn head_symbolic_target(repo: &git2::Repository) -> (r: Option<String>) {
    repo.find_reference("HEAD").ok().and_then(
        |head| head.symbolic_target().ok().flatten().map(|s| s.to_string()),
    )
}

/// Relies on `git2::Repository::head` and `git2::Reference::target`: the
/// head commit's id, where the head resolves to one.
#[verifier::external_body]
pub(crate) fn head_oid(repo: &git2::Repository) -> (r: Option<String>) {
    repo.head().ok().and_then(|h| h.target()).map(|oid| oid.to_string())
}

/// Relies on `git2::Repository::revparse_single`,
/// `git2::Object::peel_to_commit` and `git2::Time::seconds`: the resolved
/// tip's id and, where it peels to a commit, that commit's time.
#[verifier::external_body]
pub(crate) fn resolve_tip(repo: &git2::Repository, spec: &str) -> (r: Option<BranchTip>) {
    match repo.revparse_single(spec) {
        Err(_) => None,
        Ok(obj) => Some(BranchTip {
            oid: obj.id().to_string(),
            time_secs: obj.peel_to_commit().ok().map(|c| c.time().seconds()),
        }),
    }
}

/// Relies on `git2::Repository::revparse_single` and `git2::Error::code`:
/// the resolved id, or which failure condition held.
#[verifier::external_body]
pub(crate) fn revparse_outcome(repo: &git2::Repository, spec: &str) -> (r: ResolveOutcome) {
    match repo.revparse_single(spec) {
        Ok(obj) => ResolveOutcome::Resolved(obj.id().to_string()),
        Err(e) if e.code() == git2::ErrorCode::UnbornBranch => ResolveOutcome::Unborn(
            e.message().to_string(),
        ),
        Err(e) if e.code() == git2::ErrorCode::NotFound => ResolveOutcome::NotFound(
            e.message().to_string(),
        ),
        Err(e) => ResolveOutcome::Failed(e.message().to_string()),
    }
}

/// Relies on `git2::Oid::from_str` and
/// `git2::Repository::graph_descendant_of`: whether the first commit is a
/// descendant of the second.
#[verifier::external_body]
pub(crate) fn graph_descendant(repo: &git2::Repository, commit_hex: &str, ancestor_hex: &str)
    -> (r: Result<bool, String>) {
    let c = git2::Oid::from_str(commit_hex).map_err(err_msg)?;
    let a = git2::Oid::from_str(ancestor_hex).map_err(err_msg)?;
    repo.graph_descendant_of(c, a).map_err(err_msg)
}

/// Relies on `git2::Repository::revwalk` with topological-then-time
/// sorting and `Iterator::take`: at most `limit` commit ids walked from the
/// starting commit.
#[verifier::external_body]
pub(crate) fn walk_oids(repo: &git2::Repository, start_hex: &str, limit: usize) -> (r: Result<
    Vec<String>,
    String,
>)
    ensures
        r matches Ok(v) ==> v@.len() <= limit,
{
    let start = git2::Oid::from_str(start_hex).map_err(err_msg)?;
    let mut walk = repo.revwalk().map_err(err_msg)?;
    walk.push(start).map_err(err_msg)?;
    walk.set_sorting(git2::Sort::TOPOLOGICAL | git2::Sort::TIME).map_err(err_msg)?;
    let mut out: Vec<String> = Vec::new();
    for oid in walk.take(limit) {
        out.push(oid.map_err(err_msg)?.to_string());
    }
    Ok(out)
}

/// Relies on `git2::Repository::find_commit` and the commit accessors
/// `author`, `time`, `message` and `parent_ids`: the commit's projected
/// fields, with empty strings for unreadable names.
#[verifier::external_body]
pub(crate) fn commit_record(repo: &git2::Repository, oid_hex: &str) -> (r: Result<
    CommitRaw,
    String,
>) {
    let oid = git2::Oid::from_str(oid_hex).map_err(err_msg)?;
    let c = repo.find_commit(oid).map_err(err_msg)?;
    let sig = c.author();
    Ok(CommitRaw {
        author: sig.name().unwrap_or_default().to_string(),
        email: sig.email().unwrap_or_default().to_string(),
        time_secs: c.time().seconds(),
        message: c.message().unwrap_or_default().to_string(),
        parents: c.parent_ids().map(|p| p.to_string()).collect(),
    })
}

/// Relies on `git2::Repository::branches`, `git2::Branch::name` and
/// `git2::Reference::peel_to_commit`: each listed branch's name paired with
/// its tip commit's id, skipping branches that do not peel to a commit.
#[verifier::external_body]
pub(crate) fn branch_tips(repo: &git2::Repository) -> (r: Result<Vec<(String, String)>, String>) {
    let mut out: Vec<(String, String)> = Vec::new();
    for item in repo.branches(None).map_err(err_msg)? {
        let (branch, _) = item.map_err(err_msg)?;
        if let Some(name) = branch.name().map_err(err_msg)? {
            if let Ok(commit) = branch.get().peel_to_commit() {
                out.push((name.to_string(), commit.id().to_string()));
            }
        }
    }
    Ok(out)
}

/// Relies on `git2::Repository::diff_tree_to_tree` over the commit's tree
/// and its first parent's tree, scoped to the path with three context
/// lines.  The path must hold no NUL character: the pathspec setter
/// panics on one instead of returning an error.
#[verifier::external_body]
pub(crate) fn tree_diff<'r>(repo: &'r git2::Repository, sha: &str, path: &str) -> (r: Result<
    git2::Diff<'r>,
    String,
>)
    requires
        forall|i: int| 0 <= i < path@.len() ==> path@[i] != '\0',
{
    let oid = git2::Oid::from_str(sha).map_err(err_msg)?;
    let c = repo.find_commit(oid).map_err(err_msg)?;
    let new_tree = c.tree().map_err(err_msg)?;
    let old_tree = match c.parent(0) {
        Ok(p) => Some(p.tree().map_err(err_msg)?),
        Err(_) => None,
    };
    let mut opts = git2::DiffOptions::new();
    opts.pathspec(path).context_lines(3);
    repo.diff_tree_to_tree(old_tree.as_ref(), Some(&new_tree), Some(&mut opts)).map_err(err_msg)
}

/// Relies on `git2::Repository::diff_tree_to_index` (head tree against the
/// index) or `git2::Repository::diff_index_to_workdir`, scoped to the path
/// with three context lines.  The path must hold no NUL character: the
/// pathspec setter panics on one instead of returning an error.
#[verifier::external_body]
pub(crate) fn workdir_diff<'r>(repo: &'r git2::Repository, path: &str, staged: bool) -> (r: Result<
    git2::Diff<'r>,
    String,
>)
    requires
        forall|i: int| 0 <= i < path@.len() ==> path@[i] != '\0',
{
    let mut opts = git2::DiffOptions::new();
    opts.pathspec(path).context_lines(3);
    if staged {
        let head_tree = repo.head().map_err(err_msg)?.peel_to_tree().ok();
        repo.diff_tree_to_index(head_tree.as_ref(), None, Some(&mut opts)).map_err(
            |e| e.message().to_string(),
        )
    } else {
        repo.diff_index_to_workdir(None, Some(&mut opts)).map_err(err_msg)
    }
}

#[verifier::external_type_specification]
#[verifier::external_body]
pub struct ExDiffDelta<'a>(git2::DiffDelta<'a>);

#[verifier::external_type_specification]
#[verifier::external_body]
pub struct ExDiffLine<'a>(git2::DiffLine<'a>);

/// Relies on the diff callback accessors `DiffLine::origin`/`content` and
/// `DiffDelta::old_file`/`new_file`/`status`: one printed line's fields as
/// plain values, with the header numbers already converted.
#[verifier::external_body]
fn raw_line_of(d: &git2::DiffDelta, nums: Option<(u32, u32, u32, u32)>, l: &git2::DiffLine)
    -> (r: RawDiffLine) {
    RawDiffLine {
        origin: l.origin(),
        content: String::from_utf8_lossy(l.content()).into_owned(),
        hunk: nums,
        old_path: d.old_file().path().map(|p| p.to_string_lossy().into_owned()),
        new_path: d.new_file().path().map(|p| p.to_string_lossy().into_owned()),
        is_added: d.status() == git2::Delta::Added,
        is_deleted: d.status() == git2::Delta::Deleted,
    }
}

/// Relies on `git2::Diff::print` in patch format and the hunk-header
/// accessors `old_start`/`old_lines`/`new_start`/`new_lines`: one plain
/// event per printed line, in print order, each converted by
/// `raw_line_of`.
#[verifier::external_body]
pub(crate) fn patch_events(diff: &git2::Diff) -> (r: Result<Vec<RawDiffLine>, String>) {
    let mut out: Vec<RawDiffLine> = Vec::new();
    diff.print(git2::DiffFormat::Patch, |d, h, l| {
        let nums = h.map(|x| (x.old_start(), x.old_lines(), x.new_start(), x.new_lines()));
        out.push(raw_line_of(&d, nums, &l));
        true
    }).map_err(err_msg)?;
    Ok(out)
}

/// Relies on `git2::Commit::tree`, `git2::Tree::get_path` and
/// `git2::Repository::find_blob`: the file's content in the commit's own
/// tree, or in its first parent's tree, read lossily as text; absent where
/// the tree lacks the path or the parent does not exist.
#[verifier::external_body]
pub(crate) fn file_content_at(repo: &git2::Repository, sha: &str, path: &str, in_parent: bool)
    -> (r: Result<Option<String>, String>) {
    let oid = git2::Oid::from_str(sha).map_err(err_msg)?;
    let c = repo.find_commit(oid).map_err(err_msg)?;
    let tree = if in_parent {
        match c.parent(0) { Ok(p) => p.tree().map_err(err_msg)?, Err(_) => return Ok(None) }
    } else {
        c.tree().map_err(err_msg)?
    };
    match tree.get_path(std::path::Path::new(path)) {
        Err(_) => Ok(None),
        Ok(e) => {
            let blob = repo.find_blob(e.id()).map_err(err_msg)?;
            Ok(Some(String::from_utf8_lossy(blob.content()).into_owned()))
        },
    }
}

/// Relies on the delta accessors `old_file`/`new_file`/`status`: one
/// delta's paths and classification, one arm per status.
#[verifier::external_body]
fn delta_of(d: &git2::DiffDelta) -> (r: RawDelta) {
    RawDelta {
        old_path: d.old_file().path().map(|p| p.to_string_lossy().into_owned()),
        new_path: d.new_file().path().map(|p| p.to_string_lossy().into_owned()),
        kind: match d.status() {
            git2::Delta::Added => DeltaKind::Added,
            git2::Delta::Deleted => DeltaKind::Deleted,
            git2::Delta::Modified => DeltaKind::Modified,
            git2::Delta::Typechange => DeltaKind::Typechange,
            git2::Delta::Renamed => DeltaKind::Renamed,
            git2::Delta::Copied => DeltaKind::Copied,
            git2::Delta::Untracked => DeltaKind::Untracked,
            _ => DeltaKind::Other,
        },
    }
}

/// Relies on `git2::Repository::diff_tree_to_tree` over the commit and its
/// first parent and `git2::Diff::deltas`: the commit's deltas, each
/// converted by `delta_of`.
#[verifier::external_body]
pub(crate) fn commit_deltas(repo: &git2::Repository, sha: &str) -> (r: Result<
    Vec<RawDelta>,
    String,
>) {
    let oid = git2::Oid::from_str(sha).map_err(err_msg)?;
    let c = repo.find_commit(oid).map_err(err_msg)?;
    let tree = c.tree().map_err(err_msg)?;
    let parent_tree = match c.parent(0) {
        Ok(p) => Some(p.tree().map_err(err_msg)?),
        Err(_) => None,
    };
    let diff = repo.diff_tree_to_tree(parent_tree.as_ref(), Some(&tree), None).map_err(err_msg)?;
    Ok(diff.deltas().map(|d| delta_of(&d)).collect())
}

/// Relies on `git2::Diff::stats` and the stats accessors: the files
/// changed, insertions and deletions of the commit against its first
/// parent.
#[verifier::external_body]
pub(crate) fn diff_stats(repo: &git2::Repository, sha: &str) -> (r: Result<
    (usize, usize, usize),
    String,
>) {
    let oid = git2::Oid::from_str(sha).map_err(err_msg)?;
    let c = repo.find_commit(oid).map_err(err_msg)?;
    let tree = c.tree().map_err(err_msg)?;
    let parent_tree = match c.parent(0) {
        Ok(p) => Some(p.tree().map_err(err_msg)?),
        Err(_) => None,
    };
    let diff = repo.diff_tree_to_tree(parent_tree.as_ref(), Some(&tree), None).map_err(err_msg)?;
    let stats = diff.stats().map_err(err_msg)?;
    Ok((stats.files_changed(), stats.insertions(), stats.deletions()))
}

/// Relies on `git2::Revwalk::push_range` and `Iterator::count`: how many
/// commits are reachable from `to` but not from `from`.
#[verifier::external_body]
pub(crate) fn count_range(repo: &git2::Repository, from_hex: &str, to_hex: &str) -> (r: Result<
    usize,
    String,
>) {
    let from = git2::Oid::from_str(from_hex).map_err(err_msg)?;
    let to = git2::Oid::from_str(to_hex).map_err(err_msg)?;
    let mut walk = repo.revwalk().map_err(err_msg)?;
    let range = format!("{}..{}", from, to);
    walk.push_range(range.as_str()).map_err(err_msg)?;
    Ok(walk.count())
}

/// Relies on `git2::Repository::graph_ahead_behind`: how many commits each
/// side has that the other lacks.
#[verifier::external_body]
pub(crate) fn ahead_behind_oids(repo: &git2::Repository, local_hex: &str, upstream_hex: &str)
    -> (r: Result<(usize, usize), String>) {
    let local = git2::Oid::from_str(local_hex).map_err(err_msg)?;
    let upstream = git2::Oid::from_str(upstream_hex).map_err(err_msg)?;
    repo.graph_ahead_behind(local, upstream).map_err(err_msg)
}

/// Relies on `git2::Repository::find_branch` and `git2::Branch::upstream`:
/// the configured upstream's name, absent where none is set.
#[verifier::external_body]
pub(crate) fn upstream_name(repo: &git2::Repository, branch: &str) -> (r: Result<
    Option<String>,
    String,
>) {
    let b = repo.find_branch(branch, git2::BranchType::Local).map_err(err_msg)?;
    match b.upstream() {
        Ok(up) => Ok(up.name().map_err(err_msg)?.map(|s| s.to_string())),
        Err(_) => Ok(None),
    }
}

/// Relies on `chrono::Utc::now`: the wall clock, as seconds since the
/// epoch.  Nothing can be promised of its value.
#[verifier::external_body]
pub(crate) fn now_unix_seconds() -> (r: i64) {
    chrono::Utc::now().timestamp()
}

/// What the timestamp formatter prints for a given second count: a pure
/// function of the seconds alone.
pub uninterp spec fn rfc3339_of(secs: i64) -> Seq<char>;

/// Relies on `chrono::DateTime::from_timestamp` and
/// `chrono::DateTime::to_rfc3339`: the timestamp normalized to its
/// unambiguous text form, a function of the seconds alone; a count outside
/// the representable range prints as the epoch, keeping the result total.
#[verifier::external_body]
pub(crate) fn rfc3339_utc(secs: i64) -> (r: String)
    ensures
        r@ == rfc3339_of(secs),
{
    let dt = chrono::DateTime::from_timestamp(secs, 0).unwrap_or_else(
        || chrono::DateTime::from_timestamp(0, 0).unwrap(),
    );
    dt.to_rfc3339()
}

} // verus!
