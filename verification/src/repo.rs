//! The opened repository and its query operations: branch metadata,
//! history walking, per-commit changes and structured diffs.  Every
//! operation recomputes its answer from the repository; nothing is cached
//! between calls.

use vstd::prelude::*;

use crate::assemble::assemble_diff;
use crate::branches::{
    branch_lt, choose_main_branch, current_branch_name, is_stale, metadata_wf, refs_fingerprint,
    sort_branches,
};
use crate::diffs::{added_file_diff, deleted_file_diff, empty_file_diff};
use crate::gitio;
use crate::gitio::{DeltaKind, RawDelta, ResolveOutcome};
use crate::models::{BranchInfo, BranchMetadata, Commit, DiffHunkData, FileChange, FileDiff};
use crate::staging::clone_string;
use vstd::string::StrSliceExecFns;

verus! {

/// The mathematical shape of one tree-diff delta.
#[verifier::ext_equal]
pub struct RawDeltaView {
    pub old_path: Option<Seq<char>>,
    pub new_path: Option<Seq<char>>,
    pub kind: DeltaKind,
}

impl View for RawDelta {
    type V = RawDeltaView;

    open spec fn view(&self) -> RawDeltaView {
        RawDeltaView {
            old_path: match self.old_path {
                Some(p) => Some(p@),
                None => None,
            },
            new_path: match self.new_path {
                Some(p) => Some(p@),
                None => None,
            },
            kind: self.kind,
        }
    }
}

/// The status label of a delta: `added` for additions and untracked paths,
/// `removed` for deletions, `modified` for everything else.
pub open spec fn status_label(k: DeltaKind) -> Seq<char> {
    if k == DeltaKind::Added || k == DeltaKind::Untracked {
        "added"@
    } else if k == DeltaKind::Deleted {
        "removed"@
    } else {
        "modified"@
    }
}

/// The change record of one delta: the new path, falling back to the old
/// path, with its status label; a delta with no path yields none.
pub open spec fn change_of(d: RawDeltaView) -> Option<(Seq<char>, Seq<char>)> {
    let path = match d.new_path {
        Some(p) => p,
        None => match d.old_path {
            Some(p) => p,
            None => Seq::<char>::empty(),
        },
    };
    if path.len() == 0 {
        None
    } else {
        Some((path, status_label(d.kind)))
    }
}

/// The change records of the first `i` deltas, in order.
pub open spec fn changes_of(ds: Seq<RawDeltaView>, i: int) -> Seq<(Seq<char>, Seq<char>)>
    decreases i,
{
    if i <= 0 {
        Seq::<(Seq<char>, Seq<char>)>::empty()
    } else {
        let r = changes_of(ds, i - 1);
        match change_of(ds[i - 1]) {
            Some(c) => r.push(c),
            None => r,
        }
    }
}

/// Maps tree-diff deltas to change records, as `changes_of` describes.
pub fn changed_files_of(deltas: &Vec<RawDelta>) -> (r: Vec<FileChange>)
    ensures
        r@.map_values(|f: FileChange| (f.path@, f.status@)) =~~= changes_of(
            deltas@.map_values(|d: RawDelta| d@),
            deltas@.len() as int,
        ),
{
    let ghost dv = deltas@.map_values(|d: RawDelta| d@);
    let mut out: Vec<FileChange> = Vec::new();
    let mut i: usize = 0;
    while i < deltas.len()
        invariant
            dv == deltas@.map_values(|d: RawDelta| d@),
            i <= dv.len(),
            out@.map_values(|f: FileChange| (f.path@, f.status@)) =~~= changes_of(dv, i as int),
        decreases dv.len() - i,
    {
        let d = &deltas[i];
        proof {
            assert(dv[i as int] == d@);
        }
        let path: Option<&String> = match &d.new_path {
            Some(p) => Some(p),
            None => match &d.old_path {
                Some(p) => Some(p),
                None => None,
            },
        };
        match path {
            Some(p) => {
                if p.as_str().unicode_len() > 0 {
                    let status: String = if d.kind == DeltaKind::Added || d.kind
                        == DeltaKind::Untracked {
                        "added".to_owned()
                    } else if d.kind == DeltaKind::Deleted {
                        "removed".to_owned()
                    } else {
                        "modified".to_owned()
                    };
                    out.push(FileChange { path: clone_string(p), status });
                }
            },
            None => {},
        }
        i += 1;
    }
    out
}

/// The commit counts clamped to the answer's width: the files changed, and
/// the insertions plus deletions, each limited to the largest count the
/// answer can hold.
pub fn stats_to_counts(files: usize, insertions: usize, deletions: usize) -> (r: (i32, i32))
    ensures
        r.0 == if files <= i32::MAX { files as int } else { i32::MAX as int },
        r.1 == if insertions + deletions <= i32::MAX {
            insertions + deletions
        } else {
            i32::MAX as int
        },
        r.0 >= 0 && r.1 >= 0,
{
    let f: i32 = if files <= 0x7fff_ffff {
        files as i32
    } else {
        0x7fff_ffff
    };
    let total: i32 = if insertions <= 0x7fff_ffff && deletions <= 0x7fff_ffff && insertions
        + deletions <= 0x7fff_ffff {
        (insertions + deletions) as i32
    } else {
        0x7fff_ffff
    };
    (f, total)
}

/// The names of the tips that point at the commit, in listing order.
pub open spec fn tips_at(tips: Seq<(Seq<char>, Seq<char>)>, oid: Seq<char>, i: int) -> Seq<Seq<
    char,
>>
    decreases i,
{
    if i <= 0 {
        Seq::<Seq<char>>::empty()
    } else {
        let r = tips_at(tips, oid, i - 1);
        if tips[i - 1].1 == oid {
            r.push(tips[i - 1].0)
        } else {
            r
        }
    }
}

/// Gathers the branch names whose tips point at the commit, as `tips_at`
/// describes.
pub fn branches_at(tips: &Vec<(String, String)>, oid: &str) -> (r: Vec<String>)
    ensures
        r.deep_view() =~~= tips_at(
            tips@.map_values(|t: (String, String)| (t.0@, t.1@)),
            oid@,
            tips@.len() as int,
        ),
{
    let ghost tv = tips@.map_values(|t: (String, String)| (t.0@, t.1@));
    let oid_chars = crate::text::str_to_chars(oid);
    let mut out: Vec<String> = Vec::new();
    let mut i: usize = 0;
    while i < tips.len()
        invariant
            tv == tips@.map_values(|t: (String, String)| (t.0@, t.1@)),
            oid_chars@ == oid@,
            i <= tv.len(),
            out.deep_view() =~~= tips_at(tv, oid@, i as int),
        decreases tv.len() - i,
    {
        let t = &tips[i];
        proof {
            assert(tv[i as int] == (t.0@, t.1@));
        }
        let tip_chars = crate::text::str_to_chars(t.1.as_str());
        let ghost before = out.deep_view();
        if crate::branches::chars_eq(&tip_chars, &oid_chars) {
            out.push(clone_string(&t.0));
            proof {
                assert(out.deep_view() =~~= before.push(t.0@));
            }
        }
        i += 1;
    }
    out
}

/// Checks a path handed to a diff: a path holding a NUL character is
/// rejected, since the underlying pathspec cannot carry one; any other
/// path passes.
pub fn validate_diff_path(path: &str) -> (r: Result<(), String>)
    ensures
        r is Ok <==> (forall|i: int| 0 <= i < path@.len() ==> path@[i] != '\0'),
        r matches Err(m) ==> m@ == "path holds a NUL character"@,
{
    if crate::text::has_nul(path) {
        Err("path holds a NUL character".to_owned())
    } else {
        Ok(())
    }
}

/// The walk start read from a resolution outcome: the resolved id; no
/// start for an unborn or unknown revision, so the walk degrades to an
/// empty listing rather than a failure; and the failure text otherwise.
pub fn walk_start(outcome: ResolveOutcome) -> (r: Result<Option<String>, String>)
    ensures
        outcome matches ResolveOutcome::Resolved(o) ==> (r matches Ok(s) && s matches Some(id)
            && id@ == o@),
        outcome is Unborn ==> (r matches Ok(s) && s is None),
        outcome is NotFound ==> (r matches Ok(s) && s is None),
        outcome matches ResolveOutcome::Failed(m) ==> (r matches Err(e) && e@ == m@),
{
    match outcome {
        ResolveOutcome::Resolved(o) => Ok(Some(o)),
        ResolveOutcome::Unborn(_) => Ok(None),
        ResolveOutcome::NotFound(_) => Ok(None),
        ResolveOutcome::Failed(m) => Err(m),
    }
}

/// The resolved id of an outcome, or the failure text of whichever
/// condition held.
pub fn resolved_id(outcome: ResolveOutcome) -> (r: Result<String, String>)
    ensures
        outcome matches ResolveOutcome::Resolved(o) ==> (r matches Ok(id) && id@ == o@),
        outcome matches ResolveOutcome::Unborn(m) ==> (r matches Err(e) && e@ == m@),
        outcome matches ResolveOutcome::NotFound(m) ==> (r matches Err(e) && e@ == m@),
        outcome matches ResolveOutcome::Failed(m) ==> (r matches Err(e) && e@ == m@),
{
    match outcome {
        ResolveOutcome::Resolved(o) => Ok(o),
        ResolveOutcome::Unborn(m) => Err(m),
        ResolveOutcome::NotFound(m) => Err(m),
        ResolveOutcome::Failed(m) => Err(m),
    }
}

/// Whether a resolution outcome reports an unborn branch; any other
/// outcome, a plain failure included, answers no.
pub fn outcome_is_unborn(outcome: ResolveOutcome) -> (r: bool)
    ensures
        r == (outcome is Unborn),
{
    match outcome {
        ResolveOutcome::Unborn(_) => true,
        _ => false,
    }
}

/// The merged flag from a best-effort ancestry answer: true exactly where
/// the check ran and answered yes; an unresolved main line or a failed
/// check degrades to false.
pub fn merged_fallback(answer: Option<bool>) -> (r: bool)
    ensures
        r == (answer == Some(true)),
{
    match answer {
        Some(b) => b,
        None => false,
    }
}

/// The tips to compare for the merge question, where both resolved: the
/// branch tip id and the main-line tip id.  An unresolvable side yields
/// none, and the question is then answered false, never a call failure.
pub fn merged_query(branch_tip: Option<gitio::BranchTip>, main_tip: Option<gitio::BranchTip>)
    -> (r: Option<(String, String)>)
    ensures
        r is Some <==> (branch_tip is Some && main_tip is Some),
        r matches Some(p) ==> ((branch_tip matches Some(b) && p.0@ == b.oid@) && (
        main_tip matches Some(m) && p.1@ == m.oid@)),
{
    match (branch_tip, main_tip) {
        (Some(b), Some(m)) => Some((b.oid, m.oid)),
        _ => None,
    }
}

/// An opened repository.
pub struct GitRepository {
    path: String,
    repo: git2::Repository,
}

impl GitRepository {
    /// The path the repository stands at.
    pub closed spec fn spec_path(&self) -> Seq<char> {
        self.path@
    }

    /// Opens the repository at the path.
    pub fn open(repo_path: &str) -> (r: Result<GitRepository, String>)
        ensures
            r matches Ok(g) ==> g.spec_path() == repo_path@,
    {
        let repo = gitio::open_repository(repo_path)?;
        Ok(GitRepository { path: repo_path.to_owned(), repo })
    }

    /// The path the repository was opened at.
    pub fn path(&self) -> (r: &str)
        ensures
            r@ == self.spec_path(),
    {
        self.path.as_str()
    }

    /// Builds the branch listing in a single pass: all branches sorted by
    /// rank then name and deduplicated, the current branch (read literally
    /// where the repository has no commits yet), per-branch metadata keyed
    /// in the same order with each tip resolved exactly once, and the refs
    /// fingerprint over the collected `(name, id)` pairs.  An unresolvable
    /// branch degrades to an unborn record, never a call failure.
    pub fn get_branch_info(&self) -> (r: Result<BranchInfo, String>)
        ensures
            r matches Ok(info) ==> {
                let bs = info.branches.deep_view();
                (forall|i: int, j: int| 0 <= i < j < bs.len() ==> branch_lt(bs[i], bs[j]))
                    && (info.branch_metadata matches Some(md) && md@.len() == bs.len() && (forall|
                        k: int,
                    |
                        0 <= k < md@.len() ==> (#[trigger] md@[k]).0@ == bs[k] && metadata_wf(
                            md@[k].1,
                        )) && (info.refs_hash matches Some(h) && (exists|
                        pv: Seq<(Seq<char>, Option<Seq<char>>)>,
                    |
                        #![trigger crate::branches::fp_sum(pv)]
                        h@ == crate::branches::hex_rep(
                            crate::branches::fp_sum(pv) as nat,
                        ) && pv.len() == bs.len() && (forall|k: int|
                            0 <= k < pv.len() ==> (#[trigger] pv[k]).0 == bs[k] && (pv[k].1
                                is Some <==> !md@[k].1.is_unborn)))))
            },
    {
        let raw_names = gitio::branch_names(&self.repo, false)?;
        let branches = sort_branches(&raw_names);
        let head = gitio::head_info(&self.repo);
        let symbolic = match &head {
            crate::branches::HeadInfo::Unborn => gitio::head_symbolic_target(&self.repo),
            _ => None,
        };
        let current = current_branch_name(head, symbolic)?;
        let main_branch = choose_main_branch(&branches);
        let main_tip = gitio::resolve_tip(&self.repo, main_branch.as_str());
        let now = gitio::now_unix_seconds();
        let mut metadata: Vec<(String, BranchMetadata)> = Vec::new();
        let mut pairs: Vec<(String, Option<String>)> = Vec::new();
        let ghost bs = branches.deep_view();
        let mut k: usize = 0;
        while k < branches.len()
            invariant
                bs == branches.deep_view(),
                k <= bs.len(),
                metadata@.len() == k,
                pairs@.len() == k,
                forall|t: int|
                    0 <= t < k ==> (#[trigger] metadata@[t]).0@ == bs[t] && metadata_wf(
                        metadata@[t].1,
                    ),
                forall|t: int|
                    0 <= t < k ==> (#[trigger] pairs@[t]).0@ == bs[t] && (pairs@[t].1 is Some
                        <==> !metadata@[t].1.is_unborn),
            decreases bs.len() - k,
        {
            let name = &branches[k];
            proof {
                assert(bs[k as int] == name@);
            }
            let tip = gitio::resolve_tip(&self.repo, name.as_str());
            match tip {
                None => {
                    metadata.push(
                        (
                            clone_string(name),
                            BranchMetadata {
                                is_merged: false,
                                is_stale: false,
                                is_unborn: true,
                                last_commit_date: None,
                            },
                        ),
                    );
                    pairs.push((clone_string(name), None));
                },
                Some(t) => {
                    let answer: Option<bool> = match &main_tip {
                        Some(mt) => {
                            match gitio::graph_descendant(
                                &self.repo,
                                mt.oid.as_str(),
                                t.oid.as_str(),
                            ) {
                                Ok(b) => Some(b),
                                Err(_) => None,
                            }
                        },
                        None => None,
                    };
                    let merged = merged_fallback(answer);
                    let (date, stale): (Option<String>, bool) = match t.time_secs {
                        Some(secs) => (Some(gitio::rfc3339_utc(secs)), is_stale(secs, now)),
                        None => (None, false),
                    };
                    metadata.push(
                        (
                            clone_string(name),
                            BranchMetadata {
                                is_merged: merged,
                                is_stale: stale,
                                is_unborn: false,
                                last_commit_date: date,
                            },
                        ),
                    );
                    pairs.push((clone_string(name), Some(t.oid)));
                },
            }
            k += 1;
        }
        let head_sha = gitio::head_oid(&self.repo);
        let refs_hash = refs_fingerprint(&pairs);
        proof {
            let pv = crate::branches::pairs_view(pairs@);
            assert(refs_hash@ == crate::branches::hex_rep(crate::branches::fp_sum(pv) as nat));
            assert forall|t: int| 0 <= t < pv.len() implies (#[trigger] pv[t]).0 == bs[t] && (
            pv[t].1 is Some <==> !metadata@[t].1.is_unborn) by {
                assert(pv[t] == (
                    pairs@[t].0@,
                    match pairs@[t].1 {
                        Some(x) => Some(x@),
                        None => None::<Seq<char>>,
                    },
                ));
            }
        }
        Ok(
            BranchInfo {
                current,
                branches,
                branch_metadata: Some(metadata),
                head: head_sha,
                refs_hash: Some(refs_hash),
            },
        )
    }

    /// The local branch names, as listed.
    pub fn get_branches(&self) -> (r: Result<Vec<String>, String>) {
        gitio::branch_names(&self.repo, true)
    }

    /// Resolves a revision expression to its full commit id, as
    /// `resolved_id` describes over the resolution outcome.
    pub fn rev_parse(&self, spec: &str) -> (r: Result<String, String>) {
        resolved_id(gitio::revparse_outcome(&self.repo, spec))
    }

    /// The configured upstream of a local branch, if any.
    pub fn get_upstream(&self, branch_name: &str) -> (r: Result<Option<String>, String>) {
        gitio::upstream_name(&self.repo, branch_name)
    }

    /// How many commits each of two revisions has that the other lacks.
    pub fn ahead_behind(&self, local: &str, upstream: &str) -> (r: Result<(usize, usize), String>) {
        let local_oid = self.rev_parse(local)?;
        let upstream_oid = self.rev_parse(upstream)?;
        gitio::ahead_behind_oids(&self.repo, local_oid.as_str(), upstream_oid.as_str())
    }

    /// Whether `ancestor` is an ancestor of `commit`.
    pub fn is_ancestor(&self, commit: &str, ancestor: &str) -> (r: Result<bool, String>) {
        gitio::graph_descendant(&self.repo, commit, ancestor)
    }

    /// How many commits `to` reaches that `from` does not.
    pub fn count_commits_between(&self, from: &str, to: &str) -> (r: Result<usize, String>) {
        gitio::count_range(&self.repo, from, to)
    }

    /// The commit's files-changed and lines-changed counts against its
    /// first parent, as `stats_to_counts` describes.
    pub fn get_commit_stats(&self, oid_hex: &str) -> (r: Result<(i32, i32), String>)
        ensures
            r matches Ok(c) ==> c.0 >= 0 && c.1 >= 0,
    {
        let (files, ins, dels) = gitio::diff_stats(&self.repo, oid_hex)?;
        Ok(stats_to_counts(files, ins, dels))
    }

    /// The changed paths of a commit against its first parent, each with
    /// its status label, as `changes_of` describes over the reported
    /// deltas.
    pub fn get_commit_changed_files(&self, commit_sha: &str) -> (r: Result<
        Vec<FileChange>,
        String,
    >) {
        let deltas = gitio::commit_deltas(&self.repo, commit_sha)?;
        Ok(changed_files_of(&deltas))
    }

    /// Walks history from the revision expression (`HEAD` where empty) in
    /// topological order with ties broken by time, newest first, and
    /// returns at most `limit` commits; an unborn or unknown revision
    /// yields an empty listing.  Each commit is decorated with every branch
    /// whose tip points at it.
    pub fn get_commits(&self, branch_name: &str, limit: usize) -> (r: Result<Vec<Commit>, String>)
        ensures
            r matches Ok(v) ==> v@.len() <= limit && (forall|k: int|
                0 <= k < v@.len() ==> (#[trigger] v@[k]).is_merge == (v@[k].parents@.len() > 1)),
    {
        let spec_str: &str = if branch_name.unicode_len() == 0 {
            "HEAD"
        } else {
            branch_name
        };
        let start = match walk_start(gitio::revparse_outcome(&self.repo, spec_str))? {
            Some(oid) => oid,
            None => {
                return Ok(Vec::new());
            },
        };
        let oids = gitio::walk_oids(&self.repo, start.as_str(), limit)?;
        let tips = gitio::branch_tips(&self.repo)?;
        let mut commits: Vec<Commit> = Vec::new();
        let mut i: usize = 0;
        while i < oids.len()
            invariant
                oids@.len() <= limit,
                i <= oids@.len(),
                commits@.len() == i,
                forall|k: int|
                    0 <= k < i ==> (#[trigger] commits@[k]).is_merge == (commits@[k].parents@.len()
                        > 1),
            decreases oids@.len() - i,
        {
            let oid = &oids[i];
            let rec = gitio::commit_record(&self.repo, oid.as_str())?;
            let branches = branches_at(&tips, oid.as_str());
            let date = gitio::rfc3339_utc(rec.time_secs);
            let is_merge = rec.parents.len() > 1;
            commits.push(
                Commit {
                    sha: clone_string(oid),
                    author: rec.author,
                    email: rec.email,
                    date,
                    message: rec.message,
                    parents: rec.parents,
                    is_merge,
                    branches,
                    primary_branch: None,
                    is_head: None,
                    is_main: None,
                },
            );
            i += 1;
        }
        Ok(commits)
    }

    /// Walks history as `get_commits` does, but decorates every commit
    /// uniformly with the single input revision expression, for callers
    /// that merge per-branch walks themselves.
    pub fn get_commits_local(&self, branch_name: &str, limit: usize) -> (r: Result<
        Vec<Commit>,
        String,
    >)
        ensures
            r matches Ok(v) ==> v@.len() <= limit && (forall|k: int|
                0 <= k < v@.len() ==> ((#[trigger] v@[k]).is_merge == (v@[k].parents@.len() > 1)
                    && v@[k].branches@.len() == 1 && v@[k].branches@[0]@ == (
                if branch_name@.len() == 0 {
                    "HEAD"@
                } else {
                    branch_name@
                }))),
    {
        let spec_str: &str = if branch_name.unicode_len() == 0 {
            "HEAD"
        } else {
            branch_name
        };
        let start = match walk_start(gitio::revparse_outcome(&self.repo, spec_str))? {
            Some(oid) => oid,
            None => {
                return Ok(Vec::new());
            },
        };
        let oids = gitio::walk_oids(&self.repo, start.as_str(), limit)?;
        let mut commits: Vec<Commit> = Vec::new();
        let mut i: usize = 0;
        while i < oids.len()
            invariant
                oids@.len() <= limit,
                i <= oids@.len(),
                commits@.len() == i,
                spec_str@ == if branch_name@.len() == 0 {
                    "HEAD"@
                } else {
                    branch_name@
                },
                forall|k: int|
                    0 <= k < i ==> ((#[trigger] commits@[k]).is_merge == (
                    commits@[k].parents@.len() > 1) && commits@[k].branches@.len() == 1
                        && commits@[k].branches@[0]@ == spec_str@),
            decreases oids@.len() - i,
        {
            let oid = &oids[i];
            let rec = gitio::commit_record(&self.repo, oid.as_str())?;
            let mut branches: Vec<String> = Vec::new();
            branches.push(spec_str.to_owned());
            let date = gitio::rfc3339_utc(rec.time_secs);
            let is_merge = rec.parents.len() > 1;
            commits.push(
                Commit {
                    sha: clone_string(oid),
                    author: rec.author,
                    email: rec.email,
                    date,
                    message: rec.message,
                    parents: rec.parents,
                    is_merge,
                    branches,
                    primary_branch: None,
                    is_head: None,
                    is_main: None,
                },
            );
            i += 1;
        }
        Ok(commits)
    }

    /// The last commit time on a branch (`HEAD` where the name is empty),
    /// normalized to the unambiguous timestamp form; absent where the
    /// revision does not resolve or does not peel to a commit.
    pub fn get_branch_last_commit_date(&self, branch_name: &str) -> (r: Result<
        Option<String>,
        String,
    >)
        ensures
            r is Ok,
    {
        let spec_str: &str = if branch_name.unicode_len() == 0 {
            "HEAD"
        } else {
            branch_name
        };
        match gitio::resolve_tip(&self.repo, spec_str) {
            None => Ok(None),
            Some(t) => match t.time_secs {
                Some(secs) => Ok(Some(gitio::rfc3339_utc(secs))),
                None => Ok(None),
            },
        }
    }

    /// Whether a branch reference exists symbolically but has no commits
    /// yet: true exactly on the unborn-branch resolution outcome, as
    /// `outcome_is_unborn` describes; the call itself never fails.
    pub fn is_branch_unborn(&self, branch_name: &str) -> (r: Result<bool, String>)
        ensures
            r is Ok,
    {
        Ok(outcome_is_unborn(gitio::revparse_outcome(&self.repo, branch_name)))
    }

    /// Whether a branch's tip is an ancestor of the main-line branch's
    /// tip; as `merged_query` describes, a tip that fails to resolve
    /// answers false rather than failing the call.
    pub fn is_branch_merged(&self, branch_name: &str, main_branch: &str) -> (r: Result<
        bool,
        String,
    >) {
        let branch_tip = gitio::resolve_tip(&self.repo, branch_name);
        let main_tip = gitio::resolve_tip(&self.repo, main_branch);
        match merged_query(branch_tip, main_tip) {
            None => Ok(false),
            Some(oids) => gitio::graph_descendant(&self.repo, oids.1.as_str(), oids.0.as_str()),
        }
    }

    /// The diff of one file in a commit against the commit's first parent.
    /// A file absent in the parent and present in the commit yields the
    /// synthesized pure-addition diff; the symmetric case yields the
    /// pure-deletion diff; a file present in both yields the structured
    /// tree-to-tree diff assembled into text and hunks; a file in neither
    /// yields the empty diff.  A path holding a NUL character (rejected as
    /// `validate_diff_path` describes), a file longer than the hunk
    /// counters can index, and a diff with more printed lines than they
    /// can count are refused with an error (machine limits; the underlying
    /// option setter cannot take a NUL).  Every returned hunk's declared
    /// counts agree with its lines.
    pub fn get_file_diff(&self, commit_sha: &str, file_path: &str) -> (r: Result<FileDiff, String>)
        requires
            file_path@.len() < 0x100_0000,
        ensures
            r matches Ok(d) ==> d.file_path@ == file_path@,
            r matches Ok(d) ==> forall|k: int|
                0 <= k < d.hunks@.len() ==> crate::assemble::counts_ok((#[trigger] d.hunks@[k])@),
            (exists|i: int| 0 <= i < file_path@.len() && file_path@[i] == '\0') ==> (r matches Err(
                m,
            ) && m@ == "path holds a NUL character"@),
    {
        validate_diff_path(file_path)?;
        let in_parent = gitio::file_content_at(&self.repo, commit_sha, file_path, true)?;
        let in_current = gitio::file_content_at(&self.repo, commit_sha, file_path, false)?;
        match (in_parent, in_current) {
            (None, Some(content)) => {
                if content.as_str().unicode_len() >= 0x2000_0000 {
                    return Err("file too large to diff".to_owned());
                }
                let d = added_file_diff(file_path, content.as_str());
                proof {
                    crate::diffs::lemma_addition_hunk_counts(crate::diffs::lines_of(content@));
                    assert forall|k: int|
                        0 <= k < d.hunks@.len() implies crate::assemble::counts_ok(
                        (#[trigger] d.hunks@[k])@,
                    ) by {
                        assert(d.hunks@.map_values(|h: DiffHunkData| h@)[k] == d.hunks@[k]@);
                        assert(d.hunks@.map_values(|h: DiffHunkData| h@)[k]
                            == crate::diffs::addition_hunk(crate::diffs::lines_of(content@)));
                    }
                }
                Ok(d)
            },
            (Some(content), None) => {
                if content.as_str().unicode_len() >= 0x2000_0000 {
                    return Err("file too large to diff".to_owned());
                }
                let d = deleted_file_diff(file_path, content.as_str());
                proof {
                    crate::diffs::lemma_deletion_hunk_counts(crate::diffs::lines_of(content@));
                    assert forall|k: int|
                        0 <= k < d.hunks@.len() implies crate::assemble::counts_ok(
                        (#[trigger] d.hunks@[k])@,
                    ) by {
                        assert(d.hunks@.map_values(|h: DiffHunkData| h@)[k] == d.hunks@[k]@);
                        assert(d.hunks@.map_values(|h: DiffHunkData| h@)[k]
                            == crate::diffs::deletion_hunk(crate::diffs::lines_of(content@)));
                    }
                }
                Ok(d)
            },
            (Some(_), Some(_)) => {
                let diff = gitio::tree_diff(&self.repo, commit_sha, file_path)?;
                let events = gitio::patch_events(&diff)?;
                if events.len() > 0x7fff_ffff {
                    return Err("diff too large".to_owned());
                }
                Ok(assemble_diff(&events, true, file_path))
            },
            (None, None) => Ok(empty_file_diff(file_path)),
        }
    }

    /// The diff of one file between the head tree and the index
    /// (`staged`) or between the index and the working tree, assembled
    /// into text and hunks exactly as the commit-relative diff is.  A path
    /// holding a NUL character is refused, as `validate_diff_path`
    /// describes, and every returned hunk's declared counts agree with its
    /// lines.
    pub fn get_working_diff(&self, file_path: &str, staged: bool) -> (r: Result<FileDiff, String>)
        ensures
            r matches Ok(d) ==> d.file_path@ == file_path@,
            r matches Ok(d) ==> forall|k: int|
                0 <= k < d.hunks@.len() ==> crate::assemble::counts_ok((#[trigger] d.hunks@[k])@),
            (exists|i: int| 0 <= i < file_path@.len() && file_path@[i] == '\0') ==> (r matches Err(
                m,
            ) && m@ == "path holds a NUL character"@),
    {
        validate_diff_path(file_path)?;
        let diff = gitio::workdir_diff(&self.repo, file_path, staged)?;
        let events = gitio::patch_events(&diff)?;
        if events.len() > 0x7fff_ffff {
            return Err("diff too large".to_owned());
        }
        Ok(assemble_diff(&events, false, file_path))
    }
}

} // verus!
