//! Porcelain status parsing and conflict classification.
//!
//! A status line is two status characters, a space, then the path; rename
//! paths are joined by a literal `" -> "`.  Malformed lines are skipped
//! rather than failing the whole listing.

use vstd::prelude::*;

use crate::models::{ConflictFile, ConflictsResponse, StatusFile, StatusResponse};
use crate::text::{chars_to_string, rtrim_line, rtrimmed, split_chars, split_lines, split_seq, str_to_chars, trim_chars, trimmed};

verus! {

/// The underlying cause of a conflicted path, read from the two status
/// characters.  The surfaced label collapses these to one kind; the finer
/// classification is kept here.
#[derive(Debug, Clone, PartialEq, Eq, Structural)]
pub enum ConflictCause {
    BothAdded,
    BothDeleted,
    BothModified,
    AddedByUs,
    AddedByThem,
    DeletedByUs,
    DeletedByThem,
}

/// The conflict cause of a status-character pair, or `None` where the pair
/// does not mark a conflict.  A pair conflicts exactly when both characters
/// are `A`, both are `D`, or either is `U`.
pub open spec fn conflict_cause(a: char, b: char) -> Option<ConflictCause> {
    if a == 'A' && b == 'A' {
        Some(ConflictCause::BothAdded)
    } else if a == 'D' && b == 'D' {
        Some(ConflictCause::BothDeleted)
    } else if a == 'U' && b == 'U' {
        Some(ConflictCause::BothModified)
    } else if a == 'A' && b == 'U' {
        Some(ConflictCause::AddedByUs)
    } else if a == 'U' && b == 'A' {
        Some(ConflictCause::AddedByThem)
    } else if a == 'D' && b == 'U' {
        Some(ConflictCause::DeletedByUs)
    } else if a == 'U' && b == 'D' {
        Some(ConflictCause::DeletedByThem)
    } else if a == 'U' || b == 'U' {
        Some(ConflictCause::BothModified)
    } else {
        None
    }
}

/// Whether a status-character pair marks a conflicted path.
pub open spec fn is_conflict_pair(a: char, b: char) -> bool {
    conflict_cause(a, b) is Some
}

/// Classifies a status-character pair, as `conflict_cause` describes.
pub fn classify_conflict(a: char, b: char) -> (r: Option<ConflictCause>)
    ensures
        r == conflict_cause(a, b),
{
    if a == 'A' && b == 'A' {
        Some(ConflictCause::BothAdded)
    } else if a == 'D' && b == 'D' {
        Some(ConflictCause::BothDeleted)
    } else if a == 'U' && b == 'U' {
        Some(ConflictCause::BothModified)
    } else if a == 'A' && b == 'U' {
        Some(ConflictCause::AddedByUs)
    } else if a == 'U' && b == 'A' {
        Some(ConflictCause::AddedByThem)
    } else if a == 'D' && b == 'U' {
        Some(ConflictCause::DeletedByUs)
    } else if a == 'U' && b == 'D' {
        Some(ConflictCause::DeletedByThem)
    } else if a == 'U' || b == 'U' {
        Some(ConflictCause::BothModified)
    } else {
        None
    }
}

/// The mathematical shape of one status-listing entry.
pub struct StatusFileView {
    pub path: Seq<char>,
    pub old_path: Option<Seq<char>>,
    pub status: Seq<char>,
    pub staged: bool,
    pub unstaged: bool,
    pub kind: Seq<char>,
}

impl View for StatusFile {
    type V = StatusFileView;

    open spec fn view(&self) -> StatusFileView {
        StatusFileView {
            path: self.path@,
            old_path: match self.old_path {
                Some(p) => Some(p@),
                None => None,
            },
            status: self.status@,
            staged: self.staged,
            unstaged: self.unstaged,
            kind: self.kind@,
        }
    }
}

/// The separator of a rename line.
pub open spec fn arrow() -> Seq<char> {
    seq![' ', '-', '>', ' ']
}

/// The change kind read from the two status characters: `added`, `deleted`
/// or `untracked` when either character says so, else `modified`.
pub open spec fn kind_of_pair(a: char, b: char) -> Seq<char> {
    if a == 'A' || b == 'A' {
        "added"@
    } else if a == 'D' || b == 'D' {
        "deleted"@
    } else if a == '?' || b == '?' {
        "untracked"@
    } else {
        "modified"@
    }
}

/// The status entry of one raw status line, or `None` where the line is
/// blank, too short, or a rename line without exactly one `" -> "`.
pub open spec fn status_line_file(raw: Seq<char>) -> Option<StatusFileView> {
    let line = rtrimmed(raw);
    if line.len() < 4 {
        None
    } else {
        let a = line[0];
        let b = line[1];
        let staged = a != ' ' && a != '?';
        let unstaged = b != ' ' && b != '?';
        let status = line.subrange(0, 2);
        let rest = line.subrange(3, line.len() as int);
        let parts = split_seq(rest, arrow());
        if parts.len() == 2 {
            Some(StatusFileView {
                path: parts[1],
                old_path: Some(parts[0]),
                status: status,
                staged: staged,
                unstaged: unstaged,
                kind: "renamed"@,
            })
        } else if parts.len() == 1 {
            Some(StatusFileView {
                path: rest,
                old_path: None,
                status: status,
                staged: staged,
                unstaged: unstaged,
                kind: kind_of_pair(a, b),
            })
        } else {
            None
        }
    }
}

/// The status entries of the first `i` lines, in order, skipping lines that
/// yield none.
pub open spec fn status_files(lines: Seq<Seq<char>>, i: int) -> Seq<StatusFileView>
    decreases i,
{
    if i <= 0 {
        Seq::<StatusFileView>::empty()
    } else {
        let r = status_files(lines, i - 1);
        match status_line_file(lines[i - 1]) {
            Some(f) => r.push(f),
            None => r,
        }
    }
}

/// Parses one status line, as `status_line_file` describes.
fn parse_status_line(raw: &Vec<char>) -> (r: Option<StatusFile>)
    ensures
        match r {
            Some(f) => status_line_file(raw@) == Some(f@),
            None => status_line_file(raw@) is None,
        },
{
    let line = rtrim_line(raw);
    if line.len() < 4 {
        return None;
    }
    let a = line[0];
    let b = line[1];
    let staged = a != ' ' && a != '?';
    let unstaged = b != ' ' && b != '?';
    let mut status_chars: Vec<char> = Vec::new();
    status_chars.push(a);
    status_chars.push(b);
    proof {
        assert(status_chars@ =~= rtrimmed(raw@).subrange(0, 2));
    }
    let status = chars_to_string(&status_chars);
    let mut rest: Vec<char> = Vec::new();
    let mut i: usize = 3;
    while i < line.len()
        invariant
            3 <= i <= line@.len(),
            line@.len() >= 4,
            rest@ =~= line@.subrange(3, i as int),
        decreases line@.len() - i,
    {
        rest.push(line[i]);
        i += 1;
    }
    proof {
        assert(rest@ =~= rtrimmed(raw@).subrange(3, rtrimmed(raw@).len() as int));
    }
    let mut arrow_sep: Vec<char> = Vec::new();
    arrow_sep.push(' ');
    arrow_sep.push('-');
    arrow_sep.push('>');
    arrow_sep.push(' ');
    proof {
        assert(arrow_sep@ =~= arrow());
    }
    let parts = split_chars(&rest, &arrow_sep);
    if parts.len() == 2 {
        proof {
            assert(parts.deep_view()[0] == parts@[0]@);
            assert(parts.deep_view()[1] == parts@[1]@);
        }
        Some(StatusFile {
            path: chars_to_string(&parts[1]),
            old_path: Some(chars_to_string(&parts[0])),
            status: status,
            staged: staged,
            unstaged: unstaged,
            kind: "renamed".to_owned(),
        })
    } else if parts.len() == 1 {
        let kind: String = if a == 'A' || b == 'A' {
            "added".to_owned()
        } else if a == 'D' || b == 'D' {
            "deleted".to_owned()
        } else if a == '?' || b == '?' {
            "untracked".to_owned()
        } else {
            "modified".to_owned()
        };
        Some(StatusFile {
            path: chars_to_string(&rest),
            old_path: None,
            status: status,
            staged: staged,
            unstaged: unstaged,
            kind: kind,
        })
    } else {
        None
    }
}

/// Parses the whole porcelain status listing: one entry per line that
/// `status_line_file` accepts, in line order.
pub fn parse_status(status_out: &str) -> (r: StatusResponse)
    ensures
        r.files@.map_values(|f: StatusFile| f@) =~~= status_files(
            split_lines(status_out@),
            split_lines(status_out@).len() as int,
        ),
{
    let chars = str_to_chars(status_out);
    let mut nl: Vec<char> = Vec::new();
    nl.push('\n');
    let lines = split_chars(&chars, &nl);
    proof {
        assert(nl@ =~= seq!['\n']);
        assert(lines.deep_view() =~~= split_lines(status_out@));
    }
    let ghost linesv = lines.deep_view();
    let mut files: Vec<StatusFile> = Vec::new();
    let mut i: usize = 0;
    while i < lines.len()
        invariant
            linesv == lines.deep_view(),
            i <= linesv.len(),
            files@.map_values(|f: StatusFile| f@) =~~= status_files(linesv, i as int),
        decreases linesv.len() - i,
    {
        proof {
            assert(linesv[i as int] == lines@[i as int]@);
        }
        match parse_status_line(&lines[i]) {
            Some(f) => {
                files.push(f);
            },
            None => {},
        }
        i += 1;
    }
    StatusResponse { files }
}

/// The conflicted path of one raw status line, or `None` where the line is
/// too short, not conflicted, or a rename line without exactly one `" -> "`.
/// The line is trimmed at both ends first.
pub open spec fn conflict_line_path(raw: Seq<char>) -> Option<Seq<char>> {
    let line = trimmed(raw);
    if line.len() < 3 {
        None
    } else if !is_conflict_pair(line[0], line[1]) {
        None
    } else {
        let rest = line.subrange(3, line.len() as int);
        let parts = split_seq(rest, arrow());
        if parts.len() == 2 {
            Some(parts[1])
        } else if parts.len() == 1 {
            Some(rest)
        } else {
            None
        }
    }
}

/// The conflicted paths of the first `i` lines, in order.
pub open spec fn conflict_paths(lines: Seq<Seq<char>>, i: int) -> Seq<Seq<char>>
    decreases i,
{
    if i <= 0 {
        Seq::<Seq<char>>::empty()
    } else {
        let r = conflict_paths(lines, i - 1);
        match conflict_line_path(lines[i - 1]) {
            Some(p) => r.push(p),
            None => r,
        }
    }
}

/// Gathers the conflicted paths of the status listing, each labelled
/// `both-modified`, and says whether any exist.
pub fn parse_conflicts(status_out: &str) -> (r: ConflictsResponse)
    ensures
        r.files@.map_values(|f: ConflictFile| f.path@) =~~= conflict_paths(
            split_lines(status_out@),
            split_lines(status_out@).len() as int,
        ),
        forall|k: int| 0 <= k < r.files@.len() ==> r.files@[k].kind@ == "both-modified"@,
        r.has_conflicts == (r.files@.len() > 0),
{
    let chars = str_to_chars(status_out);
    let mut nl: Vec<char> = Vec::new();
    nl.push('\n');
    let lines = split_chars(&chars, &nl);
    proof {
        assert(nl@ =~= seq!['\n']);
        assert(lines.deep_view() =~~= split_lines(status_out@));
    }
    let ghost linesv = lines.deep_view();
    let mut files: Vec<ConflictFile> = Vec::new();
    let mut i: usize = 0;
    while i < lines.len()
        invariant
            linesv == lines.deep_view(),
            i <= linesv.len(),
            files@.map_values(|f: ConflictFile| f.path@) =~~= conflict_paths(linesv, i as int),
            forall|k: int| 0 <= k < files@.len() ==> files@[k].kind@ == "both-modified"@,
        decreases linesv.len() - i,
    {
        proof {
            assert(linesv[i as int] == lines@[i as int]@);
        }
        match parse_conflict_line(&lines[i]) {
            Some(p) => {
                files.push(ConflictFile { path: p, kind: "both-modified".to_owned() });
            },
            None => {},
        }
        i += 1;
    }
    let has_conflicts = files.len() > 0;
    ConflictsResponse { files, has_conflicts }
}

/// Parses one status line for a conflict, as `conflict_line_path` describes.
fn parse_conflict_line(raw: &Vec<char>) -> (r: Option<String>)
    ensures
        match r {
            Some(p) => conflict_line_path(raw@) == Some(p@),
            None => conflict_line_path(raw@) is None,
        },
{
    let line = trim_chars(raw);
    if line.len() < 3 {
        return None;
    }
    let a = line[0];
    let b = line[1];
    if classify_conflict(a, b).is_none() {
        return None;
    }
    let mut rest: Vec<char> = Vec::new();
    let mut i: usize = 3;
    while i < line.len()
        invariant
            3 <= i <= line@.len(),
            line@.len() >= 3,
            rest@ =~= line@.subrange(3, i as int),
        decreases line@.len() - i,
    {
        rest.push(line[i]);
        i += 1;
    }
    proof {
        assert(rest@ =~= trimmed(raw@).subrange(3, trimmed(raw@).len() as int));
    }
    let mut arrow_sep: Vec<char> = Vec::new();
    arrow_sep.push(' ');
    arrow_sep.push('-');
    arrow_sep.push('>');
    arrow_sep.push(' ');
    proof {
        assert(arrow_sep@ =~= arrow());
    }
    let parts = split_chars(&rest, &arrow_sep);
    if parts.len() == 2 {
        proof {
            assert(parts.deep_view()[1] == parts@[1]@);
        }
        Some(chars_to_string(&parts[1]))
    } else if parts.len() == 1 {
        Some(chars_to_string(&rest))
    } else {
        None
    }
}

} // verus!
