//! Commit-record parsing helpers: canonicalizing revision identifiers,
//! reading the rebase-preview log records, the stash listing, and the small
//! numeric outputs of the underlying tool.

use vstd::prelude::*;

use crate::models::{Commit, StashEntry};
use crate::text::{
    chars_to_string, digits_val, is_digit, is_space, split_chars, split_seq, str_to_chars,
    trim_chars, trimmed,
};

verus! {

/// The mathematical shape of one commit record.
#[verifier::ext_equal]
pub struct CommitView {
    pub sha: Seq<char>,
    pub author: Seq<char>,
    pub email: Seq<char>,
    pub date: Seq<char>,
    pub message: Seq<char>,
    pub parents: Seq<Seq<char>>,
    pub is_merge: bool,
    pub branches: Seq<Seq<char>>,
    pub primary_branch: Option<Seq<char>>,
    pub is_head: Option<bool>,
    pub is_main: Option<bool>,
}

impl View for Commit {
    type V = CommitView;

    open spec fn view(&self) -> CommitView {
        CommitView {
            sha: self.sha@,
            author: self.author@,
            email: self.email@,
            date: self.date@,
            message: self.message@,
            parents: self.parents.deep_view(),
            is_merge: self.is_merge,
            branches: self.branches.deep_view(),
            primary_branch: match self.primary_branch {
                Some(p) => Some(p@),
                None => None,
            },
            is_head: self.is_head,
            is_main: self.is_main,
        }
    }
}

/// A hexadecimal digit.
pub open spec fn is_hex_digit(c: char) -> bool {
    ('0' <= c && c <= '9') || ('a' <= c && c <= 'f') || ('A' <= c && c <= 'F')
}

/// The end of the hexadecimal run that starts at `from`.
pub open spec fn hex_run_end(s: Seq<char>, from: int) -> int
    decreases s.len() - from,
{
    if from < 0 {
        from
    } else if from >= s.len() || !is_hex_digit(s[from]) {
        from
    } else {
        hex_run_end(s, from + 1)
    }
}

/// A revision identifier in canonical form: the leading hexadecimal run of
/// the trimmed text, so that trailing decoration or abbreviation markers
/// received from the tool are not echoed back.
pub open spec fn normalized_sha(s: Seq<char>) -> Seq<char> {
    let t = trimmed(s);
    t.subrange(0, hex_run_end(t, 0))
}

proof fn lemma_hex_run_end(s: Seq<char>, from: int)
    requires
        0 <= from <= s.len(),
    ensures
        from <= hex_run_end(s, from) <= s.len(),
    decreases s.len() - from,
{
    if from >= s.len() || !is_hex_digit(s[from]) {
    } else {
        lemma_hex_run_end(s, from + 1);
    }
}

/// Canonicalizes a revision identifier, as `normalized_sha` describes.
pub fn normalize_sha(s: &str) -> (r: String)
    ensures
        r@ == normalized_sha(s@),
{
    let chars = str_to_chars(s);
    let t = trim_chars(&chars);
    let mut j: usize = 0;
    while j < t.len() && (('0' <= t[j] && t[j] <= '9') || ('a' <= t[j] && t[j] <= 'f') || ('A'
        <= t[j] && t[j] <= 'F'))
        invariant
            j <= t@.len(),
            hex_run_end(t@, 0) == hex_run_end(t@, j as int),
        decreases t@.len() - j,
    {
        j += 1;
    }
    proof {
        assert(hex_run_end(t@, j as int) == j);
        lemma_hex_run_end(t@, 0);
    }
    let mut r: Vec<char> = Vec::new();
    let mut k: usize = 0;
    while k < j
        invariant
            k <= j <= t@.len(),
            r@ =~= t@.subrange(0, k as int),
        decreases j - k,
    {
        r.push(t[k]);
        k += 1;
    }
    proof {
        assert(r@ =~= normalized_sha(s@));
    }
    chars_to_string(&r)
}

/// The commit of one rebase-preview record, or `None` where the record is
/// blank or has fewer than four fields.  Fields are separated by the unit
/// separator; the revision is canonicalized, the author, date and message
/// are trimmed, and the email, parents and branches are left empty.
pub open spec fn rebase_commit_of(raw: Seq<char>) -> Option<CommitView> {
    let c = trimmed(raw);
    if c.len() == 0 {
        None
    } else {
        let parts = split_seq(c, seq!['\x1f']);
        if parts.len() < 4 {
            None
        } else {
            Some(
                CommitView {
                    sha: normalized_sha(parts[0]),
                    author: trimmed(parts[1]),
                    email: Seq::<char>::empty(),
                    date: trimmed(parts[2]),
                    message: trimmed(parts[3]),
                    parents: Seq::<Seq<char>>::empty(),
                    is_merge: false,
                    branches: Seq::<Seq<char>>::empty(),
                    primary_branch: None,
                    is_head: None,
                    is_main: None,
                },
            )
        }
    }
}

/// The commits of the first `i` records, in order.
pub open spec fn rebase_commits(chunks: Seq<Seq<char>>, i: int) -> Seq<CommitView>
    decreases i,
{
    if i <= 0 {
        Seq::<CommitView>::empty()
    } else {
        let r = rebase_commits(chunks, i - 1);
        match rebase_commit_of(chunks[i - 1]) {
            Some(c) => r.push(c),
            None => r,
        }
    }
}

/// Parses the rebase-preview log output: records separated by the record
/// separator, each read as `rebase_commit_of` describes.
pub fn parse_rebase_commits(commits_out: &str) -> (r: Vec<Commit>)
    ensures
        r@.map_values(|c: Commit| c@) =~~= rebase_commits(
            split_seq(commits_out@, seq!['\x1e']),
            split_seq(commits_out@, seq!['\x1e']).len() as int,
        ),
{
    let chars = str_to_chars(commits_out);
    let mut rs: Vec<char> = Vec::new();
    rs.push('\x1e');
    let chunks = split_chars(&chars, &rs);
    proof {
        assert(rs@ =~= seq!['\x1e']);
        assert(chunks.deep_view() =~~= split_seq(commits_out@, seq!['\x1e']));
    }
    let ghost chunksv = chunks.deep_view();
    let mut commits: Vec<Commit> = Vec::new();
    let mut i: usize = 0;
    while i < chunks.len()
        invariant
            chunksv == chunks.deep_view(),
            i <= chunksv.len(),
            commits@.map_values(|c: Commit| c@) =~~= rebase_commits(chunksv, i as int),
        decreases chunksv.len() - i,
    {
        proof {
            assert(chunksv[i as int] == chunks@[i as int]@);
        }
        match parse_rebase_chunk(&chunks[i]) {
            Some(c) => {
                commits.push(c);
            },
            None => {},
        }
        i += 1;
    }
    commits
}

/// Parses one rebase-preview record, as `rebase_commit_of` describes.
fn parse_rebase_chunk(raw: &Vec<char>) -> (r: Option<Commit>)
    ensures
        match r {
            Some(c) => rebase_commit_of(raw@) matches Some(g) && g =~~= c@,
            None => rebase_commit_of(raw@) is None,
        },
{
    let c = trim_chars(raw);
    if c.len() == 0 {
        return None;
    }
    let mut us: Vec<char> = Vec::new();
    us.push('\x1f');
    let parts = split_chars(&c, &us);
    proof {
        assert(us@ =~= seq!['\x1f']);
        assert(parts.deep_view() =~~= split_seq(trimmed(raw@), seq!['\x1f']));
    }
    if parts.len() < 4 {
        return None;
    }
    proof {
        assert(parts.deep_view()[0] == parts@[0]@);
        assert(parts.deep_view()[1] == parts@[1]@);
        assert(parts.deep_view()[2] == parts@[2]@);
        assert(parts.deep_view()[3] == parts@[3]@);
    }
    let sha_str = chars_to_string(&parts[0]);
    let sha = normalize_sha(sha_str.as_str());
    let author = chars_to_string(&trim_chars(&parts[1]));
    let date = chars_to_string(&trim_chars(&parts[2]));
    let message = chars_to_string(&trim_chars(&parts[3]));
    proof {
        reveal_strlit("");
        assert(""@ =~= Seq::<char>::empty());
    }
    Some(
        Commit {
            sha,
            author,
            email: "".to_owned(),
            date,
            message,
            parents: Vec::new(),
            is_merge: false,
            branches: Vec::new(),
            primary_branch: None,
            is_head: None,
            is_main: None,
        },
    )
}

/// The stash entry of one listing line, or `None` where the line is empty
/// or has fewer than three unit-separated fields.
pub open spec fn stash_entry_of(line: Seq<char>) -> Option<(Seq<char>, Seq<char>, Seq<char>)> {
    if line.len() == 0 {
        None
    } else {
        let parts = split_seq(line, seq!['\x1f']);
        if parts.len() >= 3 {
            Some((parts[0], parts[1], parts[2]))
        } else {
            None
        }
    }
}

/// The stash entries of the first `i` lines, in order.
pub open spec fn stash_entries(lines: Seq<Seq<char>>, i: int) -> Seq<(Seq<char>, Seq<char>, Seq<
    char,
>)>
    decreases i,
{
    if i <= 0 {
        Seq::<(Seq<char>, Seq<char>, Seq<char>)>::empty()
    } else {
        let r = stash_entries(lines, i - 1);
        match stash_entry_of(lines[i - 1]) {
            Some(e) => r.push(e),
            None => r,
        }
    }
}

/// Parses the stash listing: one entry per line holding at least the
/// stash reference, the message and the date.
pub fn parse_stash_list(output: &str) -> (r: Vec<StashEntry>)
    ensures
        r@.map_values(|e: StashEntry| (e.index@, e.message@, e.date@)) =~~= stash_entries(
            crate::text::split_lines(output@),
            crate::text::split_lines(output@).len() as int,
        ),
{
    let chars = str_to_chars(output);
    let mut nl: Vec<char> = Vec::new();
    nl.push('\n');
    let lines = split_chars(&chars, &nl);
    proof {
        assert(nl@ =~= seq!['\n']);
        assert(lines.deep_view() =~~= crate::text::split_lines(output@));
    }
    let ghost linesv = lines.deep_view();
    let mut entries: Vec<StashEntry> = Vec::new();
    let mut i: usize = 0;
    while i < lines.len()
        invariant
            linesv == lines.deep_view(),
            i <= linesv.len(),
            entries@.map_values(|e: StashEntry| (e.index@, e.message@, e.date@)) =~~= stash_entries(
                linesv,
                i as int,
            ),
        decreases linesv.len() - i,
    {
        proof {
            assert(linesv[i as int] == lines@[i as int]@);
        }
        let line = &lines[i];
        if line.len() > 0 {
            let mut us: Vec<char> = Vec::new();
            us.push('\x1f');
            let parts = split_chars(line, &us);
            proof {
                assert(us@ =~= seq!['\x1f']);
                assert(parts.deep_view() =~~= split_seq(line@, seq!['\x1f']));
            }
            if parts.len() >= 3 {
                proof {
                    assert(parts.deep_view()[0] == parts@[0]@);
                    assert(parts.deep_view()[1] == parts@[1]@);
                    assert(parts.deep_view()[2] == parts@[2]@);
                }
                entries.push(
                    StashEntry {
                        index: chars_to_string(&parts[0]),
                        message: chars_to_string(&parts[1]),
                        date: chars_to_string(&parts[2]),
                    },
                );
            }
        }
        i += 1;
    }
    entries
}

/// The end of the non-whitespace run that starts at `from`.
pub open spec fn token_end(s: Seq<char>, from: int) -> int
    decreases s.len() - from,
{
    if from < 0 {
        from
    } else if from >= s.len() || is_space(s[from]) {
        from
    } else {
        token_end(s, from + 1)
    }
}

/// The whitespace-separated tokens of the text, in order, with no empty
/// tokens.
pub open spec fn split_ws(s: Seq<char>) -> Seq<Seq<char>>
    decreases s.len(),
{
    if s.len() == 0 {
        Seq::<Seq<char>>::empty()
    } else if is_space(s[0]) {
        split_ws(s.drop_first())
    } else {
        let e0 = token_end(s, 1);
        let e = if 1 <= e0 <= s.len() {
            e0
        } else {
            1
        };
        seq![s.subrange(0, e)] + split_ws(s.skip(e))
    }
}

proof fn lemma_token_end(s: Seq<char>, from: int)
    requires
        0 <= from <= s.len(),
    ensures
        from <= token_end(s, from) <= s.len(),
        from < s.len() && !is_space(s[from]) ==> token_end(s, from) > from,
    decreases s.len() - from,
{
    if from >= s.len() || is_space(s[from]) {
    } else {
        lemma_token_end(s, from + 1);
    }
}

/// Gathers the whitespace-separated tokens, as `split_ws` describes.
pub fn split_whitespace_chars(v: &Vec<char>) -> (r: Vec<Vec<char>>)
    ensures
        r.deep_view() =~~= split_ws(v@),
{
    let mut out: Vec<Vec<char>> = Vec::new();
    let mut i: usize = 0;
    proof {
        assert(v@.skip(0) =~= v@);
    }
    while i < v.len()
        invariant
            i <= v@.len(),
            split_ws(v@) =~~= out.deep_view() + split_ws(v@.skip(i as int)),
        decreases v@.len() - i,
    {
        let ghost rest = v@.skip(i as int);
        let c = v[i];
        if c == ' ' || c == '\t' || c == '\r' || c == '\n' {
            i += 1;
            proof {
                assert(rest.drop_first() =~= v@.skip(i as int));
                assert(split_ws(rest) =~~= split_ws(v@.skip(i as int)));
            }
        } else {
            let mut tok: Vec<char> = Vec::new();
            let start = i;
            let mut j: usize = i;
            while j < v.len() && !(v[j] == ' ' || v[j] == '\t' || v[j] == '\r' || v[j] == '\n')
                invariant
                    start <= j <= v@.len(),
                    token_end(v@, start as int) == token_end(v@, j as int),
                    tok@ =~= v@.subrange(start as int, j as int),
                decreases v@.len() - j,
            {
                tok.push(v[j]);
                j += 1;
            }
            proof {
                assert(token_end(v@, j as int) == j);
                lemma_token_end(v@, start as int);
                lemma_token_end_local(v@, start as int);
            }
            let ghost before = out.deep_view();
            out.push(tok);
            i = j;
            proof {
                assert(out.deep_view() =~~= before.push(v@.subrange(start as int, j as int)));
                assert(split_ws(rest) =~~= seq![v@.subrange(start as int, j as int)] + split_ws(
                    v@.skip(j as int),
                ));
            }
        }
    }
    proof {
        assert(v@.skip(v@.len() as int) =~= Seq::<char>::empty());
        assert(split_ws(Seq::<char>::empty()) =~~= Seq::<Seq<char>>::empty());
    }
    out
}

/// The token that starts a suffix is the token of the whole sequence at
/// that offset.
proof fn lemma_token_end_local(s: Seq<char>, start: int)
    requires
        0 <= start < s.len(),
        !is_space(s[start]),
    ensures
        split_ws(s.skip(start)) =~~= seq![
            s.subrange(start, token_end(s, start)),
        ] + split_ws(s.skip(token_end(s, start))),
        token_end(s.skip(start), 0) == token_end(s, start) - start,
    decreases s.len() - start,
{
    let rest = s.skip(start);
    lemma_token_end(s, start);
    lemma_token_end_shift(s, start, start);
    let e = token_end(s, start);
    assert(rest.subrange(0, e - start) =~= s.subrange(start, e));
    assert(rest.skip(e - start) =~= s.skip(e));
}

/// Token ends shift with the suffix offset.
proof fn lemma_token_end_shift(s: Seq<char>, start: int, from: int)
    requires
        0 <= start <= from <= s.len(),
    ensures
        token_end(s.skip(start), from - start) == token_end(s, from) - start,
    decreases s.len() - from,
{
    let rest = s.skip(start);
    if from >= s.len() || is_space(s[from]) {
        assert(from - start >= rest.len() || is_space(rest[from - start]));
    } else {
        assert(!is_space(rest[from - start]));
        lemma_token_end_shift(s, start, from + 1);
    }
}

/// The value of a token read as an unsigned size: its digits' value when
/// the token is all digits and fits, else zero.
pub open spec fn parsed_usize_or_zero(s: Seq<char>) -> int {
    if s.len() > 0 && (forall|t: int| 0 <= t < s.len() ==> is_digit(s[t])) && digits_val(s)
        <= usize::MAX {
        digits_val(s) as int
    } else {
        0
    }
}

/// Reads a token as an unsigned size, as `parsed_usize_or_zero` describes.
pub fn parse_usize_or_zero(v: &Vec<char>) -> (r: usize)
    ensures
        r == parsed_usize_or_zero(v@),
{
    if v.len() == 0 {
        return 0;
    }
    let mut acc: u64 = 0;
    let mut big: bool = false;
    let mut i: usize = 0;
    let cap: u64 = usize::MAX as u64;
    while i < v.len()
        invariant
            i <= v@.len(),
            v@.len() > 0,
            cap == usize::MAX as u64,
            forall|t: int| 0 <= t < i ==> is_digit(v@[t]),
            !big ==> acc == digits_val(v@.take(i as int)) && acc <= cap,
            big ==> digits_val(v@.take(i as int)) > cap,
        decreases v@.len() - i,
    {
        let c = v[i];
        if !('0' <= c && c <= '9') {
            return 0;
        }
        let d: u64 = (c as u32 - '0' as u32) as u64;
        proof {
            assert(v@.take(i + 1).drop_last() =~= v@.take(i as int));
            assert(v@.take(i + 1).last() == v@[i as int]);
            assert(d == ((v@[i as int] as int - '0' as int) % 10) as nat);
        }
        if big || acc > (cap - d) / 10 {
            proof {
                if !big {
                    assert(digits_val(v@.take(i as int)) * 10 + d > cap) by (nonlinear_arith)
                        requires
                            acc == digits_val(v@.take(i as int)),
                            acc > (cap - d) / 10,
                            d <= 9,
                            cap >= 10,
                    ;
                }
                lemma_digits_monotone(v@, (i + 1) as int, v@.len() as int);
            }
            big = true;
        } else {
            proof {
                assert(acc * 10 + d <= cap) by (nonlinear_arith)
                    requires
                        acc <= (cap - d) / 10,
                        d <= 9,
                        cap >= 10,
                ;
            }
            acc = acc * 10 + d;
        }
        i += 1;
    }
    proof {
        assert(v@.take(v@.len() as int) =~= v@);
    }
    if big {
        0
    } else {
        acc as usize
    }
}

/// A longer digit prefix is worth at least as much.
proof fn lemma_digits_monotone(s: Seq<char>, i: int, j: int)
    requires
        0 <= i <= j <= s.len(),
    ensures
        digits_val(s.take(i)) <= digits_val(s.take(j)),
    decreases j - i,
{
    if i < j {
        lemma_digits_monotone(s, i, j - 1);
        assert(s.take(j).drop_last() =~= s.take(j - 1));
        assert(digits_val(s.take(j - 1)) * 10 >= digits_val(s.take(j - 1))) by (nonlinear_arith);
    }
}

/// Reads the two counts of a left-right count listing: the two
/// whitespace-separated tokens when exactly two exist, else zero for both.
pub fn parse_ahead_behind(output: &str) -> (r: (usize, usize))
    ensures
        ({
            let ps = split_ws(output@);
            if ps.len() == 2 {
                r.0 == parsed_usize_or_zero(ps[0]) && r.1 == parsed_usize_or_zero(ps[1])
            } else {
                r.0 == 0 && r.1 == 0
            }
        }),
{
    let chars = str_to_chars(output);
    let parts = split_whitespace_chars(&chars);
    if parts.len() == 2 {
        proof {
            assert(parts.deep_view()[0] == parts@[0]@);
            assert(parts.deep_view()[1] == parts@[1]@);
        }
        let a = parse_usize_or_zero(&parts[0]);
        let b = parse_usize_or_zero(&parts[1]);
        (a, b)
    } else {
        (0, 0)
    }
}

/// Reads a whole trimmed output as an unsigned count, zero when malformed.
pub fn parse_count_output(output: &str) -> (r: usize)
    ensures
        r == parsed_usize_or_zero(trimmed(output@)),
{
    let chars = str_to_chars(output);
    let t = trim_chars(&chars);
    parse_usize_or_zero(&t)
}

/// The command output with surrounding whitespace removed, as the current
/// branch name is read.
pub fn trimmed_output(output: &str) -> (r: String)
    ensures
        r@ == trimmed(output@),
{
    let chars = str_to_chars(output);
    let t = trim_chars(&chars);
    chars_to_string(&t)
}

/// Whether a status listing reports any change: true exactly when the
/// trimmed output is non-empty.
pub fn is_nonblank(output: &str) -> (r: bool)
    ensures
        r == (trimmed(output@).len() > 0),
{
    let chars = str_to_chars(output);
    let t = trim_chars(&chars);
    t.len() > 0
}

} // verus!
