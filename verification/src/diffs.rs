//! Synthesis of unified diffs for pure additions and deletions, and the
//! textual diff responses built from them.
//!
//! A pure addition carries the headers `--- /dev/null` / `+++ b/<path>` and
//! one hunk `@@ -0,0 +1,<n> @@` whose body prefixes every source line with
//! `+`; a pure deletion is symmetric.  For a bootstrap commit whose parent
//! cannot be resolved at all, the degraded response is the whole file as
//! `+ `-prefixed lines with no hunks.

use vstd::prelude::*;

use crate::hunks::{lemma_split_seq_len_bound, parse_hunks, parse_hunks_spec};
use crate::models::{DiffHunk, DiffHunkData, DiffResponse, FileDiff};
use crate::text::{
    append_chars, chars_to_string, count_starting, dec_chars, dec_rep, join_chars, join_seq,
    lemma_count_concat, lemma_dec_rep_len, lemma_split_seq_len, lemma_split_total, pow10,
    seq_total_len, split_chars, split_lines, str_to_chars,
};

verus! {

/// Every line prefixed with the given marker character.
pub open spec fn marked_lines(mark: char, ls: Seq<Seq<char>>) -> Seq<Seq<char>> {
    ls.map_values(|l: Seq<char>| seq![mark].add(l))
}

/// The hunk header of a pure addition of `n` lines.
pub open spec fn addition_header(n: nat) -> Seq<char> {
    "@@ -0,0 +1,"@ + dec_rep(n) + " @@"@
}

/// The hunk header of a pure deletion of `n` lines.
pub open spec fn deletion_header(n: nat) -> Seq<char> {
    "@@ -1,"@ + dec_rep(n) + " +0,0 @@"@
}

/// The lines of a pure-addition diff: the two file headers, the hunk
/// header, one `+` line per source line, and the empty piece that the final
/// newline leaves.
pub open spec fn addition_lines(path: Seq<char>, ls: Seq<Seq<char>>) -> Seq<Seq<char>> {
    seq!["--- /dev/null"@, "+++ b/"@ + path, addition_header(ls.len())] + marked_lines('+', ls)
        + seq![Seq::<char>::empty()]
}

/// The lines of a pure-deletion diff, symmetric to `addition_lines`.
pub open spec fn deletion_lines(path: Seq<char>, ls: Seq<Seq<char>>) -> Seq<Seq<char>> {
    seq!["--- a/"@ + path, "+++ /dev/null"@, deletion_header(ls.len())] + marked_lines('-', ls)
        + seq![Seq::<char>::empty()]
}

/// The text of a pure-addition diff.
pub open spec fn addition_text(path: Seq<char>, ls: Seq<Seq<char>>) -> Seq<char> {
    join_seq(addition_lines(path, ls), seq!['\n'])
}

/// The text of a pure-deletion diff.
pub open spec fn deletion_text(path: Seq<char>, ls: Seq<Seq<char>>) -> Seq<char> {
    join_seq(deletion_lines(path, ls), seq!['\n'])
}

/// Builds the line list of a pure-addition or pure-deletion diff.
fn build_marked_all(path: &str, ls: &Vec<Vec<char>>, adding: bool) -> (all: Vec<Vec<char>>)
    ensures
        adding ==> all.deep_view() =~~= addition_lines(path@, ls.deep_view()),
        !adding ==> all.deep_view() =~~= deletion_lines(path@, ls.deep_view()),
{
    let ghost lsv = ls.deep_view();
    let mut all: Vec<Vec<char>> = Vec::new();
    let pv = str_to_chars(path);
    let n = dec_chars(ls.len() as u64);
    if adding {
        all.push(str_to_chars("--- /dev/null"));
        let mut l1 = str_to_chars("+++ b/");
        append_chars(&mut l1, &pv);
        all.push(l1);
        let mut hdr = str_to_chars("@@ -0,0 +1,");
        append_chars(&mut hdr, &n);
        let tail = str_to_chars(" @@");
        append_chars(&mut hdr, &tail);
        proof {
            assert(hdr@ =~= addition_header(lsv.len() as nat));
        }
        all.push(hdr);
    } else {
        let mut l0 = str_to_chars("--- a/");
        append_chars(&mut l0, &pv);
        all.push(l0);
        all.push(str_to_chars("+++ /dev/null"));
        let mut hdr = str_to_chars("@@ -1,");
        append_chars(&mut hdr, &n);
        let tail = str_to_chars(" +0,0 @@");
        append_chars(&mut hdr, &tail);
        proof {
            assert(hdr@ =~= deletion_header(lsv.len() as nat));
        }
        all.push(hdr);
    }
    let mark: char = if adding {
        '+'
    } else {
        '-'
    };
    let ghost head = all.deep_view();
    let mut i: usize = 0;
    while i < ls.len()
        invariant
            i <= lsv.len(),
            lsv == ls.deep_view(),
            head.len() == 3,
            all.deep_view() =~~= head + marked_lines(mark, lsv.take(i as int)),
        decreases lsv.len() - i,
    {
        let ghost before = all.deep_view();
        let mut m: Vec<char> = Vec::new();
        m.push(mark);
        append_chars(&mut m, &ls[i]);
        proof {
            assert(lsv[i as int] == ls@[i as int]@);
            assert(m@ =~= seq![mark].add(lsv[i as int]));
        }
        all.push(m);
        i += 1;
        proof {
            assert(all.deep_view() =~~= before.push(seq![mark].add(lsv[i - 1])));
            assert(marked_lines(mark, lsv.take(i as int)) =~~= marked_lines(
                mark,
                lsv.take(i - 1),
            ).push(seq![mark].add(lsv[i - 1])));
        }
    }
    let ghost before = all.deep_view();
    all.push(Vec::new());
    proof {
        assert(lsv.take(lsv.len() as int) =~~= lsv);
        assert(all.deep_view() =~~= before.push(Seq::<char>::empty()));
        if adding {
            assert(all.deep_view() =~~= addition_lines(path@, lsv));
        } else {
            assert(all.deep_view() =~~= deletion_lines(path@, lsv));
        }
    }
    all
}

/// Dropping the last line only shortens the total character count.
proof fn lemma_total_drop_last(ps: Seq<Seq<char>>)
    requires
        ps.len() > 0,
    ensures
        seq_total_len(ps.drop_last()) <= seq_total_len(ps),
    decreases ps.len(),
{
    if ps.len() == 1 {
        assert(ps.drop_last() =~~= Seq::<Seq<char>>::empty());
        assert(seq_total_len(ps) == ps[0].len() + seq_total_len(ps.drop_first()));
        assert(ps.drop_first() =~~= Seq::<Seq<char>>::empty());
    } else {
        lemma_total_drop_last(ps.drop_first());
        assert(ps.drop_last().drop_first() =~~= ps.drop_first().drop_last());
        assert(ps.drop_last()[0] == ps[0]);
        assert(seq_total_len(ps.drop_last()) == ps[0].len() + seq_total_len(
            ps.drop_last().drop_first(),
        ));
    }
}

/// Stripping carriage returns only shortens the total character count.
proof fn lemma_total_strip_map(ps: Seq<Seq<char>>)
    ensures
        seq_total_len(ps.map_values(|l: Seq<char>| strip_cr(l))) <= seq_total_len(ps),
    decreases ps.len(),
{
    let m = ps.map_values(|l: Seq<char>| strip_cr(l));
    if ps.len() == 0 {
        assert(m =~~= Seq::<Seq<char>>::empty());
    } else {
        lemma_total_strip_map(ps.drop_first());
        assert(m.drop_first() =~~= ps.drop_first().map_values(|l: Seq<char>| strip_cr(l)));
        assert(m[0] == strip_cr(ps[0]));
        assert(strip_cr(ps[0]).len() <= ps[0].len());
    }
}

/// The content's lines hold at most its characters and at most one more
/// line than its length.
proof fn lemma_lines_of_bounds(content: Seq<char>)
    ensures
        seq_total_len(lines_of(content)) <= content.len(),
        lines_of(content).len() <= content.len() + 1,
{
    let nl = seq!['\n'];
    let ps = split_lines(content);
    lemma_split_total(content, nl);
    lemma_split_seq_len_bound(content, nl);
    lemma_split_seq_len(content, nl);
    assert(seq_total_len(ps) <= content.len());
    let ps2 = if ps.len() > 0 && ps.last().len() == 0 {
        ps.drop_last()
    } else {
        ps
    };
    if ps.len() > 0 && ps.last().len() == 0 {
        lemma_total_drop_last(ps);
    }
    lemma_total_strip_map(ps2);
}

/// A synthesized diff is not much longer than the content plus the path:
/// each content character appears once, each line adds two characters, and
/// the fixed headers add a bounded amount.
proof fn lemma_synth_text_len(path: Seq<char>, content: Seq<char>, adding: bool)
    requires
        content.len() < 0x2000_0000,
        path.len() < 0x100_0000,
    ensures
        adding ==> addition_text(path, lines_of(content)).len() < 0x7fff_ffff,
        !adding ==> deletion_text(path, lines_of(content)).len() < 0x7fff_ffff,
{
    reveal_strlit("--- /dev/null");
    reveal_strlit("+++ b/");
    reveal_strlit("@@ -0,0 +1,");
    reveal_strlit(" @@");
    reveal_strlit("--- a/");
    reveal_strlit("+++ /dev/null");
    reveal_strlit("@@ -1,");
    reveal_strlit(" +0,0 @@");
    let nl = seq!['\n'];
    let ls = lines_of(content);
    lemma_lines_of_bounds(content);
    assert(seq_total_len(ls) <= content.len());
    assert(pow10(10) == 10_000_000_000) by {
        reveal_with_fuel(pow10, 11);
    }
    lemma_dec_rep_len(ls.len() as nat, 10);
    let mark = if adding {
        '+'
    } else {
        '-'
    };
    let all = if adding {
        addition_lines(path, ls)
    } else {
        deletion_lines(path, ls)
    };
    lemma_join_len(all, nl);
    lemma_total_split(all, 3);
    let m = marked_lines(mark, ls);
    assert(all.skip(3) =~~= m + seq![Seq::<char>::empty()]);
    lemma_total_split(m + seq![Seq::<char>::empty()], m.len() as int);
    assert((m + seq![Seq::<char>::empty()]).take(m.len() as int) =~~= m);
    assert((m + seq![Seq::<char>::empty()]).skip(m.len() as int) =~~= seq![Seq::<char>::empty()]);
    assert(seq_total_len(seq![Seq::<char>::empty()]) == 0) by {
        assert(seq_total_len(Seq::<Seq<char>>::empty()) == 0);
        assert(seq![Seq::<char>::empty()].drop_first() =~~= Seq::<Seq<char>>::empty());
        assert(seq_total_len(seq![Seq::<char>::empty()]) == seq![Seq::<char>::empty()][0].len()
            + seq_total_len(seq![Seq::<char>::empty()].drop_first()));
    }
    lemma_marked_total(ls, mark);
    let head = all.take(3);
    assert(seq_total_len(head) == head[0].len() + head[1].len() + head[2].len()) by {
        let d1 = head.drop_first();
        let d2 = d1.drop_first();
        assert(d2 =~~= seq![all[2]]);
        assert(seq_total_len(Seq::<Seq<char>>::empty()) == 0);
        assert(seq![all[2]].drop_first() =~~= Seq::<Seq<char>>::empty());
        assert(seq_total_len(seq![all[2]]) == all[2].len() + seq_total_len(
            seq![all[2]].drop_first(),
        ));
        assert(d1[0] == all[1]);
        assert(seq_total_len(d1) == d1[0].len() + seq_total_len(d2));
        assert(head[0] == all[0]);
        assert(seq_total_len(head) == head[0].len() + seq_total_len(d1));
    }
    assert(head[0].len() + head[1].len() + head[2].len() <= path.len() + 60);
}

proof fn lemma_join_len(ls: Seq<Seq<char>>, sep: Seq<char>)
    requires
        sep.len() == 1,
    ensures
        ls.len() == 0 ==> join_seq(ls, sep).len() == 0,
        ls.len() >= 1 ==> join_seq(ls, sep).len() == seq_total_len(ls) + ls.len() - 1,
    decreases ls.len(),
{
    if ls.len() <= 1 {
        if ls.len() == 1 {
            assert(seq_total_len(ls) == ls[0].len() + seq_total_len(ls.drop_first()));
            assert(ls.drop_first() =~~= Seq::<Seq<char>>::empty());
        }
    } else {
        lemma_join_len(ls.drop_first(), sep);
    }
}

proof fn lemma_marked_total(ls: Seq<Seq<char>>, mark: char)
    ensures
        seq_total_len(marked_lines(mark, ls)) == seq_total_len(ls) + ls.len(),
    decreases ls.len(),
{
    if ls.len() == 0 {
        assert(marked_lines(mark, ls) =~~= Seq::<Seq<char>>::empty());
    } else {
        lemma_marked_total(ls.drop_first(), mark);
        assert(marked_lines(mark, ls).drop_first() =~~= marked_lines(mark, ls.drop_first()));
        assert(marked_lines(mark, ls)[0] == seq![mark].add(ls[0]));
    }
}

proof fn lemma_total_split(ls: Seq<Seq<char>>, i: int)
    requires
        0 <= i <= ls.len(),
    ensures
        seq_total_len(ls) == seq_total_len(ls.take(i)) + seq_total_len(ls.skip(i)),
    decreases i,
{
    if i == 0 {
        assert(ls.take(0) =~~= Seq::<Seq<char>>::empty());
        assert(ls.skip(0) =~~= ls);
    } else {
        lemma_total_split(ls.drop_first(), i - 1);
        assert(ls.take(i).drop_first() =~~= ls.drop_first().take(i - 1));
        assert(ls.skip(i) =~~= ls.drop_first().skip(i - 1));
        assert(ls.take(i)[0] == ls[0]);
    }
}

/// The textual diff response for a file added by a commit: the synthesized
/// pure-addition text over the file's source lines (the empty piece after
/// a final newline does not count as a line), with its hunks re-parsed
/// from that text.
pub fn added_diff_response(file_path: &str, content: &str) -> (r: DiffResponse)
    requires
        content@.len() < 0x2000_0000,
        file_path@.len() < 0x100_0000,
    ensures
        r.diff@ == addition_text(file_path@, lines_of(content@)),
        r.hunks@.map_values(|h: DiffHunk| h@) == parse_hunks_spec(split_lines(r.diff@)),
        r.file_path@ == file_path@,
{
    let ls = file_lines(content);
    let mut nl: Vec<char> = Vec::new();
    nl.push('\n');
    proof {
        assert(nl@ =~= seq!['\n']);
    }
    let all = build_marked_all(file_path, &ls, true);
    let text = join_chars(&all, &nl);
    proof {
        lemma_synth_text_len(file_path@, content@, true);
        assert(text@ == addition_text(file_path@, lines_of(content@)));
    }
    let diff = chars_to_string(&text);
    let hunks = parse_hunks(diff.as_str());
    DiffResponse { diff, hunks, file_path: file_path.to_owned() }
}

/// The textual diff response for a file removed by a commit, symmetric to
/// `added_diff_response`.
pub fn removed_diff_response(file_path: &str, content: &str) -> (r: DiffResponse)
    requires
        content@.len() < 0x2000_0000,
        file_path@.len() < 0x100_0000,
    ensures
        r.diff@ == deletion_text(file_path@, lines_of(content@)),
        r.hunks@.map_values(|h: DiffHunk| h@) == parse_hunks_spec(split_lines(r.diff@)),
        r.file_path@ == file_path@,
{
    let ls = file_lines(content);
    let mut nl: Vec<char> = Vec::new();
    nl.push('\n');
    proof {
        assert(nl@ =~= seq!['\n']);
    }
    let all = build_marked_all(file_path, &ls, false);
    let text = join_chars(&all, &nl);
    proof {
        lemma_synth_text_len(file_path@, content@, false);
        assert(text@ == deletion_text(file_path@, lines_of(content@)));
    }
    let diff = chars_to_string(&text);
    let hunks = parse_hunks(diff.as_str());
    DiffResponse { diff, hunks, file_path: file_path.to_owned() }
}

/// A line with one trailing carriage return removed.
pub open spec fn strip_cr(l: Seq<char>) -> Seq<char> {
    if l.len() > 0 && l.last() == '\r' {
        l.drop_last()
    } else {
        l
    }
}

/// The lines of a file's content: split on newlines, the empty piece that a
/// final newline leaves dropped, and one trailing carriage return removed
/// from each line.
pub open spec fn lines_of(s: Seq<char>) -> Seq<Seq<char>> {
    let ps = split_lines(s);
    let ps2 = if ps.len() > 0 && ps.last().len() == 0 {
        ps.drop_last()
    } else {
        ps
    };
    ps2.map_values(|l: Seq<char>| strip_cr(l))
}

/// Splits a file's content into lines, as `lines_of` describes.
fn file_lines(content: &str) -> (r: Vec<Vec<char>>)
    ensures
        r.deep_view() =~~= lines_of(content@),
{
    let chars = str_to_chars(content);
    let mut nl: Vec<char> = Vec::new();
    nl.push('\n');
    let mut ls = split_chars(&chars, &nl);
    proof {
        assert(nl@ =~= seq!['\n']);
        assert(ls.deep_view() =~~= split_lines(content@));
        lemma_split_seq_len(content@, seq!['\n']);
    }
    let ghost ps = ls.deep_view();
    if ls.len() > 0 {
        let last_empty = ls[ls.len() - 1].len() == 0;
        if last_empty {
            ls.pop();
            proof {
                assert(ls.deep_view() =~~= ps.drop_last());
            }
        }
    }
    let ghost ps2 = ls.deep_view();
    let mut out: Vec<Vec<char>> = Vec::new();
    let mut i: usize = 0;
    while i < ls.len()
        invariant
            ps2 == ls.deep_view(),
            i <= ps2.len(),
            out.deep_view() =~~= ps2.take(i as int).map_values(|l: Seq<char>| strip_cr(l)),
        decreases ps2.len() - i,
    {
        let ghost before = out.deep_view();
        let line = &ls[i];
        proof {
            assert(ps2[i as int] == ls@[i as int]@);
        }
        let mut stripped = crate::staging::clone_chars(line);
        if stripped.len() > 0 && stripped[stripped.len() - 1] == '\r' {
            stripped.pop();
        }
        proof {
            assert(stripped@ =~= strip_cr(ps2[i as int]));
        }
        out.push(stripped);
        i += 1;
        proof {
            assert(out.deep_view() =~~= before.push(strip_cr(ps2[i - 1])));
            assert(ps2.take(i as int).map_values(|l: Seq<char>| strip_cr(l)) =~~= ps2.take(
                i - 1,
            ).map_values(|l: Seq<char>| strip_cr(l)).push(strip_cr(ps2[i - 1])));
        }
    }
    proof {
        assert(ps2.take(ps2.len() as int) =~~= ps2);
    }
    out
}

/// The one hunk of a synthesized pure-addition file diff.
pub open spec fn addition_hunk(ls: Seq<Seq<char>>) -> crate::assemble::HunkDataView {
    crate::assemble::HunkDataView {
        old_start: 0,
        old_count: 0,
        new_start: 1,
        new_count: ls.len() as int,
        lines: seq![addition_header(ls.len())] + marked_lines('+', ls),
    }
}

/// The one hunk of a synthesized pure-deletion file diff.
pub open spec fn deletion_hunk(ls: Seq<Seq<char>>) -> crate::assemble::HunkDataView {
    crate::assemble::HunkDataView {
        old_start: 1,
        old_count: ls.len() as int,
        new_start: 0,
        new_count: 0,
        lines: seq![deletion_header(ls.len())] + marked_lines('-', ls),
    }
}

/// The structured diff of a file added by a commit: the synthesized
/// pure-addition text over the file's lines, and one hunk holding the
/// header and the `+` lines, counting every added line.
pub fn added_file_diff(file_path: &str, content: &str) -> (r: FileDiff)
    requires
        content@.len() < 0x2000_0000,
        file_path@.len() < 0x100_0000,
    ensures
        r.diff@ == addition_text(file_path@, lines_of(content@)),
        r.hunks@.map_values(|h: DiffHunkData| h@) =~~= seq![addition_hunk(lines_of(content@))],
        r.file_path@ == file_path@,
{
    let ls = file_lines(content);
    let all = build_marked_all(file_path, &ls, true);
    let mut nl: Vec<char> = Vec::new();
    nl.push('\n');
    proof {
        assert(nl@ =~= seq!['\n']);
    }
    let text = join_chars(&all, &nl);
    proof {
        assert(all.deep_view().len() == 4 + lines_of(content@).len());
    }
    let hunk_lines = collect_hunk_lines(&all);
    proof {
        let lsv = lines_of(content@);
        let front = seq!["--- /dev/null"@, "+++ b/"@ + file_path@, addition_header(lsv.len())];
        let marked = marked_lines('+', lsv);
        let allv = addition_lines(file_path@, lsv);
        assert(allv == front + marked + seq![Seq::<char>::empty()]);
        assert(allv.subrange(2, allv.len() - 1) =~~= seq![addition_header(lsv.len())] + marked)
            by {
            assert forall|t: int| 0 <= t < 1 + marked.len() implies allv.subrange(
                2,
                allv.len() - 1,
            )[t] == (seq![addition_header(lsv.len())] + marked)[t] by {
                assert(allv.subrange(2, allv.len() - 1)[t] == allv[t + 2]);
                assert(allv[t + 2] == (front + marked)[t + 2]);
                if t == 0 {
                    assert((front + marked)[2] == front[2]);
                } else {
                    assert((front + marked)[t + 2] == marked[t - 1]);
                }
            }
        }
        lemma_count_cast(lsv, content@);
    }
    let n = ls.len();
    let hunk = DiffHunkData {
        old_start: 0,
        old_count: 0,
        new_start: 1,
        new_count: n as i32,
        lines: hunk_lines,
    };
    let mut hunks: Vec<DiffHunkData> = Vec::new();
    hunks.push(hunk);
    FileDiff {
        diff: chars_to_string(&text),
        hunks,
        file_path: file_path.to_owned(),
    }
}

/// The structured diff of a file deleted by a commit, symmetric to
/// `added_file_diff`.
pub fn deleted_file_diff(file_path: &str, content: &str) -> (r: FileDiff)
    requires
        content@.len() < 0x2000_0000,
        file_path@.len() < 0x100_0000,
    ensures
        r.diff@ == deletion_text(file_path@, lines_of(content@)),
        r.hunks@.map_values(|h: DiffHunkData| h@) =~~= seq![deletion_hunk(lines_of(content@))],
        r.file_path@ == file_path@,
{
    let ls = file_lines(content);
    let all = build_marked_all(file_path, &ls, false);
    let mut nl: Vec<char> = Vec::new();
    nl.push('\n');
    proof {
        assert(nl@ =~= seq!['\n']);
    }
    let text = join_chars(&all, &nl);
    proof {
        assert(all.deep_view().len() == 4 + lines_of(content@).len());
    }
    let hunk_lines = collect_hunk_lines(&all);
    proof {
        let lsv = lines_of(content@);
        let front = seq!["--- a/"@ + file_path@, "+++ /dev/null"@, deletion_header(lsv.len())];
        let marked = marked_lines('-', lsv);
        let allv = deletion_lines(file_path@, lsv);
        assert(allv == front + marked + seq![Seq::<char>::empty()]);
        assert(allv.subrange(2, allv.len() - 1) =~~= seq![deletion_header(lsv.len())] + marked)
            by {
            assert forall|t: int| 0 <= t < 1 + marked.len() implies allv.subrange(
                2,
                allv.len() - 1,
            )[t] == (seq![deletion_header(lsv.len())] + marked)[t] by {
                assert(allv.subrange(2, allv.len() - 1)[t] == allv[t + 2]);
                assert(allv[t + 2] == (front + marked)[t + 2]);
                if t == 0 {
                    assert((front + marked)[2] == front[2]);
                } else {
                    assert((front + marked)[t + 2] == marked[t - 1]);
                }
            }
        }
        lemma_count_cast(lsv, content@);
    }
    let n = ls.len();
    let hunk = DiffHunkData {
        old_start: 1,
        old_count: n as i32,
        new_start: 0,
        new_count: 0,
        lines: hunk_lines,
    };
    let mut hunks: Vec<DiffHunkData> = Vec::new();
    hunks.push(hunk);
    FileDiff {
        diff: chars_to_string(&text),
        hunks,
        file_path: file_path.to_owned(),
    }
}

/// Collects the hunk's lines: everything from the hunk header to the line
/// before the trailing empty piece.
fn collect_hunk_lines(all: &Vec<Vec<char>>) -> (r: Vec<String>)
    requires
        all.deep_view().len() >= 4,
    ensures
        r.deep_view() =~~= all.deep_view().subrange(2, all.deep_view().len() - 1),
{
    let mut out: Vec<String> = Vec::new();
    let mut k: usize = 2;
    let total = all.len();
    proof {
        assert(all.deep_view().subrange(2, 2) =~~= Seq::<Seq<char>>::empty());
        assert(all.deep_view().len() == all@.len());
        assert(total == all.deep_view().len());
    }
    while k < all.len() - 1
        invariant
            all.deep_view().len() >= 4,
            all.deep_view().len() <= usize::MAX,
            2 <= k <= all.deep_view().len() - 1,
            out.deep_view() =~~= all.deep_view().subrange(2, k as int),
        decreases all.deep_view().len() - k,
    {
        let ghost before = out.deep_view();
        out.push(chars_to_string(&all[k]));
        proof {
            assert(all.deep_view()[k as int] == all@[k as int]@);
            assert(out.deep_view() =~~= before.push(all.deep_view()[k as int]));
            assert(out.deep_view() =~~= all.deep_view().subrange(2, k + 1));
        }
        k += 1;
    }
    out
}

/// A file's line count fits in an `i32` when its length is bounded.
proof fn lemma_count_cast(lsv: Seq<Seq<char>>, content: Seq<char>)
    requires
        lsv == lines_of(content),
        content.len() < 0x2000_0000,
    ensures
        lsv.len() <= 0x2000_0000,
{
    lemma_split_seq_len_bound(content, seq!['\n']);
}

/// The synthesized pure-addition hunk's counts agree with its lines: no
/// `-` or context line, and one `+` line per source line.
pub proof fn lemma_addition_hunk_counts(ls: Seq<Seq<char>>)
    ensures
        crate::assemble::counts_ok(addition_hunk(ls)),
{
    assert(addition_hunk(ls).lines.drop_first() =~~= marked_lines('+', ls));
    lemma_count_marked(ls, '+', '-');
    lemma_count_marked(ls, '+', ' ');
}

/// The synthesized pure-deletion hunk's counts agree with its lines.
pub proof fn lemma_deletion_hunk_counts(ls: Seq<Seq<char>>)
    ensures
        crate::assemble::counts_ok(deletion_hunk(ls)),
{
    assert(deletion_hunk(ls).lines.drop_first() =~~= marked_lines('-', ls));
    lemma_count_marked(ls, '-', '+');
    lemma_count_marked(ls, '-', ' ');
}

/// An empty structured diff, for a path absent on both sides.
pub fn empty_file_diff(file_path: &str) -> (r: FileDiff)
    ensures
        r.diff@.len() == 0,
        r.hunks@.len() == 0,
        r.file_path@ == file_path@,
{
    proof {
        reveal_strlit("");
    }
    FileDiff { diff: "".to_owned(), hunks: Vec::new(), file_path: file_path.to_owned() }
}

proof fn lemma_count_marked(ls: Seq<Seq<char>>, mark: char, other: char)
    ensures
        count_starting(marked_lines(mark, ls), mark) == ls.len(),
        other != mark ==> count_starting(marked_lines(mark, ls), other) == 0,
    decreases ls.len(),
{
    let m = marked_lines(mark, ls);
    if ls.len() == 0 {
        assert(m =~~= Seq::<Seq<char>>::empty());
    } else {
        lemma_count_marked(ls.drop_first(), mark, other);
        assert(m.drop_first() =~~= marked_lines(mark, ls.drop_first()));
        assert(m[0] == seq![mark].add(ls[0]));
        assert(m[0][0] == mark);
    }
}

/// The parse of the synthesized pure-addition hunk header: the four
/// numbers it was printed from.
proof fn lemma_addition_header_parse(n: nat)
    requires
        n <= i32::MAX,
    ensures
        crate::hunks::hunk_header_nums(addition_header(n)) == Some((0int, 0int, 1int, n as int)),
{
    reveal_strlit("@@ -0,0 +1,");
    reveal_strlit(" @@");
    let a = "@@ -0,0 +1,"@;
    let b = dec_rep(n);
    let c = " @@"@;
    let s = addition_header(n);
    crate::text::lemma_dec_rep_digits(n);
    let d = b.len() as int;
    assert(s == a + b + c);
    assert(a.len() == 11 && c.len() == 3);
    assert forall|t: int| 0 <= t < 11 implies s[t] == a[t] by {
        assert(s[t] == (a + b)[t]);
    }
    assert forall|t: int| 0 <= t < d implies s[11 + t] == b[t] by {
        assert(s[11 + t] == (a + b)[11 + t]);
    }
    assert forall|t: int| 0 <= t < 3 implies s[11 + d + t] == c[t] by {
    }
    assert(s.len() == 14 + d);
    crate::hunks::lemma_digit_run_exact(s, 4, 5);
    assert(s.subrange(4, 5) =~= seq!['0']);
    lemma_val_single_digit('0', 0);
    crate::hunks::lemma_digit_run_exact(s, 6, 7);
    assert(s.subrange(6, 7) =~= seq!['0']);
    crate::hunks::lemma_digit_run_exact(s, 9, 10);
    assert(s.subrange(9, 10) =~= seq!['1']);
    lemma_val_single_digit('1', 1);
    assert(forall|t: int| 11 <= t < 11 + d ==> crate::text::is_digit(s[t]));
    assert(!crate::text::is_digit(s[11 + d]));
    crate::hunks::lemma_digit_run_exact(s, 11, 11 + d);
    assert(s.subrange(11, 11 + d) =~= b);
    assert(crate::text::digits_val(b) == n);
}

/// The parse of the synthesized pure-deletion hunk header.
proof fn lemma_deletion_header_parse(n: nat)
    requires
        n <= i32::MAX,
    ensures
        crate::hunks::hunk_header_nums(deletion_header(n)) == Some((1int, n as int, 0int, 0int)),
{
    reveal_strlit("@@ -1,");
    reveal_strlit(" +0,0 @@");
    let a = "@@ -1,"@;
    let b = dec_rep(n);
    let c = " +0,0 @@"@;
    let s = deletion_header(n);
    crate::text::lemma_dec_rep_digits(n);
    let d = b.len() as int;
    assert(s == a + b + c);
    assert(a.len() == 6 && c.len() == 8);
    assert forall|t: int| 0 <= t < 6 implies s[t] == a[t] by {
        assert(s[t] == (a + b)[t]);
    }
    assert forall|t: int| 0 <= t < d implies s[6 + t] == b[t] by {
        assert(s[6 + t] == (a + b)[6 + t]);
    }
    assert forall|t: int| 0 <= t < 8 implies s[6 + d + t] == c[t] by {
    }
    assert(s.len() == 14 + d);
    crate::hunks::lemma_digit_run_exact(s, 4, 5);
    assert(s.subrange(4, 5) =~= seq!['1']);
    lemma_val_single_digit('1', 1);
    assert(forall|t: int| 6 <= t < 6 + d ==> crate::text::is_digit(s[t]));
    assert(!crate::text::is_digit(s[6 + d]));
    crate::hunks::lemma_digit_run_exact(s, 6, 6 + d);
    assert(s.subrange(6, 6 + d) =~= b);
    assert(crate::text::digits_val(b) == n);
    crate::hunks::lemma_digit_run_exact(s, 6 + d + 2, 6 + d + 3);
    assert(s.subrange(6 + d + 2, 6 + d + 3) =~= seq!['0']);
    lemma_val_single_digit('0', 0);
    crate::hunks::lemma_digit_run_exact(s, 6 + d + 4, 6 + d + 5);
    assert(s.subrange(6 + d + 4, 6 + d + 5) =~= seq!['0']);
}

proof fn lemma_val_single_digit(c: char, v: nat)
    requires
        crate::text::is_digit(c),
        v == c as int - '0' as int,
    ensures
        crate::text::digits_val(seq![c]) == v,
{
    assert(seq![c].drop_last() =~= Seq::<char>::empty());
    assert(crate::text::digits_val(seq![c]) == crate::text::digits_val(Seq::<char>::empty()) * 10
        + ((c as int - '0' as int) % 10) as nat);
}

/// Round trip of a generated pure-addition diff: splitting the
/// synthesized text back into lines and parsing its hunk headers yields
/// exactly one hunk, whose counts re-derive from the counted `+` and `-`
/// body lines — a pure addition has no context lines, so the old count is
/// the `-` count and the new count is the `+` count.
pub proof fn lemma_addition_round_trip(path: Seq<char>, ls: Seq<Seq<char>>)
    requires
        forall|j: int| 0 <= j < path.len() ==> path[j] != '\n',
        forall|i: int, j: int| 0 <= i < ls.len() && 0 <= j < ls[i].len() ==> ls[i][j] != '\n',
        ls.len() <= i32::MAX,
    ensures
        ({
            let hs = crate::hunks::parse_hunks_spec(split_lines(addition_text(path, ls)));
            hs.len() == 1 && hs[0].old_start == 0 && hs[0].old_count == 0 && hs[0].new_start == 1
                && hs[0].new_count == ls.len() && hs[0].line_start == 2 && hs[0].lines
                =~~= seq![addition_header(ls.len())] + marked_lines('+', ls) + seq![
                Seq::<char>::empty(),
            ] && count_starting(hs[0].lines.drop_first(), '+') == hs[0].new_count
                && count_starting(hs[0].lines.drop_first(), '-') == hs[0].old_count
        }),
{
    reveal_strlit("--- /dev/null");
    reveal_strlit("+++ b/");
    reveal_strlit("@@ -0,0 +1,");
    reveal_strlit(" @@");
    let all = addition_lines(path, ls);
    let hdr = addition_header(ls.len());
    let marked = marked_lines('+', ls);
    let front = seq!["--- /dev/null"@, "+++ b/"@ + path, hdr];
    assert(all == front + marked + seq![Seq::<char>::empty()]);
    crate::text::lemma_dec_rep_digits(ls.len() as nat);
    assert forall|i: int, j: int|
        0 <= i < all.len() && 0 <= j < all[i].len() implies all[i][j] != '\n' by {
        lemma_all_lines_nl_free(path, ls, i, j, true);
    }
    crate::text::lemma_split_join(all, '\n');
    assert(split_lines(addition_text(path, ls)) =~~= all);
    let n = all.len() as int;
    assert(n == 4 + ls.len());
    lemma_state_through_front(all, front, hdr, marked, true, ls.len() as nat);
    let st3 = crate::hunks::hunks_state(all, 3);
    let h0 = st3.1.unwrap();
    assert forall|t: int| 3 <= t < n implies !crate::text::has_prefix(
        #[trigger] all[t],
        seq!['@', '@'],
    ) by {
        if t < n - 1 {
            assert(all[t] == marked[t - 3]);
            assert(all[t][0] == '+');
            crate::hunks::lemma_not_header_line(all[t]);
        } else {
            assert(all[t].len() == 0);
            crate::hunks::lemma_not_header_line(all[t]);
        }
    }
    crate::hunks::lemma_hunks_append_run(all, 3, n, h0);
    let stn = crate::hunks::hunks_state(all, n);
    assert(stn.0.len() == 0);
    let hs = crate::hunks::parse_hunks_spec(all);
    assert(hs == stn.0.push(stn.1.unwrap()));
    assert(hs[0].lines =~~= seq![hdr] + marked + seq![Seq::<char>::empty()]) by {
        assert(all.subrange(3, n) =~~= marked + seq![Seq::<char>::empty()]) by {
            assert forall|t: int| 0 <= t < n - 3 implies all.subrange(3, n)[t] == (marked + seq![
                Seq::<char>::empty(),
            ])[t] by {
                assert(all.subrange(3, n)[t] == all[t + 3]);
            }
        }
        assert(seq![hdr] + (marked + seq![Seq::<char>::empty()]) =~~= seq![hdr] + marked + seq![
            Seq::<char>::empty(),
        ]);
    }
    assert(hs[0].lines.drop_first() =~~= marked + seq![Seq::<char>::empty()]);
    lemma_count_concat(marked, seq![Seq::<char>::empty()], '+');
    lemma_count_concat(marked, seq![Seq::<char>::empty()], '-');
    lemma_count_marked(ls, '+', '-');
    lemma_count_single_empty('+');
    lemma_count_single_empty('-');
}

/// Round trip of a generated pure-deletion diff, symmetric to
/// `lemma_addition_round_trip`.
pub proof fn lemma_deletion_round_trip(path: Seq<char>, ls: Seq<Seq<char>>)
    requires
        forall|j: int| 0 <= j < path.len() ==> path[j] != '\n',
        forall|i: int, j: int| 0 <= i < ls.len() && 0 <= j < ls[i].len() ==> ls[i][j] != '\n',
        ls.len() <= i32::MAX,
    ensures
        ({
            let hs = crate::hunks::parse_hunks_spec(split_lines(deletion_text(path, ls)));
            hs.len() == 1 && hs[0].old_start == 1 && hs[0].old_count == ls.len() && hs[0].new_start
                == 0 && hs[0].new_count == 0 && hs[0].line_start == 2 && hs[0].lines
                =~~= seq![deletion_header(ls.len())] + marked_lines('-', ls) + seq![
                Seq::<char>::empty(),
            ] && count_starting(hs[0].lines.drop_first(), '-') == hs[0].old_count
                && count_starting(hs[0].lines.drop_first(), '+') == hs[0].new_count
        }),
{
    reveal_strlit("--- a/");
    reveal_strlit("+++ /dev/null");
    reveal_strlit("@@ -1,");
    reveal_strlit(" +0,0 @@");
    let all = deletion_lines(path, ls);
    let hdr = deletion_header(ls.len());
    let marked = marked_lines('-', ls);
    let front = seq!["--- a/"@ + path, "+++ /dev/null"@, hdr];
    assert(all == front + marked + seq![Seq::<char>::empty()]);
    crate::text::lemma_dec_rep_digits(ls.len() as nat);
    assert forall|i: int, j: int|
        0 <= i < all.len() && 0 <= j < all[i].len() implies all[i][j] != '\n' by {
        lemma_all_lines_nl_free(path, ls, i, j, false);
    }
    crate::text::lemma_split_join(all, '\n');
    assert(split_lines(deletion_text(path, ls)) =~~= all);
    let n = all.len() as int;
    assert(n == 4 + ls.len());
    lemma_state_through_front(all, front, hdr, marked, false, ls.len() as nat);
    let st3 = crate::hunks::hunks_state(all, 3);
    let h0 = st3.1.unwrap();
    assert forall|t: int| 3 <= t < n implies !crate::text::has_prefix(
        #[trigger] all[t],
        seq!['@', '@'],
    ) by {
        if t < n - 1 {
            assert(all[t] == marked[t - 3]);
            assert(all[t][0] == '-');
            crate::hunks::lemma_not_header_line(all[t]);
        } else {
            assert(all[t].len() == 0);
            crate::hunks::lemma_not_header_line(all[t]);
        }
    }
    crate::hunks::lemma_hunks_append_run(all, 3, n, h0);
    let stn = crate::hunks::hunks_state(all, n);
    assert(stn.0.len() == 0);
    let hs = crate::hunks::parse_hunks_spec(all);
    assert(hs == stn.0.push(stn.1.unwrap()));
    assert(hs[0].lines =~~= seq![hdr] + marked + seq![Seq::<char>::empty()]) by {
        assert(all.subrange(3, n) =~~= marked + seq![Seq::<char>::empty()]) by {
            assert forall|t: int| 0 <= t < n - 3 implies all.subrange(3, n)[t] == (marked + seq![
                Seq::<char>::empty(),
            ])[t] by {
                assert(all.subrange(3, n)[t] == all[t + 3]);
            }
        }
        assert(seq![hdr] + (marked + seq![Seq::<char>::empty()]) =~~= seq![hdr] + marked + seq![
            Seq::<char>::empty(),
        ]);
    }
    assert(hs[0].lines.drop_first() =~~= marked + seq![Seq::<char>::empty()]);
    lemma_count_concat(marked, seq![Seq::<char>::empty()], '+');
    lemma_count_concat(marked, seq![Seq::<char>::empty()], '-');
    lemma_count_marked(ls, '-', '+');
    lemma_count_single_empty('+');
    lemma_count_single_empty('-');
}

/// A single empty line begins with no marker.
proof fn lemma_count_single_empty(c: char)
    ensures
        count_starting(seq![Seq::<char>::empty()], c) == 0,
{
    assert(count_starting(Seq::<Seq<char>>::empty(), c) == 0);
    assert(seq![Seq::<char>::empty()].drop_first() =~~= Seq::<Seq<char>>::empty());
    assert(count_starting(seq![Seq::<char>::empty()], c) == 0 + count_starting(
        seq![Seq::<char>::empty()].drop_first(),
        c,
    ));
}

/// No line of a file's content holds a newline: the pieces of the split
/// are newline-free, dropping the trailing piece keeps that, and stripping
/// a carriage return only removes a character.
pub proof fn lemma_lines_of_nl_free(content: Seq<char>)
    ensures
        forall|i: int, j: int|
            0 <= i < lines_of(content).len() && 0 <= j < lines_of(content)[i].len()
                ==> lines_of(content)[i][j] != '\n',
{
    crate::text::lemma_split_pieces_free(content, '\n');
    let ps = split_lines(content);
    let ps2 = if ps.len() > 0 && ps.last().len() == 0 {
        ps.drop_last()
    } else {
        ps
    };
    assert forall|i: int, j: int|
        0 <= i < lines_of(content).len() && 0 <= j < lines_of(content)[i].len() implies lines_of(
        content,
    )[i][j] != '\n' by {
        assert(lines_of(content)[i] == strip_cr(ps2[i]));
        assert(ps2[i] == ps[i]);
        assert(strip_cr(ps2[i])[j] == ps2[i][j]);
    }
}

/// Round trip of `added_diff_response`'s own output: the text it builds
/// over the content's source lines re-parses into one hunk whose declared
/// counts match the counted `+` and `-` body lines.
pub proof fn lemma_added_response_round_trip(path: Seq<char>, content: Seq<char>)
    requires
        forall|j: int| 0 <= j < path.len() ==> path[j] != '\n',
        content.len() < 0x7fff_fffe,
    ensures
        ({
            let ls = lines_of(content);
            let hs = crate::hunks::parse_hunks_spec(split_lines(addition_text(path, ls)));
            hs.len() == 1 && hs[0].old_count == 0 && hs[0].new_count == ls.len()
                && count_starting(hs[0].lines.drop_first(), '+') == hs[0].new_count
                && count_starting(hs[0].lines.drop_first(), '-') == hs[0].old_count
        }),
{
    let ls = lines_of(content);
    lemma_lines_of_nl_free(content);
    lemma_split_seq_len_bound(content, seq!['\n']);
    assert(ls.len() <= split_lines(content).len());
    lemma_addition_round_trip(path, ls);
}

/// No synthesized diff line holds a newline.
proof fn lemma_all_lines_nl_free(path: Seq<char>, ls: Seq<Seq<char>>, i: int, j: int, adding: bool)
    requires
        forall|t: int| 0 <= t < path.len() ==> path[t] != '\n',
        forall|p: int, q: int| 0 <= p < ls.len() && 0 <= q < ls[p].len() ==> ls[p][q] != '\n',
        0 <= i < (if adding { addition_lines(path, ls) } else { deletion_lines(path, ls) }).len(),
        0 <= j < (if adding { addition_lines(path, ls) } else { deletion_lines(path, ls) })[i].len(),
    ensures
        (if adding { addition_lines(path, ls) } else { deletion_lines(path, ls) })[i][j] != '\n',
{
    reveal_strlit("--- /dev/null");
    reveal_strlit("+++ b/");
    reveal_strlit("@@ -0,0 +1,");
    reveal_strlit(" @@");
    reveal_strlit("--- a/");
    reveal_strlit("+++ /dev/null");
    reveal_strlit("@@ -1,");
    reveal_strlit(" +0,0 @@");
    crate::text::lemma_dec_rep_digits(ls.len() as nat);
    let all = if adding {
        addition_lines(path, ls)
    } else {
        deletion_lines(path, ls)
    };
    let mark = if adding {
        '+'
    } else {
        '-'
    };
    let hdr = if adding {
        addition_header(ls.len())
    } else {
        deletion_header(ls.len())
    };
    if i == 0 || i == 1 {
    } else if i == 2 {
        assert(all[2] == hdr);
        if adding {
            assert(hdr == "@@ -0,0 +1,"@ + dec_rep(ls.len() as nat) + " @@"@);
        } else {
            assert(hdr == "@@ -1,"@ + dec_rep(ls.len() as nat) + " +0,0 @@"@);
        }
        assert(hdr[j] != '\n') by {
            lemma_header_nl_free(hdr, ls.len() as nat, j, adding);
        }
    } else if i < all.len() - 1 {
        assert(all[i] == marked_lines(mark, ls)[i - 3]);
        assert(all[i] == seq![mark].add(ls[i - 3]));
        if j >= 1 {
            assert(all[i][j] == ls[i - 3][j - 1]);
        }
    } else {
        assert(all[i].len() == 0);
    }
}

/// No header character is a newline: the fixed parts are revealed
/// literals and the count is decimal digits.
proof fn lemma_header_nl_free(hdr: Seq<char>, n: nat, j: int, adding: bool)
    requires
        hdr == if adding {
            addition_header(n)
        } else {
            deletion_header(n)
        },
        0 <= j < hdr.len(),
    ensures
        hdr[j] != '\n',
{
    reveal_strlit("@@ -0,0 +1,");
    reveal_strlit(" @@");
    reveal_strlit("@@ -1,");
    reveal_strlit(" +0,0 @@");
    crate::text::lemma_dec_rep_digits(n);
    let b = dec_rep(n);
    if adding {
        let a = "@@ -0,0 +1,"@;
        let c = " @@"@;
        assert(hdr == a + b + c);
        if j < 11 {
            assert(hdr[j] == (a + b)[j]);
            assert(hdr[j] == a[j]);
        } else if j < 11 + b.len() {
            assert(hdr[j] == (a + b)[j]);
            assert(hdr[j] == b[j - 11]);
            assert(crate::text::is_digit(hdr[j]));
        } else {
            assert(hdr[j] == c[j - 11 - b.len()]);
        }
    } else {
        let a = "@@ -1,"@;
        let c = " +0,0 @@"@;
        assert(hdr == a + b + c);
        if j < 6 {
            assert(hdr[j] == (a + b)[j]);
            assert(hdr[j] == a[j]);
        } else if j < 6 + b.len() {
            assert(hdr[j] == (a + b)[j]);
            assert(hdr[j] == b[j - 6]);
            assert(crate::text::is_digit(hdr[j]));
        } else {
            assert(hdr[j] == c[j - 6 - b.len()]);
        }
    }
}

/// The scan state after the two file-header lines and the hunk-header
/// line of a synthesized diff: no sealed hunk, and an open hunk holding
/// the header's numbers and the header line.
proof fn lemma_state_through_front(
    all: Seq<Seq<char>>,
    front: Seq<Seq<char>>,
    hdr: Seq<char>,
    marked: Seq<Seq<char>>,
    adding: bool,
    n: nat,
)
    requires
        n <= i32::MAX,
        all == front + marked + seq![Seq::<char>::empty()],
        front.len() == 3,
        front[2] == hdr,
        hdr == if adding {
            addition_header(n)
        } else {
            deletion_header(n)
        },
        front[0].len() > 0 && front[0][0] != '@',
        front[1].len() > 0 && front[1][0] != '@',
    ensures
        crate::hunks::hunks_state(all, 3).0 =~~= Seq::<crate::hunks::HunkView>::empty(),
        crate::hunks::hunks_state(all, 3).1 == Some(
            crate::hunks::HunkView {
                old_start: if adding { 0int } else { 1int },
                old_count: if adding { 0int } else { n as int },
                new_start: if adding { 1int } else { 0int },
                new_count: if adding { n as int } else { 0int },
                lines: seq![hdr],
                line_start: 2,
            },
        ),
{
    reveal_strlit("@@ -0,0 +1,");
    reveal_strlit("@@ -1,");
    assert(all[0] == front[0]);
    assert(all[1] == front[1]);
    assert(all[2] == hdr);
    crate::hunks::lemma_not_header_line(all[0]);
    crate::hunks::lemma_not_header_line(all[1]);
    let st0 = crate::hunks::hunks_state(all, 0);
    let st1 = crate::hunks::hunks_state(all, 1);
    let st2 = crate::hunks::hunks_state(all, 2);
    assert(st1 == crate::hunks::hunks_step(st0.0, st0.1, all[0], 0));
    assert(st2 == crate::hunks::hunks_step(st1.0, st1.1, all[1], 1));
    if adding {
        lemma_addition_header_parse(n);
        assert(hdr[0] == '@' && hdr[1] == '@') by {
            let a = "@@ -0,0 +1,"@;
            assert(hdr[0] == (a + dec_rep(n))[0]);
            assert(hdr[1] == (a + dec_rep(n))[1]);
        }
    } else {
        lemma_deletion_header_parse(n);
        assert(hdr[0] == '@' && hdr[1] == '@') by {
            let a = "@@ -1,"@;
            assert(hdr[0] == (a + dec_rep(n))[0]);
            assert(hdr[1] == (a + dec_rep(n))[1]);
        }
    }
    assert(crate::text::has_prefix(hdr, seq!['@', '@'])) by {
        assert(hdr.subrange(0, 2) =~= seq!['@', '@']);
    }
    assert(crate::hunks::hunks_state(all, 3) == crate::hunks::hunks_step(st2.0, st2.1, all[2], 2));
}

/// The degraded response for a bootstrap commit whose parent cannot be
/// resolved: every content line as a `+ `-prefixed line, with no hunks.
pub open spec fn bootstrap_lines(ls: Seq<Seq<char>>) -> Seq<Seq<char>> {
    ls.map_values(|l: Seq<char>| seq!['+', ' '].add(l))
}

/// Builds the bootstrap additions response, as `bootstrap_lines` describes:
/// the diff text joins the marked lines with newlines and the hunk list is
/// empty.
pub fn bootstrap_diff_response(file_path: &str, content: &str) -> (r: DiffResponse)
    ensures
        r.diff@ == join_seq(bootstrap_lines(split_lines(content@)), seq!['\n']),
        r.hunks@.len() == 0,
        r.file_path@ == file_path@,
{
    let chars = str_to_chars(content);
    let mut nl: Vec<char> = Vec::new();
    nl.push('\n');
    let ls = split_chars(&chars, &nl);
    proof {
        assert(nl@ =~= seq!['\n']);
        assert(ls.deep_view() =~~= split_lines(content@));
    }
    let ghost lsv = ls.deep_view();
    let mut marked: Vec<Vec<char>> = Vec::new();
    let mut i: usize = 0;
    while i < ls.len()
        invariant
            i <= lsv.len(),
            lsv == ls.deep_view(),
            marked.deep_view() =~~= bootstrap_lines(lsv.take(i as int)),
        decreases lsv.len() - i,
    {
        let ghost before = marked.deep_view();
        let mut m: Vec<char> = Vec::new();
        m.push('+');
        m.push(' ');
        append_chars(&mut m, &ls[i]);
        proof {
            assert(lsv[i as int] == ls@[i as int]@);
            assert(m@ =~= seq!['+', ' '].add(lsv[i as int]));
        }
        marked.push(m);
        i += 1;
        proof {
            assert(marked.deep_view() =~~= before.push(seq!['+', ' '].add(lsv[i - 1])));
            assert(bootstrap_lines(lsv.take(i as int)) =~~= bootstrap_lines(
                lsv.take(i - 1),
            ).push(seq!['+', ' '].add(lsv[i - 1])));
        }
    }
    proof {
        assert(lsv.take(lsv.len() as int) =~~= lsv);
    }
    let text = join_chars(&marked, &nl);
    DiffResponse {
        diff: chars_to_string(&text),
        hunks: Vec::new(),
        file_path: file_path.to_owned(),
    }
}

} // verus!
