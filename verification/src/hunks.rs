//! Parsing of unified-diff text into hunks.
//!
//! A hunk begins exactly at a line whose first two characters are `@@`; the
//! header's four numbers populate the hunk fields, with the count defaulting
//! to 1 where the header omits it; every following line is appended verbatim
//! until the next header or the end of the text.  A `@@` line that is not a
//! well-formed header seals the open hunk and discards lines until the next
//! header, so one bad line cannot hide the rest of a large diff.

use vstd::prelude::*;

use crate::models::DiffHunk;
use crate::text::{
    begins_with, chars_to_string, digit_run_end, digits_to_i32_or, digits_val_or, has_prefix, is_digit,
    lemma_digit_run_end, scan_digits, split_chars, split_lines, split_seq, str_to_chars,
};

verus! {

/// The four numbers of a hunk header `@@ -A[,B] +C[,D] @@`, or `None` where
/// the line is not of that shape.  A missing count defaults to 1; a number
/// too large for an `i32` falls back to the field's default (0 for a start,
/// 1 for a count).  Text after the closing `@@` is ignored.
pub open spec fn hunk_header_nums(s: Seq<char>) -> Option<(int, int, int, int)> {
    if s.len() < 4 || s[0] != '@' || s[1] != '@' || s[2] != ' ' || s[3] != '-' {
        None
    } else {
        let a1 = digit_run_end(s, 4);
        if a1 == 4 {
            None
        } else {
            let old_start = digits_val_or(s.subrange(4, a1), 0);
            let p1 = if a1 < s.len() && s[a1] == ',' {
                digit_run_end(s, a1 + 1)
            } else {
                a1
            };
            if p1 != a1 && p1 == a1 + 1 {
                None
            } else {
                let old_count = if p1 == a1 {
                    1
                } else {
                    digits_val_or(s.subrange(a1 + 1, p1), 1)
                };
                if !(p1 + 1 < s.len() && s[p1] == ' ' && s[p1 + 1] == '+') {
                    None
                } else {
                    let c1 = digit_run_end(s, p1 + 2);
                    if c1 == p1 + 2 {
                        None
                    } else {
                        let new_start = digits_val_or(s.subrange(p1 + 2, c1), 0);
                        let p2 = if c1 < s.len() && s[c1] == ',' {
                            digit_run_end(s, c1 + 1)
                        } else {
                            c1
                        };
                        if p2 != c1 && p2 == c1 + 1 {
                            None
                        } else {
                            let new_count = if p2 == c1 {
                                1
                            } else {
                                digits_val_or(s.subrange(c1 + 1, p2), 1)
                            };
                            if p2 + 2 < s.len() && s[p2] == ' ' && s[p2 + 1] == '@'
                                && s[p2 + 2] == '@' {
                                Some((old_start, old_count, new_start, new_count))
                            } else {
                                None
                            }
                        }
                    }
                }
            }
        }
    }
}

/// Parses a hunk header line, as `hunk_header_nums` describes.
pub fn parse_hunk_header(v: &Vec<char>) -> (r: Option<(i32, i32, i32, i32)>)
    ensures
        match r {
            Some(t) => hunk_header_nums(v@) == Some(
                (t.0 as int, t.1 as int, t.2 as int, t.3 as int),
            ) && t.0 >= 0 && t.1 >= 0 && t.2 >= 0 && t.3 >= 0,
            None => hunk_header_nums(v@) is None,
        },
{
    if v.len() < 4 || v[0] != '@' || v[1] != '@' || v[2] != ' ' || v[3] != '-' {
        return None;
    }
    let a1 = scan_digits(v, 4);
    if a1 == 4 {
        return None;
    }
    let old_start = digits_to_i32_or(v, 4, a1, 0);
    let p1: usize = if a1 < v.len() && v[a1] == ',' {
        scan_digits(v, a1 + 1)
    } else {
        a1
    };
    if p1 != a1 && p1 == a1 + 1 {
        return None;
    }
    let old_count: i32 = if p1 == a1 {
        1
    } else {
        digits_to_i32_or(v, a1 + 1, p1, 1)
    };
    if p1 >= v.len() || v[p1] != ' ' {
        return None;
    }
    if p1 + 1 >= v.len() || v[p1 + 1] != '+' {
        return None;
    }
    let c1 = scan_digits(v, p1 + 2);
    if c1 == p1 + 2 {
        return None;
    }
    let new_start = digits_to_i32_or(v, p1 + 2, c1, 0);
    let p2: usize = if c1 < v.len() && v[c1] == ',' {
        scan_digits(v, c1 + 1)
    } else {
        c1
    };
    if p2 != c1 && p2 == c1 + 1 {
        return None;
    }
    let new_count: i32 = if p2 == c1 {
        1
    } else {
        digits_to_i32_or(v, c1 + 1, p2, 1)
    };
    if p2 >= v.len() || v[p2] != ' ' {
        return None;
    }
    if p2 + 1 >= v.len() || v[p2 + 1] != '@' {
        return None;
    }
    if p2 + 2 >= v.len() || v[p2 + 2] != '@' {
        return None;
    }
    Some((old_start, old_count, new_start, new_count))
}

/// The mathematical shape of a parsed hunk.
#[verifier::ext_equal]
pub struct HunkView {
    pub old_start: int,
    pub old_count: int,
    pub new_start: int,
    pub new_count: int,
    pub lines: Seq<Seq<char>>,
    pub line_start: int,
}

impl View for DiffHunk {
    type V = HunkView;

    open spec fn view(&self) -> HunkView {
        HunkView {
            old_start: self.old_start as int,
            old_count: self.old_count as int,
            new_start: self.new_start as int,
            new_count: self.new_count as int,
            lines: self.lines.deep_view(),
            line_start: self.line_start as int,
        }
    }
}

/// One line of the scan: a `@@` line seals the open hunk and, when it is a
/// well-formed header, opens a new one; any other line extends the open
/// hunk.
pub open spec fn hunks_step(
    done: Seq<HunkView>,
    cur: Option<HunkView>,
    line: Seq<char>,
    idx: int,
) -> (Seq<HunkView>, Option<HunkView>) {
    if has_prefix(line, seq!['@', '@']) {
        let done2 = match cur {
            Some(h) => done.push(h),
            None => done,
        };
        match hunk_header_nums(line) {
            Some(nums) => (
                done2,
                Some(
                    HunkView {
                        old_start: nums.0,
                        old_count: nums.1,
                        new_start: nums.2,
                        new_count: nums.3,
                        lines: seq![line],
                        line_start: idx,
                    },
                ),
            ),
            None => (done2, None),
        }
    } else {
        match cur {
            Some(h) => (
                done,
                Some(
                    HunkView {
                        old_start: h.old_start,
                        old_count: h.old_count,
                        new_start: h.new_start,
                        new_count: h.new_count,
                        lines: h.lines.push(line),
                        line_start: h.line_start,
                    },
                ),
            ),
            None => (done, None),
        }
    }
}

/// The scan state after the first `i` lines.
pub open spec fn hunks_state(lines: Seq<Seq<char>>, i: int) -> (Seq<HunkView>, Option<HunkView>)
    decreases i,
{
    if i <= 0 {
        (Seq::<HunkView>::empty(), None::<HunkView>)
    } else {
        let st = hunks_state(lines, i - 1);
        hunks_step(st.0, st.1, lines[i - 1], i - 1)
    }
}

/// All hunks of the given lines: the scanned hunks, with the hunk still open
/// at the end of the text sealed.
pub open spec fn parse_hunks_spec(lines: Seq<Seq<char>>) -> Seq<HunkView> {
    let st = hunks_state(lines, lines.len() as int);
    match st.1 {
        Some(h) => st.0.push(h),
        None => st.0,
    }
}

/// A run of digits bounded by a non-digit ends exactly at the bound.
pub proof fn lemma_digit_run_exact(s: Seq<char>, a: int, b: int)
    requires
        0 <= a <= b <= s.len(),
        forall|t: int| a <= t < b ==> is_digit(s[t]),
        b == s.len() || !is_digit(s[b]),
    ensures
        digit_run_end(s, a) == b,
    decreases b - a,
{
    if a == b {
    } else {
        lemma_digit_run_exact(s, a + 1, b);
    }
}

/// A line whose first character is not `@` is no hunk-header line.
pub proof fn lemma_not_header_line(line: Seq<char>)
    requires
        line.len() == 0 || line[0] != '@',
    ensures
        !has_prefix(line, seq!['@', '@']),
{
    if has_prefix(line, seq!['@', '@']) {
        assert(line.subrange(0, 2)[0] == line[0]);
    }
}

/// Lines that are no hunk headers extend the open hunk one by one.
pub proof fn lemma_hunks_append_run(lines: Seq<Seq<char>>, from: int, to: int, h: HunkView)
    requires
        0 <= from <= to <= lines.len(),
        forall|t: int| from <= t < to ==> !has_prefix(#[trigger] lines[t], seq!['@', '@']),
        hunks_state(lines, from).1 == Some(h),
    ensures
        hunks_state(lines, to).0 == hunks_state(lines, from).0,
        hunks_state(lines, to).1 == Some(
            HunkView {
                old_start: h.old_start,
                old_count: h.old_count,
                new_start: h.new_start,
                new_count: h.new_count,
                lines: h.lines + lines.subrange(from, to),
                line_start: h.line_start,
            },
        ),
    decreases to - from,
{
    if from == to {
        assert(h.lines + lines.subrange(from, to) =~~= h.lines) by {
            assert(lines.subrange(from, from) =~~= Seq::<Seq<char>>::empty());
        }
        assert(HunkView {
            old_start: h.old_start,
            old_count: h.old_count,
            new_start: h.new_start,
            new_count: h.new_count,
            lines: h.lines + lines.subrange(from, to),
            line_start: h.line_start,
        } =~~= h);
    } else {
        lemma_hunks_append_run(lines, from, to - 1, h);
        let st = hunks_state(lines, to - 1);
        assert(hunks_state(lines, to) == hunks_step(st.0, st.1, lines[to - 1], to - 1));
        assert(h.lines + lines.subrange(from, to - 1) + seq![lines[to - 1]] =~~= h.lines
            + lines.subrange(from, to));
    }
}

/// Splitting produces at most one more piece than there are characters.
pub proof fn lemma_split_seq_len_bound(s: Seq<char>, sep: Seq<char>)
    requires
        sep.len() >= 1,
    ensures
        split_seq(s, sep).len() <= s.len() + 1,
    decreases s.len(),
{
    if s.len() == 0 {
    } else if 0 < sep.len() <= s.len() && s.subrange(0, sep.len() as int) == sep {
        lemma_split_seq_len_bound(s.skip(sep.len() as int), sep);
        assert(split_seq(s, sep).len() == 1 + split_seq(s.skip(sep.len() as int), sep).len());
        assert(s.skip(sep.len() as int).len() == s.len() - sep.len());
    } else {
        lemma_split_seq_len_bound(s.drop_first(), sep);
        crate::text::lemma_split_seq_len(s.drop_first(), sep);
        let r = split_seq(s.drop_first(), sep);
        assert(split_seq(s, sep) == r.update(0, seq![s[0]].add(r[0])));
        assert(split_seq(s, sep).len() == r.len());
    }
}

/// Splits the diff text into lines and gathers its hunks, as
/// `parse_hunks_spec` describes over the split lines.
pub fn parse_hunks(diff_out: &str) -> (r: Vec<DiffHunk>)
    requires
        diff_out@.len() < 0x7fff_ffff,
    ensures
        r@.map_values(|h: DiffHunk| h@) =~~= parse_hunks_spec(split_lines(diff_out@)),
{
    let chars = str_to_chars(diff_out);
    let mut nl: Vec<char> = Vec::new();
    nl.push('\n');
    let lines = split_chars(&chars, &nl);
    proof {
        lemma_split_seq_len_bound(chars@, nl@);
        assert(nl@ =~= seq!['\n']);
        assert(lines.deep_view() =~~= split_lines(diff_out@));
    }
    let mut atat: Vec<char> = Vec::new();
    atat.push('@');
    atat.push('@');
    let mut hunks: Vec<DiffHunk> = Vec::new();
    let mut cur: Option<DiffHunk> = None;
    let ghost linesv = lines.deep_view();
    let mut i: usize = 0;
    while i < lines.len()
        invariant
            atat@ =~= seq!['@', '@'],
            linesv == lines.deep_view(),
            linesv.len() <= 0x7fff_ffff,
            i <= linesv.len(),
            hunks_state(linesv, i as int) == (
                hunks@.map_values(|h: DiffHunk| h@),
                match cur {
                    Some(h) => Some(h@),
                    None => None::<HunkView>,
                },
            ),
        decreases linesv.len() - i,
    {
        let ghost pre_state = hunks_state(linesv, i as int);
        let line = &lines[i];
        proof {
            assert(linesv[i as int] == line@);
        }
        if begins_with(line, &atat) {
            let prev = cur;
            cur = None;
            match prev {
                Some(h) => {
                    hunks.push(h);
                },
                None => {},
            }
            match parse_hunk_header(line) {
                Some(nums) => {
                    let mut ls: Vec<String> = Vec::new();
                    ls.push(chars_to_string(line));
                    proof {
                        assert(ls.deep_view() =~~= seq![line@]);
                    }
                    cur = Some(
                        DiffHunk {
                            old_start: nums.0,
                            old_count: nums.1,
                            new_start: nums.2,
                            new_count: nums.3,
                            lines: ls,
                            line_start: i as i32,
                        },
                    );
                },
                None => {},
            }
        } else {
            let prev = cur;
            cur = None;
            match prev {
                Some(h) => {
                    let mut h2 = h;
                    h2.lines.push(chars_to_string(line));
                    proof {
                        assert(h2.lines.deep_view() =~~= h.lines.deep_view().push(line@));
                    }
                    cur = Some(h2);
                },
                None => {},
            }
        }
        i += 1;
        proof {
            assert(hunks_state(linesv, i as int) == hunks_step(
                pre_state.0,
                pre_state.1,
                linesv[i - 1],
                i - 1,
            ));
            assert(hunks_state(linesv, i as int).0 =~~= hunks@.map_values(|h: DiffHunk| h@));
        }
    }
    let prev = cur;
    match prev {
        Some(h) => {
            hunks.push(h);
        },
        None => {},
    }
    proof {
        assert(hunks@.map_values(|h: DiffHunk| h@) =~~= parse_hunks_spec(linesv));
    }
    hunks
}

} // verus!
