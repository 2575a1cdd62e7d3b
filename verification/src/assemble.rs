//! Assembly of a structured diff's callback events into unified text and a
//! hunk list.
//!
//! The structured source reports one event per printed line: changed or
//! context lines (`+`, `-`, ` `), hunk headers (`H`), file headers (`F`)
//! and other line kinds.  A new hunk begins exactly at an `H` event; header
//! numbers populate the hunk fields; every following line is appended
//! verbatim until the next header or the end of the stream, at which point
//! the hunk is sealed in encounter order.  This normalizes the structured
//! source to the same hunk shape as the textual scanner.  Each sealed
//! hunk's declared counts are re-derived from its own body lines, so the
//! count fields and the lines always agree.

use vstd::prelude::*;

use crate::models::{DiffHunkData, FileDiff};
use crate::text::{
    append_chars, chars_to_string, dec_chars, dec_rep, rtrim_line, rtrimmed, str_to_chars,
};

verus! {

/// One event of a structured diff print: the line origin marker, the line
/// content, the hunk header numbers on a header event, the delta's paths
/// and its add/delete classification on a file-header event.
#[derive(Debug, Clone)]
pub struct RawDiffLine {
    pub origin: char,
    pub content: String,
    pub hunk: Option<(u32, u32, u32, u32)>,
    pub old_path: Option<String>,
    pub new_path: Option<String>,
    pub is_added: bool,
    pub is_deleted: bool,
}

/// The mathematical shape of one diff event.
#[verifier::ext_equal]
pub struct RawView {
    pub origin: char,
    pub content: Seq<char>,
    pub hunk: Option<(u32, u32, u32, u32)>,
    pub old_path: Option<Seq<char>>,
    pub new_path: Option<Seq<char>>,
    pub is_added: bool,
    pub is_deleted: bool,
}

impl View for RawDiffLine {
    type V = RawView;

    open spec fn view(&self) -> RawView {
        RawView {
            origin: self.origin,
            content: self.content@,
            hunk: self.hunk,
            old_path: match self.old_path {
                Some(p) => Some(p@),
                None => None,
            },
            new_path: match self.new_path {
                Some(p) => Some(p@),
                None => None,
            },
            is_added: self.is_added,
            is_deleted: self.is_deleted,
        }
    }
}

/// The mathematical shape of one structured hunk.
#[verifier::ext_equal]
pub struct HunkDataView {
    pub old_start: int,
    pub old_count: int,
    pub new_start: int,
    pub new_count: int,
    pub lines: Seq<Seq<char>>,
}

impl View for DiffHunkData {
    type V = HunkDataView;

    open spec fn view(&self) -> HunkDataView {
        HunkDataView {
            old_start: self.old_start as int,
            old_count: self.old_count as int,
            new_start: self.new_start as int,
            new_count: self.new_count as int,
            lines: self.lines.deep_view(),
        }
    }
}

/// The assembly state: accumulated text, sealed hunks, the lines gathered
/// for the open hunk, and the open hunk's header numbers.
#[verifier::ext_equal]
pub struct AsmState {
    pub text: Seq<char>,
    pub done: Seq<HunkDataView>,
    pub cur_lines: Seq<Seq<char>>,
    pub cur: Option<HunkDataView>,
}

/// The printed header text of a hunk, `@@ -a,b +c,d @@`.
pub open spec fn header_text(q: (u32, u32, u32, u32)) -> Seq<char> {
    "@@ -"@ + dec_rep(q.0 as nat) + ","@ + dec_rep(q.1 as nat) + " +"@ + dec_rep(q.2 as nat)
        + ","@ + dec_rep(q.3 as nat) + " @@"@
}

/// A path defaulted to `/dev/null` when the source reports none.
pub open spec fn path_or_null(p: Option<Seq<char>>) -> Seq<char> {
    match p {
        Some(s) => s,
        None => "/dev/null"@,
    }
}

/// The two file-header lines appended on an `F` event.  In commit style an
/// added file's old side and a deleted file's new side print `/dev/null`;
/// in working style the `a/`/`b/` prefixes are printed unconditionally.
pub open spec fn file_header_text(e: RawView, commit_style: bool) -> Seq<char> {
    let oldp = path_or_null(e.old_path);
    let newp = path_or_null(e.new_path);
    if commit_style {
        let old_prefix = if e.is_added {
            "/dev/null"@
        } else {
            "a/"@ + oldp
        };
        let new_prefix = if e.is_deleted {
            "/dev/null"@
        } else {
            "b/"@ + newp
        };
        "--- "@ + old_prefix + "\n"@ + "+++ "@ + new_prefix + "\n"@
    } else {
        "--- a/"@ + oldp + "\n"@ + "+++ b/"@ + newp + "\n"@
    }
}

/// One assembly step, as the module description says.  A changed or
/// context line raises the open hunk's counts — the old count for `-` and
/// context lines, the new count for `+` and context lines — so each
/// sealed hunk's declared counts are re-derived from its own lines and
/// always agree with them; the printed header text keeps the source's own
/// numbers.  A header event discards any lines gathered while no hunk was
/// open.
pub open spec fn asm_step(st: AsmState, e: RawView, commit_style: bool) -> AsmState {
    if e.origin == '+' || e.origin == '-' || e.origin == ' ' {
        let nl_extra: Seq<char> = if e.content.len() > 0 && e.content.last() == '\n' {
            Seq::<char>::empty()
        } else {
            seq!['\n']
        };
        AsmState {
            text: st.text + seq![e.origin] + e.content + nl_extra,
            done: st.done,
            cur_lines: st.cur_lines.push(seq![e.origin] + rtrimmed(e.content)),
            cur: match st.cur {
                Some(h) => Some(
                    HunkDataView {
                        old_start: h.old_start,
                        old_count: h.old_count + (if e.origin == '-' || e.origin == ' ' {
                            1int
                        } else {
                            0int
                        }),
                        new_start: h.new_start,
                        new_count: h.new_count + (if e.origin == '+' || e.origin == ' ' {
                            1int
                        } else {
                            0int
                        }),
                        lines: h.lines,
                    },
                ),
                None => None,
            },
        }
    } else if e.origin == 'H' {
        let sealed = match st.cur {
            Some(h) => AsmState {
                text: st.text,
                done: st.done.push(
                    HunkDataView {
                        old_start: h.old_start,
                        old_count: h.old_count,
                        new_start: h.new_start,
                        new_count: h.new_count,
                        lines: st.cur_lines,
                    },
                ),
                cur_lines: Seq::<Seq<char>>::empty(),
                cur: None,
            },
            None => AsmState {
                text: st.text,
                done: st.done,
                cur_lines: Seq::<Seq<char>>::empty(),
                cur: None,
            },
        };
        match e.hunk {
            Some(q) => AsmState {
                text: sealed.text + header_text(q) + seq!['\n'],
                done: sealed.done,
                cur_lines: sealed.cur_lines.push(header_text(q)),
                cur: Some(
                    HunkDataView {
                        old_start: (q.0 as i32) as int,
                        old_count: 0,
                        new_start: (q.2 as i32) as int,
                        new_count: 0,
                        lines: Seq::<Seq<char>>::empty(),
                    },
                ),
            },
            None => sealed,
        }
    } else if e.origin == 'F' {
        AsmState {
            text: st.text + file_header_text(e, commit_style),
            done: st.done,
            cur_lines: st.cur_lines,
            cur: st.cur,
        }
    } else {
        if commit_style {
            AsmState { text: st.text + e.content, done: st.done, cur_lines: st.cur_lines, cur: st.cur }
        } else {
            st
        }
    }
}

/// The assembly state after the first `i` events.
pub open spec fn asm_fold(events: Seq<RawView>, i: int, commit_style: bool) -> AsmState
    decreases i,
{
    if i <= 0 {
        AsmState {
            text: Seq::<char>::empty(),
            done: Seq::<HunkDataView>::empty(),
            cur_lines: Seq::<Seq<char>>::empty(),
            cur: None,
        }
    } else {
        asm_step(asm_fold(events, i - 1, commit_style), events[i - 1], commit_style)
    }
}

/// The final text and hunks of a stream of events: the folded state, with
/// the hunk still open at the end sealed.
pub open spec fn assemble_spec(events: Seq<RawView>, commit_style: bool) -> (Seq<char>, Seq<
    HunkDataView,
>) {
    let st = asm_fold(events, events.len() as int, commit_style);
    match st.cur {
        Some(h) => (
            st.text,
            st.done.push(
                HunkDataView {
                    old_start: h.old_start,
                    old_count: h.old_count,
                    new_start: h.new_start,
                    new_count: h.new_count,
                    lines: st.cur_lines,
                },
            ),
        ),
        None => (st.text, st.done),
    }
}

/// The declared counts of a hunk agree with its body lines: the old count
/// is the number of `-` and context lines after the header, the new count
/// the number of `+` and context lines there.
pub open spec fn counts_ok(h: HunkDataView) -> bool {
    h.old_count == crate::text::count_starting(h.lines.drop_first(), ' ')
        + crate::text::count_starting(h.lines.drop_first(), '-') && h.new_count
        == crate::text::count_starting(h.lines.drop_first(), ' ') + crate::text::count_starting(
        h.lines.drop_first(),
        '+',
    )
}

/// Every sealed hunk satisfies `counts_ok`, and the open hunk's counters
/// track its gathered body lines.
proof fn lemma_asm_counts(events: Seq<RawView>, commit_style: bool, i: int)
    requires
        0 <= i <= events.len(),
    ensures
        ({
            let st = asm_fold(events, i, commit_style);
            (forall|k: int| 0 <= k < st.done.len() ==> counts_ok(#[trigger] st.done[k])) && (
            st.cur matches Some(h) ==> st.cur_lines.len() >= 1 && h.old_count
                == crate::text::count_starting(st.cur_lines.drop_first(), ' ')
                + crate::text::count_starting(st.cur_lines.drop_first(), '-') && h.new_count
                == crate::text::count_starting(st.cur_lines.drop_first(), ' ')
                + crate::text::count_starting(st.cur_lines.drop_first(), '+'))
        }),
    decreases i,
{
    if i > 0 {
        lemma_asm_counts(events, commit_style, i - 1);
        let st0 = asm_fold(events, i - 1, commit_style);
        let st1 = asm_fold(events, i, commit_style);
        let e = events[i - 1];
        if e.origin == '+' || e.origin == '-' || e.origin == ' ' {
            match st0.cur {
                Some(h) => {
                    let line = seq![e.origin] + rtrimmed(e.content);
                    assert(line[0] == e.origin && line.len() >= 1);
                    assert(st0.cur_lines.push(line).drop_first() =~~= st0.cur_lines.drop_first()
                        .push(line));
                    crate::text::lemma_count_push(st0.cur_lines.drop_first(), line, ' ');
                    crate::text::lemma_count_push(st0.cur_lines.drop_first(), line, '-');
                    crate::text::lemma_count_push(st0.cur_lines.drop_first(), line, '+');
                },
                None => {},
            }
        } else if e.origin == 'H' {
            match st0.cur {
                Some(h) => {
                    let sealed = HunkDataView {
                        old_start: h.old_start,
                        old_count: h.old_count,
                        new_start: h.new_start,
                        new_count: h.new_count,
                        lines: st0.cur_lines,
                    };
                    assert(counts_ok(sealed));
                    assert forall|k: int| 0 <= k < st1.done.len() implies counts_ok(
                        #[trigger] st1.done[k],
                    ) by {
                        if k < st0.done.len() {
                            assert(st1.done[k] == st0.done[k]);
                        } else {
                            assert(st1.done[k] == sealed);
                        }
                    }
                },
                None => {},
            }
            match e.hunk {
                Some(q) => {
                    assert(seq![header_text(q)].drop_first() =~~= Seq::<Seq<char>>::empty());
                },
                None => {},
            }
        }
    }
}

/// Seals the open hunk with the gathered lines.
fn seal_hunk(hunks: &mut Vec<DiffHunkData>, h: DiffHunkData, cur_lines: Vec<String>)
    ensures
        final(hunks)@.map_values(|x: DiffHunkData| x@) =~~= old(hunks)@.map_values(
            |x: DiffHunkData| x@,
        ).push(
            HunkDataView {
                old_start: h.old_start as int,
                old_count: h.old_count as int,
                new_start: h.new_start as int,
                new_count: h.new_count as int,
                lines: cur_lines.deep_view(),
            },
        ),
{
    let mut h2 = h;
    h2.lines = cur_lines;
    hunks.push(h2);
}

/// Builds the printed header text of a hunk, as `header_text` describes.
fn build_header(q: (u32, u32, u32, u32)) -> (r: Vec<char>)
    ensures
        r@ =~= header_text(q),
{
    let mut hdr = str_to_chars("@@ -");
    let a = dec_chars(q.0 as u64);
    append_chars(&mut hdr, &a);
    let comma = str_to_chars(",");
    append_chars(&mut hdr, &comma);
    let b = dec_chars(q.1 as u64);
    append_chars(&mut hdr, &b);
    let plus = str_to_chars(" +");
    append_chars(&mut hdr, &plus);
    let c = dec_chars(q.2 as u64);
    append_chars(&mut hdr, &c);
    let comma2 = str_to_chars(",");
    append_chars(&mut hdr, &comma2);
    let d = dec_chars(q.3 as u64);
    append_chars(&mut hdr, &d);
    let tail = str_to_chars(" @@");
    append_chars(&mut hdr, &tail);
    hdr
}

/// Appends the two file-header lines of an `F` event, as
/// `file_header_text` describes.
#[verifier::rlimit(60)]
fn append_file_header(text: &mut Vec<char>, e: &RawDiffLine, commit_style: bool)
    ensures
        final(text)@ =~~= old(text)@ + file_header_text(e@, commit_style),
{
    let null_path = "/dev/null";
    let oldp: Vec<char> = match &e.old_path {
        Some(p) => str_to_chars(p.as_str()),
        None => str_to_chars(null_path),
    };
    let newp: Vec<char> = match &e.new_path {
        Some(p) => str_to_chars(p.as_str()),
        None => str_to_chars(null_path),
    };
    proof {
        assert(oldp@ == path_or_null(e@.old_path));
        assert(newp@ == path_or_null(e@.new_path));
    }
    if commit_style {
        let dashes = str_to_chars("--- ");
        append_chars(text, &dashes);
        if e.is_added {
            let dn = str_to_chars("/dev/null");
            append_chars(text, &dn);
        } else {
            let ap = str_to_chars("a/");
            append_chars(text, &ap);
            append_chars(text, &oldp);
        }
        let mid = str_to_chars("\n+++ ");
        append_chars(text, &mid);
        if e.is_deleted {
            let dn = str_to_chars("/dev/null");
            append_chars(text, &dn);
        } else {
            let bp = str_to_chars("b/");
            append_chars(text, &bp);
            append_chars(text, &newp);
        }
        text.push('\n');
        proof {
            reveal_strlit("\n+++ ");
            reveal_strlit("+++ ");
            reveal_strlit("\n");
            assert("\n+++ "@ =~= "\n"@ + "+++ "@);
            assert(final(text)@ =~~= old(text)@ + file_header_text(e@, commit_style));
        }
    } else {
        let l0 = str_to_chars("--- a/");
        append_chars(text, &l0);
        append_chars(text, &oldp);
        let mid = str_to_chars("\n+++ b/");
        append_chars(text, &mid);
        append_chars(text, &newp);
        text.push('\n');
        proof {
            reveal_strlit("\n+++ b/");
            reveal_strlit("+++ b/");
            reveal_strlit("\n");
            assert("\n+++ b/"@ =~= "\n"@ + "+++ b/"@);
            assert(final(text)@ =~~= old(text)@ + file_header_text(e@, commit_style));
        }
    }
}

/// Assembles a stream of structured diff events into unified text and a
/// hunk list, as `assemble_spec` describes; every returned hunk's declared
/// counts agree with its lines, as `counts_ok` describes.
pub fn assemble_diff(events: &Vec<RawDiffLine>, commit_style: bool, file_path: &str) -> (r:
    FileDiff)
    requires
        events@.len() <= 0x7fff_ffff,
    ensures
        r.diff@ == assemble_spec(events@.map_values(|e: RawDiffLine| e@), commit_style).0,
        r.hunks@.map_values(|h: DiffHunkData| h@) =~~= assemble_spec(
            events@.map_values(|e: RawDiffLine| e@),
            commit_style,
        ).1,
        forall|k: int| 0 <= k < r.hunks@.len() ==> counts_ok((#[trigger] r.hunks@[k])@),
        r.file_path@ == file_path@,
{
    let ghost ev = events@.map_values(|e: RawDiffLine| e@);
    let mut text: Vec<char> = Vec::new();
    let mut hunks: Vec<DiffHunkData> = Vec::new();
    let mut cur_lines: Vec<String> = Vec::new();
    let mut cur: Option<DiffHunkData> = None;
    let mut i: usize = 0;
    while i < events.len()
        invariant
            ev == events@.map_values(|e: RawDiffLine| e@),
            ev.len() <= 0x7fff_ffff,
            i <= ev.len(),
            asm_fold(ev, i as int, commit_style).text =~~= text@,
            asm_fold(ev, i as int, commit_style).done =~~= hunks@.map_values(
                |x: DiffHunkData| x@,
            ),
            asm_fold(ev, i as int, commit_style).cur_lines =~~= cur_lines.deep_view(),
            match cur {
                Some(h) => (asm_fold(ev, i as int, commit_style).cur matches Some(g) && g =~~= h@)
                    && h@.lines =~~= Seq::<Seq<char>>::empty() && 0 <= h.old_count <= i && 0
                    <= h.new_count <= i,
                None => asm_fold(ev, i as int, commit_style).cur is None,
            },
        decreases ev.len() - i,
    {
        let ghost st = asm_fold(ev, i as int, commit_style);
        let e = &events[i];
        proof {
            assert(ev[i as int] == e@);
        }
        let origin = e.origin;
        if origin == '+' || origin == '-' || origin == ' ' {
            let content = str_to_chars(e.content.as_str());
            text.push(origin);
            append_chars(&mut text, &content);
            if content.len() == 0 || content[content.len() - 1] != '\n' {
                text.push('\n');
            }
            let mut marked: Vec<char> = Vec::new();
            marked.push(origin);
            let trimmed_content = rtrim_line(&content);
            append_chars(&mut marked, &trimmed_content);
            let ghost old_cl = cur_lines.deep_view();
            cur_lines.push(chars_to_string(&marked));
            proof {
                assert(marked@ =~= seq![origin].add(rtrimmed(e@.content)));
                assert(cur_lines.deep_view() =~~= old_cl.push(marked@));
            }
            let prev = cur;
            cur = None;
            match prev {
                Some(h) => {
                    let mut h2 = h;
                    if origin == '-' || origin == ' ' {
                        h2.old_count = h2.old_count + 1;
                    }
                    if origin == '+' || origin == ' ' {
                        h2.new_count = h2.new_count + 1;
                    }
                    cur = Some(h2);
                },
                None => {},
            }
        } else if origin == 'H' {
            let prev = cur;
            cur = None;
            let mut taken: Vec<String> = Vec::new();
            core::mem::swap(&mut taken, &mut cur_lines);
            proof {
                assert(cur_lines.deep_view() =~~= Seq::<Seq<char>>::empty());
            }
            match prev {
                Some(h) => {
                    seal_hunk(&mut hunks, h, taken);
                },
                None => {},
            }
            match e.hunk {
                Some(q) => {
                    let hdr = build_header(q);
                    append_chars(&mut text, &hdr);
                    text.push('\n');
                    let ghost old_cl = cur_lines.deep_view();
                    cur_lines.push(chars_to_string(&hdr));
                    proof {
                        assert(cur_lines.deep_view() =~~= old_cl.push(header_text(q)));
                    }
                    cur = Some(
                        DiffHunkData {
                            old_start: #[verifier::truncate] (q.0 as i32),
                            old_count: 0,
                            new_start: #[verifier::truncate] (q.2 as i32),
                            new_count: 0,
                            lines: Vec::new(),
                        },
                    );
                },
                None => {},
            }
        } else if origin == 'F' {
            append_file_header(&mut text, e, commit_style);
        } else {
            if commit_style {
                let content = str_to_chars(e.content.as_str());
                append_chars(&mut text, &content);
            }
        }
        i += 1;
        proof {
            assert(asm_fold(ev, i as int, commit_style) == asm_step(st, ev[i - 1], commit_style));
        }
    }
    let prev = cur;
    match prev {
        Some(h) => {
            let taken = cur_lines;
            seal_hunk(&mut hunks, h, taken);
        },
        None => {},
    }
    proof {
        assert(hunks@.map_values(|x: DiffHunkData| x@) =~~= assemble_spec(ev, commit_style).1);
        lemma_asm_counts(ev, commit_style, ev.len() as int);
        let st = asm_fold(ev, ev.len() as int, commit_style);
        let hs = assemble_spec(ev, commit_style).1;
        assert forall|k: int| 0 <= k < hs.len() implies counts_ok(#[trigger] hs[k]) by {
            match st.cur {
                Some(g) => {
                    if k < st.done.len() {
                        assert(hs[k] == st.done[k]);
                    } else {
                        assert(hs[k] == HunkDataView {
                            old_start: g.old_start,
                            old_count: g.old_count,
                            new_start: g.new_start,
                            new_count: g.new_count,
                            lines: st.cur_lines,
                        });
                    }
                },
                None => {
                    assert(hs[k] == st.done[k]);
                },
            }
        }
        assert forall|k: int| 0 <= k < hunks@.len() implies counts_ok(
            (#[trigger] hunks@[k])@,
        ) by {
            assert(hunks@.map_values(|x: DiffHunkData| x@)[k] == hunks@[k]@);
            assert(hunks@.map_values(|x: DiffHunkData| x@)[k] == hs[k]);
        }
    }
    FileDiff {
        diff: chars_to_string(&text),
        hunks,
        file_path: file_path.to_owned(),
    }
}

} // verus!
