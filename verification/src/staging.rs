//! Hunk-granular staging and conflict-resolution validation.
//!
//! Partial staging re-derives the unstaged diff, keeps only the hunks whose
//! zero-based encounter order the caller requested, and concatenates the
//! diff's file-header lines plus the kept hunks into a standalone patch
//! body; an empty request or a selection that keeps no hunk is a silent
//! no-op.  A conflict resolution with an empty path or
//! empty content is rejected before any filesystem mutation.

use vstd::prelude::*;
use vstd::string::StrSliceExecFns;

use crate::models::{RebasePlanItem, RebasePlanResponse};
use crate::text::{
    chars_to_string, has_prefix, join_chars, join_seq, split_chars, split_lines, str_to_chars,
};

verus! {

/// The patch-selection state after the first `i` lines: the kept lines, and
/// whether the scan is inside a selected hunk, and how many `@@` lines have
/// been seen.  Every `@@` line starts the next hunk index; its lines are
/// kept exactly when that index is selected.
pub open spec fn select_fold(lines: Seq<Seq<char>>, sel: Seq<usize>, i: int) -> (
    Seq<Seq<char>>,
    bool,
    int,
)
    decreases i,
{
    if i <= 0 {
        (Seq::<Seq<char>>::empty(), false, 0)
    } else {
        let st = select_fold(lines, sel, i - 1);
        let line = lines[i - 1];
        if has_prefix(line, seq!['@', '@']) {
            let keep = sel.contains(st.2 as usize) && st.2 <= usize::MAX;
            (if keep { st.0.push(line) } else { st.0 }, keep, st.2 + 1)
        } else {
            (if st.1 { st.0.push(line) } else { st.0 }, st.1, st.2)
        }
    }
}

/// The lines kept by a hunk selection over the whole diff.
pub open spec fn selected_patch_lines(diff: Seq<char>, sel: Seq<usize>) -> Seq<Seq<char>> {
    select_fold(split_lines(diff), sel, split_lines(diff).len() as int).0
}

/// The concatenated lines of the selected hunks among the first `i`, in
/// encounter order.
pub open spec fn selected_hunk_lines(
    hs: Seq<crate::hunks::HunkView>,
    sel: Seq<usize>,
    i: int,
) -> Seq<Seq<char>>
    decreases i,
{
    if i <= 0 {
        Seq::<Seq<char>>::empty()
    } else {
        let r = selected_hunk_lines(hs, sel, i - 1);
        if i - 1 <= usize::MAX && sel.contains((i - 1) as usize) {
            r + hs[i - 1].lines
        } else {
            r
        }
    }
}

/// A longer hunk list selects the same lines over a common prefix.
proof fn lemma_selected_push(
    hs: Seq<crate::hunks::HunkView>,
    h: crate::hunks::HunkView,
    sel: Seq<usize>,
    i: int,
)
    requires
        0 <= i <= hs.len(),
    ensures
        selected_hunk_lines(hs.push(h), sel, i) == selected_hunk_lines(hs, sel, i),
    decreases i,
{
    if i > 0 {
        lemma_selected_push(hs, h, sel, i - 1);
        assert(hs.push(h)[i - 1] == hs[i - 1]);
    }
}

/// The lines of the open hunk where it is selected.
pub open spec fn open_hunk_part(
    done: Seq<crate::hunks::HunkView>,
    cur: Option<crate::hunks::HunkView>,
    sel: Seq<usize>,
) -> Seq<Seq<char>> {
    match cur {
        Some(h) => {
            if sel.contains(done.len() as usize) {
                h.lines
            } else {
                Seq::<Seq<char>>::empty()
            }
        },
        None => Seq::<Seq<char>>::empty(),
    }
}

/// One where a hunk is open, else zero.
pub open spec fn open_count(cur: Option<crate::hunks::HunkView>) -> int {
    if cur is Some {
        1
    } else {
        0
    }
}

/// The selection scan tracks the hunk scan: after `i` lines the kept
/// lines are exactly the selected sealed hunks' lines plus, where the open
/// hunk is selected, its lines so far.
proof fn lemma_select_tracks_hunks(lines: Seq<Seq<char>>, sel: Seq<usize>, i: int)
    requires
        0 <= i <= lines.len(),
        lines.len() <= usize::MAX,
        forall|t: int|
            0 <= t < lines.len() && has_prefix(#[trigger] lines[t], seq!['@', '@'])
                ==> crate::hunks::hunk_header_nums(lines[t]) is Some,
    ensures
        0 <= select_fold(lines, sel, i).2 <= i,
        select_fold(lines, sel, i).2 == crate::hunks::hunks_state(lines, i).0.len() + open_count(
            crate::hunks::hunks_state(lines, i).1,
        ),
        select_fold(lines, sel, i).1 == (crate::hunks::hunks_state(lines, i).1 is Some
            && sel.contains(crate::hunks::hunks_state(lines, i).0.len() as usize)),
        select_fold(lines, sel, i).0 =~~= selected_hunk_lines(
            crate::hunks::hunks_state(lines, i).0,
            sel,
            crate::hunks::hunks_state(lines, i).0.len() as int,
        ) + open_hunk_part(
            crate::hunks::hunks_state(lines, i).0,
            crate::hunks::hunks_state(lines, i).1,
            sel,
        ),
    decreases i,
{
    if i > 0 {
        lemma_select_tracks_hunks(lines, sel, i - 1);
        let hs0 = crate::hunks::hunks_state(lines, i - 1);
        let st0 = select_fold(lines, sel, i - 1);
        let line = lines[i - 1];
        if has_prefix(line, seq!['@', '@']) {
            assert(crate::hunks::hunk_header_nums(line) is Some);
            match hs0.1 {
                Some(h) => {
                    assert(hs0.0.len() <= usize::MAX);
                    lemma_selected_push(hs0.0, h, sel, hs0.0.len() as int);
                    assert(selected_hunk_lines(hs0.0.push(h), sel, hs0.0.len() as int + 1)
                        == if sel.contains(hs0.0.len() as usize) {
                        selected_hunk_lines(hs0.0, sel, hs0.0.len() as int) + h.lines
                    } else {
                        selected_hunk_lines(hs0.0, sel, hs0.0.len() as int)
                    });
                },
                None => {},
            }
        } else {
            match hs0.1 {
                Some(h) => {
                    if sel.contains(hs0.0.len() as usize) {
                        assert(st0.0.push(line) =~~= selected_hunk_lines(
                            hs0.0,
                            sel,
                            hs0.0.len() as int,
                        ) + h.lines.push(line));
                    }
                },
                None => {},
            }
        }
    }
}

/// Partial staging keeps exactly the selected hunks' lines: where every
/// `@@` line of the diff parses as a hunk header, the selected patch is
/// the concatenation, in encounter order, of the lines of exactly the
/// hunks whose zero-based index was requested.  `build_partial_patch`
/// prepends the diff's file-header lines to this selection, so the whole
/// patch is the header lines plus the kept hunks.
pub proof fn lemma_partial_patch_is_selected_hunks(diff: Seq<char>, sel: Seq<usize>)
    requires
        split_lines(diff).len() <= usize::MAX,
        forall|t: int|
            0 <= t < split_lines(diff).len() && has_prefix(
                #[trigger] split_lines(diff)[t],
                seq!['@', '@'],
            ) ==> crate::hunks::hunk_header_nums(split_lines(diff)[t]) is Some,
    ensures
        ({
            let hs = crate::hunks::parse_hunks_spec(split_lines(diff));
            selected_patch_lines(diff, sel) =~~= selected_hunk_lines(hs, sel, hs.len() as int)
        }),
{
    let lines = split_lines(diff);
    let n = lines.len() as int;
    lemma_select_tracks_hunks(lines, sel, n);
    let hs = crate::hunks::hunks_state(lines, n);
    match hs.1 {
        Some(h) => {
            assert(hs.0.len() <= usize::MAX);
            lemma_selected_push(hs.0, h, sel, hs.0.len() as int);
            assert(selected_hunk_lines(hs.0.push(h), sel, hs.0.len() as int + 1)
                == if sel.contains(hs.0.len() as usize) {
                selected_hunk_lines(hs.0, sel, hs.0.len() as int) + h.lines
            } else {
                selected_hunk_lines(hs.0, sel, hs.0.len() as int)
            });
            if !sel.contains(hs.0.len() as usize) {
                assert(selected_hunk_lines(hs.0, sel, hs.0.len() as int)
                    + Seq::<Seq<char>>::empty() =~~= selected_hunk_lines(
                    hs.0,
                    sel,
                    hs.0.len() as int,
                ));
            }
        },
        None => {
            assert(selected_hunk_lines(hs.0, sel, hs.0.len() as int) + Seq::<Seq<char>>::empty()
                =~~= selected_hunk_lines(hs.0, sel, hs.0.len() as int));
        },
    }
}

/// Tests membership in the selected index list.
fn contains_index(sel: &Vec<usize>, x: usize) -> (r: bool)
    ensures
        r == sel@.contains(x),
{
    let mut k: usize = 0;
    while k < sel.len()
        invariant
            k <= sel@.len(),
            forall|t: int| 0 <= t < k ==> sel@[t] != x,
        decreases sel@.len() - k,
    {
        if sel[k] == x {
            return true;
        }
        k += 1;
    }
    false
}

/// The first index at or after `from` of a line that marks a hunk header.
pub open spec fn first_hunk_line(lines: Seq<Seq<char>>, from: int) -> int
    decreases lines.len() - from,
{
    if from < 0 {
        from
    } else if from >= lines.len() || has_prefix(lines[from], seq!['@', '@']) {
        from
    } else {
        first_hunk_line(lines, from + 1)
    }
}

/// The diff's file-header lines: everything before the first `@@` line.
pub open spec fn header_lines(lines: Seq<Seq<char>>) -> Seq<Seq<char>> {
    lines.take(first_hunk_line(lines, 0))
}

/// Finds the index of the diff's first hunk-header-marked line.
fn find_first_hunk(lines: &Vec<Vec<char>>) -> (h: usize)
    ensures
        h == first_hunk_line(lines.deep_view(), 0),
        h <= lines.deep_view().len(),
{
    let ghost linesv = lines.deep_view();
    let mut atat: Vec<char> = Vec::new();
    atat.push('@');
    atat.push('@');
    let mut h: usize = 0;
    while h < lines.len()
        invariant
            atat@ =~= seq!['@', '@'],
            linesv == lines.deep_view(),
            h <= linesv.len(),
            first_hunk_line(linesv, 0) == first_hunk_line(linesv, h as int),
        decreases linesv.len() - h,
    {
        proof {
            assert(linesv[h as int] == lines@[h as int]@);
        }
        if begins_with_pair(&lines[h], &atat) {
            proof {
                assert(first_hunk_line(linesv, h as int) == h);
            }
            return h;
        }
        h += 1;
    }
    proof {
        assert(first_hunk_line(linesv, h as int) == h);
    }
    h
}

/// Builds the standalone patch: the diff's file-header lines followed by
/// exactly the selected hunks' lines, joined with newlines and ended by
/// one, so that the result is an applicable patch.  `None` where the
/// selection keeps no hunk lines.
pub fn build_partial_patch(diff_out: &str, sel: &Vec<usize>) -> (r: Option<String>)
    ensures
        match r {
            Some(p) => selected_patch_lines(diff_out@, sel@).len() > 0 && p@ == join_seq(
                header_lines(split_lines(diff_out@)) + selected_patch_lines(diff_out@, sel@),
                seq!['\n'],
            ) + "\n"@,
            None => selected_patch_lines(diff_out@, sel@).len() == 0,
        },
{
    let chars = str_to_chars(diff_out);
    let mut nl: Vec<char> = Vec::new();
    nl.push('\n');
    let lines = split_chars(&chars, &nl);
    proof {
        assert(nl@ =~= seq!['\n']);
        assert(lines.deep_view() =~~= split_lines(diff_out@));
    }
    let ghost linesv = lines.deep_view();
    let mut atat: Vec<char> = Vec::new();
    atat.push('@');
    atat.push('@');
    let h = find_first_hunk(&lines);
    let mut headers: Vec<Vec<char>> = Vec::new();
    let mut k: usize = 0;
    while k < h
        invariant
            linesv == lines.deep_view(),
            k <= h <= linesv.len(),
            headers.deep_view() =~~= linesv.take(k as int),
        decreases h - k,
    {
        let ghost before = headers.deep_view();
        proof {
            assert(linesv[k as int] == lines@[k as int]@);
        }
        headers.push(clone_chars(&lines[k]));
        k += 1;
        proof {
            assert(headers.deep_view() =~~= before.push(linesv[k - 1]));
            assert(linesv.take(k as int) =~~= linesv.take(k - 1).push(linesv[k - 1]));
        }
    }
    proof {
        assert(headers.deep_view() =~~= header_lines(linesv));
    }
    let mut patch: Vec<Vec<char>> = Vec::new();
    let mut in_hunk: bool = false;
    let mut hunk_index: usize = 0;
    let mut i: usize = 0;
    while i < lines.len()
        invariant
            atat@ =~= seq!['@', '@'],
            linesv == lines.deep_view(),
            i <= linesv.len(),
            select_fold(linesv, sel@, i as int).0 =~~= patch.deep_view(),
            select_fold(linesv, sel@, i as int).1 == in_hunk,
            select_fold(linesv, sel@, i as int).2 == hunk_index,
            hunk_index <= i,
        decreases linesv.len() - i,
    {
        let ghost st = select_fold(linesv, sel@, i as int);
        let line = &lines[i];
        proof {
            assert(linesv[i as int] == line@);
        }
        let ghost before = patch.deep_view();
        if begins_with_pair(line, &atat) {
            in_hunk = contains_index(sel, hunk_index);
            hunk_index += 1;
            if in_hunk {
                patch.push(clone_chars(line));
                proof {
                    assert(patch.deep_view() =~~= before.push(line@));
                }
            }
        } else if in_hunk {
            patch.push(clone_chars(line));
            proof {
                assert(patch.deep_view() =~~= before.push(line@));
            }
        }
        i += 1;
    }
    if patch.len() == 0 {
        return None;
    }
    let ghost patchv = patch.deep_view();
    let mut all_lines = headers;
    let mut j: usize = 0;
    while j < patch.len()
        invariant
            patchv == patch.deep_view(),
            j <= patchv.len(),
            all_lines.deep_view() =~~= header_lines(linesv) + patchv.take(j as int),
        decreases patchv.len() - j,
    {
        let ghost before = all_lines.deep_view();
        proof {
            assert(patchv[j as int] == patch@[j as int]@);
        }
        all_lines.push(clone_chars(&patch[j]));
        j += 1;
        proof {
            assert(all_lines.deep_view() =~~= before.push(patchv[j - 1]));
            assert(patchv.take(j as int) =~~= patchv.take(j - 1).push(patchv[j - 1]));
        }
    }
    proof {
        assert(patchv.take(patchv.len() as int) =~~= patchv);
        assert(all_lines.deep_view() =~~= header_lines(linesv) + patchv);
    }
    let mut body = join_chars(&all_lines, &nl);
    body.push('\n');
    proof {
        assert(body@ =~= join_seq(header_lines(split_lines(diff_out@)) + selected_patch_lines(
            diff_out@,
            sel@,
        ), seq!['\n']) + "\n"@) by {
            reveal_strlit("\n");
            assert("\n"@ =~= seq!['\n']);
        }
    }
    Some(chars_to_string(&body))
}

/// Copies a line buffer.
pub(crate) fn clone_chars(v: &Vec<char>) -> (r: Vec<char>)
    ensures
        r@ == v@,
{
    let mut r: Vec<char> = Vec::new();
    let mut k: usize = 0;
    while k < v.len()
        invariant
            k <= v@.len(),
            r@ =~= v@.take(k as int),
        decreases v@.len() - k,
    {
        r.push(v[k]);
        k += 1;
    }
    proof {
        assert(v@.take(v@.len() as int) =~= v@);
    }
    r
}

/// Tests whether the line starts with the two given characters.
fn begins_with_pair(v: &Vec<char>, pat: &Vec<char>) -> (r: bool)
    requires
        pat@.len() == 2,
    ensures
        r == has_prefix(v@, pat@),
{
    if v.len() >= 2 && v[0] == pat[0] && v[1] == pat[1] {
        proof {
            assert(v@.subrange(0, 2) =~= pat@);
        }
        true
    } else {
        proof {
            if pat@.len() <= v@.len() && v@.subrange(0, 2) == pat@ {
                assert(v@.subrange(0, 2)[0] == v@[0]);
                assert(v@.subrange(0, 2)[1] == v@[1]);
            }
        }
        false
    }
}

/// Checks a conflict-resolution request: both the path and the replacement
/// content must be non-empty, and an empty one is rejected before any
/// filesystem mutation.
pub fn validate_resolution(path: &str, content: &str) -> (r: Result<(), String>)
    ensures
        r is Ok <==> path@.len() > 0 && content@.len() > 0,
        r matches Err(m) ==> m@ == "path and content required"@,
{
    if path.unicode_len() == 0 || content.unicode_len() == 0 {
        Err("path and content required".to_owned())
    } else {
        Ok(())
    }
}

/// The dry-run normalization of one plan item: an empty action becomes
/// `pick`.
pub open spec fn normalized_action(a: Seq<char>) -> Seq<char> {
    if a.len() == 0 {
        "pick"@
    } else {
        a
    }
}

/// One plan item carried over into the normalized plan: the revision and
/// message are kept and the action is normalized.
pub open spec fn plan_item_normalized(src: RebasePlanItem, dst: RebasePlanItem) -> bool {
    dst.sha@ == src.sha@ && dst.message@ == src.message@ && dst.action@ == normalized_action(
        src.action@,
    )
}

/// Applies a rebase plan request.
///
/// The request is rejected when `onto` or the plan is empty, or when
/// uncommitted changes exist.  A dry run answers with the normalized plan:
/// every item kept in order, an empty action replaced by `pick`.  An actual
/// rebase is not executed; the answer says so.
pub fn plan_rebase(onto: &str, plan: Vec<RebasePlanItem>, dry_run: bool, has_uncommitted: bool)
    -> (r: Result<RebasePlanResponse, String>)
    ensures
        (onto@.len() == 0 || plan@.len() == 0) ==> (r matches Err(m) && m@
            == "onto and plan (array) required"@),
        (onto@.len() > 0 && plan@.len() > 0 && has_uncommitted) ==> (r matches Err(m) && m@
            == "Cannot rebase with uncommitted changes"@),
        (onto@.len() > 0 && plan@.len() > 0 && !has_uncommitted && dry_run) ==> (r matches Ok(
            resp,
        ) && resp.success == true && resp.dry_run == Some(true) && resp.error is None
            && (resp.plan matches Some(items) && items@.len() == plan@.len() && forall|k: int|
                0 <= k < plan@.len() ==> plan_item_normalized(plan@[k], #[trigger] items@[k]))),
        (onto@.len() > 0 && plan@.len() > 0 && !has_uncommitted && !dry_run) ==> (r matches Ok(
            resp,
        ) && resp.success == false && resp.dry_run is None && resp.plan is None
            && resp.error is Some),
{
    if onto.unicode_len() == 0 || plan.len() == 0 {
        return Err("onto and plan (array) required".to_owned());
    }
    if has_uncommitted {
        return Err("Cannot rebase with uncommitted changes".to_owned());
    }
    if dry_run {
        let ghost planv = plan@;
        let mut result: Vec<RebasePlanItem> = Vec::new();
        let mut i: usize = 0;
        while i < plan.len()
            invariant
                planv == plan@,
                i <= planv.len(),
                result@.len() == i,
                forall|k: int| 0 <= k < i ==> plan_item_normalized(planv[k], #[trigger] result@[k]),
            decreases planv.len() - i,
        {
            let item = &plan[i];
            let action: String = if item.action.unicode_len() == 0 {
                "pick".to_owned()
            } else {
                clone_string(&item.action)
            };
            result.push(
                RebasePlanItem {
                    sha: clone_string(&item.sha),
                    action,
                    message: clone_string(&item.message),
                },
            );
            i += 1;
        }
        return Ok(
            RebasePlanResponse {
                success: true,
                dry_run: Some(true),
                plan: Some(result),
                error: None,
            },
        );
    }
    Ok(
        RebasePlanResponse {
            success: false,
            dry_run: None,
            plan: None,
            error: Some(
                "Interactive rebase execution requires additional setup. Use preview mode to plan your rebase.".to_owned(),
            ),
        },
    )
}

/// Copies a string, keeping its characters.
pub fn clone_string(s: &String) -> (r: String)
    ensures
        r@ == s@,
{
    s.as_str().to_owned()
}

} // verus!
