//! Verified text utilities: character-level splitting, joining, digit
//! parsing and decimal formatting.  The engine works on `Vec<char>` line
//! buffers internally; the two trusted conversions at the bottom move
//! between `str`/`String` and `Vec<char>`.

use vstd::prelude::*;

verus! {

/// Splitting a character sequence on a separator, leftmost-first and
/// non-overlapping, in the manner of `str::split`: an empty input yields one
/// empty piece, and a trailing separator yields a trailing empty piece.
pub open spec fn split_seq(s: Seq<char>, sep: Seq<char>) -> Seq<Seq<char>>
    decreases s.len(),
{
    if s.len() == 0 {
        seq![Seq::<char>::empty()]
    } else if 0 < sep.len() <= s.len() && s.subrange(0, sep.len() as int) == sep {
        seq![Seq::<char>::empty()].add(split_seq(s.skip(sep.len() as int), sep))
    } else {
        let r = split_seq(s.drop_first(), sep);
        r.update(0, seq![s[0]].add(r[0]))
    }
}

/// Splitting into lines on `'\n'`.
pub open spec fn split_lines(s: Seq<char>) -> Seq<Seq<char>> {
    split_seq(s, seq!['\n'])
}

/// Joining pieces with a separator between consecutive pieces.
pub open spec fn join_seq(ls: Seq<Seq<char>>, sep: Seq<char>) -> Seq<char>
    decreases ls.len(),
{
    if ls.len() == 0 {
        Seq::<char>::empty()
    } else if ls.len() == 1 {
        ls[0]
    } else {
        ls[0] + sep + join_seq(ls.drop_first(), sep)
    }
}

pub proof fn lemma_split_seq_len(s: Seq<char>, sep: Seq<char>)
    ensures
        split_seq(s, sep).len() >= 1,
    decreases s.len(),
{
    if s.len() == 0 {
    } else if 0 < sep.len() <= s.len() && s.subrange(0, sep.len() as int) == sep {
        lemma_split_seq_len(s.skip(sep.len() as int), sep);
    } else {
        lemma_split_seq_len(s.drop_first(), sep);
    }
}

/// Joining one-character-separated pieces, none of which contains the
/// separator, and splitting again returns the same pieces.
pub proof fn lemma_split_join(ls: Seq<Seq<char>>, c: char)
    requires
        ls.len() >= 1,
        forall|i: int, j: int|
            0 <= i < ls.len() && 0 <= j < ls[i].len() ==> ls[i][j] != c,
    ensures
        split_seq(join_seq(ls, seq![c]), seq![c]) =~~= ls,
    decreases ls.len(), join_seq(ls, seq![c]).len(),
{
    let sep = seq![c];
    let s = join_seq(ls, sep);
    if ls.len() == 1 {
        lemma_split_no_sep(ls[0], c);
        assert(split_seq(s, sep) =~~= ls);
    } else {
        assert(s =~= ls[0] + sep + join_seq(ls.drop_first(), sep));
        if ls[0].len() == 0 {
            assert(s.subrange(0, 1) =~= sep);
            lemma_split_join(ls.drop_first(), c);
            assert(s.skip(1) =~= join_seq(ls.drop_first(), sep));
            assert(split_seq(s, sep) =~~= ls);
        } else {
            let ls1 = ls.update(0, ls[0].drop_first());
            assert(ls1.drop_first() =~~= ls.drop_first());
            assert(join_seq(ls1, sep) =~= s.drop_first()) by {
                assert(ls1[0] + sep + join_seq(ls1.drop_first(), sep)
                    =~= (ls[0] + sep + join_seq(ls.drop_first(), sep)).drop_first());
            }
            lemma_split_join(ls1, c);
            assert(s[0] == ls[0][0]);
            assert(s[0] != c);
            assert(!(0 < sep.len() <= s.len() && s.subrange(0, 1) == sep)) by {
                assert(s.subrange(0, 1)[0] == s[0]);
            }
            let r = split_seq(s.drop_first(), sep);
            assert(r =~~= ls1);
            assert(split_seq(s, sep) =~~= r.update(0, seq![s[0]].add(r[0])));
            assert(seq![s[0]].add(ls1[0]) =~= ls[0]);
            assert(split_seq(s, sep) =~~= ls);
        }
    }
}

/// A piece with no separator character splits into itself alone.
pub proof fn lemma_split_no_sep(s: Seq<char>, c: char)
    requires
        forall|j: int| 0 <= j < s.len() ==> s[j] != c,
    ensures
        split_seq(s, seq![c]) =~~= seq![s],
    decreases s.len(),
{
    let sep = seq![c];
    if s.len() == 0 {
    } else {
        assert(s.subrange(0, 1)[0] == s[0]);
        assert(!(0 < sep.len() <= s.len() && s.subrange(0, 1) == sep));
        lemma_split_no_sep(s.drop_first(), c);
        assert(seq![s[0]].add(s.drop_first()) =~= s);
    }
}

/// The pieces of a split on one character hold no occurrence of it.
pub proof fn lemma_split_pieces_free(s: Seq<char>, c: char)
    ensures
        forall|i: int, j: int|
            0 <= i < split_seq(s, seq![c]).len() && 0 <= j < split_seq(s, seq![c])[i].len()
                ==> split_seq(s, seq![c])[i][j] != c,
    decreases s.len(),
{
    let sep = seq![c];
    let r = split_seq(s, sep);
    if s.len() == 0 {
        assert forall|i: int, j: int|
            0 <= i < r.len() && 0 <= j < r[i].len() implies r[i][j] != c by {
        }
    } else if 0 < sep.len() <= s.len() && s.subrange(0, sep.len() as int) == sep {
        lemma_split_pieces_free(s.skip(1), c);
        let tail = split_seq(s.skip(1), sep);
        assert forall|i: int, j: int|
            0 <= i < r.len() && 0 <= j < r[i].len() implies r[i][j] != c by {
            assert(r == seq![Seq::<char>::empty()].add(tail));
            if i >= 1 {
                assert(r[i] == tail[i - 1]);
            }
        }
    } else {
        lemma_split_pieces_free(s.drop_first(), c);
        let tail = split_seq(s.drop_first(), sep);
        lemma_split_seq_len(s.drop_first(), sep);
        assert(s[0] != c) by {
            if s[0] == c {
                assert(s.subrange(0, 1)[0] == s[0]);
                assert(s.subrange(0, 1) =~= sep);
            }
        }
        assert forall|i: int, j: int|
            0 <= i < r.len() && 0 <= j < r[i].len() implies r[i][j] != c by {
            assert(r == tail.update(0, seq![s[0]].add(tail[0])));
            if i == 0 {
                assert(r[0] == seq![s[0]].add(tail[0]));
                if j >= 1 {
                    assert(r[0][j] == tail[0][j - 1]);
                }
            } else {
                assert(r[i] == tail[i]);
            }
        }
    }
}

/// Splits `v` on the separator `sep`, as `split_seq` describes.
pub fn split_chars(v: &Vec<char>, sep: &Vec<char>) -> (r: Vec<Vec<char>>)
    requires
        sep@.len() >= 1,
    ensures
        r.deep_view() =~~= split_seq(v@, sep@),
{
    let mut out: Vec<Vec<char>> = Vec::new();
    let mut cur: Vec<char> = Vec::new();
    let mut i: usize = 0;
    proof {
        assert(v@.skip(0) =~= v@);
        lemma_split_seq_len(v@, sep@);
        assert(prepend_first(Seq::<char>::empty(), split_seq(v@, sep@)) =~~= split_seq(v@, sep@));
        assert(out.deep_view() =~~= Seq::<Seq<char>>::empty());
    }
    while i < v.len()
        invariant
            sep@.len() >= 1,
            i <= v@.len(),
            split_seq(v@, sep@) =~~= out.deep_view() + prepend_first(cur@, split_seq(v@.skip(i as int), sep@)),
        decreases v@.len() - i,
    {
        proof {
            lemma_split_seq_len(v@.skip(i as int), sep@);
        }
        let mut matches: bool = sep.len() <= v.len() && i <= v.len() - sep.len();
        if matches {
            let mut k: usize = 0;
            while k < sep.len()
                invariant
                    i + sep@.len() <= v@.len() <= usize::MAX,
                    k <= sep@.len(),
                    matches <==> (forall|t: int| 0 <= t < k ==> v@[i + t] == sep@[t]),
                decreases sep@.len() - k,
            {
                if v[i + k] != sep[k] {
                    matches = false;
                }
                k += 1;
            }
        }
        let ghost rest = v@.skip(i as int);
        if matches {
            proof {
                assert(rest.subrange(0, sep@.len() as int) =~= sep@);
                lemma_split_seq_len(rest.skip(sep@.len() as int), sep@);
                assert(rest.skip(sep@.len() as int) =~= v@.skip(i + sep@.len()));
            }
            let ghost old_out = out.deep_view();
            let ghost old_cur = cur@;
            out.push(cur);
            cur = Vec::new();
            i += sep.len();
            proof {
                let tail = split_seq(v@.skip(i as int), sep@);
                assert(split_seq(rest, sep@) =~~= seq![Seq::<char>::empty()].add(tail));
                assert(prepend_first(old_cur, split_seq(rest, sep@)) =~~= seq![old_cur] + tail);
                assert(out.deep_view() =~~= old_out.push(old_cur));
                assert(prepend_first(cur@, tail) =~~= tail);
                assert(out.deep_view() + prepend_first(cur@, tail)
                    =~~= old_out + prepend_first(old_cur, split_seq(rest, sep@)));
            }
        } else {
            proof {
                if rest.len() >= sep@.len() && rest.subrange(0, sep@.len() as int) == sep@ {
                    let t = choose|t: int| 0 <= t < sep@.len() && v@[i + t] != sep@[t];
                    assert(rest.subrange(0, sep@.len() as int)[t] == sep@[t]);
                }
                lemma_split_seq_len(rest.drop_first(), sep@);
                assert(rest.drop_first() =~= v@.skip(i + 1));
            }
            let ghost old_cur = cur@;
            cur.push(v[i]);
            i += 1;
            proof {
                let tail = split_seq(v@.skip(i as int), sep@);
                assert(split_seq(rest, sep@) =~~= tail.update(0, seq![rest[0]].add(tail[0])));
                assert(prepend_first(old_cur, split_seq(rest, sep@))
                    =~~= prepend_first(cur@, tail));
            }
        }
    }
    proof {
        assert(v@.skip(v@.len() as int) =~= Seq::<char>::empty());
        assert(prepend_first(cur@, split_seq(Seq::<char>::empty(), sep@)) =~~= seq![cur@]);
    }
    out.push(cur);
    out
}

/// The pieces with the first one extended at the front.
pub open spec fn prepend_first(pre: Seq<char>, ls: Seq<Seq<char>>) -> Seq<Seq<char>>
    recommends
        ls.len() >= 1,
{
    ls.update(0, pre.add(ls[0]))
}

/// Joins pieces with the separator between them, as `join_seq` describes.
pub fn join_chars(ls: &Vec<Vec<char>>, sep: &Vec<char>) -> (r: Vec<char>)
    ensures
        r@ =~= join_seq(ls.deep_view(), sep@),
{
    let mut out: Vec<char> = Vec::new();
    let mut i: usize = 0;
    while i < ls.len()
        invariant
            i <= ls@.len(),
            out@ =~= join_seq(ls.deep_view().take(i as int), sep@),
        decreases ls@.len() - i,
    {
        let ghost before = ls.deep_view().take(i as int);
        if i > 0 {
            let mut k: usize = 0;
            while k < sep.len()
                invariant
                    k <= sep@.len(),
                    out@ =~= join_seq(ls.deep_view().take(i as int), sep@) + sep@.take(k as int),
                decreases sep@.len() - k,
            {
                out.push(sep[k]);
                k += 1;
            }
            proof {
                assert(sep@.take(sep@.len() as int) =~= sep@);
            }
        }
        let mut k: usize = 0;
        let line = &ls[i];
        while k < line.len()
            invariant
                0 <= i < ls@.len(),
                line == ls@[i as int],
                k <= line@.len(),
                i > 0 ==> out@ =~= join_seq(ls.deep_view().take(i as int), sep@) + sep@ + line@.take(k as int),
                i == 0 ==> out@ =~= line@.take(k as int),
            decreases line@.len() - k,
        {
            out.push(line[k]);
            k += 1;
        }
        proof {
            assert(line@.take(line@.len() as int) =~= line@);
            assert(ls.deep_view()[i as int] == line@);
            lemma_join_take_step(ls.deep_view(), sep@, i as int);
        }
        i += 1;
    }
    proof {
        assert(ls.deep_view().take(ls@.len() as int) =~= ls.deep_view());
    }
    out
}

/// One step of joining: extending the prefix by one piece appends the
/// separator (when the prefix is not empty) and the piece.
proof fn lemma_join_take_step(ls: Seq<Seq<char>>, sep: Seq<char>, i: int)
    requires
        0 <= i < ls.len(),
    ensures
        i == 0 ==> join_seq(ls.take(i + 1), sep) =~= ls[0],
        i > 0 ==> join_seq(ls.take(i + 1), sep) =~= join_seq(ls.take(i), sep) + sep + ls[i],
    decreases i,
{
    if i == 0 {
        assert(ls.take(1) =~~= seq![ls[0]]);
    } else {
        let a = ls.take(i + 1);
        let b = ls.take(i);
        assert(a.len() >= 2);
        assert(a.drop_first() =~~= ls.drop_first().take(i));
        assert(b.drop_first() =~~= ls.drop_first().take(i - 1));
        lemma_join_take_step(ls.drop_first(), sep, i - 1);
        if i == 1 {
            assert(join_seq(a, sep) =~= a[0] + sep + join_seq(a.drop_first(), sep));
            assert(a.drop_first() =~~= seq![ls[1]]);
            assert(b =~~= seq![ls[0]]);
        } else {
            assert(join_seq(a, sep) =~= a[0] + sep + join_seq(a.drop_first(), sep));
            assert(join_seq(b, sep) =~= b[0] + sep + join_seq(b.drop_first(), sep));
        }
    }
}

/// A decimal digit.
pub open spec fn is_digit(c: char) -> bool {
    '0' <= c && c <= '9'
}

/// The numeric value of a run of decimal digits, most significant first.
pub open spec fn digits_val(s: Seq<char>) -> nat
    decreases s.len(),
{
    if s.len() == 0 {
        0
    } else {
        digits_val(s.drop_last()) * 10 + (((s.last() as int - '0' as int) % 10) as nat)
    }
}

/// The end of the digit run that starts at `from`: the first index at or
/// after `from` holding a non-digit, or the length.
pub open spec fn digit_run_end(s: Seq<char>, from: int) -> int
    decreases s.len() - from,
{
    if from < 0 {
        from
    } else if from >= s.len() || !is_digit(s[from]) {
        from
    } else {
        digit_run_end(s, from + 1)
    }
}

pub proof fn lemma_digit_run_end(s: Seq<char>, from: int)
    requires
        0 <= from <= s.len(),
    ensures
        from <= digit_run_end(s, from) <= s.len(),
        forall|t: int| from <= t < digit_run_end(s, from) ==> is_digit(s[t]),
        digit_run_end(s, from) < s.len() ==> !is_digit(s[digit_run_end(s, from)]),
    decreases s.len() - from,
{
    if from >= s.len() || !is_digit(s[from]) {
    } else {
        lemma_digit_run_end(s, from + 1);
    }
}

/// Scans the digit run beginning at `from`.
pub fn scan_digits(v: &Vec<char>, from: usize) -> (j: usize)
    requires
        from <= v@.len(),
    ensures
        j == digit_run_end(v@, from as int),
        from <= j <= v@.len(),
        forall|t: int| from <= t < j ==> is_digit(v@[t]),
        j < v@.len() ==> !is_digit(v@[j as int]),
    decreases v@.len() - from,
{
    proof {
        lemma_digit_run_end(v@, from as int);
    }
    if from < v.len() && '0' <= v[from] && v[from] <= '9' {
        scan_digits(v, from + 1)
    } else {
        from
    }
}

/// The value of the digits `v[from..to]` when it fits in an `i32`, else the
/// fallback.
pub open spec fn digits_val_or(s: Seq<char>, default: int) -> int {
    if digits_val(s) <= i32::MAX {
        digits_val(s) as int
    } else {
        default
    }
}

/// Appending a digit grows the value tenfold plus the digit.
proof fn lemma_digits_val_take(s: Seq<char>, i: int)
    requires
        0 <= i < s.len(),
    ensures
        digits_val(s.take(i + 1)) == digits_val(s.take(i)) * 10 + (((s[i] as int - '0' as int) % 10) as nat),
{
    assert(s.take(i + 1).drop_last() =~= s.take(i));
    assert(s.take(i + 1).last() == s[i]);
}

/// Computes the value of the digit run `v[from..to]`, or the fallback where
/// that value exceeds `i32::MAX`.
pub fn digits_to_i32_or(v: &Vec<char>, from: usize, to: usize, default: i32) -> (r: i32)
    requires
        from <= to <= v@.len(),
        forall|t: int| from <= t < to ==> is_digit(v@[t]),
        default >= 0,
    ensures
        r == digits_val_or(v@.subrange(from as int, to as int), default as int),
        r >= 0,
{
    let ghost digits = v@.subrange(from as int, to as int);
    let mut acc: u64 = 0;
    let mut big: bool = false;
    let mut i: usize = from;
    while i < to
        invariant
            from <= i <= to <= v@.len(),
            digits == v@.subrange(from as int, to as int),
            forall|t: int| from <= t < to ==> is_digit(v@[t]),
            !big ==> acc == digits_val(digits.take(i - from)) && acc <= i32::MAX,
            big ==> digits_val(digits.take(i - from)) > i32::MAX,
        decreases to - i,
    {
        let c = v[i];
        let d: u64 = (c as u32 - '0' as u32) as u64;
        proof {
            assert(digits[i - from] == v@[i as int]);
            assert(is_digit(digits[i - from]));
            assert(d == ((digits[i - from] as int - '0' as int) % 10) as nat);
            lemma_digits_val_take(digits, i - from);
        }
        if big || acc > (i32::MAX as u64 - d) / 10 {
            proof {
                if !big {
                    assert(digits_val(digits.take(i - from)) * 10 + d > i32::MAX) by (nonlinear_arith)
                        requires
                            acc == digits_val(digits.take(i - from)),
                            acc > (i32::MAX as u64 - d) / 10,
                            d <= 9,
                            i32::MAX == 0x7fff_ffff,
                    ;
                }
                lemma_digits_val_monotone(digits, (i + 1 - from) as int, (to - from) as int);
            }
            big = true;
        } else {
            proof {
                assert(acc * 10 + d <= i32::MAX) by (nonlinear_arith)
                    requires
                        acc <= (i32::MAX as u64 - d) / 10,
                        d <= 9,
                        i32::MAX == 0x7fff_ffff,
                ;
            }
            acc = acc * 10 + d;
        }
        i += 1;
    }
    proof {
        assert(digits.take(to - from) =~= digits);
        if big {
            assert(digits_val(digits) > i32::MAX);
        }
    }
    if big {
        default
    } else {
        acc as i32
    }
}

/// A longer digit run is worth at least as much.
proof fn lemma_digits_val_monotone(s: Seq<char>, i: int, j: int)
    requires
        0 <= i <= j <= s.len(),
    ensures
        digits_val(s.take(i)) <= digits_val(s.take(j)),
    decreases j - i,
{
    if i < j {
        lemma_digits_val_monotone(s, i, j - 1);
        assert(s.take(j).drop_last() =~= s.take(j - 1));
        assert(digits_val(s.take(j - 1)) * 10 >= digits_val(s.take(j - 1))) by (nonlinear_arith);
    }
}

/// The decimal representation of `n`, most significant digit first.
pub open spec fn dec_rep(n: nat) -> Seq<char>
    decreases n,
{
    if n < 10 {
        seq![digit_char(n % 10)]
    } else {
        dec_rep(n / 10).push(digit_char(n % 10))
    }
}

/// The character for the digit `d`.
pub open spec fn digit_char(d: nat) -> char {
    if d == 0 { '0' }
    else if d == 1 { '1' }
    else if d == 2 { '2' }
    else if d == 3 { '3' }
    else if d == 4 { '4' }
    else if d == 5 { '5' }
    else if d == 6 { '6' }
    else if d == 7 { '7' }
    else if d == 8 { '8' }
    else { '9' }
}

pub proof fn lemma_dec_rep_digits(n: nat)
    ensures
        dec_rep(n).len() >= 1,
        forall|i: int| 0 <= i < dec_rep(n).len() ==> is_digit(dec_rep(n)[i]),
        digits_val(dec_rep(n)) == n,
    decreases n,
{
    if n < 10 {
        assert(digits_val(dec_rep(n)) == digits_val(Seq::<char>::empty()) * 10
            + ((digit_char(n % 10) as int - '0' as int) % 10) as nat) by {
            assert(dec_rep(n).drop_last() =~= Seq::<char>::empty());
        }
    } else {
        lemma_dec_rep_digits(n / 10);
        assert(dec_rep(n).drop_last() =~= dec_rep(n / 10));
        assert(digits_val(dec_rep(n)) == (n / 10) * 10 + n % 10);
        assert((n / 10) * 10 + n % 10 == n) by (nonlinear_arith);
    }
}

/// Writes `n` in decimal, as `dec_rep` describes.
pub fn dec_chars(n: u64) -> (r: Vec<char>)
    ensures
        r@ =~= dec_rep(n as nat),
    decreases n,
{
    if n < 10 {
        let c: char = match n {
            0 => '0',
            1 => '1',
            2 => '2',
            3 => '3',
            4 => '4',
            5 => '5',
            6 => '6',
            7 => '7',
            8 => '8',
            _ => '9',
        };
        let mut v: Vec<char> = Vec::new();
        v.push(c);
        v
    } else {
        let mut v = dec_chars(n / 10);
        let d = n % 10;
        let c: char = match d {
            0 => '0',
            1 => '1',
            2 => '2',
            3 => '3',
            4 => '4',
            5 => '5',
            6 => '6',
            7 => '7',
            8 => '8',
            _ => '9',
        };
        v.push(c);
        v
    }
}

/// The power `10^k`.
pub open spec fn pow10(k: nat) -> nat
    decreases k,
{
    if k == 0 {
        1
    } else {
        10 * pow10((k - 1) as nat)
    }
}

/// A number below `10^k` needs at most `k` decimal digits.
pub proof fn lemma_dec_rep_len(n: nat, k: nat)
    requires
        n < pow10(k),
        k >= 1,
    ensures
        dec_rep(n).len() <= k,
    decreases k,
{
    if n < 10 {
    } else {
        if k == 1 {
            assert(pow10(0) == 1);
            assert(pow10(1) == 10);
        }
        assert(pow10(k) == 10 * pow10((k - 1) as nat));
        assert(n / 10 < pow10((k - 1) as nat)) by (nonlinear_arith)
            requires
                n < 10 * pow10((k - 1) as nat),
        ;
        lemma_dec_rep_len(n / 10, (k - 1) as nat);
    }
}

/// An ASCII whitespace character: space, tab, carriage return or newline.
pub open spec fn is_space(c: char) -> bool {
    c == ' ' || c == '\t' || c == '\r' || c == '\n'
}

/// The first index at or after `from` holding a non-space, or the length.
pub open spec fn skip_spaces(s: Seq<char>, from: int) -> int
    decreases s.len() - from,
{
    if from < 0 {
        from
    } else if from >= s.len() || !is_space(s[from]) {
        from
    } else {
        skip_spaces(s, from + 1)
    }
}

/// The last index before `upto` past all trailing spaces: characters at
/// `upto..` and beyond are spaces exactly when dropped.
pub open spec fn rskip_spaces(s: Seq<char>, upto: int) -> int
    decreases upto,
{
    if upto <= 0 {
        0
    } else if !is_space(s[upto - 1]) {
        upto
    } else {
        rskip_spaces(s, upto - 1)
    }
}

/// The sequence with ASCII whitespace removed from both ends.
pub open spec fn trimmed(s: Seq<char>) -> Seq<char> {
    let a = skip_spaces(s, 0);
    let b = rskip_spaces(s, s.len() as int);
    if a <= b {
        s.subrange(a, b)
    } else {
        Seq::<char>::empty()
    }
}

pub proof fn lemma_skip_spaces(s: Seq<char>, from: int)
    requires
        0 <= from <= s.len(),
    ensures
        from <= skip_spaces(s, from) <= s.len(),
        forall|t: int| from <= t < skip_spaces(s, from) ==> is_space(s[t]),
        skip_spaces(s, from) < s.len() ==> !is_space(s[skip_spaces(s, from)]),
    decreases s.len() - from,
{
    if from >= s.len() || !is_space(s[from]) {
    } else {
        lemma_skip_spaces(s, from + 1);
    }
}

pub proof fn lemma_rskip_spaces(s: Seq<char>, upto: int)
    requires
        0 <= upto <= s.len(),
    ensures
        0 <= rskip_spaces(s, upto) <= upto,
        forall|t: int| rskip_spaces(s, upto) <= t < upto ==> is_space(s[t]),
        rskip_spaces(s, upto) > 0 ==> !is_space(s[rskip_spaces(s, upto) - 1]),
    decreases upto,
{
    if upto <= 0 || !is_space(s[upto - 1]) {
    } else {
        lemma_rskip_spaces(s, upto - 1);
    }
}

/// Removes ASCII whitespace from both ends, as `trimmed` describes.
pub fn trim_chars(v: &Vec<char>) -> (r: Vec<char>)
    ensures
        r@ =~= trimmed(v@),
{
    let mut a: usize = 0;
    while a < v.len() && (v[a] == ' ' || v[a] == '\t' || v[a] == '\r' || v[a] == '\n')
        invariant
            a <= v@.len(),
            skip_spaces(v@, 0) == skip_spaces(v@, a as int),
        decreases v@.len() - a,
    {
        a += 1;
    }
    proof {
        assert(skip_spaces(v@, a as int) == a);
    }
    let mut b: usize = v.len();
    while b > a && (v[b - 1] == ' ' || v[b - 1] == '\t' || v[b - 1] == '\r' || v[b - 1] == '\n')
        invariant
            a <= b <= v@.len(),
            a == skip_spaces(v@, 0),
            rskip_spaces(v@, v@.len() as int) == rskip_spaces(v@, b as int),
            a < v@.len() ==> b > a,
        decreases b,
    {
        proof {
            if a < v@.len() {
                lemma_skip_spaces(v@, 0);
                assert(!is_space(v@[a as int]));
                assert(b - 1 != a);
            }
        }
        b -= 1;
    }
    let mut r: Vec<char> = Vec::new();
    let mut i: usize = a;
    while i < b
        invariant
            a <= i <= b <= v@.len(),
            r@ =~= v@.subrange(a as int, i as int),
        decreases b - i,
    {
        r.push(v[i]);
        i += 1;
    }
    proof {
        if a < b {
            assert(!is_space(v@[b - 1]));
            assert(rskip_spaces(v@, b as int) == b);
            assert(trimmed(v@) =~= v@.subrange(a as int, b as int));
        } else {
            assert(a == b);
            assert(a == v@.len());
            let sb = rskip_spaces(v@, v@.len() as int);
            lemma_rskip_spaces(v@, v@.len() as int);
            assert(trimmed(v@) =~= Seq::<char>::empty());
        }
    }
    r
}

/// A line with trailing ASCII whitespace removed.
pub open spec fn rtrimmed(s: Seq<char>) -> Seq<char> {
    s.subrange(0, rskip_spaces(s, s.len() as int))
}

/// Removes trailing ASCII whitespace, as `rtrimmed` describes.
pub fn rtrim_line(v: &Vec<char>) -> (r: Vec<char>)
    ensures
        r@ =~= rtrimmed(v@),
{
    let mut b: usize = v.len();
    while b > 0 && (v[b - 1] == ' ' || v[b - 1] == '\t' || v[b - 1] == '\r' || v[b - 1] == '\n')
        invariant
            b <= v@.len(),
            rskip_spaces(v@, v@.len() as int) == rskip_spaces(v@, b as int),
        decreases b,
    {
        b -= 1;
    }
    let mut r: Vec<char> = Vec::new();
    let mut i: usize = 0;
    while i < b
        invariant
            i <= b <= v@.len(),
            r@ =~= v@.subrange(0, i as int),
        decreases b - i,
    {
        r.push(v[i]);
        i += 1;
    }
    proof {
        assert(rskip_spaces(v@, b as int) == b);
    }
    r
}

/// Appends all characters of `src` to `dst`.
pub fn append_chars(dst: &mut Vec<char>, src: &Vec<char>)
    ensures
        final(dst)@ == old(dst)@ + src@,
{
    let mut k: usize = 0;
    while k < src.len()
        invariant
            k <= src@.len(),
            dst@ =~= old(dst)@ + src@.take(k as int),
        decreases src@.len() - k,
    {
        dst.push(src[k]);
        k += 1;
    }
    proof {
        assert(src@.take(src@.len() as int) =~= src@);
        assert(dst@ =~= old(dst)@ + src@);
    }
}

/// The total character count of a list of lines.
pub open spec fn seq_total_len(ls: Seq<Seq<char>>) -> nat
    decreases ls.len(),
{
    if ls.len() == 0 {
        0
    } else {
        ls[0].len() + seq_total_len(ls.drop_first())
    }
}

/// Splitting accounts for every character: the pieces' characters plus one
/// separator between consecutive pieces make up the input.
pub proof fn lemma_split_total(s: Seq<char>, sep: Seq<char>)
    requires
        sep.len() >= 1,
    ensures
        seq_total_len(split_seq(s, sep)) + (split_seq(s, sep).len() - 1) * sep.len() == s.len(),
    decreases s.len(),
{
    lemma_split_seq_len(s, sep);
    if s.len() == 0 {
        assert(seq_total_len(split_seq(s, sep)) == 0) by {
            assert(seq_total_len(Seq::<Seq<char>>::empty()) == 0);
            assert(split_seq(s, sep) =~~= seq![Seq::<char>::empty()]);
            assert(seq![Seq::<char>::empty()].drop_first() =~~= Seq::<Seq<char>>::empty());
            assert(seq_total_len(seq![Seq::<char>::empty()]) == seq![Seq::<char>::empty()][0].len()
                + seq_total_len(seq![Seq::<char>::empty()].drop_first()));
        }
    } else if 0 < sep.len() <= s.len() && s.subrange(0, sep.len() as int) == sep {
        let rest = s.skip(sep.len() as int);
        lemma_split_total(rest, sep);
        lemma_split_seq_len(rest, sep);
        let r = split_seq(rest, sep);
        assert(split_seq(s, sep) == seq![Seq::<char>::empty()].add(r));
        assert(seq_total_len(seq![Seq::<char>::empty()].add(r)) == seq_total_len(r)) by {
            assert(seq![Seq::<char>::empty()].add(r).drop_first() =~~= r);
        }
        assert((seq![Seq::<char>::empty()].add(r).len() - 1) * sep.len()
            == (r.len() - 1) * sep.len() + sep.len()) by (nonlinear_arith)
            requires
                r.len() >= 1,
                seq![Seq::<char>::empty()].add(r).len() == r.len() + 1,
        ;
    } else {
        let rest = s.drop_first();
        lemma_split_total(rest, sep);
        lemma_split_seq_len(rest, sep);
        let r = split_seq(rest, sep);
        let r2 = r.update(0, seq![s[0]].add(r[0]));
        assert(split_seq(s, sep) == r2);
        assert(seq_total_len(r2) == seq_total_len(r) + 1) by {
            assert(r2.drop_first() =~~= r.drop_first());
            assert(r2[0] == seq![s[0]].add(r[0]));
        }
    }
}

/// True when `p` is a prefix of `s`.
pub open spec fn has_prefix(s: Seq<char>, p: Seq<char>) -> bool {
    p.len() <= s.len() && s.subrange(0, p.len() as int) == p
}

/// Tests whether `pat` is a prefix of `v`.
pub fn begins_with(v: &Vec<char>, pat: &Vec<char>) -> (r: bool)
    ensures
        r == has_prefix(v@, pat@),
{
    if pat.len() > v.len() {
        proof {
            assert(!has_prefix(v@, pat@));
        }
        return false;
    }
    let mut k: usize = 0;
    while k < pat.len()
        invariant
            pat@.len() <= v@.len(),
            k <= pat@.len(),
            forall|t: int| 0 <= t < k ==> v@[t] == pat@[t],
        decreases pat@.len() - k,
    {
        if v[k] != pat[k] {
            proof {
                assert(v@.subrange(0, pat@.len() as int)[k as int] == v@[k as int]);
            }
            return false;
        }
        k += 1;
    }
    proof {
        assert(v@.subrange(0, pat@.len() as int) =~= pat@);
    }
    true
}

/// How many lines begin with the given marker.
pub open spec fn count_starting(lines: Seq<Seq<char>>, c: char) -> int
    decreases lines.len(),
{
    if lines.len() == 0 {
        0
    } else {
        (if lines[0].len() > 0 && lines[0][0] == c {
            1int
        } else {
            0int
        }) + count_starting(lines.drop_first(), c)
    }
}

/// Counting distributes over concatenation.
pub proof fn lemma_count_concat(a: Seq<Seq<char>>, b: Seq<Seq<char>>, c: char)
    ensures
        count_starting(a + b, c) == count_starting(a, c) + count_starting(b, c),
    decreases a.len(),
{
    if a.len() == 0 {
        assert(a + b =~~= b);
    } else {
        lemma_count_concat(a.drop_first(), b, c);
        assert((a + b).drop_first() =~~= a.drop_first() + b);
        assert((a + b)[0] == a[0]);
    }
}

/// Appending one line raises the count exactly when the line begins with
/// the marker.
pub proof fn lemma_count_push(lines: Seq<Seq<char>>, l: Seq<char>, c: char)
    ensures
        count_starting(lines.push(l), c) == count_starting(lines, c) + (
        if l.len() > 0 && l[0] == c {
            1int
        } else {
            0int
        }),
    decreases lines.len(),
{
    if lines.len() == 0 {
        assert(lines.push(l) =~~= seq![l]);
        assert(seq![l].drop_first() =~~= Seq::<Seq<char>>::empty());
        assert(count_starting(seq![l], c) == (if l.len() > 0 && l[0] == c {
            1int
        } else {
            0int
        }) + count_starting(seq![l].drop_first(), c));
    } else {
        lemma_count_push(lines.drop_first(), l, c);
        assert(lines.push(l).drop_first() =~~= lines.drop_first().push(l));
        assert(lines.push(l)[0] == lines[0]);
    }
}

/// Tests whether the text holds a NUL character.
pub fn has_nul(s: &str) -> (r: bool)
    ensures
        r == (exists|i: int| 0 <= i < s@.len() && s@[i] == '\0'),
{
    let chars = str_to_chars(s);
    let mut i: usize = 0;
    while i < chars.len()
        invariant
            chars@ == s@,
            i <= s@.len(),
            forall|t: int| 0 <= t < i ==> s@[t] != '\0',
        decreases s@.len() - i,
    {
        if chars[i] == '\0' {
            return true;
        }
        i += 1;
    }
    false
}

/// Relies on `str::chars` collected into a `Vec`: the characters of the
/// string, in order.
#[verifier::external_body]
pub fn str_to_chars(s: &str) -> (r: Vec<char>)
    ensures
        r@ == s@,
{
    s.chars().collect()
}

/// Relies on `String::from_iter` through `Iterator::collect`: a string
/// holding exactly the given characters, in order.
#[verifier::external_body]
pub fn chars_to_string(v: &Vec<char>) -> (r: String)
    ensures
        r@ == v@,
{
    v.iter().collect()
}

} // verus!
