//! Branch ranking, ordering, and the refs fingerprint.
//!
//! Branches are ordered by the fixed rank table (`main` before `master`
//! before `develop` before everything else) and then lexicographically, and
//! deduplicated.  The refs fingerprint is an order-independent digest of
//! the `(name, resolved id)` pairs: it is a pure function of their
//! multiset, so reordering the same pairs never changes it.

use vstd::prelude::*;

use crate::models::BranchMetadata;
use crate::text::{chars_to_string, has_prefix, str_to_chars};

verus! {

/// The fixed rank of a branch name: `main` 0, `master` 1, `develop` 2,
/// anything else 10.
pub open spec fn branch_rank(name: Seq<char>) -> int {
    if name == "main"@ {
        0
    } else if name == "master"@ {
        1
    } else if name == "develop"@ {
        2
    } else {
        10
    }
}

/// Strict lexicographic order on character sequences by code point.
pub open spec fn lex_lt(a: Seq<char>, b: Seq<char>) -> bool
    decreases a.len(),
{
    if b.len() == 0 {
        false
    } else if a.len() == 0 {
        true
    } else if a[0] != b[0] {
        (a[0] as u32) < (b[0] as u32)
    } else {
        lex_lt(a.drop_first(), b.drop_first())
    }
}

/// The branch order: lower rank first, equal ranks lexicographically.
pub open spec fn branch_lt(a: Seq<char>, b: Seq<char>) -> bool {
    branch_rank(a) < branch_rank(b) || (branch_rank(a) == branch_rank(b) && lex_lt(a, b))
}

/// Of two sequences, exactly one of `lex_lt(a, b)`, `lex_lt(b, a)` and
/// `a == b` holds.
pub proof fn lemma_lex_trichotomy(a: Seq<char>, b: Seq<char>)
    ensures
        lex_lt(a, b) || lex_lt(b, a) || a == b,
        lex_lt(a, b) ==> !lex_lt(b, a) && a != b,
        lex_lt(b, a) ==> !lex_lt(a, b) && a != b,
    decreases a.len(),
{
    if a.len() == 0 || b.len() == 0 {
        if a.len() == 0 && b.len() == 0 {
            assert(a =~= b);
        }
    } else if a[0] != b[0] {
        assert((a[0] as u32) != (b[0] as u32)) by {
            crate::branches::lemma_char_code_injective(a[0], b[0]);
        }
    } else {
        lemma_lex_trichotomy(a.drop_first(), b.drop_first());
        if a.drop_first() == b.drop_first() {
            assert forall|k: int| 0 <= k < a.len() implies a[k] == b[k] by {
                if k > 0 {
                    assert(a.drop_first()[k - 1] == a[k]);
                    assert(b.drop_first()[k - 1] == b[k]);
                }
            }
            assert(a =~= b);
        }
        if a == b {
            assert(a.drop_first() =~= b.drop_first());
        }
    }
}

/// Distinct characters have distinct code points.
pub proof fn lemma_char_code_injective(x: char, y: char)
    requires
        x != y,
    ensures
        x as u32 != y as u32,
{
}

/// Lexicographic order is transitive.
pub proof fn lemma_lex_trans(a: Seq<char>, b: Seq<char>, c: Seq<char>)
    requires
        lex_lt(a, b),
        lex_lt(b, c),
    ensures
        lex_lt(a, c),
    decreases a.len(),
{
    if a.len() == 0 {
    } else if b.len() == 0 {
    } else if c.len() == 0 {
    } else {
        if a[0] != b[0] {
            if b[0] != c[0] {
                assert((a[0] as u32) < (c[0] as u32));
                lemma_char_code_injective(a[0], c[0]);
            }
        } else {
            if b[0] != c[0] {
                assert(a[0] == b[0]);
            } else {
                lemma_lex_trans(a.drop_first(), b.drop_first(), c.drop_first());
            }
        }
    }
}

/// The branch order is transitive.
pub proof fn lemma_branch_lt_trans(a: Seq<char>, b: Seq<char>, c: Seq<char>)
    requires
        branch_lt(a, b),
        branch_lt(b, c),
    ensures
        branch_lt(a, c),
{
    if branch_rank(a) == branch_rank(b) && branch_rank(b) == branch_rank(c) {
        lemma_lex_trans(a, b, c);
    }
}

/// Of two branch names, exactly one of `branch_lt(a, b)`, `branch_lt(b, a)`
/// and `a == b` holds.
pub proof fn lemma_branch_lt_trichotomy(a: Seq<char>, b: Seq<char>)
    ensures
        branch_lt(a, b) || branch_lt(b, a) || a == b,
        branch_lt(a, b) ==> !branch_lt(b, a) && a != b,
        branch_lt(b, a) ==> !branch_lt(a, b) && a != b,
{
    lemma_lex_trichotomy(a, b);
}

/// Compares two names, as `lex_lt` describes.
fn lex_lt_exec(a: &Vec<char>, b: &Vec<char>) -> (r: bool)
    ensures
        r == lex_lt(a@, b@),
{
    let mut i: usize = 0;
    proof {
        assert(a@.skip(0) =~= a@);
        assert(b@.skip(0) =~= b@);
    }
    while i < a.len() && i < b.len()
        invariant
            i <= a@.len(),
            i <= b@.len(),
            lex_lt(a@, b@) == lex_lt(a@.skip(i as int), b@.skip(i as int)),
        decreases a@.len() - i,
    {
        if a[i] != b[i] {
            proof {
                assert(a@.skip(i as int)[0] == a@[i as int]);
                assert(b@.skip(i as int)[0] == b@[i as int]);
            }
            return (a[i] as u32) < (b[i] as u32);
        }
        proof {
            let x = a@.skip(i as int);
            let y = b@.skip(i as int);
            assert(x[0] == a@[i as int] && y[0] == b@[i as int]);
            assert(x.drop_first() =~= a@.skip(i + 1));
            assert(y.drop_first() =~= b@.skip(i + 1));
        }
        i += 1;
    }
    proof {
        if i >= b@.len() {
            assert(b@.skip(i as int).len() == 0);
        } else {
            assert(a@.skip(i as int).len() == 0);
        }
    }
    i < b.len()
}

/// Tests two character buffers for equality.
pub fn chars_eq(a: &Vec<char>, b: &Vec<char>) -> (r: bool)
    ensures
        r == (a@ == b@),
{
    if a.len() != b.len() {
        return false;
    }
    let mut i: usize = 0;
    while i < a.len()
        invariant
            a@.len() == b@.len(),
            i <= a@.len(),
            forall|t: int| 0 <= t < i ==> a@[t] == b@[t],
        decreases a@.len() - i,
    {
        if a[i] != b[i] {
            return false;
        }
        i += 1;
    }
    proof {
        assert(a@ =~= b@);
    }
    true
}

/// Computes a name's fixed rank, as `branch_rank` describes.
fn rank_exec(name: &Vec<char>) -> (r: i32)
    ensures
        r == branch_rank(name@),
{
    if chars_eq(name, &str_to_chars("main")) {
        0
    } else if chars_eq(name, &str_to_chars("master")) {
        1
    } else if chars_eq(name, &str_to_chars("develop")) {
        2
    } else {
        10
    }
}

/// Compares two names in the branch order, as `branch_lt` describes.
fn branch_lt_exec(a: &Vec<char>, b: &Vec<char>) -> (r: bool)
    ensures
        r == branch_lt(a@, b@),
{
    let ra = rank_exec(a);
    let rb = rank_exec(b);
    if ra != rb {
        ra < rb
    } else {
        lex_lt_exec(a, b)
    }
}

/// Sorts branch names by rank then lexicographically and removes
/// duplicates: the result is strictly increasing in the branch order and
/// holds exactly the names of the input.
pub fn sort_branches(branches: &Vec<String>) -> (r: Vec<String>)
    ensures
        forall|i: int, j: int|
            0 <= i < j < r.deep_view().len() ==> branch_lt(r.deep_view()[i], r.deep_view()[j]),
        forall|x: Seq<char>| r.deep_view().contains(x) <==> branches.deep_view().contains(x),
{
    let ghost inv = branches.deep_view();
    let mut out: Vec<String> = Vec::new();
    let mut i: usize = 0;
    while i < branches.len()
        invariant
            inv == branches.deep_view(),
            i <= inv.len(),
            forall|p: int, q: int|
                0 <= p < q < out.deep_view().len() ==> branch_lt(
                    out.deep_view()[p],
                    out.deep_view()[q],
                ),
            forall|x: Seq<char>| out.deep_view().contains(x) <==> inv.take(i as int).contains(x),
        decreases inv.len() - i,
    {
        let ghost outv0 = out.deep_view();
        let name = str_to_chars(branches[i].as_str());
        proof {
            assert(name@ == inv[i as int]);
        }
        let j = find_insert_pos(&out, &name);
        proof {
            lemma_deep_take_push(inv, i as int);
        }
        if j < out.len() {
            let cur = str_to_chars(out[j].as_str());
            proof {
                assert(cur@ == outv0[j as int]);
            }
            if chars_eq(&cur, &name) {
                proof {
                    assert(out.deep_view().contains(name@));
                    assert(forall|x: Seq<char>|
                        inv.take(i + 1).contains(x) <==> (inv.take(i as int).contains(x) || x
                            == name@));
                }
                i += 1;
                continue;
            }
            proof {
                lemma_branch_lt_trichotomy(outv0[j as int], name@);
                assert(!branch_lt(outv0[j as int], name@));
                assert(branch_lt(name@, outv0[j as int]));
            }
        }
        let ghost before = out.deep_view();
        out.insert(j, chars_to_string(&name));
        i += 1;
        proof {
            let now = out.deep_view();
            assert(now =~~= before.take(j as int) + seq![name@] + before.skip(j as int)) by {
                assert forall|t: int| 0 <= t < now.len() implies now[t] == (before.take(j as int)
                    + seq![name@] + before.skip(j as int))[t] by {
                    assert(now[t] == out@[t]@);
                }
            }
            assert forall|p: int, q: int| 0 <= p < q < now.len() implies branch_lt(
                now[p],
                now[q],
            ) by {
                if q < j {
                } else if p == j || q == j {
                    if q == j && p < j {
                        assert(branch_lt(before[p], name@));
                    }
                    if p == j {
                        assert(now[q] == before[q - 1]);
                        if q - 1 == j {
                            assert(branch_lt(name@, before[j as int]));
                        } else {
                            assert(branch_lt(name@, before[j as int]));
                            assert(branch_lt(before[j as int], before[q - 1]));
                            lemma_branch_lt_trans(name@, before[j as int], before[q - 1]);
                        }
                    }
                } else if p < j && q > j {
                    assert(branch_lt(before[p], before[q - 1]));
                } else {
                }
            }
            assert(forall|x: Seq<char>| now.contains(x) <==> (before.contains(x) || x == name@))
                by {
                assert forall|x: Seq<char>| before.contains(x) || x == name@ implies now.contains(
                    x,
                ) by {
                    if x == name@ {
                        assert(now[j as int] == x);
                    } else {
                        let t = choose|t: int| 0 <= t < before.len() && before[t] == x;
                        if t < j {
                            assert(now[t] == x);
                        } else {
                            assert(now[t + 1] == x);
                        }
                    }
                }
                assert forall|x: Seq<char>| now.contains(x) implies (before.contains(x) || x
                    == name@) by {
                    let t = choose|t: int| 0 <= t < now.len() && now[t] == x;
                    if t < j {
                        assert(before[t] == x);
                    } else if t == j {
                    } else {
                        assert(before[t - 1] == x);
                    }
                }
            }
        }
    }
    proof {
        assert(inv.take(inv.len() as int) =~= inv);
    }
    out
}

/// Finds the first position whose name is not below `name` in the branch
/// order.
fn find_insert_pos(out: &Vec<String>, name: &Vec<char>) -> (j: usize)
    ensures
        j <= out.deep_view().len(),
        forall|t: int| 0 <= t < j ==> branch_lt(out.deep_view()[t], name@),
        j < out.deep_view().len() ==> !branch_lt(out.deep_view()[j as int], name@),
{
    let ghost outv = out.deep_view();
    let mut j: usize = 0;
    while j < out.len()
        invariant
            outv == out.deep_view(),
            j <= outv.len(),
            forall|t: int| 0 <= t < j ==> branch_lt(outv[t], name@),
        decreases outv.len() - j,
    {
        let cur = str_to_chars(out[j].as_str());
        proof {
            assert(cur@ == outv[j as int]);
        }
        if !branch_lt_exec(&cur, name) {
            return j;
        }
        j += 1;
    }
    j
}

/// Strict sortedness of the prefix grows by a push at the right place.
proof fn lemma_deep_take_push(inv: Seq<Seq<char>>, i: int)
    requires
        0 <= i < inv.len(),
    ensures
        forall|x: Seq<char>|
            inv.take(i + 1).contains(x) <==> (inv.take(i).contains(x) || x == inv[i]),
{
    assert forall|x: Seq<char>| inv.take(i + 1).contains(x) implies (inv.take(i).contains(x) || x
        == inv[i]) by {
        let t = choose|t: int| 0 <= t < i + 1 && #[trigger] inv.take(i + 1)[t] == x;
        if t < i {
            assert(inv.take(i)[t] == x);
        }
    }
    assert forall|x: Seq<char>| inv.take(i).contains(x) || x == inv[i] implies inv.take(
        i + 1,
    ).contains(x) by {
        if x == inv[i] {
            assert(inv.take(i + 1)[i] == x);
        } else {
            let t = choose|t: int| 0 <= t < i && inv.take(i)[t] == x;
            assert(inv.take(i + 1)[t] == x);
        }
    }
}

/// The main-line branch: the first listed name that is `main` or `master`,
/// or `main` where neither occurs.
pub open spec fn main_branch_of(names: Seq<Seq<char>>, i: int) -> Seq<char>
    decreases names.len() - i,
{
    if i < 0 || i >= names.len() {
        "main"@
    } else if names[i] == "main"@ || names[i] == "master"@ {
        names[i]
    } else {
        main_branch_of(names, i + 1)
    }
}

/// Picks the main-line branch, as `main_branch_of` describes.
pub fn choose_main_branch(branches: &Vec<String>) -> (r: String)
    ensures
        r@ == main_branch_of(branches.deep_view(), 0),
{
    let main_lit = str_to_chars("main");
    let master_lit = str_to_chars("master");
    let ghost names = branches.deep_view();
    let mut i: usize = 0;
    while i < branches.len()
        invariant
            names == branches.deep_view(),
            i <= names.len(),
            main_branch_of(names, 0) == main_branch_of(names, i as int),
            main_lit@ == "main"@,
            master_lit@ == "master"@,
        decreases names.len() - i,
    {
        let cur = str_to_chars(branches[i].as_str());
        proof {
            assert(cur@ == names[i as int]);
        }
        if chars_eq(&cur, &main_lit) || chars_eq(&cur, &master_lit) {
            return chars_to_string(&cur);
        }
        i += 1;
    }
    "main".to_owned()
}

/// Addition on 64-bit words, wrapping.
pub open spec fn wadd(a: u64, b: u64) -> u64 {
    ((a + b) % 0x1_0000_0000_0000_0000) as u64
}

/// Multiplication on 64-bit words, wrapping.
pub open spec fn wmul(a: u64, b: u64) -> u64 {
    ((a as nat * b as nat) % 0x1_0000_0000_0000_0000) as u64
}

/// One mixing step of the digest.
pub open spec fn mix(h: u64, x: u64) -> u64 {
    wadd(wmul(h, 31), x)
}

/// The digest of the first `i` characters, folded left over `mix`.
pub open spec fn hash_chars(h: u64, s: Seq<char>, i: int) -> u64
    decreases i,
{
    if i <= 0 {
        h
    } else {
        mix(hash_chars(h, s, i - 1), s[i - 1] as u32 as u64)
    }
}

/// The digest of one `(name, resolved id)` pair.  The name and the id are
/// separated by values outside the character range, and an absent id mixes
/// a distinct mark, so the name still participates alone.
pub open spec fn pair_digest(p: (Seq<char>, Option<Seq<char>>)) -> u64 {
    let hn = hash_chars(0x100_0001b3, p.0, p.0.len() as int);
    match p.1 {
        Some(id) => hash_chars(mix(hn, 0x11_0000), id, id.len() as int),
        None => mix(hn, 0x22_0000),
    }
}

/// The fingerprint word of a pair list: the wrapping sum of the pair
/// digests, an order-independent combination.
pub open spec fn fp_sum(ps: Seq<(Seq<char>, Option<Seq<char>>)>) -> u64
    decreases ps.len(),
{
    if ps.len() == 0 {
        0
    } else {
        wadd(fp_sum(ps.drop_last()), pair_digest(ps.last()))
    }
}

/// Wrapping addition commutes and reassociates.
proof fn lemma_wadd_swap(a: u64, b: u64, c: u64)
    ensures
        wadd(wadd(a, b), c) == wadd(wadd(a, c), b),
{
}

/// Removing one pair takes its digest out of the sum.
proof fn lemma_fp_remove(ps: Seq<(Seq<char>, Option<Seq<char>>)>, i: int)
    requires
        0 <= i < ps.len(),
    ensures
        fp_sum(ps) == wadd(fp_sum(ps.remove(i)), pair_digest(ps[i])),
    decreases ps.len(),
{
    if i == ps.len() - 1 {
        assert(ps.remove(i) =~= ps.drop_last());
    } else {
        let dl = ps.drop_last();
        lemma_fp_remove(dl, i);
        assert(ps.remove(i).drop_last() =~= dl.remove(i));
        assert(ps.remove(i).last() == ps.last());
        assert(dl[i] == ps[i]);
        lemma_wadd_swap(fp_sum(dl.remove(i)), pair_digest(ps[i]), pair_digest(ps.last()));
    }
}

/// The fingerprint is invariant under reordering: two pair lists with the
/// same multiset of `(name, resolved id)` pairs have the same fingerprint
/// word.
pub proof fn lemma_fingerprint_order_independent(
    a: Seq<(Seq<char>, Option<Seq<char>>)>,
    b: Seq<(Seq<char>, Option<Seq<char>>)>,
)
    requires
        a.to_multiset() == b.to_multiset(),
    ensures
        fp_sum(a) == fp_sum(b),
    decreases a.len(),
{
    broadcast use vstd::seq_lib::group_to_multiset_ensures;

    if a.len() == 0 {
        assert(b.to_multiset().len() == 0);
        assert(b.len() == 0);
    } else {
        let x = a.last();
        assert(a.to_multiset().count(x) > 0) by {
            assert(a.contains(x));
        }
        assert(b.contains(x));
        let j = choose|j: int| 0 <= j < b.len() && b[j] == x;
        assert(a.drop_last() =~= a.remove(a.len() - 1));
        assert(a.remove(a.len() - 1).to_multiset() =~= a.to_multiset().remove(x));
        assert(b.remove(j).to_multiset() =~= b.to_multiset().remove(x));
        lemma_fingerprint_order_independent(a.drop_last(), b.remove(j));
        lemma_fp_remove(b, j);
    }
}

/// The lowercase hexadecimal representation of `n`, most significant digit
/// first, with no leading zeros.
pub open spec fn hex_rep(n: nat) -> Seq<char>
    decreases n,
{
    if n < 16 {
        seq![hex_digit_char(n % 16)]
    } else {
        hex_rep(n / 16).push(hex_digit_char(n % 16))
    }
}

/// The lowercase character for the hexadecimal digit `d`.
pub open spec fn hex_digit_char(d: nat) -> char {
    if d == 0 { '0' }
    else if d == 1 { '1' }
    else if d == 2 { '2' }
    else if d == 3 { '3' }
    else if d == 4 { '4' }
    else if d == 5 { '5' }
    else if d == 6 { '6' }
    else if d == 7 { '7' }
    else if d == 8 { '8' }
    else if d == 9 { '9' }
    else if d == 10 { 'a' }
    else if d == 11 { 'b' }
    else if d == 12 { 'c' }
    else if d == 13 { 'd' }
    else if d == 14 { 'e' }
    else { 'f' }
}

/// Writes `n` in lowercase hexadecimal, as `hex_rep` describes.
fn hex_chars(n: u64) -> (r: Vec<char>)
    ensures
        r@ =~= hex_rep(n as nat),
    decreases n,
{
    let d = n % 16;
    let c: char = match d {
        0 => '0',
        1 => '1',
        2 => '2',
        3 => '3',
        4 => '4',
        5 => '5',
        6 => '6',
        7 => '7',
        8 => '8',
        9 => '9',
        10 => 'a',
        11 => 'b',
        12 => 'c',
        13 => 'd',
        14 => 'e',
        _ => 'f',
    };
    if n < 16 {
        let mut v: Vec<char> = Vec::new();
        v.push(c);
        v
    } else {
        let mut v = hex_chars(n / 16);
        v.push(c);
        v
    }
}

/// The view of an exec pair list.
pub open spec fn pairs_view(ps: Seq<(String, Option<String>)>) -> Seq<(Seq<char>, Option<Seq<
    char,
>>)> {
    ps.map_values(
        |p: (String, Option<String>)|
            (
                p.0@,
                match p.1 {
                    Some(s) => Some(s@),
                    None => None,
                },
            ),
    )
}

/// Mixes one character code into the running digest.
fn mix_exec(h: u64, x: u64) -> (r: u64)
    ensures
        r == mix(h, x),
{
    h.wrapping_mul(31).wrapping_add(x)
}

/// Computes the digest of one pair, as `pair_digest` describes.
fn pair_digest_exec(name: &str, id: &Option<String>) -> (r: u64)
    ensures
        r == pair_digest(
            (
                name@,
                match id {
                    Some(s) => Some(s@),
                    None => None,
                },
            ),
        ),
{
    let chars = str_to_chars(name);
    let mut h: u64 = 0x100_0001b3;
    let mut i: usize = 0;
    while i < chars.len()
        invariant
            chars@ == name@,
            i <= chars@.len(),
            h == hash_chars(0x100_0001b3, name@, i as int),
        decreases chars@.len() - i,
    {
        h = mix_exec(h, chars[i] as u32 as u64);
        i += 1;
    }
    match id {
        Some(s) => {
            let idc = str_to_chars(s.as_str());
            let mut h2 = mix_exec(h, 0x11_0000);
            let mut k: usize = 0;
            while k < idc.len()
                invariant
                    idc@ == s@,
                    k <= idc@.len(),
                    h2 == hash_chars(
                        mix(hash_chars(0x100_0001b3, name@, name@.len() as int), 0x11_0000),
                        s@,
                        k as int,
                    ),
                    h == hash_chars(0x100_0001b3, name@, name@.len() as int),
                decreases idc@.len() - k,
            {
                h2 = mix_exec(h2, idc[k] as u32 as u64);
                k += 1;
            }
            h2
        },
        None => mix_exec(h, 0x22_0000),
    }
}

/// Computes the refs fingerprint of the `(name, resolved id)` pairs: the
/// lowercase hexadecimal form of their order-independent digest sum.
pub fn refs_fingerprint(pairs: &Vec<(String, Option<String>)>) -> (r: String)
    ensures
        r@ == hex_rep(fp_sum(pairs_view(pairs@)) as nat),
{
    let ghost pv = pairs_view(pairs@);
    let mut h: u64 = 0;
    let mut i: usize = 0;
    while i < pairs.len()
        invariant
            pv == pairs_view(pairs@),
            i <= pv.len(),
            h == fp_sum(pv.take(i as int)),
        decreases pv.len() - i,
    {
        let p = &pairs[i];
        let d = pair_digest_exec(p.0.as_str(), &p.1);
        proof {
            assert(pv[i as int] == (
                pairs@[i as int].0@,
                match pairs@[i as int].1 {
                    Some(s) => Some(s@),
                    None => None::<Seq<char>>,
                },
            ));
            assert(pv.take(i + 1).drop_last() =~= pv.take(i as int));
            assert(pv.take(i + 1).last() == pv[i as int]);
        }
        h = h.wrapping_add(d);
        i += 1;
    }
    proof {
        assert(pv.take(pv.len() as int) =~= pv);
    }
    let hx = hex_chars(h);
    chars_to_string(&hx)
}

/// Whether a tip commit is stale: its age at `now`, in whole days rounded
/// toward zero, exceeds 90.
pub open spec fn stale_at(commit_secs: int, now_secs: int) -> bool {
    now_secs > commit_secs && (now_secs - commit_secs) / 86400 > 90
}

/// Decides staleness, as `stale_at` describes.
pub fn is_stale(commit_secs: i64, now_secs: i64) -> (r: bool)
    ensures
        r == stale_at(commit_secs as int, now_secs as int),
{
    if now_secs > commit_secs {
        let diff: u128 = ((now_secs as i128) - (commit_secs as i128)) as u128;
        proof {
            assert(diff == now_secs - commit_secs);
        }
        diff / 86400 > 90
    } else {
        false
    }
}

/// A branch record is well formed when an unborn branch is never counted
/// as merged or stale and carries no last-commit date.
pub open spec fn metadata_wf(md: BranchMetadata) -> bool {
    md.is_unborn ==> (!md.is_merged && !md.is_stale && md.last_commit_date is None)
}

/// The symbolic head target with the branch-namespace prefix removed, read
/// literally when the repository has no commits yet.
pub open spec fn strip_heads_prefix(s: Seq<char>) -> Seq<char> {
    if has_prefix(s, "refs/heads/"@) {
        s.skip("refs/heads/"@.len() as int)
    } else {
        s
    }
}

/// Removes the branch-namespace prefix, as `strip_heads_prefix` describes.
pub fn strip_heads_prefix_exec(s: &str) -> (r: String)
    ensures
        r@ == strip_heads_prefix(s@),
{
    let chars = str_to_chars(s);
    let pat = str_to_chars("refs/heads/");
    if crate::text::begins_with(&chars, &pat) {
        let mut out: Vec<char> = Vec::new();
        let mut k: usize = pat.len();
        while k < chars.len()
            invariant
                pat@.len() <= k <= chars@.len(),
                pat@ == "refs/heads/"@,
                out@ =~= chars@.subrange(pat@.len() as int, k as int),
            decreases chars@.len() - k,
        {
            out.push(chars[k]);
            k += 1;
        }
        proof {
            assert(out@ =~= s@.skip("refs/heads/"@.len() as int));
        }
        chars_to_string(&out)
    } else {
        s.to_owned()
    }
}

/// What the head resolution reports: an attached head with its shorthand
/// name, a repository with no commits yet, or a failure.
#[derive(Debug, Clone)]
pub enum HeadInfo {
    Branch(Option<String>),
    Unborn,
    Failed(String),
}

/// The current branch name read from the head state: the shorthand where
/// the head is attached (`HEAD` where it has none), the symbolic target
/// with the branch-namespace prefix removed where the repository has no
/// commits yet (`main` where none can be read), and the failure otherwise.
pub fn current_branch_name(head: HeadInfo, symbolic: Option<String>) -> (r: Result<String, String>)
    ensures
        match head {
            HeadInfo::Branch(Some(s)) => r matches Ok(n) && n@ == s@,
            HeadInfo::Branch(None) => r matches Ok(n) && n@ == "HEAD"@,
            HeadInfo::Unborn => r matches Ok(n) && n@ == (match symbolic {
                Some(t) => strip_heads_prefix(t@),
                None => "main"@,
            }),
            HeadInfo::Failed(m) => r matches Err(e) && e@ == m@,
        },
{
    match head {
        HeadInfo::Branch(Some(s)) => Ok(s),
        HeadInfo::Branch(None) => Ok("HEAD".to_owned()),
        HeadInfo::Unborn => match symbolic {
            Some(t) => Ok(strip_heads_prefix_exec(t.as_str())),
            None => Ok("main".to_owned()),
        },
        HeadInfo::Failed(m) => Err(m),
    }
}

} // verus!
