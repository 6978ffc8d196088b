//! The distribution of mirrors by country: counting mirrors per country,
//! and rendering the counts as the aligned table the caller prints.

use vstd::prelude::*;
use vstd::string::StrSliceExecFns;
use vstd::string::StringExecFns;
use crate::mirror::Mirror;
use crate::sortutil::{
    insert_le, lemma_insert_le_at, lemma_insert_le_len, sort_by_le,
};
use crate::strutil::{
    dec_digits, ilog10, lex_leq, log10, pad_right, spec_pad, str_eq, str_le, u64_to_string,
};

verus! {

/// One row of the country distribution: a country, its ISO code, and how
/// many mirrors reside there.
#[derive(Debug, Clone, PartialEq)]
pub struct CountryCount {
    /// The country's name.
    pub country: String,
    /// The country's ISO code; never empty.
    pub code: String,
    /// How many mirrors reside there.
    pub count: u64,
}

/// How many mirrors of `ms` carry exactly this country name and code.
pub open spec fn pair_count(ms: Seq<Mirror>, country: Seq<char>, code: Seq<char>) -> nat
    decreases ms.len(),
{
    if ms.len() == 0 {
        0
    } else {
        pair_count(ms.drop_last(), country, code) + if ms.last().country@ == country
            && ms.last().country_code@ == code {
            1nat
        } else {
            0nat
        }
    }
}

/// No more mirrors carry a pair than there are mirrors.
proof fn lemma_pair_count_bound(ms: Seq<Mirror>, country: Seq<char>, code: Seq<char>)
    ensures
        pair_count(ms, country, code) <= ms.len(),
    decreases ms.len(),
{
    if ms.len() > 0 {
        lemma_pair_count_bound(ms.drop_last(), country, code);
    }
}

/// A pair no mirror carries counts zero.
proof fn lemma_pair_count_zero(ms: Seq<Mirror>, country: Seq<char>, code: Seq<char>)
    requires
        forall|i: int|
            #![trigger ms[i]]
            0 <= i < ms.len() ==> !(ms[i].country@ == country && ms[i].country_code@ == code),
    ensures
        pair_count(ms, country, code) == 0,
    decreases ms.len(),
{
    if ms.len() > 0 {
        assert(ms.last() == ms[ms.len() - 1]);
        assert forall|i: int|
            #![trigger ms.drop_last()[i]]
            0 <= i < ms.drop_last().len() implies !(ms.drop_last()[i].country@ == country
            && ms.drop_last()[i].country_code@ == code) by {
            assert(ms.drop_last()[i] == ms[i]);
        }
        lemma_pair_count_zero(ms.drop_last(), country, code);
    }
}

/// Whether the rows hold an entry for this country name and code.
pub open spec fn has_pair(r: Seq<CountryCount>, country: Seq<char>, code: Seq<char>) -> bool {
    exists|k: int|
        0 <= k < r.len() && (#[trigger] r[k]).country@ == country && r[k].code@ == code
}

/// What a correct country distribution of `ms` holds: exactly one row per
/// distinct (name, code) pair that some mirror carries with a non-empty
/// code, each row with the exact mirror count — hence at least 1; mirrors
/// with an empty code are left out of the grouping.
pub open spec fn counts_ok(ms: Seq<Mirror>, r: Seq<CountryCount>) -> bool {
    &&& forall|k: int| 0 <= k < r.len() ==> (#[trigger] r[k]).code@.len() > 0
    &&& forall|k: int|
        0 <= k < r.len() ==> (#[trigger] r[k]).count == pair_count(ms, r[k].country@, r[k].code@)
    &&& forall|k: int|
        0 <= k < r.len() ==> pair_count(ms, (#[trigger] r[k]).country@, r[k].code@) > 0
    &&& forall|k1: int, k2: int|
        0 <= k1 < k2 < r.len() ==> !((#[trigger] r[k1]).country@ == (#[trigger] r[k2]).country@
            && r[k1].code@ == r[k2].code@)
    &&& forall|i: int|
        #![trigger ms[i]]
        0 <= i < ms.len() && ms[i].country_code@.len() > 0 ==> has_pair(
            r,
            ms[i].country@,
            ms[i].country_code@,
        )
}

/// With no mirrors there is no row: every row's pair must be carried by
/// some mirror, so the rendered listing is just the two heading lines.
pub proof fn lemma_counts_ok_empty(ms: Seq<Mirror>, r: Seq<CountryCount>)
    requires
        counts_ok(ms, r),
        ms.len() == 0,
    ensures
        r.len() == 0,
{
    if r.len() > 0 {
        assert(pair_count(ms, r[0].country@, r[0].code@) > 0);
        assert(pair_count(ms, r[0].country@, r[0].code@) == 0);
    }
}

fn find_pair(r: &Vec<CountryCount>, country: &str, code: &str) -> (idx: Option<usize>)
    ensures
        match idx {
            Some(k) => k < r@.len() && r@[k as int].country@ == country@ && r@[k as int].code@
                == code@,
            None => forall|k: int|
                0 <= k < r@.len() ==> !((#[trigger] r@[k]).country@ == country@ && r@[k].code@
                    == code@),
        },
{
    let mut k: usize = 0;
    while k < r.len()
        invariant
            k <= r@.len(),
            forall|j: int|
                0 <= j < k ==> !((#[trigger] r@[j]).country@ == country@ && r@[j].code@ == code@),
        decreases r@.len() - k,
    {
        if str_eq(r[k].country.as_str(), country) && str_eq(r[k].code.as_str(), code) {
            return Some(k);
        }
        k += 1;
    }
    None
}

/// Counts the mirrors of each country, keyed by the exact (name, ISO code)
/// pair; a mirror with an empty code joins no group.
pub fn count_countries(mirrors: &Vec<Mirror>) -> (r: Vec<CountryCount>)
    ensures
        counts_ok(mirrors@, r@),
{
    let mut r: Vec<CountryCount> = Vec::new();
    let mut i: usize = 0;
    proof {
        assert(mirrors@.take(0) =~= Seq::<Mirror>::empty());
    }
    while i < mirrors.len()
        invariant
            i <= mirrors@.len(),
            counts_ok(mirrors@.take(i as int), r@),
        decreases mirrors@.len() - i,
    {
        let ghost prefix = mirrors@.take(i as int);
        let ghost prefix1 = mirrors@.take(i as int + 1);
        let ghost mm = mirrors@[i as int];
        proof {
            assert(prefix1.drop_last() =~= prefix);
            assert(prefix1.last() == mm);
            assert(forall|j: int| 0 <= j < i ==> #[trigger] prefix1[j] == prefix[j]);
        }
        let m = &mirrors[i];
        if !m.country_code.as_str().is_empty() {
            match find_pair(&r, m.country.as_str(), m.country_code.as_str()) {
                Some(k) => {
                    let ghost pre = r@;
                    let e = r.remove(k);
                    proof {
                        lemma_pair_count_bound(prefix, e.country@, e.code@);
                    }
                    let e2 = CountryCount { country: e.country, code: e.code, count: e.count + 1 };
                    r.insert(k, e2);
                    proof {
                        assert(forall|j: int|
                            0 <= j < pre.len() && j != k ==> #[trigger] r@[j] == pre[j]);
                        assert(r@[k as int].country@ == pre[k as int].country@ && r@[k as int].code@
                            == pre[k as int].code@ && r@[k as int].count == pre[k as int].count
                            + 1);
                        assert(r@.len() == pre.len());
                        assert forall|j: int| 0 <= j < r@.len() implies (#[trigger] r@[j]).count
                            == pair_count(prefix1, r@[j].country@, r@[j].code@) by {
                            if j == k {
                                assert(mm.country@ == r@[j].country@ && mm.country_code@
                                    == r@[j].code@);
                            } else {
                                assert(!(pre[j].country@ == pre[k as int].country@ && pre[j].code@
                                    == pre[k as int].code@));
                                assert(!(mm.country@ == r@[j].country@ && mm.country_code@
                                    == r@[j].code@));
                            }
                        }
                        assert forall|j: int|
                            0 <= j < r@.len() implies pair_count(
                            prefix1,
                            (#[trigger] r@[j]).country@,
                            r@[j].code@,
                        ) > 0 by {
                            assert(r@[j].count == pair_count(prefix1, r@[j].country@, r@[j].code@));
                            if j != k {
                                assert(r@[j] == pre[j]);
                                assert(pre[j].count == pair_count(
                                    prefix,
                                    pre[j].country@,
                                    pre[j].code@,
                                ));
                                assert(pair_count(prefix, pre[j].country@, pre[j].code@) > 0);
                            }
                        }
                        assert forall|ii: int|
                            #![trigger prefix1[ii]]
                            0 <= ii < prefix1.len() && prefix1[ii].country_code@.len() > 0 implies
                            has_pair(r@, prefix1[ii].country@, prefix1[ii].country_code@) by {
                            if ii < i {
                                assert(has_pair(pre, prefix[ii].country@, prefix[ii].country_code@));
                                let w = choose|w: int|
                                    0 <= w < pre.len() && (#[trigger] pre[w]).country@
                                        == prefix[ii].country@ && pre[w].code@
                                        == prefix[ii].country_code@;
                                assert(r@[w].country@ == pre[w].country@ && r@[w].code@
                                    == pre[w].code@);
                            } else {
                                assert(r@[k as int].country@ == mm.country@ && r@[k as int].code@
                                    == mm.country_code@);
                            }
                        }
                    }
                },
                None => {
                    let ghost pre = r@;
                    let e = CountryCount {
                        country: m.country.clone(),
                        code: m.country_code.clone(),
                        count: 1,
                    };
                    r.push(e);
                    proof {
                        assert(forall|j: int| 0 <= j < pre.len() ==> #[trigger] r@[j] == pre[j]);
                        assert(r@[pre.len() as int].country@ == mm.country@
                            && r@[pre.len() as int].code@ == mm.country_code@
                            && r@[pre.len() as int].count == 1);
                        assert forall|ii: int|
                            #![trigger prefix[ii]]
                            0 <= ii < prefix.len() implies !(prefix[ii].country@ == mm.country@
                            && prefix[ii].country_code@ == mm.country_code@) by {
                            if prefix[ii].country_code@.len() > 0 {
                                assert(has_pair(
                                    pre,
                                    prefix[ii].country@,
                                    prefix[ii].country_code@,
                                ));
                            }
                        }
                        lemma_pair_count_zero(prefix, mm.country@, mm.country_code@);
                        assert forall|j: int| 0 <= j < r@.len() implies (#[trigger] r@[j]).count
                            == pair_count(prefix1, r@[j].country@, r@[j].code@) by {
                            if j < pre.len() {
                                assert(!(mm.country@ == r@[j].country@ && mm.country_code@
                                    == r@[j].code@));
                            }
                        }
                        assert forall|j: int|
                            0 <= j < r@.len() implies pair_count(
                            prefix1,
                            (#[trigger] r@[j]).country@,
                            r@[j].code@,
                        ) > 0 by {
                            assert(r@[j].count == pair_count(prefix1, r@[j].country@, r@[j].code@));
                            if j < pre.len() {
                                assert(r@[j] == pre[j]);
                                assert(pre[j].count == pair_count(
                                    prefix,
                                    pre[j].country@,
                                    pre[j].code@,
                                ));
                                assert(pair_count(prefix, pre[j].country@, pre[j].code@) > 0);
                            }
                        }
                        assert forall|ii: int|
                            #![trigger prefix1[ii]]
                            0 <= ii < prefix1.len() && prefix1[ii].country_code@.len() > 0 implies
                            has_pair(r@, prefix1[ii].country@, prefix1[ii].country_code@) by {
                            if ii < i {
                                assert(has_pair(pre, prefix[ii].country@, prefix[ii].country_code@));
                                let w = choose|w: int|
                                    0 <= w < pre.len() && (#[trigger] pre[w]).country@
                                        == prefix[ii].country@ && pre[w].code@
                                        == prefix[ii].country_code@;
                                assert(r@[w].country@ == pre[w].country@ && r@[w].code@
                                    == pre[w].code@);
                            } else {
                                assert(r@[pre.len() as int].country@ == mm.country@
                                    && r@[pre.len() as int].code@ == mm.country_code@);
                            }
                        }
                    }
                },
            }
        } else {
            proof {
                assert forall|j: int| 0 <= j < r@.len() implies (#[trigger] r@[j]).count
                    == pair_count(prefix1, r@[j].country@, r@[j].code@) by {
                    assert(r@[j].code@.len() > 0);
                    assert(!(mm.country@ == r@[j].country@ && mm.country_code@ == r@[j].code@));
                }
                assert forall|j: int|
                    0 <= j < r@.len() implies pair_count(
                    prefix1,
                    (#[trigger] r@[j]).country@,
                    r@[j].code@,
                ) > 0 by {
                    assert(r@[j].count == pair_count(prefix1, r@[j].country@, r@[j].code@));
                    assert(r@[j].count == pair_count(prefix, r@[j].country@, r@[j].code@));
                    assert(pair_count(prefix, r@[j].country@, r@[j].code@) > 0);
                }
            }
        }
        i += 1;
    }
    proof {
        assert(mirrors@.take(mirrors@.len() as int) =~= mirrors@);
    }
    r
}

/// Code order on distribution rows: by ISO code, ascending
/// lexicographically.
pub open spec fn le_code(a: CountryCount, b: CountryCount) -> bool {
    lex_leq(a.code@, b.code@)
}

/// [`le_code`] as a relation, for the sort's specification.
pub open spec fn code_le() -> spec_fn(CountryCount, CountryCount) -> bool {
    |a: CountryCount, b: CountryCount| le_code(a, b)
}

/// Stable insertion sort of the distribution rows by country code.
pub fn sort_counts(v: &mut Vec<CountryCount>)
    ensures
        final(v)@ == sort_by_le(code_le(), old(v)@),
{
    let ghost le = code_le();
    let ghost orig = v@;
    let mut i: usize = 0;
    proof {
        assert(orig.take(0) =~= Seq::<CountryCount>::empty());
        assert(orig.skip(0) =~= orig);
        assert(sort_by_le(le, orig.take(0)) =~= Seq::<CountryCount>::empty());
    }
    while i < v.len()
        invariant
            i <= orig.len(),
            v@.len() == orig.len(),
            v@ == sort_by_le(le, orig.take(i as int)) + orig.skip(i as int),
            sort_by_le(le, orig.take(i as int)).len() == i,
            le == code_le(),
        decreases orig.len() - i,
    {
        let ghost a = sort_by_le(le, orig.take(i as int));
        proof {
            assert(v@[i as int] == orig.skip(i as int)[0]);
            assert(orig.skip(i as int)[0] == orig[i as int]);
        }
        let x = v.remove(i);
        proof {
            assert(x == orig[i as int]);
            assert(orig.skip(i as int).drop_first() =~= orig.skip(i as int + 1));
            assert(v@ =~= a + orig.skip(i as int + 1));
        }
        let mut pos: usize = i;
        while pos > 0 && !str_le(v[pos - 1].code.as_str(), x.code.as_str())
            invariant
                pos <= i,
                i <= orig.len(),
                v@.len() == orig.len() - 1,
                v@ == a + orig.skip(i as int + 1),
                a.len() == i,
                forall|k: int| pos <= k < i ==> !le(#[trigger] a[k], x),
                le == code_le(),
            decreases pos,
        {
            proof {
                assert(v@[pos - 1] == a[pos - 1]);
            }
            pos -= 1;
        }
        proof {
            if pos > 0 {
                assert(v@[pos - 1] == a[pos - 1]);
            }
        }
        v.insert(pos, x);
        proof {
            lemma_insert_le_at(le, a, x, pos as int);
            assert(v@ =~= (a.take(pos as int) + seq![x] + a.skip(pos as int)) + orig.skip(
                i as int + 1,
            ));
            assert(v@ =~= insert_le(le, a, x) + orig.skip(i as int + 1));
            assert(orig.take(i as int + 1).drop_last() =~= orig.take(i as int));
            assert(orig.take(i as int + 1).last() == orig[i as int]);
            assert(sort_by_le(le, orig.take(i as int + 1)) == insert_le(le, a, x));
            lemma_insert_le_len(le, a, x);
        }
        i += 1;
    }
    proof {
        assert(orig.take(orig.len() as int) =~= orig);
        assert(v@ =~= sort_by_le(le, orig));
    }
}

/// The width of the table's country column: the widest country name, at
/// least the 7 characters of its heading.
pub open spec fn table_country_width(s: Seq<CountryCount>) -> nat
    decreases s.len(),
{
    if s.len() == 0 {
        7
    } else {
        let w = table_country_width(s.drop_last());
        if s.last().country@.len() > w {
            s.last().country@.len()
        } else {
            w
        }
    }
}

/// The width of the code column: the widest code, at least the 4 characters
/// of its heading.
pub open spec fn table_code_width(s: Seq<CountryCount>) -> nat
    decreases s.len(),
{
    if s.len() == 0 {
        4
    } else {
        let w = table_code_width(s.drop_last());
        if s.last().code@.len() > w {
            s.last().code@.len()
        } else {
            w
        }
    }
}

/// The width of the count column: the largest count's decimal magnitude, at
/// least the 5 characters of its heading.
pub open spec fn table_count_width(s: Seq<CountryCount>) -> nat
    decreases s.len(),
{
    if s.len() == 0 {
        5
    } else {
        let w = table_count_width(s.drop_last());
        if log10(s.last().count as nat) > w {
            log10(s.last().count as nat)
        } else {
            w
        }
    }
}

/// One rendered table row: the three cells padded to their column widths,
/// separated by single spaces.
pub open spec fn spec_table_row(
    c: Seq<char>,
    d: Seq<char>,
    n: Seq<char>,
    w1: nat,
    w2: nat,
    w3: nat,
) -> Seq<char> {
    spec_pad(c, w1) + seq![' '] + spec_pad(d, w2) + seq![' '] + spec_pad(n, w3)
}

/// The rendered table: a heading row, a rule, then one row per entry in
/// order.
pub open spec fn spec_table(s: Seq<CountryCount>) -> Seq<Seq<char>> {
    let w1 = table_country_width(s);
    let w2 = table_code_width(s);
    let w3 = table_count_width(s);
    Seq::new(
        s.len() + 2,
        |i: int|
            if i == 0 {
                spec_table_row("Country"@, "Code"@, "Count"@, w1, w2, w3)
            } else if i == 1 {
                spec_table_row("======="@, "===="@, "====="@, w1, w2, w3)
            } else {
                spec_table_row(
                    s[i - 2].country@,
                    s[i - 2].code@,
                    dec_digits(s[i - 2].count as nat),
                    w1,
                    w2,
                    w3,
                )
            },
    )
}

fn render_row(c: &str, d: &str, n: &str, w1: usize, w2: usize, w3: usize) -> (r: String)
    ensures
        r@ == spec_table_row(c@, d@, n@, w1 as nat, w2 as nat, w3 as nat),
{
    let mut out = pad_right(c, w1);
    out.append(" ");
    let code_cell = pad_right(d, w2);
    out.append(code_cell.as_str());
    out.append(" ");
    let count_cell = pad_right(n, w3);
    out.append(count_cell.as_str());
    proof {
        reveal_strlit(" ");
        assert(" "@ =~= seq![' ']);
        assert(out@ =~= spec_table_row(c@, d@, n@, w1 as nat, w2 as nat, w3 as nat));
    }
    out
}

/// Ten to the `k`.
spec fn pow10(k: nat) -> nat
    decreases k,
{
    if k == 0 {
        1
    } else {
        10 * pow10((k - 1) as nat)
    }
}

proof fn lemma_log10_below(n: nat, k: nat)
    requires
        n < pow10(k),
        k >= 1,
    ensures
        log10(n) < k,
    decreases k,
{
    if n >= 10 {
        assert(pow10(k) == 10 * pow10((k - 1) as nat));
        lemma_log10_below(n / 10, (k - 1) as nat);
    }
}

/// A 64-bit count's magnitude is below 20 digits.
proof fn lemma_log10_u64(n: u64)
    ensures
        log10(n as nat) < 20,
{
    assert(pow10(20) > u64::MAX) by {
        reveal_with_fuel(pow10, 21);
    }
    lemma_log10_below(n as nat, 20);
}

/// Computes the three column widths of the table.
fn table_widths(s: &Vec<CountryCount>) -> (r: (usize, usize, usize))
    ensures
        r.0 == table_country_width(s@),
        r.1 == table_code_width(s@),
        r.2 == table_count_width(s@),
{
    let mut w1: usize = 7;
    let mut w2: usize = 4;
    let mut w3: usize = 5;
    let mut i: usize = 0;
    proof {
        assert(s@.take(0) =~= Seq::<CountryCount>::empty());
    }
    while i < s.len()
        invariant
            i <= s@.len(),
            w1 == table_country_width(s@.take(i as int)),
            w2 == table_code_width(s@.take(i as int)),
            w3 == table_count_width(s@.take(i as int)),
        decreases s@.len() - i,
    {
        proof {
            assert(s@.take(i as int + 1).drop_last() =~= s@.take(i as int));
            assert(s@.take(i as int + 1).last() == s@[i as int]);
        }
        let lc = s[i].country.unicode_len();
        if lc > w1 {
            w1 = lc;
        }
        let ld = s[i].code.unicode_len();
        if ld > w2 {
            w2 = ld;
        }
        let ln64 = ilog10(s[i].count);
        proof {
            lemma_log10_u64(s@[i as int].count);
        }
        let ln = ln64 as usize;
        if ln > w3 {
            w3 = ln;
        }
        i += 1;
    }
    proof {
        assert(s@.take(s@.len() as int) =~= s@);
    }
    (w1, w2, w3)
}

/// Renders the country distribution as an aligned table: a heading, a
/// rule, and one row per entry, in the entries' order.
pub fn country_table(s: &Vec<CountryCount>) -> (r: Vec<String>)
    ensures
        r@.len() == s@.len() + 2,
        forall|k: int| 0 <= k < r@.len() ==> (#[trigger] r@[k])@ == spec_table(s@)[k],
{
    let (w1, w2, w3) = table_widths(s);
    let mut r: Vec<String> = Vec::new();
    r.push(render_row("Country", "Code", "Count", w1, w2, w3));
    r.push(render_row("=======", "====", "=====", w1, w2, w3));
    let mut i: usize = 0;
    while i < s.len()
        invariant
            i <= s@.len(),
            r@.len() == i + 2,
            w1 == table_country_width(s@),
            w2 == table_code_width(s@),
            w3 == table_count_width(s@),
            forall|k: int| 0 <= k < r@.len() ==> (#[trigger] r@[k])@ == spec_table(s@)[k],
        decreases s@.len() - i,
    {
        let n = u64_to_string(s[i].count);
        let row = render_row(s[i].country.as_str(), s[i].code.as_str(), n.as_str(), w1, w2, w3);
        let ghost pre = r@;
        r.push(row);
        proof {
            assert(forall|k: int| 0 <= k < pre.len() ==> #[trigger] r@[k] == pre[k]);
            assert(r@[i + 2]@ == spec_table(s@)[i + 2]);
        }
        i += 1;
    }
    r
}

/// The whole country listing: the distribution counted, ordered by country
/// code, and rendered as the table.
pub fn list_countries(mirrors: &Vec<Mirror>) -> (r: Vec<String>)
    ensures
        exists|cs: Seq<CountryCount>|
            #![all_triggers]
            counts_ok(mirrors@, cs) && r@.len() == cs.len() + 2 && (forall|k: int|
                0 <= k < r@.len() ==> (#[trigger] r@[k])@ == spec_table(sort_by_le(code_le(), cs))[k]),
{
    let counts = count_countries(mirrors);
    let ghost cs = counts@;
    let mut sorted = counts;
    sort_counts(&mut sorted);
    let r = country_table(&sorted);
    proof {
        assert(counts_ok(mirrors@, cs) && r@.len() == sort_by_le(code_le(), cs).len() + 2 && (
        forall|k: int|
            0 <= k < r@.len() ==> (#[trigger] r@[k])@ == spec_table(sort_by_le(code_le(), cs))[k]));
        crate::sortutil::lemma_sort_by_le_len(code_le(), cs);
    }
    r
}

} // verus!
