//! Deterministic single-key ordering of the mirror collection: a stable
//! sort under the requested key, with the tie and missing-value policy each
//! key calls for.

use vstd::prelude::*;
use vstd::relations::{sorted_by, strongly_connected, transitive};
use crate::mirror::{Mirror, Status};
use crate::rate::RateMap;
use crate::sortutil::{
    insert_le, lemma_insert_le_at, lemma_insert_le_len, lemma_sort_by_le_sorted, sort_by_le,
};
use crate::strutil::{lemma_lex_total, lemma_lex_trans, lex_leq, str_le};

verus! {

/// The single key a caller may sort the mirrorlist by.
#[derive(Debug, Copy, Clone, PartialEq, Eq, Structural)]
pub enum SortKey {
    /// Last server synchronization time.
    Age,
    /// Measured download rate.
    Rate,
    /// Country name.
    Country,
    /// Upstream quality score.
    Score,
    /// Reported mirroring delay.
    Delay,
}

/// The measured rate of a mirror under a rate mapping, when its probe
/// succeeded.
pub open spec fn rate_of(rates: Map<Seq<char>, u64>, m: Mirror) -> Option<u64> {
    if rates.contains_key(m.url@) {
        Some(rates[m.url@])
    } else {
        None
    }
}

/// Age order: last synchronization ascending, with never-synchronized
/// mirrors first — the natural minimum position of an absent value.
pub open spec fn le_age(a: Mirror, b: Mirror) -> bool {
    match (a.last_sync, b.last_sync) {
        (None, _) => true,
        (Some(_), None) => false,
        (Some(x), Some(y)) => x <= y,
    }
}

/// Rate order: every measured mirror before every unmeasured one, and
/// measured mirrors by rate descending, fastest first.
pub open spec fn le_rate(rates: Map<Seq<char>, u64>, a: Mirror, b: Mirror) -> bool {
    match (rate_of(rates, a), rate_of(rates, b)) {
        (Some(x), Some(y)) => x >= y,
        (Some(_), None) => true,
        (None, Some(_)) => false,
        (None, None) => true,
    }
}

/// Country order: country name ascending, lexicographically by code point.
pub open spec fn le_country(a: Mirror, b: Mirror) -> bool {
    lex_leq(a.country@, b.country@)
}

/// Score order: score descending, mirrors without a score after every
/// mirror with one.
pub open spec fn le_score(a: Mirror, b: Mirror) -> bool {
    match (a.score, b.score) {
        (Some(x), Some(y)) => x >= y,
        (Some(_), None) => true,
        (None, Some(_)) => false,
        (None, None) => true,
    }
}

/// Delay order: reported delay ascending, so the smallest actual delay
/// ranks best; mirrors without a reported delay after every mirror with
/// one. This resolves the ambiguous reversal of the raw encoding in favor
/// of the sense that ranks less delay better.
pub open spec fn le_delay(a: Mirror, b: Mirror) -> bool {
    match (a.delay, b.delay) {
        (Some(x), Some(y)) => x <= y,
        (Some(_), None) => true,
        (None, Some(_)) => false,
        (None, None) => true,
    }
}

/// The requested order as a relation on mirrors.
pub open spec fn mirror_le(key: SortKey, rates: Map<Seq<char>, u64>) -> spec_fn(Mirror, Mirror) -> bool {
    match key {
        SortKey::Age => |a: Mirror, b: Mirror| le_age(a, b),
        SortKey::Rate => |a: Mirror, b: Mirror| le_rate(rates, a, b),
        SortKey::Country => |a: Mirror, b: Mirror| le_country(a, b),
        SortKey::Score => |a: Mirror, b: Mirror| le_score(a, b),
        SortKey::Delay => |a: Mirror, b: Mirror| le_delay(a, b),
    }
}

/// Every key's order is a total preorder: it relates every pair of mirrors
/// one way or the other, and it is transitive.
pub proof fn lemma_mirror_le_total_preorder(key: SortKey, rates: Map<Seq<char>, u64>)
    ensures
        strongly_connected(mirror_le(key, rates)),
        transitive(mirror_le(key, rates)),
{
    let le = mirror_le(key, rates);
    if key is Country {
        assert forall|a: Mirror, b: Mirror| #[trigger] le(a, b) || #[trigger] le(b, a) by {
            lemma_lex_total(a.country@, b.country@);
        }
        assert forall|a: Mirror, b: Mirror, c: Mirror|
            #[trigger] le(a, b) && #[trigger] le(b, c) implies le(a, c) by {
            lemma_lex_trans(a.country@, b.country@, c.country@);
        }
    }
}

/// Decides the requested order between two mirrors.
pub fn mirror_le_exec(key: SortKey, rates: &RateMap, a: &Mirror, b: &Mirror) -> (r: bool)
    ensures
        r == mirror_le(key, rates@)(*a, *b),
{
    match key {
        SortKey::Age => match (a.last_sync, b.last_sync) {
            (None, _) => true,
            (Some(_), None) => false,
            (Some(x), Some(y)) => x <= y,
        },
        SortKey::Rate => {
            let ra = rates.get(a.url.as_str());
            let rb = rates.get(b.url.as_str());
            match (ra, rb) {
                (Some(x), Some(y)) => x >= y,
                (Some(_), None) => true,
                (None, Some(_)) => false,
                (None, None) => true,
            }
        },
        SortKey::Country => str_le(a.country.as_str(), b.country.as_str()),
        SortKey::Score => match (a.score, b.score) {
            (Some(x), Some(y)) => x >= y,
            (Some(_), None) => true,
            (None, Some(_)) => false,
            (None, None) => true,
        },
        SortKey::Delay => match (a.delay, b.delay) {
            (Some(x), Some(y)) => x <= y,
            (Some(_), None) => true,
            (None, Some(_)) => false,
            (None, None) => true,
        },
    }
}

/// Stable insertion sort of the mirror collection under the requested key:
/// the result is exactly [`sort_by_le`] of the input.
pub fn sort_mirrors(key: SortKey, rates: &RateMap, v: &mut Vec<Mirror>)
    ensures
        final(v)@ == sort_by_le(mirror_le(key, rates@), old(v)@),
{
    let ghost le = mirror_le(key, rates@);
    let ghost orig = v@;
    let mut i: usize = 0;
    proof {
        assert(orig.take(0) =~= Seq::<Mirror>::empty());
        assert(orig.skip(0) =~= orig);
        assert(sort_by_le(le, orig.take(0)) =~= Seq::<Mirror>::empty());
    }
    while i < v.len()
        invariant
            i <= orig.len(),
            v@.len() == orig.len(),
            v@ == sort_by_le(le, orig.take(i as int)) + orig.skip(i as int),
            sort_by_le(le, orig.take(i as int)).len() == i,
            le == mirror_le(key, rates@),
        decreases orig.len() - i,
    {
        let ghost a = sort_by_le(le, orig.take(i as int));
        proof {
            assert(v@[i as int] == orig.skip(i as int)[0]);
            assert(orig.skip(i as int)[0] == orig[i as int]);
        }
        let x = v.remove(i);
        proof {
            assert(x == orig[i as int]);
            assert(orig.skip(i as int).drop_first() =~= orig.skip(i as int + 1));
            assert(v@ =~= a + orig.skip(i as int + 1));
        }
        let mut pos: usize = i;
        while pos > 0 && !mirror_le_exec(key, rates, &v[pos - 1], &x)
            invariant
                pos <= i,
                i <= orig.len(),
                v@.len() == orig.len() - 1,
                v@ == a + orig.skip(i as int + 1),
                a.len() == i,
                forall|k: int| pos <= k < i ==> !le(#[trigger] a[k], x),
                le == mirror_le(key, rates@),
            decreases pos,
        {
            proof {
                assert(v@[pos - 1] == a[pos - 1]);
            }
            pos -= 1;
        }
        proof {
            if pos > 0 {
                assert(v@[pos - 1] == a[pos - 1]);
            }
        }
        v.insert(pos, x);
        proof {
            lemma_insert_le_at(le, a, x, pos as int);
            assert(v@ =~= (a.take(pos as int) + seq![x] + a.skip(pos as int)) + orig.skip(
                i as int + 1,
            ));
            assert(v@ =~= insert_le(le, a, x) + orig.skip(i as int + 1));
            assert(orig.take(i as int + 1).drop_last() =~= orig.take(i as int));
            assert(orig.take(i as int + 1).last() == orig[i as int]);
            assert(sort_by_le(le, orig.take(i as int + 1)) == insert_le(le, a, x));
            lemma_insert_le_len(le, a, x);
        }
        i += 1;
    }
    proof {
        assert(orig.take(orig.len() as int) =~= orig);
        assert(v@ =~= sort_by_le(le, orig));
    }
}

/// Orders the snapshot's mirror collection by the requested key, when one
/// is requested; no key keeps the arrival order. A rate sort consults the
/// given measurement; under every other key it is ignored. Every other
/// field of the snapshot is untouched.
pub fn sort_status(key: Option<SortKey>, rates: &RateMap, status: &mut Status)
    ensures
        match key {
            Some(k) => final(status).urls@ == sort_by_le(
                mirror_le(k, rates@),
                old(status).urls@,
            ),
            None => final(status).urls@ == old(status).urls@,
        },
        final(status).cutoff == old(status).cutoff,
        final(status).last_check == old(status).last_check,
        final(status).num_checks == old(status).num_checks,
        final(status).check_frequency == old(status).check_frequency,
        final(status).version == old(status).version,
{
    match key {
        Some(k) => sort_mirrors(k, rates, &mut status.urls),
        None => (),
    }
}

/// Sorting permutes the snapshot's mirrors: none is lost, none invented,
/// whatever key is requested.
pub proof fn lemma_sort_preserves_mirrors(
    key: SortKey,
    rates: Map<Seq<char>, u64>,
    ms: Seq<Mirror>,
)
    ensures
        sort_by_le(mirror_le(key, rates), ms).to_multiset() == ms.to_multiset(),
{
    crate::sortutil::lemma_sort_by_le_multiset(mirror_le(key, rates), ms);
}

/// Rate-sorted output: in the sorted collection every measured mirror
/// stands before every unmeasured one, and among measured mirrors the rate
/// never increases — [`le_rate`] holds of every pair in order.
pub proof fn lemma_rate_sorted(rates: Map<Seq<char>, u64>, ms: Seq<Mirror>)
    ensures
        ({
            let r = sort_by_le(mirror_le(SortKey::Rate, rates), ms);
            forall|i: int, j: int|
                0 <= i < j < r.len() ==> le_rate(rates, #[trigger] r[i], #[trigger] r[j])
        }),
{
    lemma_mirror_le_total_preorder(SortKey::Rate, rates);
    lemma_sort_by_le_sorted(mirror_le(SortKey::Rate, rates), ms);
    let le = mirror_le(SortKey::Rate, rates);
    let r = sort_by_le(le, ms);
    assert forall|i: int, j: int| 0 <= i < j < r.len() implies le_rate(
        rates,
        #[trigger] r[i],
        #[trigger] r[j],
    ) by {
        assert(le(r[i], r[j]));
    }
}

/// Country-sorted output is lexicographically non-decreasing by country
/// name.
pub proof fn lemma_country_sorted(rates: Map<Seq<char>, u64>, ms: Seq<Mirror>)
    ensures
        ({
            let r = sort_by_le(mirror_le(SortKey::Country, rates), ms);
            forall|i: int, j: int|
                0 <= i < j < r.len() ==> lex_leq(#[trigger] r[i].country@, #[trigger] r[j].country@)
        }),
{
    lemma_mirror_le_total_preorder(SortKey::Country, rates);
    lemma_sort_by_le_sorted(mirror_le(SortKey::Country, rates), ms);
    let le = mirror_le(SortKey::Country, rates);
    let r = sort_by_le(le, ms);
    assert forall|i: int, j: int| 0 <= i < j < r.len() implies lex_leq(
        #[trigger] r[i].country@,
        #[trigger] r[j].country@,
    ) by {
        assert(le(r[i], r[j]));
    }
}

} // verus!
