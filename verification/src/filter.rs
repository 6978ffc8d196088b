//! Multi-predicate filtering of the mirror collection: a single in-place
//! pass that keeps a mirror only when every active predicate passes, never
//! reordering the survivors.

use vstd::prelude::*;
use crate::mirror::{Mirror, Status};
use crate::protocol::Protocol;
use crate::strutil::str_eq;

verus! {

/// The inclusion predicates a caller may activate; each is independently
/// optional, and a mirror must satisfy all active ones to be retained.
#[derive(Debug, Clone)]
pub struct Filters {
    /// Reject a mirror whose last synchronization lies more than this many
    /// hours before "now"; zero or a negative count means no constraint.
    pub max_age_hours: Option<i64>,
    /// Reject a mirror whose completion fraction is reported and lies below
    /// this threshold, in parts per million; an unreported fraction passes.
    pub min_completion_ppm: u64,
    /// Country allow-list: names or ISO codes, compared exactly; the caller
    /// normalizes case. Empty means no constraint.
    pub countries: Vec<String>,
    /// Transport scheme allow-list. Empty means no constraint.
    pub protocols: Vec<Protocol>,
    /// Reject a mirror whose reported delay exceeds this many seconds, or
    /// which reports no delay at all.
    pub max_delay_secs: Option<u32>,
    /// Keep only mirrors hosting installable images.
    pub isos: bool,
    /// Keep only mirrors reachable over IPv4.
    pub ipv4: bool,
    /// Keep only mirrors reachable over IPv6.
    pub ipv6: bool,
}

/// Whether `s` occurs in the allow-list `cs`, compared character for character.
pub open spec fn in_list(cs: Seq<String>, s: Seq<char>) -> bool {
    exists|i: int| 0 <= i < cs.len() && cs[i]@ == s
}

/// The conjunction of every active predicate on one mirror. A mirror that
/// was never observed synchronized is always rejected.
pub open spec fn mirror_passes(f: Filters, now: int, m: Mirror) -> bool {
    &&& m.last_sync is Some
    &&& (match f.max_age_hours {
        Some(h) => h > 0 ==> m.last_sync->0 + h * 3600 >= now,
        None => true,
    })
    &&& (m.completion_ppm matches Some(c) ==> c >= f.min_completion_ppm)
    &&& (f.countries.len() > 0 ==> in_list(f.countries@, m.country@) || in_list(
        f.countries@,
        m.country_code@,
    ))
    &&& (f.protocols.len() > 0 ==> f.protocols@.contains(m.protocol))
    &&& (f.max_delay_secs matches Some(d) ==> m.delay matches Some(md) && md <= d)
    &&& (f.isos ==> m.isos)
    &&& (f.ipv4 ==> m.ipv4)
    &&& (f.ipv6 ==> m.ipv6)
}

/// [`mirror_passes`] as a predicate on mirrors, for a fixed filter set and time.
pub open spec fn passes_pred(f: Filters, now: int) -> spec_fn(Mirror) -> bool {
    |m: Mirror| mirror_passes(f, now, m)
}

fn contains_string(cs: &Vec<String>, s: &str) -> (r: bool)
    ensures
        r == in_list(cs@, s@),
{
    let mut i: usize = 0;
    while i < cs.len()
        invariant
            i <= cs@.len(),
            forall|k: int| 0 <= k < i ==> cs@[k]@ != s@,
        decreases cs@.len() - i,
    {
        if str_eq(cs[i].as_str(), s) {
            return true;
        }
        i += 1;
    }
    false
}

fn contains_protocol(ps: &Vec<Protocol>, p: Protocol) -> (r: bool)
    ensures
        r == ps@.contains(p),
{
    let mut i: usize = 0;
    while i < ps.len()
        invariant
            i <= ps@.len(),
            forall|k: int| 0 <= k < i ==> ps@[k] != p,
        decreases ps@.len() - i,
    {
        if ps[i] == p {
            return true;
        }
        i += 1;
    }
    false
}

/// Decides [`mirror_passes`] for one mirror.
pub fn passes(f: &Filters, now: i64, m: &Mirror) -> (r: bool)
    ensures
        r == mirror_passes(*f, now as int, *m),
{
    let ls = match m.last_sync {
        None => {
            return false;
        },
        Some(ls) => ls,
    };
    if let Some(h) = f.max_age_hours {
        if h > 0 && (ls as i128) + (h as i128) * 3600 < (now as i128) {
            return false;
        }
    }
    if let Some(c) = m.completion_ppm {
        if c < f.min_completion_ppm {
            return false;
        }
    }
    if f.countries.len() > 0 {
        if !contains_string(&f.countries, m.country.as_str()) && !contains_string(
            &f.countries,
            m.country_code.as_str(),
        ) {
            return false;
        }
    }
    if f.protocols.len() > 0 {
        if !contains_protocol(&f.protocols, m.protocol) {
            return false;
        }
    }
    if let Some(d) = f.max_delay_secs {
        match m.delay {
            Some(md) => {
                if md > d {
                    return false;
                }
            },
            None => {
                return false;
            },
        }
    }
    if f.isos && !m.isos {
        return false;
    }
    if f.ipv4 && !m.ipv4 {
        return false;
    }
    if f.ipv6 && !m.ipv6 {
        return false;
    }
    true
}

/// Applies every active predicate to the snapshot's mirror collection, in
/// place and in one pass; survivors keep their relative order, every other
/// field of the snapshot is untouched.
pub fn filter_status(f: &Filters, status: &mut Status, now: i64)
    ensures
        final(status).urls@ == old(status).urls@.filter(passes_pred(*f, now as int)),
        final(status).cutoff == old(status).cutoff,
        final(status).last_check == old(status).last_check,
        final(status).num_checks == old(status).num_checks,
        final(status).check_frequency == old(status).check_frequency,
        final(status).version == old(status).version,
{
    let ghost orig = status.urls@;
    let ghost p = passes_pred(*f, now as int);
    let mut i: usize = 0;
    let ghost j: int = 0;
    proof {
        assert(orig.take(0).filter(p) =~= Seq::<Mirror>::empty());
        assert(orig.skip(0) =~= orig);
    }
    while i < status.urls.len()
        invariant
            0 <= j <= orig.len(),
            status.urls@ == orig.take(j).filter(p) + orig.skip(j),
            i == orig.take(j).filter(p).len(),
            p == passes_pred(*f, now as int),
            status.cutoff == old(status).cutoff,
            status.last_check == old(status).last_check,
            status.num_checks == old(status).num_checks,
            status.check_frequency == old(status).check_frequency,
            status.version == old(status).version,
        decreases orig.len() - j,
    {
        proof {
            assert(orig.skip(j).len() > 0);
            assert(status.urls@[i as int] == orig[j]);
        }
        let keep = passes(f, now, &status.urls[i]);
        proof {
            assert(orig.take(j + 1) =~= orig.take(j).push(orig[j]));
            orig.take(j).lemma_filter_push(orig[j], p);
            assert(orig.skip(j).drop_first() =~= orig.skip(j + 1));
        }
        if keep {
            proof {
                assert(status.urls@ =~= orig.take(j + 1).filter(p) + orig.skip(j + 1));
            }
            i += 1;
        } else {
            let _ = status.urls.remove(i);
            proof {
                assert(status.urls@ =~= orig.take(j + 1).filter(p) + orig.skip(j + 1));
            }
        }
        proof {
            j = j + 1;
        }
    }
    proof {
        assert(orig.skip(j).len() == 0);
        assert(j == orig.len());
        assert(orig.take(j) =~= orig);
        assert(status.urls@ =~= orig.filter(p));
    }
}

/// Filtering is idempotent: filtering an already filtered collection with
/// the same predicate set changes nothing.
pub proof fn lemma_filter_idempotent<A>(s: Seq<A>, p: spec_fn(A) -> bool)
    ensures
        s.filter(p).filter(p) == s.filter(p),
    decreases s.len(),
{
    reveal(Seq::filter);
    if s.len() > 0 {
        lemma_filter_idempotent(s.drop_last(), p);
        if p(s.last()) {
            s.drop_last().filter(p).lemma_filter_push(s.last(), p);
        }
    }
}

/// Filtering a snapshot twice with the same predicates and the same time
/// yields what filtering once yields.
pub proof fn lemma_filter_status_idempotent(f: Filters, now: int, ms: Seq<Mirror>)
    ensures
        ms.filter(passes_pred(f, now)).filter(passes_pred(f, now)) == ms.filter(
            passes_pred(f, now),
        ),
{
    lemma_filter_idempotent(ms, passes_pred(f, now));
}

/// `t` can be obtained from `s` by deleting elements: the elements of `t`
/// occur in `s` in the same relative order.
pub open spec fn is_subsequence<A>(t: Seq<A>, s: Seq<A>) -> bool
    decreases s.len(),
{
    if t.len() == 0 {
        true
    } else if s.len() == 0 {
        false
    } else if t.last() == s.last() {
        is_subsequence(t.drop_last(), s.drop_last())
    } else {
        is_subsequence(t, s.drop_last())
    }
}

/// A subsequence of `s` is also one of `s` extended by an element.
proof fn lemma_subsequence_push<A>(t: Seq<A>, s: Seq<A>, x: A)
    requires
        is_subsequence(t, s),
    ensures
        is_subsequence(t, s.push(x)),
    decreases s.len(), 1int,
{
    if t.len() > 0 {
        assert(s.push(x).drop_last() =~= s);
        if t.last() == x {
            lemma_subsequence_drop_last(t, s);
        }
    }
}

/// Dropping the last element of a subsequence keeps it a subsequence.
proof fn lemma_subsequence_drop_last<A>(t: Seq<A>, s: Seq<A>)
    requires
        is_subsequence(t, s),
        t.len() > 0,
    ensures
        is_subsequence(t.drop_last(), s),
    decreases s.len(), 0int,
{
    if t.last() == s.last() {
        assert(s.drop_last().push(s.last()) =~= s);
        lemma_subsequence_push(t.drop_last(), s.drop_last(), s.last());
    } else {
        lemma_subsequence_drop_last(t, s.drop_last());
        if t.drop_last().len() > 0 {
            assert(s.drop_last().push(s.last()) =~= s);
            lemma_subsequence_push(t.drop_last(), s.drop_last(), s.last());
        }
    }
}

/// Filtering preserves the relative order of the survivors: the filtered
/// collection is a subsequence of the unfiltered one.
pub proof fn lemma_filter_stable<A>(s: Seq<A>, p: spec_fn(A) -> bool)
    ensures
        is_subsequence(s.filter(p), s),
    decreases s.len(),
{
    reveal(Seq::filter);
    if s.len() > 0 {
        lemma_filter_stable(s.drop_last(), p);
        if !p(s.last()) {
            assert(s.drop_last().push(s.last()) =~= s);
            lemma_subsequence_push(s.drop_last().filter(p), s.drop_last(), s.last());
        } else {
            let t = s.drop_last().filter(p).push(s.last());
            assert(s.filter(p) == t);
            assert(t.drop_last() =~= s.drop_last().filter(p));
            assert(is_subsequence(t.drop_last(), s.drop_last()));
        }
    }
}

/// A mirror with no recorded last synchronization is rejected under every
/// predicate set, including the empty one: synced-ness is always enforced.
pub proof fn lemma_unsynced_rejected(f: Filters, now: int, m: Mirror)
    requires
        m.last_sync is None,
    ensures
        !mirror_passes(f, now, m),
{
}

} // verus!
