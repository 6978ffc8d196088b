//! Rate benchmarking support: planning the protocol-appropriate probe for
//! each mirror, turning a probe's byte count and wall time into a rate, and
//! collecting the successful measurements into a rate mapping.
//!
//! Rates are bytes per second at millisecond resolution. A probe failure
//! only keeps that one mirror out of the mapping; an elapsed time of zero
//! is a measurement error, not a rate of infinity, and is excluded, as is a
//! rate that rounds to zero or does not fit the rate's width.

use vstd::prelude::*;
use crate::mirror::Mirror;
use crate::protocol::Protocol;
use crate::strutil::str_eq;

verus! {

/// The measured transfer rates, keyed by mirror URL. Mirrors whose probe
/// failed or was skipped are absent; every held rate is strictly positive.
pub struct RateMap {
    entries: Vec<(String, u64)>,
}

/// First match wins: the rate stored for `k`, searching from the front.
pub open spec fn lookup(s: Seq<(String, u64)>, k: Seq<char>) -> Option<u64>
    decreases s.len(),
{
    if s.len() == 0 {
        None
    } else if s[0].0@ == k {
        Some(s[0].1)
    } else {
        lookup(s.drop_first(), k)
    }
}

impl View for RateMap {
    type V = Map<Seq<char>, u64>;

    /// The mapping from mirror URL to measured rate.
    closed spec fn view(&self) -> Map<Seq<char>, u64> {
        Map::new(
            |k: Seq<char>| lookup(self.entries@, k) is Some,
            |k: Seq<char>| lookup(self.entries@, k)->0,
        )
    }
}

impl RateMap {
    /// An empty measurement: no probe has succeeded.
    pub fn new() -> (r: RateMap)
        ensures
            r@ == Map::<Seq<char>, u64>::empty(),
    {
        let r = RateMap { entries: Vec::new() };
        proof {
            assert(r@ =~= Map::<Seq<char>, u64>::empty());
        }
        r
    }

    /// Records a measured rate, replacing any earlier one for the same URL.
    pub fn insert(&mut self, url: String, rate: u64)
        requires
            rate > 0,
        ensures
            final(self)@ == old(self)@.insert(url@, rate),
    {
        let ghost pre = self.entries@;
        self.entries.insert(0, (url, rate));
        proof {
            assert(self.entries@.drop_first() =~= pre);
            assert forall|k: Seq<char>| true implies lookup(self.entries@, k) == (if k == self.entries@[0].0@ {
                Some(self.entries@[0].1)
            } else {
                lookup(pre, k)
            }) by {
            }
            assert(self@ =~= old(self)@.insert(self.entries@[0].0@, rate));
        }
    }

    /// The measured rate for `url`, when its probe succeeded.
    pub fn get(&self, url: &str) -> (r: Option<u64>)
        ensures
            r == if self@.contains_key(url@) {
                Some(self@[url@])
            } else {
                None::<u64>
            },
    {
        let mut i: usize = 0;
        proof {
            assert(self.entries@.skip(0) =~= self.entries@);
        }
        while i < self.entries.len()
            invariant
                i <= self.entries@.len(),
                lookup(self.entries@, url@) == lookup(self.entries@.skip(i as int), url@),
            decreases self.entries@.len() - i,
        {
            if str_eq(self.entries[i].0.as_str(), url) {
                return Some(self.entries[i].1);
            }
            proof {
                assert(self.entries@.skip(i as int).drop_first() =~= self.entries@.skip(i + 1));
            }
            i += 1;
        }
        None
    }
}

/// The rate a successful probe yields: bytes per second at millisecond
/// resolution, `None` when the elapsed time is zero, the rate rounds to
/// zero, or it does not fit in 64 bits.
pub open spec fn spec_rate(bytes: u64, elapsed_ms: u64) -> Option<u64> {
    if elapsed_ms == 0 {
        None
    } else {
        let r = (bytes * 1000) / (elapsed_ms as int);
        if r == 0 || r > u64::MAX {
            None
        } else {
            Some(r as u64)
        }
    }
}

/// Computes [`spec_rate`]: the strictly positive rate of a probe, or `None`
/// for a measurement error.
pub fn compute_rate(bytes: u64, elapsed_ms: u64) -> (r: Option<u64>)
    ensures
        r == spec_rate(bytes, elapsed_ms),
        r matches Some(v) ==> v > 0,
{
    if elapsed_ms == 0 {
        return None;
    }
    let q = ((bytes as u128) * 1000) / (elapsed_ms as u128);
    if q == 0 || q > u64::MAX as u128 {
        None
    } else {
        Some(q as u64)
    }
}

/// What one probe reported back: the mirror's URL, and the byte count and
/// wall time in milliseconds when the probe succeeded.
#[derive(Debug, Clone, PartialEq)]
pub struct ProbeOutcome {
    /// The probed mirror's URL.
    pub url: String,
    /// `Some((bytes, elapsed_ms))` on success, `None` on any probe failure.
    pub result: Option<(u64, u64)>,
}

/// The mapping that collecting a list of outcomes yields: exactly the
/// mirrors with a successful, positive-rate probe, a later outcome
/// overwriting an earlier one for the same URL.
pub open spec fn collect_spec(outcomes: Seq<ProbeOutcome>) -> Map<Seq<char>, u64>
    decreases outcomes.len(),
{
    if outcomes.len() == 0 {
        Map::empty()
    } else {
        let m = collect_spec(outcomes.drop_last());
        match outcomes.last().result {
            Some((b, e)) => match spec_rate(b, e) {
                Some(r) => m.insert(outcomes.last().url@, r),
                None => m,
            },
            None => m,
        }
    }
}

/// Folds the probe outcomes into the final rate measurement: exactly the
/// mirrors whose probe succeeded appear, with their computed rate.
pub fn collect_rates(outcomes: &Vec<ProbeOutcome>) -> (r: RateMap)
    ensures
        r@ == collect_spec(outcomes@),
{
    let mut r = RateMap::new();
    let mut i: usize = 0;
    proof {
        assert(outcomes@.take(0) =~= Seq::<ProbeOutcome>::empty());
    }
    while i < outcomes.len()
        invariant
            i <= outcomes@.len(),
            r@ == collect_spec(outcomes@.take(i as int)),
        decreases outcomes@.len() - i,
    {
        proof {
            assert(outcomes@.take(i + 1).drop_last() =~= outcomes@.take(i as int));
            assert(outcomes@.take(i + 1).last() == outcomes@[i as int]);
        }
        match outcomes[i].result {
            Some((b, e)) => {
                match compute_rate(b, e) {
                    Some(rate) => {
                        let url = outcomes[i].url.clone();
                        r.insert(url, rate);
                    },
                    None => (),
                }
            },
            None => (),
        }
        i += 1;
    }
    proof {
        assert(outcomes@.take(outcomes@.len() as int) =~= outcomes@);
    }
    r
}

/// One probe failure never keeps another mirror's successful measurement
/// out: every outcome with a well-measured success appears in the collected
/// mapping, whatever the sibling outcomes did.
pub proof fn lemma_probe_failure_isolated(outcomes: Seq<ProbeOutcome>, i: int)
    requires
        0 <= i < outcomes.len(),
        outcomes[i].result matches Some((b, e)) && spec_rate(b, e) is Some,
    ensures
        collect_spec(outcomes).contains_key(outcomes[i].url@),
    decreases outcomes.len(),
{
    if i < outcomes.len() - 1 {
        assert(outcomes.drop_last()[i] == outcomes[i]);
        lemma_probe_failure_isolated(outcomes.drop_last(), i);
    }
}

/// The collected measurement holds exactly the mirrors with a successful,
/// well-measured probe: a URL is a key exactly when some outcome for it
/// succeeded with a computable rate.
pub proof fn lemma_collect_exact(outcomes: Seq<ProbeOutcome>, u: Seq<char>)
    ensures
        collect_spec(outcomes).contains_key(u) <==> exists|i: int|
            0 <= i < outcomes.len() && (#[trigger] outcomes[i]).url@ == u
                && (outcomes[i].result matches Some((b, e)) && spec_rate(b, e) is Some),
    decreases outcomes.len(),
{
    if outcomes.len() > 0 {
        let d = outcomes.drop_last();
        lemma_collect_exact(d, u);
        let last = outcomes.last();
        if collect_spec(outcomes).contains_key(u) {
            let succeeded = last.result matches Some((b, e)) && spec_rate(b, e) is Some;
            if succeeded && last.url@ == u {
                assert(outcomes[outcomes.len() - 1].url@ == u);
            } else {
                assert(collect_spec(d).contains_key(u));
                let i = choose|i: int|
                    0 <= i < d.len() && (#[trigger] d[i]).url@ == u && (d[i].result matches Some(
                        (b, e),
                    ) && spec_rate(b, e) is Some);
                assert(outcomes[i] == d[i]);
            }
        }
        if exists|i: int|
            0 <= i < outcomes.len() && (#[trigger] outcomes[i]).url@ == u
                && (outcomes[i].result matches Some((b, e)) && spec_rate(b, e) is Some) {
            let i = choose|i: int|
                0 <= i < outcomes.len() && (#[trigger] outcomes[i]).url@ == u
                    && (outcomes[i].result matches Some((b, e)) && spec_rate(b, e) is Some);
            if i < outcomes.len() - 1 {
                assert(d[i] == outcomes[i]);
                assert(collect_spec(d).contains_key(u));
            }
        }
    }
}

/// Every rate the collected measurement holds is strictly positive: a zero
/// or unmeasurable rate never enters it.
pub proof fn lemma_collected_rates_positive(outcomes: Seq<ProbeOutcome>, u: Seq<char>)
    requires
        collect_spec(outcomes).contains_key(u),
    ensures
        collect_spec(outcomes)[u] > 0,
    decreases outcomes.len(),
{
    if outcomes.len() > 0 {
        let d = outcomes.drop_last();
        let last = outcomes.last();
        match last.result {
            Some((b, e)) => match spec_rate(b, e) {
                Some(r) => {
                    if last.url@ != u {
                        lemma_collected_rates_positive(d, u);
                    }
                },
                None => {
                    lemma_collected_rates_positive(d, u);
                },
            },
            None => {
                lemma_collected_rates_positive(d, u);
            },
        }
    }
}

/// The two probe strategies the dispatcher knows.
#[derive(Debug, Copy, Clone, PartialEq, Eq, Structural)]
pub enum ProbeKind {
    /// Request the probe object directly over the web and time the download.
    Pull,
    /// Copy the probe object with the external synchronization tool into a
    /// scoped temporary directory and time the whole invocation.
    Sync,
}

/// Which probe strategy a transport scheme calls for.
pub open spec fn spec_probe_kind(p: Protocol) -> ProbeKind {
    match p {
        Protocol::Http => ProbeKind::Pull,
        Protocol::Https => ProbeKind::Pull,
        Protocol::Rsync => ProbeKind::Sync,
    }
}

/// The pure dispatch from a mirror's transport scheme to its probe strategy.
pub fn probe_kind(p: Protocol) -> (r: ProbeKind)
    ensures
        r == spec_probe_kind(p),
{
    match p {
        Protocol::Http => ProbeKind::Pull,
        Protocol::Https => ProbeKind::Pull,
        Protocol::Rsync => ProbeKind::Sync,
    }
}

/// What the URL resolution of the probe object yields for a given base URL
/// and relative path; a function of the two texts alone.
pub uninterp spec fn resolved_probe_url(base: Seq<char>, rel: Seq<char>) -> Option<Seq<char>>;

/// Relies on url::Url::parse and url::Url::join: parses the base text as an
/// absolute URL and resolves `rel` against it, `None` when either step
/// rejects its input; the outcome depends on the two texts alone.
#[verifier::external_body]
fn join_url(base: &str, rel: &str) -> (r: Option<String>)
    ensures
        r matches Some(s) ==> resolved_probe_url(base@, rel@) == Some(s@),
        r is None ==> resolved_probe_url(base@, rel@) is None,
{
    match url::Url::parse(base) {
        Ok(u) => match u.join(rel) {
            Ok(j) => Some(j.as_str().to_owned()),
            Err(_) => None,
        },
        Err(_) => None,
    }
}

/// The full URL of the probe object a mirror publishes: the well-known
/// archive index, resolved against the mirror's base URL.
pub fn probe_target(base: &str) -> (r: Option<String>)
    ensures
        r matches Some(s) ==> resolved_probe_url(base@, "extra/os/x86_64/extra.db"@) == Some(s@),
        r is None ==> resolved_probe_url(base@, "extra/os/x86_64/extra.db"@) is None,
{
    join_url(base, "extra/os/x86_64/extra.db")
}

/// Everything the dispatcher needs to run one probe.
#[derive(Debug, Clone, PartialEq)]
pub struct ProbePlan {
    /// The mirror's URL, the key of its eventual measurement.
    pub url: String,
    /// The probe strategy its transport scheme calls for.
    pub kind: ProbeKind,
    /// The resolved URL of the probe object, `None` when the mirror's base
    /// URL does not resolve.
    pub target: Option<String>,
}

/// What a correctly planned probe holds for its mirror: the mirror's own
/// URL as key, the pure dispatch on its transport scheme as strategy, and
/// the resolved probe object URL as target exactly when the base resolves.
pub open spec fn plan_ok(m: Mirror, p: ProbePlan) -> bool {
    &&& p.url@ == m.url@
    &&& p.kind == spec_probe_kind(m.protocol)
    &&& (p.target matches Some(s) ==> resolved_probe_url(m.url@, "extra/os/x86_64/extra.db"@)
        == Some(s@))
    &&& (p.target is None ==> resolved_probe_url(m.url@, "extra/os/x86_64/extra.db"@) is None)
}

/// Plans one probe per mirror, in the mirrors' order: the strategy is the
/// pure dispatch on the transport scheme, the target the resolved probe
/// object URL.
pub fn plan_probes(mirrors: &Vec<Mirror>) -> (r: Vec<ProbePlan>)
    ensures
        r@.len() == mirrors@.len(),
        forall|i: int| 0 <= i < r@.len() ==> plan_ok(mirrors@[i], #[trigger] r@[i]),
{
    let mut r: Vec<ProbePlan> = Vec::new();
    let mut i: usize = 0;
    while i < mirrors.len()
        invariant
            i <= mirrors@.len(),
            r@.len() == i,
            forall|k: int| 0 <= k < i ==> plan_ok(mirrors@[k], #[trigger] r@[k]),
        decreases mirrors@.len() - i,
    {
        let m = &mirrors[i];
        let plan = ProbePlan {
            url: m.url.clone(),
            kind: probe_kind(m.protocol),
            target: probe_target(m.url.as_str()),
        };
        let ghost pre = r@;
        r.push(plan);
        proof {
            assert(plan_ok(mirrors@[i as int], plan));
            assert(r@[i as int] == plan);
            assert(forall|k: int| 0 <= k < i ==> #[trigger] r@[k] == pre[k]);
        }
        i += 1;
    }
    r
}

} // verus!
