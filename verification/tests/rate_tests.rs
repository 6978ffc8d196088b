use arch_reflector::mirror::{Mirror, Status};
use arch_reflector::protocol::Protocol;
use arch_reflector::ranker::{sort_status, SortKey};
use arch_reflector::rate::{
    collect_rates, compute_rate, plan_probes, probe_kind, probe_target, ProbeKind, ProbeOutcome,
    RateMap,
};

fn mirror(url: &str, protocol: Protocol) -> Mirror {
    Mirror {
        url: url.to_string(),
        protocol,
        last_sync: Some(1_000_000),
        completion_ppm: None,
        delay: None,
        duration_avg: None,
        duration_stddev: None,
        score: None,
        active: true,
        country: String::new(),
        country_code: String::new(),
        isos: false,
        ipv4: true,
        ipv6: false,
        details: String::new(),
    }
}

#[test]
fn compute_rate_divides_bytes_by_seconds() {
    // 100 bytes in 1 second: 100 bytes per second; 50 bytes: 50.
    assert_eq!(compute_rate(100, 1000), Some(100));
    assert_eq!(compute_rate(50, 1000), Some(50));
    assert_eq!(compute_rate(1500, 500), Some(3000));
}

#[test]
fn compute_rate_excludes_measurement_errors() {
    assert_eq!(compute_rate(100, 0), None);
    assert_eq!(compute_rate(0, 1000), None);
    // A rate that rounds to zero is excluded, never reported as zero.
    assert_eq!(compute_rate(1, 2000), None);
    // A rate too large for 64 bits is a measurement error too.
    assert_eq!(compute_rate(u64::MAX, 1), None);
}

#[test]
fn worked_scenario_two_pull_mirrors() {
    // One mirror returns a 100-byte probe in 1 second (rate 100), the other
    // a 50-byte probe in 1 second (rate 50): rate-sorted, the first comes
    // before the second.
    let first = mirror("https://first/", Protocol::Https);
    let second = mirror("https://second/", Protocol::Https);
    let outcomes = vec![
        ProbeOutcome { url: "https://first/".to_string(), result: Some((100, 1000)) },
        ProbeOutcome { url: "https://second/".to_string(), result: Some((50, 1000)) },
    ];
    let rates = collect_rates(&outcomes);
    assert_eq!(rates.get("https://first/"), Some(100));
    assert_eq!(rates.get("https://second/"), Some(50));
    let mut status = Status {
        cutoff: 86400,
        last_check: 1_000_000,
        num_checks: 10,
        check_frequency: 3600,
        urls: vec![second.clone(), first.clone()],
        version: 3,
    };
    sort_status(Some(SortKey::Rate), &rates, &mut status);
    assert_eq!(status.urls, vec![first, second]);
}

#[test]
fn one_probe_failure_leaves_siblings_measured() {
    let outcomes = vec![
        ProbeOutcome { url: "https://ok-a/".to_string(), result: Some((4096, 2000)) },
        ProbeOutcome { url: "https://unreachable/".to_string(), result: None },
        ProbeOutcome { url: "https://ok-b/".to_string(), result: Some((8192, 2000)) },
    ];
    let rates = collect_rates(&outcomes);
    assert_eq!(rates.get("https://ok-a/"), Some(2048));
    assert_eq!(rates.get("https://ok-b/"), Some(4096));
    assert_eq!(rates.get("https://unreachable/"), None);
}

#[test]
fn later_measurement_overwrites_earlier() {
    let outcomes = vec![
        ProbeOutcome { url: "https://a/".to_string(), result: Some((100, 1000)) },
        ProbeOutcome { url: "https://a/".to_string(), result: Some((300, 1000)) },
    ];
    let rates = collect_rates(&outcomes);
    assert_eq!(rates.get("https://a/"), Some(300));
}

#[test]
fn failed_reprobe_does_not_remove_measurement() {
    let outcomes = vec![
        ProbeOutcome { url: "https://a/".to_string(), result: Some((100, 1000)) },
        ProbeOutcome { url: "https://a/".to_string(), result: None },
    ];
    let rates = collect_rates(&outcomes);
    assert_eq!(rates.get("https://a/"), Some(100));
}

#[test]
fn probe_kind_dispatches_on_protocol() {
    assert_eq!(probe_kind(Protocol::Http), ProbeKind::Pull);
    assert_eq!(probe_kind(Protocol::Https), ProbeKind::Pull);
    assert_eq!(probe_kind(Protocol::Rsync), ProbeKind::Sync);
}

#[test]
fn probe_target_joins_the_probe_object_path() {
    assert_eq!(
        probe_target("https://example.org/archlinux/").as_deref(),
        Some("https://example.org/archlinux/extra/os/x86_64/extra.db")
    );
    assert_eq!(
        probe_target("rsync://example.org/pool/").as_deref(),
        Some("rsync://example.org/pool/extra/os/x86_64/extra.db")
    );
    assert_eq!(probe_target("not a url"), None);
}

#[test]
fn plan_probes_plans_one_probe_per_mirror() {
    let mirrors = vec![
        mirror("https://a.example.org/", Protocol::Https),
        mirror("rsync://b.example.org/pool/", Protocol::Rsync),
    ];
    let plans = plan_probes(&mirrors);
    assert_eq!(plans.len(), 2);
    assert_eq!(plans[0].url, "https://a.example.org/");
    assert_eq!(plans[0].kind, ProbeKind::Pull);
    assert_eq!(
        plans[0].target.as_deref(),
        Some("https://a.example.org/extra/os/x86_64/extra.db")
    );
    assert_eq!(plans[1].url, "rsync://b.example.org/pool/");
    assert_eq!(plans[1].kind, ProbeKind::Sync);
    assert_eq!(
        plans[1].target.as_deref(),
        Some("rsync://b.example.org/pool/extra/os/x86_64/extra.db")
    );
}

#[test]
fn rate_map_get_misses_unknown_urls() {
    let mut rates = RateMap::new();
    assert_eq!(rates.get("https://a/"), None);
    rates.insert("https://a/".to_string(), 7);
    assert_eq!(rates.get("https://a/"), Some(7));
    assert_eq!(rates.get("https://b/"), None);
}
