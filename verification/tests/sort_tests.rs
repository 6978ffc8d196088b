use arch_reflector::mirror::{Mirror, Status};
use arch_reflector::protocol::Protocol;
use arch_reflector::ranker::{sort_status, SortKey};
use arch_reflector::rate::RateMap;

fn mirror(url: &str) -> Mirror {
    Mirror {
        url: url.to_string(),
        protocol: Protocol::Https,
        last_sync: Some(1_000_000),
        completion_ppm: Some(1_000_000),
        delay: None,
        duration_avg: None,
        duration_stddev: None,
        score: None,
        active: true,
        country: String::new(),
        country_code: String::new(),
        isos: false,
        ipv4: true,
        ipv6: false,
        details: String::new(),
    }
}

fn snapshot(urls: Vec<Mirror>) -> Status {
    Status {
        cutoff: 86400,
        last_check: 1_000_000,
        num_checks: 10,
        check_frequency: 3600,
        urls,
        version: 3,
    }
}

fn urls(status: &Status) -> Vec<String> {
    status.urls.iter().map(|m| m.url.clone()).collect()
}

#[test]
fn sort_by_age_puts_unsynced_first_then_ascending() {
    let mut a = mirror("https://a/");
    a.last_sync = Some(300);
    let mut b = mirror("https://b/");
    b.last_sync = None;
    let mut c = mirror("https://c/");
    c.last_sync = Some(100);
    let mut status = snapshot(vec![a, b, c]);
    sort_status(Some(SortKey::Age), &RateMap::new(), &mut status);
    assert_eq!(urls(&status), vec!["https://b/", "https://c/", "https://a/"]);
}

#[test]
fn sort_by_country_is_nondecreasing() {
    let mut a = mirror("https://a/");
    a.country = "Sweden".to_string();
    let mut b = mirror("https://b/");
    b.country = "Austria".to_string();
    let mut c = mirror("https://c/");
    c.country = "Norway".to_string();
    let mut status = snapshot(vec![a, b, c]);
    sort_status(Some(SortKey::Country), &RateMap::new(), &mut status);
    let countries: Vec<String> = status.urls.iter().map(|m| m.country.clone()).collect();
    assert_eq!(countries, vec!["Austria", "Norway", "Sweden"]);
    for pair in status.urls.windows(2) {
        assert!(pair[0].country <= pair[1].country);
    }
}

#[test]
fn sort_by_score_descending_missing_last() {
    let mut a = mirror("https://a/");
    a.score = Some(1_000_000);
    let mut b = mirror("https://b/");
    b.score = None;
    let mut c = mirror("https://c/");
    c.score = Some(3_500_000);
    let mut status = snapshot(vec![a, b, c]);
    sort_status(Some(SortKey::Score), &RateMap::new(), &mut status);
    assert_eq!(urls(&status), vec!["https://c/", "https://a/", "https://b/"]);
}

#[test]
fn sort_by_delay_ascending_missing_last() {
    let mut a = mirror("https://a/");
    a.delay = Some(7200);
    let mut b = mirror("https://b/");
    b.delay = None;
    let mut c = mirror("https://c/");
    c.delay = Some(300);
    let mut status = snapshot(vec![a, b, c]);
    sort_status(Some(SortKey::Delay), &RateMap::new(), &mut status);
    assert_eq!(urls(&status), vec!["https://c/", "https://a/", "https://b/"]);
}

#[test]
fn sort_by_rate_measured_first_descending() {
    let a = mirror("https://a/");
    let b = mirror("https://b/");
    let c = mirror("https://c/");
    let d = mirror("https://d/");
    let mut rates = RateMap::new();
    rates.insert("https://b/".to_string(), 50);
    rates.insert("https://d/".to_string(), 100);
    let mut status = snapshot(vec![a, b, c, d]);
    sort_status(Some(SortKey::Rate), &rates, &mut status);
    assert_eq!(urls(&status)[0], "https://d/");
    assert_eq!(urls(&status)[1], "https://b/");
    // Unmeasured mirrors follow every measured one, stably.
    assert_eq!(urls(&status)[2], "https://a/");
    assert_eq!(urls(&status)[3], "https://c/");
}

#[test]
fn sort_without_key_keeps_arrival_order() {
    let a = mirror("https://a/");
    let b = mirror("https://b/");
    let before = vec![b.clone(), a.clone()];
    let mut status = snapshot(before.clone());
    sort_status(None, &RateMap::new(), &mut status);
    assert_eq!(status.urls, before);
}

#[test]
fn sort_is_stable_on_equal_keys() {
    let mut ms = vec![];
    for i in 0..5 {
        let mut m = mirror(&format!("https://{i}/"));
        m.country = "Same".to_string();
        ms.push(m);
    }
    let before = ms.clone();
    let mut status = snapshot(ms);
    sort_status(Some(SortKey::Country), &RateMap::new(), &mut status);
    assert_eq!(status.urls, before);
}
