use arch_reflector::filter::{filter_status, passes, Filters};
use arch_reflector::mirror::{Mirror, Status};
use arch_reflector::protocol::Protocol;

fn mirror(url: &str) -> Mirror {
    Mirror {
        url: url.to_string(),
        protocol: Protocol::Https,
        last_sync: Some(1_000_000),
        completion_ppm: Some(1_000_000),
        delay: Some(600),
        duration_avg: None,
        duration_stddev: None,
        score: None,
        active: true,
        country: String::new(),
        country_code: String::new(),
        isos: false,
        ipv4: true,
        ipv6: false,
        details: String::new(),
    }
}

fn snapshot(urls: Vec<Mirror>) -> Status {
    Status {
        cutoff: 86400,
        last_check: 1_000_000,
        num_checks: 10,
        check_frequency: 3600,
        urls,
        version: 3,
    }
}

fn no_filters() -> Filters {
    Filters {
        max_age_hours: None,
        min_completion_ppm: 0,
        countries: vec![],
        protocols: vec![],
        max_delay_secs: None,
        isos: false,
        ipv4: false,
        ipv6: false,
    }
}

#[test]
fn worked_scenario_age_and_completion() {
    // Three mirrors: A synced 1 hour ago with completion 1.0 from France,
    // B synced 30 hours ago with completion 0.5 from Germany, C never
    // synced. Max age 24 hours, min completion 0.9: only A survives.
    let now: i64 = 1_000_000_000;
    let mut a = mirror("https://a.example.org/");
    a.last_sync = Some(now - 3600);
    a.completion_ppm = Some(1_000_000);
    a.country = "France".to_string();
    a.country_code = "FR".to_string();
    let mut b = mirror("https://b.example.org/");
    b.last_sync = Some(now - 30 * 3600);
    b.completion_ppm = Some(500_000);
    b.country = "Germany".to_string();
    b.country_code = "DE".to_string();
    let mut c = mirror("https://c.example.org/");
    c.last_sync = None;

    let filters = Filters {
        max_age_hours: Some(24),
        min_completion_ppm: 900_000,
        ..no_filters()
    };
    let mut status = snapshot(vec![a.clone(), b, c]);
    filter_status(&filters, &mut status, now);
    assert_eq!(status.urls, vec![a]);
}

#[test]
fn filtering_is_idempotent_on_concrete_input() {
    let now: i64 = 1_000_000_000;
    let mut a = mirror("https://a.example.org/");
    a.last_sync = Some(now - 100);
    let mut b = mirror("https://b.example.org/");
    b.last_sync = None;
    let mut c = mirror("https://c.example.org/");
    c.last_sync = Some(now - 48 * 3600);

    let filters = Filters { max_age_hours: Some(24), ..no_filters() };
    let mut once = snapshot(vec![a.clone(), b.clone(), c.clone()]);
    filter_status(&filters, &mut once, now);
    let mut twice = snapshot(vec![a, b, c]);
    filter_status(&filters, &mut twice, now);
    filter_status(&filters, &mut twice, now);
    assert_eq!(once.urls, twice.urls);
}

#[test]
fn filtering_preserves_relative_order() {
    let now: i64 = 1_000_000_000;
    let mut survivors = vec![];
    let mut all = vec![];
    for i in 0..6 {
        let mut m = mirror(&format!("https://{i}.example.org/"));
        if i % 2 == 0 {
            m.last_sync = Some(now - i);
            survivors.push(m.clone());
        } else {
            m.last_sync = None;
        }
        all.push(m);
    }
    let mut status = snapshot(all);
    filter_status(&no_filters(), &mut status, now);
    assert_eq!(status.urls, survivors);
}

#[test]
fn unsynced_mirror_rejected_even_with_no_predicates() {
    let now: i64 = 1_000_000_000;
    let mut m = mirror("https://a.example.org/");
    m.last_sync = None;
    let mut status = snapshot(vec![m]);
    filter_status(&no_filters(), &mut status, now);
    assert!(status.urls.is_empty());
}

#[test]
fn zero_age_threshold_is_no_constraint() {
    let now: i64 = 1_000_000_000;
    let mut m = mirror("https://old.example.org/");
    m.last_sync = Some(now - 1000 * 3600);
    let filters = Filters { max_age_hours: Some(0), ..no_filters() };
    assert!(passes(&filters, now, &m));
    let filters = Filters { max_age_hours: Some(-5), ..no_filters() };
    assert!(passes(&filters, now, &m));
    let filters = Filters { max_age_hours: Some(24), ..no_filters() };
    assert!(!passes(&filters, now, &m));
}

#[test]
fn absent_completion_is_not_rejected() {
    let now: i64 = 1_000_000_000;
    let mut m = mirror("https://a.example.org/");
    m.completion_ppm = None;
    let filters = Filters { min_completion_ppm: 900_000, ..no_filters() };
    assert!(passes(&filters, now, &m));
    m.completion_ppm = Some(899_999);
    assert!(!passes(&filters, now, &m));
    m.completion_ppm = Some(900_000);
    assert!(passes(&filters, now, &m));
}

#[test]
fn country_allow_list_matches_name_or_code() {
    let now: i64 = 1_000_000_000;
    let mut m = mirror("https://a.example.org/");
    m.country = "France".to_string();
    m.country_code = "FR".to_string();
    let by_name = Filters { countries: vec!["France".to_string()], ..no_filters() };
    assert!(passes(&by_name, now, &m));
    let by_code = Filters { countries: vec!["FR".to_string()], ..no_filters() };
    assert!(passes(&by_code, now, &m));
    let other = Filters { countries: vec!["Germany".to_string(), "DE".to_string()], ..no_filters() };
    assert!(!passes(&other, now, &m));
}

#[test]
fn protocol_allow_list() {
    let now: i64 = 1_000_000_000;
    let mut m = mirror("https://a.example.org/");
    m.protocol = Protocol::Rsync;
    let yes = Filters { protocols: vec![Protocol::Rsync, Protocol::Http], ..no_filters() };
    assert!(passes(&yes, now, &m));
    let no = Filters { protocols: vec![Protocol::Https], ..no_filters() };
    assert!(!passes(&no, now, &m));
}

#[test]
fn delay_filter_rejects_absent_delay() {
    let now: i64 = 1_000_000_000;
    let mut m = mirror("https://a.example.org/");
    m.delay = None;
    let filters = Filters { max_delay_secs: Some(3600), ..no_filters() };
    assert!(!passes(&filters, now, &m));
    m.delay = Some(3601);
    assert!(!passes(&filters, now, &m));
    m.delay = Some(3600);
    assert!(passes(&filters, now, &m));
}

#[test]
fn capability_flags_filter() {
    let now: i64 = 1_000_000_000;
    let mut m = mirror("https://a.example.org/");
    m.isos = false;
    m.ipv4 = true;
    m.ipv6 = false;
    assert!(!passes(&Filters { isos: true, ..no_filters() }, now, &m));
    assert!(passes(&Filters { ipv4: true, ..no_filters() }, now, &m));
    assert!(!passes(&Filters { ipv6: true, ..no_filters() }, now, &m));
}
