use arch_reflector::cache::cache_is_stale;
use arch_reflector::countries::{count_countries, list_countries};
use arch_reflector::limiter::Limiter;
use arch_reflector::mirror::Mirror;
use arch_reflector::output::{render_mirrorlist, Provenance};
use arch_reflector::protocol::Protocol;

fn mirror(url: &str, country: &str, code: &str) -> Mirror {
    Mirror {
        url: url.to_string(),
        protocol: Protocol::Https,
        last_sync: Some(1_000_000),
        completion_ppm: None,
        delay: None,
        duration_avg: None,
        duration_stddev: None,
        score: None,
        active: true,
        country: country.to_string(),
        country_code: code.to_string(),
        isos: false,
        ipv4: true,
        ipv6: false,
        details: String::new(),
    }
}

#[test]
fn worked_scenario_stale_cache_forces_refetch() {
    // Cache file modified 10 minutes ago, TTL of 300 seconds: stale, so a
    // fresh network fetch occurs and the cache file is overwritten.
    let now: i64 = 1_700_000_000;
    assert!(cache_is_stale(Some(now - 600), now, 300));
}

#[test]
fn fresh_cache_is_reused() {
    let now: i64 = 1_700_000_000;
    assert!(!cache_is_stale(Some(now - 100), now, 300));
    assert!(!cache_is_stale(Some(now - 300), now, 300));
    assert!(cache_is_stale(Some(now - 301), now, 300));
}

#[test]
fn unreadable_mtime_is_stale() {
    assert!(cache_is_stale(None, 1_700_000_000, 300));
}

#[test]
fn clock_gone_backwards_is_stale() {
    let now: i64 = 1_700_000_000;
    assert!(cache_is_stale(Some(now + 50), now, 300));
}

#[test]
fn limiter_never_exceeds_bound() {
    // The instrumented limiter: a counter asserted never to exceed the
    // configured bound, however acquisition and release interleave.
    let mut l = Limiter::new(3);
    let mut granted: u64 = 0;
    for _ in 0..10 {
        if l.try_acquire() {
            granted += 1;
        }
        assert!(l.in_flight <= l.limit);
        assert!(l.in_flight <= 3);
    }
    assert_eq!(granted, 3);
    l.release();
    assert!(l.try_acquire());
    assert!(l.in_flight <= 3);
    assert!(!l.try_acquire());
}

#[test]
fn limiter_zero_means_unbounded() {
    let mut l = Limiter::new(0);
    assert_eq!(l.limit, u64::MAX);
    for _ in 0..1000 {
        assert!(l.try_acquire());
    }
    assert_eq!(l.in_flight, 1000);
}

#[test]
fn count_countries_counts_by_pair_and_skips_empty_codes() {
    let mirrors = vec![
        mirror("https://a/", "France", "FR"),
        mirror("https://b/", "Germany", "DE"),
        mirror("https://c/", "France", "FR"),
        mirror("https://d/", "Nowhere", ""),
    ];
    let counts = count_countries(&mirrors);
    assert_eq!(counts.len(), 2);
    let fr = counts.iter().find(|c| c.code == "FR").unwrap();
    assert_eq!(fr.country, "France");
    assert_eq!(fr.count, 2);
    let de = counts.iter().find(|c| c.code == "DE").unwrap();
    assert_eq!(de.country, "Germany");
    assert_eq!(de.count, 1);
}

#[test]
fn list_countries_renders_aligned_table_sorted_by_code() {
    let mirrors = vec![
        mirror("https://a/", "France", "FR"),
        mirror("https://b/", "Germany", "DE"),
        mirror("https://c/", "France", "FR"),
    ];
    let table = list_countries(&mirrors);
    assert_eq!(table.len(), 4);
    assert_eq!(table[0], "Country Code Count");
    assert_eq!(table[1], "======= ==== =====");
    assert_eq!(table[2], "Germany DE   1    ");
    assert_eq!(table[3], "France  FR   2    ");
}

#[test]
fn list_countries_widens_columns_to_fit() {
    let mirrors = vec![mirror("https://a/", "United States", "US")];
    let table = list_countries(&mirrors);
    assert_eq!(table[0], "Country       Code Count");
    assert_eq!(table[1], "=======       ==== =====");
    assert_eq!(table[2], "United States US   1    ");
}

#[test]
fn list_countries_of_no_mirrors_is_only_the_heading() {
    let table = list_countries(&vec![]);
    assert_eq!(table.len(), 2);
    assert_eq!(table[0], "Country Code Count");
    assert_eq!(table[1], "======= ==== =====");
}

#[test]
fn list_countries_has_no_row_for_uncarried_pairs() {
    let mirrors = vec![mirror("https://a/", "France", "FR")];
    let counts = count_countries(&mirrors);
    assert_eq!(counts.len(), 1);
    assert_eq!(counts[0].count, 1);
    let table = list_countries(&mirrors);
    assert_eq!(table.len(), 3);
}

#[test]
fn list_countries_renders_multi_digit_counts() {
    let mut mirrors = vec![];
    for i in 0..12 {
        mirrors.push(mirror(&format!("https://{i}/"), "France", "FR"));
    }
    let table = list_countries(&mirrors);
    assert_eq!(table[2], "France  FR   12   ");
}

#[test]
fn render_mirrorlist_emits_banner_provenance_and_servers() {
    let p = Provenance {
        command: "reflector --sort rate".to_string(),
        when: "2024-05-01T10:00:00Z".to_string(),
        origin: "https://archlinux.org/mirrors/status/json/".to_string(),
        retrieved: "2024-05-01T10:00:00Z".to_string(),
        last_check: "2024-05-01T09:55:00Z".to_string(),
    };
    let mirrors = vec![
        mirror("https://a.example.org/archlinux/", "", ""),
        mirror("rsync://b.example.org/pool/", "", ""),
    ];
    let text = render_mirrorlist(&p, &mirrors);
    let expected = "################################################################################\n\
         ################# Arch Linux mirrorlist generated by Reflector #################\n\
         ################################################################################\n\
         \n\
         # With:       reflector --sort rate\n\
         # When:       2024-05-01T10:00:00Z\n\
         # From:       https://archlinux.org/mirrors/status/json/\n\
         # Retrieved:  2024-05-01T10:00:00Z\n\
         # Last Check: 2024-05-01T09:55:00Z\n\
         \n\
         Server = https://a.example.org/archlinux/$repo/os/$arch\n\
         Server = rsync://b.example.org/pool/$repo/os/$arch\n";
    assert_eq!(text, expected);
}

#[test]
fn render_mirrorlist_with_no_mirrors_has_no_server_lines() {
    let p = Provenance {
        command: "reflector".to_string(),
        when: "t".to_string(),
        origin: "o".to_string(),
        retrieved: "t".to_string(),
        last_check: "t".to_string(),
    };
    let text = render_mirrorlist(&p, &vec![]);
    assert!(text.ends_with("# Last Check: t\n\n"));
    assert!(!text.contains("Server = "));
}
