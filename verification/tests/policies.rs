use backer::headers::build_header_plan;
use backer::hoststate::{LatencyTracker, RateLimiter, WarmupRegistry};
use backer::sched::{
    batch_timeout_ms, effective_concurrency, existence_check_timeout, global_timeout_secs,
    group_key, probe_task_timeout, Scanner,
};
use backer::stats::PatternStats;
use backer::urlinfo::{choose_protocol, normalize_url, protocol_probe_plan, ProtocolPlan};
use backer::{ScanConfig, ScanResult};

#[test]
fn concurrency_is_clamped_at_five() {
    assert_eq!(effective_concurrency(10), 5);
    assert_eq!(effective_concurrency(5), 5);
    assert_eq!(effective_concurrency(3), 3);
    assert_eq!(effective_concurrency(0), 0);
}

#[test]
fn timeout_bounds() {
    assert_eq!(existence_check_timeout(30), 5);
    assert_eq!(existence_check_timeout(3), 3);
    assert_eq!(probe_task_timeout(30), 10);
    assert_eq!(probe_task_timeout(7), 7);
    assert_eq!(batch_timeout_ms(10), 30_000);
    assert_eq!(batch_timeout_ms(40), 120_000);
    assert_eq!(batch_timeout_ms(1000), 120_000);
    assert_eq!(global_timeout_secs(30), 150);
    assert_eq!(global_timeout_secs(5), 60);
}

#[test]
fn empty_history_keeps_generator_order() {
    let stats = PatternStats::new();
    let urls = vec![
        "http://h/zzz.zip".to_string(),
        "http://h/aaa.zip".to_string(),
        "http://h/mmm.zip".to_string(),
    ];
    let sorted = stats.sort_urls_by_success_rate(urls.clone());
    assert_eq!(sorted, urls);
}

#[test]
fn failed_pattern_sorts_below_unseen() {
    let mut stats = PatternStats::new();
    for _ in 0..4 {
        stats.update("http://h/backup.zip", false);
    }
    assert_eq!(stats.get("backup.zip"), Some((0, 4)));
    let urls = vec![
        "http://h/backup.zip".to_string(),
        "http://other/fresh.rar".to_string(),
    ];
    let sorted = stats.sort_urls_by_success_rate(urls);
    assert_eq!(sorted[0], "http://other/fresh.rar");
    assert_eq!(sorted[1], "http://h/backup.zip");
}

#[test]
fn successful_pattern_sorts_first() {
    let mut stats = PatternStats::new();
    stats.update("http://h/backup.zip", true);
    stats.update("http://h/site.rar", false);
    let urls = vec![
        "http://h/site.rar".to_string(),
        "http://h/other.tar".to_string(),
        "http://h/backup.zip".to_string(),
    ];
    let sorted = stats.sort_urls_by_success_rate(urls);
    assert_eq!(sorted[0], "http://h/backup.zip");
    assert_eq!(sorted[1], "http://h/other.tar");
    assert_eq!(sorted[2], "http://h/site.rar");
}

#[test]
fn update_counts_successes_and_attempts() {
    let mut stats = PatternStats::new();
    stats.update("http://h/a/backup.zip", true);
    stats.update("http://x/backup.zip", false);
    stats.update("http://h/backup.zip", true);
    assert_eq!(stats.get("backup.zip"), Some((2, 3)));
    assert_eq!(stats.get("unseen.zip"), None);
}

#[test]
fn scanner_tracks_threads_and_flags() {
    let mut s = Scanner::new(ScanConfig::default());
    assert_eq!(s.get_current_threads(), 10);
    s.adjust_concurrency(429);
    assert_eq!(s.get_current_threads(), 7);
    s.adjust_concurrency(200);
    assert_eq!(s.get_current_threads(), 8);
    s.adjust_concurrency(503);
    assert_eq!(s.get_current_threads(), 6);
    s.adjust_concurrency(404);
    assert_eq!(s.get_current_threads(), 6);
    s.adjust_concurrency(304);
    assert_eq!(s.get_current_threads(), 7);
    s.set_debug(true);
    s.set_random_ip(false);
    s.set_random_headers(false);
    assert!(s.debug && !s.random_ip && !s.random_headers);
    assert_eq!(s.extract_pattern_from_url("http://h/a/b/c.zip"), "c.zip");
    assert_eq!(s.extract_pattern_from_url("plain"), "plain");
}

#[test]
fn group_key_takes_host_part() {
    assert_eq!(group_key("http://example.com/path/x"), "example.com");
    assert_eq!(group_key("https://example.com"), "example.com");
    assert_eq!(group_key("bare-host"), "bare-host");
}

#[test]
fn adaptive_timeout_follows_window() {
    let mut t = LatencyTracker::new();
    // No samples: the configured timeout stands.
    assert_eq!(t.get_adaptive_timeout("http://example.com/x", 30), 30_000);
    t.record_response_time("http://example.com/x", 100);
    // avg 100 -> 300 + 2000 = 2300, clamped up to five seconds.
    assert_eq!(t.get_adaptive_timeout("http://example.com/y", 30), 5_000);
    t.record_response_time("http://example.com/x", 3900);
    // avg 2000 -> 8000, between the bounds.
    assert_eq!(t.get_adaptive_timeout("http://example.com/y", 30), 8_000);
    // avg far over the configured timeout: clamped down.
    assert_eq!(t.get_adaptive_timeout("http://example.com/y", 6), 6_000);
}

#[test]
fn latency_window_keeps_ten_samples() {
    let mut t = LatencyTracker::new();
    for i in 0..12u64 {
        t.record_response_time("http://example.com/x", 1000 + i);
    }
    assert_eq!(t.hosts.len(), 1);
    assert_eq!(t.hosts[0].samples.len(), 10);
    assert_eq!(t.hosts[0].samples[0], 1002);
    assert_eq!(t.hosts[0].samples[9], 1011);
}

#[test]
fn throttle_escalates_on_third_hit_and_decays_when_quiet() {
    let mut r = RateLimiter::new();
    assert_eq!(r.get_throttle_delay(), 30);
    assert!(!r.observe("http://example.com/a", 429, 1_000));
    assert!(!r.observe("http://example.com/b", 503, 2_000));
    assert!(r.observe("http://example.com/c", 429, 3_000));
    assert_eq!(r.throttle_milli, 1500);
    assert_eq!(r.get_throttle_delay(), 45);
    assert!(r.observe("http://example.com/d", 429, 4_000));
    assert_eq!(r.throttle_milli, 2250);
    // A healthy response soon after: no decay while the host is recent.
    assert!(!r.observe("http://example.com/e", 200, 5_000));
    assert_eq!(r.throttle_milli, 2250);
    // Long quiet: one decay step per observation.
    assert!(!r.observe("http://example.com/e", 200, 400_000));
    assert_eq!(r.throttle_milli, 2025);
}

#[test]
fn throttle_never_leaves_bounds() {
    let mut r = RateLimiter::new();
    for i in 0..50u64 {
        r.observe("http://example.com/x", 429, 1000 + i);
    }
    assert_eq!(r.throttle_milli, 5000);
    assert_eq!(r.get_throttle_delay(), 150);
    for i in 0..100u64 {
        r.observe("http://example.com/x", 200, 10_000_000 + i * 1000);
    }
    assert_eq!(r.throttle_milli, 1000);
}

#[test]
fn warmup_happens_once_per_host() {
    let mut w = WarmupRegistry::new();
    let target = w.warmup_target("http://example.com/base").unwrap();
    assert_eq!(target, "example.com");
    w.mark_warmed(target);
    assert!(w.warmup_target("http://example.com/other").is_none());
    assert!(w.warmup_target("http://other.com").is_some());
    assert!(w.warmup_target("not a url").is_none());
}

#[test]
fn normalize_url_adds_scheme_and_strips_path() {
    assert_eq!(normalize_url("example.com/a/b?q=1").unwrap(), "http://example.com");
    assert_eq!(normalize_url("https://example.com/x").unwrap(), "https://example.com");
    assert_eq!(normalize_url("https://example.com:8443/x").unwrap(), "https://example.com:8443");
    assert_eq!(normalize_url("http://example.com:80/").unwrap(), "http://example.com");
    assert_eq!(normalize_url("EXAMPLE.com").unwrap(), "http://example.com");
    assert!(normalize_url("http://").is_err());
}

#[test]
fn protocol_plan_probes_bare_hosts() {
    match protocol_probe_plan("http://example.com") {
        ProtocolPlan::Keep(u) => assert_eq!(u, "http://example.com"),
        _ => panic!("expected the scheme to be kept"),
    }
    match protocol_probe_plan("  www.example.com/  ") {
        ProtocolPlan::Probe { https_url, http_url } => {
            assert_eq!(https_url, "https://example.com");
            assert_eq!(http_url, "http://example.com");
        },
        _ => panic!("expected a probe plan"),
    }
    assert_eq!(
        choose_protocol("https://a".to_string(), "http://a".to_string(), true),
        "https://a"
    );
    assert_eq!(
        choose_protocol("https://a".to_string(), "http://a".to_string(), false),
        "http://a"
    );
}

#[test]
fn header_plan_without_spoofing_is_just_the_user_agent() {
    let ua = "TestAgent/1.0".to_string();
    let plan = build_header_plan(&ua, false, false, &Vec::new());
    assert_eq!(plan.len(), 1);
    assert_eq!(plan[0].0, "user-agent");
    assert_eq!(plan[0].1, "TestAgent/1.0");
}

#[test]
fn header_plan_with_forged_address_ends_with_valid_octets() {
    let ua = "TestAgent/1.0".to_string();
    let plan = build_header_plan(&ua, false, true, &Vec::new());
    assert_eq!(plan.len(), 2);
    let (name, value) = plan.last().unwrap();
    assert_eq!(name, "x-forwarded-for");
    let octets: Vec<u32> = value.split('.').map(|o| o.parse().unwrap()).collect();
    assert_eq!(octets.len(), 4);
    for o in octets {
        assert!((1..=254).contains(&o));
    }
}

#[test]
fn header_plan_with_spoofing_draws_from_the_pool() {
    let ua = "TestAgent/1.0".to_string();
    let pool = vec!["A/1".to_string(), "B/2".to_string()];
    let plan = build_header_plan(&ua, true, false, &pool);
    assert!(pool.contains(&plan[0].1));
    let known = [
        "accept",
        "accept-language",
        "accept-encoding",
        "connection",
        "upgrade-insecure-requests",
        "pragma",
        "cache-control",
    ];
    for (name, _) in &plan[1..] {
        assert!(known.contains(&name.as_str()), "{name}");
    }
}

#[test]
fn scan_result_shape_round_trips_fields() {
    let r = ScanResult {
        url: "http://h/a.zip".to_string(),
        status_code: 200,
        content_type: Some("application/zip".to_string()),
        content_length: Some(1234),
        verified: false,
    };
    let c = r.clone();
    assert_eq!(c.url, r.url);
    assert_eq!(c.status_code, 200);
    assert_eq!(c.content_length, Some(1234));
}
