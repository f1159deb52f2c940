//! Gauge lifetimes, refresh periods and what is recorded of a request.
use buzz_relay::buckets::Matcher;
use buzz_relay::config::{Config, MediaConfig};
use buzz_relay::metrics::{
    ages_out, emit_policy_gauges, idle_timeout_secs, install, policy_gauge_refresh_secs, track_metrics,
    usage_metrics_idle_timeout_secs, usage_metrics_interval_secs, MetricKind,
    POLICY_GAUGE_REFRESHES_PER_WINDOW, USAGE_METRICS_MIN_INTERVAL_SECS,
};

#[test]
fn the_idle_window_outlives_three_usage_poller_ticks() {
    assert_eq!(idle_timeout_secs(None, 300), 900);
    assert_eq!(idle_timeout_secs(Some(10), 1_000), 3_000);
}

/// The cadence has to fit every window the relay can be given, so sweep the
/// reachable domain through the production helpers, not one chosen pair.
#[test]
fn the_policy_refresh_fits_inside_every_reachable_idle_window() {
    let intervals = [
        USAGE_METRICS_MIN_INTERVAL_SECS,
        USAGE_METRICS_MIN_INTERVAL_SECS + 1,
        300,
        3_600,
        u64::MAX,
    ];
    for interval_secs in intervals {
        for configured in [None, Some(0), Some(1), Some(15), Some(900), Some(u64::MAX)] {
            let window = idle_timeout_secs(configured, interval_secs);
            let refresh = policy_gauge_refresh_secs(window);
            assert!(refresh > 0, "tokio::time::interval panics on a zero period");
            assert!(
                refresh * POLICY_GAUGE_REFRESHES_PER_WINDOW <= window,
                "a {refresh}s refresh must fit {POLICY_GAUGE_REFRESHES_PER_WINDOW} times \
                 into a {window}s window (interval {interval_secs}s, configured {configured:?})"
            );
        }
    }
}

#[test]
fn settings_are_read_with_their_defaults_and_floors() {
    assert_eq!(usage_metrics_interval_secs(None), 300);
    assert_eq!(usage_metrics_interval_secs(Some("60")), 60);
    assert_eq!(usage_metrics_interval_secs(Some("0")), 5);
    assert_eq!(usage_metrics_interval_secs(Some("4")), 5);
    for bad in ["", "x", "-1", " 60", "18446744073709551616"] {
        assert_eq!(usage_metrics_interval_secs(Some(bad)), 300, "{bad:?}");
    }
    assert_eq!(usage_metrics_idle_timeout_secs(None, 5), 900);
    assert_eq!(usage_metrics_idle_timeout_secs(Some("1000"), 5), 1_000);
    assert_eq!(usage_metrics_idle_timeout_secs(Some("1000"), 500), 1_500);
    assert_eq!(usage_metrics_idle_timeout_secs(Some("nope"), 1), 900);
    assert_eq!(usage_metrics_idle_timeout_secs(None, u64::MAX), u64::MAX);
    assert_eq!(policy_gauge_refresh_secs(0), 1);
    assert_eq!(policy_gauge_refresh_secs(15), 5);
}

fn config(audit_enabled: bool, permessage_deflate_enabled: bool) -> Config {
    Config {
        audit_enabled,
        permessage_deflate_enabled,
        max_frame_bytes: 1,
        serve_git_web_gui: false,
        web_dir: None,
        admin: None,
        cors_origins: Vec::new(),
        media: MediaConfig { max_image_bytes: 1, max_video_bytes: 1 },
    }
}

#[test]
fn policy_gauges_tell_the_two_policies_apart() {
    let writes = emit_policy_gauges(&config(true, false));
    let list: Vec<(&str, u32)> = writes.iter().map(|w| (w.name.as_str(), w.value)).collect();
    assert_eq!(
        list,
        vec![("buzz_audit_enabled", 1), ("buzz_permessage_deflate_enabled", 0)]
    );
    let writes = emit_policy_gauges(&config(false, true));
    assert_eq!((writes[0].value, writes[1].value), (0, 1));
}

#[test]
fn probes_and_unmatched_requests_are_not_recorded() {
    for path in [None, Some("/_liveness"), Some("/_"), Some("/health"), Some("/metrics")] {
        assert!(track_metrics(path, &None).is_none(), "{path:?}");
    }
    for path in ["/", "/healthz", "/metrics/x", "/events"] {
        assert_eq!(track_metrics(Some(path), &None).unwrap().action, path);
    }
}

#[test]
fn callers_are_service_names_or_unknown() {
    let caller = |value: &[u8]| {
        track_metrics(Some("/events"), &Some(value.to_vec())).unwrap().caller
    };
    assert_eq!(track_metrics(Some("/events"), &None).unwrap().caller, "unknown");
    assert_eq!(caller(b"Svc-1_a"), "Svc-1_a");
    assert_eq!(caller(b""), "");
    assert_eq!(caller(&[b'a'; 64]), "a".repeat(64));
    assert_eq!(caller(&[b'a'; 65]), "unknown");
    assert_eq!(caller(b"a b"), "unknown");
    assert_eq!(caller(b"a/b"), "unknown");
    assert_eq!(caller(&[0xff]), "unknown");
}

#[test]
fn a_series_has_three_labels() {
    let recorded = track_metrics(Some("/query"), &Some(b"svc".to_vec())).unwrap();
    let labels: Vec<(String, String)> = recorded
        .labels(404)
        .into_iter()
        .map(|l| (l.key, l.value))
        .collect();
    let expected = [("code", "404"), ("caller", "svc"), ("action", "/query")];
    for (label, (key, value)) in labels.iter().zip(expected) {
        assert_eq!((label.0.as_str(), label.1.as_str()), (key, value));
    }
    assert_eq!(labels.len(), 3);
}

#[test]
fn only_gauges_age_out() {
    assert!(ages_out(MetricKind::Gauge));
    assert!(!ages_out(MetricKind::Counter));
    assert!(!ages_out(MetricKind::Histogram));
}

#[test]
fn the_recorder_is_set_up_with_buckets_per_metric() {
    let recorder = install(9102, 900);
    assert_eq!((recorder.port, recorder.gauge_idle_timeout_secs), (9102, 900));
    assert_eq!(recorder.address, [0, 0, 0, 0]);
    assert_eq!(recorder.rules.len(), 14);
    let bounds = |name: &str| {
        recorder
            .rules
            .iter()
            .find(|rule| match &rule.matcher {
                Matcher::Full(full) => full == name,
                Matcher::Suffix(_) => false,
            })
            .map(|rule| rule.bounds.iter().map(|b| *b as f64 / 1000.0).collect::<Vec<f64>>())
            .unwrap()
    };
    assert_eq!(
        bounds("http_request_latency_ms"),
        vec![5.0, 10.0, 25.0, 50.0, 100.0, 250.0, 500.0, 1000.0, 2500.0, 5000.0, 10000.0]
    );
    for name in [
        "buzz_git_hydrate_seconds",
        "buzz_git_upload_pack_stream_seconds",
        "buzz_git_pack_cache_populate_seconds",
        "buzz_git_pack_cache_population_wait_seconds",
        "buzz_git_pack_compaction_seconds",
    ] {
        assert_eq!(
            bounds(name),
            vec![0.01, 0.05, 0.1, 0.25, 0.5, 1.0, 2.5, 5.0, 10.0, 30.0, 60.0, 120.0, 300.0]
        );
    }
    let mib = 1024.0 * 1024.0;
    for name in [
        "buzz_git_hydrate_bytes",
        "buzz_git_upload_pack_stream_bytes",
        "buzz_git_pack_compaction_bytes",
    ] {
        assert_eq!(
            bounds(name),
            vec![
                0.0,
                64.0 * 1024.0,
                mib,
                10.0 * mib,
                50.0 * mib,
                100.0 * mib,
                250.0 * mib,
                500.0 * mib,
                1024.0 * mib
            ]
        );
    }
    for name in [
        "buzz_git_hydrate_packs",
        "buzz_git_pack_compaction_packs_before",
        "buzz_git_pack_compaction_packs_after",
    ] {
        assert_eq!(bounds(name), vec![0.0, 1.0, 2.0, 4.0, 8.0, 16.0, 32.0, 64.0, 128.0]);
    }
    assert_eq!(
        bounds("buzz_fanout_recipients"),
        vec![0.0, 1.0, 5.0, 10.0, 25.0, 50.0, 100.0, 500.0, 1000.0]
    );
    let suffixes: Vec<(&str, Vec<f64>)> = recorder
        .rules
        .iter()
        .filter_map(|rule| match &rule.matcher {
            Matcher::Suffix(end) => Some((
                end.as_str(),
                rule.bounds.iter().map(|b| *b as f64 / 1000.0).collect(),
            )),
            Matcher::Full(_) => None,
        })
        .collect();
    assert_eq!(
        suffixes,
        vec![(
            "_seconds",
            vec![0.001, 0.005, 0.01, 0.025, 0.05, 0.1, 0.25, 0.5, 1.0, 5.0]
        )]
    );
    for rule in &recorder.rules {
        assert!(rule.bounds.windows(2).all(|w| w[0] < w[1]));
    }
}
