use std::sync::atomic::AtomicBool;
use std::sync::Arc;

use turbolog::http::{
    admission, authorized, body_rejection, default_k, finish, is_probe, overloaded,
    response_status, route, shed_or_admit, worker_count, Admission, HttpMethod, Route,
    ServerConfig, MAX_BODY_BYTES,
};
use turbolog::ingest::{ParsedLog, TemplateCache};
use turbolog::metrics::{
    bucket_for, inc_anomaly, inc_http, inc_http_rejected, inc_ingested, inflight_dec,
    inflight_inc, observe_ingest, render, MetricsRegistry,
};
use turbolog::fnv1a64;
use turbolog::pipeline::{Calibration, CalibrationStep};

fn headers(pairs: &[(&str, &str)]) -> Vec<(String, String)> {
    pairs.iter().map(|(a, b)| (a.to_string(), b.to_string())).collect()
}

#[test]
fn http_routes_and_probes() {
    assert_eq!(route(HttpMethod::Get, "/health"), Route::Health);
    assert_eq!(route(HttpMethod::Get, "/ready"), Route::Ready);
    assert_eq!(route(HttpMethod::Get, "/metrics"), Route::Metrics);
    assert_eq!(route(HttpMethod::Post, "/logs"), Route::Logs);
    assert_eq!(route(HttpMethod::Post, "/search"), Route::Search);
    assert_eq!(route(HttpMethod::Get, "/stats"), Route::Stats);
    assert_eq!(route(HttpMethod::Get, "/logs"), Route::NotFound);
    assert_eq!(route(HttpMethod::Other, "/health"), Route::NotFound);
    assert!(is_probe(HttpMethod::Get, "/metrics"));
    assert!(!is_probe(HttpMethod::Get, "/stats"));
    assert_eq!(default_k(), 5);
    assert_eq!(worker_count(0), 1);
    assert_eq!(worker_count(8), 8);
}

#[test]
fn http_auth_and_admission() {
    let good = headers(&[("Content-Type", "text/plain"), ("authorization", "Bearer secret-token")]);
    let wrong = headers(&[("Authorization", "Bearer wrong")]);
    assert!(authorized(&good, "secret-token"));
    assert!(!authorized(&wrong, "secret-token"));
    assert!(!authorized(&Vec::new(), "secret-token"));
    assert_eq!(admission(HttpMethod::Get, "/stats", Some("secret-token"), &wrong), Admission::Unauthorized);
    assert_eq!(admission(HttpMethod::Get, "/stats", Some("secret-token"), &good), Admission::Proceed);
    assert_eq!(admission(HttpMethod::Get, "/stats", None, &wrong), Admission::Proceed);
    assert_eq!(
        admission(HttpMethod::Get, "/metrics", Some("secret-token"), &wrong),
        Admission::Probe(Route::Metrics)
    );
}

#[test]
fn http_backpressure_and_body_limits() {
    assert!(overloaded(1, 1));
    assert!(!overloaded(1, 0));
    assert!(!overloaded(0, 100));
    assert_eq!(body_rejection(false, 0), Some(400));
    assert_eq!(body_rejection(true, MAX_BODY_BYTES + 1), Some(413));
    assert_eq!(body_rejection(true, MAX_BODY_BYTES), None);
    assert_eq!(MAX_BODY_BYTES, 1024 * 1024);
    let cfg = ServerConfig {
        addr: "127.0.0.1:0".to_string(),
        workers: 0,
        auth_token: Some("secret".to_string()),
        max_inflight: 1,
        shutdown: Arc::new(AtomicBool::new(false)),
    };
    assert_eq!(worker_count(cfg.workers), 1);
}

#[test]
fn metrics_counters_render() {
    let mut reg = MetricsRegistry::new();
    inc_ingested(&mut reg, 5);
    inc_anomaly(&mut reg);
    inc_http(&mut reg, 200);
    inc_http(&mut reg, 404);
    inc_http(&mut reg, 503);
    inc_http(&mut reg, 302);
    inc_http_rejected(&mut reg);
    inflight_inc(&mut reg);
    inflight_inc(&mut reg);
    inflight_dec(&mut reg);
    observe_ingest(&mut reg, 2_300_000);
    let text = render(&reg, &[]);
    assert!(text.contains("# HELP turbolog_ingested_total Logs ingested\n# TYPE turbolog_ingested_total counter\nturbolog_ingested_total 5\n"));
    assert!(text.contains("turbolog_anomalies_total 1\n"));
    assert!(text.contains("turbolog_http_requests_2xx_total 1\n"));
    assert!(text.contains("turbolog_http_requests_4xx_total 1\n"));
    assert!(text.contains("turbolog_http_requests_5xx_total 1\n"));
    assert!(text.contains("turbolog_http_rejected_total 1\n"));
    assert!(text.contains("turbolog_inflight_requests 1\n"));
    assert!(text.contains("turbolog_ingest_latency_seconds_bucket{le=\"0.0025\"} 1\n"));
    assert!(text.contains("turbolog_ingest_latency_seconds_bucket{le=\"0.001\"} 0\n"));
    assert!(text.contains("turbolog_ingest_latency_seconds_sum 0.0023\n"));
    assert!(text.contains("turbolog_search_latency_seconds_count 0\n"));
}

#[test]
fn metrics_inflight_can_go_negative() {
    let mut reg = MetricsRegistry::new();
    inflight_dec(&mut reg);
    assert!(render(&reg, &[]).contains("turbolog_inflight_requests -1\n"));
}

#[test]
fn metrics_bucket_bounds() {
    assert_eq!(bucket_for(0), Some(0));
    assert_eq!(bucket_for(50_000), Some(0));
    assert_eq!(bucket_for(50_001), Some(1));
    assert_eq!(bucket_for(5_000_000_000), Some(15));
    assert_eq!(bucket_for(5_000_000_001), None);
}

#[test]
fn parsed_log_uses_drain_template_or_line() {
    let p = ParsedLog::new("Node 2 is online", Some("Node <*> is online".to_string()), 7);
    assert_eq!(p.template, "Node <*> is online");
    assert_eq!(p.template_id, fnv1a64("Node <*> is online"));
    assert_eq!(p.raw_message, "Node 2 is online");
    assert_eq!(p.timestamp, 7);
    assert!(p.metadata.is_empty());
    let q = ParsedLog::new("plain", None, 0);
    assert_eq!(q.template, "plain");
    assert_eq!(q.template_id, fnv1a64("plain"));
    assert_eq!(fnv1a64(""), 0xcbf29ce484222325);
    assert_eq!(fnv1a64("a"), 0xaf63dc4c8601ec8c);
}

#[test]
fn template_cache_hits_after_insert_and_evicts_when_full() {
    let mut cache = TemplateCache::with_capacity(1);
    assert_eq!(cache.lookup(7), None);
    assert_eq!(cache.misses(), 1);
    assert_eq!(cache.insert(7, 0), None);
    assert_eq!(cache.lookup(7), Some(0));
    assert_eq!(cache.hits(), 1);
    assert_eq!(cache.insert(8, 1), Some(0));
    assert_eq!(cache.lookup(7), None);
    assert_eq!(cache.lookup(8), Some(1));
    assert_eq!(cache.insert(8, 4), Some(1));
    assert_eq!(cache.lookup_by_template("never seen"), None);
    let p = ParsedLog::new("x", None, 0);
    let id = p.template_id;
    cache.insert(id, 9);
    let (back, slot) = cache.parse_and_lookup(p);
    assert_eq!(slot, Some(9));
    assert_eq!(back.template, "x");
    assert_eq!(TemplateCache::new().hits(), 0);
}

#[test]
fn calibration_fits_after_full_sample() {
    let mut c = Calibration::new();
    let mut fits = 0;
    for i in 0..64 {
        let step = c.observe(&format!("template {i}"));
        assert!(step.collect);
        if step.fit_k.is_some() {
            fits += 1;
            assert_eq!(i, 63);
            assert_eq!(step.fit_k, Some(8));
        }
    }
    assert_eq!(fits, 1);
    assert!(c.calibrated());
    assert_eq!(c.calibration_progress(), 64);
    assert_eq!(c.observe("late"), CalibrationStep { collect: false, fit_k: None });
    assert_eq!(c.finalize(), None);
}

#[test]
fn calibration_fits_on_line_budget() {
    let mut c = Calibration::new();
    let seeds = ["user login OK", "request processed in 12ms", "cache hit while fetching key"];
    for i in 0..499 {
        let step = c.observe(seeds[i % 3]);
        assert_eq!(step.fit_k, None);
    }
    assert_eq!(c.lines_seen(), 499);
    let step = c.observe(seeds[499 % 3]);
    assert_eq!(step.fit_k, Some(3));
    assert!(c.calibrated());
}

#[test]
fn calibration_finalize_needs_eight_templates() {
    let mut few = Calibration::new();
    for i in 0..7 {
        few.observe(&format!("t{i}"));
    }
    assert_eq!(few.finalize(), None);
    assert!(!few.calibrated());
    let mut enough = Calibration::new();
    for i in 0..11 {
        enough.observe(&format!("t{i}"));
    }
    enough.observe("t0");
    assert_eq!(enough.calibration_progress(), 11);
    assert_eq!(enough.finalize(), Some(8));
    assert!(enough.calibrated());
}

#[test]
fn http_slots_are_returned_and_statuses_counted() {
    let mut reg = MetricsRegistry::new();
    // limit 1: the first request takes the slot, a concurrent one is shed.
    assert!(shed_or_admit(&mut reg, 1, 0));
    assert!(render(&reg, &[]).contains("turbolog_inflight_requests 1\n"));
    assert!(!shed_or_admit(&mut reg, 1, 1));
    finish(&mut reg, true, 200);
    let text = render(&reg, &[]);
    assert!(text.contains("turbolog_inflight_requests 0\n"));
    assert!(text.contains("turbolog_http_rejected_total 1\n"));
    assert!(text.contains("turbolog_http_requests_5xx_total 1\n"));
    assert!(text.contains("turbolog_http_requests_2xx_total 1\n"));
    // no limit: nothing is held.
    assert!(shed_or_admit(&mut reg, 0, 1000));
    finish(&mut reg, false, 404);
    let text = render(&reg, &[]);
    assert!(text.contains("turbolog_inflight_requests 0\n"));
    assert!(text.contains("turbolog_http_requests_4xx_total 1\n"));
}

#[test]
fn http_response_status_after_body() {
    assert_eq!(response_status(Route::Logs, false, 0, 200), 400);
    assert_eq!(response_status(Route::Logs, true, MAX_BODY_BYTES + 1, 200), 413);
    assert_eq!(response_status(Route::NotFound, true, 10, 200), 404);
    assert_eq!(response_status(Route::Search, true, 10, 400), 400);
    assert_eq!(response_status(Route::Stats, true, 0, 200), 200);
}

#[test]
fn template_cache_evicts_least_recently_used() {
    let mut cache = TemplateCache::with_capacity(2);
    assert_eq!(cache.insert(1, 10), None);
    assert_eq!(cache.insert(2, 20), None);
    // using 1 makes 2 the least recently used
    assert_eq!(cache.lookup(1), Some(10));
    assert_eq!(cache.insert(3, 30), Some(20));
    assert_eq!(cache.lookup(2), None);
    assert_eq!(cache.lookup(1), Some(10));
    assert_eq!(cache.lookup(3), Some(30));
}
