use turbolog::cli::exit_for_scan;
use turbolog::embedded::{env_flag_enabled, offline_model_message};
use turbolog::fnv1a64;
use turbolog::metrics::{render, Histogram, MetricsRegistry};
use turbolog::scan::{calibration_status, scan_stats, tally, text_report, ScanLine, ScanSummary};

#[test]
fn fnv1a64_deterministic() {
    assert_eq!(fnv1a64("Node <*> is online"), fnv1a64("Node <*> is online"));
    assert_ne!(fnv1a64("Node <*> is online"), fnv1a64("Node <*> offline"));
}

#[test]
fn env_flag_enabled_accepts_common_truthy_values() {
    for value in ["1", "true", "yes", "on", "anything"] {
        assert!(env_flag_enabled(value));
    }
}

#[test]
fn env_flag_enabled_rejects_common_falsey_values() {
    for value in ["", "0", "false", "no", "off", " OFF "] {
        assert!(!env_flag_enabled(value));
    }
}

#[test]
fn offline_model_message_points_to_model_sources() {
    let message = offline_model_message("/tmp/turbolog-models");
    assert!(message.contains("TURBOLOG_OFFLINE=1"));
    assert!(message.contains("TURBOLOG_MODEL_DIR"));
    assert!(message.contains("model.onnx"));
    assert!(message.contains("tokenizer.json"));
    assert!(message.contains("/tmp/turbolog-models"));
}

fn observe_seconds(h: &mut Histogram, seconds: f64) {
    let nanos = (seconds * 1e9) as u64;
    h.observe(nanos);
}

#[test]
fn histogram_buckets_are_cumulative() {
    let mut h = Histogram::new();
    observe_seconds(&mut h, 0.0003); // falls in le=0.0005
    observe_seconds(&mut h, 0.002); // falls in le=0.0025
    observe_seconds(&mut h, 10.0); // beyond last finite bucket -> only +Inf
    let mut out = String::new();
    h.render("t", "test", &mut out);
    assert!(out.contains("t_count 3"));
    assert!(out.contains("t_bucket{le=\"+Inf\"} 3"));
    // cumulative: le=0.0005 has 1, le=0.0025 has 2
    assert!(out.contains("t_bucket{le=\"0.0005\"} 1"));
    assert!(out.contains("t_bucket{le=\"0.0025\"} 2"));
}

#[test]
fn render_includes_extra_gauges() {
    let reg = MetricsRegistry::new();
    // The gauge value 0.95 as the server renders it.
    let text = render(&reg, &[("turbolog_cache_hit_rate", "Cache hit rate", "0.95")]);
    assert!(text.contains("turbolog_cache_hit_rate 0.95"));
    assert!(text.contains("turbolog_ingested_total"));
}

#[test]
fn scan_text_report_contains_summary() {
    // Five identical lines: one template, too few to calibrate at EOF, so
    // no line is scored and none is an anomaly.
    let input = "INFO user login success\n".repeat(5);
    let lines: Vec<ScanLine> = input
        .lines()
        .map(|l| ScanLine { template: l.to_string(), is_anomaly: false, score_key: 0 })
        .collect();
    let counts = tally(&lines);
    let summary = ScanSummary {
        total: counts.total,
        templates: counts.templates,
        anomalies: counts.anomalies.len(),
        status: calibration_status(false, false),
        threshold_text: None,
        top: Vec::new(),
    };
    let code = exit_for_scan(scan_stats(&counts));
    assert_eq!(code, 0, "turbolog scan should exit 0 when no anomalies");
    let stdout = text_report(&summary);
    assert!(
        stdout.contains("Lines processed"),
        "text report should contain 'Lines processed': {stdout}"
    );
    assert!(
        stdout.contains("Templates found"),
        "text report should contain 'Templates found': {stdout}"
    );
    assert!(
        stdout.contains("Calibration     : incomplete"),
        "small uniform input should explain that calibration is incomplete: {stdout}"
    );
}
