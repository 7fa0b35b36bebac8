use turbolog::cli::{
    days_to_ymd, exit_for_anomalies, format_timestamp, history_text, parse_duration,
    recurring_text, truncate_display, HistoryRow, RecurringRow, ShellName, EXIT_ANOMALIES,
    EXIT_ERROR, EXIT_OK,
};
use turbolog::history::{millis_of_nanos, nanos_or_zero, secs_of_nanos};
use turbolog::llm::choose_client;
use turbolog::scan::{scan_stats, tally, ScanLine};
use turbolog::diagnose::{build_diagnose_prompt, diagnose_text, truncate_line, TemplateSummary};
use turbolog::history::{context_message, format_age, now_millis, now_nanos, now_secs};
use turbolog::llm::{
    candidate_url, configured_url, models_url, reply_text, user_content, LlmClient,
    CANDIDATE_COUNT, SYSTEM_PROMPT,
};
use turbolog::scan::{
    calibration_status, count_distinct, rate_text, text_report, top_indices, CalibrationStatus,
    ScanSummary, TopAnomaly,
};
use turbolog::tui::{key_event, log_prefix, uptime_text, DashMode, KeyEvent, KeyInput, Window};
use turbolog::watch::{
    anomaly_line, calibrating_line, calibration_complete_message, calibration_just_completed,
    explanation_line, recurring_line, use_color, watch_line, WatchLine, WatchOptions, WatchStats,
};

#[test]
fn parse_duration_reads_units_and_plain_seconds() {
    assert_eq!(parse_duration("7d"), Some(604_800));
    assert_eq!(parse_duration("24h"), Some(86_400));
    assert_eq!(parse_duration("30m"), Some(1_800));
    assert_eq!(parse_duration("90"), Some(90));
    assert_eq!(parse_duration(" 2h "), Some(7_200));
    assert_eq!(parse_duration("-1h"), Some(-3_600));
    assert_eq!(parse_duration("-9223372036854775808"), Some(i64::MIN));
    assert_eq!(parse_duration("-9223372036854775808m"), None);
    assert_eq!(parse_duration(" 30m "), Some(1_800));
}

#[test]
fn parse_duration_rejects_bad_and_overflowing_values() {
    assert_eq!(parse_duration("abc"), None);
    assert_eq!(parse_duration("d"), None);
    assert_eq!(parse_duration("1w"), None);
    assert_eq!(parse_duration(""), None);
    assert_eq!(parse_duration("9223372036854775807d"), None);
    assert_eq!(parse_duration("9223372036854775808"), None);
}

#[test]
fn days_to_ymd_known_dates() {
    assert_eq!(days_to_ymd(0), (1970, 1, 1));
    assert_eq!(days_to_ymd(19_723), (2024, 1, 1));
    assert_eq!(days_to_ymd(19_782), (2024, 2, 29));
    assert_eq!(days_to_ymd(11_016), (2000, 2, 29));
    assert_eq!(days_to_ymd(11_017), (2000, 3, 1));
    assert_eq!(days_to_ymd(10_956), (1999, 12, 31));
}

#[test]
fn format_timestamp_renders_utc() {
    assert_eq!(format_timestamp(0), "1970-01-01 00:00:00");
    assert_eq!(format_timestamp(1_700_000_000), "2023-11-14 22:13:20");
    assert_eq!(format_timestamp(-5), "1970-01-01 00:00:00");
    assert_eq!(format_timestamp(951_782_400), "2000-02-29 00:00:00");
}

#[test]
fn truncate_display_keeps_max_chars_then_ellipsis() {
    assert_eq!(truncate_display("abcdef", 3), "abc…");
    assert_eq!(truncate_display("abc", 3), "abc");
    assert_eq!(truncate_display("héllo", 2), "hé…");
}

#[test]
fn exit_codes_follow_anomalies() {
    assert_eq!(EXIT_OK, 0);
    assert_eq!(EXIT_ANOMALIES, 1);
    assert_eq!(EXIT_ERROR, 2);
    assert_eq!(exit_for_anomalies(WatchStats { anomaly_count: 0, lines_processed: 3 }), 0);
    assert_eq!(exit_for_anomalies(WatchStats { anomaly_count: 2, lines_processed: 3 }), 1);
    assert_ne!(ShellName::Bash, ShellName::Zsh);
}

#[test]
fn watch_stats_count_lines_and_anomalies() {
    let mut stats = WatchStats::new();
    stats.record(false);
    stats.record(true);
    stats.record(false);
    assert_eq!(stats.lines_processed, 3);
    assert_eq!(stats.anomaly_count, 1);
}

#[test]
fn watch_line_decisions() {
    let plain = WatchOptions { only_anomalies: false, quiet: false };
    let quiet = WatchOptions { only_anomalies: false, quiet: true };
    let only = WatchOptions { only_anomalies: true, quiet: true };
    assert_eq!(watch_line(true, false, false, &plain), WatchLine::Blank);
    assert_eq!(watch_line(true, false, false, &only), WatchLine::Hidden);
    assert_eq!(watch_line(false, true, true, &only), WatchLine::Anomaly);
    assert_eq!(watch_line(false, false, false, &plain), WatchLine::Calibrating);
    assert_eq!(watch_line(false, false, false, &quiet), WatchLine::Plain);
    assert_eq!(watch_line(false, false, false, &only), WatchLine::Hidden);
    assert_eq!(watch_line(false, true, false, &plain), WatchLine::Plain);
    assert_eq!(watch_line(false, true, false, &only), WatchLine::Hidden);
}

#[test]
fn watch_lines_text() {
    assert_eq!(anomaly_line("OOM killer", "0.91", false), "[ANOMALY 0.91] OOM killer");
    assert_eq!(
        anomaly_line("OOM killer", "0.91", true),
        "\x1b[31m[ANOMALY 0.91]\x1b[0m OOM killer"
    );
    assert_eq!(recurring_line(false), "  ↻ recurring pattern");
    assert_eq!(explanation_line(Some("Memory exhausted."), false), "  └─ Memory exhausted.");
    assert_eq!(explanation_line(None, false), "  └─ (LLM explanation unavailable)");
    assert_eq!(calibrating_line("app started", 1, false), "[calibrating 1/64] app started");
    assert_eq!(
        calibrating_line("app started", 7, true),
        "\x1b[2m[calibrating 7/64]\x1b[0m app started"
    );
    let done = calibration_complete_message(Some("10.000"), false);
    assert_eq!(done, "[turbolog] calibration complete — anomaly detection active (threshold=10.000)");
    assert!(done.contains("calibration complete") && done.contains("threshold=10.000"));
    assert_eq!(
        calibration_complete_message(None, false),
        "[turbolog] calibration complete — anomaly detection active"
    );
}

#[test]
fn watch_color_and_completion_switches() {
    assert!(use_color(false, true, false));
    assert!(!use_color(true, true, false));
    assert!(!use_color(false, false, false));
    assert!(!use_color(false, true, true));
    assert!(calibration_just_completed(false, false, true));
    assert!(!calibration_just_completed(true, false, true));
    assert!(!calibration_just_completed(false, true, true));
}

#[test]
fn scan_rate_text_rounds_to_nearest_even_hundredth() {
    assert_eq!(rate_text(12, 8432), "0.14");
    assert_eq!(rate_text(1, 3), "33.33");
    assert_eq!(rate_text(2, 3), "66.67");
    assert_eq!(rate_text(1, 8), "12.50");
    // exact halves go to the even neighbour, as `{:.2}` does
    assert_eq!(rate_text(1, 32), "3.12");
    assert_eq!(rate_text(3, 32), "9.38");
    assert_eq!(rate_text(1, 800), "0.12");
    assert_eq!(rate_text(0, 0), "0.00");
    assert_eq!(rate_text(5, 5), "100.00");
}

#[test]
fn scan_top_indices_sorts_by_key_stably() {
    assert_eq!(top_indices(&vec![5, 9, 9, 1], 2), vec![1, 2]);
    assert_eq!(top_indices(&vec![3, 1, 2], 10), vec![0, 2, 1]);
    assert_eq!(top_indices(&vec![4, 4, 4], 2), vec![0, 1]);
    assert_eq!(top_indices(&vec![], 10), Vec::<usize>::new());
}

#[test]
fn scan_counts_distinct_templates_and_status() {
    let t = |s: &str| s.to_string();
    assert_eq!(count_distinct(&vec![t("a"), t("b"), t("a"), t("c"), t("b")]), 3);
    assert_eq!(count_distinct(&vec![]), 0);
    assert_eq!(calibration_status(true, true), CalibrationStatus::StreamingTrigger);
    assert_eq!(calibration_status(false, true), CalibrationStatus::EofFinalized);
    assert_eq!(calibration_status(false, false), CalibrationStatus::NotEnoughData);
    assert_eq!(CalibrationStatus::EofFinalized.as_json(), "eof_finalized");
    assert_eq!(CalibrationStatus::StreamingTrigger.as_json(), "streaming_trigger");
    assert_eq!(CalibrationStatus::NotEnoughData.as_json(), "not_enough_data");
}

#[test]
fn scan_text_report_lists_top_anomalies() {
    let summary = ScanSummary {
        total: 3,
        templates: 2,
        anomalies: 1,
        status: CalibrationStatus::EofFinalized,
        threshold_text: Some("10.000".to_string()),
        top: vec![TopAnomaly {
            line: "OOM killer activated".to_string(),
            score_text: "0.94".to_string(),
            explanation: Some("Memory pressure.".to_string()),
        }],
    };
    assert_eq!(
        text_report(&summary),
        "\n--- TurboLog Scan Report ---\nLines processed : 3\nTemplates found : 2\n\
         Anomalies       : 1 (33.33%)\n\
         Calibration     : complete (EOF finalize, threshold=10.000)\n\nTop anomalies:\n\
         \x20 [score=0.94] OOM killer activated\n    └─ Memory pressure.\n\n"
    );
}

#[test]
fn scan_text_report_without_anomalies() {
    let summary = ScanSummary {
        total: 2,
        templates: 1,
        anomalies: 0,
        status: CalibrationStatus::StreamingTrigger,
        threshold_text: None,
        top: Vec::new(),
    };
    let text = text_report(&summary);
    assert!(text.contains("Calibration     : complete (streaming trigger)\n"));
    assert!(text.contains("Anomalies       : 0 (0.00%)\n"));
    assert!(text.ends_with("\nNo anomalies detected.\n\n"));
}

#[test]
fn scan_report_cuts_long_lines() {
    let long = "x".repeat(130);
    let summary = ScanSummary {
        total: 1,
        templates: 1,
        anomalies: 1,
        status: CalibrationStatus::StreamingTrigger,
        threshold_text: Some("0.500".to_string()),
        top: vec![TopAnomaly { line: long, score_text: "1.00".to_string(), explanation: None }],
    };
    let text = text_report(&summary);
    let expected = format!("  [score=1.00] {}…\n", "x".repeat(119));
    assert!(text.contains(&expected));
}

#[test]
fn llm_client_configuration() {
    let c = LlmClient::configured("http://127.0.0.1:11434//", Some("mistral"));
    assert_eq!(c.base_url(), "http://127.0.0.1:11434");
    assert_eq!(c.model(), "mistral");
    assert_eq!(c.chat_url(), "http://127.0.0.1:11434/v1/chat/completions");
    let d = LlmClient::configured("http://host:8080", None);
    assert_eq!(d.model(), "llama3.2");
    assert_eq!(CANDIDATE_COUNT, 2);
    assert_eq!(candidate_url(0), "http://localhost:11434");
    let lm = LlmClient::from_candidate(1, None);
    assert_eq!(lm.base_url(), "http://localhost:1234");
    assert_eq!(lm.model(), "local-model");
    assert_eq!(models_url("http://localhost:1234"), "http://localhost:1234/v1/models");
    assert_eq!(configured_url(Some("a"), Some("b")), Some("a"));
    assert_eq!(configured_url(None, Some("b")), Some("b"));
    assert_eq!(configured_url(None, None), None);
    assert!(SYSTEM_PROMPT.contains("1-2 sentences"));
}

#[test]
fn llm_prompt_and_reply() {
    assert_eq!(
        user_content("disk full", "0.87", Some("seen 3×")),
        "Context: seen 3×\n\nAnomalous log line (score: 0.87, higher = more unusual):\n\ndisk full"
    );
    assert_eq!(
        user_content("disk full", "0.87", None),
        "Anomalous log line (score: 0.87, higher = more unusual):\n\ndisk full"
    );
    assert_eq!(reply_text(Some("  Check the disk.\n")), Some("Check the disk.".to_string()));
    assert_eq!(reply_text(Some(" \n ")), None);
    assert_eq!(reply_text(None), None);
}

#[test]
fn history_age_and_context() {
    assert_eq!(format_age(42), "42s ago");
    assert_eq!(format_age(300), "5m ago");
    assert_eq!(format_age(7_200), "2h ago");
    assert_eq!(format_age(172_800), "2d ago");
    assert_eq!(format_age(-5), "0s ago");
    assert_eq!(
        context_message(3, 7_200),
        Some("This log pattern has occurred 3× in the last 7 days (last seen: 2h ago)".to_string())
    );
    assert_eq!(context_message(0, 10), None);
}

#[test]
fn clock_reads_are_after_2020() {
    assert!(now_secs() > 1_600_000_000);
    assert!(now_millis() > 1_600_000_000_000);
    assert!(now_nanos() > 1_600_000_000_000_000_000);
}

#[test]
fn diagnose_prompt_lists_patterns() {
    assert_eq!(truncate_line("abcdef", 4), "abc…");
    assert_eq!(truncate_line("abc", 4), "abc");
    let patterns = vec![TemplateSummary {
        count: 3,
        avg_score_text: "0.91".to_string(),
        template: "db <*> failed".to_string(),
        last_seen: 0,
        sample_line: "db primary failed".to_string(),
    }];
    let prompt = build_diagnose_prompt("24h", &patterns);
    assert_eq!(
        prompt,
        "Anomaly patterns from the last 24h (grouped by log template):\n\
         1. 3× avg_score=0.91 template=\"db <*> failed\" example=\"db primary failed\"\n\
         In 2-3 sentences: what is the most likely root cause and what should the developer check first? No markdown, no preamble."
    );
}

#[test]
fn tui_window_keeps_latest_items() {
    let mut w: Window<u32> = Window::new(2);
    w.push(1);
    w.push(2);
    w.push(3);
    assert_eq!(w.items(), &vec![2, 3]);
    assert_eq!(w.len(), 2);
    let mut s = Window::zeros(3);
    s.push(5);
    assert_eq!(s.items(), &vec![0, 0, 5]);
}

#[test]
fn tui_keys_and_texts() {
    assert_eq!(key_event(KeyInput::Char('q'), false), Some(KeyEvent::Quit));
    assert_eq!(key_event(KeyInput::Esc, false), Some(KeyEvent::Quit));
    assert_eq!(key_event(KeyInput::Char('c'), true), Some(KeyEvent::Quit));
    assert_eq!(key_event(KeyInput::Char('c'), false), None);
    assert_eq!(key_event(KeyInput::Other, true), None);
    assert_eq!(uptime_text(3_725), "1h02m05s");
    assert_eq!(uptime_text(59), "0h00m59s");
    assert_eq!(log_prefix(true, Some("0.91")), "[ANOMALY 0.91] ");
    assert_eq!(log_prefix(false, Some("0.10")), "");
    assert_eq!(log_prefix(false, None), "[calibrating] ");
    assert_ne!(DashMode::HttpClient, DashMode::Standalone);
}

#[test]
fn history_text_lists_rows_and_total() {
    assert_eq!(history_text("24h", &Vec::new()), "No anomalies found in the last 24h.\n");
    let rows = vec![
        HistoryRow {
            timestamp: 1_700_000_000,
            score_text: "0.91".to_string(),
            line: "db connection failed".to_string(),
            explanation: Some("Check the pool.".to_string()),
        },
        HistoryRow { timestamp: 0, score_text: "0.55".to_string(), line: "x".repeat(61), explanation: None },
    ];
    let expected = format!(
        "\n--- TurboLog History (last 7d) ---\n  {:<20}  {:<6}  line\n  {}\n\
         \x20 2023-11-14 22:13:20   0.91    db connection failed\n    └─ Check the pool.\n\
         \x20 1970-01-01 00:00:00   0.55    {}…\n\nTotal: 2 anomalies\n\n",
        "time",
        "score",
        "-".repeat(72),
        "x".repeat(59)
    );
    assert_eq!(history_text("7d", &rows), expected);
    let one = vec![HistoryRow { timestamp: 0, score_text: "1.00".to_string(), line: "l".to_string(), explanation: None }];
    assert!(history_text("7d", &one).contains("Total: 1 anomaly\n"));
}

#[test]
fn recurring_text_lists_templates() {
    assert_eq!(
        recurring_text("7d", &Vec::new()),
        "No recurring anomalies found in the last 7d.\n"
    );
    let rows = vec![RecurringRow {
        count: 3,
        last_seen: 1_700_000_000,
        max_score_text: "0.91".to_string(),
        template: "db connection failed".to_string(),
        sample_line: "db connection failed host=replica".to_string(),
    }];
    let text = recurring_text("7d", &rows);
    assert!(text.starts_with("\n--- TurboLog Recurring History (last 7d) ---\n"));
    assert!(text.contains("  count   last seen             max score  template\n"));
    assert!(text.contains("  3       2023-11-14 22:13:20   0.91       db connection failed\n"));
    assert!(text.contains("    └─ sample: db connection failed host=replica\n"));
    assert!(text.ends_with("\nTotal: 1 recurring template\n\n"));
}

#[test]
fn clock_arithmetic() {
    assert_eq!(nanos_or_zero(Some(7)), 7);
    assert_eq!(nanos_or_zero(None), 0);
    assert_eq!(secs_of_nanos(1_700_000_000_999_999_999), 1_700_000_000);
    assert_eq!(millis_of_nanos(1_700_000_000_999_999_999), 1_700_000_000_999);
}

#[test]
fn llm_client_choice() {
    let c = choose_client(Some("http://h/"), Some("http://env"), None, Some("m-env"), &vec![true]).unwrap();
    assert_eq!(c.base_url(), "http://h");
    assert_eq!(c.model(), "m-env");
    let c = choose_client(None, None, None, None, &vec![false, true]).unwrap();
    assert_eq!(c.base_url(), "http://localhost:1234");
    assert_eq!(c.model(), "local-model");
    let c = choose_client(None, None, Some("mistral"), None, &vec![true]).unwrap();
    assert_eq!(c.base_url(), "http://localhost:11434");
    assert_eq!(c.model(), "mistral");
    assert!(choose_client(None, None, None, None, &vec![false, false]).is_none());
    assert!(choose_client(None, None, None, None, &vec![]).is_none());
}

#[test]
fn scan_tally_counts_and_ranks() {
    let line = |t: &str, a: bool, k: u32| ScanLine { template: t.to_string(), is_anomaly: a, score_key: k };
    let lines = vec![line("a", false, 1), line("b", true, 5), line("a", true, 9), line("c", true, 5), line("b", false, 0)];
    let t = tally(&lines);
    assert_eq!(t.total, 5);
    assert_eq!(t.templates, 3);
    assert_eq!(t.anomalies, vec![1, 2, 3]);
    assert_eq!(t.top, vec![2, 1, 3]);
    assert_eq!(scan_stats(&t).anomaly_count, 3);
}

#[test]
fn diagnose_text_report() {
    assert_eq!(
        diagnose_text("24h", &Vec::new(), None),
        "\n--- TurboLog Diagnose (last 24h) ---\nNo anomalies recorded in this window.\n\n"
    );
    let ps = vec![
        TemplateSummary {
            count: 3,
            avg_score_text: "0.91".to_string(),
            template: "db <*> failed".to_string(),
            last_seen: 0,
            sample_line: "db primary failed".to_string(),
        },
        TemplateSummary {
            count: 1,
            avg_score_text: "0.40".to_string(),
            template: "cache miss".to_string(),
            last_seen: 0,
            sample_line: "cache miss key=s".to_string(),
        },
    ];
    assert_eq!(
        diagnose_text("24h", &ps, Some("Check the database.")),
        "\n--- TurboLog Diagnose (last 24h) ---\nTotal anomalies : 4\n\nPatterns (by frequency):\n\
         \x20 3×  [avg 0.91]  db <*> failed\n       e.g. db primary failed\n\
         \x20 1×  [avg 0.40]  cache miss\n       e.g. cache miss key=s\n\
         \nLikely focus:\n  → \"db <*> failed\" (3 occurrences)\n\nSummary:\n  Check the database.\n\n"
    );
}
