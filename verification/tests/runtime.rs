use macmapd::clients::Clients;
use macmapd::runtime::{escape_label, Shared, Source};
use macmapd::series::{RequestMetrics, IDLE_TTL, PRUNE_INTERVAL};
use std::sync::Arc;

#[test]
fn prometheus_labels_are_escaped() {
    assert_eq!(escape_label("a\"b\\c\nd"), "a\\\"b\\\\c\\nd");
}

#[test]
fn idle_client_metrics_expire_without_resetting_global_counters() {
    let mut shared = Shared::new();
    let now = 10 * IDLE_TTL;
    shared.record_request("old", "retired", "os", "classless", "discover", now);
    shared.record_request("current", "active", "os", "classless", "discover", now);
    let metrics = &mut shared.request_labels;
    for series in &mut metrics.series {
        if series.labels[0] == "old" {
            series.seen = now - IDLE_TTL;
        }
    }
    metrics.last_pruned = None;
    metrics.prune(now);
    assert_eq!(metrics.series.len(), 1);
    assert_eq!(metrics.series[0].labels[0], "current");
    assert_eq!(shared.requests, 2);
}

#[test]
fn pruning_happens_once_a_minute() {
    let mut metrics = RequestMetrics::default();
    metrics.prune(5);
    assert_eq!(metrics.last_pruned, Some(5));
    metrics.prune(5 + PRUNE_INTERVAL - 1);
    assert_eq!(metrics.last_pruned, Some(5));
    metrics.prune(5 + PRUNE_INTERVAL);
    assert_eq!(metrics.last_pruned, Some(5 + PRUNE_INTERVAL));
    metrics.prune(1);
    assert_eq!(metrics.last_pruned, Some(5 + PRUNE_INTERVAL));
}

#[test]
fn series_are_sorted_and_counted() {
    let mut shared = Shared::new();
    for location in ["b", "a", "b", "ab", "a", "b"] {
        shared.record_request(location, "h", "os", "default", "request", 7);
    }
    let series: Vec<(&str, u64)> = shared
        .request_labels
        .series
        .iter()
        .map(|series| (series.labels[0].as_str(), series.count))
        .collect();
    assert_eq!(series, [("a", 2), ("ab", 1), ("b", 3)]);
    shared.record_response("offer");
    shared.record_response("ack");
    shared.record_response("offer");
    let responses: Vec<(&str, u64)> = shared
        .response_labels
        .iter()
        .map(|series| (series.labels[0].as_str(), series.count))
        .collect();
    assert_eq!(responses, [("ack", 1), ("offer", 2)]);
    assert_eq!((shared.requests, shared.responses), (6, 3));
}

#[test]
fn health_requires_dhcp_and_snapshot_but_tolerates_poll_failure() {
    let mut shared = Shared::new();
    assert_eq!(shared.health(100).status, 503);
    shared.dhcp_ready = true;
    assert_eq!(shared.health(100).status, 503);
    shared.snapshot = Some(Arc::new(Clients::default()));
    shared.status.source = Some(Source::State);
    shared.status.last_error = Some("remote unavailable".into());
    let health = shared.health(100);
    assert_eq!(health.status, 200);
    assert!(health.healthy);
    assert_eq!(health.source.unwrap().name(), "state");
    assert!(health.last_successful_sync.is_none());
    assert!(health.data_age_seconds.is_none());
    assert_eq!(health.last_sync_error.as_deref(), Some("remote unavailable"));
    shared.status.data_since = Some(40);
    assert_eq!(shared.health(100).data_age_seconds, Some(60));
    assert_eq!(shared.health(39).data_age_seconds, Some(0));
    shared.dhcp_ready = false;
    assert_eq!(shared.health(100).status, 503);
}

#[test]
fn metrics_include_version_and_headers() {
    let mut shared = Shared::new();
    shared.record_request("dc\"1", "host\"x", "os\\stage", "121\nonly", "discover", 1);
    let text = shared.scrape(1).render("macdack", "1.2.3", 1, "0");
    assert!(text.contains("macdack_build_info{version=\"1.2.3\"} 1"));
    assert!(text.contains(
        "location=\"dc\\\"1\",hostname=\"host\\\"x\",stage=\"os\\\\stage\",route=\"121\\nonly\",message=\"discover\""
    ));
}

#[test]
fn whole_metrics_text() {
    let mut shared = Shared::new();
    shared.record_request("dc1", "host", "os", "classless", "discover", 9);
    shared.record_response("offer");
    shared.record_duration();
    shared.errors = 4;
    shared.snapshot = Some(Arc::new(Clients::default()));
    shared.status.last_success = Some(1700000000);
    let text = shared.scrape(10).metrics("0.1.0", 1700000100, "0.5");
    let expected = "\
# TYPE macmapd_build_info gauge
macmapd_build_info{version=\"0.1.0\"} 1
# TYPE macmapd_requests_total counter
macmapd_requests_total 1
# TYPE macmapd_responses_total counter
macmapd_responses_total 1
# TYPE macmapd_errors_total counter
macmapd_errors_total 4
# TYPE macmapd_unknown_clients_total counter
macmapd_unknown_clients_total 0
# TYPE macmapd_boot_mode_mismatches_total counter
macmapd_boot_mode_mismatches_total 0
# TYPE macmapd_sync_success_total counter
macmapd_sync_success_total 0
# TYPE macmapd_sync_errors_total counter
macmapd_sync_errors_total 0
# TYPE macmapd_state_read_errors_total counter
macmapd_state_read_errors_total 0
# TYPE macmapd_state_write_errors_total counter
macmapd_state_write_errors_total 0
# TYPE macmapd_clients gauge
macmapd_clients 0
# TYPE macmapd_last_successful_sync_timestamp_seconds gauge
macmapd_last_successful_sync_timestamp_seconds 1700000000
# TYPE macmapd_data_age_seconds gauge
macmapd_data_age_seconds NaN
# TYPE macmapd_client_requests_total counter
macmapd_client_requests_total{location=\"dc1\",hostname=\"host\",stage=\"os\",route=\"classless\",message=\"discover\"} 1
# TYPE macmapd_message_responses_total counter
macmapd_message_responses_total{message=\"offer\"} 1
# TYPE macmapd_response_duration_seconds summary
macmapd_response_duration_seconds_count 1
macmapd_response_duration_seconds_sum 0.5
";
    assert_eq!(text, expected);
}

#[test]
fn every_metric_name_begins_with_the_product() {
    let mut shared = Shared::new();
    shared.record_request("dc\n1", "h\nx", "os", "default", "request", 1);
    let text = shared.scrape(1).metrics("1\n2", 1, "0");
    assert!(text.ends_with('\n'));
    for line in text.lines() {
        let name = line.strip_prefix("# TYPE ").unwrap_or(line);
        assert!(name.starts_with("macmapd_"), "{line}");
    }
    assert!(text.contains("macmapd_build_info{version=\"1\\n2\"} 1\n"));
}

#[test]
fn returning_series_start_again() {
    let mut shared = Shared::new();
    shared.record_request("dc1", "h", "os", "default", "request", 1);
    shared.record_request("dc1", "h", "os", "default", "request", 2);
    assert_eq!(shared.request_labels.series[0].count, 2);
    shared.record_request("dc1", "h", "os", "default", "request", 2 + IDLE_TTL);
    assert_eq!(shared.request_labels.series[0].count, 1);
    assert_eq!(shared.requests, 3);
}
