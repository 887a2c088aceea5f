use ff_eval_core::{
    analyze, AdapterBinding, Bindings, NetworkAdapter, NetworkResponse, RetryAdapter, ThreadManager,
};
use ff_eval_core::tagger::Input;
use std::cell::Cell;
use std::collections::HashMap;

struct Scripted {
    statuses: Vec<u16>,
    calls: Cell<usize>,
}

impl NetworkAdapter for Scripted {
    fn fetch(&self, _url: &str, _headers: &HashMap<String, String>) -> anyhow::Result<NetworkResponse> {
        let n = self.calls.get();
        self.calls.set(n + 1);
        let status = self.statuses[n.min(self.statuses.len() - 1)];
        if status == 0 {
            return Err(anyhow::Error::msg("connection refused"));
        }
        Ok(NetworkResponse { status, headers: HashMap::new(), body: String::new() })
    }
}

#[test]
fn retry_stops_at_first_success() {
    let inner = Scripted { statuses: vec![500, 0, 200, 500], calls: Cell::new(0) };
    let adapter = RetryAdapter::new(inner, 3);
    let resp = adapter.fetch("u", &HashMap::new()).unwrap();
    assert_eq!(resp.status, 200);
}

#[test]
fn retry_gives_up_after_max_retries() {
    let inner = Scripted { statuses: vec![503], calls: Cell::new(0) };
    let adapter = RetryAdapter::new(inner, 2);
    let resp = adapter.fetch("u", &HashMap::new()).unwrap();
    assert_eq!(resp.status, 503);
    let failing = RetryAdapter::new(Scripted { statuses: vec![0], calls: Cell::new(0) }, 0);
    assert!(failing.fetch("u", &HashMap::new()).is_err());
}

#[test]
fn run_sync_returns_the_task_result() {
    let tm = ThreadManager::new();
    assert_eq!(tm.run_sync(|| 41 + 1), 42);
}

#[test]
fn bindings_copy_the_adapter_binding() {
    let b = AdapterBinding { impl_name: "test-impl".to_string(), host: "native".to_string() };
    let bs = Bindings::from_binding(&b);
    assert_eq!(bs.network_fetch.impl_name, "test-impl");
    assert_eq!(bs.network_fetch.host, "native");
}

#[test]
fn tagger_tags_by_parity() {
    let out = analyze(Input { id: "a".to_string(), bytes: vec![1, 2] });
    assert_eq!(out.id, "a");
    assert_eq!(out.tags, vec!["odd".to_string(), "low-entropy".to_string()]);
    let out = analyze(Input { id: "b".to_string(), bytes: vec![1, 3, 255, 255] });
    assert_eq!(out.tags, vec!["even".to_string(), "low-entropy".to_string()]);
    let out = analyze(Input { id: "c".to_string(), bytes: vec![] });
    assert_eq!(out.tags[0], "even");
}

#[test]
fn test_event_bus_increment() {
    let mut bus = ff_eval_core::EventBus::new();
    assert_eq!(bus.clock, 0);
    bus.emit("start", serde_json::Value::Object(serde_json::Map::new()));
    assert_eq!(bus.clock, 1);
    bus.emit("next", serde_json::Value::Object(serde_json::Map::new()));
    assert_eq!(bus.clock, 2);
    assert_eq!(bus.events.len(), 2);
}

#[test]
fn events_carry_decimal_clock_and_type() {
    let mut bus = ff_eval_core::EventBus::new();
    for _ in 0..12 {
        bus.emit("tick", serde_json::Value::Null);
    }
    assert_eq!(bus.events[0].t, "0");
    assert_eq!(bus.events[11].t, "11");
    assert_eq!(bus.events[11].type_, "tick");
}

#[test]
fn test_error_message_status() {
    let msg = ff_eval_core::error_message(Some(404), None);
    assert_eq!(msg, "status 404");
}

#[test]
fn test_error_message_parse_error() {
    let parse_err = serde_json::from_str::<serde_json::Value>("not json").unwrap_err();
    let msg = ff_eval_core::error_message(None, Some(&parse_err));
    assert!(msg.starts_with("parse error"));
    assert!(msg.len() > "parse error: ".len());
}

#[test]
fn error_message_without_cause() {
    assert_eq!(ff_eval_core::error_message(None, None), "unknown error");
    assert_eq!(ff_eval_core::error_message(Some(0), None), "status 0");
}

#[test]
fn status_reports_outcome() {
    let ok = ff_eval_core::Status::from_outcome(None);
    assert_eq!(ok.source, "edge.cache");
    assert_eq!(ok.event, "image.analyzed.v1");
    assert_eq!(ok.status, "passed");
    assert_eq!(ok.reason, None);
    let failed = ff_eval_core::Status::from_outcome(Some("disk full".to_string()));
    assert_eq!(failed.status, "failed");
    assert_eq!(failed.reason, Some("disk full".to_string()));
}

#[test]
fn service_label_joins_name_and_version() {
    let info = ff_eval_core::ServiceInfo { name: "uma.image-analyzer".to_string(), version: "1.0.0".to_string() };
    assert_eq!(info.label(), "uma.image-analyzer:1.0.0");
}

#[test]
fn header_checks() {
    assert!(ff_eval_core::header_errors("Content-Type", "json").is_empty());
    assert!(ff_eval_core::header_errors("ACCEPT", "x").is_empty());
    assert_eq!(ff_eval_core::header_errors("x-foo", "bar"), vec!["unexpected header x-foo".to_string()]);
    let long = "v".repeat(1025);
    assert_eq!(
        ff_eval_core::header_errors("x-foo", &long),
        vec!["unexpected header x-foo".to_string(), "header x-foo too long".to_string()]
    );
    assert!(ff_eval_core::header_errors("accept", &"v".repeat(1024)).is_empty());
}

#[test]
fn final_state_follows_error_events() {
    let mut bus = ff_eval_core::EventBus::new();
    bus.emit("start", serde_json::Value::Null);
    assert_eq!(ff_eval_core::final_state(&bus.events), "terminated");
    bus.emit("error", serde_json::Value::Null);
    bus.emit("end", serde_json::Value::Null);
    assert_eq!(ff_eval_core::final_state(&bus.events), "failed");
}
