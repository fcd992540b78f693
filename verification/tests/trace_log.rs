use apexchainx_calculator::trace::{
    dump_jsonl, event_count, find_event, find_events, record, record_calculate_sla,
    record_freeze_config, record_initialize, record_pause, record_set_config,
    record_set_operator, record_unfreeze_config, record_unpause, reset, TraceLog,
};

#[test]
fn reset_clears_buffer() {
    let mut log = TraceLog::new();
    record(&mut log, "alpha", "{}");
    record(&mut log, "beta", "{}");
    assert_eq!(event_count(&log), 2);
    reset(&mut log);
    assert_eq!(event_count(&log), 0);
}

#[test]
fn find_event_matches_by_name_only() {
    let mut log = TraceLog::new();
    reset(&mut log);
    record(&mut log, "set_config", r#"{"k":1}"#);
    record(&mut log, "calculate_sla", r#"{"k":2}"#);
    assert!(find_event(&log, "set_config"));
    assert!(find_event(&log, "calculate_sla"));
    assert!(!find_event(&log, "pause"));
    assert_eq!(find_events(&log, "set_config").len(), 1);
}

#[test]
fn dump_jsonl_emits_one_line_per_event() {
    let mut log = TraceLog::new();
    reset(&mut log);
    record(&mut log, "set_config", r#"{"severity":"critical"}"#);
    record(&mut log, "calculate_sla", r#"{"amount":100}"#);
    let text = dump_jsonl(&log);
    let lines: Vec<&str> = text.lines().collect();
    assert_eq!(lines.len(), 2);
    assert!(lines[0].contains(r#""event":"set_config""#));
    assert!(lines[0].contains(r#""severity":"critical""#));
    assert!(lines[1].contains(r#""event":"calculate_sla""#));
    assert!(lines[1].contains(r#""amount":100"#));
}

#[test]
fn record_pause_escapes_reason() {
    let mut log = TraceLog::new();
    reset(&mut log);
    record_pause(&mut log, "hello \"world\"\n");
    let events = find_events(&log, "pause");
    assert_eq!(events.len(), 1);
    assert!(events[0].json.contains(r#"\"world\""#));
    assert!(events[0].json.contains(r#"\n"#));
}

#[test]
fn typed_helpers_emit_expected_event_names() {
    let mut log = TraceLog::new();
    reset(&mut log);
    record_initialize(&mut log, "admin", "op");
    record_set_config(&mut log, "critical", 15, 100, 750);
    record_set_operator(&mut log);
    record_calculate_sla(&mut log, "critical", "met", "rew", "top", 1500, 5, 15);
    record_pause(&mut log, "x");
    record_unpause(&mut log);
    record_freeze_config(&mut log);
    record_unfreeze_config(&mut log);
    assert!(find_event(&log, "initialize"));
    assert!(find_event(&log, "set_config"));
    assert!(find_event(&log, "set_operator"));
    assert!(find_event(&log, "calculate_sla"));
    assert!(find_event(&log, "pause"));
    assert!(find_event(&log, "unpause"));
    assert!(find_event(&log, "freeze_config"));
    assert!(find_event(&log, "unfreeze_config"));
    assert_eq!(event_count(&log), 8);
}

use apexchainx_calculator::trace::TraceEvent;

#[test]
fn trace_event_to_jsonl_shape() {
    let e = TraceEvent::new("set_config", r#"{"k":1}"#);
    assert_eq!(e.name, "set_config");
    assert_eq!(e.json, r#"{"k":1}"#);
    assert_eq!(e.to_jsonl(), r#"{"event":"set_config","fields":{"k":1}}"#);
}

#[test]
fn dump_jsonl_exact_text() {
    let mut log = TraceLog::new();
    assert_eq!(dump_jsonl(&log), "");
    record(&mut log, "a", "{}");
    record(&mut log, "b", r#"{"x":2}"#);
    assert_eq!(
        dump_jsonl(&log),
        "{\"event\":\"a\",\"fields\":{}}\n{\"event\":\"b\",\"fields\":{\"x\":2}}\n"
    );
}

#[test]
fn find_events_keeps_record_order_and_content() {
    let mut log = TraceLog::new();
    record(&mut log, "pause", r#"{"reason":"one"}"#);
    record(&mut log, "unpause", "{}");
    record(&mut log, "pause", r#"{"reason":"two"}"#);
    let found = find_events(&log, "pause");
    assert_eq!(found.len(), 2);
    assert_eq!(found[0].json, r#"{"reason":"one"}"#);
    assert_eq!(found[1].json, r#"{"reason":"two"}"#);
    assert!(found.iter().all(|e| e.name == "pause"));
    assert!(find_events(&log, "paus").is_empty());
    assert_eq!(event_count(&log), 3);
}

#[test]
fn record_then_find_law_on_values() {
    let mut log = TraceLog::new();
    assert!(!find_event(&log, "x"));
    record(&mut log, "x", "{}");
    assert!(find_event(&log, "x"));
    assert!(!find_event(&log, "y"));
    assert_eq!(find_events(&log, "x").len(), 1);
    assert_eq!(find_events(&log, "y").len(), 0);
}

#[test]
fn reset_forgets_law_on_values() {
    let mut log = TraceLog::new();
    record_unpause(&mut log);
    record_freeze_config(&mut log);
    reset(&mut log);
    assert!(!find_event(&log, "unpause"));
    assert!(find_events(&log, "freeze_config").is_empty());
    assert_eq!(dump_jsonl(&log), "");
    assert_eq!(event_count(&log), 0);
}

#[test]
fn set_config_fields_exact() {
    let mut log = TraceLog::new();
    record_set_config(&mut log, "critical", 20, 200, 1000);
    let events = find_events(&log, "set_config");
    assert_eq!(events.len(), 1);
    assert_eq!(
        events[0].json,
        r#"{"severity":"critical","threshold_minutes":20,"penalty_per_minute":200,"reward_base":1000}"#
    );
    assert!(events[0].json.contains(r#""threshold_minutes":20"#));
    assert!(events[0].json.contains(r#""penalty_per_minute":200"#));
    assert!(events[0].json.contains(r#""reward_base":1000"#));
}

#[test]
fn calculate_sla_fields_for_violated_path() {
    let mut log = TraceLog::new();
    record_calculate_sla(&mut log, "critical", "viol", "pen", "poor", -1000, 25, 15);
    let events = find_events(&log, "calculate_sla");
    assert_eq!(events.len(), 1);
    assert_eq!(
        events[0].json,
        r#"{"severity":"critical","status":"viol","payment_type":"pen","rating":"poor","amount":-1000,"mttr_minutes":25,"threshold_minutes":15}"#
    );
    assert!(events[0].json.contains("\"amount\":-1000"));
}

#[test]
fn calculate_sla_fields_for_met_path() {
    let mut log = TraceLog::new();
    record_calculate_sla(&mut log, "critical", "met", "rew", "top", 1500, 5, 15);
    let events = find_events(&log, "calculate_sla");
    assert!(events[0].json.contains(r#""status":"met""#));
    assert!(events[0].json.contains(r#""payment_type":"rew""#));
    assert!(events[0].json.contains(r#""rating":"top""#));
    assert!(events[0].json.contains(r#""amount":1500"#));
}

#[test]
fn initialize_and_marker_fields_exact() {
    let mut log = TraceLog::new();
    record_initialize(&mut log, "admin", "op");
    record_set_operator(&mut log);
    let init = find_events(&log, "initialize");
    assert_eq!(init[0].json, r#"{"admin":"admin","operator":"op"}"#);
    assert_eq!(find_events(&log, "set_operator")[0].json, "{}");
}

#[test]
fn pause_fields_escape_reason_exactly() {
    let mut log = TraceLog::new();
    record_pause(&mut log, "reason-with-\"quote\"");
    record_pause(&mut log, "line1\nline2\u{1}");
    let events = find_events(&log, "pause");
    assert_eq!(events[0].json, r#"{"reason":"reason-with-\"quote\""}"#);
    assert_eq!(events[1].json, r#"{"reason":"line1\nline2\u0001"}"#);
}

#[test]
fn dump_has_one_wellformed_line_per_event() {
    let mut log = TraceLog::new();
    record_pause(&mut log, "hold\nmore");
    record_unpause(&mut log);
    record_set_config(&mut log, "high", 40, 75, 900);
    record_calculate_sla(&mut log, "high", "met", "rew", "good", 900, 20, 40);
    let text = dump_jsonl(&log);
    assert_eq!(text.matches('\n').count(), event_count(&log));
    assert!(text.ends_with('\n'));
    for line in text.lines() {
        assert!(line.starts_with('{'), "non-JSON line: {line}");
        assert!(line.ends_with('}'), "non-JSON line: {line}");
    }
}
