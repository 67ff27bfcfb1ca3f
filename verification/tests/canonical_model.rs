use stead_core::codec::session_from_json;
use stead_core::codec::session_to_json;
use stead_core::json::JsonValue;
use stead_core::jsontext::json_line_text;
use stead_core::jsontext::json_pretty_text;
use stead_core::model::build_session_uid;
use stead_core::model::canonical_sort_events;
use stead_core::model::schema_version;
use stead_core::model::BackendKind;
use stead_core::model::EventActor;
use stead_core::model::EventKind;
use stead_core::model::EventPayload;
use stead_core::model::SessionLineage;
use stead_core::model::SessionMetadata;
use stead_core::model::SessionSource;
use stead_core::model::SteadEvent;
use stead_core::model::SteadSession;
use stead_core::model::SteadSessionError;
use stead_core::model::Timestamp;

fn ts(text: &str) -> Timestamp {
    Timestamp::new(
        chrono::DateTime::parse_from_rfc3339(text)
            .unwrap()
            .timestamp_millis(),
    )
}

fn sample_events() -> Vec<SteadEvent> {
    vec![
        SteadEvent {
            event_uid: "ev-2".to_string(),
            stream_id: "subagent-a".to_string(),
            line_number: 2,
            sequence: None,
            timestamp: ts("2026-02-17T12:00:01Z"),
            kind: EventKind::MessageAssistant,
            actor: Some(EventActor::assistant("assistant")),
            payload: EventPayload::text("Done.".to_string()),
            raw_vendor_payload: JsonValue::str_of("assistant"),
            extensions: JsonValue::obj_empty(),
        },
        SteadEvent {
            event_uid: "ev-1".to_string(),
            stream_id: "main".to_string(),
            line_number: 1,
            sequence: None,
            timestamp: ts("2026-02-17T12:00:00Z"),
            kind: EventKind::MessageUser,
            actor: Some(EventActor::user("user")),
            payload: EventPayload::text("Implement this.".to_string()),
            raw_vendor_payload: JsonValue::str_of("user"),
            extensions: JsonValue::obj_empty(),
        },
    ]
}

fn sample_session(id: &str, events: Vec<SteadEvent>) -> SteadSession {
    SteadSession {
        schema_version: schema_version().to_string(),
        session_uid: build_session_uid(BackendKind::Codex, id),
        shared_session_uid: None,
        source: SessionSource::new(BackendKind::Codex, id, vec!["/tmp/source.jsonl".to_string()]),
        metadata: SessionMetadata::new(
            Some("TDD session".to_string()),
            "/Users/jonas/repos/stead".to_string(),
            ts("2026-02-17T12:00:00Z"),
            ts("2026-02-17T12:00:01Z"),
        ),
        events,
        artifacts: vec![],
        capabilities: JsonValue::obj_empty(),
        extensions: JsonValue::obj_empty(),
        lineage: None,
        raw_vendor_payload: JsonValue::obj_empty(),
    }
}

#[test]
fn schema_version_is_locked() {
    assert_eq!(schema_version(), "0.1.0");
}

#[test]
fn event_sort_is_deterministic_and_main_stream_first() {
    let mut events = sample_events();
    canonical_sort_events(&mut events);

    let ordered_ids: Vec<&str> = events.iter().map(|ev| ev.event_uid.as_str()).collect();
    assert_eq!(ordered_ids, vec!["ev-1", "ev-2"]);
    assert_eq!(events[0].sequence, Some(0));
    assert_eq!(events[1].sequence, Some(1));
}

#[test]
fn session_uid_builder_is_stable() {
    let a = build_session_uid(BackendKind::Codex, "abc");
    let b = build_session_uid(BackendKind::Codex, "abc");
    let c = build_session_uid(BackendKind::ClaudeCode, "abc");
    assert_eq!(a, b);
    assert_ne!(a, c);
    assert!(a.starts_with("stead:codex:"));
}

#[test]
fn uid_contains_backend_prefix() {
    for id in ["a", "a-b_c", "0123456789"] {
        let uid = build_session_uid(BackendKind::Codex, id);
        assert!(uid.starts_with("stead:codex:"));
    }
}

#[test]
fn uid_is_deterministic_for_same_input() {
    for id in ["a", "session-42", "x_y-z"] {
        let a = build_session_uid(BackendKind::ClaudeCode, id);
        let b = build_session_uid(BackendKind::ClaudeCode, id);
        assert_eq!(a, b);
    }
}

#[test]
fn session_validation_requires_event_sequence() {
    let session = sample_session("abc", sample_events());
    let err = session.validate().expect_err("missing sequence must fail");
    assert!(matches!(err, SteadSessionError::MissingSequence { .. }));

    let mut sorted = sample_session("abc", sample_events());
    canonical_sort_events(&mut sorted.events);
    assert!(sorted.validate().is_ok());
}

#[test]
fn session_can_store_optional_lineage_metadata() {
    let mut events = sample_events();
    canonical_sort_events(&mut events);

    let mut session = sample_session("child-session", events);
    session.metadata.title = Some("lineage".to_string());
    session.lineage = Some(SessionLineage {
        root_session_uid: Some(build_session_uid(BackendKind::Codex, "root-session")),
        parent_session_uid: Some(build_session_uid(BackendKind::Codex, "parent-session")),
        fork_origin_event_uid: Some("ev-1".to_string()),
        strategy: Some("rewind".to_string()),
    });

    let value = session_to_json(&session);
    let lineage = value.get("lineage").expect("serialize with lineage");
    assert_eq!(lineage.get_str("strategy"), Some("rewind"));
    assert_eq!(lineage.get_str("fork_origin_event_uid"), Some("ev-1"));
}

#[test]
fn canonical_json_snapshot_is_stable() {
    let mut events = sample_events();
    canonical_sort_events(&mut events);
    let mut session = sample_session("abc", events);
    session.shared_session_uid = Some("stead:shared:abc".to_string());

    let first = json_pretty_text(&session_to_json(&session));
    let mut events2 = sample_events();
    canonical_sort_events(&mut events2);
    let mut session2 = sample_session("abc", events2);
    session2.shared_session_uid = Some("stead:shared:abc".to_string());
    session2.source.imported_at = session.source.imported_at;
    let second = json_pretty_text(&session_to_json(&session2));
    assert_eq!(first, second);
    assert!(first.contains("stead:codex:abc"));
    assert!(first.contains("0.1.0"));
}

#[test]
fn valid_session_conforms_to_json_schema() {
    let mut events = sample_events();
    canonical_sort_events(&mut events);
    let session = sample_session("s1", events);
    let value = session_to_json(&session);
    let reloaded = session_from_json(&value).expect("session should validate");
    assert_eq!(reloaded.session_uid, session.session_uid);
    assert_eq!(reloaded.events.len(), session.events.len());
}

#[test]
fn invalid_session_missing_required_field_is_rejected() {
    let mut value = JsonValue::obj_empty();
    value.set("schema_version", JsonValue::str_of("0.1.0"));
    value.set("source", JsonValue::obj_empty());
    value.set("metadata", JsonValue::obj_empty());
    value.set("events", JsonValue::Arr(vec![]));
    assert!(session_from_json(&value).is_none(), "invalid payload should fail");
}

#[test]
fn canonical_document_round_trips_through_text() {
    let mut events = sample_events();
    canonical_sort_events(&mut events);
    let session = sample_session("round", events);
    let text = json_line_text(&session_to_json(&session));
    let value: serde_json::Value = serde_json::from_str(&text).expect("canonical text is JSON");
    assert_eq!(value["session_uid"], "stead:codex:round");
    assert_eq!(value["events"].as_array().unwrap().len(), 2);
    assert_eq!(value["events"][0]["sequence"], 0);
}

#[test]
fn timestamps_agree_with_chrono() {
    let t = ts("2026-02-17T12:00:00Z");
    assert_eq!(t.millis, 1771329600000);
}

#[test]
fn canonical_order_is_independent_of_arrival_order() {
    let mut forward = sample_events();
    let mut backward: Vec<SteadEvent> = sample_events().into_iter().rev().collect();
    canonical_sort_events(&mut forward);
    canonical_sort_events(&mut backward);
    assert_eq!(forward, backward);
}

#[test]
fn session_validation_reports_the_first_hole() {
    let mut session = sample_session("abc", sample_events());
    canonical_sort_events(&mut session.events);
    session.events[1].sequence = Some(7);
    let err = session.validate().expect_err("hole must fail");
    match err {
        SteadSessionError::InvalidSequence { index, expected, found } => {
            assert_eq!(index, 1);
            assert_eq!(expected, 1);
            assert_eq!(found, 7);
        }
        other => panic!("unexpected validation error: {:?}", other),
    }
}

#[test]
fn timestamp_text_round_trips_through_the_model() {
    // the exported timestamp text parses back to the same instant
    let mut events = sample_events();
    canonical_sort_events(&mut events);
    let session = sample_session("ts", events);
    let value = session_to_json(&session);
    let events_json = value.get("events").unwrap();
    let first = match events_json {
        JsonValue::Arr(items) => &items[0],
        _ => panic!("events must be an array"),
    };
    let text = first.get_str("timestamp").unwrap();
    let parsed = chrono::DateTime::parse_from_rfc3339(text).unwrap();
    assert_eq!(parsed.timestamp_millis(), session.events[0].timestamp.millis);
    assert!(text.starts_with("2026-02-17T12:00:00"));
}
