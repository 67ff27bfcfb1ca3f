use stead_core::adapter::sort_sessions_desc;
use stead_core::adapter::AdapterError;
use stead_core::codex::export_codex_lines;
use stead_core::codex::CodexAdapter;
use stead_core::codex::CodexFile;
use stead_core::jsontext::json_line_text;
use stead_core::model::EventKind;
use stead_core::model::EventPayload;

fn s(lines: &[&str]) -> Vec<String> {
    lines.iter().map(|l| l.to_string()).collect()
}

fn codex_new_lines() -> Vec<String> {
    s(&[
        r#"{"type":"session_meta","timestamp":"2026-02-17T20:00:00Z","payload":{"id":"s-new","cwd":"/path/to/repo","model_provider":"test"}}"#,
        r#"{"type":"response_item","timestamp":"2026-02-17T20:00:01Z","payload":{"type":"message","role":"user","content":[{"type":"input_text","text":"List files"}]}}"#,
        r#"{"type":"response_item","timestamp":"2026-02-17T20:00:02Z","payload":{"type":"message","role":"assistant","content":[{"type":"output_text","text":"Sure."}]}}"#,
        r#"{"type":"response_item","timestamp":"2026-02-17T20:00:03Z","payload":{"type":"function_call","name":"Read","call_id":"call-1","arguments":"{\"file_path\":\"README.md\"}"}}"#,
        r#"{"type":"response_item","timestamp":"2026-02-17T20:00:04Z","payload":{"type":"function_call_output","call_id":"call-1","output":"ok"}}"#,
        r#"{"type":"event_msg","timestamp":"2026-02-17T20:00:05Z","payload":{"type":"token_count","info":{"total":12}}}"#,
    ])
}

fn codex_old_lines() -> Vec<String> {
    s(&[
        r#"{"type":"session_meta","timestamp":"2026-02-16T20:00:00Z","payload":{"id":"s-old","cwd":"/path/to/repo","model_provider":"test"}}"#,
        r#"{"type":"response_item","timestamp":"2026-02-16T20:00:01Z","payload":{"type":"message","role":"user","content":[{"type":"input_text","text":"Old session"}]}}"#,
    ])
}

#[test]
fn list_sessions_discovers_and_sorts_by_recency() {
    let adapter = CodexAdapter::from_base_dir("/tmp/codex");
    let mut sessions = vec![
        adapter
            .summary_from_lines(
                "sessions/2026/02/16/rollout-2026-02-16T20-00-00-s-old.jsonl",
                &codex_old_lines(),
            )
            .expect("list codex sessions"),
        adapter
            .summary_from_lines(
                "sessions/2026/02/17/rollout-2026-02-17T20-00-00-s-new.jsonl",
                &codex_new_lines(),
            )
            .expect("list codex sessions"),
    ];
    sort_sessions_desc(&mut sessions);

    assert_eq!(sessions.len(), 2);
    assert_eq!(sessions[0].native_id, "s-new");
    assert_eq!(sessions[1].native_id, "s-old");
}

#[test]
fn import_session_maps_messages_and_tools() {
    let adapter = CodexAdapter::from_base_dir("/tmp/codex");
    let session = adapter
        .import_from_lines("rollout-s-new.jsonl", &codex_new_lines())
        .expect("import session");

    assert_eq!(session.source.original_session_id, "s-new");
    assert_eq!(session.metadata.project_root, "/path/to/repo");
    assert_eq!(session.events.len(), 5);
    assert_eq!(session.events[0].sequence, Some(0));
    assert_eq!(session.events[0].stream_id, "main");
    assert_eq!(session.metadata.title.as_deref(), Some("List files"));
}

#[test]
fn list_sessions_accepts_sessions_directory_as_base_dir() {
    // the base dir already being the sessions tree must not double the path
    assert_eq!(
        stead_core::materialize::codex_sessions_root("/tmp/codex/sessions"),
        "/tmp/codex/sessions"
    );
    assert_eq!(
        stead_core::materialize::codex_sessions_root("/tmp/codex/SESSIONS"),
        "/tmp/codex/SESSIONS"
    );
    assert_eq!(
        stead_core::materialize::codex_sessions_root("/tmp/codex"),
        "/tmp/codex/sessions"
    );
}

#[test]
fn codex_import_session_returns_not_found_even_if_other_files_are_malformed() {
    let adapter = CodexAdapter::from_base_dir("/tmp/codex");
    let files = vec![
        CodexFile {
            path: "sessions/2026/02/17/bad.jsonl".to_string(),
            lines: s(&["{not-json"]),
        },
        CodexFile { path: "rollout-s-new.jsonl".to_string(), lines: codex_new_lines() },
    ];
    let err = adapter
        .import_session_from_files("missing-session", files)
        .expect_err("should return not found");
    assert!(matches!(err, AdapterError::SessionNotFound(_)));
}

#[test]
fn codex_import_session_picks_the_matching_rollout() {
    let adapter = CodexAdapter::from_base_dir("/tmp/codex");
    let files = vec![
        CodexFile { path: "rollout-s-old.jsonl".to_string(), lines: codex_old_lines() },
        CodexFile { path: "rollout-s-new.jsonl".to_string(), lines: codex_new_lines() },
    ];
    let session = adapter
        .import_session_from_files("s-new", files)
        .expect("import session by id");
    assert_eq!(session.source.original_session_id, "s-new");
    assert_eq!(session.events.len(), 5);
}

#[test]
fn codex_import_export_import_roundtrip_preserves_core_semantics() {
    let adapter = CodexAdapter::from_base_dir("/tmp/codex");
    let session = adapter
        .import_from_lines("rollout-s-new.jsonl", &codex_new_lines())
        .expect("first import");

    let exported = export_codex_lines(&session);
    assert_eq!(exported.len(), session.events.len() + 1);
    let text_lines: Vec<String> = exported.iter().map(json_line_text).collect();

    let imported_again = adapter
        .import_from_lines("rollout-s-new-roundtrip.jsonl", &text_lines)
        .expect("import exported codex session");

    assert_eq!(
        imported_again.source.original_session_id,
        session.source.original_session_id
    );
    assert_eq!(imported_again.events.len(), session.events.len());
}

#[test]
fn codex_roundtrip_preserves_unknown_fields() {
    let adapter = CodexAdapter::from_base_dir("/tmp/codex");
    let lines = s(&[
        r#"{"type":"session_meta","timestamp":"2026-02-17T20:00:00Z","source_version":"2026.2","payload":{"id":"s-new","cwd":"/path/to/repo","workspace_id":"ws-123"}}"#,
        r#"{"type":"response_item","timestamp":"2026-02-17T20:00:01Z","trace_id":"trace-abc","payload":{"type":"message","role":"user","content":[{"type":"input_text","text":"hi"}],"vendor_extras":{"flag":true}}}"#,
    ]);
    let session = adapter.import_from_lines("codex-input.jsonl", &lines).unwrap();
    let exported = export_codex_lines(&session);
    let rendered: Vec<serde_json::Value> = exported
        .iter()
        .map(|l| serde_json::from_str(&json_line_text(l)).unwrap())
        .collect();

    assert_eq!(rendered[0]["source_version"], serde_json::Value::String("2026.2".to_string()));
    assert_eq!(rendered[0]["payload"]["workspace_id"], serde_json::Value::String("ws-123".to_string()));

    let message_line = rendered
        .iter()
        .find(|line| {
            line.get("type").and_then(|v| v.as_str()) == Some("response_item")
                && line
                    .get("payload")
                    .and_then(|p| p.get("type"))
                    .and_then(|v| v.as_str())
                    == Some("message")
        })
        .unwrap();
    assert_eq!(message_line["trace_id"], serde_json::Value::String("trace-abc".to_string()));
    assert_eq!(
        message_line["payload"]["vendor_extras"]["flag"],
        serde_json::Value::Bool(true)
    );
}

#[test]
fn codex_roundtrip_keeps_event_ids_timestamps_and_tool_links() {
    let adapter = CodexAdapter::from_base_dir("/tmp/codex");
    let imported = adapter
        .import_from_lines("rollout-s-new.jsonl", &codex_new_lines())
        .unwrap();
    let text_lines: Vec<String> = export_codex_lines(&imported)
        .iter()
        .map(json_line_text)
        .collect();
    let reimported = adapter
        .import_from_lines("rollout-s-new-compat.jsonl", &text_lines)
        .unwrap();

    assert_eq!(imported.events.len(), reimported.events.len());
    for (before, after) in imported.events.iter().zip(reimported.events.iter()) {
        assert_eq!(before.kind, after.kind);
        assert_eq!(before.event_uid, after.event_uid);
        assert_eq!(before.timestamp, after.timestamp);
    }

    let tool_calls: Vec<String> = reimported
        .events
        .iter()
        .filter(|event| event.kind == EventKind::ToolCall)
        .map(|event| event.event_uid.clone())
        .collect();
    for result in reimported
        .events
        .iter()
        .filter(|event| event.kind == EventKind::ToolResult)
    {
        let call_id = match &result.payload {
            EventPayload::ToolResult { call_id, .. } => call_id.clone(),
            _ => String::new(),
        };
        assert!(tool_calls.iter().any(|id| id == &call_id));
    }
}

#[test]
fn exported_codex_jsonl_snapshot_is_stable() {
    let adapter = CodexAdapter::from_base_dir("/tmp/codex");
    let session = adapter
        .import_from_lines("rollout-s-new.jsonl", &codex_new_lines())
        .expect("import");
    let first: Vec<String> = export_codex_lines(&session).iter().map(json_line_text).collect();
    let second: Vec<String> = export_codex_lines(&session).iter().map(json_line_text).collect();
    assert_eq!(first, second);
    assert!(first[0].contains("session_meta"));
    assert!(first.iter().any(|l| l.contains("response_item")));
}

#[test]
fn codex_import_export_import_handles_large_mixed_timeline() {
    let mut lines: Vec<String> = Vec::new();
    lines.push(
        r#"{"timestamp":"2026-02-19T00:00:00Z","type":"session_meta","payload":{"id":"stress-codex","cwd":"/stress/repo","model_provider":"test"}}"#
            .to_string(),
    );
    for i in 0..120u32 {
        let m = i / 60;
        let sec = i % 60;
        lines.push(format!(
            r#"{{"timestamp":"2026-02-19T00:{:02}:{:02}Z","type":"response_item","payload":{{"type":"message","role":"user","content":[{{"type":"input_text","text":"user-{}"}}]}}}}"#,
            m, sec, i
        ));
        lines.push(format!(
            r#"{{"timestamp":"2026-02-19T01:{:02}:{:02}Z","type":"response_item","payload":{{"type":"message","role":"assistant","content":[{{"type":"output_text","text":"assistant-{}"}}]}}}}"#,
            m, sec, i
        ));
    }
    for i in 0..10u32 {
        lines.push(format!(
            r#"{{"timestamp":"2026-02-19T02:00:{:02}Z","type":"response_item","payload":{{"type":"function_call","name":"Read","call_id":"call-{}","arguments":"{{\"file_path\":\"README.md\"}}"}}}}"#,
            i, i
        ));
        lines.push(format!(
            r#"{{"timestamp":"2026-02-19T03:00:{:02}Z","type":"response_item","payload":{{"type":"function_call_output","call_id":"call-{}","output":"ok"}}}}"#,
            i, i
        ));
    }
    let adapter = CodexAdapter::from_base_dir("/tmp/codex");
    let session = adapter
        .import_from_lines("rollout-stress-codex.jsonl", &lines)
        .expect("import stress timeline");
    assert_eq!(session.events.len(), 240 + 20);
    assert_eq!(session.source.original_session_id, "stress-codex");

    let text_lines: Vec<String> = export_codex_lines(&session).iter().map(json_line_text).collect();
    let again = adapter
        .import_from_lines("rollout-stress-codex-2.jsonl", &text_lines)
        .expect("reimport stress timeline");
    assert_eq!(again.events.len(), session.events.len());
}
