use stead_core::adapter::dedupe_sessions_by_id;
use stead_core::adapter::sort_sessions_desc;
use stead_core::adapter::AdapterError;
use stead_core::claude::export_claude_lines;
use stead_core::claude::ClaudeAdapter;
use stead_core::claude::ClaudeFile;
use stead_core::jsontext::json_line_text;
use stead_core::model::EventKind;
use stead_core::model::EventPayload;

fn s(lines: &[&str]) -> Vec<String> {
    lines.iter().map(|l| l.to_string()).collect()
}

fn claude_main_lines() -> Vec<String> {
    s(&[
        r#"{"type":"user","timestamp":"2026-02-17T10:00:00Z","sessionId":"claude_main","cwd":"/path/to/repo","uuid":"u1","message":{"role":"user","content":"start the work"}}"#,
        r#"{"type":"assistant","timestamp":"2026-02-17T10:00:01Z","sessionId":"claude_main","cwd":"/path/to/repo","uuid":"a1","message":{"role":"assistant","content":[{"type":"text","text":"on it"}]}}"#,
        r#"{"type":"assistant","timestamp":"2026-02-17T10:00:02Z","sessionId":"claude_main","cwd":"/path/to/repo","uuid":"a2","message":{"role":"assistant","content":[{"type":"tool_use","id":"tool-1","name":"Bash","input":{"command":"ls"}}]}}"#,
        r#"{"type":"user","timestamp":"2026-02-17T10:00:03Z","sessionId":"claude_main","cwd":"/path/to/repo","uuid":"u2","message":{"role":"user","content":[{"type":"tool_result","tool_use_id":"tool-1","content":"ok","is_error":false}]}}"#,
        r#"{"type":"progress","timestamp":"2026-02-17T10:00:04Z","sessionId":"claude_main","cwd":"/path/to/repo","uuid":"p1","data":{"phase":"done"}}"#,
    ])
}

fn claude_subagent_lines() -> Vec<String> {
    s(&[
        r#"{"type":"user","timestamp":"2026-02-17T10:00:05Z","sessionId":"claude_main","cwd":"/path/to/repo","uuid":"su1","message":{"role":"user","content":"side task"}}"#,
        r#"{"type":"assistant","timestamp":"2026-02-17T10:00:06Z","sessionId":"claude_main","cwd":"/path/to/repo","uuid":"sa1","message":{"role":"assistant","content":[{"type":"text","text":"side done"}]}}"#,
    ])
}

fn main_file() -> ClaudeFile {
    ClaudeFile {
        path: "projects/-Users-jonas-repos-stead-core/claude_main.jsonl".to_string(),
        lines: claude_main_lines(),
    }
}

fn subagent_file() -> ClaudeFile {
    ClaudeFile {
        path: "projects/-Users-jonas-repos-stead-core/subagents/agent-a123.jsonl".to_string(),
        lines: claude_subagent_lines(),
    }
}

#[test]
fn list_sessions_discovers_main_claude_sessions() {
    let adapter = ClaudeAdapter::from_base_dir("/tmp/claude_code");
    let summary = adapter
        .summary_from_lines(&main_file().path, &main_file().lines)
        .expect("list native sessions");
    let mut sessions = dedupe_sessions_by_id(vec![summary]);
    sort_sessions_desc(&mut sessions);

    assert_eq!(sessions.len(), 1);
    assert_eq!(sessions[0].native_id, "claude_main");
}

#[test]
fn import_session_merges_main_and_subagent_streams() {
    let adapter = ClaudeAdapter::from_base_dir("/tmp/claude_code");
    let session = adapter
        .import_session_from_files("claude_main", vec![main_file()], vec![subagent_file()])
        .expect("import session");

    assert_eq!(session.source.original_session_id, "claude_main");
    assert_eq!(session.metadata.project_root, "/path/to/repo");
    assert_eq!(session.events.len(), 7);
    assert!(session.events.iter().any(|e| e.stream_id == "main"));
    assert!(session
        .events
        .iter()
        .any(|e| e.stream_id.starts_with("subagent:agent-a123")));
}

#[test]
fn list_sessions_accepts_projects_directory_as_base_dir() {
    // a base dir that already is the projects tree is not doubled
    assert_eq!(
        stead_core::claude::claude_projects_root("/tmp/claude_code/projects"),
        "/tmp/claude_code/projects"
    );
    assert_eq!(
        stead_core::claude::claude_projects_root("/tmp/claude_code/PROJECTS"),
        "/tmp/claude_code/PROJECTS"
    );
    assert_eq!(
        stead_core::claude::claude_projects_root("/tmp/claude_code"),
        "/tmp/claude_code/projects"
    );
    // and the summaries are the same wherever discovery rooted
    let a = ClaudeAdapter::from_base_dir("/tmp/claude_code");
    let b = ClaudeAdapter::from_base_dir("/tmp/claude_code/projects");
    let sa = a.summary_from_lines(&main_file().path, &main_file().lines).unwrap();
    let sb = b.summary_from_lines(&main_file().path, &main_file().lines).unwrap();
    assert_eq!(sa.native_id, "claude_main");
    assert_eq!(sa, sb);
}

#[test]
fn list_sessions_skips_malformed_files_instead_of_failing() {
    let adapter = ClaudeAdapter::from_base_dir("/tmp/claude_code");
    let broken = adapter.summary_from_lines(
        "projects/-Users-jonas-repos-stead-core/broken.jsonl",
        &s(&["{not-json"]),
    );
    assert!(broken.is_err());

    // the good file still lists; a single bad file never poisons discovery
    let good = adapter
        .summary_from_lines(&main_file().path, &main_file().lines)
        .expect("listing should skip malformed session files");
    let sessions = dedupe_sessions_by_id(vec![good]);
    assert!(!sessions.is_empty());
    assert!(sessions.iter().any(|x| x.native_id == "claude_main"));
}

#[test]
fn claude_import_session_returns_not_found_even_if_other_files_are_malformed() {
    let adapter = ClaudeAdapter::from_base_dir("/tmp/claude_code");
    let broken = ClaudeFile {
        path: "projects/-Users-jonas-repos-stead-core/broken.jsonl".to_string(),
        lines: s(&["{not-json"]),
    };
    let err = adapter
        .import_session_from_files("missing-session", vec![broken, main_file()], vec![])
        .expect_err("should return not found");
    assert!(matches!(err, AdapterError::SessionNotFound(_)));
}

#[test]
fn import_session_parses_non_string_tool_result_content() {
    let adapter = ClaudeAdapter::from_base_dir("/tmp/claude_code");
    let file = ClaudeFile {
        path: "projects/-Users-test-repo/raw-content.jsonl".to_string(),
        lines: s(&[
            r#"{"type":"user","timestamp":"2026-02-17T00:00:00Z","sessionId":"raw-content","cwd":"/Users/test/repo","uuid":"u1","message":{"role":"user","content":"start"}}"#,
            r#"{"type":"assistant","timestamp":"2026-02-17T00:00:01Z","sessionId":"raw-content","cwd":"/Users/test/repo","uuid":"a1","message":{"role":"assistant","content":[{"type":"tool_use","id":"tool-1","name":"Bash","input":{"command":"echo ok"}}]}}"#,
            r#"{"type":"user","timestamp":"2026-02-17T00:00:02Z","sessionId":"raw-content","cwd":"/Users/test/repo","uuid":"u2","message":{"role":"user","content":[{"type":"tool_result","tool_use_id":"tool-1","content":[{"type":"text","text":"ok"}],"is_error":false}]}}"#,
        ]),
    };
    let session = adapter
        .import_session_from_files("raw-content", vec![file], vec![])
        .expect("import session");

    assert!(session.events.iter().any(|e| e.kind == EventKind::ToolCall));
    assert!(session.events.iter().any(|e| e.kind == EventKind::ToolResult));
}

fn split_a() -> ClaudeFile {
    ClaudeFile {
        path: "projects/-Users-test-repo/split-a.jsonl".to_string(),
        lines: s(&[
            r#"{"type":"user","timestamp":"2026-02-17T00:00:00Z","sessionId":"claude_rewind","cwd":"/Users/test/repo","uuid":"u1","message":{"role":"user","content":"start"}}"#,
            r#"{"type":"assistant","timestamp":"2026-02-17T00:00:01Z","sessionId":"claude_rewind","cwd":"/Users/test/repo","uuid":"a1","parentUuid":"u1","message":{"role":"assistant","content":[{"type":"text","text":"step one"}]}}"#,
        ]),
    }
}

fn split_b() -> ClaudeFile {
    ClaudeFile {
        path: "projects/-Users-test-repo/split-b.jsonl".to_string(),
        lines: s(&[
            r#"{"type":"user","timestamp":"2026-02-17T00:00:00Z","sessionId":"claude_rewind","cwd":"/Users/test/repo","uuid":"u1","message":{"role":"user","content":"start"}}"#,
            r#"{"type":"assistant","timestamp":"2026-02-17T00:00:01Z","sessionId":"claude_rewind","cwd":"/Users/test/repo","uuid":"a1","parentUuid":"u1","message":{"role":"assistant","content":[{"type":"text","text":"step one"}]}}"#,
            r#"{"type":"user","timestamp":"2026-02-17T00:00:02Z","sessionId":"claude_rewind","cwd":"/Users/test/repo","uuid":"u2","parentUuid":"a1","message":{"role":"user","content":"rewind branch"}}"#,
            r#"{"type":"assistant","timestamp":"2026-02-17T00:00:03Z","sessionId":"claude_rewind","cwd":"/Users/test/repo","uuid":"a2","parentUuid":"u2","message":{"role":"assistant","content":[{"type":"text","text":"branch response"}]}}"#,
        ]),
    }
}

#[test]
fn list_sessions_dedupes_split_files_by_latest_update() {
    let adapter = ClaudeAdapter::from_base_dir("/tmp/claude_code");
    let sa = adapter.summary_from_lines(&split_a().path, &split_a().lines).unwrap();
    let sb = adapter.summary_from_lines(&split_b().path, &split_b().lines).unwrap();
    let sessions = dedupe_sessions_by_id(vec![sa, sb]);

    assert_eq!(sessions.len(), 1);
    assert_eq!(sessions[0].native_id, "claude_rewind");
    assert!(sessions[0].file_path.ends_with("split-b.jsonl"));
}

#[test]
fn import_session_merges_split_files_and_preserves_lineage_payload() {
    let adapter = ClaudeAdapter::from_base_dir("/tmp/claude_code");
    let session = adapter
        .import_session_from_files("claude_rewind", vec![split_a(), split_b()], vec![])
        .expect("import split session");

    assert_eq!(session.source.original_session_id, "claude_rewind");
    assert_eq!(session.events.len(), 4);
    assert_eq!(session.source.source_files.len(), 2);
    assert!(session
        .source
        .source_files
        .iter()
        .any(|path| path.ends_with("split-a.jsonl")));
    assert!(session
        .source
        .source_files
        .iter()
        .any(|path| path.ends_with("split-b.jsonl")));

    assert!(session
        .events
        .iter()
        .all(|event| event.extensions.get_str("source_file").is_some()));

    assert!(session
        .events
        .iter()
        .any(|event| event.raw_vendor_payload.get_str("parentUuid") == Some("u2")));
}

#[test]
fn import_session_handles_queue_and_sidechain_variants() {
    let adapter = ClaudeAdapter::from_base_dir("/tmp/claude_code");
    let file = ClaudeFile {
        path: "projects/-Users-test-repo/queue-sidechain-mixed.jsonl".to_string(),
        lines: s(&[
            r#"{"type":"queue-operation","operation":"enqueue","timestamp":"2026-02-19T10:00:00Z","sessionId":"claude_queue_sidechain"}"#,
            r#"{"type":"user","timestamp":"2026-02-19T10:00:01Z","sessionId":"claude_queue_sidechain","cwd":"/Users/test/repo","uuid":"u1","isSidechain":false,"message":{"role":"user","content":"start from queue"}}"#,
            r#"{"type":"assistant","timestamp":"2026-02-19T10:00:02Z","sessionId":"claude_queue_sidechain","cwd":"/Users/test/repo","uuid":"a1","isSidechain":true,"message":{"role":"assistant","content":[{"type":"text","text":"sidechain reply"}]}}"#,
            r#"{"type":"assistant","timestamp":"2026-02-19T10:00:03Z","sessionId":"claude_queue_sidechain","cwd":"/Users/test/repo","uuid":"a2","message":{"role":"assistant","content":[{"type":"tool_use","id":"tool-q1","name":"Bash","input":{"command":"pwd"}}]}}"#,
            r#"{"type":"user","timestamp":"2026-02-19T10:00:04Z","sessionId":"claude_queue_sidechain","cwd":"/Users/test/repo","uuid":"u2","message":{"role":"user","content":[{"type":"tool_result","tool_use_id":"tool-q1","content":"/Users/test/repo","is_error":false}]}}"#,
            r#"{"type":"progress","timestamp":"2026-02-19T10:00:05Z","sessionId":"claude_queue_sidechain","uuid":"p1","data":{"hook":"phase","phase":"loop"}}"#,
        ]),
    };

    let listed = adapter.summary_from_lines(&file.path, &file.lines).expect("list");
    assert_eq!(listed.native_id, "claude_queue_sidechain");
    assert_eq!(listed.title.as_deref(), Some("start from queue"));

    let session = adapter
        .import_session_from_files("claude_queue_sidechain", vec![file], vec![])
        .expect("import");
    assert_eq!(session.source.original_session_id, "claude_queue_sidechain");
    assert_eq!(session.events.len(), 5);
    assert!(session.events.iter().any(|event| event.kind == EventKind::ToolCall));
    assert!(session.events.iter().any(|event| event.kind == EventKind::ToolResult));
    assert!(session
        .events
        .iter()
        .any(|event| event.kind == EventKind::SystemProgress));
}

#[test]
fn claude_import_export_import_roundtrip_preserves_core_semantics() {
    let adapter = ClaudeAdapter::from_base_dir("/tmp/claude_code");
    let session = adapter
        .import_session_from_files("claude_main", vec![main_file()], vec![])
        .expect("first import");

    let exported = export_claude_lines(&session);
    assert_eq!(exported.len(), session.events.len());
    let text_lines: Vec<String> = exported.iter().map(json_line_text).collect();

    let imported_again = adapter
        .import_from_lines(
            "projects/-Users-jonas-repos-stead-core/claude_main-roundtrip.jsonl",
            "main",
            &text_lines,
        )
        .expect("import the exported session again");
    assert_eq!(imported_again.events.len(), session.events.len());
    assert_eq!(
        imported_again.source.original_session_id,
        session.source.original_session_id
    );
}

fn unknown_fields_lines() -> Vec<String> {
    s(&[
        r#"{"type":"user","timestamp":"2026-02-17T09:00:00Z","sessionId":"claude_compat","cwd":"/path/to/repo","uuid":"u1","trace":{"id":"trace-1"},"message":{"role":"user","content":"hello","extra":{"lang":"en"}}}"#,
        r#"{"type":"assistant","timestamp":"2026-02-17T09:00:01Z","sessionId":"claude_compat","cwd":"/path/to/repo","uuid":"a1","trace":{"id":"trace-2"},"message":{"role":"assistant","content":[{"type":"tool_use","id":"tool-9","name":"Bash","input":{"command":"ls"},"latency_ms":12}]}}"#,
        r#"{"type":"user","timestamp":"2026-02-17T09:00:02Z","sessionId":"claude_compat","cwd":"/path/to/repo","uuid":"u2","message":{"role":"user","content":[{"type":"tool_result","tool_use_id":"tool-9","content":"done","is_error":false}]}}"#,
        r#"{"type":"progress","timestamp":"2026-02-17T09:00:03Z","sessionId":"claude_compat","uuid":"p1","data":{"step":1}}"#,
    ])
}

#[test]
fn claude_roundtrip_preserves_unknown_fields() {
    let adapter = ClaudeAdapter::from_base_dir("/tmp/claude_code");
    let session = adapter
        .import_from_lines("claude_input.jsonl", "main", &unknown_fields_lines())
        .unwrap();
    let rendered: Vec<serde_json::Value> = export_claude_lines(&session)
        .iter()
        .map(|l| serde_json::from_str(&json_line_text(l)).unwrap())
        .collect();

    assert_eq!(rendered[0]["trace"]["id"], serde_json::Value::String("trace-1".to_string()));
    assert_eq!(rendered[0]["message"]["extra"]["lang"], serde_json::Value::String("en".to_string()));

    let tool_use_line = rendered
        .iter()
        .find(|line| {
            line.get("message")
                .and_then(|m| m.get("content"))
                .and_then(|content| content.as_array())
                .and_then(|items| items.first())
                .and_then(|item| item.get("type"))
                .and_then(|v| v.as_str())
                == Some("tool_use")
        })
        .unwrap();
    assert_eq!(tool_use_line["trace"]["id"], serde_json::Value::String("trace-2".to_string()));
    assert_eq!(
        tool_use_line["message"]["content"][0]["latency_ms"],
        serde_json::Value::from(12)
    );
}

#[test]
fn claude_roundtrip_keeps_event_ids_timestamps_and_tool_links() {
    let adapter = ClaudeAdapter::from_base_dir("/tmp/claude_code");
    let imported = adapter
        .import_from_lines("claude_input.jsonl", "main", &unknown_fields_lines())
        .unwrap();
    let text_lines: Vec<String> = export_claude_lines(&imported)
        .iter()
        .map(json_line_text)
        .collect();
    let reimported = adapter
        .import_from_lines("claude_output.jsonl", "main", &text_lines)
        .unwrap();

    assert_eq!(imported.events.len(), reimported.events.len());
    for (before, after) in imported.events.iter().zip(reimported.events.iter()) {
        assert_eq!(before.kind, after.kind);
        assert_eq!(before.timestamp, after.timestamp);
    }

    let tool_calls: Vec<String> = reimported
        .events
        .iter()
        .filter(|event| event.kind == EventKind::ToolCall)
        .map(|event| event.event_uid.clone())
        .collect();
    for result in reimported
        .events
        .iter()
        .filter(|event| event.kind == EventKind::ToolResult)
    {
        let call_id = match &result.payload {
            EventPayload::ToolResult { call_id, .. } => call_id.clone(),
            _ => String::new(),
        };
        assert!(tool_calls.iter().any(|id| id == &call_id));
    }

    let imported_progress: Vec<String> = imported
        .events
        .iter()
        .filter(|event| event.kind == EventKind::SystemProgress)
        .map(|event| event.event_uid.clone())
        .collect();
    let reimported_progress: Vec<String> = reimported
        .events
        .iter()
        .filter(|event| event.kind == EventKind::SystemProgress)
        .map(|event| event.event_uid.clone())
        .collect();
    assert_eq!(imported_progress, reimported_progress);
}

#[test]
fn exported_claude_jsonl_snapshot_is_stable() {
    let adapter = ClaudeAdapter::from_base_dir("/tmp/claude_code");
    let session = adapter
        .import_session_from_files("claude_main", vec![main_file()], vec![subagent_file()])
        .expect("import");
    let first: Vec<String> = export_claude_lines(&session).iter().map(json_line_text).collect();
    let second: Vec<String> = export_claude_lines(&session).iter().map(json_line_text).collect();
    assert_eq!(first, second);
    assert!(first.iter().any(|l| l.contains("assistant")));
}

#[test]
fn claude_import_export_import_handles_large_mixed_timeline() {
    let mut lines: Vec<String> = Vec::new();
    lines.push(
        r#"{"type":"queue-operation","operation":"enqueue","timestamp":"2026-02-19T10:00:00Z","sessionId":"claude_stress","content":"start"}"#
            .to_string(),
    );
    for i in 0..100u32 {
        let m = i / 60;
        let sec = i % 60;
        lines.push(format!(
            r#"{{"type":"user","timestamp":"2026-02-19T10:{:02}:{:02}Z","sessionId":"claude_stress","cwd":"/stress/repo","uuid":"u-{}","isSidechain":false,"userType":"external","message":{{"role":"user","content":"user-{}"}}}}"#,
            m, sec, i, i
        ));
        lines.push(format!(
            r#"{{"type":"assistant","timestamp":"2026-02-19T11:{:02}:{:02}Z","sessionId":"claude_stress","cwd":"/stress/repo","uuid":"a-{}","message":{{"role":"assistant","content":[{{"type":"text","text":"agent"}}]}}}}"#,
            m, sec, i
        ));
    }
    for i in 0..12u32 {
        lines.push(format!(
            r#"{{"type":"progress","timestamp":"2026-02-19T12:00:{:02}Z","sessionId":"claude_stress","uuid":"p-{}","data":{{"hook":"phase","phase":"loop"}}}}"#,
            i, i
        ));
    }
    let adapter = ClaudeAdapter::from_base_dir("/tmp/claude_code");
    let session = adapter
        .import_from_lines("projects/-stress-repo/claude_stress.jsonl", "main", &lines)
        .expect("import stress timeline");
    assert_eq!(session.events.len(), 200 + 12);

    let text_lines: Vec<String> = export_claude_lines(&session).iter().map(json_line_text).collect();
    let again = adapter
        .import_from_lines("projects/-stress-repo/claude_stress-out.jsonl", "main", &text_lines)
        .expect("reimport stress timeline");
    assert_eq!(again.events.len(), session.events.len());
}
