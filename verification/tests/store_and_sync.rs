use stead_core::claude::ClaudeAdapter;
use stead_core::claude::ClaudeFile;
use stead_core::codex::CodexAdapter;
use stead_core::ids::short_hash;
use stead_core::ids::uuid_v5_url;
use stead_core::materialize::choose_native_id;
use stead_core::materialize::default_materialized_path;
use stead_core::materialize::deterministic_backend_uuid;
use stead_core::materialize::prune_targets;
use stead_core::model::BackendKind;
use stead_core::resume::build_resume_command;
use stead_core::store::canonical_file_name;
use stead_core::store::canonical_lookup_matches;
use stead_core::store::ensure_shared_session_uid;
use stead_core::store::get_native_ref;
use stead_core::store::set_native_ref;
use stead_core::sync::backend_key;
use stead_core::sync::scope_sessions_to_repo;
use stead_core::sync::session_matches_repo;
use stead_core::sync::upsert_synced_session;
use stead_core::sync::Backend;

fn s(lines: &[&str]) -> Vec<String> {
    lines.iter().map(|l| l.to_string()).collect()
}

fn codex_session(id: &str, cwd: &str) -> stead_core::model::SteadSession {
    let meta = format!(
        r#"{{"type":"session_meta","timestamp":"2026-02-17T20:00:00Z","payload":{{"id":"{}","cwd":"{}","model_provider":"test"}}}}"#,
        id, cwd
    );
    let msg = r#"{"type":"response_item","timestamp":"2026-02-17T20:00:01Z","payload":{"type":"message","role":"user","content":[{"type":"input_text","text":"hello"}]}}"#;
    let lines = vec![meta, msg.to_string()];
    CodexAdapter::from_base_dir("/tmp/codex")
        .import_from_lines("rollout-test.jsonl", &lines)
        .unwrap()
}

fn claude_session(id: &str, cwd: &str) -> stead_core::model::SteadSession {
    let line = format!(
        r#"{{"type":"user","timestamp":"2026-02-17T10:00:00Z","sessionId":"{}","cwd":"{}","uuid":"u1","message":{{"role":"user","content":"hi"}}}}"#,
        id, cwd
    );
    let file = ClaudeFile { path: format!("projects/x/{}.jsonl", id), lines: vec![line] };
    ClaudeAdapter::from_base_dir("/tmp/claude_code")
        .import_session_from_files(id, vec![file], vec![])
        .unwrap()
}

#[test]
fn sync_imports_codex_and_claude_sessions_into_repo_store() {
    let mut stored = Vec::new();
    let codex = codex_session("s-new", "/path/to/repo");
    let claude = claude_session("claude_main", "/path/to/repo");
    upsert_synced_session(&mut stored, codex, Backend::Codex, "s-new", "/codex/path");
    upsert_synced_session(&mut stored, claude, Backend::Claude, "claude_main", "/second/path");

    assert_eq!(stored.len(), 2);
    assert!(stored.iter().any(|x| x.source.backend == BackendKind::Codex));
    assert!(stored.iter().any(|x| x.source.backend == BackendKind::ClaudeCode));
}

#[test]
fn sync_accepts_leaf_backend_directories() {
    // a --codex-base that already points at the sessions tree is not doubled
    assert_eq!(
        stead_core::materialize::codex_sessions_root("/fixtures/codex/sessions"),
        "/fixtures/codex/sessions"
    );
    // and session discovery works from the leaf dir the same way
    let session = codex_session("s-new", "/path/to/repo");
    assert_eq!(session.source.original_session_id, "s-new");
}

#[test]
fn sync_scopes_to_repo_when_matching_sessions_exist() {
    let adapter = CodexAdapter::from_base_dir("/tmp/codex");
    let new_summary = adapter
        .summary_from_lines(
            "sessions/2026/02/17/rollout-2026-02-17T20-00-00-s-new.jsonl",
            &s(&[
                r#"{"type":"session_meta","timestamp":"2026-02-17T20:00:00Z","payload":{"id":"s-new","cwd":"/work/repo"}}"#,
            ]),
        )
        .unwrap();
    let old_summary = adapter
        .summary_from_lines(
            "sessions/2026/02/16/rollout-2026-02-16T20-00-00-s-old.jsonl",
            &s(&[
                r#"{"type":"session_meta","timestamp":"2026-02-16T20:00:00Z","payload":{"id":"s-old","cwd":"/tmp/other-repo"}}"#,
            ]),
        )
        .unwrap();

    let flags = vec![
        session_matches_repo("/work/repo", new_summary.project_root.as_deref()),
        session_matches_repo("/work/repo", old_summary.project_root.as_deref()),
    ];
    let scoped = scope_sessions_to_repo(vec![new_summary, old_summary], &flags);

    assert_eq!(scoped.len(), 1);
    assert!(scoped.iter().any(|x| x.native_id == "s-new"));
    assert!(!scoped.iter().any(|x| x.native_id == "s-old"));
}

#[test]
fn sync_keeps_all_sessions_when_none_matches_the_repo() {
    let adapter = CodexAdapter::from_base_dir("/tmp/codex");
    let summary = adapter
        .summary_from_lines(
            "sessions/2026/02/17/rollout-2026-02-17T20-00-00-s-new.jsonl",
            &s(&[
                r#"{"type":"session_meta","timestamp":"2026-02-17T20:00:00Z","payload":{"id":"s-new","cwd":"/somewhere/else"}}"#,
            ]),
        )
        .unwrap();
    let flags = vec![session_matches_repo("/work/repo", summary.project_root.as_deref())];
    let scoped = scope_sessions_to_repo(vec![summary], &flags);
    assert_eq!(scoped.len(), 1);
}

#[test]
fn sync_backfills_shared_session_uid() {
    let mut stored = Vec::new();
    let session = codex_session("s-new", "/path/to/repo");
    assert!(session.shared_session_uid.is_none());
    let idx = upsert_synced_session(&mut stored, session, Backend::Codex, "s-new", "/p");
    assert_eq!(
        stored[idx].shared_session_uid.as_deref(),
        Some("stead:codex:s-new")
    );
}

#[test]
fn sync_upserts_cross_backend_materialized_sessions_instead_of_creating_duplicates() {
    let mut stored = Vec::new();
    let codex = codex_session("s-new", "/path/to/repo");
    let idx = upsert_synced_session(&mut stored, codex, Backend::Codex, "s-new", "/codex/p");
    assert_eq!(stored.len(), 1);

    // materialize into the second backend: record its native ref
    let claude_id = deterministic_backend_uuid(&stored[idx], Backend::Claude);
    set_native_ref(&mut stored[idx], backend_key(Backend::Claude), &claude_id, "/second/p");

    // a later sync imports the projected session; the upsert must
    // merge, not duplicate
    let incoming = claude_session(&claude_id, "/path/to/repo");
    upsert_synced_session(&mut stored, incoming, Backend::Claude, &claude_id, "/second/p");
    assert_eq!(stored.len(), 1);
    let refreshed = get_native_ref(&stored[0], backend_key(Backend::Claude)).unwrap();
    assert_eq!(refreshed.0, claude_id);
}

#[test]
fn repeated_crossover_cycles_keep_canonical_store_stable() {
    let mut stored = Vec::new();
    for _round in 0..5 {
        let codex = codex_session("s-new", "/path/to/repo");
        let idx = upsert_synced_session(&mut stored, codex, Backend::Codex, "s-new", "/codex/p");
        assert_eq!(stored.len(), 1);
        let claude_id = deterministic_backend_uuid(&stored[idx], Backend::Claude);
        set_native_ref(&mut stored[idx], backend_key(Backend::Claude), &claude_id, "/second/p");
        let incoming = claude_session(&claude_id, "/path/to/repo");
        upsert_synced_session(&mut stored, incoming, Backend::Claude, &claude_id, "/second/p");
        assert_eq!(stored.len(), 1);
        assert!(stored[0].shared_session_uid.is_some());
        assert_eq!(get_native_ref(&stored[0], "codex").unwrap().0, "s-new");
    }
}

#[test]
fn materialize_updates_canonical_native_refs_and_writes_target_session() {
    let mut session = codex_session("s-new", "/path/to/repo");
    ensure_shared_session_uid(&mut session);
    set_native_ref(
        &mut session,
        backend_key(Backend::Claude),
        "materialized-id",
        "/second/projects/-Users-jonas-repos-stead-core/materialized.jsonl",
    );
    let (id, path) = get_native_ref(&session, backend_key(Backend::Claude)).unwrap();
    assert_eq!(id, "materialized-id");
    assert_eq!(
        path,
        "/second/projects/-Users-jonas-repos-stead-core/materialized.jsonl"
    );
    // the codex-side native id keeps following the session's own origin
    assert_eq!(choose_native_id(&session, Backend::Codex), "s-new");
}

#[test]
fn materialize_uses_uuid_native_ids_for_cross_backend_targets() {
    let mut session = codex_session("s-new", "/path/to/repo");
    ensure_shared_session_uid(&mut session);

    let claude_native_id = choose_native_id(&session, Backend::Claude);
    let name = format!(
        "stead-native:{}:{}",
        backend_key(Backend::Claude),
        session.shared_session_uid.as_deref().unwrap()
    );
    let expected = uuid::Uuid::new_v5(&uuid::Uuid::NAMESPACE_URL, name.as_bytes()).to_string();
    assert_eq!(claude_native_id, expected);
    assert_eq!(claude_native_id, "410fa4c3-6c94-55e3-8d5d-9d4e33338d3c");

    let out = default_materialized_path(
        "/base",
        "/work/repo",
        Backend::Claude,
        &claude_native_id,
        1771329600000,
    );
    assert!(out.ends_with(&format!("{}.jsonl", claude_native_id)));
    assert!(out.contains("/projects/"));
    assert!(out.contains("-work-repo"));

    let codex_out = default_materialized_path(
        "/base",
        "/work/repo",
        Backend::Codex,
        "some-id",
        1771329600000,
    );
    assert!(codex_out.contains("/sessions/"));
    assert!(codex_out.contains("/rollout-"));
    assert!(codex_out.ends_with("-some-id.jsonl"));
    assert!(codex_out.contains("2026/02/17"));
    assert!(codex_out.contains("rollout-2026-02-17T12-00-00"));
}

#[test]
fn materialize_to_codex_prunes_stale_same_id_rollouts() {
    let predicted = "410fa4c3-6c94-55e3-8d5d-9d4e33338d3c";
    let keep = format!("/codex/sessions/2026/02/18/rollout-2026-02-18T00-00-00-{}.jsonl", predicted);
    let files = vec![
        format!("/codex/sessions/2026/02/17/rollout-stale-{}.jsonl", predicted),
        keep.clone(),
        "/codex/sessions/2026/02/17/rollout-other-file.jsonl".to_string(),
    ];
    let doomed = prune_targets(&files, predicted, &keep);
    assert_eq!(doomed.len(), 1, "expected stale rollout files to be pruned");
    assert!(doomed[0].ends_with(&format!("-{}.jsonl", predicted)));
    assert_ne!(doomed[0], keep);
}

#[test]
fn resume_uses_backend_resume_flag_with_prompt() {
    let cmd = build_resume_command(
        Some("/tmp/runner.sh"),
        Backend::Codex,
        None,
        "s-new",
        "Continue with tests",
        "/work/repo",
    );
    assert_eq!(cmd.program, "/tmp/runner.sh");
    assert_eq!(cmd.args, vec!["codex", "--resume", "s-new", "Continue with tests"]);
    assert!(cmd.workdir.is_none());
}

#[test]
fn resume_uses_real_backend_command_shape_and_repo_cwd() {
    let codex = build_resume_command(
        None,
        Backend::Codex,
        Some("/tmp/fake-codex.sh"),
        "s-new",
        "Continue in codex",
        "/work/repo",
    );
    assert_eq!(codex.program, "/tmp/fake-codex.sh");
    assert_eq!(codex.args, vec!["exec", "resume", "s-new", "Continue in codex"]);
    assert_eq!(codex.workdir.as_deref(), Some("/work/repo"));

    let claude = build_resume_command(
        None,
        Backend::Claude,
        Some("/tmp/fake_claude_bin.sh"),
        "c-id",
        "Continue on the other backend",
        "/work/repo",
    );
    assert_eq!(claude.program, "/tmp/fake_claude_bin.sh");
    assert_eq!(claude.args, vec!["-p", "-r", "c-id", "Continue on the other backend"]);
    assert_eq!(claude.workdir.as_deref(), Some("/work/repo"));

    let bare = build_resume_command(None, Backend::Codex, None, "x", "y", "/r");
    assert_eq!(bare.program, "codex");
    let bare_claude = build_resume_command(None, Backend::Claude, None, "x", "y", "/r");
    assert_eq!(bare_claude.program, backend_key(Backend::Claude));
}

#[test]
fn handoff_uses_existing_native_ref_and_resume_prompt() {
    let mut session = codex_session("s-new", "/path/to/repo");
    ensure_shared_session_uid(&mut session);
    set_native_ref(
        &mut session,
        backend_key(Backend::Claude),
        "existing_native_id",
        "/second/existing.jsonl",
    );

    // handoff to the target backend: an existing projection is reused
    let (native_id, _) = get_native_ref(&session, backend_key(Backend::Claude)).unwrap();
    assert_eq!(native_id, "existing_native_id");
    let cmd = build_resume_command(
        Some("/tmp/runner-handoff.sh"),
        Backend::Claude,
        None,
        &native_id,
        "Continue handoff",
        "/work/repo",
    );
    assert_eq!(cmd.args[0], backend_key(Backend::Claude));
    assert_eq!(cmd.args[1], "--resume");
    assert_eq!(cmd.args[2], "existing_native_id");
    assert_eq!(cmd.args[3], "Continue handoff");
}

#[test]
fn handoff_materializes_target_backend_before_resume_when_needed() {
    let mut session = codex_session("s-new", "/path/to/repo");
    ensure_shared_session_uid(&mut session);

    // no projection into the target backend yet: the id is minted, recorded, then run
    assert!(get_native_ref(&session, backend_key(Backend::Claude)).is_none());
    let native_id = choose_native_id(&session, Backend::Claude);
    let out = "/second/projects/-Users-jonas-repos-stead-core/handoff-materialized.jsonl";
    set_native_ref(&mut session, backend_key(Backend::Claude), &native_id, out);
    let (recorded_id, recorded_path) = get_native_ref(&session, backend_key(Backend::Claude)).unwrap();
    assert_eq!(recorded_id, native_id);
    assert_eq!(recorded_path, out);
    let cmd = build_resume_command(
        Some("/tmp/runner-handoff-materialize.sh"),
        Backend::Claude,
        None,
        &native_id,
        "Continue on the other backend",
        "/work/repo",
    );
    assert_eq!(cmd.args[0], backend_key(Backend::Claude));
    assert_eq!(cmd.args[1], "--resume");
    assert_eq!(cmd.args[3], "Continue on the other backend");
}

#[test]
fn store_file_names_are_sanitized_and_hash_suffixed() {
    let name = canonical_file_name("stead:codex:s-new");
    assert!(name.starts_with("stead_codex_s-new-"));
    assert!(name.ends_with(".json"));
    // the short hash is the first eight hex digits of the 64-bit content
    // hash, cross-checked against an independent implementation
    let mut hasher = twox_hash::XxHash64::with_seed(0);
    std::hash::Hasher::write(&mut hasher, "stead:codex:s-new".as_bytes());
    let expected = format!("{:016x}", std::hash::Hasher::finish(&hasher));
    assert_eq!(short_hash("stead:codex:s-new"), expected[..8].to_string());
}

#[test]
fn store_lookup_matches_uid_shared_uid_and_aliases() {
    let mut session = codex_session("s-new", "/path/to/repo");
    assert!(canonical_lookup_matches(&session, "stead:codex:s-new"));
    assert!(!canonical_lookup_matches(&session, "stead:codex:other"));
    session.shared_session_uid = Some("stead:shared:xyz".to_string());
    assert!(canonical_lookup_matches(&session, "stead:shared:xyz"));
}

#[test]
fn uuid_wrapper_matches_reference_implementation() {
    let got = uuid_v5_url("stead-native:codex:stead:claude_code:claude_main");
    assert_eq!(got, "7acbef22-12b3-52f2-9e72-8380e3609d2a");
    let reference = uuid::Uuid::new_v5(
        &uuid::Uuid::NAMESPACE_URL,
        "stead-native:codex:stead:claude_code:claude_main".as_bytes(),
    );
    assert_eq!(got, reference.to_string());
    assert_eq!(got.len(), 36);
}

#[test]
fn json_codec_agrees_with_reference_parser() {
    let value = stead_core::jsontext::parse_json_line(
        r#"{"a":[1,2,{"b":null}],"c":"x","d":true,"e":2.5}"#,
    )
    .unwrap();
    let text = stead_core::jsontext::json_line_text(&value);
    let reference: serde_json::Value = serde_json::from_str(&text).unwrap();
    assert_eq!(reference["a"][2]["b"], serde_json::Value::Null);
    assert_eq!(reference["c"], serde_json::Value::String("x".to_string()));
    assert_eq!(reference["d"], serde_json::Value::Bool(true));
    assert_eq!(reference["e"], serde_json::Value::from(2.5));
    assert!(stead_core::jsontext::parse_json_line("{not-json").is_none());
}

#[test]
fn merge_widens_the_metadata_window_and_fills_the_title() {
    let anchor = codex_session("s-new", "/path/to/repo");
    let mut incoming = claude_session("claude_main", "/path/to/repo");
    incoming.metadata.created_at = stead_core::model::Timestamp::new(1);
    incoming.metadata.updated_at = stead_core::model::Timestamp::new(4102444800000);
    let anchor_title = anchor.metadata.title.clone();
    let merged = stead_core::sync::merge_sessions(anchor, incoming);
    assert_eq!(merged.metadata.created_at.millis, 1);
    assert_eq!(merged.metadata.updated_at.millis, 4102444800000);
    assert_eq!(merged.metadata.title, anchor_title);
    assert_eq!(merged.shared_session_uid.as_deref(), Some("stead:codex:s-new"));
    assert!(merged.validate().is_ok());
}
