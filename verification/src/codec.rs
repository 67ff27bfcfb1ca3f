//! The canonical session document: how a session is laid out as JSON for
//! the store, how it is read back, and the shape every emitted document
//! satisfies.

use vstd::prelude::*;

use crate::json::JsonValue;
use crate::model::BackendKind;
use crate::model::EventActor;
use crate::model::EventKind;
use crate::model::EventPayload;
use crate::model::SessionLineage;
use crate::model::SteadEvent;
use crate::model::SteadSession;
use crate::model::Timestamp;

verus! {

use crate::clock::rfc3339_text_or_empty;
use crate::json::JsonSpec;
use crate::json::jspec;
use crate::json::spec_get;
use crate::json::spec_get_str;
use crate::strutil::dec_spec;

/// The wire name of an event kind.
pub open spec fn kind_key(k: EventKind) -> Seq<char> {
    match k {
        EventKind::MessageUser => "message_user"@,
        EventKind::MessageAssistant => "message_assistant"@,
        EventKind::ToolCall => "tool_call"@,
        EventKind::ToolResult => "tool_result"@,
        EventKind::SystemProgress => "system_progress"@,
        EventKind::SystemNote => "system_note"@,
        EventKind::SessionMarker => "session_marker"@,
        EventKind::ArtifactRef => "artifact_ref"@,
    }
}

/// The wire name of an event kind.
pub fn kind_key_exec(k: EventKind) -> (r: &'static str)
    ensures
        r@ == kind_key(k),
{
    match k {
        EventKind::MessageUser => "message_user",
        EventKind::MessageAssistant => "message_assistant",
        EventKind::ToolCall => "tool_call",
        EventKind::ToolResult => "tool_result",
        EventKind::SystemProgress => "system_progress",
        EventKind::SystemNote => "system_note",
        EventKind::SessionMarker => "session_marker",
        EventKind::ArtifactRef => "artifact_ref",
    }
}

/// The event kind a wire name denotes.
pub fn kind_of_key(s: &str) -> (r: Option<EventKind>)
    ensures
        match r {
            Some(k) => kind_key(k) == s@,
            None => forall|k: EventKind| kind_key(k) != s@,
        },
{
    proof {
        reveal_strlit("message_user");
        reveal_strlit("message_assistant");
        reveal_strlit("tool_call");
        reveal_strlit("tool_result");
        reveal_strlit("system_progress");
        reveal_strlit("system_note");
        reveal_strlit("session_marker");
        reveal_strlit("artifact_ref");
    }
    if crate::strutil::str_eq(s, "message_user") {
        Some(EventKind::MessageUser)
    } else if crate::strutil::str_eq(s, "message_assistant") {
        Some(EventKind::MessageAssistant)
    } else if crate::strutil::str_eq(s, "tool_call") {
        Some(EventKind::ToolCall)
    } else if crate::strutil::str_eq(s, "tool_result") {
        Some(EventKind::ToolResult)
    } else if crate::strutil::str_eq(s, "system_progress") {
        Some(EventKind::SystemProgress)
    } else if crate::strutil::str_eq(s, "system_note") {
        Some(EventKind::SystemNote)
    } else if crate::strutil::str_eq(s, "session_marker") {
        Some(EventKind::SessionMarker)
    } else if crate::strutil::str_eq(s, "artifact_ref") {
        Some(EventKind::ArtifactRef)
    } else {
        proof {
            assert forall|k: EventKind| kind_key(k) != s@ by {
                match k {
                    EventKind::MessageUser => {},
                    EventKind::MessageAssistant => {},
                    EventKind::ToolCall => {},
                    EventKind::ToolResult => {},
                    EventKind::SystemProgress => {},
                    EventKind::SystemNote => {},
                    EventKind::SessionMarker => {},
                    EventKind::ArtifactRef => {},
                }
            }
        }
        None
    }
}

/// The document shape the store accepts: the canonical schema, pinned at
/// version `0.1.0`.
pub open spec fn schema_valid(v: JsonSpec) -> bool {
    &&& v is Obj
    &&& spec_get_str(v, "schema_version"@) == Some(crate::model::SCHEMA_VERSION@)
    &&& spec_get_str(v, "session_uid"@) is Some
    &&& (spec_get(v, "source"@) matches Some(src) && {
        &&& src is Obj
        &&& (spec_get_str(src, "backend"@) == Some("codex"@) || spec_get_str(src, "backend"@)
            == Some("claude_code"@))
        &&& spec_get_str(src, "original_session_id"@) is Some
        &&& (spec_get(src, "source_files"@) matches Some(f) && f is Arr)
        &&& spec_get_str(src, "imported_at"@) is Some
        &&& spec_get_str(src, "adapter_version"@) is Some
    })
    &&& (spec_get(v, "metadata"@) matches Some(m) && {
        &&& m is Obj
        &&& spec_get_str(m, "project_root"@) is Some
        &&& spec_get_str(m, "created_at"@) is Some
        &&& spec_get_str(m, "updated_at"@) is Some
        &&& (spec_get(m, "tags"@) matches Some(t) && t is Arr)
    })
    &&& (spec_get(v, "events"@) matches Some(evs) && evs is Arr && (forall|i: int|
        0 <= i < evs->Arr_0.len() ==> event_schema_valid(#[trigger] evs->Arr_0[i])))
    &&& spec_get(v, "raw_vendor_payload"@) is Some
}

/// The shape of one event in a canonical document.
pub open spec fn event_schema_valid(v: JsonSpec) -> bool {
    &&& v is Obj
    &&& spec_get_str(v, "event_uid"@) is Some
    &&& spec_get_str(v, "stream_id"@) is Some
    &&& (spec_get(v, "line_number"@) matches Some(n) && n is Num)
    &&& spec_get_str(v, "timestamp"@) is Some
    &&& (spec_get_str(v, "kind"@) matches Some(k) && exists|ek: EventKind| kind_key(ek) == k)
    &&& (spec_get(v, "payload"@) matches Some(p) && p is Obj && payload_schema_valid(p))
    &&& spec_get(v, "raw_vendor_payload"@) is Some
    &&& spec_get(v, "extensions"@) is Some
}

/// The shape of one event payload in a canonical document.
pub open spec fn payload_schema_valid(p: JsonSpec) -> bool {
    ||| (spec_get_str(p, "type"@) == Some("text"@) && spec_get_str(p, "text"@) is Some)
    ||| (spec_get_str(p, "type"@) == Some("tool_call"@) && spec_get_str(p, "tool_name"@) is Some
        && spec_get(p, "input"@) is Some)
    ||| (spec_get_str(p, "type"@) == Some("tool_result"@) && spec_get_str(p, "call_id"@) is Some
        && (spec_get(p, "ok"@) matches Some(b) && b is Bool))
    ||| (spec_get_str(p, "type"@) == Some("json"@) && spec_get(p, "value"@) is Some)
}


/// The JSON form of an actor.
pub open spec fn actor_json_matches(v: JsonSpec, a: EventActor) -> bool {
    &&& v is Obj
    &&& spec_get_str(v, "role"@) == Some(a.role@)
    &&& (match a.agent_id {
        Some(x) => spec_get_str(v, "agent_id"@) == Some(x@),
        None => spec_get(v, "agent_id"@) is None,
    })
    &&& (match a.vendor_role {
        Some(x) => spec_get_str(v, "vendor_role"@) == Some(x@),
        None => spec_get(v, "vendor_role"@) is None,
    })
}

/// The JSON form of an event payload.
pub open spec fn payload_json_matches(v: JsonSpec, p: EventPayload) -> bool {
    match p {
        EventPayload::Text { text } => {
            &&& spec_get_str(v, "type"@) == Some("text"@)
            &&& spec_get_str(v, "text"@) == Some(text@)
        },
        EventPayload::ToolCall { tool_name, input } => {
            &&& spec_get_str(v, "type"@) == Some("tool_call"@)
            &&& spec_get_str(v, "tool_name"@) == Some(tool_name@)
            &&& spec_get(v, "input"@) == Some(input@)
        },
        EventPayload::ToolResult { call_id, ok, output_text, error_text } => {
            &&& spec_get_str(v, "type"@) == Some("tool_result"@)
            &&& spec_get_str(v, "call_id"@) == Some(call_id@)
            &&& spec_get(v, "ok"@) == Some(JsonSpec::Bool(ok))
            &&& (match output_text {
                Some(x) => spec_get_str(v, "output_text"@) == Some(x@),
                None => spec_get(v, "output_text"@) == Some(JsonSpec::Null),
            })
            &&& (match error_text {
                Some(x) => spec_get_str(v, "error_text"@) == Some(x@),
                None => spec_get(v, "error_text"@) == Some(JsonSpec::Null),
            })
        },
        EventPayload::Json { value } => {
            &&& spec_get_str(v, "type"@) == Some("json"@)
            &&& spec_get(v, "value"@) == Some(value@)
        },
    }
}

/// The JSON form of one canonical event.
pub open spec fn event_json_matches(v: JsonSpec, e: SteadEvent) -> bool {
    &&& v is Obj
    &&& spec_get_str(v, "event_uid"@) == Some(e.event_uid@)
    &&& spec_get_str(v, "stream_id"@) == Some(e.stream_id@)
    &&& spec_get(v, "line_number"@) == Some(JsonSpec::Num(dec_spec(e.line_number as nat)))
    &&& (match e.sequence {
        Some(n) => spec_get(v, "sequence"@) == Some(JsonSpec::Num(dec_spec(n as nat))),
        None => spec_get(v, "sequence"@) is None,
    })
    &&& spec_get_str(v, "timestamp"@) == Some(rfc3339_text_or_empty(e.timestamp.millis as int))
    &&& spec_get_str(v, "kind"@) == Some(kind_key(e.kind))
    &&& (match e.actor {
        Some(a) => spec_get(v, "actor"@) matches Some(av) && actor_json_matches(av, a),
        None => spec_get(v, "actor"@) is None,
    })
    &&& (spec_get(v, "payload"@) matches Some(p) && payload_json_matches(p, e.payload))
    &&& spec_get(v, "raw_vendor_payload"@) == Some(e.raw_vendor_payload@)
    &&& spec_get(v, "extensions"@) == Some(e.extensions@)
}

/// The JSON form of a whole session document.
pub open spec fn session_json_matches(v: JsonSpec, s: SteadSession) -> bool {
    &&& v is Obj
    &&& spec_get_str(v, "schema_version"@) == Some(s.schema_version@)
    &&& spec_get_str(v, "session_uid"@) == Some(s.session_uid@)
    &&& (match s.shared_session_uid {
        Some(u) => spec_get_str(v, "shared_session_uid"@) == Some(u@),
        None => spec_get(v, "shared_session_uid"@) is None,
    })
    &&& (spec_get(v, "source"@) matches Some(src) && {
        &&& src is Obj
        &&& spec_get_str(src, "backend"@) == Some(s.source.backend.key_spec())
        &&& spec_get_str(src, "original_session_id"@) == Some(s.source.original_session_id@)
        &&& (spec_get(src, "source_files"@) matches Some(f) && f is Arr && f->Arr_0
            == s.source.source_files@.map_values(|x: String| JsonSpec::Str(x@)))
        &&& spec_get_str(src, "imported_at"@) == Some(
            rfc3339_text_or_empty(s.source.imported_at.millis as int),
        )
        &&& spec_get_str(src, "adapter_version"@) == Some(s.source.adapter_version@)
    })
    &&& (spec_get(v, "metadata"@) matches Some(m) && {
        &&& m is Obj
        &&& (match s.metadata.title {
            Some(t) => spec_get_str(m, "title"@) == Some(t@),
            None => spec_get(m, "title"@) == Some(JsonSpec::Null),
        })
        &&& spec_get_str(m, "project_root"@) == Some(s.metadata.project_root@)
        &&& spec_get_str(m, "created_at"@) == Some(
            rfc3339_text_or_empty(s.metadata.created_at.millis as int),
        )
        &&& spec_get_str(m, "updated_at"@) == Some(
            rfc3339_text_or_empty(s.metadata.updated_at.millis as int),
        )
        &&& (spec_get(m, "tags"@) matches Some(t) && t is Arr && t->Arr_0
            == s.metadata.tags@.map_values(|x: String| JsonSpec::Str(x@)))
    })
    &&& (spec_get(v, "events"@) matches Some(evs) && evs is Arr && evs->Arr_0.len()
        == s.events@.len() && (forall|i: int|
        0 <= i < s.events@.len() ==> event_json_matches(
            #[trigger] evs->Arr_0[i],
            s.events@[i],
        )))
    &&& (spec_get(v, "artifacts"@) matches Some(ar) && ar is Arr && ar->Arr_0.len()
        == s.artifacts@.len())
    &&& spec_get(v, "capabilities"@) == Some(s.capabilities@)
    &&& spec_get(v, "extensions"@) == Some(s.extensions@)
    &&& (match s.lineage {
        Some(_) => spec_get(v, "lineage"@) is Some,
        None => spec_get(v, "lineage"@) is None,
    })
    &&& spec_get(v, "raw_vendor_payload"@) == Some(s.raw_vendor_payload@)
}



/// A JSON string array from a string list.
fn string_array(values: &Vec<String>) -> (r: JsonValue)
    ensures
        r@ == JsonSpec::Arr(values@.map_values(|x: String| JsonSpec::Str(x@))),
{
    let mut items: Vec<JsonValue> = Vec::new();
    let mut i: usize = 0;
    proof {
        assert(crate::json::jspec_seq(items@) =~= values@.map_values(
            |x: String| JsonSpec::Str(x@),
        ).take(0));
    }
    while i < values.len()
        invariant
            i <= values@.len(),
            crate::json::jspec_seq(items@) == values@.map_values(
                |x: String| JsonSpec::Str(x@),
            ).take(i as int),
        decreases values@.len() - i,
    {
        let ghost before = items@;
        items.push(JsonValue::Str(crate::json::clone_string(&values[i])));
        proof {
            crate::json::lemma_jspec_seq_pointwise(before);
            crate::json::lemma_jspec_seq_pointwise(items@);
            assert(crate::json::jspec_seq(items@) =~= values@.map_values(
                |x: String| JsonSpec::Str(x@),
            ).take(i + 1));
        }
        i = i + 1;
    }
    proof {
        assert(values@.map_values(|x: String| JsonSpec::Str(x@)).take(values@.len() as int)
            =~= values@.map_values(|x: String| JsonSpec::Str(x@)));
    }
    JsonValue::Arr(items)
}

/// The JSON document of one event.
#[verifier::rlimit(100)]
pub fn event_to_json(e: &SteadEvent) -> (r: JsonValue)
    ensures
        event_json_matches(r@, *e),
        event_schema_valid(r@),
{
    let mut payload: Vec<(String, JsonValue)> = Vec::new();
    match &e.payload {
        EventPayload::Text { text } => {
            payload.push((String::from_str("type"), JsonValue::str_of("text")));
            payload.push((String::from_str("text"), JsonValue::str_of(text.as_str())));
        },
        EventPayload::ToolCall { tool_name, input } => {
            payload.push((String::from_str("type"), JsonValue::str_of("tool_call")));
            payload.push((String::from_str("tool_name"), JsonValue::str_of(tool_name.as_str())));
            payload.push((String::from_str("input"), input.deep_clone()));
        },
        EventPayload::ToolResult { call_id, ok, output_text, error_text } => {
            payload.push((String::from_str("type"), JsonValue::str_of("tool_result")));
            payload.push((String::from_str("call_id"), JsonValue::str_of(call_id.as_str())));
            payload.push((String::from_str("ok"), JsonValue::Bool(*ok)));
            payload.push(
                (
                    String::from_str("output_text"),
                    match output_text {
                        Some(t) => JsonValue::str_of(t.as_str()),
                        None => JsonValue::Null,
                    },
                ),
            );
            payload.push(
                (
                    String::from_str("error_text"),
                    match error_text {
                        Some(t) => JsonValue::str_of(t.as_str()),
                        None => JsonValue::Null,
                    },
                ),
            );
        },
        EventPayload::Json { value } => {
            payload.push((String::from_str("type"), JsonValue::str_of("json")));
            payload.push((String::from_str("value"), value.deep_clone()));
        },
    }
    let ghost payload_snap = payload@;
    let payload_obj = JsonValue::Obj(payload);
    proof {
        reveal_strlit("type");
        reveal_strlit("text");
        reveal_strlit("tool_name");
        reveal_strlit("input");
        reveal_strlit("call_id");
        reveal_strlit("ok");
        reveal_strlit("output_text");
        reveal_strlit("error_text");
        reveal_strlit("value");
        reveal_strlit("tool_call");
        reveal_strlit("tool_result");
        reveal_strlit("json");
        assert("type"@.len() == 4);
        assert("text"@.len() == 4);
        assert("type"@[0] == 't' && "type"@[1] == 'y');
        assert("text"@[1] == 'e');
        assert("tool_name"@.len() == 9);
        assert("input"@.len() == 5);
        assert("call_id"@.len() == 7);
        assert("ok"@.len() == 2);
        assert("output_text"@.len() == 11);
        assert("error_text"@.len() == 10);
        assert("value"@.len() == 5);
        crate::json::lemma_jspec_entries_pointwise(payload_snap);
        reveal_with_fuel(crate::json::lookup, 8);
        assert(payload_json_matches(payload_obj@, e.payload));
        assert(spec_get_str(payload_obj@, "type"@) is Some);
    }
    let mut entries: Vec<(String, JsonValue)> = Vec::new();
    entries.push((String::from_str("event_uid"), JsonValue::str_of(e.event_uid.as_str())));
    entries.push((String::from_str("stream_id"), JsonValue::str_of(e.stream_id.as_str())));
    entries.push(
        (
            String::from_str("line_number"),
            JsonValue::Num(crate::strutil::u64_to_dec(e.line_number)),
        ),
    );
    match &e.sequence {
        Some(n) => {
            entries.push(
                (String::from_str("sequence"), JsonValue::Num(crate::strutil::u64_to_dec(*n))),
            );
        },
        None => {},
    }
    entries.push(
        (
            String::from_str("timestamp"),
            JsonValue::Str(crate::clock::format_rfc3339(e.timestamp.millis)),
        ),
    );
    entries.push((String::from_str("kind"), JsonValue::str_of(kind_key_exec(e.kind))));
    match &e.actor {
        Some(a) => {
            let mut actor: Vec<(String, JsonValue)> = Vec::new();
            actor.push((String::from_str("role"), JsonValue::str_of(a.role.as_str())));
            match &a.agent_id {
                Some(x) => {
                    actor.push((String::from_str("agent_id"), JsonValue::str_of(x.as_str())));
                },
                None => {},
            }
            match &a.vendor_role {
                Some(x) => {
                    actor.push((String::from_str("vendor_role"), JsonValue::str_of(x.as_str())));
                },
                None => {},
            }
            let ghost actor_snap = actor@;
            let actor_obj = JsonValue::Obj(actor);
            proof {
                reveal_strlit("role");
                reveal_strlit("agent_id");
                reveal_strlit("vendor_role");
                assert("role"@.len() == 4);
                assert("agent_id"@.len() == 8);
                assert("vendor_role"@.len() == 11);
                assert("role"@[0] == 'r');
                crate::json::lemma_jspec_entries_pointwise(actor_snap);
                reveal_with_fuel(crate::json::lookup, 8);
                assert(actor_json_matches(actor_obj@, *a));
            }
            entries.push((String::from_str("actor"), actor_obj));
        },
        None => {},
    }
    entries.push((String::from_str("payload"), payload_obj));
    entries.push(
        (String::from_str("raw_vendor_payload"), e.raw_vendor_payload.deep_clone()),
    );
    entries.push((String::from_str("extensions"), e.extensions.deep_clone()));
    let r = JsonValue::Obj(entries);
    proof {
        reveal_strlit("event_uid");
        reveal_strlit("stream_id");
        reveal_strlit("line_number");
        reveal_strlit("sequence");
        reveal_strlit("timestamp");
        reveal_strlit("kind");
        reveal_strlit("actor");
        reveal_strlit("payload");
        reveal_strlit("raw_vendor_payload");
        reveal_strlit("extensions");
        assert("event_uid"@.len() == 9);
        assert("stream_id"@.len() == 9);
        assert("event_uid"@[0] == 'e' && "stream_id"@[0] == 's');
        assert("line_number"@.len() == 11);
        assert("sequence"@.len() == 8);
        assert("timestamp"@.len() == 9);
        assert("timestamp"@[0] == 't');
        assert("kind"@.len() == 4);
        assert("kind"@[0] == 'k');
        assert("actor"@.len() == 5);
        assert("payload"@.len() == 7);
        assert("raw_vendor_payload"@.len() == 18);
        assert("extensions"@.len() == 10);
        assert("extensions"@[0] == 'e' && "event_uid"@[1] == 'v' && "extensions"@[1] == 'x');
        crate::json::lemma_jspec_entries_pointwise(entries@);
        reveal_with_fuel(crate::json::lookup, 16);
        assert(event_json_matches(r@, *e));
        assert(event_schema_valid(r@));
    }
    r
}



/// The canonical JSON document of a session.  Every emitted document
/// satisfies the pinned schema.
#[verifier::rlimit(100)]
pub fn session_to_json(s: &SteadSession) -> (r: JsonValue)
    ensures
        session_json_matches(r@, *s),
        s.schema_version@ == crate::model::SCHEMA_VERSION@ ==> schema_valid(r@),
{
    let mut source: Vec<(String, JsonValue)> = Vec::new();
    source.push((String::from_str("backend"), JsonValue::str_of(s.source.backend.as_str())));
    source.push(
        (
            String::from_str("original_session_id"),
            JsonValue::str_of(s.source.original_session_id.as_str()),
        ),
    );
    source.push((String::from_str("source_files"), string_array(&s.source.source_files)));
    source.push(
        (
            String::from_str("imported_at"),
            JsonValue::Str(crate::clock::format_rfc3339(s.source.imported_at.millis)),
        ),
    );
    source.push(
        (
            String::from_str("adapter_version"),
            JsonValue::str_of(s.source.adapter_version.as_str()),
        ),
    );
    let ghost source_snap = source@;
    let source_obj = JsonValue::Obj(source);
    proof {
        reveal_strlit("backend");
        reveal_strlit("original_session_id");
        reveal_strlit("source_files");
        reveal_strlit("imported_at");
        reveal_strlit("adapter_version");
        assert("backend"@.len() == 7);
        assert("original_session_id"@.len() == 19);
        assert("source_files"@.len() == 12);
        assert("imported_at"@.len() == 11);
        assert("adapter_version"@.len() == 15);
        crate::json::lemma_jspec_entries_pointwise(source_snap);
        reveal_with_fuel(crate::json::lookup, 8);
        assert(spec_get_str(source_obj@, "backend"@) == Some(s.source.backend.key_spec()));
        assert(spec_get_str(source_obj@, "original_session_id"@) == Some(
            s.source.original_session_id@,
        ));
        assert(spec_get(source_obj@, "source_files"@) matches Some(f) && f is Arr);
        assert(spec_get_str(source_obj@, "imported_at"@) is Some);
        assert(spec_get_str(source_obj@, "adapter_version"@) == Some(s.source.adapter_version@));
    }
    let mut metadata: Vec<(String, JsonValue)> = Vec::new();
    metadata.push(
        (
            String::from_str("title"),
            match &s.metadata.title {
                Some(t) => JsonValue::str_of(t.as_str()),
                None => JsonValue::Null,
            },
        ),
    );
    metadata.push(
        (String::from_str("project_root"), JsonValue::str_of(s.metadata.project_root.as_str())),
    );
    metadata.push(
        (
            String::from_str("created_at"),
            JsonValue::Str(crate::clock::format_rfc3339(s.metadata.created_at.millis)),
        ),
    );
    metadata.push(
        (
            String::from_str("updated_at"),
            JsonValue::Str(crate::clock::format_rfc3339(s.metadata.updated_at.millis)),
        ),
    );
    metadata.push((String::from_str("tags"), string_array(&s.metadata.tags)));
    let ghost metadata_snap = metadata@;
    let metadata_obj = JsonValue::Obj(metadata);
    proof {
        reveal_strlit("title");
        reveal_strlit("project_root");
        reveal_strlit("created_at");
        reveal_strlit("updated_at");
        reveal_strlit("tags");
        assert("title"@.len() == 5);
        assert("project_root"@.len() == 12);
        assert("created_at"@.len() == 10);
        assert("updated_at"@.len() == 10);
        assert("created_at"@[0] == 'c' && "updated_at"@[0] == 'u');
        assert("tags"@.len() == 4);
        crate::json::lemma_jspec_entries_pointwise(metadata_snap);
        reveal_with_fuel(crate::json::lookup, 8);
        assert(spec_get_str(metadata_obj@, "project_root"@) == Some(s.metadata.project_root@));
        assert(spec_get_str(metadata_obj@, "created_at"@) is Some);
        assert(spec_get_str(metadata_obj@, "updated_at"@) is Some);
        assert(spec_get(metadata_obj@, "tags"@) matches Some(t) && t is Arr);
    }
    let mut events: Vec<JsonValue> = Vec::new();
    let mut i: usize = 0;
    while i < s.events.len()
        invariant
            i <= s.events@.len(),
            events@.len() == i,
            forall|j: int|
                0 <= j < i ==> event_json_matches(
                    crate::json::jspec(#[trigger] events@[j]),
                    s.events@[j],
                ) && event_schema_valid(crate::json::jspec(events@[j])),
        decreases s.events@.len() - i,
    {
        events.push(event_to_json(&s.events[i]));
        i = i + 1;
    }
    let ghost events_snap = events@;
    let events_arr = JsonValue::Arr(events);
    proof {
        crate::json::lemma_jspec_seq_pointwise(events_snap);
    }
    let mut artifacts: Vec<JsonValue> = Vec::new();
    let mut ai: usize = 0;
    while ai < s.artifacts.len()
        invariant
            ai <= s.artifacts@.len(),
            artifacts@.len() == ai,
        decreases s.artifacts@.len() - ai,
    {
        let a = &s.artifacts[ai];
        let mut entry: Vec<(String, JsonValue)> = Vec::new();
        entry.push((String::from_str("artifact_uid"), JsonValue::str_of(a.artifact_uid.as_str())));
        entry.push((String::from_str("kind"), JsonValue::str_of(a.kind.as_str())));
        entry.push(
            (
                String::from_str("source_event_uid"),
                JsonValue::str_of(a.source_event_uid.as_str()),
            ),
        );
        match &a.path {
            Some(p) => {
                entry.push((String::from_str("path"), JsonValue::str_of(p.as_str())));
            },
            None => {},
        }
        match &a.mime_type {
            Some(m) => {
                entry.push((String::from_str("mime_type"), JsonValue::str_of(m.as_str())));
            },
            None => {},
        }
        match &a.sha256 {
            Some(h) => {
                entry.push((String::from_str("sha256"), JsonValue::str_of(h.as_str())));
            },
            None => {},
        }
        entry.push((String::from_str("extensions"), a.extensions.deep_clone()));
        artifacts.push(JsonValue::Obj(entry));
        ai = ai + 1;
    }
    let ghost artifacts_snap = artifacts@;
    let artifacts_arr = JsonValue::Arr(artifacts);
    proof {
        crate::json::lemma_jspec_seq_pointwise(artifacts_snap);
    }
    let mut lineage_val: Option<JsonValue> = None;
    match &s.lineage {
        Some(l) => {
            let mut entry: Vec<(String, JsonValue)> = Vec::new();
            match &l.root_session_uid {
                Some(x) => {
                    entry.push(
                        (String::from_str("root_session_uid"), JsonValue::str_of(x.as_str())),
                    );
                },
                None => {},
            }
            match &l.parent_session_uid {
                Some(x) => {
                    entry.push(
                        (String::from_str("parent_session_uid"), JsonValue::str_of(x.as_str())),
                    );
                },
                None => {},
            }
            match &l.fork_origin_event_uid {
                Some(x) => {
                    entry.push(
                        (String::from_str("fork_origin_event_uid"), JsonValue::str_of(x.as_str())),
                    );
                },
                None => {},
            }
            match &l.strategy {
                Some(x) => {
                    entry.push((String::from_str("strategy"), JsonValue::str_of(x.as_str())));
                },
                None => {},
            }
            lineage_val = Some(JsonValue::Obj(entry));
        },
        None => {},
    }
    let mut entries: Vec<(String, JsonValue)> = Vec::new();
    entries.push(
        (String::from_str("schema_version"), JsonValue::str_of(s.schema_version.as_str())),
    );
    entries.push((String::from_str("session_uid"), JsonValue::str_of(s.session_uid.as_str())));
    match &s.shared_session_uid {
        Some(u) => {
            entries.push(
                (String::from_str("shared_session_uid"), JsonValue::str_of(u.as_str())),
            );
        },
        None => {},
    }
    entries.push((String::from_str("source"), source_obj));
    entries.push((String::from_str("metadata"), metadata_obj));
    entries.push((String::from_str("events"), events_arr));
    entries.push((String::from_str("artifacts"), artifacts_arr));
    entries.push((String::from_str("capabilities"), s.capabilities.deep_clone()));
    entries.push((String::from_str("extensions"), s.extensions.deep_clone()));
    match lineage_val {
        Some(l) => {
            entries.push((String::from_str("lineage"), l));
        },
        None => {},
    }
    entries.push(
        (String::from_str("raw_vendor_payload"), s.raw_vendor_payload.deep_clone()),
    );
    let r = JsonValue::Obj(entries);
    proof {
        reveal_strlit("schema_version");
        reveal_strlit("session_uid");
        reveal_strlit("shared_session_uid");
        reveal_strlit("source");
        reveal_strlit("metadata");
        reveal_strlit("events");
        reveal_strlit("artifacts");
        reveal_strlit("capabilities");
        reveal_strlit("extensions");
        reveal_strlit("lineage");
        reveal_strlit("raw_vendor_payload");
        assert("schema_version"@.len() == 14);
        assert("session_uid"@.len() == 11);
        assert("shared_session_uid"@.len() == 18);
        assert("source"@.len() == 6);
        assert("events"@.len() == 6);
        assert("source"@[0] == 's' && "events"@[0] == 'e');
        assert("metadata"@.len() == 8);
        assert("artifacts"@.len() == 9);
        assert("capabilities"@.len() == 12);
        assert("extensions"@.len() == 10);
        assert("lineage"@.len() == 7);
        assert("raw_vendor_payload"@.len() == 18);
        assert("raw_vendor_payload"@[0] == 'r' && "shared_session_uid"@[0] == 's');
        assert("shared_session_uid"@[1] == 'h' && "session_uid"@[1] == 'e' && "source"@[1] == 'o');
        crate::json::lemma_jspec_entries_pointwise(entries@);
        reveal_with_fuel(crate::json::lookup, 16);
        assert(spec_get_str(r@, "schema_version"@) == Some(s.schema_version@));
        assert(spec_get_str(r@, "session_uid"@) == Some(s.session_uid@));
        assert(match s.shared_session_uid {
            Some(u) => spec_get_str(r@, "shared_session_uid"@) == Some(u@),
            None => spec_get(r@, "shared_session_uid"@) is None,
        });
        assert(spec_get(r@, "source"@) == Some(jspec(source_obj)));
        assert(spec_get(r@, "metadata"@) == Some(jspec(metadata_obj)));
        assert(spec_get(r@, "events"@) == Some(jspec(events_arr)));
        assert(jspec(events_arr)->Arr_0 == crate::json::jspec_seq(events_snap));
        assert(crate::json::jspec_seq(events_snap).len() == s.events@.len());
        assert(forall|j: int|
            0 <= j < s.events@.len() ==> event_json_matches(
                #[trigger] crate::json::jspec_seq(events_snap)[j],
                s.events@[j],
            ));
        assert(spec_get(r@, "artifacts"@) matches Some(ar) && ar is Arr && ar->Arr_0.len()
            == s.artifacts@.len());
        assert(spec_get(r@, "capabilities"@) == Some(s.capabilities@));
        assert(spec_get(r@, "extensions"@) == Some(s.extensions@));
        assert(spec_get(r@, "raw_vendor_payload"@) == Some(s.raw_vendor_payload@));
        assert(session_json_matches(r@, *s));
        if s.schema_version@ == crate::model::SCHEMA_VERSION@ {
            assert(schema_valid(r@));
        }
    }
    r
}



/// What an RFC 3339 string field reads as: its instant, zero when absent,
/// not a string, or unparsable.
pub open spec fn ts_field_or_zero(v: JsonSpec, key: Seq<char>) -> int {
    match spec_get_str(v, key) {
        Some(t) => match crate::clock::rfc3339_millis(t) {
            Some(ms) => ms,
            None => 0,
        },
        None => 0,
    }
}

/// Milliseconds of an RFC 3339 string field, zero when absent or
/// unparsable.
fn ts_of_field(v: &JsonValue, key: &str) -> (r: i64)
    ensures
        r as int == ts_field_or_zero(v@, key@),
{
    match v.get_str(key) {
        Some(t) => match crate::clock::parse_rfc3339(t) {
            Some(ms) => ms,
            None => 0,
        },
        None => 0,
    }
}

/// What a decimal number field reads as: zero when absent, not a number,
/// not a plain digit string, or too large.
pub open spec fn num_field_or_zero_spec(v: JsonSpec, key: Seq<char>) -> int {
    match spec_get(v, key) {
        Some(n) => if n is Num {
            crate::strutil::dec_u64_or_zero(n->Num_0)
        } else {
            0
        },
        None => 0,
    }
}

/// A decimal number field, zero when absent or unreadable.
fn num_field_or_zero(v: &JsonValue, key: &str) -> (r: u64)
    ensures
        r as int == num_field_or_zero_spec(v@, key@),
{
    match v.get(key) {
        Some(n) => match n {
            JsonValue::Num(text) => crate::strutil::dec_to_u64(text.as_str()),
            _ => 0,
        },
        _ => 0,
    }
}

/// The string list of a JSON array field: every string element, in order;
/// empty when the field is absent or not an array.
fn strings_of_field(v: &JsonValue, key: &str) -> (r: Vec<String>)
    ensures
        match spec_get(v@, key@) {
            Some(c) => if c is Arr {
                crate::adapter::texts_of(r@) == crate::json::strings_in(c->Arr_0)
            } else {
                r@.len() == 0
            },
            None => r@.len() == 0,
        },
{
    let mut out: Vec<String> = Vec::new();
    match v.get(key) {
        Some(c) => match c {
            JsonValue::Arr(items) => {
                let ghost items_v = crate::json::jspec_seq(items@);
                proof {
                    crate::json::lemma_jspec_seq_pointwise(items@);
                    assert(items_v.take(0) =~= Seq::<JsonSpec>::empty());
                    assert(crate::adapter::texts_of(out@) =~= crate::json::strings_in(
                        items_v.take(0),
                    ));
                }
                let mut i: usize = 0;
                while i < items.len()
                    invariant
                        items_v.len() == items@.len(),
                        forall|j: int|
                            0 <= j < items@.len() ==> #[trigger] items_v[j] == items@[j]@,
                        i <= items@.len(),
                        crate::adapter::texts_of(out@) == crate::json::strings_in(
                            items_v.take(i as int),
                        ),
                    decreases items@.len() - i,
                {
                    proof {
                        assert(items_v.take(i + 1).drop_last() =~= items_v.take(i as int));
                        assert(items_v.take(i + 1).last() == items_v[i as int]);
                    }
                    match items[i].as_str() {
                        Some(t) => {
                            let ghost before = out@;
                            out.push(t.to_owned());
                            proof {
                                assert(crate::adapter::texts_of(out@)
                                    =~= crate::adapter::texts_of(before).push(t@));
                                assert(crate::json::strings_in(items_v.take(i + 1))
                                    =~= crate::json::strings_in(items_v.take(i as int)).push(t@));
                            }
                        },
                        None => {
                            proof {
                                assert(crate::json::strings_in(items_v.take(i + 1))
                                    =~= crate::json::strings_in(items_v.take(i as int)));
                            }
                        },
                    }
                    i = i + 1;
                }
                proof {
                    assert(items_v.take(items_v.len() as int) =~= items_v);
                }
                out
            },
            _ => out,
        },
        None => out,
    }
}

/// How the decoder reads an actor object.
pub open spec fn actor_decoded_matches(v: JsonSpec, a: EventActor) -> bool {
    &&& a.role@ == (match spec_get_str(v, "role"@) {
        Some(t) => t,
        None => Seq::empty(),
    })
    &&& (match a.agent_id {
        Some(x) => spec_get_str(v, "agent_id"@) == Some(x@),
        None => spec_get_str(v, "agent_id"@) is None,
    })
    &&& (match a.vendor_role {
        Some(x) => spec_get_str(v, "vendor_role"@) == Some(x@),
        None => spec_get_str(v, "vendor_role"@) is None,
    })
}

/// How the decoder reads a payload object.
pub open spec fn payload_decoded_matches(p: JsonSpec, payload: EventPayload) -> bool {
    match payload {
        EventPayload::Text { text } => {
            &&& spec_get_str(p, "type"@) == Some("text"@)
            &&& spec_get_str(p, "text"@) == Some(text@)
        },
        EventPayload::ToolCall { tool_name, input } => {
            &&& spec_get_str(p, "type"@) == Some("tool_call"@)
            &&& spec_get_str(p, "tool_name"@) == Some(tool_name@)
            &&& spec_get(p, "input"@) == Some(input@)
        },
        EventPayload::ToolResult { call_id, ok, output_text, error_text } => {
            &&& spec_get_str(p, "type"@) == Some("tool_result"@)
            &&& spec_get_str(p, "call_id"@) == Some(call_id@)
            &&& spec_get(p, "ok"@) == Some(JsonSpec::Bool(ok))
            &&& (match output_text {
                Some(x) => spec_get_str(p, "output_text"@) == Some(x@),
                None => spec_get_str(p, "output_text"@) is None,
            })
            &&& (match error_text {
                Some(x) => spec_get_str(p, "error_text"@) == Some(x@),
                None => spec_get_str(p, "error_text"@) is None,
            })
        },
        EventPayload::Json { value } => {
            &&& spec_get_str(p, "type"@) == Some("json"@)
            &&& spec_get(p, "value"@) == Some(value@)
        },
    }
}

/// How the decoder reads a whole event document.
pub open spec fn event_decoded_matches(v: JsonSpec, e: SteadEvent) -> bool {
    &&& spec_get_str(v, "event_uid"@) == Some(e.event_uid@)
    &&& spec_get_str(v, "stream_id"@) == Some(e.stream_id@)
    &&& (spec_get(v, "line_number"@) matches Some(n) && n is Num && e.line_number as int
        == crate::strutil::dec_u64_or_zero(n->Num_0))
    &&& (match e.sequence {
        Some(q) => spec_get(v, "sequence"@) matches Some(n) && n is Num && q as int
            == crate::strutil::dec_u64_or_zero(n->Num_0),
        None => !(spec_get(v, "sequence"@) matches Some(n) && n is Num),
    })
    &&& e.timestamp.millis as int == ts_field_or_zero(v, "timestamp"@)
    &&& spec_get_str(v, "kind"@) == Some(kind_key(e.kind))
    &&& (match e.actor {
        Some(a) => spec_get(v, "actor"@) matches Some(av) && actor_decoded_matches(av, a),
        None => spec_get(v, "actor"@) is None,
    })
    &&& (spec_get(v, "payload"@) matches Some(p) && payload_decoded_matches(p, e.payload))
    &&& spec_get(v, "raw_vendor_payload"@) == Some(e.raw_vendor_payload@)
    &&& spec_get(v, "extensions"@) == Some(e.extensions@)
}

/// One event out of its canonical document.
fn event_from_json(v: &JsonValue) -> (r: Option<SteadEvent>)
    ensures
        match r {
            Some(e) => event_decoded_matches(v@, e),
            None => !event_schema_valid(v@),
        },
{
    let event_uid = match v.get_str("event_uid") {
        Some(t) => t.to_owned(),
        None => {
            return None;
        },
    };
    let stream_id = match v.get_str("stream_id") {
        Some(t) => t.to_owned(),
        None => {
            return None;
        },
    };
    let has_line_number = match v.get("line_number") {
        Some(n) => matches!(n, JsonValue::Num(_)),
        None => false,
    };
    if !has_line_number {
        return None;
    }
    let line_number = num_field_or_zero(v, "line_number");
    let sequence: Option<u64> = match v.get("sequence") {
        Some(n) => match n {
            JsonValue::Num(text) => Some(crate::strutil::dec_to_u64(text.as_str())),
            _ => None,
        },
        None => None,
    };
    if v.get_str("timestamp").is_none() {
        return None;
    }
    let timestamp = Timestamp::new(ts_of_field(v, "timestamp"));
    let kind = match v.get_str("kind") {
        Some(k) => match kind_of_key(k) {
            Some(kk) => kk,
            None => {
                return None;
            },
        },
        None => {
            return None;
        },
    };
    let actor: Option<EventActor> = match v.get("actor") {
        Some(a) => {
            let role = match a.get_str("role") {
                Some(t) => t.to_owned(),
                None => String::new(),
            };
            let agent_id = match a.get_str("agent_id") {
                Some(t) => Some(t.to_owned()),
                None => None,
            };
            let vendor_role = match a.get_str("vendor_role") {
                Some(t) => Some(t.to_owned()),
                None => None,
            };
            Some(EventActor { role, agent_id, vendor_role })
        },
        None => None,
    };
    let p = match v.get("payload") {
        Some(p) => p,
        None => {
            return None;
        },
    };
    proof {
        reveal_strlit("text");
        reveal_strlit("tool_call");
        reveal_strlit("tool_result");
        reveal_strlit("json");
        assert("text"@.len() == 4);
        assert("tool_call"@.len() == 9);
        assert("tool_result"@.len() == 11);
        assert("json"@.len() == 4);
        assert("text"@[0] == 't' && "json"@[0] == 'j');
    }
    let ptype = match p.get_str("type") {
        Some(t) => t,
        None => {
            return None;
        },
    };
    let payload: EventPayload = if crate::strutil::str_eq(ptype, "text") {
        match p.get_str("text") {
            Some(t) => EventPayload::Text { text: t.to_owned() },
            None => {
                return None;
            },
        }
    } else if crate::strutil::str_eq(ptype, "tool_call") {
        let tool_name = match p.get_str("tool_name") {
            Some(t) => t.to_owned(),
            None => {
                return None;
            },
        };
        let input = match p.get("input") {
            Some(x) => x.deep_clone(),
            None => {
                return None;
            },
        };
        EventPayload::ToolCall { tool_name, input }
    } else if crate::strutil::str_eq(ptype, "tool_result") {
        let call_id = match p.get_str("call_id") {
            Some(t) => t.to_owned(),
            None => {
                return None;
            },
        };
        let ok = match p.get("ok") {
            Some(b) => match b {
                JsonValue::Bool(x) => *x,
                _ => {
                    return None;
                },
            },
            None => {
                return None;
            },
        };
        let output_text = match p.get_str("output_text") {
            Some(t) => Some(t.to_owned()),
            None => None,
        };
        let error_text = match p.get_str("error_text") {
            Some(t) => Some(t.to_owned()),
            None => None,
        };
        EventPayload::ToolResult { call_id, ok, output_text, error_text }
    } else if crate::strutil::str_eq(ptype, "json") {
        match p.get("value") {
            Some(x) => EventPayload::Json { value: x.deep_clone() },
            None => {
                return None;
            },
        }
    } else {
        return None;
    };
    let raw_vendor_payload = match v.get("raw_vendor_payload") {
        Some(x) => x.deep_clone(),
        None => {
            return None;
        },
    };
    let extensions = match v.get("extensions") {
        Some(x) => x.deep_clone(),
        None => {
            return None;
        },
    };
    Some(
        SteadEvent {
            event_uid,
            stream_id,
            line_number,
            sequence,
            timestamp,
            kind,
            actor,
            payload,
            raw_vendor_payload,
            extensions,
        },
    )
}

/// A session out of its canonical document; `None` exactly when the
/// document does not satisfy the pinned schema, except that the version
/// string is carried as found.
pub fn session_from_json(v: &JsonValue) -> (r: Option<SteadSession>)
    ensures
        match r {
            Some(s) => {
                &&& spec_get_str(v@, "schema_version"@) == Some(s.schema_version@)
                &&& spec_get_str(v@, "session_uid"@) == Some(s.session_uid@)
                &&& (match s.shared_session_uid {
                    Some(u) => spec_get_str(v@, "shared_session_uid"@) == Some(u@),
                    None => !(spec_get(v@, "shared_session_uid"@) matches Some(x) && x is Str),
                })
                &&& (spec_get(v@, "source"@) matches Some(src) && {
                    &&& spec_get_str(src, "original_session_id"@) == Some(
                        s.source.original_session_id@,
                    )
                    &&& spec_get_str(src, "backend"@) == Some(s.source.backend.key_spec())
                    &&& (spec_get(src, "source_files"@) matches Some(f) && f is Arr
                        && crate::adapter::texts_of(s.source.source_files@)
                        == crate::json::strings_in(f->Arr_0))
                    &&& s.source.imported_at.millis as int == ts_field_or_zero(
                        src,
                        "imported_at"@,
                    )
                    &&& spec_get_str(src, "adapter_version"@) == Some(s.source.adapter_version@)
                })
                &&& (spec_get(v@, "metadata"@) matches Some(m) && {
                    &&& (match s.metadata.title {
                        Some(t) => spec_get_str(m, "title"@) == Some(t@),
                        None => spec_get_str(m, "title"@) is None,
                    })
                    &&& spec_get_str(m, "project_root"@) == Some(s.metadata.project_root@)
                    &&& s.metadata.created_at.millis as int == ts_field_or_zero(m, "created_at"@)
                    &&& s.metadata.updated_at.millis as int == ts_field_or_zero(m, "updated_at"@)
                    &&& (spec_get(m, "tags"@) matches Some(t) && t is Arr
                        && crate::adapter::texts_of(s.metadata.tags@) == crate::json::strings_in(
                        t->Arr_0,
                    ))
                })
                &&& (spec_get(v@, "events"@) matches Some(evs) && evs is Arr && s.events@.len()
                    == evs->Arr_0.len() && (forall|i: int|
                    0 <= i < s.events@.len() ==> event_decoded_matches(
                        #[trigger] evs->Arr_0[i],
                        s.events@[i],
                    )))
                &&& (match spec_get(v@, "capabilities"@) {
                    Some(c) => s.capabilities@ == c,
                    None => s.capabilities@ == JsonSpec::Obj(Seq::<(Seq<char>, JsonSpec)>::empty()),
                })
                &&& (match spec_get(v@, "extensions"@) {
                    Some(c) => s.extensions@ == c,
                    None => s.extensions@ == JsonSpec::Obj(Seq::<(Seq<char>, JsonSpec)>::empty()),
                })
                &&& (match s.lineage {
                    Some(l) => spec_get(v@, "lineage"@) matches Some(lv) && {
                        &&& crate::adapter::opt_str_is(
                            l.root_session_uid,
                            spec_get_str(lv, "root_session_uid"@),
                        )
                        &&& crate::adapter::opt_str_is(
                            l.parent_session_uid,
                            spec_get_str(lv, "parent_session_uid"@),
                        )
                        &&& crate::adapter::opt_str_is(
                            l.fork_origin_event_uid,
                            spec_get_str(lv, "fork_origin_event_uid"@),
                        )
                        &&& crate::adapter::opt_str_is(l.strategy, spec_get_str(lv, "strategy"@))
                    },
                    None => spec_get(v@, "lineage"@) is None,
                })
                &&& spec_get(v@, "raw_vendor_payload"@) == Some(s.raw_vendor_payload@)
                &&& s.artifacts@.len() == 0
            },
            None => !schema_valid(v@),
        },
{
    proof {
        reveal_strlit("codex");
        reveal_strlit("claude_code");
        assert("codex"@.len() == 5);
        assert("claude_code"@.len() == 11);
    }
    let schema_version = match v.get_str("schema_version") {
        Some(t) => t.to_owned(),
        None => {
            return None;
        },
    };
    let session_uid = match v.get_str("session_uid") {
        Some(t) => t.to_owned(),
        None => {
            return None;
        },
    };
    let shared_session_uid = match v.get_str("shared_session_uid") {
        Some(t) => Some(t.to_owned()),
        None => None,
    };
    let src = match v.get("source") {
        Some(x) => x,
        None => {
            return None;
        },
    };
    let backend = match src.get_str("backend") {
        Some(b) => {
            if crate::strutil::str_eq(b, "codex") {
                BackendKind::Codex
            } else if crate::strutil::str_eq(b, "claude_code") {
                BackendKind::ClaudeCode
            } else {
                return None;
            }
        },
        None => {
            return None;
        },
    };
    let original_session_id = match src.get_str("original_session_id") {
        Some(t) => t.to_owned(),
        None => {
            return None;
        },
    };
    let has_files = match src.get("source_files") {
        Some(f) => matches!(f, JsonValue::Arr(_)),
        None => false,
    };
    if !has_files {
        return None;
    }
    let source_files = strings_of_field(src, "source_files");
    if src.get_str("imported_at").is_none() {
        return None;
    }
    let imported_at = Timestamp::new(ts_of_field(src, "imported_at"));
    let adapter_version = match src.get_str("adapter_version") {
        Some(t) => t.to_owned(),
        None => {
            return None;
        },
    };
    let m = match v.get("metadata") {
        Some(x) => x,
        None => {
            return None;
        },
    };
    let title = match m.get_str("title") {
        Some(t) => Some(t.to_owned()),
        None => None,
    };
    let project_root = match m.get_str("project_root") {
        Some(t) => t.to_owned(),
        None => {
            return None;
        },
    };
    if m.get_str("created_at").is_none() || m.get_str("updated_at").is_none() {
        return None;
    }
    let created_at = Timestamp::new(ts_of_field(m, "created_at"));
    let updated_at = Timestamp::new(ts_of_field(m, "updated_at"));
    let has_tags = match m.get("tags") {
        Some(t) => matches!(t, JsonValue::Arr(_)),
        None => false,
    };
    if !has_tags {
        return None;
    }
    let tags = strings_of_field(m, "tags");
    let evs = match v.get("events") {
        Some(c) => match c {
            JsonValue::Arr(items) => items,
            _ => {
                return None;
            },
        },
        None => {
            return None;
        },
    };
    let ghost evs_v = crate::json::jspec_seq(evs@);
    proof {
        crate::json::lemma_jspec_seq_pointwise(evs@);
    }
    let mut events: Vec<SteadEvent> = Vec::new();
    let mut i: usize = 0;
    while i < evs.len()
        invariant
            spec_get(v@, "events"@) == Some(JsonSpec::Arr(evs_v)),
            evs_v.len() == evs@.len(),
            forall|j: int| 0 <= j < evs@.len() ==> #[trigger] evs_v[j] == evs@[j]@,
            i <= evs@.len(),
            events@.len() == i,
            forall|j: int|
                0 <= j < i ==> event_decoded_matches(evs_v[j], #[trigger] events@[j]),
        decreases evs@.len() - i,
    {
        match event_from_json(&evs[i]) {
            Some(e) => {
                events.push(e);
            },
            None => {
                proof {
                    assert(!event_schema_valid(evs_v[i as int]));
                    assert(spec_get(v@, "events"@) == Some(JsonSpec::Arr(evs_v)));
                    assert(JsonSpec::Arr(evs_v)->Arr_0 == evs_v);
                    assert(!schema_valid(v@));
                }
                return None;
            },
        }
        i = i + 1;
    }
    let raw_vendor_payload = match v.get("raw_vendor_payload") {
        Some(x) => x.deep_clone(),
        None => {
            return None;
        },
    };
    let capabilities = match v.get("capabilities") {
        Some(x) => x.deep_clone(),
        None => JsonValue::obj_empty(),
    };
    let extensions = match v.get("extensions") {
        Some(x) => x.deep_clone(),
        None => JsonValue::obj_empty(),
    };
    let lineage: Option<SessionLineage> = match v.get("lineage") {
        Some(l) => {
            let root_session_uid = match l.get_str("root_session_uid") {
                Some(t) => Some(t.to_owned()),
                None => None,
            };
            let parent_session_uid = match l.get_str("parent_session_uid") {
                Some(t) => Some(t.to_owned()),
                None => None,
            };
            let fork_origin_event_uid = match l.get_str("fork_origin_event_uid") {
                Some(t) => Some(t.to_owned()),
                None => None,
            };
            let strategy = match l.get_str("strategy") {
                Some(t) => Some(t.to_owned()),
                None => None,
            };
            Some(
                SessionLineage {
                    root_session_uid,
                    parent_session_uid,
                    fork_origin_event_uid,
                    strategy,
                },
            )
        },
        None => None,
    };
    Some(
        SteadSession {
            schema_version,
            session_uid,
            shared_session_uid,
            source: crate::model::SessionSource {
                backend,
                original_session_id,
                source_files,
                imported_at,
                adapter_version,
            },
            metadata: crate::model::SessionMetadata {
                title,
                project_root,
                created_at,
                updated_at,
                tags,
            },
            events,
            artifacts: Vec::new(),
            capabilities,
            extensions,
            lineage,
            raw_vendor_payload,
        },
    )
}


} // verus!
