//! The claude_code adapter: the per-project JSONL format with `user` /
//! `assistant` / `progress` entries, sub-agent side streams and split-file
//! (rewind) reconciliation.  Everything here works on parsed lines; file
//! discovery stays outside the crate.

use vstd::prelude::*;

use crate::adapter::AdapterError;
use crate::adapter::NativeSessionRef;
use crate::json::JsonValue;
use crate::model::BackendKind;
use crate::model::EventKind;
use crate::model::EventPayload;
use crate::model::SteadEvent;
use crate::model::SteadSession;
use crate::model::Timestamp;

verus! {

use crate::adapter::docs_of;
use crate::adapter::jsonl_docs;
use crate::adapter::jsonl_ok;
use crate::adapter::texts_of;
use crate::clock::rfc3339_millis;
use crate::json::JsonSpec;
use crate::json::spec_get;
use crate::json::spec_get_str;
use crate::model::EventSketch;
use crate::model::PayloadSketch;
use crate::strutil::dec_spec;

/// A claude_code project tree, rooted at `base_dir`.
#[derive(Debug, PartialEq, Eq)]
pub struct ClaudeAdapter {
    pub base_dir: String,
}

impl ClaudeAdapter {
    pub fn from_base_dir(base_dir: &str) -> (r: ClaudeAdapter)
        ensures
            r.base_dir@ == base_dir@,
    {
        ClaudeAdapter { base_dir: base_dir.to_owned() }
    }
}

/// Where the project tree starts: the base directory itself when its final
/// component is already `projects` (in any ASCII case), else its `projects`
/// child.
pub open spec fn claude_projects_root_spec(base: Seq<char>) -> Seq<char> {
    if crate::strutil::eq_ignore_ascii_case_spec(
        base.skip(crate::strutil::stem_start(base)),
        "projects"@,
    ) {
        base
    } else {
        base + "/projects"@
    }
}

pub fn claude_projects_root(base_dir: &str) -> (r: String)
    ensures
        r@ == claude_projects_root_spec(base_dir@),
{
    let n = base_dir.unicode_len();
    let start = crate::materialize::last_component_start(base_dir);
    let last = base_dir.substring_char(start, n);
    if crate::strutil::eq_ignore_ascii_case_str(last, "projects") {
        base_dir.to_owned()
    } else {
        let mut out = base_dir.to_owned();
        out.append("/projects");
        out
    }
}

/// The instant a line carries, when it parses.
pub open spec fn entry_ts(line: JsonSpec) -> Option<int> {
    match spec_get_str(line, "timestamp"@) {
        Some(t) => rfc3339_millis(t),
        None => None,
    }
}

/// The instant an event gets: the line's, else the wall clock.
pub open spec fn entry_ts_or(line: JsonSpec, now: int) -> int {
    match entry_ts(line) {
        Some(ms) => ms,
        None => now,
    }
}

/// The extensions object every claude_code event carries.
pub open spec fn source_file_ext(path: Seq<char>) -> JsonSpec {
    JsonSpec::Obj(seq![("source_file"@, JsonSpec::Str(path))])
}

/// The line's `uuid`, or the `ev` placeholder.
pub open spec fn entry_uuid(line: JsonSpec) -> Seq<char> {
    match spec_get_str(line, "uuid"@) {
        Some(u) => u,
        None => "ev"@,
    }
}

/// `<uuid>-<line>` identifiers of whole-message events.
pub open spec fn text_uid(line: JsonSpec, line_no: int) -> Seq<char> {
    entry_uuid(line) + "-"@ + dec_spec(line_no as nat)
}

/// The stable discriminator of a content item.
pub open spec fn item_discriminator(item: JsonSpec, idx: int) -> Seq<char> {
    match spec_get_str(item, "id"@) {
        Some(id) => id,
        None => match spec_get_str(item, "tool_use_id"@) {
            Some(t) => t,
            None => "item-"@ + dec_spec(idx as nat),
        },
    }
}

/// `<uuid>-<line>-<discriminator>`.
pub open spec fn item_uid(line: JsonSpec, line_no: int, item: JsonSpec, idx: int) -> Seq<char> {
    entry_uuid(line) + "-"@ + dec_spec(line_no as nat) + "-"@ + item_discriminator(item, idx)
}

/// The call id of a content item: its `id`, its `tool_use_id`, else the
/// item's event uid.
pub open spec fn item_call_id(line: JsonSpec, line_no: int, item: JsonSpec, idx: int) -> Seq<
    char,
> {
    match spec_get_str(item, "id"@) {
        Some(id) => id,
        None => match spec_get_str(item, "tool_use_id"@) {
            Some(t) => t,
            None => item_uid(line, line_no, item, idx),
        },
    }
}

/// The message kind of a role.
pub open spec fn role_kind(m: JsonSpec) -> EventKind {
    if spec_get_str(m, "role"@) == Some("assistant"@) {
        EventKind::MessageAssistant
    } else {
        EventKind::MessageUser
    }
}

/// Text a tool result's `content` value coerces to.
pub open spec fn value_text(v: Option<JsonSpec>) -> Option<Seq<char>> {
    match v {
        Some(JsonSpec::Str(t)) => Some(t),
        Some(other) => Some(crate::jsontext::json_compact(other)),
        None => None,
    }
}

/// The sketch every claude_code event shares.
pub open spec fn claude_event_base(
    uid: Seq<char>,
    stream: Seq<char>,
    path: Seq<char>,
    line: JsonSpec,
    line_no: int,
    ts: int,
    kind: EventKind,
    payload: PayloadSketch,
) -> EventSketch {
    EventSketch {
        event_uid: uid,
        stream_id: stream,
        line_number: line_no,
        timestamp: ts,
        kind,
        actor: None,
        payload,
        raw_vendor_payload: line,
        extensions: source_file_ext(path),
    }
}

/// The events one content item yields.
pub open spec fn claude_item_events(
    line: JsonSpec,
    m: JsonSpec,
    stream: Seq<char>,
    path: Seq<char>,
    line_no: int,
    ts: int,
    item: JsonSpec,
    idx: int,
) -> Seq<EventSketch> {
    if spec_get_str(item, "type"@) == Some("text"@) {
        match spec_get_str(item, "text"@) {
            Some(t) => seq![
                claude_event_base(
                    item_uid(line, line_no, item, idx),
                    stream,
                    path,
                    line,
                    line_no,
                    ts,
                    role_kind(m),
                    PayloadSketch::Text { text: t },
                ),
            ],
            None => Seq::empty(),
        }
    } else if spec_get_str(item, "type"@) == Some("tool_use"@) {
        seq![
            claude_event_base(
                item_call_id(line, line_no, item, idx),
                stream,
                path,
                line,
                line_no,
                ts,
                EventKind::ToolCall,
                PayloadSketch::ToolCall {
                    tool_name: match spec_get_str(item, "name"@) {
                        Some(n) => n,
                        None => "unknown"@,
                    },
                    input: match spec_get(item, "input"@) {
                        Some(v) => v,
                        None => JsonSpec::Obj(Seq::empty()),
                    },
                },
            ),
        ]
    } else if spec_get_str(item, "type"@) == Some("tool_result"@) {
        seq![
            claude_event_base(
                item_uid(line, line_no, item, idx) + "-result"@,
                stream,
                path,
                line,
                line_no,
                ts,
                EventKind::ToolResult,
                PayloadSketch::ToolResult {
                    call_id: item_call_id(line, line_no, item, idx),
                    ok: !(spec_get(item, "is_error"@) == Some(JsonSpec::Bool(true))),
                    output_text: value_text(spec_get(item, "content"@)),
                    error_text: None,
                },
            ),
        ]
    } else {
        Seq::empty()
    }
}

/// The events of a whole content array.
pub open spec fn claude_items_events(
    line: JsonSpec,
    m: JsonSpec,
    stream: Seq<char>,
    path: Seq<char>,
    line_no: int,
    ts: int,
    items: Seq<JsonSpec>,
) -> Seq<EventSketch>
    decreases items.len(),
{
    if items.len() == 0 {
        Seq::empty()
    } else {
        claude_items_events(line, m, stream, path, line_no, ts, items.drop_last())
            + claude_item_events(
            line,
            m,
            stream,
            path,
            line_no,
            ts,
            items.last(),
            (items.len() - 1) as int,
        )
    }
}

/// The canonical events one claude_code line yields.
pub open spec fn claude_line_events(
    line: JsonSpec,
    stream: Seq<char>,
    path: Seq<char>,
    line_no: int,
    now: int,
) -> Seq<EventSketch> {
    let ts = entry_ts_or(line, now);
    if spec_get_str(line, "type"@) == Some("user"@) || spec_get_str(line, "type"@) == Some(
        "assistant"@,
    ) {
        match spec_get(line, "message"@) {
            Some(m) => match spec_get(m, "content"@) {
                Some(JsonSpec::Str(text)) => seq![
                    claude_event_base(
                        text_uid(line, line_no),
                        stream,
                        path,
                        line,
                        line_no,
                        ts,
                        role_kind(m),
                        PayloadSketch::Text { text },
                    ),
                ],
                Some(JsonSpec::Arr(items)) => claude_items_events(
                    line,
                    m,
                    stream,
                    path,
                    line_no,
                    ts,
                    items,
                ),
                Some(other) => seq![
                    claude_event_base(
                        text_uid(line, line_no),
                        stream,
                        path,
                        line,
                        line_no,
                        ts,
                        role_kind(m),
                        PayloadSketch::Text { text: crate::jsontext::json_compact(other) },
                    ),
                ],
                None => Seq::empty(),
            },
            None => Seq::empty(),
        }
    } else if spec_get_str(line, "type"@) == Some("progress"@) {
        seq![
            claude_event_base(
                match spec_get_str(line, "uuid"@) {
                    Some(u) => u,
                    None => "progress-"@ + stream + "-"@ + dec_spec(line_no as nat),
                },
                stream,
                path,
                line,
                line_no,
                ts,
                EventKind::SystemProgress,
                PayloadSketch::Json {
                    value: match spec_get(line, "data"@) {
                        Some(v) => v,
                        None => JsonSpec::Obj(Seq::empty()),
                    },
                },
            ),
        ]
    } else {
        Seq::empty()
    }
}

/// The canonical events of a whole file.
pub open spec fn claude_events(
    docs: Seq<JsonSpec>,
    stream: Seq<char>,
    path: Seq<char>,
    now: int,
) -> Seq<EventSketch>
    decreases docs.len(),
{
    if docs.len() == 0 {
        Seq::empty()
    } else {
        claude_events(docs.drop_last(), stream, path, now) + claude_line_events(
            docs.last(),
            stream,
            path,
            (docs.len() - 1) as int,
            now,
        )
    }
}

/// The first `sessionId` in the file.
pub open spec fn claude_session_id(docs: Seq<JsonSpec>) -> Option<Seq<char>>
    decreases docs.len(),
{
    if docs.len() == 0 {
        None
    } else {
        match claude_session_id(docs.drop_last()) {
            Some(id) => Some(id),
            None => spec_get_str(docs.last(), "sessionId"@),
        }
    }
}

/// The last `cwd` in the file (the import's project root).
pub open spec fn claude_last_cwd(docs: Seq<JsonSpec>) -> Option<Seq<char>>
    decreases docs.len(),
{
    if docs.len() == 0 {
        None
    } else {
        match spec_get_str(docs.last(), "cwd"@) {
            Some(c) => Some(c),
            None => claude_last_cwd(docs.drop_last()),
        }
    }
}

/// The first `cwd` in the file (the summary's project root).
pub open spec fn claude_first_cwd(docs: Seq<JsonSpec>) -> Option<Seq<char>>
    decreases docs.len(),
{
    if docs.len() == 0 {
        None
    } else {
        match claude_first_cwd(docs.drop_last()) {
            Some(c) => Some(c),
            None => spec_get_str(docs.last(), "cwd"@),
        }
    }
}

/// A line's first user text, as the import's title inference sees it: a
/// whole-string content, a text item, or any other content serialized.
pub open spec fn claude_user_text(line: JsonSpec) -> Option<Seq<char>> {
    if spec_get_str(line, "type"@) == Some("user"@) || spec_get_str(line, "type"@) == Some(
        "assistant"@,
    ) {
        match spec_get(line, "message"@) {
            Some(m) => if spec_get_str(m, "role"@) == Some("user"@) {
                match spec_get(m, "content"@) {
                    Some(JsonSpec::Str(text)) => Some(text),
                    Some(JsonSpec::Arr(items)) => first_item_text(items),
                    Some(other) => Some(crate::jsontext::json_compact(other)),
                    None => None,
                }
            } else {
                None
            },
            None => None,
        }
    } else {
        None
    }
}

/// The first item with a string `text`.
pub open spec fn first_item_text(items: Seq<JsonSpec>) -> Option<Seq<char>>
    decreases items.len(),
{
    if items.len() == 0 {
        None
    } else {
        match first_item_text(items.drop_last()) {
            Some(t) => Some(t),
            None => spec_get_str(items.last(), "text"@),
        }
    }
}

/// The first user text of the whole file.
pub open spec fn claude_title(docs: Seq<JsonSpec>) -> Option<Seq<char>>
    decreases docs.len(),
{
    if docs.len() == 0 {
        None
    } else {
        match claude_title(docs.drop_last()) {
            Some(t) => Some(t),
            None => claude_user_text(docs.last()),
        }
    }
}

/// The earliest parsable timestamp in the file.
pub open spec fn claude_min_ts(docs: Seq<JsonSpec>) -> Option<int>
    decreases docs.len(),
{
    if docs.len() == 0 {
        None
    } else {
        let rest = claude_min_ts(docs.drop_last());
        match entry_ts(docs.last()) {
            Some(t) => match rest {
                Some(m) => Some(
                    if t < m {
                        t
                    } else {
                        m
                    },
                ),
                None => Some(t),
            },
            None => rest,
        }
    }
}

/// The latest parsable timestamp in the file.
pub open spec fn claude_max_ts(docs: Seq<JsonSpec>) -> Option<int>
    decreases docs.len(),
{
    if docs.len() == 0 {
        None
    } else {
        let rest = claude_max_ts(docs.drop_last());
        match entry_ts(docs.last()) {
            Some(t) => match rest {
                Some(m) => Some(
                    if t > m {
                        t
                    } else {
                        m
                    },
                ),
                None => Some(t),
            },
            None => rest,
        }
    }
}

/// The native id an import settles on.
pub open spec fn claude_native_id(docs: Seq<JsonSpec>, path: Seq<char>) -> Seq<char> {
    match claude_session_id(docs) {
        Some(id) => id,
        None => if crate::strutil::file_stem_spec(path).len() == 0 {
            "unknown"@
        } else {
            crate::strutil::file_stem_spec(path)
        },
    }
}


fn entry_ts_exec(line: &JsonValue, now_ms: i64) -> (r: Option<i64>)
    ensures
        match r {
            Some(v) => entry_ts(line@) == Some(v as int),
            None => entry_ts(line@) is None,
        },
{
    match line.get_str("timestamp") {
        Some(t) => crate::clock::parse_rfc3339(t),
        None => None,
    }
}

fn entry_uuid_exec(line: &JsonValue) -> (r: String)
    ensures
        r@ == entry_uuid(line@),
{
    match line.get_str("uuid") {
        Some(u) => u.to_owned(),
        None => {
            proof {
                reveal_strlit("ev");
            }
            String::from_str("ev")
        },
    }
}

fn text_uid_exec(line: &JsonValue, line_no: u64) -> (r: String)
    ensures
        r@ == text_uid(line@, line_no as int),
{
    let mut out = entry_uuid_exec(line);
    out.append("-");
    let dec = crate::strutil::u64_to_dec(line_no);
    out.append(dec.as_str());
    out
}

fn item_discriminator_exec(item: &JsonValue, idx: u64) -> (r: String)
    ensures
        r@ == item_discriminator(item@, idx as int),
{
    match item.get_str("id") {
        Some(id) => id.to_owned(),
        None => match item.get_str("tool_use_id") {
            Some(t) => t.to_owned(),
            None => {
                let mut out = String::new();
                out.append("item-");
                let dec = crate::strutil::u64_to_dec(idx);
                out.append(dec.as_str());
                out
            },
        },
    }
}

fn item_uid_exec(line: &JsonValue, line_no: u64, item: &JsonValue, idx: u64) -> (r: String)
    ensures
        r@ == item_uid(line@, line_no as int, item@, idx as int),
{
    let mut out = text_uid_exec(line, line_no);
    out.append("-");
    let d = item_discriminator_exec(item, idx);
    out.append(d.as_str());
    out
}

fn item_call_id_exec(line: &JsonValue, line_no: u64, item: &JsonValue, idx: u64) -> (r: String)
    ensures
        r@ == item_call_id(line@, line_no as int, item@, idx as int),
{
    match item.get_str("id") {
        Some(id) => id.to_owned(),
        None => match item.get_str("tool_use_id") {
            Some(t) => t.to_owned(),
            None => item_uid_exec(line, line_no, item, idx),
        },
    }
}

fn role_kind_exec(m: &JsonValue) -> (r: EventKind)
    ensures
        r == role_kind(m@),
{
    match m.get_str("role") {
        Some(role) => {
            if crate::strutil::str_eq(role, "assistant") {
                EventKind::MessageAssistant
            } else {
                EventKind::MessageUser
            }
        },
        None => EventKind::MessageUser,
    }
}

/// The extensions object carrying the source file path.
fn source_file_ext_exec(path: &str) -> (r: JsonValue)
    ensures
        r@ == source_file_ext(path@),
{
    let mut out = JsonValue::obj_empty();
    out.set("source_file", JsonValue::str_of(path));
    proof {
        assert(crate::json::set_entry(Seq::empty(), "source_file"@, JsonSpec::Str(path@)) =~= seq![
            ("source_file"@, JsonSpec::Str(path@)),
        ]);
    }
    out
}

/// Coerces a tool result's `content` to text: a string stays itself, any
/// other value is serialized.
fn value_text_exec(v: Option<&JsonValue>) -> (r: Option<String>)
    ensures
        crate::adapter::opt_str_is(r, value_text(match v {
            Some(x) => Some(x@),
            None => None,
        })),
{
    match v {
        Some(x) => match x.as_str() {
            Some(t) => Some(t.to_owned()),
            None => Some(crate::jsontext::json_line_text(x)),
        },
        None => None,
    }
}

/// Appends the events of one content item.
fn append_item_events(
    line: &JsonValue,
    m: &JsonValue,
    stream: &str,
    path: &str,
    line_no: u64,
    ts: i64,
    item: &JsonValue,
    idx: u64,
    events: &mut Vec<SteadEvent>,
)
    ensures
        crate::model::sketches_of(final(events)@) == crate::model::sketches_of(old(events)@)
            + claude_item_events(
            line@,
            m@,
            stream@,
            path@,
            line_no as int,
            ts as int,
            item@,
            idx as int,
        ),
{
    let ghost start_sketches = crate::model::sketches_of(events@);
    let ghost expected = claude_item_events(
        line@,
        m@,
        stream@,
        path@,
        line_no as int,
        ts as int,
        item@,
        idx as int,
    );
    proof {
        reveal_strlit("text");
        reveal_strlit("tool_use");
        reveal_strlit("tool_result");
        assert("text"@.len() == 4);
        assert("tool_use"@.len() == 8);
        assert("tool_result"@.len() == 11);
    }
    let is_text = match item.get_str("type") {
        Some(t) => crate::strutil::str_eq(t, "text"),
        None => false,
    };
    let is_use = match item.get_str("type") {
        Some(t) => crate::strutil::str_eq(t, "tool_use"),
        None => false,
    };
    let is_result = match item.get_str("type") {
        Some(t) => crate::strutil::str_eq(t, "tool_result"),
        None => false,
    };
    if is_text {
        match item.get_str("text") {
            Some(t) => {
                let ev = SteadEvent {
                    event_uid: item_uid_exec(line, line_no, item, idx),
                    stream_id: stream.to_owned(),
                    line_number: line_no,
                    sequence: None,
                    timestamp: Timestamp::new(ts),
                    kind: role_kind_exec(m),
                    actor: None,
                    payload: EventPayload::Text { text: t.to_owned() },
                    raw_vendor_payload: line.deep_clone(),
                    extensions: source_file_ext_exec(path),
                };
                let ghost before = events@;
                events.push(ev);
                proof {
                    assert(crate::model::sketch_of(ev) == expected[0]);
                    assert(crate::model::sketches_of(events@) =~= start_sketches + expected);
                }
            },
            None => {
                proof {
                    assert(crate::model::sketches_of(events@) =~= start_sketches + expected);
                }
            },
        }
        return ;
    }
    if is_use {
        let input = match item.get("input") {
            Some(v) => v.deep_clone(),
            None => JsonValue::obj_empty(),
        };
        let name = match item.get_str("name") {
            Some(n) => n.to_owned(),
            None => {
                proof {
                    reveal_strlit("unknown");
                }
                String::from_str("unknown")
            },
        };
        let ev = SteadEvent {
            event_uid: item_call_id_exec(line, line_no, item, idx),
            stream_id: stream.to_owned(),
            line_number: line_no,
            sequence: None,
            timestamp: Timestamp::new(ts),
            kind: EventKind::ToolCall,
            actor: None,
            payload: EventPayload::ToolCall { tool_name: name, input },
            raw_vendor_payload: line.deep_clone(),
            extensions: source_file_ext_exec(path),
        };
        let ghost before = events@;
        events.push(ev);
        proof {
            assert(crate::model::sketch_of(ev) == expected[0]);
            assert(crate::model::sketches_of(events@) =~= start_sketches + expected);
        }
        return ;
    }
    if is_result {
        let mut uid = item_uid_exec(line, line_no, item, idx);
        uid.append("-result");
        let ok = match item.get("is_error") {
            Some(v) => match v {
                JsonValue::Bool(b) => !*b,
                _ => true,
            },
            None => true,
        };
        let output_text = value_text_exec(item.get("content"));
        let ev = SteadEvent {
            event_uid: uid,
            stream_id: stream.to_owned(),
            line_number: line_no,
            sequence: None,
            timestamp: Timestamp::new(ts),
            kind: EventKind::ToolResult,
            actor: None,
            payload: EventPayload::ToolResult {
                call_id: item_call_id_exec(line, line_no, item, idx),
                ok,
                output_text,
                error_text: None,
            },
            raw_vendor_payload: line.deep_clone(),
            extensions: source_file_ext_exec(path),
        };
        let ghost before = events@;
        events.push(ev);
        proof {
            assert(crate::model::sketch_of(ev) == expected[0]);
            assert(crate::model::sketches_of(events@) =~= start_sketches + expected);
        }
        return ;
    }
    proof {
        assert(expected =~= Seq::<EventSketch>::empty());
        assert(crate::model::sketches_of(events@) =~= start_sketches + expected);
    }
}

/// Appends the canonical events of one claude_code line.
fn append_claude_line_events(
    line: &JsonValue,
    stream: &str,
    path: &str,
    line_no: u64,
    now_ms: i64,
    events: &mut Vec<SteadEvent>,
)
    ensures
        crate::model::sketches_of(final(events)@) == crate::model::sketches_of(old(events)@)
            + claude_line_events(line@, stream@, path@, line_no as int, now_ms as int),
{
    let ghost start_sketches = crate::model::sketches_of(events@);
    let ghost expected = claude_line_events(
        line@,
        stream@,
        path@,
        line_no as int,
        now_ms as int,
    );
    proof {
        reveal_strlit("user");
        reveal_strlit("assistant");
        reveal_strlit("progress");
        assert("user"@.len() == 4);
        assert("assistant"@.len() == 9);
        assert("progress"@.len() == 8);
    }
    let ts = match entry_ts_exec(line, now_ms) {
        Some(v) => v,
        None => now_ms,
    };
    let is_message = match line.get_str("type") {
        Some(t) => crate::strutil::str_eq(t, "user") || crate::strutil::str_eq(t, "assistant"),
        None => false,
    };
    let is_progress = match line.get_str("type") {
        Some(t) => crate::strutil::str_eq(t, "progress"),
        None => false,
    };
    if is_message {
        let m = match line.get("message") {
            Some(m) => m,
            None => {
                proof {
                    assert(crate::model::sketches_of(events@) =~= start_sketches + expected);
                }
                return ;
            },
        };
        let content = match m.get("content") {
            Some(c) => c,
            None => {
                proof {
                    assert(crate::model::sketches_of(events@) =~= start_sketches + expected);
                }
                return ;
            },
        };
        match content {
            JsonValue::Str(text) => {
                let ev = SteadEvent {
                    event_uid: text_uid_exec(line, line_no),
                    stream_id: stream.to_owned(),
                    line_number: line_no,
                    sequence: None,
                    timestamp: Timestamp::new(ts),
                    kind: role_kind_exec(m),
                    actor: None,
                    payload: EventPayload::Text { text: crate::json::clone_string(text) },
                    raw_vendor_payload: line.deep_clone(),
                    extensions: source_file_ext_exec(path),
                };
                let ghost before = events@;
                events.push(ev);
                proof {
                    assert(crate::model::sketch_of(ev) == expected[0]);
                    assert(crate::model::sketches_of(events@) =~= start_sketches + expected);
                }
            },
            JsonValue::Arr(items) => {
                let ghost items_v = content@->Arr_0;
                proof {
                    crate::json::lemma_jspec_seq_pointwise(items@);
                    assert(items_v.take(0) =~= Seq::<JsonSpec>::empty());
                    assert(claude_items_events(
                        line@,
                        m@,
                        stream@,
                        path@,
                        line_no as int,
                        ts as int,
                        items_v.take(0),
                    ) =~= Seq::<EventSketch>::empty());
                    assert(crate::model::sketches_of(events@) =~= start_sketches
                        + claude_items_events(
                        line@,
                        m@,
                        stream@,
                        path@,
                        line_no as int,
                        ts as int,
                        items_v.take(0),
                    ));
                }
                let mut idx: usize = 0;
                while idx < items.len()
                    invariant
                        content@ == crate::json::jspec(JsonValue::Arr(*items)),
                        items_v == content@->Arr_0,
                        items_v.len() == items@.len(),
                        forall|j: int|
                            0 <= j < items@.len() ==> #[trigger] items_v[j] == crate::json::jspec(
                                items@[j],
                            ),
                        idx <= items@.len(),
                        ts as int == entry_ts_or(line@, now_ms as int),
                        crate::model::sketches_of(events@) == start_sketches
                            + claude_items_events(
                            line@,
                            m@,
                            stream@,
                            path@,
                            line_no as int,
                            ts as int,
                            items_v.take(idx as int),
                        ),
                    decreases items@.len() - idx,
                {
                    proof {
                        assert(items_v.take(idx + 1).drop_last() =~= items_v.take(idx as int));
                        assert(items_v.take(idx + 1).last() == items_v[idx as int]);
                    }
                    append_item_events(
                        line,
                        m,
                        stream,
                        path,
                        line_no,
                        ts,
                        &items[idx],
                        idx as u64,
                        events,
                    );
                    idx = idx + 1;
                }
                proof {
                    assert(items_v.take(items_v.len() as int) =~= items_v);
                }
            },
            other => {
                let text = crate::jsontext::json_line_text(other);
                let ev = SteadEvent {
                    event_uid: text_uid_exec(line, line_no),
                    stream_id: stream.to_owned(),
                    line_number: line_no,
                    sequence: None,
                    timestamp: Timestamp::new(ts),
                    kind: role_kind_exec(m),
                    actor: None,
                    payload: EventPayload::Text { text },
                    raw_vendor_payload: line.deep_clone(),
                    extensions: source_file_ext_exec(path),
                };
                let ghost before = events@;
                events.push(ev);
                proof {
                    assert(crate::model::sketch_of(ev) == expected[0]);
                    assert(crate::model::sketches_of(events@) =~= start_sketches + expected);
                }
            },
        }
        return ;
    }
    if is_progress {
        let uid = match line.get_str("uuid") {
            Some(u) => u.to_owned(),
            None => {
                let mut out = String::new();
                out.append("progress-");
                out.append(stream);
                out.append("-");
                let dec = crate::strutil::u64_to_dec(line_no);
                out.append(dec.as_str());
                out
            },
        };
        let value = match line.get("data") {
            Some(v) => v.deep_clone(),
            None => JsonValue::obj_empty(),
        };
        let ev = SteadEvent {
            event_uid: uid,
            stream_id: stream.to_owned(),
            line_number: line_no,
            sequence: None,
            timestamp: Timestamp::new(ts),
            kind: EventKind::SystemProgress,
            actor: None,
            payload: EventPayload::Json { value },
            raw_vendor_payload: line.deep_clone(),
            extensions: source_file_ext_exec(path),
        };
        let ghost before = events@;
        events.push(ev);
        proof {
            assert(crate::model::sketch_of(ev) == expected[0]);
            assert(crate::model::sketches_of(events@) =~= start_sketches + expected);
        }
        return ;
    }
    proof {
        assert(expected =~= Seq::<EventSketch>::empty());
        assert(crate::model::sketches_of(events@) =~= start_sketches + expected);
    }
}



struct ClaudeScan {
    session_id: Option<String>,
    last_cwd: Option<String>,
    first_cwd: Option<String>,
    title: Option<String>,
    min_ts: Option<i64>,
    max_ts: Option<i64>,
}

fn claude_user_text_exec(line: &JsonValue) -> (r: Option<String>)
    ensures
        crate::adapter::opt_str_is(r, claude_user_text(line@)),
{
    proof {
        reveal_strlit("user");
        reveal_strlit("assistant");
    }
    let is_message = match line.get_str("type") {
        Some(t) => crate::strutil::str_eq(t, "user") || crate::strutil::str_eq(t, "assistant"),
        None => false,
    };
    if !is_message {
        return None;
    }
    let m = match line.get("message") {
        Some(m) => m,
        None => {
            return None;
        },
    };
    let is_user = match m.get_str("role") {
        Some(rl) => crate::strutil::str_eq(rl, "user"),
        None => false,
    };
    if !is_user {
        return None;
    }
    let content = match m.get("content") {
        Some(c) => c,
        None => {
            return None;
        },
    };
    match content {
        JsonValue::Str(text) => Some(crate::json::clone_string(text)),
        JsonValue::Arr(items) => {
            let ghost items_v = content@->Arr_0;
            proof {
                crate::json::lemma_jspec_seq_pointwise(items@);
                assert(items_v.take(0) =~= Seq::<JsonSpec>::empty());
                assert(claude_user_text(line@) == first_item_text(items_v));
            }
            let mut i: usize = 0;
            while i < items.len()
                invariant
                    claude_user_text(line@) == first_item_text(items_v),
                    items_v.len() == items@.len(),
                    forall|j: int|
                        0 <= j < items@.len() ==> #[trigger] items_v[j] == crate::json::jspec(
                            items@[j],
                        ),
                    i <= items@.len(),
                    first_item_text(items_v.take(i as int)) is None,
                decreases items@.len() - i,
            {
                proof {
                    assert(items_v.take(i + 1).drop_last() =~= items_v.take(i as int));
                    assert(items_v.take(i + 1).last() == items_v[i as int]);
                }
                match items[i].get_str("text") {
                    Some(t) => {
                        proof {
                            lemma_first_item_text_extends(items_v, i as int);
                        }
                        return Some(t.to_owned());
                    },
                    None => {},
                }
                i = i + 1;
            }
            proof {
                assert(items_v.take(items_v.len() as int) =~= items_v);
            }
            None
        },
        other => Some(crate::jsontext::json_line_text(other)),
    }
}

/// When the prefix holds no text item and item `i` has one, that text is
/// the first of the whole list.
proof fn lemma_first_item_text_extends(items: Seq<JsonSpec>, i: int)
    requires
        0 <= i < items.len(),
        first_item_text(items.take(i)) is None,
        spec_get_str(items[i], "text"@) is Some,
    ensures
        first_item_text(items) == spec_get_str(items[i], "text"@),
    decreases items.len(),
{
    if items.len() - 1 > i {
        assert(items.drop_last().take(i) =~= items.take(i));
        assert(items.drop_last()[i] == items[i]);
        lemma_first_item_text_extends(items.drop_last(), i);
    } else {
        assert(items.drop_last() =~= items.take(i));
    }
}

/// One pass over the parsed lines collecting id, roots, title and the
/// window of parsable timestamps.
fn scan_claude_lines(docs: &Vec<JsonValue>) -> (r: ClaudeScan)
    ensures
        crate::adapter::opt_str_is(r.session_id, claude_session_id(docs_of(docs@))),
        crate::adapter::opt_str_is(r.last_cwd, claude_last_cwd(docs_of(docs@))),
        crate::adapter::opt_str_is(r.first_cwd, claude_first_cwd(docs_of(docs@))),
        crate::adapter::opt_str_is(r.title, claude_title(docs_of(docs@))),
        match r.min_ts {
            Some(v) => claude_min_ts(docs_of(docs@)) == Some(v as int),
            None => claude_min_ts(docs_of(docs@)) is None,
        },
        match r.max_ts {
            Some(v) => claude_max_ts(docs_of(docs@)) == Some(v as int),
            None => claude_max_ts(docs_of(docs@)) is None,
        },
{
    let ghost dv = docs_of(docs@);
    let mut out = ClaudeScan {
        session_id: None,
        last_cwd: None,
        first_cwd: None,
        title: None,
        min_ts: None,
        max_ts: None,
    };
    let mut i: usize = 0;
    proof {
        assert(dv.take(0) =~= Seq::<JsonSpec>::empty());
    }
    while i < docs.len()
        invariant
            dv == docs_of(docs@),
            dv.len() == docs@.len(),
            forall|j: int| 0 <= j < docs@.len() ==> #[trigger] dv[j] == docs@[j]@,
            i <= docs@.len(),
            crate::adapter::opt_str_is(out.session_id, claude_session_id(dv.take(i as int))),
            crate::adapter::opt_str_is(out.last_cwd, claude_last_cwd(dv.take(i as int))),
            crate::adapter::opt_str_is(out.first_cwd, claude_first_cwd(dv.take(i as int))),
            crate::adapter::opt_str_is(out.title, claude_title(dv.take(i as int))),
            match out.min_ts {
                Some(v) => claude_min_ts(dv.take(i as int)) == Some(v as int),
                None => claude_min_ts(dv.take(i as int)) is None,
            },
            match out.max_ts {
                Some(v) => claude_max_ts(dv.take(i as int)) == Some(v as int),
                None => claude_max_ts(dv.take(i as int)) is None,
            },
        decreases docs@.len() - i,
    {
        proof {
            assert(dv.take(i + 1).drop_last() =~= dv.take(i as int));
            assert(dv.take(i + 1).last() == dv[i as int]);
        }
        let line = &docs[i];
        if out.session_id.is_none() {
            match line.get_str("sessionId") {
                Some(id) => {
                    out.session_id = Some(id.to_owned());
                },
                None => {},
            }
        }
        match line.get_str("cwd") {
            Some(c) => {
                out.last_cwd = Some(c.to_owned());
            },
            None => {},
        }
        if out.first_cwd.is_none() {
            match line.get_str("cwd") {
                Some(c) => {
                    out.first_cwd = Some(c.to_owned());
                },
                None => {},
            }
        }
        if out.title.is_none() {
            match claude_user_text_exec(line) {
                Some(t) => {
                    out.title = Some(t);
                },
                None => {},
            }
        }
        match entry_ts_exec(line, 0) {
            Some(ts) => {
                out.min_ts = match out.min_ts {
                    Some(m) => if ts < m {
                        Some(ts)
                    } else {
                        Some(m)
                    },
                    None => Some(ts),
                };
                out.max_ts = match out.max_ts {
                    Some(m) => if ts > m {
                        Some(ts)
                    } else {
                        Some(m)
                    },
                    None => Some(ts),
                };
            },
            None => {},
        }
        i = i + 1;
    }
    proof {
        assert(dv.take(docs@.len() as int) =~= dv);
    }
    out
}

/// The event records the file it came from.
pub open spec fn carries_source_file(e: SteadEvent) -> bool {
    crate::json::spec_get(e.extensions@, "source_file"@) matches Some(v) && v is Str
}

/// Everything a single-file claude_code import promises.
pub open spec fn claude_import_ok(
    docs: Seq<JsonSpec>,
    path: Seq<char>,
    stream: Seq<char>,
    now: int,
    s: SteadSession,
) -> bool {
    &&& s.schema_version@ == crate::model::SCHEMA_VERSION@
    &&& s.source.backend == BackendKind::ClaudeCode
    &&& s.source.original_session_id@ == claude_native_id(docs, path)
    &&& s.session_uid@ == crate::model::session_uid_spec(
        BackendKind::ClaudeCode,
        claude_native_id(docs, path),
    )
    &&& s.shared_session_uid is None
    &&& s.source.source_files@.len() == 1 && s.source.source_files@[0]@ == path
    &&& crate::adapter::opt_str_is(s.metadata.title, claude_title(docs))
    &&& s.metadata.project_root@ == (match claude_last_cwd(docs) {
        Some(r) => r,
        None => "/unknown"@,
    })
    &&& s.metadata.created_at.millis as int == (match claude_min_ts(docs) {
        Some(v) => v,
        None => now,
    })
    &&& s.metadata.updated_at.millis as int == (match claude_max_ts(docs) {
        Some(v) => v,
        None => now,
    })
    &&& s.metadata.tags@.len() == 0
    &&& crate::model::events_sorted(s.events@)
    &&& s.sequences_dense()
    &&& crate::model::event_content_multiset(s.events@) == claude_events(
        docs,
        stream,
        path,
        now,
    ).to_multiset()
    &&& forall|j: int|
        0 <= j < s.events@.len() ==> (#[trigger] s.events@[j]).extensions@ == source_file_ext(
            path,
        )
    &&& s.artifacts@.len() == 0
    &&& s.capabilities@ == JsonSpec::Obj(Seq::<(Seq<char>, JsonSpec)>::empty())
    &&& s.extensions@ == JsonSpec::Obj(Seq::<(Seq<char>, JsonSpec)>::empty())
    &&& s.lineage is None
    &&& s.raw_vendor_payload@ == JsonSpec::Obj(seq![("lines"@, JsonSpec::Arr(docs))])
}

impl ClaudeAdapter {
    /// Imports one claude_code log file, given its text lines and the stream
    /// events belong to.  Fails only when a non-blank line is not JSON.
    pub fn import_from_lines(&self, path: &str, stream_id: &str, lines: &Vec<String>) -> (r:
        Result<SteadSession, AdapterError>)
        ensures
            match r {
                Ok(s) => jsonl_ok(texts_of(lines@)) && exists|now: int|
                    claude_import_ok(
                        jsonl_docs(texts_of(lines@)),
                        path@,
                        stream_id@,
                        now,
                        s,
                    ),
                Err(e) => !jsonl_ok(texts_of(lines@)) && e is Json,
            },
    {
        let docs = match crate::adapter::parse_jsonl(lines) {
            Ok(d) => d,
            Err(e) => {
                return Err(e);
            },
        };
        let ghost dv = docs_of(docs@);
        let now_ms = crate::clock::now_millis();
        let scan = scan_claude_lines(&docs);
        let mut events: Vec<SteadEvent> = Vec::new();
        let mut i: usize = 0;
        proof {
            assert(dv.take(0) =~= Seq::<JsonSpec>::empty());
            assert(crate::model::sketches_of(events@) =~= claude_events(
                dv.take(0),
                stream_id@,
                path@,
                now_ms as int,
            ));
        }
        while i < docs.len()
            invariant
                dv == docs_of(docs@),
                dv.len() == docs@.len(),
                forall|j: int| 0 <= j < docs@.len() ==> #[trigger] dv[j] == docs@[j]@,
                i <= docs@.len(),
                crate::model::sketches_of(events@) == claude_events(
                    dv.take(i as int),
                    stream_id@,
                    path@,
                    now_ms as int,
                ),
            decreases docs@.len() - i,
        {
            proof {
                assert(dv.take(i + 1).drop_last() =~= dv.take(i as int));
                assert(dv.take(i + 1).last() == dv[i as int]);
            }
            append_claude_line_events(&docs[i], stream_id, path, i as u64, now_ms, &mut events);
            i = i + 1;
        }
        proof {
            assert(dv.take(docs@.len() as int) =~= dv);
        }
        let ghost pre_sorted = events@;
        crate::model::canonical_sort_events(&mut events);
        proof {
            lemma_claude_events_extensions(dv, stream_id@, path@, now_ms as int);
            assert forall|j: int|
                0 <= j < events@.len() implies (#[trigger] events@[j]).extensions@
                == source_file_ext(path@) by {
                crate::model::lemma_sketch_member(pre_sorted, events@, j);
                let i0 = choose|i0: int|
                    0 <= i0 < pre_sorted.len() && crate::model::sketch_of(
                        #[trigger] pre_sorted[i0],
                    ) == crate::model::sketch_of(events@[j]);
                assert(crate::model::sketches_of(pre_sorted)[i0] == crate::model::sketch_of(
                    pre_sorted[i0],
                ));
                assert(claude_events(dv, stream_id@, path@, now_ms as int)[i0].extensions
                    == source_file_ext(path@));
            }
        }
        let native_id: String = match scan.session_id {
            Some(id) => id,
            None => {
                let stem = crate::strutil::file_stem_of(path);
                if stem.as_str().unicode_len() == 0 {
                    proof {
                        reveal_strlit("unknown");
                    }
                    String::from_str("unknown")
                } else {
                    stem
                }
            },
        };
        let session_uid = crate::model::build_session_uid(
            BackendKind::ClaudeCode,
            native_id.as_str(),
        );
        let project_root: String = match scan.last_cwd {
            Some(r) => r,
            None => String::from_str("/unknown"),
        };
        let created = Timestamp::new(
            match scan.min_ts {
                Some(v) => v,
                None => now_ms,
            },
        );
        let updated = Timestamp::new(
            match scan.max_ts {
                Some(v) => v,
                None => now_ms,
            },
        );
        let mut raw_entries: Vec<(String, JsonValue)> = Vec::new();
        let ghost docs_snapshot = docs@;
        raw_entries.push((String::from_str("lines"), JsonValue::Arr(docs)));
        let raw = JsonValue::Obj(raw_entries);
        proof {
            crate::json::lemma_jspec_seq_pointwise(docs_snapshot);
            assert(crate::json::jspec_seq(docs_snapshot) =~= dv);
            crate::json::lemma_jspec_entries_pointwise(raw_entries@);
            assert(crate::json::jspec_entries(raw_entries@) =~= seq![
                ("lines"@, JsonSpec::Arr(dv)),
            ]);
        }
        let mut source_files: Vec<String> = Vec::new();
        source_files.push(path.to_owned());
        let source = crate::model::SessionSource::new(
            BackendKind::ClaudeCode,
            native_id.as_str(),
            source_files,
        );
        let metadata = crate::model::SessionMetadata::new(
            scan.title,
            project_root,
            created,
            updated,
        );
        let session = SteadSession {
            schema_version: crate::model::schema_version().to_owned(),
            session_uid,
            shared_session_uid: None,
            source,
            metadata,
            events,
            artifacts: Vec::new(),
            capabilities: JsonValue::obj_empty(),
            extensions: JsonValue::obj_empty(),
            lineage: None,
            raw_vendor_payload: raw,
        };
        proof {
            reveal_strlit("/unknown");
            assert(claude_import_ok(dv, path@, stream_id@, now_ms as int, session));
        }
        Ok(session)
    }

    /// The discovery summary of one claude_code file, given its text lines.
    pub fn summary_from_lines(&self, path: &str, lines: &Vec<String>) -> (r: Result<
        NativeSessionRef,
        AdapterError,
    >)
        ensures
            match r {
                Ok(n) => jsonl_ok(texts_of(lines@)) && exists|now: int|
                    claude_summary_ok(jsonl_docs(texts_of(lines@)), path@, now, n),
                Err(e) => !jsonl_ok(texts_of(lines@)) && e is Json,
            },
    {
        let docs = match crate::adapter::parse_jsonl(lines) {
            Ok(d) => d,
            Err(e) => {
                return Err(e);
            },
        };
        let ghost dv = docs_of(docs@);
        let now_ms = crate::clock::now_millis();
        let scan = scan_claude_lines(&docs);
        let native_id: String = match scan.session_id {
            Some(id) => id,
            None => {
                let stem = crate::strutil::file_stem_of(path);
                if stem.as_str().unicode_len() == 0 {
                    proof {
                        reveal_strlit("unknown");
                    }
                    String::from_str("unknown")
                } else {
                    stem
                }
            },
        };
        let summary = NativeSessionRef {
            native_id,
            file_path: path.to_owned(),
            updated_at: Timestamp::new(
                match scan.max_ts {
                    Some(v) => v,
                    None => now_ms,
                },
            ),
            project_root: scan.first_cwd,
            title: scan.title,
        };
        proof {
            assert(claude_summary_ok(dv, path@, now_ms as int, summary));
        }
        Ok(summary)
    }
}

/// Everything a claude_code discovery summary promises.
pub open spec fn claude_summary_ok(
    docs: Seq<JsonSpec>,
    path: Seq<char>,
    now: int,
    n: NativeSessionRef,
) -> bool {
    &&& n.native_id@ == claude_native_id(docs, path)
    &&& n.file_path@ == path
    &&& n.updated_at.millis as int == (match claude_max_ts(docs) {
        Some(v) => v,
        None => now,
    })
    &&& crate::adapter::opt_str_is(n.project_root, claude_first_cwd(docs))
    &&& crate::adapter::opt_str_is(n.title, claude_title(docs))
}




/// Some event in `dst` carries the identity of `src[i]`.
pub open spec fn identity_covered(src: Seq<SteadEvent>, dst: Seq<SteadEvent>, i: int) -> bool {
    exists|j: int|
        0 <= j < dst.len() && event_identity(#[trigger] dst[j]) == event_identity(src[i])
}

/// Some string in `dst` has the characters of `src[i]`.
pub open spec fn string_covered(src: Seq<String>, dst: Seq<String>, i: int) -> bool {
    exists|j: int| 0 <= j < dst.len() && (#[trigger] dst[j])@ == src[i]@
}

/// The deduplication key of an event: its stream and uid.
pub open spec fn event_identity(e: SteadEvent) -> (Seq<char>, Seq<char>) {
    (e.stream_id@, e.event_uid@)
}

/// Index of the first event in `s` with the given identity; `s.len()` when
/// none has it.
pub open spec fn first_index_with_identity(s: Seq<SteadEvent>, key: (Seq<char>, Seq<char>)) -> int
    decreases s.len(),
{
    if s.len() == 0 {
        0
    } else if event_identity(s.first()) == key {
        0
    } else {
        1 + first_index_with_identity(s.drop_first(), key)
    }
}

pub proof fn lemma_first_index_with_identity(s: Seq<SteadEvent>, key: (Seq<char>, Seq<char>))
    ensures
        0 <= first_index_with_identity(s, key) <= s.len(),
        first_index_with_identity(s, key) < s.len() ==> event_identity(
            s[first_index_with_identity(s, key)],
        ) == key,
        forall|j: int|
            0 <= j < first_index_with_identity(s, key) ==> event_identity(#[trigger] s[j]) != key,
    decreases s.len(),
{
    if s.len() > 0 && event_identity(s.first()) != key {
        lemma_first_index_with_identity(s.drop_first(), key);
        assert forall|j: int|
            0 <= j < first_index_with_identity(s, key) implies event_identity(#[trigger] s[j])
            != key by {
            if j > 0 {
                assert(s.drop_first()[j - 1] == s[j]);
            }
        }
        if first_index_with_identity(s, key) < s.len() {
            assert(s.drop_first()[first_index_with_identity(s.drop_first(), key)]
                == s[first_index_with_identity(s, key)]);
        }
    }
}

/// An index with the identity, before which none has it, is the first.
pub proof fn lemma_first_identity_index_pinned(
    s: Seq<SteadEvent>,
    key: (Seq<char>, Seq<char>),
    idx: int,
)
    requires
        0 <= idx < s.len(),
        event_identity(s[idx]) == key,
        forall|j: int| 0 <= j < idx ==> event_identity(#[trigger] s[j]) != key,
    ensures
        first_index_with_identity(s, key) == idx,
{
    lemma_first_index_with_identity(s, key);
    let f = first_index_with_identity(s, key);
    if f < idx {
        assert(event_identity(s[f]) != key);
    }
    if f > idx {
        assert(event_identity(s[idx]) != key);
    }
}

/// What identity-deduplication returns: scan left to right, replace in
/// place when the identity was seen, append when it is new.
pub open spec fn dedup_by_identity(s: Seq<SteadEvent>) -> Seq<SteadEvent>
    decreases s.len(),
{
    if s.len() == 0 {
        Seq::empty()
    } else {
        let rest = dedup_by_identity(s.drop_last());
        let e = s.last();
        let idx = first_index_with_identity(rest, event_identity(e));
        if idx < rest.len() {
            rest.update(idx, e)
        } else {
            rest.push(e)
        }
    }
}

/// `e` is the last event in `s` with its identity.
pub open spec fn is_last_with_identity(s: Seq<SteadEvent>, e: SteadEvent) -> bool {
    exists|i: int|
        0 <= i < s.len() && s[i] == e && (forall|j: int|
            i < j < s.len() ==> event_identity(#[trigger] s[j]) != event_identity(e))
}

/// Drops duplicate `(stream_id, event_uid)` events; the last occurrence
/// wins and keeps the position of the first.
#[verifier::rlimit(60)]
pub fn dedupe_events_by_identity(events: Vec<SteadEvent>) -> (r: Vec<SteadEvent>)
    ensures
        r@ == dedup_by_identity(events@),
        forall|p: int, q: int|
            0 <= p < q < r@.len() ==> event_identity(#[trigger] r@[p]) != event_identity(
                #[trigger] r@[q],
            ),
        forall|j: int| 0 <= j < r@.len() ==> is_last_with_identity(events@, #[trigger] r@[j]),
        forall|i: int| 0 <= i < events@.len() ==> #[trigger] identity_covered(events@, r@, i),
{
    let ghost orig = events@;
    let mut rest = events;
    let mut out: Vec<SteadEvent> = Vec::new();
    let mut k: usize = 0;
    let total = rest.len();
    proof {
        assert(orig.skip(0) =~= orig);
        assert(orig.len() == total);
    }
    proof {
        assert(orig.take(0) =~= Seq::<SteadEvent>::empty());
    }
    while rest.len() > 0
        invariant
            k <= orig.len() <= usize::MAX,
            rest@ == orig.skip(k as int),
            out@ == dedup_by_identity(orig.take(k as int)),
            forall|p: int, q: int|
                0 <= p < q < out@.len() ==> event_identity(#[trigger] out@[p]) != event_identity(
                    #[trigger] out@[q],
                ),
            forall|j: int|
                0 <= j < out@.len() ==> is_last_with_identity(
                    orig.take(k as int),
                    #[trigger] out@[j],
                ),
            forall|i: int| 0 <= i < k ==> #[trigger] identity_covered(orig, out@, i),
        decreases rest@.len(),
    {
        let e = rest.remove(0);
        proof {
            assert(e == orig[k as int]);
            assert(orig.skip(k as int).remove(0) =~= orig.skip(k + 1));
        }
        let mut found: Option<usize> = None;
        let mut j: usize = 0;
        while j < out.len()
            invariant_except_break
                found is None,
                forall|t: int|
                    0 <= t < j ==> event_identity(#[trigger] out@[t]) != event_identity(e),
            invariant
                j <= out@.len(),
            ensures
                match found {
                    Some(idx) => idx < out@.len() && event_identity(out@[idx as int])
                        == event_identity(e),
                    None => forall|t: int|
                        0 <= t < out@.len() ==> event_identity(#[trigger] out@[t])
                            != event_identity(e),
                },
            decreases out@.len() - j,
        {
            if crate::strutil::str_eq(out[j].stream_id.as_str(), e.stream_id.as_str())
                && crate::strutil::str_eq(out[j].event_uid.as_str(), e.event_uid.as_str()) {
                found = Some(j);
                break ;
            }
            j = j + 1;
        }
        let ghost out_before = out@;
        match found {
            Some(idx) => {
                out.set(idx, e);
            },
            None => {
                out.push(e);
            },
        }
        proof {
            assert(orig.take(k + 1).drop_last() =~= orig.take(k as int));
            assert(orig.take(k + 1).last() == orig[k as int]);
            match found {
                Some(idx) => {
                    lemma_first_identity_index_pinned(
                        out_before,
                        event_identity(e),
                        idx as int,
                    );
                    assert(out@ =~= dedup_by_identity(orig.take(k + 1)));
                },
                None => {
                    lemma_first_index_with_identity(out_before, event_identity(e));
                    assert(first_index_with_identity(out_before, event_identity(e))
                        == out_before.len());
                    assert(out@ =~= dedup_by_identity(orig.take(k + 1)));
                },
            }
            assert forall|i: int|
                0 <= i < k + 1 implies #[trigger] identity_covered(orig, out@, i) by {
                if i == k {
                    match found {
                        Some(idx) => {
                            assert(event_identity(out@[idx as int]) == event_identity(orig[i]));
                        },
                        None => {
                            assert(event_identity(out@[out@.len() - 1]) == event_identity(
                                orig[i],
                            ));
                        },
                    }
                } else {
                    assert(identity_covered(orig, out_before, i));
                    let j0 = choose|j0: int|
                        0 <= j0 < out_before.len() && event_identity(#[trigger] out_before[j0])
                            == event_identity(orig[i]);
                    assert(event_identity(out@[j0]) == event_identity(out_before[j0]));
                }
            }
            assert forall|jj: int|
                0 <= jj < out@.len() implies is_last_with_identity(
                orig.take(k + 1),
                #[trigger] out@[jj],
            ) by {
                let taken = orig.take(k + 1);
                if out@[jj] == e {
                    assert(taken[k as int] == e);
                    assert(forall|t: int|
                        k < t < taken.len() ==> event_identity(#[trigger] taken[t])
                            != event_identity(e));
                } else {
                    assert(out@[jj] == out_before[jj]);
                    assert(is_last_with_identity(orig.take(k as int), out_before[jj]));
                    let w = choose|w: int|
                        0 <= w < orig.take(k as int).len() && orig.take(k as int)[w]
                            == out_before[jj] && (forall|t: int|
                            w < t < orig.take(k as int).len() ==> event_identity(
                                #[trigger] orig.take(k as int)[t],
                            ) != event_identity(out_before[jj]));
                    assert(taken[w] == out_before[jj]);
                    assert(event_identity(e) != event_identity(out@[jj]));
                    assert(forall|t: int|
                        w < t < taken.len() ==> event_identity(#[trigger] taken[t])
                            != event_identity(out@[jj]));
                }
            }
        }
        k = k + 1;
    }
    proof {
        assert(orig.take(orig.len() as int) =~= orig);
        assert(rest@.len() == 0);
        assert(orig.skip(k as int).len() == 0);
        assert(out@ == dedup_by_identity(orig));
        assert forall|i: int|
            0 <= i < orig.len() implies #[trigger] identity_covered(orig, out@, i) by {
            assert(0 <= i < k);
        }
        assert forall|j: int|
            0 <= j < out@.len() implies is_last_with_identity(orig, #[trigger] out@[j]) by {
            assert(is_last_with_identity(orig.take(k as int), out@[j]));
        }
    }
    out
}

/// What string deduplication returns: each distinct text once, in order of
/// first occurrence.
pub open spec fn dedup_first_texts(ts: Seq<Seq<char>>) -> Seq<Seq<char>>
    decreases ts.len(),
{
    if ts.len() == 0 {
        Seq::empty()
    } else {
        let rest = dedup_first_texts(ts.drop_last());
        if rest.contains(ts.last()) {
            rest
        } else {
            rest.push(ts.last())
        }
    }
}

/// Keeps the first occurrence of every string, in order.
pub fn dedupe_strings_preserve_order(values: Vec<String>) -> (r: Vec<String>)
    ensures
        texts_of(r@) == dedup_first_texts(texts_of(values@)),
        forall|p: int, q: int| 0 <= p < q < r@.len() ==> (#[trigger] r@[p])@ != (#[trigger] r@[q])@,
        forall|j: int| 0 <= j < r@.len() ==> #[trigger] string_covered(r@, values@, j),
        forall|i: int| 0 <= i < values@.len() ==> #[trigger] string_covered(values@, r@, i),
{
    let ghost orig = values@;
    let mut rest = values;
    let mut out: Vec<String> = Vec::new();
    let mut k: usize = 0;
    let total = rest.len();
    proof {
        assert(orig.skip(0) =~= orig);
        assert(orig.len() == total);
    }
    proof {
        assert(texts_of(orig).take(0) =~= Seq::<Seq<char>>::empty());
        assert(texts_of(out@) =~= dedup_first_texts(texts_of(orig).take(0)));
    }
    while rest.len() > 0
        invariant
            k <= orig.len() <= usize::MAX,
            rest@ == orig.skip(k as int),
            texts_of(orig).len() == orig.len(),
            forall|j: int| 0 <= j < orig.len() ==> #[trigger] texts_of(orig)[j] == orig[j]@,
            texts_of(out@) == dedup_first_texts(texts_of(orig).take(k as int)),
            forall|p: int, q: int|
                0 <= p < q < out@.len() ==> (#[trigger] out@[p])@ != (#[trigger] out@[q])@,
            forall|j: int| 0 <= j < out@.len() ==> #[trigger] string_covered(out@, orig, j),
            forall|i: int| 0 <= i < k ==> #[trigger] string_covered(orig, out@, i),
        decreases rest@.len(),
    {
        let v = rest.remove(0);
        proof {
            assert(v == orig[k as int]);
            assert(orig.skip(k as int).remove(0) =~= orig.skip(k + 1));
        }
        let mut seen = false;
        let mut j: usize = 0;
        while j < out.len()
            invariant_except_break
                !seen,
                forall|t: int| 0 <= t < j ==> (#[trigger] out@[t])@ != v@,
            invariant
                j <= out@.len(),
            ensures
                seen ==> exists|t: int| 0 <= t < out@.len() && (#[trigger] out@[t])@ == v@,
                !seen ==> forall|t: int| 0 <= t < out@.len() ==> (#[trigger] out@[t])@ != v@,
            decreases out@.len() - j,
        {
            if crate::strutil::str_eq(out[j].as_str(), v.as_str()) {
                seen = true;
                break ;
            }
            j = j + 1;
        }
        let ghost out_before2 = out@;
        if !seen {
            out.push(v);
        }
        proof {
            assert(texts_of(orig).take(k + 1).drop_last() =~= texts_of(orig).take(k as int));
            assert(texts_of(orig).take(k + 1).last() == orig[k as int]@);
            if seen {
                let t = choose|t: int| 0 <= t < out_before2.len() && (out_before2[t])@ == v@;
                assert(texts_of(out_before2)[t] == v@);
                assert(texts_of(out_before2).contains(v@));
                assert(texts_of(out@) =~= dedup_first_texts(texts_of(orig).take(k + 1)));
            } else {
                if texts_of(out_before2).contains(v@) {
                    let t = choose|t: int|
                        0 <= t < texts_of(out_before2).len() && texts_of(out_before2)[t] == v@;
                    assert((out_before2[t])@ == v@);
                }
                assert(!texts_of(out_before2).contains(v@));
                assert(texts_of(out@) =~= texts_of(out_before2).push(v@));
                assert(texts_of(out@) =~= dedup_first_texts(texts_of(orig).take(k + 1)));
            }
            assert forall|i: int|
                0 <= i < k + 1 implies #[trigger] string_covered(orig, out@, i) by {
                if i == k {
                    if seen {
                        let t = choose|t: int|
                            0 <= t < out_before2.len() && (#[trigger] out_before2[t])@ == v@;
                        assert((orig[i])@ == out@[t]@);
                    } else {
                        assert((orig[i])@ == out@[out@.len() - 1]@);
                    }
                } else {
                    assert(string_covered(orig, out_before2, i));
                    let j0 = choose|j0: int|
                        0 <= j0 < out_before2.len() && (#[trigger] out_before2[j0])@ == orig[i]@;
                    assert((orig[i])@ == out@[j0]@);
                }
            }
            assert forall|j: int|
                0 <= j < out@.len() implies #[trigger] string_covered(out@, orig, j) by {
                if j < out_before2.len() {
                    assert(string_covered(out_before2, orig, j));
                    let i0 = choose|i0: int|
                        0 <= i0 < orig.len() && (#[trigger] orig[i0])@ == out_before2[j]@;
                    assert((out@[j])@ == orig[i0]@);
                } else {
                    assert((out@[j])@ == orig[k as int]@);
                }
            }
        }
        k = k + 1;
    }
    proof {
        assert(orig.skip(k as int).len() == 0);
        assert(texts_of(orig).take(orig.len() as int) =~= texts_of(orig));
        assert(texts_of(out@) == dedup_first_texts(texts_of(orig)));
        assert forall|i: int|
            0 <= i < orig.len() implies #[trigger] string_covered(orig, out@, i) by {
            assert(0 <= i < k);
        }
    }
    out
}

/// Folds a later split file's metadata into the base session: earlier
/// creation, later update, first title, first real project root.
pub fn merge_session_metadata(base: &mut SteadSession, extra: &SteadSession)
    ensures
        final(base).metadata.created_at.millis == (if extra.metadata.created_at.millis < old(
            base,
        ).metadata.created_at.millis {
            extra.metadata.created_at.millis
        } else {
            old(base).metadata.created_at.millis
        }),
        final(base).metadata.updated_at.millis == (if extra.metadata.updated_at.millis > old(
            base,
        ).metadata.updated_at.millis {
            extra.metadata.updated_at.millis
        } else {
            old(base).metadata.updated_at.millis
        }),
        old(base).metadata.title is Some ==> final(base).metadata.title == old(
            base,
        ).metadata.title,
        old(base).metadata.title is None ==> crate::adapter::opt_str_is(
            final(base).metadata.title,
            match extra.metadata.title {
                Some(t) => Some(t@),
                None => None,
            },
        ),
        final(base).metadata.project_root@ == (if old(base).metadata.project_root@ == "/unknown"@
            && extra.metadata.project_root@ != "/unknown"@ {
            extra.metadata.project_root@
        } else {
            old(base).metadata.project_root@
        }),
        final(base).session_uid == old(base).session_uid,
        final(base).shared_session_uid == old(base).shared_session_uid,
        final(base).schema_version == old(base).schema_version,
        final(base).source == old(base).source,
        final(base).events == old(base).events,
        final(base).artifacts == old(base).artifacts,
        final(base).capabilities == old(base).capabilities,
        final(base).extensions == old(base).extensions,
        final(base).lineage == old(base).lineage,
        final(base).raw_vendor_payload == old(base).raw_vendor_payload,
        final(base).metadata.tags == old(base).metadata.tags,
{
    if extra.metadata.created_at.millis < base.metadata.created_at.millis {
        base.metadata.created_at = Timestamp::new(extra.metadata.created_at.millis);
    }
    if extra.metadata.updated_at.millis > base.metadata.updated_at.millis {
        base.metadata.updated_at = Timestamp::new(extra.metadata.updated_at.millis);
    }
    if base.metadata.title.is_none() {
        base.metadata.title = match &extra.metadata.title {
            Some(t) => Some(crate::json::clone_string(t)),
            None => None,
        };
    }
    proof {
        reveal_strlit("/unknown");
    }
    let base_unknown = crate::strutil::str_eq(base.metadata.project_root.as_str(), "/unknown");
    let extra_unknown = crate::strutil::str_eq(extra.metadata.project_root.as_str(), "/unknown");
    if base_unknown && !extra_unknown {
        base.metadata.project_root = crate::json::clone_string(&extra.metadata.project_root);
    }
}

/// What `extend_raw_lines` leaves behind: the base's `lines` array grown by
/// the extra's, when both are present.
pub open spec fn extended_raw(base: JsonSpec, extra: JsonSpec) -> JsonSpec {
    match spec_get(extra, "lines"@) {
        Some(JsonSpec::Arr(extra_lines)) => match spec_get(base, "lines"@) {
            Some(JsonSpec::Arr(base_lines)) => JsonSpec::Obj(
                crate::json::set_entry(
                    base->Obj_0,
                    "lines"@,
                    JsonSpec::Arr(base_lines + extra_lines),
                ),
            ),
            _ => JsonSpec::Obj(seq![("lines"@, JsonSpec::Arr(extra_lines))]),
        },
        _ => base,
    }
}

/// Appends the extra capture's raw `lines` to the base capture's.
pub fn extend_raw_lines(base: &mut JsonValue, extra: &JsonValue)
    ensures
        final(base)@ == extended_raw(old(base)@, extra@),
{
    let extra_lines = match extra.get("lines") {
        Some(c) => match c {
            JsonValue::Arr(items) => items,
            _ => {
                return ;
            },
        },
        None => {
            return ;
        },
    };
    let has_base_lines = match base.get("lines") {
        Some(c) => match c {
            JsonValue::Arr(_) => true,
            _ => false,
        },
        None => false,
    };
    let ghost old_base = base@;
    if has_base_lines {
        let mut combined: Vec<JsonValue> = Vec::new();
        match base.get("lines") {
            Some(c) => match c {
                JsonValue::Arr(items) => {
                    let ghost base_items = c@->Arr_0;
                    proof {
                        crate::json::lemma_jspec_seq_pointwise(items@);
                        assert(base_items.take(0) =~= Seq::<JsonSpec>::empty());
                        assert(crate::json::jspec_seq(combined@) =~= base_items.take(0));
                    }
                    let mut i: usize = 0;
                    while i < items.len()
                        invariant
                            base_items.len() == items@.len(),
                            forall|j: int|
                                0 <= j < items@.len() ==> #[trigger] base_items[j]
                                    == crate::json::jspec(items@[j]),
                            i <= items@.len(),
                            crate::json::jspec_seq(combined@) == base_items.take(i as int),
                        decreases items@.len() - i,
                    {
                        let ghost before = combined@;
                        combined.push(items[i].deep_clone());
                        proof {
                            crate::json::lemma_jspec_seq_pointwise(before);
                            crate::json::lemma_jspec_seq_pointwise(combined@);
                            assert(crate::json::jspec_seq(combined@) =~= base_items.take(i + 1));
                        }
                        i = i + 1;
                    }
                    proof {
                        assert(base_items.take(items@.len() as int) =~= base_items);
                    }
                },
                _ => {
                    proof {
                        assert(false);
                    }
                },
            },
            None => {
                proof {
                    assert(false);
                }
            },
        }
        let ghost base_items = old_base->Obj_0;
        let ghost combined_base = crate::json::jspec_seq(combined@);
        let mut i: usize = 0;
        let ghost extra_items_v = extra@->Obj_0;
        let ghost ex = match spec_get(extra@, "lines"@) {
            Some(JsonSpec::Arr(xs)) => xs,
            _ => Seq::<JsonSpec>::empty(),
        };
        proof {
            crate::json::lemma_jspec_seq_pointwise(extra_lines@);
            assert(ex.len() == extra_lines@.len());
            assert(forall|j: int|
                0 <= j < extra_lines@.len() ==> #[trigger] ex[j] == crate::json::jspec(
                    extra_lines@[j],
                ));
            assert(ex.take(0) =~= Seq::<JsonSpec>::empty());
            assert(crate::json::jspec_seq(combined@) =~= combined_base + ex.take(0));
        }
        while i < extra_lines.len()
            invariant
                ex.len() == extra_lines@.len(),
                forall|j: int|
                    0 <= j < extra_lines@.len() ==> #[trigger] ex[j] == crate::json::jspec(
                        extra_lines@[j],
                    ),
                i <= extra_lines@.len(),
                crate::json::jspec_seq(combined@) == combined_base + ex.take(i as int),
            decreases extra_lines@.len() - i,
        {
            let ghost before = combined@;
            combined.push(extra_lines[i].deep_clone());
            proof {
                crate::json::lemma_jspec_seq_pointwise(before);
                crate::json::lemma_jspec_seq_pointwise(combined@);
                assert(ex.take(i + 1) =~= ex.take(i as int).push(ex[i as int]));
                assert(combined_base + ex.take(i + 1) =~= (combined_base + ex.take(
                    i as int,
                )).push(ex[i as int]));
                assert(crate::json::jspec_seq(combined@) =~= combined_base + ex.take(i + 1));
            }
            i = i + 1;
        }
        proof {
            assert(ex.take(extra_lines@.len() as int) =~= ex);
        }
        base.set("lines", JsonValue::Arr(combined));
        proof {
            assert(final(base)@ =~~= extended_raw(old_base, extra@));
        }
    } else {
        let mut copied: Vec<JsonValue> = Vec::new();
        let ghost ex = match spec_get(extra@, "lines"@) {
            Some(JsonSpec::Arr(xs)) => xs,
            _ => Seq::<JsonSpec>::empty(),
        };
        proof {
            crate::json::lemma_jspec_seq_pointwise(extra_lines@);
            assert(ex.take(0) =~= Seq::<JsonSpec>::empty());
            assert(crate::json::jspec_seq(copied@) =~= ex.take(0));
        }
        let mut i: usize = 0;
        while i < extra_lines.len()
            invariant
                ex.len() == extra_lines@.len(),
                forall|j: int|
                    0 <= j < extra_lines@.len() ==> #[trigger] ex[j] == crate::json::jspec(
                        extra_lines@[j],
                    ),
                i <= extra_lines@.len(),
                crate::json::jspec_seq(copied@) == ex.take(i as int),
            decreases extra_lines@.len() - i,
        {
            let ghost before = copied@;
            copied.push(extra_lines[i].deep_clone());
            proof {
                crate::json::lemma_jspec_seq_pointwise(before);
                crate::json::lemma_jspec_seq_pointwise(copied@);
                assert(ex.take(i + 1) =~= ex.take(i as int).push(ex[i as int]));
                assert(crate::json::jspec_seq(copied@) =~= ex.take(i + 1));
            }
            i = i + 1;
        }
        proof {
            assert(ex.take(extra_lines@.len() as int) =~= ex);
        }
        let mut entries: Vec<(String, JsonValue)> = Vec::new();
        entries.push((String::from_str("lines"), JsonValue::Arr(copied)));
        *base = JsonValue::Obj(entries);
        proof {
            crate::json::lemma_jspec_entries_pointwise(entries@);
            assert(crate::json::jspec_entries(entries@) =~= seq![("lines"@, JsonSpec::Arr(ex))]);
            assert(final(base)@ =~~= extended_raw(old_base, extra@));
        }
    }
}



/// One native log file, as text lines.
#[derive(Debug, PartialEq, Eq)]
pub struct ClaudeFile {
    pub path: String,
    pub lines: Vec<String>,
}

/// The file parses and names the wanted session.
pub open spec fn file_matches(f: ClaudeFile, sid: Seq<char>) -> bool {
    jsonl_ok(texts_of(f.lines@)) && claude_native_id(jsonl_docs(texts_of(f.lines@)), f.path@)
        == sid
}

/// The newest parsable timestamp a file carries; `None` when it has none
/// (its summary is then stamped with the wall clock).
pub open spec fn file_updated(f: ClaudeFile) -> Option<int> {
    claude_max_ts(jsonl_docs(texts_of(f.lines@)))
}

/// `main_files[i]` is a matching file no other matching file beats: none
/// with a parsable newest timestamp is later, whenever `i`'s own is
/// parsable.  (Files without one are stamped with the wall clock, which no
/// contract can order.)
pub open spec fn is_newest_matching(files: Seq<ClaudeFile>, sid: Seq<char>, i: int) -> bool {
    &&& 0 <= i < files.len()
    &&& file_matches(files[i], sid)
    &&& forall|j: int|
        0 <= j < files.len() && file_matches(#[trigger] files[j], sid) && file_updated(files[j])
            is Some && file_updated(files[i]) is Some ==> file_updated(files[j])->Some_0
            <= file_updated(files[i])->Some_0
}

/// Sorts summarised files ascending by update time (insertion sort, stable
/// enough for the import's needs: equal stamps keep no promised order).
fn sort_files_by_updated(files: &mut Vec<(ClaudeFile, i64)>)
    ensures
        final(files)@.to_multiset() == old(files)@.to_multiset(),
        forall|p: int, q: int|
            0 <= p < q < final(files)@.len() ==> (#[trigger] final(files)@[p]).1 <= (
            #[trigger] final(files)@[q]).1,
{
    let ghost m0 = files@.to_multiset();
    let mut i: usize = 1;
    while i < files.len()
        invariant
            1 <= i || files@.len() == 0,
            i <= files@.len() || files@.len() == 0,
            files@.to_multiset() == m0,
            m0 == old(files)@.to_multiset(),
            forall|p: int, q: int|
                0 <= p < q < i ==> (#[trigger] files@[p]).1 <= (#[trigger] files@[q]).1,
        decreases files@.len() - i,
    {
        let ghost before = files@;
        let e = files.remove(i);
        let ghost mid = files@;
        proof {
            crate::model::lemma_multiset_remove_at(before, i as int);
        }
        let mut pos: usize = 0;
        while pos < i
            invariant_except_break
                forall|p: int| 0 <= p < pos ==> (#[trigger] files@[p]).1 <= e.1,
            invariant
                pos <= i,
                i < before.len(),
                files@ == mid,
                mid == before.remove(i as int),
                e == before[i as int],
                forall|p: int, q: int|
                    0 <= p < q < i ==> (#[trigger] before[p]).1 <= (#[trigger] before[q]).1,
            ensures
                pos <= i,
                files@ == mid,
                forall|p: int| 0 <= p < pos ==> (#[trigger] files@[p]).1 <= e.1,
                pos < i ==> e.1 < mid[pos as int].1,
            decreases i - pos,
        {
            if files[pos].1 > e.1 {
                break ;
            }
            pos = pos + 1;
        }
        files.insert(pos, e);
        proof {
            crate::model::lemma_multiset_insert_at(mid, pos as int, e);
            assert(files@.to_multiset() =~= m0);
            assert forall|p: int, q: int|
                0 <= p < q < i + 1 implies (#[trigger] files@[p]).1 <= (#[trigger] files@[q]).1 by {
                let s = files@;
                if q < pos {
                    assert(s[p] == mid[p] && s[q] == mid[q]);
                    assert(mid[p] == before[p] && mid[q] == before[q]);
                } else if q == pos {
                    assert(s[q] == e);
                    assert(s[p] == mid[p] && mid[p] == before[p]);
                } else {
                    assert(s[q] == mid[q - 1]);
                    assert(mid[q - 1] == before[q - 1]);
                    if p < pos {
                        assert(s[p] == mid[p] && mid[p] == before[p]);
                        if p == q - 1 {
                            assert(pos < i);
                            assert(s[p].1 <= e.1);
                            assert(e.1 < mid[pos as int].1);
                            assert(mid[pos as int] == before[pos as int]);
                        } else {
                            assert(before[p].1 <= before[q - 1].1);
                        }
                    } else if p == pos {
                        assert(s[p] == e);
                        assert(pos < i);
                        assert(e.1 < mid[pos as int].1);
                        assert(mid[pos as int] == before[pos as int]);
                        if q - 1 > pos {
                            assert(before[pos as int].1 <= before[q - 1].1);
                        }
                    } else {
                        assert(s[p] == mid[p - 1] && mid[p - 1] == before[p - 1]);
                        assert(before[p - 1].1 <= before[q - 1].1);
                    }
                }
            }
        }
        i = i + 1;
    }
}

/// A permutation of matching files still matches, file for file.
proof fn lemma_matching_preserved(
    s1: Seq<(ClaudeFile, i64)>,
    s2: Seq<(ClaudeFile, i64)>,
    sid: Seq<char>,
)
    requires
        s1.to_multiset() == s2.to_multiset(),
        forall|j: int| 0 <= j < s1.len() ==> file_matches((#[trigger] s1[j]).0, sid),
    ensures
        s2.len() == s1.len(),
        forall|j: int| 0 <= j < s2.len() ==> file_matches((#[trigger] s2[j]).0, sid),
{
    broadcast use vstd::seq_lib::group_to_multiset_ensures;

    assert(s1.to_multiset().len() == s1.len());
    assert(s2.to_multiset().len() == s2.len());
    assert forall|j: int| 0 <= j < s2.len() implies file_matches((#[trigger] s2[j]).0, sid) by {
        assert(s2.contains(s2[j]));
        assert(s2.to_multiset().count(s2[j]) > 0);
        assert(s1.to_multiset().count(s2[j]) > 0);
        assert(s1.contains(s2[j]));
        let i = choose|i: int| 0 <= i < s1.len() && s1[i] == s2[j];
        assert(file_matches(s1[i].0, sid));
    }
}

impl ClaudeAdapter {
    /// The newest main file carrying the requested session: where the
    /// sub-agent streams are looked for.
    pub fn newest_main_file(&self, session_id: &str, main_files: &Vec<ClaudeFile>) -> (r: Option<
        String,
    >)
        ensures
            r is Some <==> exists|i: int|
                0 <= i < main_files@.len() && file_matches(#[trigger] main_files@[i], session_id@),
            r matches Some(p) ==> exists|i: int|
                #[trigger] is_newest_matching(main_files@, session_id@, i) && p@
                    == main_files@[i].path@,
    {
        let mut best: Option<(usize, i64)> = None;
        let mut i: usize = 0;
        while i < main_files.len()
            invariant
                i <= main_files@.len(),
                match best {
                    Some(b) => {
                        &&& b.0 < main_files@.len()
                        &&& file_matches(main_files@[b.0 as int], session_id@)
                        &&& (file_updated(main_files@[b.0 as int]) matches Some(u) ==> u
                            == b.1 as int)
                        &&& forall|j: int|
                            0 <= j < i && file_matches(#[trigger] main_files@[j], session_id@)
                                && file_updated(main_files@[j]) is Some ==> file_updated(
                                main_files@[j],
                            )->Some_0 <= b.1 as int
                    },
                    None => forall|j: int|
                        0 <= j < i ==> !file_matches(#[trigger] main_files@[j], session_id@),
                },
            decreases main_files@.len() - i,
        {
            match self.summary_from_lines(main_files[i].path.as_str(), &main_files[i].lines) {
                Ok(summary) => {
                    if crate::strutil::str_eq(summary.native_id.as_str(), session_id) {
                        best = match best {
                            Some(b) => {
                                if summary.updated_at.millis > b.1 {
                                    Some((i, summary.updated_at.millis))
                                } else {
                                    Some(b)
                                }
                            },
                            None => Some((i, summary.updated_at.millis)),
                        };
                    }
                },
                Err(_) => {},
            }
            i = i + 1;
        }
        match best {
            Some(b) => {
                proof {
                    assert(is_newest_matching(main_files@, session_id@, b.0 as int));
                }
                Some(crate::json::clone_string(&main_files[b.0].path))
            },
            None => None,
        }
    }

    /// Imports a session out of its main files and the sub-agent files next
    /// to the newest of them: the oldest matching file is the base, later
    /// split files and matching sub-agent streams are folded in, duplicates
    /// by `(stream, uid)` dropped (the last wins), and the whole timeline
    /// canonically sorted.
    pub fn import_session_from_files(
        &self,
        session_id: &str,
        main_files: Vec<ClaudeFile>,
        subagent_files: Vec<ClaudeFile>,
    ) -> (r: Result<SteadSession, AdapterError>)
        ensures
            match r {
                Ok(s) => {
                    &&& exists|i: int|
                        0 <= i < main_files@.len() && file_matches(
                            #[trigger] main_files@[i],
                            session_id@,
                        )
                    &&& s.schema_version@ == crate::model::SCHEMA_VERSION@
                    &&& s.source.backend == BackendKind::ClaudeCode
                    &&& s.source.original_session_id@ == session_id@
                    &&& s.session_uid@ == crate::model::session_uid_spec(
                        BackendKind::ClaudeCode,
                        session_id@,
                    )
                    &&& crate::model::events_sorted(s.events@)
                    &&& s.sequences_dense()
                    &&& crate::model::event_identity_distinct(s.events@)
                    &&& forall|j: int|
                        0 <= j < s.events@.len() ==> carries_source_file(#[trigger] s.events@[j])
                    &&& forall|p: int, q: int|
                        0 <= p < q < s.source.source_files@.len() ==> (
                        #[trigger] s.source.source_files@[p])@ != (
                        #[trigger] s.source.source_files@[q])@
                },
                Err(e) => {
                    &&& e is SessionNotFound ==> forall|i: int|
                        0 <= i < main_files@.len() ==> !file_matches(
                            #[trigger] main_files@[i],
                            session_id@,
                        )
                    &&& (e is SessionNotFound || e is Json)
                },
            },
            !(exists|i: int|
                0 <= i < main_files@.len() && file_matches(
                    #[trigger] main_files@[i],
                    session_id@,
                )) ==> (r matches Err(e) && e matches AdapterError::SessionNotFound(id) && id@
                == session_id@),
            (exists|i: int|
                0 <= i < main_files@.len() && file_matches(
                    #[trigger] main_files@[i],
                    session_id@,
                )) && (forall|j: int|
                0 <= j < subagent_files@.len() ==> jsonl_ok(
                    texts_of((#[trigger] subagent_files@[j]).lines@),
                )) ==> r is Ok,
    {
        let mut matching: Vec<(ClaudeFile, i64)> = Vec::new();
        let mut rest = main_files;
        let ghost orig_main = rest@;
        let mut k: usize = 0;
        let total = rest.len();
        proof {
            assert(orig_main.skip(0) =~= orig_main);
        }
        while rest.len() > 0
            invariant
                k <= orig_main.len() <= usize::MAX,
                rest@ == orig_main.skip(k as int),
                forall|j: int|
                    0 <= j < matching@.len() ==> file_matches(
                        (#[trigger] matching@[j]).0,
                        session_id@,
                    ),
                matching@.len() > 0 ==> exists|i: int|
                    0 <= i < orig_main.len() && file_matches(
                        #[trigger] orig_main[i],
                        session_id@,
                    ),
                matching@.len() == 0 ==> forall|i: int|
                    0 <= i < k ==> !file_matches(#[trigger] orig_main[i], session_id@),
            decreases rest@.len(),
        {
            let f = rest.remove(0);
            proof {
                assert(f == orig_main[k as int]);
                assert(orig_main.skip(k as int).remove(0) =~= orig_main.skip(k + 1));
            }
            let mut keep = false;
            let mut stamp: i64 = 0;
            match self.summary_from_lines(f.path.as_str(), &f.lines) {
                Ok(summary) => {
                    if crate::strutil::str_eq(summary.native_id.as_str(), session_id) {
                        keep = true;
                        stamp = summary.updated_at.millis;
                    }
                },
                Err(_) => {},
            }
            if keep {
                matching.push((f, stamp));
            }
            k = k + 1;
        }
        if matching.len() == 0 {
            proof {
                assert(orig_main.skip(k as int).len() == 0);
            }
            return Err(AdapterError::SessionNotFound(session_id.to_owned()));
        }
        let ghost pre_sort = matching@;
        sort_files_by_updated(&mut matching);
        proof {
            lemma_matching_preserved(pre_sort, matching@, session_id@);
        }
        let ghost m0 = matching@;
        let base_file = matching.remove(0);
        proof {
            assert(base_file == m0[0]);
            assert(file_matches(base_file.0, session_id@));
            assert(forall|j: int|
                0 <= j < matching@.len() ==> #[trigger] matching@[j] == m0[j + 1]);
        }
        let mut session = match self.import_from_lines(
            base_file.0.path.as_str(),
            "main",
            &base_file.0.lines,
        ) {
            Ok(s) => s,
            Err(e) => {
                proof {
                    assert(jsonl_ok(texts_of(base_file.0.lines@)));
                    assert(false);
                }
                return Err(e);
            },
        };
        let mut source_files: Vec<String> = Vec::new();
        source_files.push(crate::json::clone_string(&base_file.0.path));
        let mut events = Vec::new();
        std::mem::swap(&mut events, &mut session.events);
        proof {
            assert forall|t: int|
                0 <= t < events@.len() implies carries_source_file(#[trigger] events@[t]) by {
                lemma_source_ext_carries(events@[t], base_file.0.path@);
            }
        }
        let mut fi: usize = 0;
        while fi < matching.len()
            invariant
                forall|t: int|
                    0 <= t < events@.len() ==> carries_source_file(#[trigger] events@[t]),
                exists|i: int|
                    0 <= i < main_files@.len() && file_matches(
                        #[trigger] main_files@[i],
                        session_id@,
                    ),
                session.source.backend == BackendKind::ClaudeCode,
                session.source.original_session_id@ == session_id@,
                session.session_uid@ == crate::model::session_uid_spec(
                    BackendKind::ClaudeCode,
                    session_id@,
                ),
                session.schema_version@ == crate::model::SCHEMA_VERSION@,
                forall|j: int|
                    0 <= j < matching@.len() ==> file_matches(
                        (#[trigger] matching@[j]).0,
                        session_id@,
                    ),
                fi <= matching@.len(),
            decreases matching@.len() - fi,
        {
            let extra = match self.import_from_lines(
                matching[fi].0.path.as_str(),
                "main",
                &matching[fi].0.lines,
            ) {
                Ok(s) => s,
                Err(e) => {
                    proof {
                        assert(jsonl_ok(texts_of(matching@[fi as int].0.lines@)));
                        assert(false);
                    }
                    return Err(e);
                },
            };
            source_files.push(crate::json::clone_string(&matching[fi].0.path));
            merge_session_metadata(&mut session, &extra);
            extend_raw_lines(&mut session.raw_vendor_payload, &extra.raw_vendor_payload);
            let mut extra_events = extra.events;
            proof {
                assert forall|t: int|
                    0 <= t < extra_events@.len() implies carries_source_file(
                    #[trigger] extra_events@[t],
                ) by {
                    lemma_source_ext_carries(
                        extra_events@[t],
                        matching@[fi as int].0.path@,
                    );
                }
            }
            while extra_events.len() > 0
                invariant
                    forall|t: int|
                        0 <= t < events@.len() ==> carries_source_file(#[trigger] events@[t]),
                    forall|t: int|
                        0 <= t < extra_events@.len() ==> carries_source_file(
                            #[trigger] extra_events@[t],
                        ),
                decreases extra_events@.len(),
            {
                events.push(extra_events.remove(0));
            }
            fi = fi + 1;
        }
        let mut si: usize = 0;
        while si < subagent_files.len()
            invariant
                forall|t: int|
                    0 <= t < events@.len() ==> carries_source_file(#[trigger] events@[t]),
                exists|i: int|
                    0 <= i < main_files@.len() && file_matches(
                        #[trigger] main_files@[i],
                        session_id@,
                    ),
                session.source.backend == BackendKind::ClaudeCode,
                session.source.original_session_id@ == session_id@,
                session.session_uid@ == crate::model::session_uid_spec(
                    BackendKind::ClaudeCode,
                    session_id@,
                ),
                session.schema_version@ == crate::model::SCHEMA_VERSION@,
                si <= subagent_files@.len(),
            decreases subagent_files@.len() - si,
        {
            let f = &subagent_files[si];
            let stem = crate::strutil::file_stem_of(f.path.as_str());
            let mut stream = String::new();
            stream.append("subagent:");
            if stem.as_str().unicode_len() == 0 {
                stream.append("unknown");
            } else {
                stream.append(stem.as_str());
            }
            let sub = match self.import_from_lines(f.path.as_str(), stream.as_str(), &f.lines) {
                Ok(s) => s,
                Err(e) => {
                    proof {
                        assert(!jsonl_ok(texts_of(subagent_files@[si as int].lines@)));
                    }
                    return Err(e);
                },
            };
            if crate::strutil::str_eq(
                sub.source.original_session_id.as_str(),
                session_id,
            ) {
                source_files.push(crate::json::clone_string(&f.path));
                extend_raw_lines(&mut session.raw_vendor_payload, &sub.raw_vendor_payload);
                let mut sub_events = sub.events;
                proof {
                    assert forall|t: int|
                        0 <= t < sub_events@.len() implies carries_source_file(
                        #[trigger] sub_events@[t],
                    ) by {
                        lemma_source_ext_carries(
                            sub_events@[t],
                            subagent_files@[si as int].path@,
                        );
                    }
                }
                while sub_events.len() > 0
                    invariant
                        forall|t: int|
                            0 <= t < events@.len() ==> carries_source_file(#[trigger] events@[t]),
                        forall|t: int|
                            0 <= t < sub_events@.len() ==> carries_source_file(
                                #[trigger] sub_events@[t],
                            ),
                    decreases sub_events@.len(),
                {
                    events.push(sub_events.remove(0));
                }
            }
            si = si + 1;
        }
        let ghost pool = events@;
        let mut deduped = dedupe_events_by_identity(events);
        proof {
            assert(crate::model::event_identity_distinct(deduped@)) by {
                assert(forall|p: int, q: int|
                    0 <= p < q < deduped@.len() ==> event_identity(#[trigger] deduped@[p])
                        != event_identity(#[trigger] deduped@[q]));
            }
            assert forall|t: int|
                0 <= t < deduped@.len() implies carries_source_file(#[trigger] deduped@[t]) by {
                lemma_dedup_identity_elements(pool, t);
            }
        }
        let ghost pre_sorted_union = deduped@;
        crate::model::canonical_sort_events(&mut deduped);
        proof {
            assert forall|t: int|
                0 <= t < deduped@.len() implies carries_source_file(#[trigger] deduped@[t]) by {
                crate::model::lemma_sketch_member(pre_sorted_union, deduped@, t);
                let i0 = choose|i0: int|
                    0 <= i0 < pre_sorted_union.len() && crate::model::sketch_of(
                        #[trigger] pre_sorted_union[i0],
                    ) == crate::model::sketch_of(deduped@[t]);
                assert(carries_source_file(pre_sorted_union[i0]));
                assert(deduped@[t].extensions@ == pre_sorted_union[i0].extensions@);
            }
        }
        session.events = deduped;
        session.source.source_files = dedupe_strings_preserve_order(source_files);
        Ok(session)
    }
}



/// The first stored raw line carrying a string `field`.
pub open spec fn first_line_field(items: Seq<JsonSpec>, field: Seq<char>) -> Option<Seq<char>>
    decreases items.len(),
{
    if items.len() == 0 {
        None
    } else {
        match first_line_field(items.drop_last(), field) {
            Some(v) => Some(v),
            None => spec_get_str(items.last(), field),
        }
    }
}

/// The first raw capture line with a string `field`, read off the session's
/// raw vendor payload.
pub open spec fn first_raw_string_field(raw: JsonSpec, field: Seq<char>) -> Option<Seq<char>> {
    match spec_get(raw, "lines"@) {
        Some(JsonSpec::Arr(items)) => first_line_field(items, field),
        _ => None,
    }
}

fn first_raw_string_field_exec(raw: &JsonValue, field: &str) -> (r: Option<String>)
    ensures
        crate::adapter::opt_str_is(r, first_raw_string_field(raw@, field@)),
{
    let items = match raw.get("lines") {
        Some(c) => match c {
            JsonValue::Arr(items) => items,
            _ => {
                return None;
            },
        },
        None => {
            return None;
        },
    };
    let ghost items_v = crate::json::jspec_seq(items@);
    proof {
        crate::json::lemma_jspec_seq_pointwise(items@);
        assert(items_v.take(0) =~= Seq::<JsonSpec>::empty());
    }
    let mut i: usize = 0;
    while i < items.len()
        invariant
            items_v.len() == items@.len(),
            forall|j: int| 0 <= j < items@.len() ==> #[trigger] items_v[j] == items@[j]@,
            i <= items@.len(),
            first_raw_string_field(raw@, field@) == first_line_field(items_v, field@),
            first_line_field(items_v.take(i as int), field@) is None,
        decreases items@.len() - i,
    {
        proof {
            assert(items_v.take(i + 1).drop_last() =~= items_v.take(i as int));
            assert(items_v.take(i + 1).last() == items_v[i as int]);
        }
        match items[i].get_str(field) {
            Some(v) => {
                proof {
                    lemma_first_field_extends(items_v, i as int, field@);
                }
                return Some(v.to_owned());
            },
            None => {},
        }
        i = i + 1;
    }
    proof {
        assert(items_v.take(items_v.len() as int) =~= items_v);
    }
    None
}

proof fn lemma_first_field_extends(items: Seq<JsonSpec>, i: int, field: Seq<char>)
    requires
        0 <= i < items.len(),
        first_line_field(items.take(i), field) is None,
        spec_get_str(items[i], field) is Some,
    ensures
        first_line_field(items, field) == spec_get_str(items[i], field),
    decreases items.len(),
{
    if items.len() - 1 > i {
        assert(items.drop_last().take(i) =~= items.take(i));
        assert(items.drop_last()[i] == items[i]);
        lemma_first_field_extends(items.drop_last(), i, field);
    } else {
        assert(items.drop_last() =~= items.take(i));
    }
}

/// The shared base of every exported claude_code line.
pub open spec fn claude_base_line(
    parent: Option<Seq<char>>,
    cwd: Seq<char>,
    sid: Seq<char>,
    version: Seq<char>,
    branch: Seq<char>,
    ts: int,
    uid: Seq<char>,
) -> JsonSpec {
    JsonSpec::Obj(
        seq![
            (
                "parentUuid"@,
                match parent {
                    Some(p) => JsonSpec::Str(p),
                    None => JsonSpec::Null,
                },
            ),
            ("isSidechain"@, JsonSpec::Bool(false)),
            ("userType"@, JsonSpec::Str("external"@)),
            ("cwd"@, JsonSpec::Str(cwd)),
            ("sessionId"@, JsonSpec::Str(sid)),
            ("version"@, JsonSpec::Str(version)),
            ("gitBranch"@, JsonSpec::Str(branch)),
            ("timestamp"@, JsonSpec::Str(crate::clock::rfc3339_text_or_empty(ts))),
            ("uuid"@, JsonSpec::Str(uid)),
        ],
    )
}

/// The kind-specific part of an exported claude_code line.
pub open spec fn claude_specific(e: EventSketch) -> JsonSpec {
    match e.payload {
        PayloadSketch::Text { text } => if e.kind == EventKind::MessageUser {
            JsonSpec::Obj(
                seq![
                    ("type"@, JsonSpec::Str("user"@)),
                    ("permissionMode"@, JsonSpec::Str("default"@)),
                    (
                        "message"@,
                        JsonSpec::Obj(
                            seq![
                                ("role"@, JsonSpec::Str("user"@)),
                                ("content"@, JsonSpec::Str(text)),
                            ],
                        ),
                    ),
                ],
            )
        } else if e.kind == EventKind::MessageAssistant {
            JsonSpec::Obj(
                seq![
                    ("type"@, JsonSpec::Str("assistant"@)),
                    (
                        "message"@,
                        JsonSpec::Obj(
                            seq![
                                ("role"@, JsonSpec::Str("assistant"@)),
                                (
                                    "content"@,
                                    JsonSpec::Arr(
                                        seq![
                                            JsonSpec::Obj(
                                                seq![
                                                    ("type"@, JsonSpec::Str("text"@)),
                                                    ("text"@, JsonSpec::Str(text)),
                                                ],
                                            ),
                                        ],
                                    ),
                                ),
                            ],
                        ),
                    ),
                ],
            )
        } else {
            claude_system_specific()
        },
        PayloadSketch::ToolCall { tool_name, input } => if e.kind == EventKind::ToolCall {
            JsonSpec::Obj(
                seq![
                    ("type"@, JsonSpec::Str("assistant"@)),
                    (
                        "message"@,
                        JsonSpec::Obj(
                            seq![
                                ("role"@, JsonSpec::Str("assistant"@)),
                                (
                                    "content"@,
                                    JsonSpec::Arr(
                                        seq![
                                            JsonSpec::Obj(
                                                seq![
                                                    ("type"@, JsonSpec::Str("tool_use"@)),
                                                    ("id"@, JsonSpec::Str(e.event_uid)),
                                                    ("name"@, JsonSpec::Str(tool_name)),
                                                    ("input"@, input),
                                                ],
                                            ),
                                        ],
                                    ),
                                ),
                            ],
                        ),
                    ),
                ],
            )
        } else {
            claude_system_specific()
        },
        PayloadSketch::ToolResult { call_id, ok, output_text, error_text } => if e.kind
            == EventKind::ToolResult {
            JsonSpec::Obj(
                seq![
                    ("type"@, JsonSpec::Str("user"@)),
                    ("permissionMode"@, JsonSpec::Str("default"@)),
                    (
                        "message"@,
                        JsonSpec::Obj(
                            seq![
                                ("role"@, JsonSpec::Str("user"@)),
                                (
                                    "content"@,
                                    JsonSpec::Arr(
                                        seq![
                                            JsonSpec::Obj(
                                                seq![
                                                    ("type"@, JsonSpec::Str("tool_result"@)),
                                                    ("tool_use_id"@, JsonSpec::Str(call_id)),
                                                    (
                                                        "content"@,
                                                        JsonSpec::Str(
                                                            match output_text {
                                                                Some(t) => t,
                                                                None => Seq::empty(),
                                                            },
                                                        ),
                                                    ),
                                                    ("is_error"@, JsonSpec::Bool(!ok)),
                                                ],
                                            ),
                                        ],
                                    ),
                                ),
                            ],
                        ),
                    ),
                ],
            )
        } else {
            claude_system_specific()
        },
        PayloadSketch::Json { value } => if e.kind == EventKind::SystemProgress {
            JsonSpec::Obj(
                seq![("type"@, JsonSpec::Str("progress"@)), ("data"@, value)],
            )
        } else {
            claude_system_specific()
        },
    }
}

pub open spec fn claude_system_specific() -> JsonSpec {
    JsonSpec::Obj(seq![("type"@, JsonSpec::Str("system"@))])
}

/// One exported line: the base merged under the specific part, then
/// overlaid with the event's raw capture.
pub open spec fn claude_full_line(
    e: EventSketch,
    parent: Option<Seq<char>>,
    cwd: Seq<char>,
    sid: Seq<char>,
    version: Seq<char>,
    branch: Seq<char>,
) -> JsonSpec {
    crate::json::spec_overlay(
        crate::json::spec_merge(
            claude_base_line(parent, cwd, sid, version, branch, e.timestamp, e.event_uid),
            claude_specific(e),
        ),
        Some(e.raw_vendor_payload),
    )
}

/// The exported lines from event `i` on, each one's `uuid` feeding the next
/// line's `parentUuid`.
pub open spec fn claude_lines_from(
    events: Seq<SteadEvent>,
    i: int,
    parent: Option<Seq<char>>,
    cwd: Seq<char>,
    sid: Seq<char>,
    version: Seq<char>,
    branch: Seq<char>,
) -> Seq<JsonSpec>
    decreases events.len() - i,
    when 0 <= i <= events.len()
{
    if i >= events.len() {
        Seq::empty()
    } else {
        let line = claude_full_line(
            crate::model::sketch_of(events[i]),
            parent,
            cwd,
            sid,
            version,
            branch,
        );
        seq![line] + claude_lines_from(
            events,
            i + 1,
            spec_get_str(line, "uuid"@),
            cwd,
            sid,
            version,
            branch,
        )
    }
}



fn claude_system_exec() -> (r: JsonValue)
    ensures
        r@ == claude_system_specific(),
{
    let mut entries: Vec<(String, JsonValue)> = Vec::new();
    entries.push((String::from_str("type"), JsonValue::str_of("system")));
    let r = JsonValue::Obj(entries);
    proof {
        crate::json::lemma_jspec_entries_pointwise(entries@);
        let target = claude_system_specific();
        assert(crate::json::jspec_entries(entries@)[0] == target->Obj_0[0]);
        assert(crate::json::jspec_entries(entries@) =~= target->Obj_0);
    }
    r
}

/// A one-entry `message` object wrapper.
fn message_wrap(role_user: bool, content: JsonValue, with_mode: bool, outer_type: &str) -> (r:
    JsonValue)
    ensures
        r@ == JsonSpec::Obj(
            (seq![("type"@, JsonSpec::Str(outer_type@))] + (if with_mode {
                seq![("permissionMode"@, JsonSpec::Str("default"@))]
            } else {
                Seq::<(Seq<char>, JsonSpec)>::empty()
            })) + seq![
                (
                    "message"@,
                    JsonSpec::Obj(
                        seq![
                            (
                                "role"@,
                                JsonSpec::Str(
                                    if role_user {
                                        "user"@
                                    } else {
                                        "assistant"@
                                    },
                                ),
                            ),
                            ("content"@, content@),
                        ],
                    ),
                ),
            ],
        ),
{
    let mut message: Vec<(String, JsonValue)> = Vec::new();
    message.push(
        (
            String::from_str("role"),
            JsonValue::str_of(
                if role_user {
                    "user"
                } else {
                    "assistant"
                },
            ),
        ),
    );
    let ghost content_v = content@;
    message.push((String::from_str("content"), content));
    let ghost message_snap = message@;
    let mut entries: Vec<(String, JsonValue)> = Vec::new();
    entries.push((String::from_str("type"), JsonValue::str_of(outer_type)));
    if with_mode {
        entries.push((String::from_str("permissionMode"), JsonValue::str_of("default")));
    }
    entries.push((String::from_str("message"), JsonValue::Obj(message)));
    let r = JsonValue::Obj(entries);
    proof {
        crate::json::lemma_jspec_entries_pointwise(message_snap);
        crate::json::lemma_jspec_entries_pointwise(entries@);
        let target = (seq![("type"@, JsonSpec::Str(outer_type@))] + (if with_mode {
            seq![("permissionMode"@, JsonSpec::Str("default"@))]
        } else {
            Seq::<(Seq<char>, JsonSpec)>::empty()
        })) + seq![
            (
                "message"@,
                JsonSpec::Obj(
                    seq![
                        (
                            "role"@,
                            JsonSpec::Str(
                                if role_user {
                                    "user"@
                                } else {
                                    "assistant"@
                                },
                            ),
                        ),
                        ("content"@, content_v),
                    ],
                ),
            ),
        ];
        assert(crate::json::jspec_entries(message_snap) =~= seq![
            (
                "role"@,
                JsonSpec::Str(
                    if role_user {
                        "user"@
                    } else {
                        "assistant"@
                    },
                ),
            ),
            ("content"@, content_v),
        ]);
        assert(crate::json::jspec_entries(entries@) =~= target);
    }
    r
}

/// One content item wrapped in a one-element array.
fn single_item_array(item: JsonValue) -> (r: JsonValue)
    ensures
        r@ == JsonSpec::Arr(seq![item@]),
{
    let ghost item_v = item@;
    let mut content: Vec<JsonValue> = Vec::new();
    content.push(item);
    let r = JsonValue::Arr(content);
    proof {
        crate::json::lemma_jspec_seq_pointwise(content@);
        assert(crate::json::jspec_seq(content@) =~= seq![item_v]);
    }
    r
}

/// Builds the kind-specific part of one exported line.
fn claude_specific_exec(event: &SteadEvent) -> (r: JsonValue)
    ensures
        r@ == claude_specific(crate::model::sketch_of(*event)),
{
    let ghost sk = crate::model::sketch_of(*event);
    match &event.payload {
        EventPayload::Text { text } => {
            if matches!(event.kind, EventKind::MessageUser) {
                let r = message_wrap(true, JsonValue::str_of(text.as_str()), true, "user");
                proof {
                    assert(r@->Obj_0 =~= claude_specific(sk)->Obj_0);
                    assert(r@ =~= claude_specific(sk));
                }
                r
            } else if matches!(event.kind, EventKind::MessageAssistant) {
                let mut item: Vec<(String, JsonValue)> = Vec::new();
                item.push((String::from_str("type"), JsonValue::str_of("text")));
                item.push((String::from_str("text"), JsonValue::str_of(text.as_str())));
                let ghost item_snap = item@;
                let arr = single_item_array(JsonValue::Obj(item));
                let r = message_wrap(false, arr, false, "assistant");
                proof {
                    crate::json::lemma_jspec_entries_pointwise(item_snap);
                    assert(crate::json::jspec_entries(item_snap) =~= seq![
                        ("type"@, JsonSpec::Str("text"@)),
                        ("text"@, JsonSpec::Str(text@)),
                    ]);
                    assert(r@->Obj_0 =~= claude_specific(sk)->Obj_0);
                    assert(r@ =~= claude_specific(sk));
                }
                r
            } else {
                claude_system_exec()
            }
        },
        EventPayload::ToolCall { tool_name, input } => {
            if matches!(event.kind, EventKind::ToolCall) {
                let mut item: Vec<(String, JsonValue)> = Vec::new();
                item.push((String::from_str("type"), JsonValue::str_of("tool_use")));
                item.push((String::from_str("id"), JsonValue::str_of(event.event_uid.as_str())));
                item.push((String::from_str("name"), JsonValue::str_of(tool_name.as_str())));
                item.push((String::from_str("input"), input.deep_clone()));
                let ghost item_snap = item@;
                let arr = single_item_array(JsonValue::Obj(item));
                let r = message_wrap(false, arr, false, "assistant");
                proof {
                    crate::json::lemma_jspec_entries_pointwise(item_snap);
                    assert(crate::json::jspec_entries(item_snap) =~= seq![
                        ("type"@, JsonSpec::Str("tool_use"@)),
                        ("id"@, JsonSpec::Str(event.event_uid@)),
                        ("name"@, JsonSpec::Str(tool_name@)),
                        ("input"@, input@),
                    ]);
                    assert(r@->Obj_0 =~= claude_specific(sk)->Obj_0);
                    assert(r@ =~= claude_specific(sk));
                }
                r
            } else {
                claude_system_exec()
            }
        },
        EventPayload::ToolResult { call_id, ok, output_text, error_text } => {
            if matches!(event.kind, EventKind::ToolResult) {
                let mut item: Vec<(String, JsonValue)> = Vec::new();
                item.push((String::from_str("type"), JsonValue::str_of("tool_result")));
                item.push(
                    (String::from_str("tool_use_id"), JsonValue::str_of(call_id.as_str())),
                );
                let content_val = match output_text {
                    Some(t) => JsonValue::str_of(t.as_str()),
                    None => {
                        proof {
                            reveal_strlit("");
                            assert(""@ =~= Seq::<char>::empty());
                        }
                        JsonValue::str_of("")
                    },
                };
                item.push((String::from_str("content"), content_val));
                item.push((String::from_str("is_error"), JsonValue::Bool(!*ok)));
                let ghost item_snap = item@;
                let arr = single_item_array(JsonValue::Obj(item));
                let r = message_wrap(true, arr, true, "user");
                proof {
                    crate::json::lemma_jspec_entries_pointwise(item_snap);
                    assert(crate::json::jspec_entries(item_snap) =~= seq![
                        ("type"@, JsonSpec::Str("tool_result"@)),
                        ("tool_use_id"@, JsonSpec::Str(call_id@)),
                        (
                            "content"@,
                            JsonSpec::Str(
                                match output_text {
                                    Some(t) => t@,
                                    None => Seq::empty(),
                                },
                            ),
                        ),
                        ("is_error"@, JsonSpec::Bool(!*ok)),
                    ]);
                    let es = r@->Obj_0;
                    let ts2 = claude_specific(sk)->Obj_0;
                    assert(es.len() == 3);
                    assert(ts2.len() == 3);
                    assert(es[0] == ts2[0]);
                    assert(es[1] == ts2[1]);
                    assert(es[2].0 == ts2[2].0);
                    assert(es[2].1->Obj_0[0] == ts2[2].1->Obj_0[0]);
                    let ia = es[2].1->Obj_0[1].1->Arr_0[0]->Obj_0;
                    let ib = ts2[2].1->Obj_0[1].1->Arr_0[0]->Obj_0;
                    assert(ia.len() == 4);
                    assert(ib.len() == 4);
                    assert(ia[0] == ib[0]);
                    assert(ia[1] == ib[1]);
                    assert(ia[2] == ib[2]);
                    assert(ia[3] == ib[3]);
                    assert(ia =~= ib);
                    assert(es[2].1->Obj_0[1].1->Arr_0[0] =~= ts2[2].1->Obj_0[1].1->Arr_0[0]);
                    assert(es[2].1->Obj_0[1].1 =~= ts2[2].1->Obj_0[1].1);
                    assert(es[2].1->Obj_0[1] == ts2[2].1->Obj_0[1]);
                    assert(es[2].1 =~= ts2[2].1);
                    assert(es =~= ts2);
                    assert(r@ =~= claude_specific(sk));
                }
                r
            } else {
                claude_system_exec()
            }
        },
        EventPayload::Json { value } => {
            if matches!(event.kind, EventKind::SystemProgress) {
                let mut entries: Vec<(String, JsonValue)> = Vec::new();
                entries.push((String::from_str("type"), JsonValue::str_of("progress")));
                entries.push((String::from_str("data"), value.deep_clone()));
                let r = JsonValue::Obj(entries);
                proof {
                    crate::json::lemma_jspec_entries_pointwise(entries@);
                    assert(crate::json::jspec_entries(entries@) =~= seq![
                        ("type"@, JsonSpec::Str("progress"@)),
                        ("data"@, value@),
                    ]);
                    assert(r@->Obj_0 =~= claude_specific(sk)->Obj_0);
                    assert(r@ =~= claude_specific(sk));
                }
                r
            } else {
                claude_system_exec()
            }
        },
    }
}

/// Builds the base envelope of one exported line.
fn claude_base_exec(
    parent: &Option<String>,
    cwd: &str,
    sid: &str,
    version: &str,
    branch: &str,
    ts: i64,
    uid: &str,
) -> (r: JsonValue)
    ensures
        r@ == claude_base_line(
            match parent {
                Some(p) => Some(p@),
                None => None,
            },
            cwd@,
            sid@,
            version@,
            branch@,
            ts as int,
            uid@,
        ),
{
    let ts_text = crate::clock::format_rfc3339(ts);
    let mut entries: Vec<(String, JsonValue)> = Vec::new();
    entries.push(
        (
            String::from_str("parentUuid"),
            match parent {
                Some(p) => JsonValue::str_of(p.as_str()),
                None => JsonValue::Null,
            },
        ),
    );
    entries.push((String::from_str("isSidechain"), JsonValue::Bool(false)));
    entries.push((String::from_str("userType"), JsonValue::str_of("external")));
    entries.push((String::from_str("cwd"), JsonValue::str_of(cwd)));
    entries.push((String::from_str("sessionId"), JsonValue::str_of(sid)));
    entries.push((String::from_str("version"), JsonValue::str_of(version)));
    entries.push((String::from_str("gitBranch"), JsonValue::str_of(branch)));
    entries.push((String::from_str("timestamp"), JsonValue::Str(ts_text)));
    entries.push((String::from_str("uuid"), JsonValue::str_of(uid)));
    let r = JsonValue::Obj(entries);
    proof {
        crate::json::lemma_jspec_entries_pointwise(entries@);
        let target = claude_base_line(
            match parent {
                Some(p) => Some(p@),
                None => None,
            },
            cwd@,
            sid@,
            version@,
            branch@,
            ts as int,
            uid@,
        );
        let es = crate::json::jspec_entries(entries@);
        assert(es[0] == target->Obj_0[0]);
        assert(es[1] == target->Obj_0[1]);
        assert(es[2] == target->Obj_0[2]);
        assert(es[3] == target->Obj_0[3]);
        assert(es[4] == target->Obj_0[4]);
        assert(es[5] == target->Obj_0[5]);
        assert(es[6] == target->Obj_0[6]);
        assert(es[7] == target->Obj_0[7]);
        assert(es[8] == target->Obj_0[8]);
        assert(es =~= target->Obj_0);
    }
    r
}

/// Projects a canonical session into claude_code lines: one per event, the
/// base envelope merged under the kind-specific body, each line overlaid
/// with its raw capture, and every line's `uuid` feeding the next line's
/// `parentUuid`.
pub fn export_claude_lines(session: &SteadSession) -> (r: Vec<JsonValue>)
    ensures
        docs_of(r@) == claude_lines_from(
            session.events@,
            0,
            None,
            session.metadata.project_root@,
            session.source.original_session_id@,
            claude_export_version(session.raw_vendor_payload@),
            claude_export_branch(session.raw_vendor_payload@),
        ),
{
    let version: String = match first_raw_string_field_exec(&session.raw_vendor_payload, "version") {
        Some(v) => v,
        None => String::from_str("2.1.47"),
    };
    let branch: String = match first_raw_string_field_exec(&session.raw_vendor_payload, "gitBranch") {
        Some(v) => v,
        None => String::from_str("main"),
    };
    let ghost version_v = claude_export_version(session.raw_vendor_payload@);
    let ghost branch_v = claude_export_branch(session.raw_vendor_payload@);
    proof {
        reveal_strlit("2.1.47");
        reveal_strlit("main");
        assert(version@ == version_v);
        assert(branch@ == branch_v);
    }
    let mut parent: Option<String> = None;
    let mut out: Vec<JsonValue> = Vec::new();
    let mut i: usize = 0;
    proof {
        assert(docs_of(out@) =~= Seq::<JsonSpec>::empty());
    }
    while i < session.events.len()
        invariant
            version@ == version_v,
            branch@ == branch_v,
            i <= session.events@.len(),
            out@.len() == i,
            docs_of(out@) + claude_lines_from(
                session.events@,
                i as int,
                match parent {
                    Some(p) => Some(p@),
                    None => None,
                },
                session.metadata.project_root@,
                session.source.original_session_id@,
                version_v,
                branch_v,
            ) == claude_lines_from(
                session.events@,
                0,
                None,
                session.metadata.project_root@,
                session.source.original_session_id@,
                version_v,
                branch_v,
            ),
        decreases session.events@.len() - i,
    {
        let event = &session.events[i];
        let base = claude_base_exec(
            &parent,
            session.metadata.project_root.as_str(),
            session.source.original_session_id.as_str(),
            version.as_str(),
            branch.as_str(),
            event.timestamp.millis,
            event.event_uid.as_str(),
        );
        let specific = claude_specific_exec(event);
        let generated = crate::json::merge_value_objects(&base, &specific);
        let line = crate::json::merge_with_raw_unknowns(
            generated,
            Some(&event.raw_vendor_payload),
        );
        proof {
            assert(line@ == claude_full_line(
                crate::model::sketch_of(session.events@[i as int]),
                match parent {
                    Some(p) => Some(p@),
                    None => None,
                },
                session.metadata.project_root@,
                session.source.original_session_id@,
                version_v,
                branch_v,
            ));
        }
        parent = match line.get_str("uuid") {
            Some(u) => Some(u.to_owned()),
            None => None,
        };
        let ghost out_before = out@;
        out.push(line);
        proof {
            assert(docs_of(out@) =~= docs_of(out_before).push(line@));
        }
        i = i + 1;
    }
    proof {
        assert(claude_lines_from(
            session.events@,
            session.events@.len() as int,
            match parent {
                Some(p) => Some(p@),
                None => None,
            },
            session.metadata.project_root@,
            session.source.original_session_id@,
            version_v,
            branch_v,
        ) =~= Seq::<JsonSpec>::empty());
        assert(docs_of(out@) =~= docs_of(out@) + Seq::<JsonSpec>::empty());
    }
    out
}

/// The `version` an export stamps: the first raw line's, else `2.1.47`.
pub open spec fn claude_export_version(raw: JsonSpec) -> Seq<char> {
    match first_raw_string_field(raw, "version"@) {
        Some(v) => v,
        None => "2.1.47"@,
    }
}

/// The `gitBranch` an export stamps: the first raw line's, else `main`.
pub open spec fn claude_export_branch(raw: JsonSpec) -> Seq<char> {
    match first_raw_string_field(raw, "gitBranch"@) {
        Some(v) => v,
        None => "main"@,
    }
}



/// The event's kind and payload pair the way the adapter itself builds
/// them.
pub open spec fn canonical_event_pairing(sk: EventSketch) -> bool {
    ||| (sk.payload matches PayloadSketch::Text { .. } && (sk.kind == EventKind::MessageUser
        || sk.kind == EventKind::MessageAssistant))
    ||| (sk.payload matches PayloadSketch::ToolCall { .. } && sk.kind == EventKind::ToolCall)
    ||| (sk.payload matches PayloadSketch::ToolResult { .. } && sk.kind == EventKind::ToolResult)
    ||| (sk.payload matches PayloadSketch::Json { .. } && sk.kind == EventKind::SystemProgress)
}

/// Import–export round trip, one line at a time: re-importing the line a
/// canonical event exports — whatever raw capture was overlaid onto it —
/// yields exactly one event of the same kind on the requested stream, with
/// the same timestamp (whenever chrono's text for the instant parses back),
/// the same text for messages, and — for tool calls and progress notes —
/// the exported event's own uid, so the calling side of every tool link
/// survives the trip.
#[verifier::rlimit(100)]
#[verifier::spinoff_prover]
pub proof fn lemma_claude_line_round_trip(
    sk: EventSketch,
    parent: Option<Seq<char>>,
    cwd: Seq<char>,
    sid: Seq<char>,
    version: Seq<char>,
    branch: Seq<char>,
    stream: Seq<char>,
    path: Seq<char>,
    line_no: int,
    now: int,
)
    requires
        canonical_event_pairing(sk),
    ensures
        ({
            let line = claude_full_line(sk, parent, cwd, sid, version, branch);
            let evs = claude_line_events(line, stream, path, line_no, now);
            &&& evs.len() == 1
            &&& evs[0].kind == sk.kind
            &&& evs[0].stream_id == stream
            &&& (rfc3339_millis(crate::clock::rfc3339_text_or_empty(sk.timestamp)) == Some(
                sk.timestamp,
            ) ==> evs[0].timestamp == sk.timestamp)
            &&& match sk.payload {
                PayloadSketch::Text { text } => evs[0].payload == (PayloadSketch::Text { text })
                    && (sk.kind == EventKind::MessageUser ==> evs[0].event_uid == sk.event_uid
                    + "-"@ + dec_spec(line_no as nat)),
                PayloadSketch::ToolCall { tool_name, input } => evs[0].event_uid == sk.event_uid
                    && (evs[0].payload matches PayloadSketch::ToolCall { tool_name: tn, .. } && tn
                    == tool_name),
                PayloadSketch::ToolResult { call_id, ok, output_text, error_text } => evs[0].payload
                    is ToolResult,
                PayloadSketch::Json { value } => evs[0].event_uid == sk.event_uid,
            }
        }),
{
    reveal_with_fuel(crate::json::lookup, 14);
    reveal_strlit("parentUuid");
    reveal_strlit("isSidechain");
    reveal_strlit("userType");
    reveal_strlit("cwd");
    reveal_strlit("sessionId");
    reveal_strlit("version");
    reveal_strlit("gitBranch");
    reveal_strlit("timestamp");
    reveal_strlit("uuid");
    reveal_strlit("type");
    reveal_strlit("permissionMode");
    reveal_strlit("message");
    reveal_strlit("data");
    reveal_strlit("role");
    reveal_strlit("content");
    reveal_strlit("user");
    reveal_strlit("assistant");
    reveal_strlit("progress");
    reveal_strlit("system");
    reveal_strlit("text");
    reveal_strlit("tool_use");
    reveal_strlit("tool_result");
    reveal_strlit("id");
    reveal_strlit("tool_use_id");
    reveal_strlit("name");
    reveal_strlit("input");
    reveal_strlit("is_error");
    assert("parentUuid"@.len() == 10);
    assert("isSidechain"@.len() == 11);
    assert("userType"@.len() == 8);
    assert("cwd"@.len() == 3);
    assert("sessionId"@.len() == 9);
    assert("version"@.len() == 7);
    assert("gitBranch"@.len() == 9);
    assert("timestamp"@.len() == 9);
    assert("uuid"@.len() == 4);
    assert("type"@.len() == 4);
    assert("permissionMode"@.len() == 14);
    assert("message"@.len() == 7);
    assert("data"@.len() == 4);
    assert("role"@.len() == 4);
    assert("content"@.len() == 7);
    assert("user"@.len() == 4);
    assert("assistant"@.len() == 9);
    assert("progress"@.len() == 8);
    assert("text"@.len() == 4);
    assert("tool_use"@.len() == 8);
    assert("tool_result"@.len() == 11);
    assert("id"@.len() == 2);
    assert("tool_use_id"@.len() == 11);
    assert("name"@.len() == 4);
    assert("input"@.len() == 5);
    assert("is_error"@.len() == 8);
    assert("sessionId"@[0] == 's' && "gitBranch"@[0] == 'g' && "timestamp"@[0] == 't'
        && "assistant"@[0] == 'a');
    assert("uuid"@[0] == 'u' && "type"@[0] == 't' && "data"@[0] == 'd' && "role"@[0] == 'r'
        && "text"@[0] == 't' && "user"@[0] == 'u' && "name"@[0] == 'n');
    assert("type"@[1] == 'y' && "text"@[1] == 'e' && "user"@[1] == 's' && "uuid"@[1] == 'u');
    assert("userType"@[0] == 'u' && "progress"@[0] == 'p' && "tool_use"@[0] == 't'
        && "is_error"@[0] == 'i');
    assert("tool_use"@[1] == 'o' && "userType"@[1] == 's');
    assert("isSidechain"@[0] == 'i' && "tool_result"@[0] == 't');
    assert("version"@[0] == 'v' && "message"@[0] == 'm' && "content"@[0] == 'c');
    let base = claude_base_line(parent, cwd, sid, version, branch, sk.timestamp, sk.event_uid);
    let specific = claude_specific(sk);
    let gen = crate::json::spec_merge(base, specific);
    let line = claude_full_line(sk, parent, cwd, sid, version, branch);
    crate::json::lemma_overlay_merged_from(gen, Some(sk.raw_vendor_payload));
    assert(crate::json::merged_from(line, gen));
    // the keys the import reads off the generated line: the envelope's from
    // the base, the body's from the kind-specific part
    crate::json::lemma_overlay_field_preservation(base, specific, "type"@);
    crate::json::lemma_overlay_field_preservation(base, specific, "uuid"@);
    crate::json::lemma_overlay_field_preservation(base, specific, "timestamp"@);
    crate::json::lemma_overlay_field_preservation(base, specific, "message"@);
    crate::json::lemma_overlay_field_preservation(base, specific, "data"@);
    assert(!crate::json::has_key(base->Obj_0, "type"@));
    assert(!crate::json::has_key(base->Obj_0, "message"@));
    assert(!crate::json::has_key(base->Obj_0, "data"@));
    assert(crate::json::lookup(base->Obj_0, "uuid"@) == Some(JsonSpec::Str(sk.event_uid)));
    assert(crate::json::lookup(base->Obj_0, "timestamp"@) == Some(
        JsonSpec::Str(crate::clock::rfc3339_text_or_empty(sk.timestamp)),
    ));
    assert(!crate::json::has_key(specific->Obj_0, "uuid"@));
    assert(!crate::json::has_key(specific->Obj_0, "timestamp"@));
    assert(gen is Obj);
    crate::json::lemma_merge_keeps_scalar(line, gen, "type"@);
    crate::json::lemma_merge_keeps_scalar(line, gen, "uuid"@);
    crate::json::lemma_merge_keeps_scalar(line, gen, "timestamp"@);
    assert(spec_get_str(line, "uuid"@) == Some(sk.event_uid));
    assert(entry_uuid(line) == sk.event_uid);
    assert(entry_ts_or(line, now) == (match rfc3339_millis(
        crate::clock::rfc3339_text_or_empty(sk.timestamp),
    ) {
        Some(ms) => ms,
        None => now,
    }));
    let ts = entry_ts_or(line, now);
    match sk.payload {
        PayloadSketch::Json { value } => {
            assert(spec_get_str(line, "type"@) == Some("progress"@));
        },
        PayloadSketch::Text { text } => {
            let user = sk.kind == EventKind::MessageUser;
            assert(spec_get_str(line, "type"@) == Some(
                if user {
                    "user"@
                } else {
                    "assistant"@
                },
            ));
            crate::json::lemma_merge_keeps_entry(line, gen, "message"@);
            let gm = crate::json::lookup(specific->Obj_0, "message"@)->Some_0;
            assert(crate::json::lookup(gen->Obj_0, "message"@) == Some(gm));
            let mm = crate::json::spec_get(line, "message"@)->Some_0;
            assert(crate::json::merged_from(mm, gm));
            crate::json::lemma_merge_keeps_scalar(mm, gm, "role"@);
            if user {
                crate::json::lemma_merge_keeps_scalar(mm, gm, "content"@);
                assert(crate::json::spec_get(mm, "content"@) == Some(JsonSpec::Str(text)));
            } else {
                crate::json::lemma_merge_keeps_entry(mm, gm, "content"@);
                let mc = crate::json::spec_get(mm, "content"@)->Some_0;
                let gc = crate::json::lookup(gm->Obj_0, "content"@)->Some_0;
                assert(gc is Arr && gc->Arr_0.len() == 1);
                crate::json::lemma_merge_keeps_single_array(mc, gc);
                let item = mc->Arr_0[0];
                let gi = gc->Arr_0[0];
                crate::json::lemma_merge_keeps_scalar(item, gi, "type"@);
                crate::json::lemma_merge_keeps_scalar(item, gi, "text"@);
                assert(!crate::json::has_key(gi->Obj_0, "id"@));
                assert(!crate::json::has_key(gi->Obj_0, "tool_use_id"@));
                assert(claude_items_events(
                    line,
                    mm,
                    stream,
                    path,
                    line_no,
                    ts,
                    mc->Arr_0,
                ) =~= claude_item_events(line, mm, stream, path, line_no, ts, item, 0)) by {
                    assert(mc->Arr_0.drop_last() =~= Seq::<JsonSpec>::empty());
                    assert(claude_items_events(
                        line,
                        mm,
                        stream,
                        path,
                        line_no,
                        ts,
                        mc->Arr_0.drop_last(),
                    ) =~= Seq::<EventSketch>::empty());
                    assert(mc->Arr_0.last() == item);
                    assert(mc->Arr_0.len() - 1 == 0);
                }
            }
        },
        PayloadSketch::ToolCall { tool_name, input } => {
            assert(spec_get_str(line, "type"@) == Some("assistant"@));
            crate::json::lemma_merge_keeps_entry(line, gen, "message"@);
            let gm = crate::json::lookup(specific->Obj_0, "message"@)->Some_0;
            let mm = crate::json::spec_get(line, "message"@)->Some_0;
            assert(crate::json::merged_from(mm, gm));
            crate::json::lemma_merge_keeps_scalar(mm, gm, "role"@);
            crate::json::lemma_merge_keeps_entry(mm, gm, "content"@);
            let mc = crate::json::spec_get(mm, "content"@)->Some_0;
            let gc = crate::json::lookup(gm->Obj_0, "content"@)->Some_0;
            assert(gc is Arr && gc->Arr_0.len() == 1);
            crate::json::lemma_merge_keeps_single_array(mc, gc);
            let item = mc->Arr_0[0];
            let gi = gc->Arr_0[0];
            crate::json::lemma_merge_keeps_scalar(item, gi, "type"@);
            crate::json::lemma_merge_keeps_scalar(item, gi, "id"@);
            crate::json::lemma_merge_keeps_scalar(item, gi, "name"@);
            assert(claude_items_events(line, mm, stream, path, line_no, ts, mc->Arr_0)
                =~= claude_item_events(line, mm, stream, path, line_no, ts, item, 0)) by {
                assert(mc->Arr_0.drop_last() =~= Seq::<JsonSpec>::empty());
                assert(claude_items_events(
                    line,
                    mm,
                    stream,
                    path,
                    line_no,
                    ts,
                    mc->Arr_0.drop_last(),
                ) =~= Seq::<EventSketch>::empty());
                assert(mc->Arr_0.last() == item);
                assert(mc->Arr_0.len() - 1 == 0);
            }
        },
        PayloadSketch::ToolResult { call_id, ok, output_text, error_text } => {
            assert(spec_get_str(line, "type"@) == Some("user"@));
            crate::json::lemma_merge_keeps_entry(line, gen, "message"@);
            let gm = crate::json::lookup(specific->Obj_0, "message"@)->Some_0;
            let mm = crate::json::spec_get(line, "message"@)->Some_0;
            assert(crate::json::merged_from(mm, gm));
            crate::json::lemma_merge_keeps_scalar(mm, gm, "role"@);
            crate::json::lemma_merge_keeps_entry(mm, gm, "content"@);
            let mc = crate::json::spec_get(mm, "content"@)->Some_0;
            let gc = crate::json::lookup(gm->Obj_0, "content"@)->Some_0;
            assert(gc is Arr && gc->Arr_0.len() == 1);
            crate::json::lemma_merge_keeps_single_array(mc, gc);
            let item = mc->Arr_0[0];
            let gi = gc->Arr_0[0];
            crate::json::lemma_merge_keeps_scalar(item, gi, "type"@);
            crate::json::lemma_merge_keeps_scalar(item, gi, "tool_use_id"@);
            assert(!crate::json::has_key(gi->Obj_0, "id"@));
            assert(claude_items_events(line, mm, stream, path, line_no, ts, mc->Arr_0)
                =~= claude_item_events(line, mm, stream, path, line_no, ts, item, 0)) by {
                assert(mc->Arr_0.drop_last() =~= Seq::<JsonSpec>::empty());
                assert(claude_items_events(
                    line,
                    mm,
                    stream,
                    path,
                    line_no,
                    ts,
                    mc->Arr_0.drop_last(),
                ) =~= Seq::<EventSketch>::empty());
                assert(mc->Arr_0.last() == item);
                assert(mc->Arr_0.len() - 1 == 0);
            }
        },
    }
}



/// Every event a content array yields carries the file's `source_file`
/// extension.
pub proof fn lemma_items_events_extensions(
    line: JsonSpec,
    m: JsonSpec,
    stream: Seq<char>,
    path: Seq<char>,
    line_no: int,
    ts: int,
    items: Seq<JsonSpec>,
)
    ensures
        forall|k: int|
            0 <= k < claude_items_events(line, m, stream, path, line_no, ts, items).len()
                ==> (#[trigger] claude_items_events(line, m, stream, path, line_no, ts, items)[k]).extensions
                == source_file_ext(path),
    decreases items.len(),
{
    if items.len() > 0 {
        lemma_items_events_extensions(line, m, stream, path, line_no, ts, items.drop_last());
    }
}

/// Every event a file yields carries its `source_file` extension.
pub proof fn lemma_claude_events_extensions(
    docs: Seq<JsonSpec>,
    stream: Seq<char>,
    path: Seq<char>,
    now: int,
)
    ensures
        forall|k: int|
            0 <= k < claude_events(docs, stream, path, now).len() ==> (
            #[trigger] claude_events(docs, stream, path, now)[k]).extensions == source_file_ext(
                path,
            ),
    decreases docs.len(),
{
    if docs.len() > 0 {
        lemma_claude_events_extensions(docs.drop_last(), stream, path, now);
        let line = docs.last();
        let ts = entry_ts_or(line, now);
        match crate::json::spec_get(line, "message"@) {
            Some(m) => match crate::json::spec_get(m, "content"@) {
                Some(JsonSpec::Arr(items)) => {
                    lemma_items_events_extensions(line, m, stream, path, (docs.len() - 1) as int, ts, items);
                },
                _ => {},
            },
            None => {},
        }
    }
}

/// An event whose extensions are a file's `source_file` record carries it.
pub proof fn lemma_source_ext_carries(e: SteadEvent, path: Seq<char>)
    requires
        e.extensions@ == source_file_ext(path),
    ensures
        carries_source_file(e),
{
    assert(crate::json::lookup(source_file_ext(path)->Obj_0, "source_file"@) == Some(
        JsonSpec::Str(path),
    ));
}

/// Every element of the deduplicated list is one of the input's events.
pub proof fn lemma_dedup_identity_elements(s: Seq<SteadEvent>, j: int)
    requires
        0 <= j < dedup_by_identity(s).len(),
    ensures
        exists|i: int| 0 <= i < s.len() && #[trigger] s[i] == dedup_by_identity(s)[j],
    decreases s.len(),
{
    let d = dedup_by_identity(s);
    let rest = dedup_by_identity(s.drop_last());
    let e = s.last();
    let idx = first_index_with_identity(rest, event_identity(e));
    lemma_first_index_with_identity(rest, event_identity(e));
    if idx < rest.len() {
        // replaced in place
        if j == idx {
            assert(s[s.len() - 1] == d[j]);
        } else {
            lemma_dedup_identity_elements(s.drop_last(), j);
            let i = choose|i: int|
                0 <= i < s.drop_last().len() && #[trigger] s.drop_last()[i] == rest[j];
            assert(s[i] == d[j]);
        }
    } else {
        if j == rest.len() {
            assert(s[s.len() - 1] == d[j]);
        } else {
            lemma_dedup_identity_elements(s.drop_last(), j);
            let i = choose|i: int|
                0 <= i < s.drop_last().len() && #[trigger] s.drop_last()[i] == rest[j];
            assert(s[i] == d[j]);
        }
    }
}


} // verus!
