//! The Codex adapter: the JSONL envelope format `{type, timestamp,
//! payload}` with inner `response_item` items, imported into canonical
//! sessions and projected back.  Everything here works on parsed lines;
//! directory walking and file reading stay outside the crate.

use vstd::prelude::*;

use crate::adapter::AdapterError;
use crate::adapter::NativeSessionRef;
use crate::json::JsonValue;
use crate::model::BackendKind;
use crate::model::EventKind;
use crate::model::EventPayload;
use crate::model::SteadEvent;
use crate::model::SteadSession;
use crate::model::Timestamp;

verus! {

use crate::adapter::docs_of;
use crate::adapter::jsonl_docs;
use crate::adapter::jsonl_ok;
use crate::adapter::texts_of;
use crate::clock::rfc3339_millis;
use crate::json::JsonSpec;
use crate::json::spec_get;
use crate::json::spec_get_str;
use crate::jsontext::json_parsed;
use crate::model::EventSketch;
use crate::model::PayloadSketch;
use crate::strutil::dec_spec;
use crate::strutil::file_stem_spec;

/// A Codex session tree, rooted at `base_dir`.
#[derive(Debug, PartialEq, Eq)]
pub struct CodexAdapter {
    pub base_dir: String,
}

impl CodexAdapter {
    pub fn from_base_dir(base_dir: &str) -> (r: CodexAdapter)
        ensures
            r.base_dir@ == base_dir@,
    {
        CodexAdapter { base_dir: base_dir.to_owned() }
    }
}

/// The instant a line carries: its `timestamp` parsed as RFC 3339, the
/// wall clock when missing or unparsable.
pub open spec fn line_ts(line: JsonSpec, now: int) -> int {
    match spec_get_str(line, "timestamp"@) {
        Some(t) => match rfc3339_millis(t) {
            Some(ms) => ms,
            None => now,
        },
        None => now,
    }
}

/// The line's `payload` when it is an object.
pub open spec fn payload_obj(line: JsonSpec) -> Option<JsonSpec> {
    match spec_get(line, "payload"@) {
        Some(p) => if p is Obj {
            Some(p)
        } else {
            None
        },
        None => None,
    }
}

/// The text fragments of a message payload's `content` array: every item
/// with a string `text`, in order.
pub open spec fn item_texts(items: Seq<JsonSpec>) -> Seq<Seq<char>>
    decreases items.len(),
{
    if items.len() == 0 {
        Seq::empty()
    } else {
        let rest = item_texts(items.drop_last());
        match spec_get_str(items.last(), "text"@) {
            Some(t) => rest + seq![t],
            None => rest,
        }
    }
}

pub open spec fn content_texts(p: JsonSpec) -> Seq<Seq<char>> {
    match spec_get(p, "content"@) {
        Some(JsonSpec::Arr(items)) => item_texts(items),
        _ => Seq::empty(),
    }
}

/// The sketch shared by every imported Codex event.
pub open spec fn codex_event_base(
    uid: Seq<char>,
    line: JsonSpec,
    line_no: int,
    ts: int,
    kind: EventKind,
    payload: PayloadSketch,
) -> EventSketch {
    EventSketch {
        event_uid: uid,
        stream_id: "main"@,
        line_number: line_no,
        timestamp: ts,
        kind,
        actor: None,
        payload,
        raw_vendor_payload: line,
        extensions: JsonSpec::Obj(Seq::empty()),
    }
}

/// `event-<line>` / `event-<line>-<k>` identifiers.
pub open spec fn line_uid(line_no: int) -> Seq<char> {
    "event-"@ + dec_spec(line_no as nat)
}

pub open spec fn frag_uid(line_no: int, k: int) -> Seq<char> {
    line_uid(line_no) + "-"@ + dec_spec(k as nat)
}

/// The events of a `message` payload: one text event per fragment.
pub open spec fn message_events(line: JsonSpec, p: JsonSpec, line_no: int, ts: int) -> Seq<
    EventSketch,
> {
    let kind = if spec_get_str(p, "role"@) == Some("assistant"@) {
        EventKind::MessageAssistant
    } else {
        EventKind::MessageUser
    };
    Seq::new(
        content_texts(p).len(),
        |k: int|
            codex_event_base(
                frag_uid(line_no, k),
                line,
                line_no,
                ts,
                kind,
                PayloadSketch::Text { text: content_texts(p)[k] },
            ),
    )
}

/// The tool input of a `function_call`: the decoded `arguments` string, or
/// `{"raw": <arguments>}` when it does not decode.
pub open spec fn call_input(p: JsonSpec) -> JsonSpec {
    let args = match spec_get_str(p, "arguments"@) {
        Some(a) => a,
        None => Seq::empty(),
    };
    match json_parsed(args) {
        Some(v) => v,
        None => JsonSpec::Obj(seq![("raw"@, JsonSpec::Str(args))]),
    }
}

pub open spec fn function_call_event(line: JsonSpec, p: JsonSpec, line_no: int, ts: int) -> EventSketch {
    let uid = match spec_get_str(p, "call_id"@) {
        Some(c) => c,
        None => line_uid(line_no),
    };
    let name = match spec_get_str(p, "name"@) {
        Some(n) => n,
        None => "unknown"@,
    };
    codex_event_base(
        uid,
        line,
        line_no,
        ts,
        EventKind::ToolCall,
        PayloadSketch::ToolCall { tool_name: name, input: call_input(p) },
    )
}

pub open spec fn function_output_event(line: JsonSpec, p: JsonSpec, line_no: int, ts: int) -> EventSketch {
    codex_event_base(
        line_uid(line_no),
        line,
        line_no,
        ts,
        EventKind::ToolResult,
        PayloadSketch::ToolResult {
            call_id: match spec_get_str(p, "call_id"@) {
                Some(c) => c,
                None => Seq::empty(),
            },
            ok: true,
            output_text: spec_get_str(p, "output"@),
            error_text: None,
        },
    )
}

pub open spec fn token_count_event(line: JsonSpec, p: JsonSpec, line_no: int, ts: int) -> EventSketch {
    codex_event_base(
        line_uid(line_no),
        line,
        line_no,
        ts,
        EventKind::SystemProgress,
        PayloadSketch::Json {
            value: JsonSpec::Obj(
                seq![
                    (
                        "token_count"@,
                        match spec_get(p, "info"@) {
                            Some(v) => v,
                            None => JsonSpec::Null,
                        },
                    ),
                ],
            ),
        },
    )
}

/// The canonical events one Codex line yields.
pub open spec fn codex_line_events(line: JsonSpec, line_no: int, now: int) -> Seq<EventSketch> {
    let ts = line_ts(line, now);
    if spec_get_str(line, "type"@) == Some("response_item"@) {
        match payload_obj(line) {
            Some(p) => if spec_get_str(p, "type"@) == Some("message"@) {
                message_events(line, p, line_no, ts)
            } else if spec_get_str(p, "type"@) == Some("function_call"@) {
                seq![function_call_event(line, p, line_no, ts)]
            } else if spec_get_str(p, "type"@) == Some("function_call_output"@) {
                seq![function_output_event(line, p, line_no, ts)]
            } else {
                Seq::empty()
            },
            None => Seq::empty(),
        }
    } else if spec_get_str(line, "type"@) == Some("event_msg"@) {
        match payload_obj(line) {
            Some(p) => if spec_get_str(p, "type"@) == Some("token_count"@) {
                seq![token_count_event(line, p, line_no, ts)]
            } else {
                Seq::empty()
            },
            None => Seq::empty(),
        }
    } else {
        Seq::empty()
    }
}

/// The canonical events of a whole file, line by line.
pub open spec fn codex_events(docs: Seq<JsonSpec>, now: int) -> Seq<EventSketch>
    decreases docs.len(),
{
    if docs.len() == 0 {
        Seq::empty()
    } else {
        codex_events(docs.drop_last(), now) + codex_line_events(
            docs.last(),
            (docs.len() - 1) as int,
            now,
        )
    }
}

/// A line contributes a `session_meta` id when its type is `session_meta`
/// and its payload carries a string `id`.
pub open spec fn meta_id_of_line(line: JsonSpec) -> Option<Seq<char>> {
    if spec_get_str(line, "type"@) == Some("session_meta"@) {
        match payload_obj(line) {
            Some(p) => spec_get_str(p, "id"@),
            None => None,
        }
    } else {
        None
    }
}

pub open spec fn meta_cwd_of_line(line: JsonSpec) -> Option<Seq<char>> {
    if spec_get_str(line, "type"@) == Some("session_meta"@) {
        match payload_obj(line) {
            Some(p) => spec_get_str(p, "cwd"@),
            None => None,
        }
    } else {
        None
    }
}

/// The first `session_meta` id in the file.
pub open spec fn codex_meta_id(docs: Seq<JsonSpec>) -> Option<Seq<char>>
    decreases docs.len(),
{
    if docs.len() == 0 {
        None
    } else {
        match codex_meta_id(docs.drop_last()) {
            Some(id) => Some(id),
            None => meta_id_of_line(docs.last()),
        }
    }
}

/// The last `session_meta` working directory in the file.
pub open spec fn codex_import_root(docs: Seq<JsonSpec>) -> Option<Seq<char>>
    decreases docs.len(),
{
    if docs.len() == 0 {
        None
    } else {
        match meta_cwd_of_line(docs.last()) {
            Some(cwd) => Some(cwd),
            None => codex_import_root(docs.drop_last()),
        }
    }
}

/// The first `session_meta` working directory in the file.
pub open spec fn codex_first_root(docs: Seq<JsonSpec>) -> Option<Seq<char>>
    decreases docs.len(),
{
    if docs.len() == 0 {
        None
    } else {
        match codex_first_root(docs.drop_last()) {
            Some(cwd) => Some(cwd),
            None => meta_cwd_of_line(docs.last()),
        }
    }
}

/// A line's first user message text.
pub open spec fn user_text_of_line(line: JsonSpec) -> Option<Seq<char>> {
    if spec_get_str(line, "type"@) == Some("response_item"@) {
        match payload_obj(line) {
            Some(p) => if spec_get_str(p, "type"@) == Some("message"@) && spec_get_str(p, "role"@)
                == Some("user"@) && content_texts(p).len() > 0 {
                Some(content_texts(p)[0])
            } else {
                None
            },
            None => None,
        }
    } else {
        None
    }
}

/// The first user message text in the file: the default session title.
pub open spec fn codex_title(docs: Seq<JsonSpec>) -> Option<Seq<char>>
    decreases docs.len(),
{
    if docs.len() == 0 {
        None
    } else {
        match codex_title(docs.drop_last()) {
            Some(t) => Some(t),
            None => user_text_of_line(docs.last()),
        }
    }
}

/// The earliest instant any line carries.
pub open spec fn codex_min_ts(docs: Seq<JsonSpec>, now: int) -> Option<int>
    decreases docs.len(),
{
    if docs.len() == 0 {
        None
    } else {
        let last = line_ts(docs.last(), now);
        match codex_min_ts(docs.drop_last(), now) {
            Some(m) => Some(
                if last < m {
                    last
                } else {
                    m
                },
            ),
            None => Some(last),
        }
    }
}

/// The latest instant any line carries.
pub open spec fn codex_max_ts(docs: Seq<JsonSpec>, now: int) -> Option<int>
    decreases docs.len(),
{
    if docs.len() == 0 {
        None
    } else {
        let last = line_ts(docs.last(), now);
        match codex_max_ts(docs.drop_last(), now) {
            Some(m) => Some(
                if last > m {
                    last
                } else {
                    m
                },
            ),
            None => Some(last),
        }
    }
}

/// The native id an import settles on: the first `session_meta` id, else
/// the file's stem, else `unknown`.
pub open spec fn codex_native_id(docs: Seq<JsonSpec>, path: Seq<char>) -> Seq<char> {
    match codex_meta_id(docs) {
        Some(id) => id,
        None => if file_stem_spec(path).len() == 0 {
            "unknown"@
        } else {
            file_stem_spec(path)
        },
    }
}


/// The instant a line carries, the wall-clock fallback supplied.
fn line_ts_exec(line: &JsonValue, now_ms: i64) -> (r: i64)
    ensures
        r as int == line_ts(line@, now_ms as int),
{
    match line.get_str("timestamp") {
        Some(t) => match crate::clock::parse_rfc3339(t) {
            Some(ms) => ms,
            None => now_ms,
        },
        None => now_ms,
    }
}

fn line_uid_exec(line_no: u64) -> (r: String)
    ensures
        r@ == line_uid(line_no as int),
{
    let mut out = String::new();
    out.append("event-");
    let dec = crate::strutil::u64_to_dec(line_no);
    out.append(dec.as_str());
    out
}

fn frag_uid_exec(line_no: u64, k: u64) -> (r: String)
    ensures
        r@ == frag_uid(line_no as int, k as int),
{
    let mut out = line_uid_exec(line_no);
    out.append("-");
    let dec = crate::strutil::u64_to_dec(k);
    out.append(dec.as_str());
    out
}

/// The text fragments of a message payload.
fn content_texts_exec(p: &JsonValue) -> (r: Vec<String>)
    ensures
        texts_of(r@) == content_texts(p@),
{
    let mut out: Vec<String> = Vec::new();
    proof {
        assert(texts_of(out@) =~= Seq::<Seq<char>>::empty());
    }
    match p.get("content") {
        Some(c) => match c {
            JsonValue::Arr(items) => {
                let ghost items_v = c@->Arr_0;
                proof {
                    crate::json::lemma_jspec_seq_pointwise(items@);
                    assert(items_v.take(0) =~= Seq::<JsonSpec>::empty());
                    assert(texts_of(out@) =~= item_texts(items_v.take(0)));
                }
                let mut i: usize = 0;
                while i < items.len()
                    invariant
                        c@ == crate::json::jspec(JsonValue::Arr(*items)),
                        items_v == c@->Arr_0,
                        items_v.len() == items@.len(),
                        forall|j: int|
                            0 <= j < items@.len() ==> #[trigger] items_v[j] == crate::json::jspec(
                                items@[j],
                            ),
                        i <= items@.len(),
                        texts_of(out@) == item_texts(items_v.take(i as int)),
                    decreases items@.len() - i,
                {
                    proof {
                        assert(items_v.take(i + 1).drop_last() =~= items_v.take(i as int));
                        assert(items_v.take(i + 1).last() == items_v[i as int]);
                    }
                    match items[i].get_str("text") {
                        Some(t) => {
                            let ghost before = out@;
                            out.push(t.to_owned());
                            proof {
                                assert(texts_of(out@) =~= texts_of(before).push(t@));
                                assert(item_texts(items_v.take(i + 1)) =~= item_texts(
                                    items_v.take(i as int),
                                ).push(t@));
                            }
                        },
                        None => {
                            proof {
                                assert(item_texts(items_v.take(i + 1)) =~= item_texts(
                                    items_v.take(i as int),
                                ));
                            }
                        },
                    }
                    i = i + 1;
                }
                proof {
                    assert(items_v.take(items_v.len() as int) =~= items_v);
                }
                out
            },
            _ => out,
        },
        None => out,
    }
}

/// Appends the canonical events of one Codex line.
fn append_line_events(line: &JsonValue, line_no: u64, now_ms: i64, events: &mut Vec<SteadEvent>)
    ensures
        crate::model::sketches_of(final(events)@) == crate::model::sketches_of(old(events)@)
            + codex_line_events(line@, line_no as int, now_ms as int),
{
    let ghost start_sketches = crate::model::sketches_of(events@);
    let ghost expected = codex_line_events(line@, line_no as int, now_ms as int);
    proof {
        reveal_strlit("response_item");
        reveal_strlit("event_msg");
        reveal_strlit("message");
        reveal_strlit("function_call");
        reveal_strlit("function_call_output");
        reveal_strlit("token_count");
        reveal_strlit("session_meta");
    }
    let ts = line_ts_exec(line, now_ms);
    let is_response = match line.get_str("type") {
        Some(t) => crate::strutil::str_eq(t, "response_item"),
        None => false,
    };
    let is_event_msg = match line.get_str("type") {
        Some(t) => crate::strutil::str_eq(t, "event_msg"),
        None => false,
    };
    if !is_response && !is_event_msg {
        proof {
            assert(expected =~= Seq::<EventSketch>::empty());
            assert(crate::model::sketches_of(events@) =~= start_sketches + expected);
        }
        return ;
    }
    let payload = match line.get("payload") {
        Some(p) => match p {
            JsonValue::Obj(_) => Some(p),
            _ => None,
        },
        None => None,
    };
    let p = match payload {
        Some(p) => p,
        None => {
            proof {
                assert(expected =~= Seq::<EventSketch>::empty());
                assert(crate::model::sketches_of(events@) =~= start_sketches + expected);
            }
            return ;
        },
    };
    let pt_message = match p.get_str("type") {
        Some(t) => crate::strutil::str_eq(t, "message"),
        None => false,
    };
    let pt_call = match p.get_str("type") {
        Some(t) => crate::strutil::str_eq(t, "function_call"),
        None => false,
    };
    let pt_output = match p.get_str("type") {
        Some(t) => crate::strutil::str_eq(t, "function_call_output"),
        None => false,
    };
    let pt_tokens = match p.get_str("type") {
        Some(t) => crate::strutil::str_eq(t, "token_count"),
        None => false,
    };
    if is_response && pt_message {
        let assistant = match p.get_str("role") {
            Some(r) => crate::strutil::str_eq(r, "assistant"),
            None => false,
        };
        let kind = if assistant {
            EventKind::MessageAssistant
        } else {
            EventKind::MessageUser
        };
        let texts = content_texts_exec(p);
        proof {
            assert(expected =~= message_events(line@, p@, line_no as int, ts as int));
        }
        let mut k: usize = 0;
        while k < texts.len()
            invariant
                texts_of(texts@) == content_texts(p@),
                texts@.len() == content_texts(p@).len(),
                forall|j: int| 0 <= j < texts@.len() ==> #[trigger] texts@[j]@ == content_texts(p@)[j],
                expected == message_events(line@, p@, line_no as int, ts as int),
                kind == (if spec_get_str(p@, "role"@) == Some("assistant"@) {
                    EventKind::MessageAssistant
                } else {
                    EventKind::MessageUser
                }),
                ts as int == line_ts(line@, now_ms as int),
                k <= texts@.len(),
                crate::model::sketches_of(events@) == start_sketches + expected.take(k as int),
            decreases texts@.len() - k,
        {
            let uid = frag_uid_exec(line_no, k as u64);
            let ev = SteadEvent {
                event_uid: uid,
                stream_id: String::from_str("main"),
                line_number: line_no,
                sequence: None,
                timestamp: Timestamp::new(ts),
                kind,
                actor: None,
                payload: EventPayload::Text { text: crate::json::clone_string(&texts[k]) },
                raw_vendor_payload: line.deep_clone(),
                extensions: JsonValue::obj_empty(),
            };
            let ghost before = events@;
            events.push(ev);
            proof {
                assert(crate::model::sketches_of(events@) =~= crate::model::sketches_of(
                    before,
                ).push(crate::model::sketch_of(ev)));
                assert(crate::model::sketch_of(ev) == expected[k as int]);
                assert(start_sketches + expected.take(k + 1) =~= (start_sketches + expected.take(
                    k as int,
                )).push(expected[k as int]));
            }
            k = k + 1;
        }
        proof {
            assert(expected.take(expected.len() as int) =~= expected);
        }
        return ;
    }
    if is_response && pt_call {
        let uid = match p.get_str("call_id") {
            Some(c) => c.to_owned(),
            None => line_uid_exec(line_no),
        };
        let name = match p.get_str("name") {
            Some(n) => n.to_owned(),
            None => String::from_str("unknown"),
        };
        let input = match p.get_str("arguments") {
            Some(a) => match crate::jsontext::parse_json_line(a) {
                Some(v) => v,
                None => raw_fallback(a),
            },
            None => match crate::jsontext::parse_json_line("") {
                Some(v) => v,
                None => raw_fallback(""),
            },
        };
        proof {
            reveal_strlit("");
            reveal_strlit("unknown");
            assert(""@ =~= Seq::<char>::empty());
            assert(input@ == call_input(p@));
        }
        let ev = SteadEvent {
            event_uid: uid,
            stream_id: String::from_str("main"),
            line_number: line_no,
            sequence: None,
            timestamp: Timestamp::new(ts),
            kind: EventKind::ToolCall,
            actor: None,
            payload: EventPayload::ToolCall { tool_name: name, input },
            raw_vendor_payload: line.deep_clone(),
            extensions: JsonValue::obj_empty(),
        };
        let ghost before = events@;
        events.push(ev);
        proof {
            assert(crate::model::sketch_of(ev) == function_call_event(
                line@,
                p@,
                line_no as int,
                ts as int,
            ));
            assert(crate::model::sketches_of(events@) =~= start_sketches + expected);
        }
        return ;
    }
    if is_response && pt_output {
        let call_id = match p.get_str("call_id") {
            Some(c) => c.to_owned(),
            None => String::new(),
        };
        let output_text = match p.get_str("output") {
            Some(o) => Some(o.to_owned()),
            None => None,
        };
        let ev = SteadEvent {
            event_uid: line_uid_exec(line_no),
            stream_id: String::from_str("main"),
            line_number: line_no,
            sequence: None,
            timestamp: Timestamp::new(ts),
            kind: EventKind::ToolResult,
            actor: None,
            payload: EventPayload::ToolResult { call_id, ok: true, output_text, error_text: None },
            raw_vendor_payload: line.deep_clone(),
            extensions: JsonValue::obj_empty(),
        };
        let ghost before = events@;
        events.push(ev);
        proof {
            assert(crate::model::sketch_of(ev) == function_output_event(
                line@,
                p@,
                line_no as int,
                ts as int,
            ));
            assert(crate::model::sketches_of(events@) =~= start_sketches + expected);
        }
        return ;
    }
    if is_event_msg && pt_tokens {
        let info = match p.get("info") {
            Some(v) => v.deep_clone(),
            None => JsonValue::Null,
        };
        let mut value = JsonValue::obj_empty();
        value.set("token_count", info);
        let ev = SteadEvent {
            event_uid: line_uid_exec(line_no),
            stream_id: String::from_str("main"),
            line_number: line_no,
            sequence: None,
            timestamp: Timestamp::new(ts),
            kind: EventKind::SystemProgress,
            actor: None,
            payload: EventPayload::Json { value },
            raw_vendor_payload: line.deep_clone(),
            extensions: JsonValue::obj_empty(),
        };
        let ghost before = events@;
        events.push(ev);
        proof {
            assert(crate::json::set_entry(Seq::empty(), "token_count"@, match spec_get(
                p@,
                "info"@,
            ) {
                Some(v) => v,
                None => JsonSpec::Null,
            }) =~= seq![
                (
                    "token_count"@,
                    match spec_get(p@, "info"@) {
                        Some(v) => v,
                        None => JsonSpec::Null,
                    },
                ),
            ]);
            assert(crate::model::sketch_of(ev) == token_count_event(
                line@,
                p@,
                line_no as int,
                ts as int,
            ));
            assert(crate::model::sketches_of(events@) =~= crate::model::sketches_of(before).push(
                crate::model::sketch_of(ev),
            ));
            reveal_strlit("response_item");
            reveal_strlit("event_msg");
            assert("event_msg"@.len() == 9);
            assert("response_item"@.len() == 13);
            assert(expected == seq![token_count_event(line@, p@, line_no as int, ts as int)]);
            assert(crate::model::sketches_of(events@) =~= start_sketches + expected);
        }
        return ;
    }
    proof {
        reveal_strlit("response_item");
        reveal_strlit("event_msg");
        reveal_strlit("message");
        reveal_strlit("function_call");
        reveal_strlit("function_call_output");
        reveal_strlit("token_count");
        assert(expected =~= Seq::<EventSketch>::empty());
        assert(crate::model::sketches_of(events@) =~= start_sketches + expected);
    }
}

/// The undecodable-arguments fallback: `{"raw": <text>}`.
fn raw_fallback(a: &str) -> (r: JsonValue)
    ensures
        r@ == JsonSpec::Obj(seq![("raw"@, JsonSpec::Str(a@))]),
{
    let mut out = JsonValue::obj_empty();
    out.set("raw", JsonValue::str_of(a));
    proof {
        assert(crate::json::set_entry(Seq::empty(), "raw"@, JsonSpec::Str(a@)) =~= seq![
            ("raw"@, JsonSpec::Str(a@)),
        ]);
    }
    out
}



/// A line's `session_meta` id, when it carries one.
fn meta_id_of_line_exec(line: &JsonValue) -> (r: Option<&str>)
    ensures
        match r {
            Some(x) => meta_id_of_line(line@) == Some(x@),
            None => meta_id_of_line(line@) is None,
        },
{
    proof {
        reveal_strlit("session_meta");
    }
    match line.get_str("type") {
        Some(t) => {
            if !crate::strutil::str_eq(t, "session_meta") {
                return None;
            }
        },
        None => {
            return None;
        },
    }
    match line.get("payload") {
        Some(p) => match p {
            JsonValue::Obj(_) => p.get_str("id"),
            _ => None,
        },
        None => None,
    }
}

fn meta_cwd_of_line_exec(line: &JsonValue) -> (r: Option<&str>)
    ensures
        match r {
            Some(x) => meta_cwd_of_line(line@) == Some(x@),
            None => meta_cwd_of_line(line@) is None,
        },
{
    proof {
        reveal_strlit("session_meta");
    }
    match line.get_str("type") {
        Some(t) => {
            if !crate::strutil::str_eq(t, "session_meta") {
                return None;
            }
        },
        None => {
            return None;
        },
    }
    match line.get("payload") {
        Some(p) => match p {
            JsonValue::Obj(_) => p.get_str("cwd"),
            _ => None,
        },
        None => None,
    }
}

fn user_text_of_line_exec(line: &JsonValue) -> (r: Option<String>)
    ensures
        crate::adapter::opt_str_is(r, user_text_of_line(line@)),
{
    proof {
        reveal_strlit("response_item");
        reveal_strlit("message");
        reveal_strlit("user");
    }
    match line.get_str("type") {
        Some(t) => {
            if !crate::strutil::str_eq(t, "response_item") {
                return None;
            }
        },
        None => {
            return None;
        },
    }
    let p = match line.get("payload") {
        Some(p) => match p {
            JsonValue::Obj(_) => p,
            _ => {
                return None;
            },
        },
        None => {
            return None;
        },
    };
    let is_msg = match p.get_str("type") {
        Some(t) => crate::strutil::str_eq(t, "message"),
        None => false,
    };
    let is_user = match p.get_str("role") {
        Some(t) => crate::strutil::str_eq(t, "user"),
        None => false,
    };
    if !is_msg || !is_user {
        return None;
    }
    let texts = content_texts_exec(p);
    if texts.len() > 0 {
        proof {
            assert(texts@[0]@ == content_texts(p@)[0]);
        }
        Some(crate::json::clone_string(&texts[0]))
    } else {
        None
    }
}

/// Every value the Codex import derives by scanning the lines once.
struct CodexScan {
    meta_id: Option<String>,
    import_root: Option<String>,
    first_root: Option<String>,
    title: Option<String>,
    min_ts: Option<i64>,
    max_ts: Option<i64>,
}

/// One pass over the parsed lines, collecting ids, roots, title and the
/// timestamp window.
fn scan_codex_lines(docs: &Vec<JsonValue>, now_ms: i64) -> (r: CodexScan)
    ensures
        crate::adapter::opt_str_is(r.meta_id, codex_meta_id(docs_of(docs@))),
        crate::adapter::opt_str_is(r.import_root, codex_import_root(docs_of(docs@))),
        crate::adapter::opt_str_is(r.first_root, codex_first_root(docs_of(docs@))),
        crate::adapter::opt_str_is(r.title, codex_title(docs_of(docs@))),
        match r.min_ts {
            Some(v) => codex_min_ts(docs_of(docs@), now_ms as int) == Some(v as int),
            None => codex_min_ts(docs_of(docs@), now_ms as int) is None,
        },
        match r.max_ts {
            Some(v) => codex_max_ts(docs_of(docs@), now_ms as int) == Some(v as int),
            None => codex_max_ts(docs_of(docs@), now_ms as int) is None,
        },
{
    let ghost dv = docs_of(docs@);
    let mut out = CodexScan {
        meta_id: None,
        import_root: None,
        first_root: None,
        title: None,
        min_ts: None,
        max_ts: None,
    };
    let mut i: usize = 0;
    proof {
        assert(dv.take(0) =~= Seq::<JsonSpec>::empty());
    }
    while i < docs.len()
        invariant
            dv == docs_of(docs@),
            dv.len() == docs@.len(),
            forall|j: int| 0 <= j < docs@.len() ==> #[trigger] dv[j] == docs@[j]@,
            i <= docs@.len(),
            crate::adapter::opt_str_is(out.meta_id, codex_meta_id(dv.take(i as int))),
            crate::adapter::opt_str_is(out.import_root, codex_import_root(dv.take(i as int))),
            crate::adapter::opt_str_is(out.first_root, codex_first_root(dv.take(i as int))),
            crate::adapter::opt_str_is(out.title, codex_title(dv.take(i as int))),
            match out.min_ts {
                Some(v) => codex_min_ts(dv.take(i as int), now_ms as int) == Some(v as int),
                None => codex_min_ts(dv.take(i as int), now_ms as int) is None,
            },
            match out.max_ts {
                Some(v) => codex_max_ts(dv.take(i as int), now_ms as int) == Some(v as int),
                None => codex_max_ts(dv.take(i as int), now_ms as int) is None,
            },
        decreases docs@.len() - i,
    {
        proof {
            assert(dv.take(i + 1).drop_last() =~= dv.take(i as int));
            assert(dv.take(i + 1).last() == dv[i as int]);
        }
        let line = &docs[i];
        if out.meta_id.is_none() {
            match meta_id_of_line_exec(line) {
                Some(id) => {
                    out.meta_id = Some(id.to_owned());
                },
                None => {},
            }
        }
        match meta_cwd_of_line_exec(line) {
            Some(cwd) => {
                out.import_root = Some(cwd.to_owned());
            },
            None => {},
        }
        if out.first_root.is_none() {
            match meta_cwd_of_line_exec(line) {
                Some(cwd) => {
                    out.first_root = Some(cwd.to_owned());
                },
                None => {},
            }
        }
        if out.title.is_none() {
            match user_text_of_line_exec(line) {
                Some(t) => {
                    out.title = Some(t);
                },
                None => {},
            }
        }
        let ts = line_ts_exec(line, now_ms);
        out.min_ts = match out.min_ts {
            Some(m) => if ts < m {
                Some(ts)
            } else {
                Some(m)
            },
            None => Some(ts),
        };
        out.max_ts = match out.max_ts {
            Some(m) => if ts > m {
                Some(ts)
            } else {
                Some(m)
            },
            None => Some(ts),
        };
        i = i + 1;
    }
    proof {
        assert(dv.take(docs@.len() as int) =~= dv);
    }
    out
}



/// Everything a Codex import promises of its result, for parsed lines
/// `docs`, source path `path` and wall clock `now`.
pub open spec fn codex_import_ok(
    docs: Seq<JsonSpec>,
    path: Seq<char>,
    now: int,
    s: SteadSession,
) -> bool {
    &&& s.schema_version@ == crate::model::SCHEMA_VERSION@
    &&& s.source.backend == BackendKind::Codex
    &&& s.source.original_session_id@ == codex_native_id(docs, path)
    &&& s.session_uid@ == crate::model::session_uid_spec(
        BackendKind::Codex,
        codex_native_id(docs, path),
    )
    &&& s.shared_session_uid is None
    &&& s.source.source_files@.len() == 1 && s.source.source_files@[0]@ == path
    &&& crate::adapter::opt_str_is(s.metadata.title, codex_title(docs))
    &&& s.metadata.project_root@ == (match codex_import_root(docs) {
        Some(r) => r,
        None => "/unknown"@,
    })
    &&& s.metadata.created_at.millis as int == (match codex_min_ts(docs, now) {
        Some(v) => v,
        None => now,
    })
    &&& s.metadata.updated_at.millis as int == (match codex_max_ts(docs, now) {
        Some(v) => v,
        None => now,
    })
    &&& s.metadata.tags@.len() == 0
    &&& crate::model::events_sorted(s.events@)
    &&& s.sequences_dense()
    &&& crate::model::event_content_multiset(s.events@) == codex_events(docs, now).to_multiset()
    &&& s.artifacts@.len() == 0
    &&& s.capabilities@ == JsonSpec::Obj(Seq::<(Seq<char>, JsonSpec)>::empty())
    &&& s.extensions@ == JsonSpec::Obj(Seq::<(Seq<char>, JsonSpec)>::empty())
    &&& s.lineage is None
    &&& s.raw_vendor_payload@ == JsonSpec::Obj(seq![("lines"@, JsonSpec::Arr(docs))])
}

impl CodexAdapter {
    /// Imports one rollout file, given its text lines.  Fails only when a
    /// non-blank line is not JSON.
    pub fn import_from_lines(&self, path: &str, lines: &Vec<String>) -> (r: Result<
        SteadSession,
        AdapterError,
    >)
        ensures
            match r {
                Ok(s) => jsonl_ok(texts_of(lines@)) && exists|now: int|
                    codex_import_ok(jsonl_docs(texts_of(lines@)), path@, now, s),
                Err(e) => !jsonl_ok(texts_of(lines@)) && e is Json,
            },
    {
        let docs = match crate::adapter::parse_jsonl(lines) {
            Ok(d) => d,
            Err(e) => {
                return Err(e);
            },
        };
        let ghost dv = docs_of(docs@);
        let now_ms = crate::clock::now_millis();
        let scan = scan_codex_lines(&docs, now_ms);
        let mut events: Vec<SteadEvent> = Vec::new();
        let mut i: usize = 0;
        proof {
            assert(dv.take(0) =~= Seq::<JsonSpec>::empty());
            assert(crate::model::sketches_of(events@) =~= codex_events(
                dv.take(0),
                now_ms as int,
            ));
        }
        while i < docs.len()
            invariant
                dv == docs_of(docs@),
                dv.len() == docs@.len(),
                forall|j: int| 0 <= j < docs@.len() ==> #[trigger] dv[j] == docs@[j]@,
                i <= docs@.len(),
                crate::model::sketches_of(events@) == codex_events(
                    dv.take(i as int),
                    now_ms as int,
                ),
            decreases docs@.len() - i,
        {
            proof {
                assert(dv.take(i + 1).drop_last() =~= dv.take(i as int));
                assert(dv.take(i + 1).last() == dv[i as int]);
            }
            append_line_events(&docs[i], i as u64, now_ms, &mut events);
            i = i + 1;
        }
        proof {
            assert(dv.take(docs@.len() as int) =~= dv);
        }
        crate::model::canonical_sort_events(&mut events);
        let native_id: String = match scan.meta_id {
            Some(id) => id,
            None => {
                let stem = crate::strutil::file_stem_of(path);
                if stem.as_str().unicode_len() == 0 {
                    proof {
                        reveal_strlit("unknown");
                    }
                    String::from_str("unknown")
                } else {
                    stem
                }
            },
        };
        let session_uid = crate::model::build_session_uid(BackendKind::Codex, native_id.as_str());
        let project_root: String = match scan.import_root {
            Some(r) => r,
            None => String::from_str("/unknown"),
        };
        let created = Timestamp::new(
            match scan.min_ts {
                Some(v) => v,
                None => now_ms,
            },
        );
        let updated = Timestamp::new(
            match scan.max_ts {
                Some(v) => v,
                None => now_ms,
            },
        );
        let mut raw_entries: Vec<(String, JsonValue)> = Vec::new();
        let ghost docs_snapshot = docs@;
        raw_entries.push((String::from_str("lines"), JsonValue::Arr(docs)));
        let raw = JsonValue::Obj(raw_entries);
        proof {
            crate::json::lemma_jspec_seq_pointwise(docs_snapshot);
            assert(crate::json::jspec_seq(docs_snapshot) =~= dv);
            crate::json::lemma_jspec_entries_pointwise(raw_entries@);
            assert(crate::json::jspec_entries(raw_entries@) =~= seq![
                ("lines"@, JsonSpec::Arr(dv)),
            ]);
        }
        let mut source_files: Vec<String> = Vec::new();
        source_files.push(path.to_owned());
        let source = crate::model::SessionSource::new(
            BackendKind::Codex,
            native_id.as_str(),
            source_files,
        );
        let metadata = crate::model::SessionMetadata::new(
            scan.title,
            project_root,
            created,
            updated,
        );
        let session = SteadSession {
            schema_version: crate::model::schema_version().to_owned(),
            session_uid,
            shared_session_uid: None,
            source,
            metadata,
            events,
            artifacts: Vec::new(),
            capabilities: JsonValue::obj_empty(),
            extensions: JsonValue::obj_empty(),
            lineage: None,
            raw_vendor_payload: raw,
        };
        proof {
            reveal_strlit("/unknown");
            assert(codex_import_ok(dv, path@, now_ms as int, session));
        }
        Ok(session)
    }

    /// The discovery summary of one rollout file, given its text lines.
    pub fn summary_from_lines(&self, path: &str, lines: &Vec<String>) -> (r: Result<
        NativeSessionRef,
        AdapterError,
    >)
        ensures
            match r {
                Ok(n) => jsonl_ok(texts_of(lines@)) && exists|now: int|
                    codex_summary_ok(jsonl_docs(texts_of(lines@)), path@, now, n),
                Err(e) => !jsonl_ok(texts_of(lines@)) && e is Json,
            },
    {
        let docs = match crate::adapter::parse_jsonl(lines) {
            Ok(d) => d,
            Err(e) => {
                return Err(e);
            },
        };
        let ghost dv = docs_of(docs@);
        let now_ms = crate::clock::now_millis();
        let scan = scan_codex_lines(&docs, now_ms);
        let native_id: String = match scan.meta_id {
            Some(id) => id,
            None => {
                let stem = crate::strutil::file_stem_of(path);
                if stem.as_str().unicode_len() == 0 {
                    proof {
                        reveal_strlit("unknown");
                    }
                    String::from_str("unknown")
                } else {
                    stem
                }
            },
        };
        let summary = NativeSessionRef {
            native_id,
            file_path: path.to_owned(),
            updated_at: Timestamp::new(
                match scan.max_ts {
                    Some(v) => v,
                    None => now_ms,
                },
            ),
            project_root: scan.first_root,
            title: scan.title,
        };
        proof {
            assert(codex_summary_ok(dv, path@, now_ms as int, summary));
        }
        Ok(summary)
    }
}

/// Everything a Codex discovery summary promises.
pub open spec fn codex_summary_ok(
    docs: Seq<JsonSpec>,
    path: Seq<char>,
    now: int,
    n: NativeSessionRef,
) -> bool {
    &&& n.native_id@ == codex_native_id(docs, path)
    &&& n.file_path@ == path
    &&& n.updated_at.millis as int == (match codex_max_ts(docs, now) {
        Some(v) => v,
        None => now,
    })
    &&& crate::adapter::opt_str_is(n.project_root, codex_first_root(docs))
    &&& crate::adapter::opt_str_is(n.title, codex_title(docs))
}



/// The name an event kind prints as in passthrough envelopes.
pub open spec fn kind_name_spec(k: EventKind) -> Seq<char> {
    match k {
        EventKind::MessageUser => "MessageUser"@,
        EventKind::MessageAssistant => "MessageAssistant"@,
        EventKind::ToolCall => "ToolCall"@,
        EventKind::ToolResult => "ToolResult"@,
        EventKind::SystemProgress => "SystemProgress"@,
        EventKind::SystemNote => "SystemNote"@,
        EventKind::SessionMarker => "SessionMarker"@,
        EventKind::ArtifactRef => "ArtifactRef"@,
    }
}

/// The name an event kind prints as.
pub fn kind_name(k: EventKind) -> (r: &'static str)
    ensures
        r@ == kind_name_spec(k),
{
    match k {
        EventKind::MessageUser => "MessageUser",
        EventKind::MessageAssistant => "MessageAssistant",
        EventKind::ToolCall => "ToolCall",
        EventKind::ToolResult => "ToolResult",
        EventKind::SystemProgress => "SystemProgress",
        EventKind::SystemNote => "SystemNote",
        EventKind::SessionMarker => "SessionMarker",
        EventKind::ArtifactRef => "ArtifactRef",
    }
}

/// An object from its entry list.
fn obj_of(entries: Vec<(String, JsonValue)>) -> (r: JsonValue)
    ensures
        r@ == JsonSpec::Obj(crate::json::jspec_entries(entries@)),
{
    JsonValue::Obj(entries)
}

/// The generated `session_meta` header of an export.
pub open spec fn codex_meta_line(id: Seq<char>, cwd: Seq<char>, created: int) -> JsonSpec {
    JsonSpec::Obj(
        seq![
            ("timestamp"@, JsonSpec::Str(crate::clock::rfc3339_text_or_empty(created))),
            ("type"@, JsonSpec::Str("session_meta"@)),
            (
                "payload"@,
                JsonSpec::Obj(
                    seq![
                        ("id"@, JsonSpec::Str(id)),
                        ("cwd"@, JsonSpec::Str(cwd)),
                        ("model_provider"@, JsonSpec::Str("unknown"@)),
                    ],
                ),
            ),
        ],
    )
}

/// The payload of an exported message event.
pub open spec fn message_payload(user: bool, text: Seq<char>) -> JsonSpec {
    JsonSpec::Obj(
        seq![
            ("type"@, JsonSpec::Str("message"@)),
            (
                "role"@,
                JsonSpec::Str(
                    if user {
                        "user"@
                    } else {
                        "assistant"@
                    },
                ),
            ),
            (
                "content"@,
                JsonSpec::Arr(
                    seq![
                        JsonSpec::Obj(
                            seq![
                                (
                                    "type"@,
                                    JsonSpec::Str(
                                        if user {
                                            "input_text"@
                                        } else {
                                            "output_text"@
                                        },
                                    ),
                                ),
                                ("text"@, JsonSpec::Str(text)),
                            ],
                        ),
                    ],
                ),
            ),
        ],
    )
}

/// The payload of an exported tool call.
pub open spec fn call_payload(name: Seq<char>, uid: Seq<char>, input: JsonSpec) -> JsonSpec {
    JsonSpec::Obj(
        seq![
            ("type"@, JsonSpec::Str("function_call"@)),
            ("name"@, JsonSpec::Str(name)),
            ("call_id"@, JsonSpec::Str(uid)),
            ("arguments"@, JsonSpec::Str(crate::jsontext::json_compact(input))),
        ],
    )
}

/// The payload of an exported tool result.
pub open spec fn output_payload(call_id: Seq<char>, output_text: Option<Seq<char>>) -> JsonSpec {
    JsonSpec::Obj(
        seq![
            ("type"@, JsonSpec::Str("function_call_output"@)),
            ("call_id"@, JsonSpec::Str(call_id)),
            (
                "output"@,
                JsonSpec::Str(
                    match output_text {
                        Some(t) => t,
                        None => Seq::empty(),
                    },
                ),
            ),
        ],
    )
}

/// The payload of an exported progress event.
pub open spec fn tokens_payload(value: JsonSpec) -> JsonSpec {
    JsonSpec::Obj(
        seq![
            ("type"@, JsonSpec::Str("token_count"@)),
            (
                "info"@,
                match spec_get(value, "token_count"@) {
                    Some(v) => v,
                    None => JsonSpec::Null,
                },
            ),
        ],
    )
}

/// The payload a canonical event exports as.
pub open spec fn codex_event_payload(e: EventSketch) -> JsonSpec {
    match e.payload {
        PayloadSketch::Text { text } => if e.kind == EventKind::MessageUser {
            message_payload(true, text)
        } else if e.kind == EventKind::MessageAssistant {
            message_payload(false, text)
        } else {
            passthrough_payload(e.kind)
        },
        PayloadSketch::ToolCall { tool_name, input } => if e.kind == EventKind::ToolCall {
            call_payload(tool_name, e.event_uid, input)
        } else {
            passthrough_payload(e.kind)
        },
        PayloadSketch::ToolResult { call_id, ok, output_text, error_text } => if e.kind
            == EventKind::ToolResult {
            output_payload(call_id, output_text)
        } else {
            passthrough_payload(e.kind)
        },
        PayloadSketch::Json { value } => if e.kind == EventKind::SystemProgress {
            tokens_payload(value)
        } else {
            passthrough_payload(e.kind)
        },
    }
}

/// The generated envelope of one canonical event, before the overlay.
pub open spec fn codex_event_line(e: EventSketch) -> JsonSpec {
    JsonSpec::Obj(
        seq![
            ("timestamp"@, JsonSpec::Str(crate::clock::rfc3339_text_or_empty(e.timestamp))),
            (
                "type"@,
                JsonSpec::Str(
                    if is_response_payload(e) {
                        "response_item"@
                    } else {
                        "event_msg"@
                    },
                ),
            ),
            ("payload"@, codex_event_payload(e)),
        ],
    )
}

/// Whether the generated envelope is a `response_item` (else `event_msg`).
pub open spec fn is_response_payload(e: EventSketch) -> bool {
    ||| e.payload matches PayloadSketch::Text { .. } && (e.kind == EventKind::MessageUser
        || e.kind == EventKind::MessageAssistant)
    ||| e.payload matches PayloadSketch::ToolCall { .. } && e.kind == EventKind::ToolCall
    ||| e.payload matches PayloadSketch::ToolResult { .. } && e.kind == EventKind::ToolResult
}

pub open spec fn passthrough_payload(k: EventKind) -> JsonSpec {
    JsonSpec::Obj(
        seq![
            ("type"@, JsonSpec::Str("adapter_passthrough"@)),
            ("event_kind"@, JsonSpec::Str(kind_name_spec(k))),
        ],
    )
}



/// The first stored raw line whose `type` is `session_meta`, used to
/// restore unknown header fields on export.
pub open spec fn first_meta_in(items: Seq<JsonSpec>) -> Option<JsonSpec>
    decreases items.len(),
{
    if items.len() == 0 {
        None
    } else {
        match first_meta_in(items.drop_last()) {
            Some(v) => Some(v),
            None => if spec_get_str(items.last(), "type"@) == Some("session_meta"@) {
                Some(items.last())
            } else {
                None
            },
        }
    }
}

pub open spec fn first_meta_raw(raw: JsonSpec) -> Option<JsonSpec> {
    match spec_get(raw, "lines"@) {
        Some(JsonSpec::Arr(items)) => first_meta_in(items),
        _ => None,
    }
}

fn find_first_meta<'a>(raw: &'a JsonValue) -> (r: Option<&'a JsonValue>)
    ensures
        match r {
            Some(v) => first_meta_raw(raw@) == Some(v@),
            None => first_meta_raw(raw@) is None,
        },
{
    proof {
        reveal_strlit("session_meta");
    }
    let items = match raw.get("lines") {
        Some(c) => match c {
            JsonValue::Arr(items) => items,
            _ => {
                return None;
            },
        },
        None => {
            return None;
        },
    };
    let ghost items_v = crate::json::jspec_seq(items@);
    proof {
        crate::json::lemma_jspec_seq_pointwise(items@);
        assert(spec_get(raw@, "lines"@) == Some(JsonSpec::Arr(items_v)));
        assert(items_v.take(0) =~= Seq::<JsonSpec>::empty());
    }
    let mut i: usize = 0;
    while i < items.len()
        invariant
            items_v == crate::json::jspec_seq(items@),
            items_v.len() == items@.len(),
            forall|j: int| 0 <= j < items@.len() ==> #[trigger] items_v[j] == items@[j]@,
            i <= items@.len(),
            first_meta_in(items_v.take(i as int)) is None,
            first_meta_raw(raw@) == (if first_meta_in(items_v) is Some {
                first_meta_in(items_v)
            } else {
                None
            }),
        decreases items@.len() - i,
    {
        proof {
            assert(items_v.take(i + 1).drop_last() =~= items_v.take(i as int));
            assert(items_v.take(i + 1).last() == items_v[i as int]);
        }
        let is_meta = match items[i].get_str("type") {
            Some(t) => crate::strutil::str_eq(t, "session_meta"),
            None => false,
        };
        if is_meta {
            proof {
                lemma_first_meta_extends(items_v, i as int);
            }
            return Some(&items[i]);
        }
        i = i + 1;
    }
    proof {
        assert(items_v.take(items_v.len() as int) =~= items_v);
    }
    None
}

/// When the prefix before `i` holds no `session_meta` and item `i` is one,
/// it is the first in the whole list.
proof fn lemma_first_meta_extends(items: Seq<JsonSpec>, i: int)
    requires
        0 <= i < items.len(),
        first_meta_in(items.take(i)) is None,
        spec_get_str(items[i], "type"@) == Some("session_meta"@),
    ensures
        first_meta_in(items) == Some(items[i]),
    decreases items.len(),
{
    if items.len() - 1 > i {
        assert(items.drop_last().take(i) =~= items.take(i));
        assert(items.drop_last()[i] == items[i]);
        lemma_first_meta_extends(items.drop_last(), i);
    } else {
        assert(items.drop_last() =~= items.take(i));
    }
}

fn message_payload_exec(user: bool, text: &str) -> (r: JsonValue)
    ensures
        r@ == message_payload(user, text@),
{
    let mut item: Vec<(String, JsonValue)> = Vec::new();
    item.push(
        (
            String::from_str("type"),
            JsonValue::str_of(
                if user {
                    "input_text"
                } else {
                    "output_text"
                },
            ),
        ),
    );
    item.push((String::from_str("text"), JsonValue::str_of(text)));
    let ghost item_snap = item@;
    let mut content: Vec<JsonValue> = Vec::new();
    content.push(obj_of(item));
    let ghost content_snap = content@;
    let mut entries: Vec<(String, JsonValue)> = Vec::new();
    entries.push((String::from_str("type"), JsonValue::str_of("message")));
    entries.push(
        (
            String::from_str("role"),
            JsonValue::str_of(
                if user {
                    "user"
                } else {
                    "assistant"
                },
            ),
        ),
    );
    entries.push((String::from_str("content"), JsonValue::Arr(content)));
    let r = obj_of(entries);
    proof {
        crate::json::lemma_jspec_entries_pointwise(item_snap);
        crate::json::lemma_jspec_seq_pointwise(content_snap);
        crate::json::lemma_jspec_entries_pointwise(entries@);
        let target = message_payload(user, text@);
        let es = crate::json::jspec_entries(entries@);
        assert(crate::json::jspec_entries(item_snap) =~= target->Obj_0[2].1->Arr_0[0]->Obj_0);
        assert(crate::json::jspec_seq(content_snap) =~= seq![
            JsonSpec::Obj(crate::json::jspec_entries(item_snap)),
        ]);
        assert(es[0] == target->Obj_0[0]);
        assert(es[1] == target->Obj_0[1]);
        assert(es[2].0 == target->Obj_0[2].0);
        assert(es[2].1 =~~= target->Obj_0[2].1);
        assert(es =~~= target->Obj_0);
        assert(r@ =~~= target);
    }
    r
}

fn call_payload_exec(name: &str, uid: &str, input: &JsonValue) -> (r: JsonValue)
    ensures
        r@ == call_payload(name@, uid@, input@),
{
    let args = crate::jsontext::json_line_text(input);
    let mut entries: Vec<(String, JsonValue)> = Vec::new();
    entries.push((String::from_str("type"), JsonValue::str_of("function_call")));
    entries.push((String::from_str("name"), JsonValue::str_of(name)));
    entries.push((String::from_str("call_id"), JsonValue::str_of(uid)));
    entries.push((String::from_str("arguments"), JsonValue::Str(args)));
    let r = obj_of(entries);
    proof {
        crate::json::lemma_jspec_entries_pointwise(entries@);
        let target = call_payload(name@, uid@, input@);
        let es = crate::json::jspec_entries(entries@);
        assert(es[0] == target->Obj_0[0]);
        assert(es[1] == target->Obj_0[1]);
        assert(es[2] == target->Obj_0[2]);
        assert(es[3] == target->Obj_0[3]);
        assert(es =~~= target->Obj_0);
        assert(r@ =~~= target);
    }
    r
}

fn output_payload_exec(call_id: &str, output_text: &Option<String>) -> (r: JsonValue)
    ensures
        r@ == output_payload(call_id@, match output_text {
            Some(t) => Some(t@),
            None => None,
        }),
{
    let mut entries: Vec<(String, JsonValue)> = Vec::new();
    entries.push((String::from_str("type"), JsonValue::str_of("function_call_output")));
    entries.push((String::from_str("call_id"), JsonValue::str_of(call_id)));
    let out_val = match output_text {
        Some(t) => JsonValue::str_of(t.as_str()),
        None => {
            proof {
                reveal_strlit("");
                assert(""@ =~= Seq::<char>::empty());
            }
            JsonValue::str_of("")
        },
    };
    entries.push((String::from_str("output"), out_val));
    let r = obj_of(entries);
    proof {
        crate::json::lemma_jspec_entries_pointwise(entries@);
        let target = output_payload(call_id@, match output_text {
            Some(t) => Some(t@),
            None => None,
        });
        let es = crate::json::jspec_entries(entries@);
        assert(es[0] == target->Obj_0[0]);
        assert(es[1] == target->Obj_0[1]);
        assert(es[2] == target->Obj_0[2]);
        assert(es =~~= target->Obj_0);
        assert(r@ =~~= target);
    }
    r
}

fn tokens_payload_exec(value: &JsonValue) -> (r: JsonValue)
    ensures
        r@ == tokens_payload(value@),
{
    let info = match value.get("token_count") {
        Some(v) => v.deep_clone(),
        None => JsonValue::Null,
    };
    let mut entries: Vec<(String, JsonValue)> = Vec::new();
    entries.push((String::from_str("type"), JsonValue::str_of("token_count")));
    entries.push((String::from_str("info"), info));
    let r = obj_of(entries);
    proof {
        crate::json::lemma_jspec_entries_pointwise(entries@);
        let target = tokens_payload(value@);
        let es = crate::json::jspec_entries(entries@);
        assert(es[0] == target->Obj_0[0]);
        assert(es[1] == target->Obj_0[1]);
        assert(es =~~= target->Obj_0);
        assert(r@ =~~= target);
    }
    r
}

/// Builds the generated envelope of one canonical event.
pub fn event_to_codex_line(event: &SteadEvent) -> (r: JsonValue)
    ensures
        r@ == codex_event_line(crate::model::sketch_of(*event)),
{
    let ghost sk = crate::model::sketch_of(*event);
    let ts_text = crate::clock::format_rfc3339(event.timestamp.millis);
    let mut is_response = false;
    let payload: JsonValue = match &event.payload {
        EventPayload::Text { text } => {
            if matches!(event.kind, EventKind::MessageUser) {
                is_response = true;
                message_payload_exec(true, text.as_str())
            } else if matches!(event.kind, EventKind::MessageAssistant) {
                is_response = true;
                message_payload_exec(false, text.as_str())
            } else {
                passthrough_payload_exec(event.kind)
            }
        },
        EventPayload::ToolCall { tool_name, input } => {
            if matches!(event.kind, EventKind::ToolCall) {
                is_response = true;
                call_payload_exec(tool_name.as_str(), event.event_uid.as_str(), input)
            } else {
                passthrough_payload_exec(event.kind)
            }
        },
        EventPayload::ToolResult { call_id, ok, output_text, error_text } => {
            if matches!(event.kind, EventKind::ToolResult) {
                is_response = true;
                output_payload_exec(call_id.as_str(), output_text)
            } else {
                passthrough_payload_exec(event.kind)
            }
        },
        EventPayload::Json { value } => {
            if matches!(event.kind, EventKind::SystemProgress) {
                tokens_payload_exec(value)
            } else {
                passthrough_payload_exec(event.kind)
            }
        },
    };
    proof {
        assert(payload@ == codex_event_payload(sk));
        assert(is_response == is_response_payload(sk));
    }
    let mut outer: Vec<(String, JsonValue)> = Vec::new();
    outer.push((String::from_str("timestamp"), JsonValue::Str(ts_text)));
    outer.push(
        (
            String::from_str("type"),
            JsonValue::str_of(
                if is_response {
                    "response_item"
                } else {
                    "event_msg"
                },
            ),
        ),
    );
    outer.push((String::from_str("payload"), payload));
    let r = obj_of(outer);
    proof {
        crate::json::lemma_jspec_entries_pointwise(outer@);
        let target = codex_event_line(sk);
        let es = crate::json::jspec_entries(outer@);
        assert(es[0] == target->Obj_0[0]);
        assert(es[1] == target->Obj_0[1]);
        assert(es[2] == target->Obj_0[2]);
        assert(es =~~= target->Obj_0);
        assert(r@ =~~= target);
    }
    r
}

fn passthrough_payload_exec(k: EventKind) -> (r: JsonValue)
    ensures
        r@ == passthrough_payload(k),
{
    let mut entries: Vec<(String, JsonValue)> = Vec::new();
    entries.push((String::from_str("type"), JsonValue::str_of("adapter_passthrough")));
    entries.push((String::from_str("event_kind"), JsonValue::str_of(kind_name(k))));
    let r = obj_of(entries);
    proof {
        crate::json::lemma_jspec_entries_pointwise(entries@);
        let target = passthrough_payload(k);
        let es = crate::json::jspec_entries(entries@);
        assert(es[0] == target->Obj_0[0]);
        assert(es[1] == target->Obj_0[1]);
        assert(es =~~= target->Obj_0);
        assert(r@ =~~= target);
    }
    r
}

/// Projects a canonical session into Codex envelope lines: the generated
/// `session_meta` header (overlaid with the first stored `session_meta`
/// capture, so unknown header fields survive), then one line per event,
/// each overlaid with its stored raw envelope.
pub fn export_codex_lines(session: &SteadSession) -> (r: Vec<JsonValue>)
    ensures
        r@.len() == session.events@.len() + 1,
        r@[0]@ == crate::json::spec_overlay(
            codex_meta_line(
                session.source.original_session_id@,
                session.metadata.project_root@,
                session.metadata.created_at.millis as int,
            ),
            first_meta_raw(session.raw_vendor_payload@),
        ),
        forall|i: int|
            0 <= i < session.events@.len() ==> #[trigger] r@[i + 1]@ == crate::json::spec_overlay(
                codex_event_line(crate::model::sketch_of(session.events@[i])),
                Some(session.events@[i].raw_vendor_payload@),
            ),
{
    let ts_text = crate::clock::format_rfc3339(session.metadata.created_at.millis);
    let mut payload: Vec<(String, JsonValue)> = Vec::new();
    payload.push(
        (String::from_str("id"), JsonValue::str_of(session.source.original_session_id.as_str())),
    );
    payload.push(
        (String::from_str("cwd"), JsonValue::str_of(session.metadata.project_root.as_str())),
    );
    payload.push((String::from_str("model_provider"), JsonValue::str_of("unknown")));
    let ghost payload_snap = payload@;
    let mut header: Vec<(String, JsonValue)> = Vec::new();
    header.push((String::from_str("timestamp"), JsonValue::Str(ts_text)));
    header.push((String::from_str("type"), JsonValue::str_of("session_meta")));
    header.push((String::from_str("payload"), obj_of(payload)));
    let generated_header = obj_of(header);
    proof {
        crate::json::lemma_jspec_entries_pointwise(payload_snap);
        crate::json::lemma_jspec_entries_pointwise(header@);
        let hs = crate::json::jspec_entries(header@);
        let target = codex_meta_line(
            session.source.original_session_id@,
            session.metadata.project_root@,
            session.metadata.created_at.millis as int,
        );
        assert(hs.len() == 3);
        assert(hs[0] == target->Obj_0[0]);
        assert(crate::json::jspec_entries(payload_snap) =~= target->Obj_0[2].1->Obj_0);
        assert(hs[2].1 =~~= target->Obj_0[2].1);
        assert(hs[1] == target->Obj_0[1]);
        assert(hs =~~= target->Obj_0);
        assert(generated_header@ =~~= target);
    }
    let raw_meta = find_first_meta(&session.raw_vendor_payload);
    let merged_header = crate::json::merge_with_raw_unknowns(generated_header, raw_meta);
    let mut out: Vec<JsonValue> = Vec::new();
    out.push(merged_header);
    let mut i: usize = 0;
    while i < session.events.len()
        invariant
            out@.len() == i + 1,
            out@[0]@ == crate::json::spec_overlay(
                codex_meta_line(
                    session.source.original_session_id@,
                    session.metadata.project_root@,
                    session.metadata.created_at.millis as int,
                ),
                first_meta_raw(session.raw_vendor_payload@),
            ),
            i <= session.events@.len(),
            forall|j: int|
                0 <= j < i ==> #[trigger] out@[j + 1]@ == crate::json::spec_overlay(
                    codex_event_line(crate::model::sketch_of(session.events@[j])),
                    Some(session.events@[j].raw_vendor_payload@),
                ),
        decreases session.events@.len() - i,
    {
        let generated = event_to_codex_line(&session.events[i]);
        let merged = crate::json::merge_with_raw_unknowns(
            generated,
            Some(&session.events[i].raw_vendor_payload),
        );
        out.push(merged);
        i = i + 1;
    }
    out
}



/// The event's kind and payload pair the way the adapter itself builds
/// them: a text message, a tool call, a tool result, or a progress note.
pub open spec fn canonical_event_pairing(sk: EventSketch) -> bool {
    is_response_payload(sk) || (sk.payload matches PayloadSketch::Json { .. } && sk.kind
        == EventKind::SystemProgress)
}

/// Import–export round trip, one line at a time: re-importing the line a
/// canonical event exports — whatever raw capture was overlaid onto it —
/// yields exactly one event with the same kind and stream, the same
/// timestamp (whenever chrono's text for the instant parses back, which it
/// does for every representable instant), the same text for messages, the
/// same uid for tool calls, and the same call id for tool results, so tool
/// links survive the trip.
#[verifier::rlimit(100)]
#[verifier::spinoff_prover]
pub proof fn lemma_codex_line_round_trip(
    sk: EventSketch,
    raw: Option<JsonSpec>,
    line_no: int,
    now: int,
)
    requires
        canonical_event_pairing(sk),
    ensures
        ({
            let line = crate::json::spec_overlay(codex_event_line(sk), raw);
            let evs = codex_line_events(line, line_no, now);
            &&& evs.len() == 1
            &&& evs[0].kind == sk.kind
            &&& evs[0].stream_id == "main"@
            &&& (rfc3339_millis(crate::clock::rfc3339_text_or_empty(sk.timestamp)) == Some(
                sk.timestamp,
            ) ==> evs[0].timestamp == sk.timestamp)
            &&& match sk.payload {
                PayloadSketch::Text { text } => evs[0].payload == (PayloadSketch::Text { text })
                    && evs[0].event_uid == frag_uid(line_no, 0),
                PayloadSketch::ToolCall { tool_name, input } => evs[0].event_uid == sk.event_uid
                    && (evs[0].payload matches PayloadSketch::ToolCall { tool_name: tn, .. } && tn
                    == tool_name),
                PayloadSketch::ToolResult { call_id, ok, output_text, error_text } => evs[0].event_uid
                    == line_uid(line_no) && (evs[0].payload matches PayloadSketch::ToolResult {
                    call_id: c,
                    ..
                } && c == call_id),
                PayloadSketch::Json { value } => evs[0].event_uid == line_uid(line_no),
            }
        }),
{
    reveal_with_fuel(crate::json::lookup, 10);
    reveal_strlit("timestamp");
    reveal_strlit("type");
    reveal_strlit("payload");
    reveal_strlit("response_item");
    reveal_strlit("event_msg");
    reveal_strlit("message");
    reveal_strlit("function_call");
    reveal_strlit("function_call_output");
    reveal_strlit("token_count");
    reveal_strlit("role");
    reveal_strlit("user");
    reveal_strlit("assistant");
    reveal_strlit("content");
    reveal_strlit("text");
    reveal_strlit("input_text");
    reveal_strlit("output_text");
    reveal_strlit("name");
    reveal_strlit("call_id");
    reveal_strlit("arguments");
    reveal_strlit("output");
    reveal_strlit("info");
    assert("timestamp"@.len() == 9);
    assert("type"@.len() == 4);
    assert("payload"@.len() == 7);
    assert("response_item"@.len() == 13);
    assert("event_msg"@.len() == 9);
    assert("message"@.len() == 7);
    assert("function_call"@.len() == 13);
    assert("function_call_output"@.len() == 20);
    assert("token_count"@.len() == 11);
    assert("role"@.len() == 4);
    assert("user"@.len() == 4);
    assert("assistant"@.len() == 9);
    assert("content"@.len() == 7);
    assert("text"@.len() == 4);
    assert("name"@.len() == 4);
    assert("call_id"@.len() == 7);
    assert("arguments"@.len() == 9);
    assert("output"@.len() == 6);
    assert("info"@.len() == 4);
    assert("type"@[0] == 't' && "text"@[0] == 't' && "type"@[1] == 'y' && "text"@[1] == 'e');
    assert("role"@[0] == 'r' && "name"@[0] == 'n' && "info"@[0] == 'i' && "user"@[0] == 'u');
    assert("function_call"@[0] == 'f' && "response_item"@[0] == 'r');
    assert("timestamp"@[0] == 't' && "assistant"@[0] == 'a' && "event_msg"@[0] == 'e');
    let gen = codex_event_line(sk);
    let genp = codex_event_payload(sk);
    let line = crate::json::spec_overlay(gen, raw);
    crate::json::lemma_overlay_merged_from(gen, raw);
    assert(crate::json::lookup(gen->Obj_0, "type"@) == Some(
        JsonSpec::Str(
            if is_response_payload(sk) {
                "response_item"@
            } else {
                "event_msg"@
            },
        ),
    ));
    assert(crate::json::lookup(gen->Obj_0, "timestamp"@) == Some(
        JsonSpec::Str(crate::clock::rfc3339_text_or_empty(sk.timestamp)),
    ));
    assert(crate::json::lookup(gen->Obj_0, "payload"@) == Some(genp));
    crate::json::lemma_merge_keeps_scalar(line, gen, "type"@);
    crate::json::lemma_merge_keeps_scalar(line, gen, "timestamp"@);
    crate::json::lemma_merge_keeps_entry(line, gen, "payload"@);
    let mp = crate::json::spec_get(line, "payload"@)->Some_0;
    assert(crate::json::merged_from(mp, genp));
    assert(genp is Obj);
    crate::json::lemma_merge_keeps_scalar(mp, genp, "type"@);
    assert(payload_obj(line) == Some(mp));
    assert(line_ts(line, now) == (match rfc3339_millis(
        crate::clock::rfc3339_text_or_empty(sk.timestamp),
    ) {
        Some(ms) => ms,
        None => now,
    }));
    let ts = line_ts(line, now);
    match sk.payload {
        PayloadSketch::Text { text } => {
            let user = sk.kind == EventKind::MessageUser;
            assert(genp == message_payload(user, text));
            assert(crate::json::lookup(genp->Obj_0, "role"@) == Some(
                JsonSpec::Str(
                    if user {
                        "user"@
                    } else {
                        "assistant"@
                    },
                ),
            ));
            crate::json::lemma_merge_keeps_scalar(mp, genp, "role"@);
            crate::json::lemma_merge_keeps_entry(mp, genp, "content"@);
            let mc = crate::json::spec_get(mp, "content"@)->Some_0;
            let genc = crate::json::lookup(genp->Obj_0, "content"@)->Some_0;
            assert(genc is Arr && genc->Arr_0.len() == 1);
            crate::json::lemma_merge_keeps_single_array(mc, genc);
            let item = mc->Arr_0[0];
            let gen_item = genc->Arr_0[0];
            assert(crate::json::lookup(gen_item->Obj_0, "text"@) == Some(JsonSpec::Str(text)));
            crate::json::lemma_merge_keeps_scalar(item, gen_item, "text"@);
            assert(item_texts(mc->Arr_0) =~= seq![text]) by {
                assert(mc->Arr_0.drop_last() =~= Seq::<JsonSpec>::empty());
                assert(item_texts(mc->Arr_0.drop_last()) =~= Seq::<Seq<char>>::empty());
                assert(mc->Arr_0.last() == item);
            }
            assert(content_texts(mp) == seq![text]);
            assert(codex_line_events(line, line_no, now) == message_events(
                line,
                mp,
                line_no,
                ts,
            ));
            assert(message_events(line, mp, line_no, ts).len() == 1);
            assert(message_events(line, mp, line_no, ts)[0] == codex_event_base(
                frag_uid(line_no, 0),
                line,
                line_no,
                ts,
                sk.kind,
                PayloadSketch::Text { text },
            ));
        },
        PayloadSketch::ToolCall { tool_name, input } => {
            assert(genp == call_payload(tool_name, sk.event_uid, input));
            crate::json::lemma_merge_keeps_scalar(mp, genp, "call_id"@);
            crate::json::lemma_merge_keeps_scalar(mp, genp, "name"@);
            crate::json::lemma_merge_keeps_scalar(mp, genp, "arguments"@);
            assert(codex_line_events(line, line_no, now) == seq![
                function_call_event(line, mp, line_no, ts),
            ]);
        },
        PayloadSketch::ToolResult { call_id, ok, output_text, error_text } => {
            assert(genp == output_payload(call_id, output_text));
            crate::json::lemma_merge_keeps_scalar(mp, genp, "call_id"@);
            crate::json::lemma_merge_keeps_scalar(mp, genp, "output"@);
            assert(codex_line_events(line, line_no, now) == seq![
                function_output_event(line, mp, line_no, ts),
            ]);
        },
        PayloadSketch::Json { value } => {
            assert(genp == tokens_payload(value));
            assert(codex_line_events(line, line_no, now) == seq![
                token_count_event(line, mp, line_no, ts),
            ]);
        },
    }
}



/// One native rollout file, as text lines.
#[derive(Debug, PartialEq, Eq)]
pub struct CodexFile {
    pub path: String,
    pub lines: Vec<String>,
}

/// The file parses and names the wanted session.
pub open spec fn codex_file_matches(f: CodexFile, sid: Seq<char>) -> bool {
    jsonl_ok(texts_of(f.lines@)) && codex_native_id(jsonl_docs(texts_of(f.lines@)), f.path@)
        == sid
}

/// `files[i]` is the first file that parses and names the session.
pub open spec fn is_first_codex_match(files: Seq<CodexFile>, sid: Seq<char>, i: int) -> bool {
    &&& 0 <= i < files.len()
    &&& codex_file_matches(files[i], sid)
    &&& forall|j: int| 0 <= j < i ==> !codex_file_matches(#[trigger] files[j], sid)
}

impl CodexAdapter {
    /// Imports the first rollout file whose summary names the session;
    /// files that do not parse are skipped, and a missing session is the
    /// exact not-found error.
    pub fn import_session_from_files(&self, session_id: &str, files: Vec<CodexFile>) -> (r: Result<
        SteadSession,
        AdapterError,
    >)
        ensures
            match r {
                Ok(s) => exists|i: int|
                    #[trigger] is_first_codex_match(files@, session_id@, i) && exists|now: int|
                        codex_import_ok(
                            jsonl_docs(texts_of(files@[i].lines@)),
                            files@[i].path@,
                            now,
                            s,
                        ),
                Err(e) => {
                    &&& e matches AdapterError::SessionNotFound(id) && id@ == session_id@
                    &&& forall|i: int|
                        0 <= i < files@.len() ==> !codex_file_matches(
                            #[trigger] files@[i],
                            session_id@,
                        )
                },
            },
    {
        let mut i: usize = 0;
        while i < files.len()
            invariant
                i <= files@.len(),
                forall|j: int|
                    0 <= j < i ==> !codex_file_matches(#[trigger] files@[j], session_id@),
            decreases files@.len() - i,
        {
            let mut hit = false;
            match self.summary_from_lines(files[i].path.as_str(), &files[i].lines) {
                Ok(summary) => {
                    if crate::strutil::str_eq(summary.native_id.as_str(), session_id) {
                        hit = true;
                    }
                },
                Err(_) => {},
            }
            if hit {
                proof {
                    assert(is_first_codex_match(files@, session_id@, i as int));
                }
                match self.import_from_lines(files[i].path.as_str(), &files[i].lines) {
                    Ok(s) => {
                        return Ok(s);
                    },
                    Err(_) => {
                        proof {
                            assert(jsonl_ok(texts_of(files@[i as int].lines@)));
                            assert(false);
                        }
                    },
                }
            }
            i = i + 1;
        }
        Err(AdapterError::SessionNotFound(session_id.to_owned()))
    }
}


} // verus!
