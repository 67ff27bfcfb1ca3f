//! The canonical session and event model: backend identities, the session
//! UID builder, the total order on events with its canonical sort, and
//! session validation.

use vstd::prelude::*;

use crate::json::JsonValue;

verus! {

use vstd::multiset::Multiset;
use vstd::utf8::encode_utf8;
use crate::strutil::lex_le;

/// Version of the canonical session schema; pinned, never migrated.
pub const SCHEMA_VERSION: &'static str = "0.1.0";

/// Version tag recorded by the adapters on every import.
pub const ADAPTER_VERSION: &'static str = "0.1.0";

pub fn schema_version() -> (r: &'static str)
    ensures
        r@ == SCHEMA_VERSION@,
{
    SCHEMA_VERSION
}

/// The backend a session originates from.
#[derive(Debug, Clone, Copy, PartialEq, Eq, Structural)]
pub enum BackendKind {
    Codex,
    ClaudeCode,
}

impl BackendKind {
    /// The stable key this backend is written as inside canonical data.
    pub open spec fn key_spec(self) -> Seq<char> {
        match self {
            BackendKind::Codex => "codex"@,
            BackendKind::ClaudeCode => "claude_code"@,
        }
    }

    pub fn as_str(&self) -> (r: &'static str)
        ensures
            r@ == self.key_spec(),
    {
        match self {
            BackendKind::Codex => "codex",
            BackendKind::ClaudeCode => "claude_code",
        }
    }
}

/// What `build_session_uid` returns: `stead:<backend>:<id>`.
pub open spec fn session_uid_spec(backend: BackendKind, original_session_id: Seq<char>) -> Seq<
    char,
> {
    "stead:"@ + backend.key_spec() + ":"@ + original_session_id
}

/// Builds the canonical session UID, a pure function of backend and id.
pub fn build_session_uid(backend: BackendKind, original_session_id: &str) -> (r: String)
    ensures
        r@ == session_uid_spec(backend, original_session_id@),
{
    let mut out = String::new();
    out.append("stead:");
    out.append(backend.as_str());
    out.append(":");
    out.append(original_session_id);
    out
}

/// A UTC instant, in milliseconds since the Unix epoch.
#[derive(Debug, Clone, Copy, PartialEq, Eq, Structural)]
pub struct Timestamp {
    pub millis: i64,
}

impl Timestamp {
    pub fn new(millis: i64) -> (r: Timestamp)
        ensures
            r.millis == millis,
    {
        Timestamp { millis }
    }
}

/// Who produced an event.
#[derive(Debug, Clone, PartialEq, Eq)]
pub struct EventActor {
    pub role: String,
    pub agent_id: Option<String>,
    pub vendor_role: Option<String>,
}

impl EventActor {
    /// An actor on the user side of the conversation.
    pub fn user(role: &str) -> (r: EventActor)
        ensures
            r.role@ == role@,
            r.agent_id is None,
            r.vendor_role is None,
    {
        EventActor { role: role.to_owned(), agent_id: None, vendor_role: None }
    }

    /// An actor on the assistant side of the conversation.
    pub fn assistant(role: &str) -> (r: EventActor)
        ensures
            r.role@ == role@,
            r.agent_id is None,
            r.vendor_role is None,
    {
        EventActor { role: role.to_owned(), agent_id: None, vendor_role: None }
    }
}

/// The closed set of canonical event kinds.
#[derive(Debug, Clone, Copy, PartialEq, Eq, Structural)]
pub enum EventKind {
    MessageUser,
    MessageAssistant,
    ToolCall,
    ToolResult,
    SystemProgress,
    SystemNote,
    SessionMarker,
    ArtifactRef,
}

/// The tagged payload of a canonical event.
#[derive(Debug, PartialEq)]
pub enum EventPayload {
    Text { text: String },
    ToolCall { tool_name: String, input: JsonValue },
    ToolResult { call_id: String, ok: bool, output_text: Option<String>, error_text: Option<String> },
    Json { value: JsonValue },
}

impl EventPayload {
    /// A plain text payload.
    pub fn text(text: String) -> (r: EventPayload)
        ensures
            r == (EventPayload::Text { text }),
    {
        EventPayload::Text { text }
    }

    /// A tool invocation payload.
    pub fn tool_call(tool_name: String, input: JsonValue) -> (r: EventPayload)
        ensures
            r == (EventPayload::ToolCall { tool_name, input }),
    {
        EventPayload::ToolCall { tool_name, input }
    }
}

/// One canonical event.
#[derive(Debug, PartialEq)]
pub struct SteadEvent {
    pub event_uid: String,
    pub stream_id: String,
    pub line_number: u64,
    pub sequence: Option<u64>,
    pub timestamp: Timestamp,
    pub kind: EventKind,
    pub actor: Option<EventActor>,
    pub payload: EventPayload,
    pub raw_vendor_payload: JsonValue,
    pub extensions: JsonValue,
}

/// A cross-reference to an artifact a session produced.
#[derive(Debug, PartialEq)]
pub struct SessionArtifactRef {
    pub artifact_uid: String,
    pub kind: String,
    pub source_event_uid: String,
    pub path: Option<String>,
    pub mime_type: Option<String>,
    pub sha256: Option<String>,
    pub extensions: JsonValue,
}

/// Where a session came from, and through which files.
#[derive(Debug, PartialEq)]
pub struct SessionSource {
    pub backend: BackendKind,
    pub original_session_id: String,
    pub source_files: Vec<String>,
    pub imported_at: Timestamp,
    pub adapter_version: String,
}

impl SessionSource {
    /// A fresh source record, stamped with the wall clock.
    pub fn new(backend: BackendKind, original_session_id: &str, source_files: Vec<String>) -> (r:
        SessionSource)
        ensures
            r.backend == backend,
            r.original_session_id@ == original_session_id@,
            r.source_files == source_files,
            r.adapter_version@ == ADAPTER_VERSION@,
    {
        SessionSource {
            backend,
            original_session_id: original_session_id.to_owned(),
            source_files,
            imported_at: Timestamp::new(crate::clock::now_millis()),
            adapter_version: ADAPTER_VERSION.to_owned(),
        }
    }
}

/// Session-level metadata.
#[derive(Debug, PartialEq)]
pub struct SessionMetadata {
    pub title: Option<String>,
    pub project_root: String,
    pub created_at: Timestamp,
    pub updated_at: Timestamp,
    pub tags: Vec<String>,
}

impl SessionMetadata {
    /// Metadata with no tags.
    pub fn new(
        title: Option<String>,
        project_root: String,
        created_at: Timestamp,
        updated_at: Timestamp,
    ) -> (r: SessionMetadata)
        ensures
            r.title == title,
            r.project_root == project_root,
            r.created_at == created_at,
            r.updated_at == updated_at,
            r.tags@.len() == 0,
    {
        SessionMetadata { title, project_root, created_at, updated_at, tags: Vec::new() }
    }
}

/// Optional fork/rewind lineage of a session.
#[derive(Debug, Clone, PartialEq, Eq, Default)]
pub struct SessionLineage {
    pub root_session_uid: Option<String>,
    pub parent_session_uid: Option<String>,
    pub fork_origin_event_uid: Option<String>,
    pub strategy: Option<String>,
}

/// One canonical session.
#[derive(Debug, PartialEq)]
pub struct SteadSession {
    pub schema_version: String,
    pub session_uid: String,
    pub shared_session_uid: Option<String>,
    pub source: SessionSource,
    pub metadata: SessionMetadata,
    pub events: Vec<SteadEvent>,
    pub artifacts: Vec<SessionArtifactRef>,
    pub capabilities: JsonValue,
    pub extensions: JsonValue,
    pub lineage: Option<SessionLineage>,
    pub raw_vendor_payload: JsonValue,
}

/// Validation failures over the sequence numbers of a session's events.
#[derive(Debug, PartialEq, Eq)]
pub enum SteadSessionError {
    MissingSequence { event_uid: String },
    InvalidSequence { index: usize, expected: u64, found: u64 },
}

impl SteadSession {
    /// Sequence density: every event is numbered, and numbered by its index.
    pub open spec fn sequences_dense(&self) -> bool {
        forall|i: int|
            0 <= i < self.events@.len() ==> #[trigger] self.events@[i].sequence == Some(i as u64)
    }

    /// The error `e` names position `i`: the first offending event, every
    /// event before it correctly numbered.
    pub open spec fn names_first_violation(&self, i: int, e: SteadSessionError) -> bool {
        &&& 0 <= i < self.events@.len()
        &&& forall|j: int| 0 <= j < i ==> #[trigger] self.events@[j].sequence == Some(j as u64)
        &&& match e {
            SteadSessionError::MissingSequence { event_uid } => self.events@[i].sequence is None
                && event_uid@ == self.events@[i].event_uid@,
            SteadSessionError::InvalidSequence { index, expected, found } => index == i && expected
                == i && self.events@[i].sequence == Some(found) && found != i as u64,
        }
    }

    /// Checks sequence density, reporting the first offending event: the
    /// first unnumbered event as `MissingSequence`, the first hole as
    /// `InvalidSequence`.
    pub fn validate(&self) -> (r: Result<(), SteadSessionError>)
        ensures
            r is Ok <==> self.sequences_dense(),
            match r {
                Ok(()) => true,
                Err(e) => exists|i: int| #[trigger] self.names_first_violation(i, e),
            },
    {
        let mut idx: usize = 0;
        while idx < self.events.len()
            invariant
                idx <= self.events@.len(),
                forall|j: int|
                    0 <= j < idx ==> #[trigger] self.events@[j].sequence == Some(j as u64),
            decreases self.events@.len() - idx,
        {
            match &self.events[idx].sequence {
                None => {
                    let uid = crate::json::clone_string(&self.events[idx].event_uid);
                    let r = SteadSessionError::MissingSequence { event_uid: uid };
                    proof {
                        assert(self.names_first_violation(idx as int, r));
                    }
                    return Err(r);
                },
                Some(found) => {
                    if *found != idx as u64 {
                        let r = SteadSessionError::InvalidSequence {
                            index: idx,
                            expected: idx as u64,
                            found: *found,
                        };
                        proof {
                            assert(self.names_first_violation(idx as int, r));
                        }
                        return Err(r);
                    }
                },
            }
            idx = idx + 1;
        }
        Ok(())
    }
}

/// Priority of a stream: the main stream first, every other stream after.
pub open spec fn stream_priority_spec(stream_id: Seq<char>) -> int {
    if stream_id == "main"@ {
        0
    } else {
        1
    }
}

/// The priority of a stream, `0` for `main` and `1` for everything else.
pub fn stream_priority(stream_id: &str) -> (r: u8)
    ensures
        r as int == stream_priority_spec(stream_id@),
{
    if crate::strutil::str_eq(stream_id, "main") {
        0
    } else {
        1
    }
}

/// The canonical total order on events:
/// `(timestamp, stream_priority, line_number, event_uid)`, ascending, with
/// the UID compared byte-wise.
pub open spec fn event_le(a: SteadEvent, b: SteadEvent) -> bool {
    if a.timestamp.millis != b.timestamp.millis {
        a.timestamp.millis < b.timestamp.millis
    } else if stream_priority_spec(a.stream_id@) != stream_priority_spec(b.stream_id@) {
        stream_priority_spec(a.stream_id@) < stream_priority_spec(b.stream_id@)
    } else if a.line_number != b.line_number {
        a.line_number < b.line_number
    } else {
        lex_le(encode_utf8(a.event_uid@), encode_utf8(b.event_uid@))
    }
}

/// The sort key of an event; two events with equal keys are tied.
pub open spec fn event_key(e: SteadEvent) -> (int, int, int, Seq<u8>) {
    (
        e.timestamp.millis as int,
        stream_priority_spec(e.stream_id@),
        e.line_number as int,
        encode_utf8(e.event_uid@),
    )
}

pub proof fn lemma_event_le_total(a: SteadEvent, b: SteadEvent)
    ensures
        event_le(a, b) || event_le(b, a),
{
    crate::strutil::lemma_lex_le_total(encode_utf8(a.event_uid@), encode_utf8(b.event_uid@));
}

pub proof fn lemma_event_le_trans(a: SteadEvent, b: SteadEvent, c: SteadEvent)
    requires
        event_le(a, b),
        event_le(b, c),
    ensures
        event_le(a, c),
{
    if a.timestamp.millis == b.timestamp.millis && b.timestamp.millis == c.timestamp.millis
        && stream_priority_spec(a.stream_id@) == stream_priority_spec(b.stream_id@)
        && stream_priority_spec(b.stream_id@) == stream_priority_spec(c.stream_id@)
        && a.line_number == b.line_number && b.line_number == c.line_number {
        crate::strutil::lemma_lex_le_transitive(
            encode_utf8(a.event_uid@),
            encode_utf8(b.event_uid@),
            encode_utf8(c.event_uid@),
        );
    }
}

/// Ties under `event_le` are exactly equal keys.
pub proof fn lemma_event_le_antisymmetric_keys(a: SteadEvent, b: SteadEvent)
    requires
        event_le(a, b),
        event_le(b, a),
    ensures
        event_key(a) == event_key(b),
{
    crate::strutil::lemma_lex_le_antisymmetric(encode_utf8(a.event_uid@), encode_utf8(b.event_uid@));
}

/// Compares two events in the canonical order.
pub fn event_le_exec(a: &SteadEvent, b: &SteadEvent) -> (r: bool)
    ensures
        r == event_le(*a, *b),
{
    if a.timestamp.millis != b.timestamp.millis {
        return a.timestamp.millis < b.timestamp.millis;
    }
    let pa = stream_priority(a.stream_id.as_str());
    let pb = stream_priority(b.stream_id.as_str());
    if pa != pb {
        return pa < pb;
    }
    if a.line_number != b.line_number {
        return a.line_number < b.line_number;
    }
    crate::strutil::str_le(a.event_uid.as_str(), b.event_uid.as_str())
}


/// The ghost mirror of an actor.
pub struct ActorSketch {
    pub role: Seq<char>,
    pub agent_id: Option<Seq<char>>,
    pub vendor_role: Option<Seq<char>>,
}

/// The ghost mirror of an event payload.
pub enum PayloadSketch {
    Text { text: Seq<char> },
    ToolCall { tool_name: Seq<char>, input: crate::json::JsonSpec },
    ToolResult {
        call_id: Seq<char>,
        ok: bool,
        output_text: Option<Seq<char>>,
        error_text: Option<Seq<char>>,
    },
    Json { value: crate::json::JsonSpec },
}

/// Everything observable about an event except its sequence number: what
/// the canonical sort permutes but never changes.
pub struct EventSketch {
    pub event_uid: Seq<char>,
    pub stream_id: Seq<char>,
    pub line_number: int,
    pub timestamp: int,
    pub kind: EventKind,
    pub actor: Option<ActorSketch>,
    pub payload: PayloadSketch,
    pub raw_vendor_payload: crate::json::JsonSpec,
    pub extensions: crate::json::JsonSpec,
}

pub open spec fn actor_sketch(a: EventActor) -> ActorSketch {
    ActorSketch {
        role: a.role@,
        agent_id: match a.agent_id {
            Some(s) => Some(s@),
            None => None,
        },
        vendor_role: match a.vendor_role {
            Some(s) => Some(s@),
            None => None,
        },
    }
}

pub open spec fn payload_sketch(p: EventPayload) -> PayloadSketch {
    match p {
        EventPayload::Text { text } => PayloadSketch::Text { text: text@ },
        EventPayload::ToolCall { tool_name, input } => PayloadSketch::ToolCall {
            tool_name: tool_name@,
            input: input@,
        },
        EventPayload::ToolResult { call_id, ok, output_text, error_text } => PayloadSketch::ToolResult {
            call_id: call_id@,
            ok,
            output_text: match output_text {
                Some(s) => Some(s@),
                None => None,
            },
            error_text: match error_text {
                Some(s) => Some(s@),
                None => None,
            },
        },
        EventPayload::Json { value } => PayloadSketch::Json { value: value@ },
    }
}

/// The sketch of an event: its whole content but the sequence number.
pub open spec fn sketch_of(e: SteadEvent) -> EventSketch {
    EventSketch {
        event_uid: e.event_uid@,
        stream_id: e.stream_id@,
        line_number: e.line_number as int,
        timestamp: e.timestamp.millis as int,
        kind: e.kind,
        actor: match e.actor {
            Some(a) => Some(actor_sketch(a)),
            None => None,
        },
        payload: payload_sketch(e.payload),
        raw_vendor_payload: e.raw_vendor_payload@,
        extensions: e.extensions@,
    }
}

/// The sketches of a list of events, in order.
pub open spec fn sketches_of(s: Seq<SteadEvent>) -> Seq<EventSketch> {
    s.map_values(|e: SteadEvent| sketch_of(e))
}

/// The content multiset of a list of events: the sketches, unordered.
pub open spec fn event_content_multiset(s: Seq<SteadEvent>) -> Multiset<EventSketch> {
    sketches_of(s).to_multiset()
}

/// The list is ascending in the canonical order.
pub open spec fn events_sorted(s: Seq<SteadEvent>) -> bool {
    forall|p: int, q: int| 0 <= p < q < s.len() ==> event_le(#[trigger] s[p], #[trigger] s[q])
}

pub proof fn lemma_multiset_insert_at<A>(s: Seq<A>, i: int, x: A)
    requires
        0 <= i <= s.len(),
    ensures
        s.insert(i, x).to_multiset() == s.to_multiset().insert(x),
{
    broadcast use vstd::seq_lib::group_to_multiset_ensures;

    assert(s.insert(i, x) =~= s.take(i) + (seq![x] + s.skip(i)));
    assert(s =~= s.take(i) + s.skip(i));
    vstd::seq_lib::lemma_multiset_commutative(s.take(i), seq![x] + s.skip(i));
    vstd::seq_lib::lemma_multiset_commutative(seq![x], s.skip(i));
    vstd::seq_lib::lemma_multiset_commutative(s.take(i), s.skip(i));
    assert(seq![x] =~= Seq::<A>::empty().push(x));
    assert(seq![x].to_multiset() =~= Multiset::<A>::empty().insert(x));
    assert(s.insert(i, x).to_multiset() =~= s.to_multiset().insert(x));
}

pub proof fn lemma_multiset_remove_at<A>(s: Seq<A>, i: int)
    requires
        0 <= i < s.len(),
    ensures
        s.remove(i).to_multiset() == s.to_multiset().remove(s[i]),
        s.remove(i).to_multiset().insert(s[i]) == s.to_multiset(),
{
    broadcast use vstd::seq_lib::group_to_multiset_ensures;

    assert(s.to_multiset().count(s[i]) > 0) by {
        assert(s.contains(s[i]));
    }
    assert(s.remove(i).to_multiset().insert(s[i]) =~= s.to_multiset());
}

/// Sketching commutes with `remove` and `insert`.
proof fn lemma_sketch_map_remove(s: Seq<SteadEvent>, i: int)
    requires
        0 <= i < s.len(),
    ensures
        sketches_of(s.remove(i)) == sketches_of(s).remove(i),
{
    assert(sketches_of(s.remove(i)) =~= sketches_of(s).remove(i));
}

proof fn lemma_sketch_map_insert(s: Seq<SteadEvent>, i: int, x: SteadEvent)
    requires
        0 <= i <= s.len(),
    ensures
        sketches_of(s.insert(i, x)) == sketches_of(s).insert(i, sketch_of(x)),
{
    assert(sketches_of(s.insert(i, x)) =~= sketches_of(s).insert(i, sketch_of(x)));
}

/// Sorts events into the canonical total order (insertion sort), keeping
/// exactly the events that were there.
fn sort_events(events: &mut Vec<SteadEvent>)
    ensures
        final(events)@.len() == old(events)@.len(),
        events_sorted(final(events)@),
        event_content_multiset(final(events)@) == event_content_multiset(old(events)@),
        final(events)@.to_multiset() == old(events)@.to_multiset(),
{
    let ghost m0v = events@.to_multiset();
    let ghost m0 = event_content_multiset(events@);
    let mut i: usize = 1;
    while i < events.len()
        invariant
            1 <= i || events@.len() == 0,
            i <= events@.len() || events@.len() == 0,
            events@.len() == old(events)@.len(),
            event_content_multiset(events@) == m0,
            m0 == event_content_multiset(old(events)@),
            events@.to_multiset() == m0v,
            m0v == old(events)@.to_multiset(),
            forall|p: int, q: int|
                0 <= p < q < i ==> event_le(#[trigger] events@[p], #[trigger] events@[q]),
        decreases events@.len() - i,
    {
        let ghost before = events@;
        let e = events.remove(i);
        let ghost mid = events@;
        proof {
            lemma_sketch_map_remove(before, i as int);
            lemma_multiset_remove_at(sketches_of(before), i as int);
            lemma_multiset_remove_at(before, i as int);
        }
        let mut pos: usize = 0;
        while pos < i
            invariant
                pos <= i,
                i < before.len(),
                events@ == mid,
                mid == before.remove(i as int),
                e == before[i as int],
                forall|p: int, q: int|
                    0 <= p < q < i ==> event_le(#[trigger] before[p], #[trigger] before[q]),
                forall|p: int| 0 <= p < pos ==> event_le(#[trigger] events@[p], e),
            ensures
                pos <= i,
                events@ == mid,
                forall|p: int| 0 <= p < pos ==> event_le(#[trigger] events@[p], e),
                pos < i ==> !event_le(mid[pos as int], e),
            decreases i - pos,
        {
            if !event_le_exec(&events[pos], &e) {
                break ;
            }
            pos = pos + 1;
        }
        proof {
            if pos < i {
                lemma_event_le_total(mid[pos as int], e);
            }
        }
        events.insert(pos, e);
        proof {
            lemma_sketch_map_insert(mid, pos as int, e);
            lemma_multiset_insert_at(sketches_of(mid), pos as int, sketch_of(e));
            lemma_multiset_insert_at(mid, pos as int, e);
            assert(events@.to_multiset() =~= m0v);
            assert(event_content_multiset(events@) =~= m0);
            // the grown prefix is sorted again
            assert forall|p: int, q: int|
                0 <= p < q < i + 1 implies event_le(#[trigger] events@[p], #[trigger] events@[q]) by {
                let s = events@;
                if q < pos {
                    assert(s[p] == mid[p] && s[q] == mid[q]);
                    assert(mid[p] == before[p] && mid[q] == before[q]);
                } else if q == pos {
                    assert(s[q] == e);
                    assert(s[p] == mid[p]);
                } else {
                    // q > pos
                    assert(s[q] == mid[q - 1]);
                    assert(mid[q - 1] == before[q - 1]);
                    if p < pos {
                        assert(s[p] == mid[p] && mid[p] == before[p]);
                        if pos < i {
                            // before[p] <= e <= before[pos..]
                            if p < q - 1 {
                                assert(event_le(before[p], before[q - 1]));
                            } else {
                                assert(event_le(s[p], e));
                                assert(event_le(e, mid[pos as int]));
                                assert(mid[pos as int] == before[pos as int]);
                                lemma_event_le_trans(s[p], e, before[q - 1]);
                            }
                        } else {
                            assert(event_le(before[p], before[q - 1]));
                        }
                    } else if p == pos {
                        assert(s[p] == e);
                        assert(event_le(e, mid[pos as int]));
                        assert(mid[pos as int] == before[pos as int]);
                        if q - 1 > pos {
                            lemma_event_le_trans(e, before[pos as int], before[q - 1]);
                        }
                    } else {
                        assert(s[p] == mid[p - 1] && mid[p - 1] == before[p - 1]);
                        assert(event_le(before[p - 1], before[q - 1]));
                    }
                }
            }
        }
        i = i + 1;
    }
}

/// Renumbers events `0..n` in place, touching nothing else.
fn assign_sequences(events: &mut Vec<SteadEvent>)
    ensures
        final(events)@.len() == old(events)@.len(),
        forall|i: int|
            0 <= i < final(events)@.len() ==> final(events)@[i] == (SteadEvent {
                sequence: Some(i as u64),
                ..old(events)@[i]
            }),
{
    let mut i: usize = 0;
    while i < events.len()
        invariant
            i <= events@.len(),
            events@.len() == old(events)@.len(),
            forall|j: int|
                i <= j < events@.len() ==> #[trigger] events@[j] == old(events)@[j],
            forall|j: int|
                0 <= j < i ==> #[trigger] events@[j] == (SteadEvent {
                    sequence: Some(j as u64),
                    ..old(events)@[j]
                }),
        decreases events@.len() - i,
    {
        let seq_no: u64 = i as u64;
        events[i].sequence = Some(seq_no);
        i = i + 1;
    }
}

/// Sorts events into the canonical total order and renumbers their
/// sequences `0..n`.  The sequence-erased content is exactly preserved.
pub fn canonical_sort_events(events: &mut Vec<SteadEvent>)
    ensures
        final(events)@.len() == old(events)@.len(),
        events_sorted(final(events)@),
        event_content_multiset(final(events)@) == event_content_multiset(old(events)@),
        forall|i: int|
            0 <= i < final(events)@.len() ==> #[trigger] final(events)@[i].sequence == Some(
                i as u64,
            ),
        forall|i: int, j: int|
            0 <= i < j < final(events)@.len() && event_identity_distinct(old(events)@) ==> #[trigger] event_identity_of(final(events)@[i]) != #[trigger] event_identity_of(final(events)@[j]),
{
    sort_events(events);
    let ghost sorted = events@;
    assign_sequences(events);
    proof {
        if event_identity_distinct(old(events)@) {
            lemma_identity_distinct_permutation(old(events)@, sorted);
            assert forall|i: int, j: int|
                0 <= i < j < events@.len() implies #[trigger] event_identity_of(events@[i])
                != #[trigger] event_identity_of(events@[j]) by {
                assert(event_identity_of(events@[i]) == event_identity_of(sorted[i]));
                assert(event_identity_of(events@[j]) == event_identity_of(sorted[j]));
            }
        }
        assert(sketches_of(events@) =~= sketches_of(sorted));
        assert forall|p: int, q: int|
            0 <= p < q < events@.len() implies event_le(
            #[trigger] events@[p],
            #[trigger] events@[q],
        ) by {
            assert(event_le(sorted[p], sorted[q]));
        }
    }
}


/// The session UID always carries the `stead:<backend>:` prefix.
pub proof fn lemma_session_uid_prefix(backend: BackendKind, original_session_id: Seq<char>)
    ensures
        crate::strutil::starts_with_spec(
            session_uid_spec(backend, original_session_id),
            "stead:"@ + backend.key_spec() + ":"@,
        ),
        session_uid_spec(backend, original_session_id).len() == "stead:"@.len()
            + backend.key_spec().len() + 1 + original_session_id.len(),
{
    reveal_strlit("stead:");
    reveal_strlit(":");
    reveal_strlit("codex");
    reveal_strlit("claude_code");
    let prefix = "stead:"@ + backend.key_spec() + ":"@;
    let uid = session_uid_spec(backend, original_session_id);
    assert(uid.take(prefix.len() as int) =~= prefix);
}

/// No two events share a sort key.
pub open spec fn distinct_event_keys(s: Seq<SteadEvent>) -> bool {
    forall|p: int, q: int|
        0 <= p < q < s.len() ==> event_key(#[trigger] s[p]) != event_key(#[trigger] s[q])
}

/// Canonical order is deterministic: two sorted lists holding the same
/// events, with pairwise distinct sort keys, are the same list.  Merging
/// the same session out of different capture files therefore yields one
/// result, however the files were traversed.
pub proof fn lemma_canonical_order_deterministic(s1: Seq<SteadEvent>, s2: Seq<SteadEvent>)
    requires
        events_sorted(s1),
        events_sorted(s2),
        distinct_event_keys(s1),
        s1.to_multiset() == s2.to_multiset(),
    ensures
        s1 == s2,
    decreases s1.len(),
{
    broadcast use vstd::seq_lib::group_to_multiset_ensures;

    assert(s1.to_multiset().len() == s1.len());
    assert(s2.to_multiset().len() == s2.len());
    if s1.len() == 0 {
        assert(s1 =~= s2);
    } else {
        assert(s1.contains(s1[0]));
        assert(s1.to_multiset().count(s1[0]) > 0);
        assert(s2.to_multiset().count(s1[0]) > 0);
        assert(s2.contains(s1[0]));
        let j = choose|j: int| 0 <= j < s2.len() && s2[j] == s1[0];
        assert(s2.contains(s2[0]));
        assert(s2.to_multiset().count(s2[0]) > 0);
        assert(s1.to_multiset().count(s2[0]) > 0);
        assert(s1.contains(s2[0]));
        let i = choose|i: int| 0 <= i < s1.len() && s1[i] == s2[0];
        // s1[0] <= s1[i] == s2[0] and s2[0] <= s2[j] == s1[0]
        if i > 0 {
            assert(event_le(s1[0], s1[i]));
        }
        if j > 0 {
            assert(event_le(s2[0], s2[j]));
        }
        lemma_event_le_total(s1[0], s2[0]);
        lemma_event_le_antisymmetric_keys(s1[0], s2[0]);
        if i > 0 {
            assert(event_key(s1[0]) != event_key(s1[i]));
            lemma_event_le_antisymmetric_keys(s1[0], s1[i]);
            assert(false);
        }
        assert(s1[0] == s2[0]);
        let t1 = s1.drop_first();
        let t2 = s2.drop_first();
        assert(t1 =~= s1.remove(0));
        assert(t2 =~= s2.remove(0));
        assert(s1.remove(0).to_multiset() == s1.to_multiset().remove(s1[0]));
        assert(s2.remove(0).to_multiset() == s2.to_multiset().remove(s2[0]));
        assert(forall|p: int, q: int|
            0 <= p < q < t1.len() ==> event_le(#[trigger] t1[p], #[trigger] t1[q]));
        assert(forall|p: int, q: int|
            0 <= p < q < t2.len() ==> event_le(#[trigger] t2[p], #[trigger] t2[q]));
        assert(forall|p: int, q: int|
            0 <= p < q < t1.len() ==> event_key(#[trigger] t1[p]) != event_key(#[trigger] t1[q]));
        lemma_canonical_order_deterministic(t1, t2);
        assert forall|k: int| 0 <= k < s1.len() implies s1[k] == s2[k] by {
            if k > 0 {
                assert(s1[k] == t1[k - 1]);
                assert(s2[k] == t2[k - 1]);
            }
        }
        assert(s1 =~= s2);
    }
}


/// The `(stream_id, event_uid)` identity of an event.
pub open spec fn event_identity_of(e: SteadEvent) -> (Seq<char>, Seq<char>) {
    (e.stream_id@, e.event_uid@)
}

/// No two events share an identity.
pub open spec fn event_identity_distinct(s: Seq<SteadEvent>) -> bool {
    forall|p: int, q: int|
        0 <= p < q < s.len() ==> event_identity_of(#[trigger] s[p]) != event_identity_of(
            #[trigger] s[q],
        )
}

/// A value counted at least twice sits at two positions.
pub proof fn lemma_count_two_gives_two_indexes<A>(s: Seq<A>, x: A)
    requires
        s.to_multiset().count(x) >= 2,
    ensures
        exists|p: int, q: int| 0 <= p < q < s.len() && (#[trigger] s[p]) == x && (#[trigger] s[q]) == x,
{
    broadcast use vstd::seq_lib::group_to_multiset_ensures;

    assert(s.contains(x));
    let i = choose|i: int| 0 <= i < s.len() && s[i] == x;
    assert(s.remove(i).to_multiset() == s.to_multiset().remove(s[i]));
    assert(s.remove(i).to_multiset().count(x) >= 1);
    assert(s.remove(i).contains(x));
    let j = choose|j: int| 0 <= j < s.remove(i).len() && s.remove(i)[j] == x;
    if j < i {
        assert(s[j] == x && s[i] == x);
    } else {
        assert(s[j + 1] == x && s[i] == x);
        assert(i < j + 1);
    }
}

/// Two positions of one value give a count of at least two.
pub proof fn lemma_two_indexes_give_count_two<A>(s: Seq<A>, p: int, q: int)
    requires
        0 <= p < q < s.len(),
        s[p] == s[q],
    ensures
        s.to_multiset().count(s[p]) >= 2,
{
    broadcast use vstd::seq_lib::group_to_multiset_ensures;

    assert(s.remove(q).to_multiset() == s.to_multiset().remove(s[q]));
    assert(s.remove(q)[p] == s[p]);
    assert(s.remove(q).contains(s[p]));
    assert(s.remove(q).to_multiset().count(s[p]) >= 1);
}

/// A permutation keeps identities pairwise distinct.
pub proof fn lemma_identity_distinct_permutation(s1: Seq<SteadEvent>, s2: Seq<SteadEvent>)
    requires
        s1.to_multiset() == s2.to_multiset(),
        event_identity_distinct(s1),
    ensures
        event_identity_distinct(s2),
{
    broadcast use vstd::seq_lib::group_to_multiset_ensures;

    assert forall|p: int, q: int|
        0 <= p < q < s2.len() implies event_identity_of(#[trigger] s2[p]) != event_identity_of(
        #[trigger] s2[q],
    ) by {
        if event_identity_of(s2[p]) == event_identity_of(s2[q]) {
            if s2[p] == s2[q] {
                lemma_two_indexes_give_count_two(s2, p, q);
                lemma_count_two_gives_two_indexes(s1, s2[p]);
                let (a, b) = choose|a: int, b: int|
                    0 <= a < b < s1.len() && (#[trigger] s1[a]) == s2[p] && (#[trigger] s1[b])
                        == s2[p];
                assert(event_identity_of(s1[a]) == event_identity_of(s1[b]));
                assert(false);
            } else {
                assert(s2.contains(s2[p]));
                assert(s1.to_multiset().count(s2[p]) > 0);
                assert(s1.contains(s2[p]));
                assert(s2.contains(s2[q]));
                assert(s1.to_multiset().count(s2[q]) > 0);
                assert(s1.contains(s2[q]));
                let a = choose|a: int| 0 <= a < s1.len() && s1[a] == s2[p];
                let b = choose|b: int| 0 <= b < s1.len() && s1[b] == s2[q];
                assert(a != b);
                assert(event_identity_of(s1[a]) == event_identity_of(s1[b]));
                assert(false);
            }
        }
    }
}




/// Every event of a permuted list carries the sketch of one of the
/// original's events.
pub proof fn lemma_sketch_member(s1: Seq<SteadEvent>, s2: Seq<SteadEvent>, j: int)
    requires
        event_content_multiset(s1) == event_content_multiset(s2),
        0 <= j < s2.len(),
    ensures
        exists|i: int| 0 <= i < s1.len() && sketch_of(#[trigger] s1[i]) == sketch_of(s2[j]),
{
    broadcast use vstd::seq_lib::group_to_multiset_ensures;

    let sk = sketch_of(s2[j]);
    assert(sketches_of(s2)[j] == sk);
    assert(sketches_of(s2).contains(sk));
    assert(sketches_of(s2).to_multiset().count(sk) > 0);
    assert(sketches_of(s1).to_multiset().count(sk) > 0);
    assert(sketches_of(s1).contains(sk));
    let i = choose|i: int| 0 <= i < sketches_of(s1).len() && sketches_of(s1)[i] == sk;
    assert(sketch_of(s1[i]) == sk);
}


} // verus!
