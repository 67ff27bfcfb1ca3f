//! The synchronizer: repo scoping, the cross-backend session merge, and
//! upsert identity resolution over the in-memory store.

use vstd::prelude::*;

use crate::adapter::NativeSessionRef;
use crate::model::SteadEvent;
use crate::model::SteadSession;

verus! {

use crate::adapter::texts_of;
use crate::store::aliases_spec;
use crate::store::native_ref_spec;

/// The CLI-facing backend selector; its store key is `codex`, or the
/// first segment of `claude_code`.
#[derive(Debug, Clone, Copy, PartialEq, Eq, Structural)]
pub enum Backend {
    Codex,
    Claude,
}

impl Backend {
    /// The key this backend is stored under in `native_refs`.
    pub open spec fn key_spec(self) -> Seq<char> {
        match self {
            Backend::Codex => "codex"@,
            Backend::Claude => "claude_code"@.take(6),
        }
    }
}

/// The key a backend is stored under in `native_refs` and sync reports.
pub fn backend_key(backend: Backend) -> (r: &'static str)
    ensures
        r@ == backend.key_spec(),
{
    match backend {
        Backend::Codex => "codex",
        Backend::Claude => {
            proof {
                reveal_strlit("claude_code");
            }
            let key = "claude_code".substring_char(0, 6);
            proof {
                assert(key@ =~= "claude_code"@.take(6));
            }
            key
        },
    }
}

/// A native session belongs to the repo when its normalized project root
/// equals the normalized repo path.
pub fn session_matches_repo(repo_norm: &str, project_root_norm: Option<&str>) -> (r: bool)
    ensures
        r == match project_root_norm {
            Some(root) => root@ == repo_norm@,
            None => false,
        },
{
    match project_root_norm {
        Some(root) => crate::strutil::str_eq(root, repo_norm),
        None => false,
    }
}

/// The sessions whose flag is set, in order.
pub open spec fn flagged_sessions(sessions: Seq<NativeSessionRef>, matches: Seq<bool>) -> Seq<
    NativeSessionRef,
>
    decreases sessions.len(),
{
    if sessions.len() == 0 {
        Seq::empty()
    } else {
        flagged_sessions(sessions.drop_last(), matches.drop_last()) + (if matches.len() > 0
            && matches.last() {
            seq![sessions.last()]
        } else {
            Seq::empty()
        })
    }
}

/// Scopes discovered sessions to the repo: when any session matches, only
/// the matches flow on, in order; when none does, all of them do.
pub fn scope_sessions_to_repo(sessions: Vec<NativeSessionRef>, matches: &Vec<bool>) -> (r: Vec<
    NativeSessionRef,
>)
    requires
        sessions@.len() == matches@.len(),
    ensures
        (exists|i: int| 0 <= i < matches@.len() && matches@[i]) ==> r@ == flagged_sessions(
            sessions@,
            matches@,
        ),
        !(exists|i: int| 0 <= i < matches@.len() && matches@[i]) ==> r@ == sessions@,
{
    let mut any = false;
    let mut i: usize = 0;
    while i < matches.len()
        invariant_except_break
            !any,
            forall|j: int| 0 <= j < i ==> !matches@[j],
        invariant
            i <= matches@.len(),
        ensures
            any == exists|j: int| 0 <= j < matches@.len() && matches@[j],
        decreases matches@.len() - i,
    {
        if matches[i] {
            any = true;
            proof {
                assert(matches@[i as int]);
            }
            break ;
        }
        i = i + 1;
    }
    if !any {
        return sessions;
    }
    let mut out: Vec<NativeSessionRef> = Vec::new();
    let mut rest = sessions;
    let mut k: usize = 0;
    let ghost orig = rest@;
    let total = rest.len();
    proof {
        assert(orig.skip(0) =~= orig);
        assert(flagged_sessions(orig.take(0), matches@.take(0)) =~= Seq::<
            NativeSessionRef,
        >::empty());
    }
    while rest.len() > 0
        invariant
            k <= orig.len() <= usize::MAX,
            orig.len() == matches@.len(),
            rest@ == orig.skip(k as int),
            out@ == flagged_sessions(orig.take(k as int), matches@.take(k as int)),
        decreases rest@.len(),
    {
        let s = rest.remove(0);
        proof {
            assert(orig.skip(k as int).remove(0) =~= orig.skip(k + 1));
            assert(s == orig[k as int]);
            assert(orig.take(k + 1).drop_last() =~= orig.take(k as int));
            assert(matches@.take(k + 1).drop_last() =~= matches@.take(k as int));
            assert(orig.take(k + 1).last() == orig[k as int]);
            assert(matches@.take(k + 1).last() == matches@[k as int]);
        }
        if matches[k] {
            out.push(s);
            proof {
                assert(out@ =~= flagged_sessions(orig.take(k + 1), matches@.take(k + 1)));
            }
        } else {
            proof {
                assert(out@ =~= flagged_sessions(orig.take(k + 1), matches@.take(k + 1)));
            }
        }
        k = k + 1;
    }
    proof {
        assert(orig.take(orig.len() as int) =~= orig);
        assert(matches@.take(matches@.len() as int) =~= matches@);
    }
    out
}

/// The shared UID a session is reconciled under: its own UID when unset.
pub open spec fn effective_shared(s: SteadSession) -> Seq<char> {
    match s.shared_session_uid {
        Some(u) => u@,
        None => s.session_uid@,
    }
}

/// The full deduplication key the cross-backend merge uses.
pub open spec fn event_full_key(e: SteadEvent) -> (Seq<char>, Seq<char>, int, crate::model::EventKind) {
    (e.stream_id@, e.event_uid@, e.timestamp.millis as int, e.kind)
}

/// Some event in `dst` carries the full key of `src[i]`.
pub open spec fn full_key_covered(src: Seq<SteadEvent>, dst: Seq<SteadEvent>, i: int) -> bool {
    exists|j: int|
        0 <= j < dst.len() && event_full_key(#[trigger] dst[j]) == event_full_key(src[i])
}

/// Index of the first event in `s` with the given full key; `s.len()` when
/// none has it.
pub open spec fn first_index_with_full_key(
    s: Seq<SteadEvent>,
    key: (Seq<char>, Seq<char>, int, crate::model::EventKind),
) -> int
    decreases s.len(),
{
    if s.len() == 0 {
        0
    } else if event_full_key(s.first()) == key {
        0
    } else {
        1 + first_index_with_full_key(s.drop_first(), key)
    }
}

pub proof fn lemma_first_index_with_full_key(
    s: Seq<SteadEvent>,
    key: (Seq<char>, Seq<char>, int, crate::model::EventKind),
)
    ensures
        0 <= first_index_with_full_key(s, key) <= s.len(),
        first_index_with_full_key(s, key) < s.len() ==> event_full_key(
            s[first_index_with_full_key(s, key)],
        ) == key,
        forall|j: int|
            0 <= j < first_index_with_full_key(s, key) ==> event_full_key(#[trigger] s[j]) != key,
    decreases s.len(),
{
    if s.len() > 0 && event_full_key(s.first()) != key {
        lemma_first_index_with_full_key(s.drop_first(), key);
        assert forall|j: int|
            0 <= j < first_index_with_full_key(s, key) implies event_full_key(#[trigger] s[j])
            != key by {
            if j > 0 {
                assert(s.drop_first()[j - 1] == s[j]);
            }
        }
        if first_index_with_full_key(s, key) < s.len() {
            assert(s.drop_first()[first_index_with_full_key(s.drop_first(), key)]
                == s[first_index_with_full_key(s, key)]);
        }
    }
}

/// An index with the full key, before which none has it, is the first.
pub proof fn lemma_first_full_key_index_pinned(
    s: Seq<SteadEvent>,
    key: (Seq<char>, Seq<char>, int, crate::model::EventKind),
    idx: int,
)
    requires
        0 <= idx < s.len(),
        event_full_key(s[idx]) == key,
        forall|j: int| 0 <= j < idx ==> event_full_key(#[trigger] s[j]) != key,
    ensures
        first_index_with_full_key(s, key) == idx,
{
    lemma_first_index_with_full_key(s, key);
    let f = first_index_with_full_key(s, key);
    if f < idx {
        assert(event_full_key(s[f]) != key);
    }
    if f > idx {
        assert(event_full_key(s[idx]) != key);
    }
}

/// What full-key deduplication returns: scan left to right, replace in
/// place when the key was seen, append when it is new.
pub open spec fn dedup_by_full_key(s: Seq<SteadEvent>) -> Seq<SteadEvent>
    decreases s.len(),
{
    if s.len() == 0 {
        Seq::empty()
    } else {
        let rest = dedup_by_full_key(s.drop_last());
        let e = s.last();
        let idx = first_index_with_full_key(rest, event_full_key(e));
        if idx < rest.len() {
            rest.update(idx, e)
        } else {
            rest.push(e)
        }
    }
}

/// Drops duplicate events by `(stream, uid, timestamp, kind)`; the last
/// occurrence wins and keeps the position of the first.
#[verifier::rlimit(60)]
pub fn dedupe_events_by_full_key(events: Vec<SteadEvent>) -> (r: Vec<SteadEvent>)
    ensures
        r@ == dedup_by_full_key(events@),
        forall|p: int, q: int|
            0 <= p < q < r@.len() ==> event_full_key(#[trigger] r@[p]) != event_full_key(
                #[trigger] r@[q],
            ),
        forall|i: int| 0 <= i < events@.len() ==> #[trigger] full_key_covered(events@, r@, i),
{
    let ghost orig = events@;
    let mut rest = events;
    let mut out: Vec<SteadEvent> = Vec::new();
    let mut k: usize = 0;
    let total = rest.len();
    proof {
        assert(orig.skip(0) =~= orig);
    }
    proof {
        assert(orig.take(0) =~= Seq::<SteadEvent>::empty());
    }
    while rest.len() > 0
        invariant
            k <= orig.len() <= usize::MAX,
            rest@ == orig.skip(k as int),
            out@ == dedup_by_full_key(orig.take(k as int)),
            forall|p: int, q: int|
                0 <= p < q < out@.len() ==> event_full_key(#[trigger] out@[p]) != event_full_key(
                    #[trigger] out@[q],
                ),
            forall|i: int| 0 <= i < k ==> #[trigger] full_key_covered(orig, out@, i),
        decreases rest@.len(),
    {
        let e = rest.remove(0);
        proof {
            assert(e == orig[k as int]);
            assert(orig.skip(k as int).remove(0) =~= orig.skip(k + 1));
        }
        let mut found: Option<usize> = None;
        let mut j: usize = 0;
        while j < out.len()
            invariant_except_break
                found is None,
                forall|t: int|
                    0 <= t < j ==> event_full_key(#[trigger] out@[t]) != event_full_key(e),
            invariant
                j <= out@.len(),
            ensures
                match found {
                    Some(idx) => idx < out@.len() && event_full_key(out@[idx as int])
                        == event_full_key(e),
                    None => forall|t: int|
                        0 <= t < out@.len() ==> event_full_key(#[trigger] out@[t])
                            != event_full_key(e),
                },
            decreases out@.len() - j,
        {
            let same_stream = crate::strutil::str_eq(out[j].stream_id.as_str(), e.stream_id.as_str());
            let same_uid = crate::strutil::str_eq(out[j].event_uid.as_str(), e.event_uid.as_str());
            let same_ts = out[j].timestamp.millis == e.timestamp.millis;
            let same_kind = out[j].kind == e.kind;
            if same_stream && same_uid && same_ts && same_kind {
                found = Some(j);
                break ;
            }
            j = j + 1;
        }
        let ghost out_before = out@;
        match found {
            Some(idx) => {
                out.set(idx, e);
            },
            None => {
                out.push(e);
            },
        }
        proof {
            assert(orig.take(k + 1).drop_last() =~= orig.take(k as int));
            assert(orig.take(k + 1).last() == orig[k as int]);
            match found {
                Some(idx) => {
                    lemma_first_full_key_index_pinned(out_before, event_full_key(e), idx as int);
                    assert(out@ =~= dedup_by_full_key(orig.take(k + 1)));
                },
                None => {
                    lemma_first_index_with_full_key(out_before, event_full_key(e));
                    assert(first_index_with_full_key(out_before, event_full_key(e))
                        == out_before.len());
                    assert(out@ =~= dedup_by_full_key(orig.take(k + 1)));
                },
            }
            assert forall|i: int|
                0 <= i < k + 1 implies #[trigger] full_key_covered(orig, out@, i) by {
                if i == k {
                    match found {
                        Some(idx) => {
                            assert(event_full_key(out@[idx as int]) == event_full_key(orig[i]));
                        },
                        None => {
                            assert(event_full_key(out@[out@.len() - 1]) == event_full_key(
                                orig[i],
                            ));
                        },
                    }
                } else {
                    assert(full_key_covered(orig, out_before, i));
                    let j0 = choose|j0: int|
                        0 <= j0 < out_before.len() && event_full_key(#[trigger] out_before[j0])
                            == event_full_key(orig[i]);
                    assert(event_full_key(out@[j0]) == event_full_key(out_before[j0]));
                }
            }
        }
        k = k + 1;
    }
    proof {
        assert(orig.skip(k as int).len() == 0);
        assert(orig.take(orig.len() as int) =~= orig);
        assert(out@ == dedup_by_full_key(orig));
        assert forall|i: int|
            0 <= i < orig.len() implies #[trigger] full_key_covered(orig, out@, i) by {
            assert(0 <= i < k);
        }
    }
    out
}


/// The full key is a function of the sketch alone.
pub open spec fn sketch_full_key(sk: crate::model::EventSketch) -> (
    Seq<char>,
    Seq<char>,
    int,
    crate::model::EventKind,
) {
    (sk.stream_id, sk.event_uid, sk.timestamp, sk.kind)
}

/// Full-key coverage survives any permutation of the carrying list.
pub proof fn lemma_coverage_via_sketches(
    src: Seq<SteadEvent>,
    s1: Seq<SteadEvent>,
    s2: Seq<SteadEvent>,
    i: int,
)
    requires
        crate::model::sketches_of(s1).to_multiset() == crate::model::sketches_of(
            s2,
        ).to_multiset(),
        0 <= i < src.len(),
        full_key_covered(src, s1, i),
    ensures
        full_key_covered(src, s2, i),
{
    broadcast use vstd::seq_lib::group_to_multiset_ensures;

    let j = choose|j: int|
        0 <= j < s1.len() && event_full_key(#[trigger] s1[j]) == event_full_key(src[i]);
    let sk = crate::model::sketch_of(s1[j]);
    assert(crate::model::sketches_of(s1)[j] == sk);
    assert(crate::model::sketches_of(s1).contains(sk));
    assert(crate::model::sketches_of(s1).to_multiset().count(sk) > 0);
    assert(crate::model::sketches_of(s2).to_multiset().count(sk) > 0);
    assert(crate::model::sketches_of(s2).contains(sk));
    let j2 = choose|j2: int|
        0 <= j2 < crate::model::sketches_of(s2).len() && crate::model::sketches_of(s2)[j2] == sk;
    assert(crate::model::sketch_of(s2[j2]) == sk);
    assert(event_full_key(s2[j2]) == sketch_full_key(sk));
    assert(event_full_key(s1[j]) == sketch_full_key(sk));
}

/// Merges an imported capture of a session into the stored anchor: shared
/// The alias candidates a merge records, in order: the incoming session's
/// UID, each of its aliases, then its shared UID when it has one (empty
/// strings, the anchor's own UID and duplicates never land; see
/// `crate::store::alias_added`).
pub open spec fn merge_alias_candidates(incoming: SteadSession) -> Seq<Seq<char>> {
    seq![incoming.session_uid@] + crate::store::aliases_spec(incoming.extensions@) + (
    match incoming.shared_session_uid {
        Some(sh) => seq![sh@],
        None => Seq::empty(),
    })
}

/// UID kept (backfilled from the anchor's UID), foreign identities recorded
/// as aliases, the metadata window widened, source files united, the
/// incoming backend's raw lines stored, and the event union deduplicated by
/// `(stream, uid, timestamp, kind)` then canonically sorted.
pub fn merge_sessions(anchor: SteadSession, incoming: SteadSession) -> (r: SteadSession)
    ensures
        r.session_uid == anchor.session_uid,
        r.schema_version == anchor.schema_version,
        r.source.backend == anchor.source.backend,
        r.source.original_session_id == anchor.source.original_session_id,
        r.shared_session_uid matches Some(u) && u@ == effective_shared(anchor),
        r.metadata.created_at.millis == (if incoming.metadata.created_at.millis
            < anchor.metadata.created_at.millis {
            incoming.metadata.created_at.millis
        } else {
            anchor.metadata.created_at.millis
        }),
        r.metadata.updated_at.millis == (if incoming.metadata.updated_at.millis
            > anchor.metadata.updated_at.millis {
            incoming.metadata.updated_at.millis
        } else {
            anchor.metadata.updated_at.millis
        }),
        anchor.metadata.title is Some ==> r.metadata.title == anchor.metadata.title,
        anchor.metadata.title is None ==> crate::adapter::opt_str_is(
            r.metadata.title,
            match incoming.metadata.title {
                Some(t) => Some(t@),
                None => None,
            },
        ),
        r.metadata.project_root@ == (if anchor.metadata.project_root@ == "/unknown"@
            && incoming.metadata.project_root@ != "/unknown"@ {
            incoming.metadata.project_root@
        } else {
            anchor.metadata.project_root@
        }),
        crate::store::aliases_spec(r.extensions@) == crate::store::aliases_added(
            crate::store::aliases_spec(anchor.extensions@),
            anchor.session_uid@,
            merge_alias_candidates(incoming),
        ),
        texts_of(r.source.source_files@) == crate::claude::dedup_first_texts(
            texts_of(anchor.source.source_files@) + texts_of(incoming.source.source_files@),
        ),
        (match crate::json::spec_get(incoming.raw_vendor_payload@, "lines"@) {
            Some(l) => l is Arr,
            None => false,
        }) ==> crate::json::spec_get(
            match crate::json::spec_get(r.raw_vendor_payload@, "backend_lines"@) {
                Some(b) => b,
                None => crate::json::JsonSpec::Null,
            },
            incoming.source.backend.key_spec(),
        ) == crate::json::spec_get(incoming.raw_vendor_payload@, "lines"@),
        crate::model::events_sorted(r.events@),
        r.sequences_dense(),
        crate::model::event_content_multiset(r.events@) == crate::model::event_content_multiset(
            dedup_by_full_key(anchor.events@ + incoming.events@),
        ),
        forall|i: int|
            0 <= i < anchor.events@.len() ==> #[trigger] full_key_covered(
                anchor.events@,
                r.events@,
                i,
            ),
        forall|i: int|
            0 <= i < incoming.events@.len() ==> #[trigger] full_key_covered(
                incoming.events@,
                r.events@,
                i,
            ),
        forall|p: int, q: int|
            0 <= p < q < r.source.source_files@.len() ==> (
            #[trigger] r.source.source_files@[p])@ != (#[trigger] r.source.source_files@[q])@,
{
    let ghost anchor_aliases = crate::store::aliases_spec(anchor.extensions@);
    let ghost incoming_alias_texts = crate::store::aliases_spec(incoming.extensions@);
    let mut merged = anchor;
    crate::store::ensure_shared_session_uid(&mut merged);
    if !crate::strutil::str_eq(incoming.session_uid.as_str(), merged.session_uid.as_str()) {
        crate::store::add_session_uid_alias(&mut merged, incoming.session_uid.as_str());
    }
    let ghost base1 = crate::store::alias_added(
        anchor_aliases,
        anchor.session_uid@,
        incoming.session_uid@,
    );
    proof {
        assert(crate::store::aliases_spec(merged.extensions@) == base1);
        assert(incoming_alias_texts.take(0) =~= Seq::<Seq<char>>::empty());
    }
    let incoming_aliases = crate::store::session_uid_aliases(&incoming);
    let mut ai: usize = 0;
    while ai < incoming_aliases.len()
        invariant
            ai <= incoming_aliases@.len(),
            texts_of(incoming_aliases@) == incoming_alias_texts,
            incoming_aliases@.len() == incoming_alias_texts.len(),
            forall|j: int|
                0 <= j < incoming_aliases@.len() ==> #[trigger] incoming_aliases@[j]@
                    == incoming_alias_texts[j],
            merged.session_uid == anchor.session_uid,
            merged.schema_version == anchor.schema_version,
            merged.source == anchor.source,
            merged.metadata == anchor.metadata,
            merged.events == anchor.events,
            merged.raw_vendor_payload == anchor.raw_vendor_payload,
            merged.shared_session_uid matches Some(u) && u@ == effective_shared(anchor),
            crate::store::aliases_spec(merged.extensions@) == crate::store::aliases_added(
                base1,
                anchor.session_uid@,
                incoming_alias_texts.take(ai as int),
            ),
        decreases incoming_aliases@.len() - ai,
    {
        proof {
            assert(incoming_alias_texts.take(ai + 1).drop_last() =~= incoming_alias_texts.take(
                ai as int,
            ));
            assert(incoming_alias_texts.take(ai + 1).last() == incoming_alias_texts[ai as int]);
        }
        crate::store::add_session_uid_alias(&mut merged, incoming_aliases[ai].as_str());
        ai = ai + 1;
    }
    proof {
        assert(incoming_alias_texts.take(incoming_alias_texts.len() as int)
            =~= incoming_alias_texts);
    }
    let ghost base2 = crate::store::aliases_added(
        base1,
        anchor.session_uid@,
        incoming_alias_texts,
    );
    match &incoming.shared_session_uid {
        Some(shared) => {
            if !crate::strutil::str_eq(shared.as_str(), merged.session_uid.as_str()) {
                crate::store::add_session_uid_alias(&mut merged, shared.as_str());
            }
        },
        None => {},
    }
    proof {
        let cands = merge_alias_candidates(incoming);
        let shared_part: Seq<Seq<char>> = match &incoming.shared_session_uid {
            Some(sh) => seq![sh@],
            None => Seq::empty(),
        };
        assert(crate::store::aliases_added(
            base1,
            anchor.session_uid@,
            Seq::<Seq<char>>::empty(),
        ) == base1);
        assert(seq![incoming.session_uid@].drop_last() =~= Seq::<Seq<char>>::empty());
        assert(seq![incoming.session_uid@].last() == incoming.session_uid@);
        assert(crate::store::aliases_added(
            anchor_aliases,
            anchor.session_uid@,
            seq![incoming.session_uid@].drop_last(),
        ) == anchor_aliases);
        assert(crate::store::aliases_added(
            anchor_aliases,
            anchor.session_uid@,
            seq![incoming.session_uid@],
        ) == base1);
        crate::store::lemma_aliases_added_concat(
            anchor_aliases,
            anchor.session_uid@,
            seq![incoming.session_uid@],
            incoming_alias_texts,
        );
        assert(seq![incoming.session_uid@] + incoming_alias_texts =~= (seq![
            incoming.session_uid@,
        ] + incoming_alias_texts));
        crate::store::lemma_aliases_added_concat(
            anchor_aliases,
            anchor.session_uid@,
            seq![incoming.session_uid@] + incoming_alias_texts,
            shared_part,
        );
        assert(cands =~= (seq![incoming.session_uid@] + incoming_alias_texts) + shared_part);
        let mid = crate::store::aliases_added(
            anchor_aliases,
            anchor.session_uid@,
            seq![incoming.session_uid@] + incoming_alias_texts,
        );
        assert(mid == base2);
        match &incoming.shared_session_uid {
            Some(sh) => {
                assert(shared_part.drop_last() =~= Seq::<Seq<char>>::empty());
                assert(shared_part.last() == sh@);
                assert(crate::store::aliases_added(mid, anchor.session_uid@, shared_part)
                    == crate::store::alias_added(mid, anchor.session_uid@, sh@)) by {
                    assert(crate::store::aliases_added(
                        mid,
                        anchor.session_uid@,
                        shared_part.drop_last(),
                    ) == mid);
                }
                assert(crate::store::aliases_spec(merged.extensions@)
                    == crate::store::alias_added(base2, anchor.session_uid@, sh@));
            },
            None => {
                assert(crate::store::aliases_added(mid, anchor.session_uid@, shared_part) == mid);
                assert(crate::store::aliases_spec(merged.extensions@) == base2);
            },
        }
        assert(crate::store::aliases_spec(merged.extensions@) == crate::store::aliases_added(
            anchor_aliases,
            anchor.session_uid@,
            cands,
        ));
    }
    crate::claude::merge_session_metadata(&mut merged, &incoming);
    let mut source_files = Vec::new();
    std::mem::swap(&mut source_files, &mut merged.source.source_files);
    let ghost anchor_file_texts = texts_of(anchor.source.source_files@);
    let ghost incoming_file_texts = texts_of(incoming.source.source_files@);
    let mut ii: usize = 0;
    proof {
        assert(texts_of(source_files@) =~= anchor_file_texts + incoming_file_texts.take(0));
    }
    while ii < incoming.source.source_files.len()
        invariant
            ii <= incoming.source.source_files@.len(),
            incoming_file_texts == texts_of(incoming.source.source_files@),
            incoming_file_texts.len() == incoming.source.source_files@.len(),
            forall|j: int|
                0 <= j < incoming.source.source_files@.len()
                    ==> #[trigger] incoming_file_texts[j] == incoming.source.source_files@[j]@,
            texts_of(source_files@) == anchor_file_texts + incoming_file_texts.take(ii as int),
        decreases incoming.source.source_files@.len() - ii,
    {
        let ghost before = source_files@;
        source_files.push(crate::json::clone_string(&incoming.source.source_files[ii]));
        proof {
            assert(texts_of(source_files@) =~= texts_of(before).push(
                incoming.source.source_files@[ii as int]@,
            ));
            assert(anchor_file_texts + incoming_file_texts.take(ii + 1) =~= (anchor_file_texts
                + incoming_file_texts.take(ii as int)).push(incoming_file_texts[ii as int]));
            assert(texts_of(source_files@) =~= anchor_file_texts + incoming_file_texts.take(
                ii + 1,
            ));
        }
        ii = ii + 1;
    }
    proof {
        assert(incoming_file_texts.take(incoming_file_texts.len() as int)
            =~= incoming_file_texts);
        assert(texts_of(source_files@) == anchor_file_texts + incoming_file_texts);
    }
    merged.source.source_files = crate::claude::dedupe_strings_preserve_order(source_files);
    crate::store::upsert_backend_raw_lines(
        &mut merged.raw_vendor_payload,
        incoming.source.backend.as_str(),
        &incoming.raw_vendor_payload,
    );
    let mut events = Vec::new();
    std::mem::swap(&mut events, &mut merged.events);
    let ghost anchor_events = events@;
    let mut incoming_events = incoming.events;
    let ghost incoming_snapshot = incoming_events@;
    let mut k: usize = 0;
    let total_inc = incoming_events.len();
    proof {
        assert(incoming_snapshot.skip(0) =~= incoming_snapshot);
        assert(events@ =~= anchor_events + incoming_snapshot.take(0));
    }
    while incoming_events.len() > 0
        invariant
            k <= incoming_snapshot.len() <= usize::MAX,
            incoming_events@ == incoming_snapshot.skip(k as int),
            events@ == anchor_events + incoming_snapshot.take(k as int),
        decreases incoming_events@.len(),
    {
        let e = incoming_events.remove(0);
        proof {
            assert(e == incoming_snapshot[k as int]);
            assert(incoming_snapshot.skip(k as int).remove(0) =~= incoming_snapshot.skip(k + 1));
        }
        events.push(e);
        proof {
            assert(events@ =~= anchor_events + incoming_snapshot.take(k + 1));
        }
        k = k + 1;
    }
    proof {
        assert(incoming_snapshot.skip(k as int).len() == 0);
        assert(incoming_snapshot.take(k as int) =~= incoming_snapshot);
        assert(events@ == anchor_events + incoming_snapshot);
    }
    let ghost concatenated = events@;
    let mut deduped = dedupe_events_by_full_key(events);
    let ghost deduped_snapshot = deduped@;
    crate::model::canonical_sort_events(&mut deduped);
    proof {
        assert forall|i: int|
            0 <= i < anchor_events.len() implies #[trigger] full_key_covered(
            anchor_events,
            deduped@,
            i,
        ) by {
            assert(concatenated[i] == anchor_events[i]);
            assert(full_key_covered(concatenated, deduped_snapshot, i));
            let j = choose|j: int|
                0 <= j < deduped_snapshot.len() && event_full_key(#[trigger] deduped_snapshot[j])
                    == event_full_key(concatenated[i]);
            assert(full_key_covered(anchor_events, deduped_snapshot, i));
            lemma_coverage_via_sketches(anchor_events, deduped_snapshot, deduped@, i);
        }
        assert forall|i: int|
            0 <= i < incoming_snapshot.len() implies #[trigger] full_key_covered(
            incoming_snapshot,
            deduped@,
            i,
        ) by {
            let ci = anchor_events.len() + i;
            assert(concatenated[ci] == incoming_snapshot[i]);
            assert(full_key_covered(concatenated, deduped_snapshot, ci));
            let j = choose|j: int|
                0 <= j < deduped_snapshot.len() && event_full_key(#[trigger] deduped_snapshot[j])
                    == event_full_key(concatenated[ci]);
            assert(full_key_covered(incoming_snapshot, deduped_snapshot, i));
            lemma_coverage_via_sketches(incoming_snapshot, deduped_snapshot, deduped@, i);
        }
    }
    merged.events = deduped;
    merged
}

/// One rung of the upsert ladder hits: a stored session is the same logical
/// session as the imported one.
pub open spec fn upsert_hit(
    stored: SteadSession,
    imported_uid: Seq<char>,
    imported_shared: Seq<char>,
    key: Seq<char>,
    native_id: Seq<char>,
) -> bool {
    ||| (native_ref_spec(stored.extensions@, key) matches Some(p) && p.0 == native_id)
    ||| stored.session_uid@ == imported_uid
    ||| effective_shared(stored) == imported_shared
    ||| aliases_spec(stored.extensions@).contains(imported_uid)
}

/// Inserts an imported session into the in-memory store, or merges it into
/// the stored session the identity ladder finds: by native reference, UID,
/// shared UID, then alias.  Returns the index holding the result.
pub fn upsert_synced_session(
    stored: &mut Vec<SteadSession>,
    imported: SteadSession,
    backend: Backend,
    native_id: &str,
    native_path: &str,
) -> (idx: usize)
    ensures
        idx < final(stored)@.len(),
        (exists|i: int|
            0 <= i < old(stored)@.len() && upsert_hit(
                #[trigger] old(stored)@[i],
                imported.session_uid@,
                effective_shared(imported),
                backend.key_spec(),
                native_id@,
            )) ==> final(stored)@.len() == old(stored)@.len(),
        !(exists|i: int|
            0 <= i < old(stored)@.len() && upsert_hit(
                #[trigger] old(stored)@[i],
                imported.session_uid@,
                effective_shared(imported),
                backend.key_spec(),
                native_id@,
            )) ==> final(stored)@.len() == old(stored)@.len() + 1,
        crate::store::native_ref_spec(final(stored)@[idx as int].extensions@, backend.key_spec())
            == Some((native_id@, native_path@)),
        forall|j: int|
            0 <= j < old(stored)@.len() && j != idx ==> #[trigger] final(stored)@[j] == old(
                stored,
            )@[j],
        // the written slot: on a hit it is the merge of the stored anchor
        // with the import, on a miss the import itself
        ({
            let slot = final(stored)@[idx as int];
            &&& final(stored)@.len() == old(stored)@.len() + 1 ==> {
                &&& slot.session_uid == imported.session_uid
                &&& slot.schema_version == imported.schema_version
                &&& slot.source == imported.source
                &&& slot.metadata == imported.metadata
                &&& slot.events == imported.events
                &&& slot.shared_session_uid matches Some(u) && u@ == effective_shared(imported)
            }
            &&& final(stored)@.len() == old(stored)@.len() ==> {
                let anchor = old(stored)@[idx as int];
                &&& slot.session_uid == anchor.session_uid
                &&& slot.schema_version == anchor.schema_version
                &&& slot.source.backend == anchor.source.backend
                &&& slot.source.original_session_id == anchor.source.original_session_id
                &&& slot.shared_session_uid matches Some(u) && u@ == effective_shared(anchor)
                &&& slot.metadata.created_at.millis == (if imported.metadata.created_at.millis
                    < anchor.metadata.created_at.millis {
                    imported.metadata.created_at.millis
                } else {
                    anchor.metadata.created_at.millis
                })
                &&& slot.metadata.updated_at.millis == (if imported.metadata.updated_at.millis
                    > anchor.metadata.updated_at.millis {
                    imported.metadata.updated_at.millis
                } else {
                    anchor.metadata.updated_at.millis
                })
                &&& anchor.metadata.title is Some ==> slot.metadata.title == anchor.metadata.title
                &&& crate::model::events_sorted(slot.events@)
                &&& slot.sequences_dense()
                &&& crate::model::event_content_multiset(slot.events@)
                    == crate::model::event_content_multiset(
                    dedup_by_full_key(anchor.events@ + imported.events@),
                )
                &&& forall|i: int|
                    0 <= i < anchor.events@.len() ==> #[trigger] full_key_covered(
                        anchor.events@,
                        slot.events@,
                        i,
                    )
                &&& forall|i: int|
                    0 <= i < imported.events@.len() ==> #[trigger] full_key_covered(
                        imported.events@,
                        slot.events@,
                        i,
                    )
            }
        }),
{
    let mut imported = imported;
    crate::store::ensure_shared_session_uid(&mut imported);
    crate::store::set_native_ref(
        &mut imported,
        backend_key(backend),
        native_id,
        native_path,
    );
    let ghost iu = imported.session_uid@;
    let ghost ish = effective_shared(imported);
    let key = backend_key(backend);
    let imported_shared: String = match &imported.shared_session_uid {
        Some(u) => crate::json::clone_string(u),
        None => crate::json::clone_string(&imported.session_uid),
    };
    let mut target: Option<usize> = None;
    let mut i: usize = 0;
    while i < stored.len()
        invariant_except_break
            target is None,
        invariant
            stored@ == old(stored)@,
            key@ == backend.key_spec(),
            iu == imported.session_uid@,
            ish == effective_shared(imported),
            imported_shared@ == ish,
            i <= stored@.len(),
            forall|j: int|
                0 <= j < i ==> !upsert_hit(
                    #[trigger] stored@[j],
                    iu,
                    ish,
                    backend.key_spec(),
                    native_id@,
                ),
        ensures
            stored@ == old(stored)@,
            match target {
                Some(t) => t < stored@.len() && upsert_hit(
                    stored@[t as int],
                    iu,
                    ish,
                    backend.key_spec(),
                    native_id@,
                ),
                None => forall|j: int|
                    0 <= j < stored@.len() ==> !upsert_hit(
                        #[trigger] stored@[j],
                        iu,
                        ish,
                        backend.key_spec(),
                        native_id@,
                    ),
            },
        decreases stored@.len() - i,
    {
        let mut hit = false;
        match crate::store::get_native_ref(&stored[i], key) {
            Some(p) => {
                if crate::strutil::str_eq(p.0.as_str(), native_id) {
                    hit = true;
                }
            },
            None => {},
        }
        if !hit && crate::strutil::str_eq(
            stored[i].session_uid.as_str(),
            imported.session_uid.as_str(),
        ) {
            hit = true;
        }
        if !hit {
            let eff: &String = match &stored[i].shared_session_uid {
                Some(u) => u,
                None => &stored[i].session_uid,
            };
            if crate::strutil::str_eq(eff.as_str(), imported_shared.as_str()) {
                hit = true;
            }
        }
        if !hit {
            let aliases = crate::store::session_uid_aliases(&stored[i]);
            let ghost alias_views = aliases_spec(stored@[i as int].extensions@);
            let mut aj: usize = 0;
            while aj < aliases.len()
                invariant_except_break
                    !hit,
                    forall|t: int| 0 <= t < aj ==> #[trigger] alias_views[t] != iu,
                invariant
                    crate::adapter::texts_of(aliases@) == alias_views,
                    aliases@.len() == alias_views.len(),
                    forall|j: int|
                        0 <= j < aliases@.len() ==> #[trigger] aliases@[j]@ == alias_views[j],
                    iu == imported.session_uid@,
                    aj <= aliases@.len(),
                ensures
                    hit ==> alias_views.contains(iu),
                    !hit ==> !alias_views.contains(iu),
                decreases aliases@.len() - aj,
            {
                if crate::strutil::str_eq(aliases[aj].as_str(), imported.session_uid.as_str()) {
                    hit = true;
                    proof {
                        assert(alias_views[aj as int] == iu);
                        assert(alias_views.contains(iu));
                    }
                    break ;
                }
                aj = aj + 1;
                proof {
                    if aj == aliases@.len() {
                        if alias_views.contains(iu) {
                            let t = choose|t: int|
                                0 <= t < alias_views.len() && alias_views[t] == iu;
                            assert(alias_views[t] != iu);
                        }
                    }
                }
            }
            proof {
                if aliases@.len() == 0 && alias_views.contains(iu) {
                    let t = choose|t: int| 0 <= t < alias_views.len() && alias_views[t] == iu;
                }
            }
        }
        if hit {
            target = Some(i);
            break ;
        }
        i = i + 1;
    }
    match target {
        Some(idx) => {
            let ghost before = stored@;
            let anchor = stored.remove(idx);
            let mut merged = merge_sessions(anchor, imported);
            crate::store::set_native_ref(&mut merged, key, native_id, native_path);
            crate::store::ensure_shared_session_uid(&mut merged);
            stored.insert(idx, merged);
            proof {
                assert(stored@.len() == before.len());
                assert(upsert_hit(
                    before[idx as int],
                    iu,
                    ish,
                    backend.key_spec(),
                    native_id@,
                ));
                assert forall|j: int|
                    0 <= j < before.len() && j != idx implies #[trigger] stored@[j]
                    == before[j] by {
                    if j < idx {
                        assert(stored@[j] == before.remove(idx as int).insert(
                            idx as int,
                            merged,
                        )[j]);
                    }
                }
            }
            idx
        },
        None => {
            let idx = stored.len();
            stored.push(imported);
            proof {
                assert(stored@.len() == old(stored)@.len() + 1);
            }
            idx
        },
    }
}


/// Sync idempotence at the store level: once a session is stored with a
/// backend's native reference, importing the same native session again
/// finds it, so a repeated sync cannot grow the store.  Together with
/// `upsert_synced_session`'s length clauses this is the upsert-identity
/// guarantee: the store counts logical sessions, not invocations.
pub proof fn lemma_repeated_upsert_hits(
    stored: Seq<SteadSession>,
    i: int,
    uid: Seq<char>,
    shared: Seq<char>,
    key: Seq<char>,
    native_id: Seq<char>,
)
    requires
        0 <= i < stored.len(),
        native_ref_spec(stored[i].extensions@, key) matches Some(p) && p.0 == native_id,
    ensures
        exists|j: int|
            0 <= j < stored.len() && upsert_hit(#[trigger] stored[j], uid, shared, key, native_id),
{
    assert(upsert_hit(stored[i], uid, shared, key, native_id));
}


} // verus!
