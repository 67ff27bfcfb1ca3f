//! The canonical store's naming and lookup rules, and the extension fields
//! (`native_refs`, `session_uid_aliases`) the synchronizer maintains.
//! Reading and writing the files themselves happens outside the crate.

use vstd::prelude::*;

use crate::json::JsonValue;
use crate::model::SteadSession;

verus! {

use crate::json::JsonSpec;
use crate::json::spec_get;
use crate::json::spec_get_str;

/// How one character of a UID lands in a file name.
pub open spec fn sanitize_char(c: char) -> char {
    if ('a' <= c && c <= 'z') || ('A' <= c && c <= 'Z') || ('0' <= c && c <= '9') || c == '-' || c
        == '_' || c == '.' {
        c
    } else {
        '_'
    }
}

/// The sanitized form of a UID.
pub open spec fn sanitized(s: Seq<char>) -> Seq<char> {
    Seq::new(s.len(), |i: int| sanitize_char(s[i]))
}

/// The store file name of a session UID:
/// `<sanitized>-<shorthash>.json`, `session-<shorthash>.json` when the UID
/// is empty.
pub open spec fn canonical_file_name_spec(uid: Seq<char>) -> Seq<char> {
    if sanitized(uid).len() == 0 {
        "session-"@ + crate::ids::short_hash_of(uid) + ".json"@
    } else {
        sanitized(uid) + "-"@ + crate::ids::short_hash_of(uid) + ".json"@
    }
}

/// The file name a session UID is stored under.
pub fn canonical_file_name(uid: &str) -> (r: String)
    ensures
        r@ == canonical_file_name_spec(uid@),
{
    let n = uid.unicode_len();
    let mut out = String::new();
    if n == 0 {
        out.append("session-");
        proof {
            assert(sanitized(uid@) =~= Seq::<char>::empty());
        }
    } else {
        let mut i: usize = 0;
        while i < n
            invariant
                n == uid@.len(),
                i <= n,
                out@ == sanitized(uid@).take(i as int),
            decreases n - i,
        {
            let c = uid.get_char(i);
            let keep = (c >= 'a' && c <= 'z') || (c >= 'A' && c <= 'Z') || (c >= '0' && c <= '9')
                || c == '-' || c == '_' || c == '.';
            proof {
                reveal_strlit("_");
                assert("_"@ =~= seq!['_']);
                assert(uid@.subrange(i as int, i + 1) =~= seq![uid@[i as int]]);
                assert(sanitized(uid@).take(i + 1) =~= sanitized(uid@).take(i as int).push(
                    sanitize_char(uid@[i as int]),
                ));
            }
            if keep {
                let piece = uid.substring_char(i, i + 1);
                out.append(piece);
            } else {
                out.append("_");
            }
            i = i + 1;
        }
        out.append("-");
        proof {
            assert(sanitized(uid@).take(n as int) =~= sanitized(uid@));
        }
    }
    let hash = crate::ids::short_hash(uid);
    out.append(hash.as_str());
    out.append(".json");
    out
}

/// A session's recorded alias UIDs: every string in the
/// `session_uid_aliases` array, in order.
pub open spec fn aliases_spec(extensions: JsonSpec) -> Seq<Seq<char>> {
    match spec_get(extensions, "session_uid_aliases"@) {
        Some(JsonSpec::Arr(items)) => crate::json::strings_in(items),
        _ => Seq::empty(),
    }
}

/// The alias UIDs a session carries.
pub fn session_uid_aliases(session: &SteadSession) -> (r: Vec<String>)
    ensures
        crate::adapter::texts_of(r@) == aliases_spec(session.extensions@),
{
    let mut out: Vec<String> = Vec::new();
    proof {
        assert(crate::adapter::texts_of(out@) =~= Seq::<Seq<char>>::empty());
    }
    let items = match session.extensions.get("session_uid_aliases") {
        Some(c) => match c {
            JsonValue::Arr(items) => items,
            _ => {
                return out;
            },
        },
        None => {
            return out;
        },
    };
    let ghost items_v = crate::json::jspec_seq(items@);
    proof {
        crate::json::lemma_jspec_seq_pointwise(items@);
        assert(items_v.take(0) =~= Seq::<JsonSpec>::empty());
        assert(crate::adapter::texts_of(out@) =~= crate::json::strings_in(items_v.take(0)));
    }
    let mut i: usize = 0;
    while i < items.len()
        invariant
            items_v.len() == items@.len(),
            forall|j: int| 0 <= j < items@.len() ==> #[trigger] items_v[j] == items@[j]@,
            aliases_spec(session.extensions@) == crate::json::strings_in(items_v),
            i <= items@.len(),
            crate::adapter::texts_of(out@) == crate::json::strings_in(items_v.take(i as int)),
        decreases items@.len() - i,
    {
        proof {
            assert(items_v.take(i + 1).drop_last() =~= items_v.take(i as int));
            assert(items_v.take(i + 1).last() == items_v[i as int]);
        }
        match items[i].as_str() {
            Some(s) => {
                let ghost before = out@;
                out.push(s.to_owned());
                proof {
                    assert(crate::adapter::texts_of(out@) =~= crate::adapter::texts_of(
                        before,
                    ).push(s@));
                    assert(crate::json::strings_in(items_v.take(i + 1)) =~= crate::json::strings_in(
                        items_v.take(i as int),
                    ).push(s@));
                }
            },
            None => {
                proof {
                    assert(crate::json::strings_in(items_v.take(i + 1)) =~= crate::json::strings_in(
                        items_v.take(i as int),
                    ));
                }
            },
        }
        i = i + 1;
    }
    proof {
        assert(items_v.take(items_v.len() as int) =~= items_v);
    }
    out
}

/// Whether a stored session answers a lookup string: by UID, shared UID or
/// any alias.
pub open spec fn lookup_matches_spec(s: SteadSession, lookup: Seq<char>) -> bool {
    ||| s.session_uid@ == lookup
    ||| (s.shared_session_uid matches Some(u) && u@ == lookup)
    ||| aliases_spec(s.extensions@).contains(lookup)
}

/// Whether this stored session answers a lookup string.
pub fn canonical_lookup_matches(session: &SteadSession, lookup: &str) -> (r: bool)
    ensures
        r == lookup_matches_spec(*session, lookup@),
{
    if crate::strutil::str_eq(session.session_uid.as_str(), lookup) {
        return true;
    }
    match &session.shared_session_uid {
        Some(u) => {
            if crate::strutil::str_eq(u.as_str(), lookup) {
                return true;
            }
        },
        None => {},
    }
    let aliases = session_uid_aliases(session);
    let ghost alias_views = aliases_spec(session.extensions@);
    let mut i: usize = 0;
    while i < aliases.len()
        invariant
            alias_views == aliases_spec(session.extensions@),
            crate::adapter::texts_of(aliases@) == alias_views,
            aliases@.len() == alias_views.len(),
            forall|j: int| 0 <= j < aliases@.len() ==> #[trigger] aliases@[j]@ == alias_views[j],
            i <= aliases@.len(),
            forall|j: int| 0 <= j < i ==> #[trigger] alias_views[j] != lookup@,
        decreases aliases@.len() - i,
    {
        if crate::strutil::str_eq(aliases[i].as_str(), lookup) {
            proof {
                assert(alias_views[i as int] == lookup@);
                assert(alias_views.contains(lookup@));
            }
            return true;
        }
        i = i + 1;
    }
    proof {
        if alias_views.contains(lookup@) {
            let j = choose|j: int| 0 <= j < alias_views.len() && alias_views[j] == lookup@;
            assert(alias_views[j] != lookup@);
        }
    }
    false
}

/// Fills the shared UID from the session's own UID when it is unset;
/// reports whether anything changed.
pub fn ensure_shared_session_uid(session: &mut SteadSession) -> (changed: bool)
    ensures
        changed == (old(session).shared_session_uid is None),
        final(session).shared_session_uid matches Some(u) && u@ == (match old(
            session,
        ).shared_session_uid {
            Some(v) => v@,
            None => old(session).session_uid@,
        }),
        final(session).session_uid == old(session).session_uid,
        final(session).schema_version == old(session).schema_version,
        final(session).source == old(session).source,
        final(session).metadata == old(session).metadata,
        final(session).events == old(session).events,
        final(session).artifacts == old(session).artifacts,
        final(session).capabilities == old(session).capabilities,
        final(session).extensions == old(session).extensions,
        final(session).lineage == old(session).lineage,
        final(session).raw_vendor_payload == old(session).raw_vendor_payload,
{
    if session.shared_session_uid.is_none() {
        session.shared_session_uid = Some(crate::json::clone_string(&session.session_uid));
        true
    } else {
        false
    }
}

/// One alias recorded: skipped when empty, the session's own UID, or
/// already present; appended otherwise.
pub open spec fn alias_added(aliases: Seq<Seq<char>>, self_uid: Seq<char>, a: Seq<char>) -> Seq<
    Seq<char>,
> {
    if a.len() == 0 || a == self_uid || aliases.contains(a) {
        aliases
    } else {
        aliases.push(a)
    }
}

/// A list of candidate aliases recorded left to right.
pub open spec fn aliases_added(
    aliases: Seq<Seq<char>>,
    self_uid: Seq<char>,
    cands: Seq<Seq<char>>,
) -> Seq<Seq<char>>
    decreases cands.len(),
{
    if cands.len() == 0 {
        aliases
    } else {
        alias_added(aliases_added(aliases, self_uid, cands.drop_last()), self_uid, cands.last())
    }
}

/// Recording candidates in two runs is one run over their concatenation.
pub proof fn lemma_aliases_added_concat(
    aliases: Seq<Seq<char>>,
    self_uid: Seq<char>,
    a: Seq<Seq<char>>,
    b: Seq<Seq<char>>,
)
    ensures
        aliases_added(aliases, self_uid, a + b) == aliases_added(
            aliases_added(aliases, self_uid, a),
            self_uid,
            b,
        ),
    decreases b.len(),
{
    if b.len() == 0 {
        assert(a + b =~= a);
    } else {
        lemma_aliases_added_concat(aliases, self_uid, a, b.drop_last());
        assert((a + b).drop_last() =~= a + b.drop_last());
        assert((a + b).last() == b.last());
    }
}

/// Records an alias UID, skipping empty strings, the session's own UID and
/// aliases already present.
pub fn add_session_uid_alias(session: &mut SteadSession, alias: &str)
    ensures
        final(session).session_uid == old(session).session_uid,
        final(session).shared_session_uid == old(session).shared_session_uid,
        final(session).schema_version == old(session).schema_version,
        final(session).events == old(session).events,
        final(session).source == old(session).source,
        final(session).metadata == old(session).metadata,
        final(session).artifacts == old(session).artifacts,
        final(session).capabilities == old(session).capabilities,
        final(session).lineage == old(session).lineage,
        final(session).raw_vendor_payload == old(session).raw_vendor_payload,
        aliases_spec(final(session).extensions@) == alias_added(
            aliases_spec(old(session).extensions@),
            old(session).session_uid@,
            alias@,
        ),
{
    if alias.unicode_len() == 0 {
        return ;
    }
    if crate::strutil::str_eq(alias, session.session_uid.as_str()) {
        return ;
    }
    let existing = session_uid_aliases(session);
    let ghost alias_views = aliases_spec(session.extensions@);
    let mut i: usize = 0;
    while i < existing.len()
        invariant
            *session == *old(session),
            alias_views == aliases_spec(session.extensions@),
            crate::adapter::texts_of(existing@) == alias_views,
            existing@.len() == alias_views.len(),
            forall|j: int| 0 <= j < existing@.len() ==> #[trigger] existing@[j]@ == alias_views[j],
            i <= existing@.len(),
            forall|j: int| 0 <= j < i ==> #[trigger] alias_views[j] != alias@,
        decreases existing@.len() - i,
    {
        if crate::strutil::str_eq(existing[i].as_str(), alias) {
            proof {
                assert(alias_views[i as int] == alias@);
                assert(alias_views.contains(alias@));
            }
            return ;
        }
        i = i + 1;
    }
    proof {
        if alias_views.contains(alias@) {
            let j = choose|j: int| 0 <= j < alias_views.len() && alias_views[j] == alias@;
            assert(alias_views[j] != alias@);
        }
    }
    // rebuild the array with the alias appended
    let mut items: Vec<JsonValue> = Vec::new();
    let mut k: usize = 0;
    proof {
        assert(crate::json::jspec_seq(items@) =~= Seq::<JsonSpec>::empty());
        assert(crate::json::strings_in(crate::json::jspec_seq(items@)) =~= alias_views.take(0));
    }
    while k < existing.len()
        invariant
            existing@.len() == alias_views.len(),
            forall|j: int| 0 <= j < existing@.len() ==> #[trigger] existing@[j]@ == alias_views[j],
            k <= existing@.len(),
            crate::json::strings_in(crate::json::jspec_seq(items@)) == alias_views.take(k as int),
        decreases existing@.len() - k,
    {
        let ghost before = items@;
        items.push(JsonValue::Str(crate::json::clone_string(&existing[k])));
        proof {
            crate::json::lemma_jspec_seq_pointwise(before);
            crate::json::lemma_jspec_seq_pointwise(items@);
            assert(crate::json::jspec_seq(items@) =~= crate::json::jspec_seq(before).push(
                JsonSpec::Str(alias_views[k as int]),
            ));
            assert(crate::json::jspec_seq(items@).drop_last() =~= crate::json::jspec_seq(before));
            assert(crate::json::jspec_seq(items@).last() == JsonSpec::Str(alias_views[k as int]));
            assert(crate::json::strings_in(crate::json::jspec_seq(items@)) =~= crate::json::strings_in(
                crate::json::jspec_seq(before),
            ).push(alias_views[k as int]));
            assert(alias_views.take(k + 1) =~= alias_views.take(k as int).push(
                alias_views[k as int],
            ));
        }
        k = k + 1;
    }
    let ghost before_last = items@;
    items.push(JsonValue::str_of(alias));
    proof {
        crate::json::lemma_jspec_seq_pointwise(before_last);
        crate::json::lemma_jspec_seq_pointwise(items@);
        assert(crate::json::jspec_seq(items@) =~= crate::json::jspec_seq(before_last).push(
            JsonSpec::Str(alias@),
        ));
        assert(crate::json::jspec_seq(items@).drop_last() =~= crate::json::jspec_seq(
            before_last,
        ));
        assert(crate::json::jspec_seq(items@).last() == JsonSpec::Str(alias@));
        assert(crate::json::strings_in(crate::json::jspec_seq(items@)) =~= crate::json::strings_in(
            crate::json::jspec_seq(before_last),
        ).push(alias@));
        assert(alias_views.take(alias_views.len() as int) =~= alias_views);
    }
    let ghost final_items = crate::json::jspec_seq(items@);
    let arr = JsonValue::Arr(items);
    proof {
        assert(arr@ == JsonSpec::Arr(final_items));
    }
    session.extensions.set("session_uid_aliases", arr);
    proof {
        crate::json::lemma_lookup_set_entry(
            if old(session).extensions@ is Obj {
                old(session).extensions@->Obj_0
            } else {
                Seq::empty()
            },
            "session_uid_aliases"@,
            JsonSpec::Arr(final_items),
            "session_uid_aliases"@,
        );
    }
}


/// What a recorded native reference looks like.
pub open spec fn native_ref_obj(native_id: Seq<char>, path: Seq<char>) -> JsonSpec {
    JsonSpec::Obj(
        seq![
            ("session_id"@, JsonSpec::Str(native_id)),
            ("path"@, JsonSpec::Str(path)),
        ],
    )
}

/// The native reference a session records for a backend key.
pub open spec fn native_ref_spec(extensions: JsonSpec, key: Seq<char>) -> Option<
    (Seq<char>, Seq<char>),
> {
    match spec_get(extensions, "native_refs"@) {
        Some(refs) => match spec_get(refs, key) {
            Some(entry) => match (
                spec_get_str(entry, "session_id"@),
                spec_get_str(entry, "path"@),
            ) {
                (Some(id), Some(p)) => Some((id, p)),
                _ => None,
            },
            None => None,
        },
        None => None,
    }
}

/// Records the native projection of this session for a backend key.
pub fn set_native_ref(session: &mut SteadSession, key: &str, native_id: &str, path: &str)
    ensures
        final(session).session_uid == old(session).session_uid,
        final(session).shared_session_uid == old(session).shared_session_uid,
        final(session).schema_version == old(session).schema_version,
        final(session).events == old(session).events,
        final(session).source == old(session).source,
        final(session).metadata == old(session).metadata,
        final(session).artifacts == old(session).artifacts,
        final(session).capabilities == old(session).capabilities,
        final(session).lineage == old(session).lineage,
        final(session).raw_vendor_payload == old(session).raw_vendor_payload,
        native_ref_spec(final(session).extensions@, key@) == Some((native_id@, path@)),
        forall|k2: Seq<char>|
            k2 != "native_refs"@ ==> #[trigger] spec_get(final(session).extensions@, k2)
                == spec_get(
                if old(session).extensions@ is Obj {
                    old(session).extensions@
                } else {
                    JsonSpec::Obj(Seq::empty())
                },
                k2,
            ),
        forall|k2: Seq<char>|
            k2 != key@ ==> #[trigger] native_ref_spec(final(session).extensions@, k2)
                == native_ref_spec(
                if old(session).extensions@ is Obj {
                    old(session).extensions@
                } else {
                    JsonSpec::Obj(Seq::empty())
                },
                k2,
            ),
{
    let mut entry: Vec<(String, JsonValue)> = Vec::new();
    entry.push((String::from_str("session_id"), JsonValue::str_of(native_id)));
    entry.push((String::from_str("path"), JsonValue::str_of(path)));
    let ghost entry_snap = entry@;
    let entry_obj = JsonValue::Obj(entry);
    proof {
        crate::json::lemma_jspec_entries_pointwise(entry_snap);
        assert(crate::json::jspec_entries(entry_snap) =~= native_ref_obj(
            native_id@,
            path@,
        )->Obj_0);
        assert(entry_obj@ =~= native_ref_obj(native_id@, path@));
    }
    let mut refs = match session.extensions.get("native_refs") {
        Some(v) => match v {
            JsonValue::Obj(_) => v.deep_clone(),
            _ => JsonValue::obj_empty(),
        },
        None => JsonValue::obj_empty(),
    };
    let ghost refs_before = refs@;
    refs.set(key, entry_obj);
    let ghost old_ext = if old(session).extensions@ is Obj {
        old(session).extensions@
    } else {
        JsonSpec::Obj(Seq::empty())
    };
    let ghost refs_after = refs@;
    session.extensions.set("native_refs", refs);
    proof {
        reveal_strlit("session_id");
        reveal_strlit("path");
        assert("session_id"@.len() == 10);
        assert("path"@.len() == 4);
        let e = native_ref_obj(native_id@, path@);
        assert(crate::json::lookup(e->Obj_0, "session_id"@) == Some(
            JsonSpec::Str(native_id@),
        ));
        assert(e->Obj_0.drop_first() =~= seq![("path"@, JsonSpec::Str(path@))]);
        assert(crate::json::lookup(e->Obj_0.drop_first(), "path"@) == Some(
            JsonSpec::Str(path@),
        ));
        assert(crate::json::lookup(e->Obj_0, "path"@) == Some(JsonSpec::Str(path@)));
        let base = if old(session).extensions@ is Obj {
            old(session).extensions@->Obj_0
        } else {
            Seq::empty()
        };
        assert forall|k2: Seq<char>|
            k2 != "native_refs"@ implies #[trigger] spec_get(final(session).extensions@, k2)
            == spec_get(old_ext, k2) by {
            crate::json::lemma_lookup_set_entry(
                base,
                "native_refs"@,
                refs_after,
                k2,
            );
        }
        crate::json::lemma_lookup_set_entry(
            base,
            "native_refs"@,
            refs_after,
            "native_refs"@,
        );
        let refs_base = if refs_before is Obj {
            refs_before->Obj_0
        } else {
            Seq::empty()
        };
        crate::json::lemma_lookup_set_entry(
            refs_base,
            key@,
            native_ref_obj(native_id@, path@),
            key@,
        );
        assert forall|k2: Seq<char>|
            k2 != key@ implies #[trigger] native_ref_spec(final(session).extensions@, k2)
            == native_ref_spec(old_ext, k2) by {
            crate::json::lemma_lookup_set_entry(
                base,
                "native_refs"@,
                refs_after,
                "native_refs"@,
            );
            crate::json::lemma_lookup_set_entry(
                refs_base,
                key@,
                native_ref_obj(native_id@, path@),
                k2,
            );
        }
    }
}

/// Reads the native projection this session records for a backend key.
pub fn get_native_ref(session: &SteadSession, key: &str) -> (r: Option<(String, String)>)
    ensures
        match r {
            Some(p) => native_ref_spec(session.extensions@, key@) == Some((p.0@, p.1@)),
            None => native_ref_spec(session.extensions@, key@) is None,
        },
{
    let refs = match session.extensions.get("native_refs") {
        Some(v) => v,
        None => {
            return None;
        },
    };
    let entry = match refs.get(key) {
        Some(v) => v,
        None => {
            return None;
        },
    };
    let id = match entry.get_str("session_id") {
        Some(v) => v.to_owned(),
        None => {
            return None;
        },
    };
    let p = match entry.get_str("path") {
        Some(v) => v.to_owned(),
        None => {
            return None;
        },
    };
    Some((id, p))
}

/// Stores the incoming capture's raw lines under
/// `backend_lines.<backend key>` of the anchor's raw payload.
pub fn upsert_backend_raw_lines(anchor_raw: &mut JsonValue, backend_key: &str, incoming_raw: &JsonValue)
    ensures
        (match spec_get(incoming_raw@, "lines"@) {
            Some(l) => l is Arr,
            None => false,
        }) ==> spec_get(
            match spec_get(final(anchor_raw)@, "backend_lines"@) {
                Some(b) => b,
                None => JsonSpec::Null,
            },
            backend_key@,
        ) == spec_get(incoming_raw@, "lines"@),
        !(match spec_get(incoming_raw@, "lines"@) {
            Some(l) => l is Arr,
            None => false,
        }) ==> final(anchor_raw)@ == old(anchor_raw)@,
{
    let lines = match incoming_raw.get("lines") {
        Some(c) => match c {
            JsonValue::Arr(_) => c.deep_clone(),
            _ => {
                return ;
            },
        },
        None => {
            return ;
        },
    };
    let ghost lines_v = lines@;
    let mut backend_lines = match anchor_raw.get("backend_lines") {
        Some(v) => match v {
            JsonValue::Obj(_) => v.deep_clone(),
            _ => JsonValue::obj_empty(),
        },
        None => JsonValue::obj_empty(),
    };
    let ghost bl_before = backend_lines@;
    backend_lines.set(backend_key, lines);
    let ghost bl_after = backend_lines@;
    anchor_raw.set("backend_lines", backend_lines);
    proof {
        let bl_base = if bl_before is Obj {
            bl_before->Obj_0
        } else {
            Seq::empty()
        };
        crate::json::lemma_lookup_set_entry(bl_base, backend_key@, lines_v, backend_key@);
        let base = if old(anchor_raw)@ is Obj {
            old(anchor_raw)@->Obj_0
        } else {
            Seq::empty()
        };
        crate::json::lemma_lookup_set_entry(base, "backend_lines"@, bl_after, "backend_lines"@);
    }
}


} // verus!
