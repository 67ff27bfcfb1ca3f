//! What both backend adapters share: the adapter error type, native
//! session summaries, export reports, and JSONL splitting.

use vstd::prelude::*;

use crate::json::JsonValue;
use crate::model::Timestamp;

verus! {

use crate::json::JsonSpec;
use crate::jsontext::json_parsed;
use crate::strutil::is_blank_spec;

/// Failures the adapters report.
#[derive(Debug, PartialEq, Eq)]
pub enum AdapterError {
    /// A filesystem failure, with its description.
    Io(String),
    /// A line that is not valid JSON, with its description.
    Json(String),
    /// No native session with the requested id.
    SessionNotFound(String),
    /// JSON that does not have the backend's envelope shape.
    InvalidFormat(String),
}

/// A native session as discovery reports it.
#[derive(Debug, PartialEq, Eq)]
pub struct NativeSessionRef {
    pub native_id: String,
    pub file_path: String,
    pub updated_at: Timestamp,
    pub project_root: Option<String>,
    pub title: Option<String>,
}

/// What an export wrote.
#[derive(Debug, PartialEq, Eq)]
pub struct ExportReport {
    pub output_path: String,
    pub events_exported: usize,
    pub warnings: Vec<String>,
    pub losses: Vec<String>,
}


/// The option holds exactly the given characters.
pub open spec fn opt_str_is(o: Option<String>, s: Option<Seq<char>>) -> bool {
    match o {
        Some(x) => s == Some(x@),
        None => s is None,
    }
}

/// The character views of a list of strings.
pub open spec fn texts_of(lines: Seq<String>) -> Seq<Seq<char>> {
    lines.map_values(|s: String| s@)
}

/// The views of a list of JSON values.
pub open spec fn docs_of(docs: Seq<JsonValue>) -> Seq<JsonSpec> {
    docs.map_values(|d: JsonValue| d@)
}

/// Every non-blank line parses as JSON.
pub open spec fn jsonl_ok(texts: Seq<Seq<char>>) -> bool {
    forall|i: int|
        0 <= i < texts.len() && !is_blank_spec(#[trigger] texts[i]) ==> json_parsed(texts[i])
            is Some
}

/// The documents of a JSONL text: blank lines skipped, the rest parsed in
/// order (unparsable lines contribute nothing; see [`jsonl_ok`]).
pub open spec fn jsonl_docs(texts: Seq<Seq<char>>) -> Seq<JsonSpec>
    decreases texts.len(),
{
    if texts.len() == 0 {
        Seq::empty()
    } else {
        let rest = jsonl_docs(texts.drop_last());
        if is_blank_spec(texts.last()) {
            rest
        } else {
            match json_parsed(texts.last()) {
                Some(v) => rest + seq![v],
                None => rest,
            }
        }
    }
}

/// Splits JSONL lines into parsed documents; blank lines are skipped; the
/// first unparsable line fails the whole list.
pub fn parse_jsonl(lines: &Vec<String>) -> (r: Result<Vec<JsonValue>, AdapterError>)
    ensures
        match r {
            Ok(docs) => jsonl_ok(texts_of(lines@)) && docs_of(docs@) == jsonl_docs(
                texts_of(lines@),
            ),
            Err(e) => !jsonl_ok(texts_of(lines@)) && e is Json,
        },
{
    let ghost texts = texts_of(lines@);
    let mut docs: Vec<JsonValue> = Vec::new();
    let mut i: usize = 0;
    proof {
        assert(texts.take(0) =~= Seq::<Seq<char>>::empty());
        assert(docs_of(docs@) =~= jsonl_docs(texts.take(0)));
    }
    while i < lines.len()
        invariant
            texts == texts_of(lines@),
            texts.len() == lines@.len(),
            forall|j: int| 0 <= j < lines@.len() ==> #[trigger] texts[j] == lines@[j]@,
            i <= lines@.len(),
            docs_of(docs@) == jsonl_docs(texts.take(i as int)),
            forall|j: int|
                0 <= j < i && !is_blank_spec(#[trigger] texts[j]) ==> json_parsed(texts[j])
                    is Some,
        decreases lines@.len() - i,
    {
        proof {
            assert(texts.take(i + 1).drop_last() =~= texts.take(i as int));
            assert(texts.take(i + 1).last() == texts[i as int]);
        }
        if !crate::strutil::is_blank(lines[i].as_str()) {
            match crate::jsontext::parse_json_line(lines[i].as_str()) {
                Some(v) => {
                    let ghost before = docs@;
                    docs.push(v);
                    proof {
                        assert(docs_of(docs@) =~= docs_of(before).push(v@));
                        assert(jsonl_docs(texts.take(i + 1)) =~= jsonl_docs(
                            texts.take(i as int),
                        ).push(v@));
                    }
                },
                None => {
                    return Err(
                        AdapterError::Json(crate::json::clone_string(&lines[i])),
                    );
                },
            }
        }
        i = i + 1;
    }
    proof {
        assert(texts.take(lines@.len() as int) =~= texts);
    }
    Ok(docs)
}


/// Some entry of `dst` equals `src[i]`.
pub open spec fn summary_covered(src: Seq<NativeSessionRef>, dst: Seq<NativeSessionRef>, i: int) -> bool {
    exists|j: int| 0 <= j < dst.len() && (#[trigger] dst[j]).native_id@ == src[i].native_id@
}

/// Sorts native session summaries newest first.
pub fn sort_sessions_desc(sessions: &mut Vec<NativeSessionRef>)
    ensures
        final(sessions)@.to_multiset() == old(sessions)@.to_multiset(),
        forall|p: int, q: int|
            0 <= p < q < final(sessions)@.len() ==> (#[trigger] final(sessions)@[p]).updated_at.millis
                >= (#[trigger] final(sessions)@[q]).updated_at.millis,
{
    let ghost m0 = sessions@.to_multiset();
    let mut i: usize = 1;
    while i < sessions.len()
        invariant
            1 <= i || sessions@.len() == 0,
            i <= sessions@.len() || sessions@.len() == 0,
            sessions@.to_multiset() == m0,
            m0 == old(sessions)@.to_multiset(),
            forall|p: int, q: int|
                0 <= p < q < i ==> (#[trigger] sessions@[p]).updated_at.millis >= (
                #[trigger] sessions@[q]).updated_at.millis,
        decreases sessions@.len() - i,
    {
        let ghost before = sessions@;
        let e = sessions.remove(i);
        let ghost mid = sessions@;
        proof {
            crate::model::lemma_multiset_remove_at(before, i as int);
        }
        let mut pos: usize = 0;
        while pos < i
            invariant_except_break
                forall|p: int|
                    0 <= p < pos ==> (#[trigger] sessions@[p]).updated_at.millis
                        >= e.updated_at.millis,
            invariant
                pos <= i,
                i < before.len(),
                sessions@ == mid,
                mid == before.remove(i as int),
                e == before[i as int],
                forall|p: int, q: int|
                    0 <= p < q < i ==> (#[trigger] before[p]).updated_at.millis >= (
                    #[trigger] before[q]).updated_at.millis,
            ensures
                pos <= i,
                sessions@ == mid,
                forall|p: int|
                    0 <= p < pos ==> (#[trigger] sessions@[p]).updated_at.millis
                        >= e.updated_at.millis,
                pos < i ==> e.updated_at.millis > mid[pos as int].updated_at.millis,
            decreases i - pos,
        {
            if sessions[pos].updated_at.millis < e.updated_at.millis {
                break ;
            }
            pos = pos + 1;
        }
        sessions.insert(pos, e);
        proof {
            crate::model::lemma_multiset_insert_at(mid, pos as int, e);
            assert(sessions@.to_multiset() =~= m0);
            assert forall|p: int, q: int|
                0 <= p < q < i + 1 implies (#[trigger] sessions@[p]).updated_at.millis >= (
            #[trigger] sessions@[q]).updated_at.millis by {
                let s = sessions@;
                if q < pos {
                    assert(s[p] == mid[p] && s[q] == mid[q]);
                    assert(mid[p] == before[p] && mid[q] == before[q]);
                } else if q == pos {
                    assert(s[q] == e);
                    assert(s[p] == mid[p] && mid[p] == before[p]);
                } else {
                    assert(s[q] == mid[q - 1]);
                    assert(mid[q - 1] == before[q - 1]);
                    if p < pos {
                        assert(s[p] == mid[p] && mid[p] == before[p]);
                        if p == q - 1 {
                            assert(pos < i);
                            assert(mid[pos as int] == before[pos as int]);
                        } else {
                            assert(before[p].updated_at.millis >= before[q - 1].updated_at.millis);
                        }
                    } else if p == pos {
                        assert(s[p] == e);
                        assert(pos < i);
                        assert(mid[pos as int] == before[pos as int]);
                        if q - 1 > pos {
                            assert(before[pos as int].updated_at.millis >= before[q
                                - 1].updated_at.millis);
                        }
                    } else {
                        assert(s[p] == mid[p - 1] && mid[p - 1] == before[p - 1]);
                        assert(before[p - 1].updated_at.millis >= before[q
                            - 1].updated_at.millis);
                    }
                }
            }
        }
        i = i + 1;
    }
}

/// Keeps one summary per native id: the one updated last (ties keep the
/// earlier file).
pub fn dedupe_sessions_by_id(sessions: Vec<NativeSessionRef>) -> (r: Vec<NativeSessionRef>)
    ensures
        forall|p: int, q: int|
            0 <= p < q < r@.len() ==> (#[trigger] r@[p]).native_id@ != (
            #[trigger] r@[q]).native_id@,
        forall|i: int| 0 <= i < sessions@.len() ==> #[trigger] summary_covered(sessions@, r@, i),
        forall|j: int|
            0 <= j < r@.len() ==> #[trigger] summary_covered(r@, sessions@, j),
        forall|j: int, i: int|
            0 <= j < r@.len() && 0 <= i < sessions@.len() && (#[trigger] r@[j]).native_id@ == (
            #[trigger] sessions@[i]).native_id@ ==> r@[j].updated_at.millis
                >= sessions@[i].updated_at.millis,
{
    let ghost orig = sessions@;
    let mut rest = sessions;
    let mut out: Vec<NativeSessionRef> = Vec::new();
    let mut k: usize = 0;
    let total = rest.len();
    proof {
        assert(orig.skip(0) =~= orig);
    }
    while rest.len() > 0
        invariant
            k <= orig.len() <= usize::MAX,
            rest@ == orig.skip(k as int),
            forall|p: int, q: int|
                0 <= p < q < out@.len() ==> (#[trigger] out@[p]).native_id@ != (
                #[trigger] out@[q]).native_id@,
            forall|i: int| 0 <= i < k ==> #[trigger] summary_covered(orig, out@, i),
            forall|j: int| 0 <= j < out@.len() ==> #[trigger] summary_covered(out@, orig, j),
            forall|j: int, i: int|
                0 <= j < out@.len() && 0 <= i < k && (#[trigger] out@[j]).native_id@ == (
                #[trigger] orig[i]).native_id@ ==> out@[j].updated_at.millis
                    >= orig[i].updated_at.millis,
        decreases rest@.len(),
    {
        let v = rest.remove(0);
        proof {
            assert(v == orig[k as int]);
            assert(orig.skip(k as int).remove(0) =~= orig.skip(k + 1));
        }
        let mut found: Option<usize> = None;
        let mut j: usize = 0;
        while j < out.len()
            invariant_except_break
                found is None,
                forall|t: int| 0 <= t < j ==> (#[trigger] out@[t]).native_id@ != v.native_id@,
            invariant
                j <= out@.len(),
            ensures
                match found {
                    Some(idx) => idx < out@.len() && out@[idx as int].native_id@ == v.native_id@,
                    None => forall|t: int|
                        0 <= t < out@.len() ==> (#[trigger] out@[t]).native_id@ != v.native_id@,
                },
            decreases out@.len() - j,
        {
            if crate::strutil::str_eq(out[j].native_id.as_str(), v.native_id.as_str()) {
                found = Some(j);
                break ;
            }
            j = j + 1;
        }
        let ghost out_before = out@;
        match found {
            Some(idx) => {
                if out[idx].updated_at.millis >= v.updated_at.millis {
                } else {
                    out.set(idx, v);
                }
            },
            None => {
                out.push(v);
            },
        }
        proof {
            assert forall|i: int|
                0 <= i < k + 1 implies #[trigger] summary_covered(orig, out@, i) by {
                if i == k {
                    match found {
                        Some(idx) => {
                            assert(out@[idx as int].native_id@ == orig[i].native_id@);
                        },
                        None => {
                            assert(out@[out@.len() - 1].native_id@ == orig[i].native_id@);
                        },
                    }
                } else {
                    assert(summary_covered(orig, out_before, i));
                    let j0 = choose|j0: int|
                        0 <= j0 < out_before.len() && (#[trigger] out_before[j0]).native_id@
                            == orig[i].native_id@;
                    assert(out@[j0].native_id@ == out_before[j0].native_id@);
                }
            }
            assert forall|j2: int, i2: int|
                0 <= j2 < out@.len() && 0 <= i2 < k + 1 && (#[trigger] out@[j2]).native_id@ == (
                #[trigger] orig[i2]).native_id@ implies out@[j2].updated_at.millis
                >= orig[i2].updated_at.millis by {
                if i2 < k {
                    if j2 < out_before.len() && out@[j2] == out_before[j2] {
                    } else {
                        // out@[j2] is the freshly written entry, with orig[k]'s id
                        match found {
                            Some(idx) => {
                                assert(out@[j2] == v);
                                assert(out_before[idx as int].native_id@ == orig[i2].native_id@);
                                assert(out_before[idx as int].updated_at.millis
                                    >= orig[i2].updated_at.millis);
                            },
                            None => {
                                assert(out@[j2] == v);
                                assert(summary_covered(orig, out_before, i2));
                                let j0 = choose|j0: int|
                                    0 <= j0 < out_before.len() && (
                                    #[trigger] out_before[j0]).native_id@ == orig[i2].native_id@;
                                assert(out_before[j0].native_id@ == v.native_id@);
                                assert(false);
                            },
                        }
                    }
                } else {
                    // i2 == k: orig[k] is v itself
                    if j2 < out_before.len() && out@[j2] == out_before[j2] {
                        match found {
                            Some(idx) => {
                                if out@[j2].native_id@ == v.native_id@ {
                                    assert(j2 == idx);
                                }
                            },
                            None => {
                                assert(out@[j2].native_id@ != v.native_id@);
                            },
                        }
                    }
                }
            }
            assert forall|j2: int|
                0 <= j2 < out@.len() implies #[trigger] summary_covered(out@, orig, j2) by {
                if j2 < out_before.len() && out@[j2] == out_before[j2] {
                    assert(summary_covered(out_before, orig, j2));
                    let i0 = choose|i0: int|
                        0 <= i0 < orig.len() && (#[trigger] orig[i0]).native_id@
                            == out_before[j2].native_id@;
                    assert(orig[i0].native_id@ == out@[j2].native_id@);
                } else {
                    assert(out@[j2].native_id@ == orig[k as int].native_id@);
                }
            }
        }
        k = k + 1;
    }
    proof {
        assert(orig.skip(k as int).len() == 0);
        assert forall|i: int|
            0 <= i < orig.len() implies #[trigger] summary_covered(orig, out@, i) by {
            assert(0 <= i < k);
        }
    }
    out
}


} // verus!
