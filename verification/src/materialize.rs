//! The materializer's decisions: native-id selection (including the
//! deterministic cross-backend UUID), default output paths, and the
//! selection of stale rollouts to prune.  Writing and deleting files
//! happens outside the crate.

use vstd::prelude::*;

use crate::model::BackendKind;
use crate::model::SteadSession;
use crate::sync::Backend;

verus! {

use crate::strutil::dec_spec;
use crate::strutil::ends_with_spec;
use crate::strutil::eq_ignore_ascii_case_spec;
use crate::strutil::padded_dec_spec;
use crate::strutil::stem_start;
use crate::sync::effective_shared;

/// The canonical source backend projects natively into the same CLI
/// backend.
pub fn source_backend_matches(source_backend: BackendKind, backend: Backend) -> (r: bool)
    ensures
        r == ((source_backend == BackendKind::Codex && backend == Backend::Codex) || (
        source_backend == BackendKind::ClaudeCode && backend == Backend::Claude)),
{
    match (source_backend, backend) {
        (BackendKind::Codex, Backend::Codex) => true,
        (BackendKind::ClaudeCode, Backend::Claude) => true,
        _ => false,
    }
}

/// The name string the deterministic cross-backend UUID is minted from.
pub open spec fn native_uuid_name(backend: Backend, shared: Seq<char>) -> Seq<char> {
    "stead-native:"@ + backend.key_spec() + ":"@ + shared
}

/// The deterministic cross-backend native id: the version-5 UUID, in the
/// URL namespace, of `stead-native:<backend>:<shared uid>`.  Equal on
/// every invocation for a given pair.
pub fn deterministic_backend_uuid(session: &SteadSession, backend: Backend) -> (r: String)
    ensures
        r@ == crate::ids::uuid5_url_of(native_uuid_name(backend, effective_shared(*session))),
        r@.len() == 36,
{
    let shared: &String = match &session.shared_session_uid {
        Some(u) => u,
        None => &session.session_uid,
    };
    let mut name = String::new();
    name.append("stead-native:");
    name.append(crate::sync::backend_key(backend));
    name.append(":");
    name.append(shared.as_str());
    crate::ids::uuid_v5_url(name.as_str())
}

/// The native id a materialization uses: the recorded native reference,
/// else the original id when the source backend is the target, else the
/// deterministic cross-backend UUID.
pub fn choose_native_id(session: &SteadSession, backend: Backend) -> (r: String)
    ensures
        r@ == (match crate::store::native_ref_spec(session.extensions@, backend.key_spec()) {
            Some(p) => p.0,
            None => if (session.source.backend == BackendKind::Codex && backend == Backend::Codex)
                || (session.source.backend == BackendKind::ClaudeCode && backend
                == Backend::Claude) {
                session.source.original_session_id@
            } else {
                crate::ids::uuid5_url_of(
                    native_uuid_name(backend, effective_shared(*session)),
                )
            },
        }),
{
    match crate::store::get_native_ref(session, crate::sync::backend_key(backend)) {
        Some(p) => p.0,
        None => {
            if source_backend_matches(session.source.backend, backend) {
                crate::json::clone_string(&session.source.original_session_id)
            } else {
                deterministic_backend_uuid(session, backend)
            }
        },
    }
}

/// Where the Codex session tree starts: the base directory itself when its
/// final component is already `sessions` (in any ASCII case), else its
/// `sessions` child.
pub open spec fn codex_sessions_root_spec(base: Seq<char>) -> Seq<char> {
    if eq_ignore_ascii_case_spec(base.skip(stem_start(base)), "sessions"@) {
        base
    } else {
        base + "/sessions"@
    }
}

pub fn codex_sessions_root(base_dir: &str) -> (r: String)
    ensures
        r@ == codex_sessions_root_spec(base_dir@),
{
    let n = base_dir.unicode_len();
    let start = last_component_start(base_dir);
    let last = base_dir.substring_char(start, n);
    if crate::strutil::eq_ignore_ascii_case_str(last, "sessions") {
        base_dir.to_owned()
    } else {
        let mut out = base_dir.to_owned();
        out.append("/sessions");
        out
    }
}

/// Index where the final path component starts.
pub fn last_component_start(path: &str) -> (r: usize)
    ensures
        r as int == stem_start(path@),
        r <= path@.len(),
{
    let n = path.unicode_len();
    let mut start: usize = n;
    proof {
        assert(path@.take(n as int) =~= path@);
    }
    while start > 0
        invariant_except_break
            stem_start(path@) == stem_start(path@.take(start as int)),
        invariant
            n == path@.len(),
            start <= n,
        ensures
            start <= n,
            stem_start(path@) == start as int,
        decreases start,
    {
        let c = path.get_char(start - 1);
        proof {
            assert(path@.take(start as int).last() == path@[start - 1]);
            assert(path@.take(start as int).drop_last() =~= path@.take(start - 1));
        }
        if c == '/' || c == '\\' {
            proof {
                assert(stem_start(path@.take(start as int)) == start as int);
            }
            break ;
        }
        start = start - 1;
        proof {
            if start == 0 {
                assert(path@.take(0) =~= Seq::<char>::empty());
                assert(stem_start(path@.take(0)) == 0);
            }
        }
    }
    start
}

/// The repo path as a claude_code project slug: every path separator
/// replaced by a dash.
pub open spec fn repo_slug_spec(repo: Seq<char>) -> Seq<char> {
    Seq::new(
        repo.len(),
        |i: int|
            if repo[i] == '/' || repo[i] == '\\' {
                '-'
            } else {
                repo[i]
            },
    )
}

pub fn repo_slug(repo: &str) -> (r: String)
    ensures
        r@ == repo_slug_spec(repo@),
{
    let n = repo.unicode_len();
    let mut out = String::new();
    let mut i: usize = 0;
    while i < n
        invariant
            n == repo@.len(),
            i <= n,
            out@ == repo_slug_spec(repo@).take(i as int),
        decreases n - i,
    {
        let c = repo.get_char(i);
        proof {
            reveal_strlit("-");
            assert("-"@ =~= seq!['-']);
            assert(repo@.subrange(i as int, i + 1) =~= seq![repo@[i as int]]);
            assert(repo_slug_spec(repo@).take(i + 1) =~= repo_slug_spec(repo@).take(
                i as int,
            ).push(repo_slug_spec(repo@)[i as int]));
        }
        if c == '/' || c == '\\' {
            out.append("-");
        } else {
            let piece = repo.substring_char(i, i + 1);
            out.append(piece);
        }
        i = i + 1;
    }
    proof {
        assert(repo_slug_spec(repo@).take(n as int) =~= repo_slug_spec(repo@));
    }
    out
}

/// The `YYYY/MM/DD` and `YYYY-MM-DDTHH-MM-SS` parts of a Codex rollout
/// path, for the clock's calendar parts (zeros when the clock is outside
/// chrono's range).
pub open spec fn date_parts_or_zero(now: int) -> (int, int, int, int, int, int) {
    match crate::clock::utc_parts_of(now) {
        Some(p) => p,
        None => (0, 0, 0, 0, 0, 0),
    }
}

/// The default output path of a materialization.
pub open spec fn default_path_spec(
    base: Seq<char>,
    repo: Seq<char>,
    backend: Backend,
    native_id: Seq<char>,
    now: int,
) -> Seq<char> {
    let p = date_parts_or_zero(now);
    let y = if p.0 < 0 {
        0
    } else {
        p.0
    };
    match backend {
        Backend::Codex => codex_sessions_root_spec(base) + "/"@ + padded_dec_spec(y as nat, 4)
            + "/"@ + padded_dec_spec(p.1 as nat, 2) + "/"@ + padded_dec_spec(p.2 as nat, 2) + "/rollout-"@
            + padded_dec_spec(y as nat, 4) + "-"@ + padded_dec_spec(p.1 as nat, 2) + "-"@
            + padded_dec_spec(p.2 as nat, 2) + "T"@ + padded_dec_spec(p.3 as nat, 2) + "-"@
            + padded_dec_spec(p.4 as nat, 2) + "-"@ + padded_dec_spec(p.5 as nat, 2) + "-"@
            + native_id + ".jsonl"@,
        Backend::Claude => base + "/projects/"@ + repo_slug_spec(repo) + "/"@ + native_id
            + ".jsonl"@,
    }
}

/// The default output path of a materialization at the given instant.
pub fn default_materialized_path(
    base_dir: &str,
    repo: &str,
    backend: Backend,
    native_id: &str,
    now_ms: i64,
) -> (r: String)
    ensures
        r@ == default_path_spec(base_dir@, repo@, backend, native_id@, now_ms as int),
{
    match backend {
        Backend::Codex => {
            let parts = match crate::clock::utc_parts(now_ms) {
                Some(p) => p,
                None => (0, 0, 0, 0, 0, 0),
            };
            let y: u64 = if parts.0 < 0 {
                0
            } else {
                parts.0 as u64
            };
            let year = crate::strutil::u64_to_padded_dec(y, 4);
            let month = crate::strutil::u64_to_padded_dec(parts.1 as u64, 2);
            let day = crate::strutil::u64_to_padded_dec(parts.2 as u64, 2);
            let hour = crate::strutil::u64_to_padded_dec(parts.3 as u64, 2);
            let minute = crate::strutil::u64_to_padded_dec(parts.4 as u64, 2);
            let second = crate::strutil::u64_to_padded_dec(parts.5 as u64, 2);
            let mut out = codex_sessions_root(base_dir);
            out.append("/");
            out.append(year.as_str());
            out.append("/");
            out.append(month.as_str());
            out.append("/");
            out.append(day.as_str());
            out.append("/rollout-");
            out.append(year.as_str());
            out.append("-");
            out.append(month.as_str());
            out.append("-");
            out.append(day.as_str());
            out.append("T");
            out.append(hour.as_str());
            out.append("-");
            out.append(minute.as_str());
            out.append("-");
            out.append(second.as_str());
            out.append("-");
            out.append(native_id);
            out.append(".jsonl");
            out
        },
        Backend::Claude => {
            let mut out = base_dir.to_owned();
            out.append("/projects/");
            let slug = repo_slug(repo);
            out.append(slug.as_str());
            out.append("/");
            out.append(native_id);
            out.append(".jsonl");
            out
        },
    }
}

/// The suffix a stale rollout of a native id carries.
pub open spec fn rollout_suffix(native_id: Seq<char>) -> Seq<char> {
    "-"@ + native_id + ".jsonl"@
}

/// Selects the stale rollout files to delete before a Codex
/// materialization: every path ending in `-<native_id>.jsonl` other than
/// the target path itself.
pub fn prune_targets(files: &Vec<String>, native_id: &str, keep: &str) -> (r: Vec<String>)
    ensures
        forall|j: int|
            0 <= j < r@.len() ==> ends_with_spec(
                (#[trigger] r@[j])@,
                rollout_suffix(native_id@),
            ) && r@[j]@ != keep@,
        forall|i: int|
            0 <= i < files@.len() && ends_with_spec(
                (#[trigger] files@[i])@,
                rollout_suffix(native_id@),
            ) && files@[i]@ != keep@ ==> exists|j: int|
                0 <= j < r@.len() && (#[trigger] r@[j])@ == files@[i]@,
{
    let mut suffix = String::new();
    suffix.append("-");
    suffix.append(native_id);
    suffix.append(".jsonl");
    let mut out: Vec<String> = Vec::new();
    let mut i: usize = 0;
    while i < files.len()
        invariant
            suffix@ == rollout_suffix(native_id@),
            i <= files@.len(),
            forall|j: int|
                0 <= j < out@.len() ==> ends_with_spec(
                    (#[trigger] out@[j])@,
                    rollout_suffix(native_id@),
                ) && out@[j]@ != keep@,
            forall|t: int|
                0 <= t < i && ends_with_spec(
                    (#[trigger] files@[t])@,
                    rollout_suffix(native_id@),
                ) && files@[t]@ != keep@ ==> exists|j: int|
                    0 <= j < out@.len() && (#[trigger] out@[j])@ == files@[t]@,
        decreases files@.len() - i,
    {
        let is_stale = crate::strutil::ends_with_str(files[i].as_str(), suffix.as_str())
            && !crate::strutil::str_eq(files[i].as_str(), keep);
        let ghost out_before = out@;
        if is_stale {
            out.push(crate::json::clone_string(&files[i]));
        }
        proof {
            assert forall|t: int|
                0 <= t < i + 1 && ends_with_spec(
                    (#[trigger] files@[t])@,
                    rollout_suffix(native_id@),
                ) && files@[t]@ != keep@ implies exists|j: int|
                0 <= j < out@.len() && (#[trigger] out@[j])@ == files@[t]@ by {
                if t == i {
                    assert(out@[out@.len() - 1]@ == files@[t]@);
                } else {
                    let j0 = choose|j0: int|
                        0 <= j0 < out_before.len() && (#[trigger] out_before[j0])@ == files@[t]@;
                    assert(out@[j0]@ == files@[t]@);
                }
            }
        }
        i = i + 1;
    }
    out
}

} // verus!
