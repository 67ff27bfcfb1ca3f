//! The JSON value model the whole crate computes on.
//!
//! Backend log lines, canonical-session documents and raw vendor captures
//! are all held as [`JsonValue`].  Numbers carry their rendered text, so the
//! type stays free of floating point while round-tripping any number the
//! codec layer hands in.  The ghost model [`JsonSpec`] mirrors the value
//! over `Seq`, and every operation here is specified against it.

use vstd::prelude::*;

verus! {

/// A JSON document, as the verified logic sees it.
///
/// Object entries keep their order of insertion and hold each key once.
#[derive(Debug, PartialEq)]
pub enum JsonValue {
    Null,
    Bool(bool),
    /// A number, kept as its rendered JSON text.
    Num(String),
    Str(String),
    Arr(Vec<JsonValue>),
    Obj(Vec<(String, JsonValue)>),
}

/// The mathematical shape of a [`JsonValue`].
#[verifier::ext_equal]
pub enum JsonSpec {
    Null,
    Bool(bool),
    Num(Seq<char>),
    Str(Seq<char>),
    Arr(Seq<JsonSpec>),
    Obj(Seq<(Seq<char>, JsonSpec)>),
}

/// The model of a value: every string becomes its character view.
pub open spec fn jspec(v: JsonValue) -> JsonSpec
    decreases v,
{
    match v {
        JsonValue::Null => JsonSpec::Null,
        JsonValue::Bool(b) => JsonSpec::Bool(b),
        JsonValue::Num(s) => JsonSpec::Num(s@),
        JsonValue::Str(s) => JsonSpec::Str(s@),
        JsonValue::Arr(items) => JsonSpec::Arr(jspec_seq(items@)),
        JsonValue::Obj(entries) => JsonSpec::Obj(jspec_entries(entries@)),
    }
}

/// The models of a sequence of values, element by element.
pub open spec fn jspec_seq(s: Seq<JsonValue>) -> Seq<JsonSpec>
    decreases s,
{
    if s.len() == 0 {
        Seq::empty()
    } else {
        jspec_seq(s.drop_last()).push(jspec(s.last()))
    }
}

/// The models of a sequence of object entries, entry by entry.
pub open spec fn jspec_entries(s: Seq<(String, JsonValue)>) -> Seq<(Seq<char>, JsonSpec)>
    decreases s,
{
    if s.len() == 0 {
        Seq::empty()
    } else {
        jspec_entries(s.drop_last()).push((s.last().0@, jspec(s.last().1)))
    }
}

pub proof fn lemma_jspec_seq_pointwise(s: Seq<JsonValue>)
    ensures
        jspec_seq(s).len() == s.len(),
        forall|i: int| 0 <= i < s.len() ==> #[trigger] jspec_seq(s)[i] == jspec(s[i]),
    decreases s,
{
    if s.len() > 0 {
        lemma_jspec_seq_pointwise(s.drop_last());
    }
}

pub proof fn lemma_jspec_entries_pointwise(s: Seq<(String, JsonValue)>)
    ensures
        jspec_entries(s).len() == s.len(),
        forall|i: int|
            0 <= i < s.len() ==> #[trigger] jspec_entries(s)[i] == (s[i].0@, jspec(s[i].1)),
    decreases s,
{
    if s.len() > 0 {
        lemma_jspec_entries_pointwise(s.drop_last());
    }
}

impl View for JsonValue {
    type V = JsonSpec;

    open spec fn view(&self) -> JsonSpec {
        jspec(*self)
    }
}

/// First value stored under `key`, scanning entries in order.
pub open spec fn lookup(entries: Seq<(Seq<char>, JsonSpec)>, key: Seq<char>) -> Option<JsonSpec>
    decreases entries.len(),
{
    if entries.len() == 0 {
        None
    } else if entries[0].0 == key {
        Some(entries[0].1)
    } else {
        lookup(entries.drop_first(), key)
    }
}

pub open spec fn has_key(entries: Seq<(Seq<char>, JsonSpec)>, key: Seq<char>) -> bool {
    lookup(entries, key) is Some
}

/// Looking a key up in the model of an object, `None` on any other shape.
pub open spec fn spec_get(v: JsonSpec, key: Seq<char>) -> Option<JsonSpec> {
    match v {
        JsonSpec::Obj(entries) => lookup(entries, key),
        _ => None,
    }
}

/// Every string element of a JSON array, in order (other elements
/// contribute nothing).
pub open spec fn strings_in(items: Seq<JsonSpec>) -> Seq<Seq<char>>
    decreases items.len(),
{
    if items.len() == 0 {
        Seq::empty()
    } else {
        strings_in(items.drop_last()) + (match items.last() {
            JsonSpec::Str(s) => seq![s],
            _ => Seq::empty(),
        })
    }
}

/// The string stored under `key`, `None` when absent or not a string.
pub open spec fn spec_get_str(v: JsonSpec, key: Seq<char>) -> Option<Seq<char>> {
    match spec_get(v, key) {
        Some(JsonSpec::Str(s)) => Some(s),
        _ => None,
    }
}

/// A JSON array is structurally larger than each of its elements.
pub proof fn lemma_arr_elem_decreases(v: JsonValue, i: int)
    requires
        v is Arr,
        0 <= i < v->Arr_0@.len(),
    ensures
        decreases_to!(v => v->Arr_0@[i]),
{
    assert(decreases_to!(v => v->Arr_0));
    assert(decreases_to!(v->Arr_0 => v->Arr_0@));
    assert(decreases_to!(v->Arr_0@ => v->Arr_0@[i]));
}

/// A JSON object is structurally larger than each of its entry values.
pub proof fn lemma_obj_elem_decreases(v: JsonValue, i: int)
    requires
        v is Obj,
        0 <= i < v->Obj_0@.len(),
    ensures
        decreases_to!(v => v->Obj_0@[i].1),
{
    assert(decreases_to!(v => v->Obj_0));
    assert(decreases_to!(v->Obj_0 => v->Obj_0@));
    assert(decreases_to!(v->Obj_0@ => v->Obj_0@[i]));
    assert(decreases_to!(v->Obj_0@[i] => v->Obj_0@[i].1));
}

pub proof fn lemma_lookup_some_index(entries: Seq<(Seq<char>, JsonSpec)>, key: Seq<char>)
    requires
        has_key(entries, key),
    ensures
        exists|i: int|
            0 <= i < entries.len() && entries[i].0 == key && lookup(entries, key) == Some(
                entries[i].1,
            ),
    decreases entries.len(),
{
    if entries[0].0 == key {
        assert(entries[0].1 == lookup(entries, key)->Some_0);
    } else {
        lemma_lookup_some_index(entries.drop_first(), key);
        let j = choose|j: int|
            0 <= j < entries.drop_first().len() && entries.drop_first()[j].0 == key && lookup(
                entries.drop_first(),
                key,
            ) == Some(entries.drop_first()[j].1);
        assert(entries[j + 1].0 == key && lookup(entries, key) == Some(entries[j + 1].1));
    }
}

impl JsonValue {
    /// The value under `key` when this is an object that holds it.
    pub fn get<'a>(&'a self, key: &str) -> (r: Option<&'a JsonValue>)
        ensures
            match r {
                Some(v) => spec_get(self@, key@) == Some(v@) && (exists|i: int|
                    0 <= i < self.arm_obj_len() && #[trigger] self.arm_obj_at(i) == *v),
                None => spec_get(self@, key@) is None,
            },
    {
        match self {
            JsonValue::Obj(entries) => {
                let ghost entry_views = self@->Obj_0;
                let mut i: usize = 0;
                proof {
                    lemma_jspec_entries_pointwise(entries@);
                    assert(entry_views.skip(0) =~= entry_views);
                }
                loop
                    invariant
                        self is Obj,
                        entries == self->Obj_0,
                        i <= entries@.len(),
                        entry_views == self@->Obj_0,
                        entry_views.len() == entries@.len(),
                        forall|j: int|
                            0 <= j < entries@.len() ==> entry_views[j] == (
                            entries@[j].0@,
                            jspec(entries@[j].1),
                            ),
                        lookup(entry_views, key@) == lookup(entry_views.skip(i as int), key@),
                    decreases entries@.len() - i,
                {
                    if i >= entries.len() {
                        assert(entry_views.skip(i as int).len() == 0);
                        return None;
                    }
                    proof {
                        assert(entry_views.skip(i as int)[0] == entry_views[i as int]);
                        assert(entry_views.skip(i as int).drop_first() =~= entry_views.skip(
                            i + 1,
                        ));
                    }
                    if crate::strutil::str_eq(entries[i].0.as_str(), key) {
                        proof {
                            assert(lookup(entry_views, key@) == Some(
                                jspec(entries@[i as int].1),
                            ));
                            assert(self.arm_obj_at(i as int) == entries@[i as int].1);
                        }
                        return Some(&entries[i].1);
                    }
                    i = i + 1;
                }
            },
            _ => None,
        }
    }

    /// Number of entries when this is an object (spec helper).
    pub open spec fn arm_obj_len(&self) -> int {
        match *self {
            JsonValue::Obj(entries) => entries@.len() as int,
            _ => 0,
        }
    }

    /// Entry value at `i` when this is an object (spec helper).
    pub open spec fn arm_obj_at(&self, i: int) -> JsonValue {
        match *self {
            JsonValue::Obj(entries) => entries@[i].1,
            _ => JsonValue::Null,
        }
    }

    /// The characters of this value when it is a string.
    pub fn as_str<'a>(&'a self) -> (r: Option<&'a str>)
        ensures
            match r {
                Some(s) => self@ == JsonSpec::Str(s@),
                None => !(self@ is Str),
            },
    {
        match self {
            JsonValue::Str(s) => Some(s.as_str()),
            _ => None,
        }
    }

    /// The string stored under `key`, when this object holds one there.
    pub fn get_str<'a>(&'a self, key: &str) -> (r: Option<&'a str>)
        ensures
            match r {
                Some(s) => spec_get(self@, key@) == Some(JsonSpec::Str(s@)),
                None => !(spec_get(self@, key@) matches Some(inner) && inner is Str),
            },
    {
        match self.get(key) {
            Some(v) => v.as_str(),
            None => None,
        }
    }

    /// A deep copy whose model is unchanged.
    pub fn deep_clone(&self) -> (r: JsonValue)
        ensures
            r@ == self@,
        decreases *self,
    {
        match self {
            JsonValue::Null => JsonValue::Null,
            JsonValue::Bool(b) => JsonValue::Bool(*b),
            JsonValue::Num(s) => JsonValue::Num(clone_string(s)),
            JsonValue::Str(s) => JsonValue::Str(clone_string(s)),
            JsonValue::Arr(items) => {
                let mut out: Vec<JsonValue> = Vec::new();
                let mut i: usize = 0;
                while i < items.len()
                    invariant
                        *self == JsonValue::Arr(*items),
                        i <= items@.len(),
                        out@.len() == i,
                        forall|j: int|
                            0 <= j < i ==> #[trigger] jspec(out@[j]) == jspec(items@[j]),
                    decreases items@.len() - i,
                {
                    proof {
                        lemma_arr_elem_decreases(*self, i as int);
                    }
                    out.push(items[i].deep_clone());
                    i = i + 1;
                }
                proof {
                    lemma_jspec_seq_pointwise(out@);
                    lemma_jspec_seq_pointwise(items@);
                    assert(jspec_seq(out@) =~= jspec_seq(items@));
                }
                JsonValue::Arr(out)
            },
            JsonValue::Obj(entries) => {
                let mut out: Vec<(String, JsonValue)> = Vec::new();
                let mut i: usize = 0;
                while i < entries.len()
                    invariant
                        *self == JsonValue::Obj(*entries),
                        i <= entries@.len(),
                        out@.len() == i,
                        forall|j: int|
                            0 <= j < i ==> (#[trigger] out@[j]).0@ == entries@[j].0@ && jspec(
                                out@[j].1,
                            ) == jspec(entries@[j].1),
                    decreases entries@.len() - i,
                {
                    proof {
                        lemma_obj_elem_decreases(*self, i as int);
                    }
                    let key = clone_string(&entries[i].0);
                    let val = entries[i].1.deep_clone();
                    out.push((key, val));
                    proof {
                        assert(out@[i as int].0 == key);
                        assert(out@[i as int].1 == val);
                    }
                    i = i + 1;
                }
                proof {
                    lemma_jspec_entries_pointwise(out@);
                    lemma_jspec_entries_pointwise(entries@);
                    assert(jspec_entries(out@) =~= jspec_entries(entries@));
                }
                JsonValue::Obj(out)
            },
        }
    }
}


/// Value this object stores under `key`, structurally smaller than the object.
pub proof fn lemma_lookup_value_decreases(gen: JsonSpec, key: Seq<char>)
    requires
        gen is Obj,
        has_key(gen->Obj_0, key),
    ensures
        decreases_to!(gen => lookup(gen->Obj_0, key)->Some_0),
{
    lemma_lookup_some_index(gen->Obj_0, key);
    let j = choose|j: int|
        0 <= j < gen->Obj_0.len() && gen->Obj_0[j].0 == key && lookup(gen->Obj_0, key) == Some(
            gen->Obj_0[j].1,
        );
    assert(decreases_to!(gen => gen->Obj_0));
    assert(decreases_to!(gen->Obj_0 => gen->Obj_0[j]));
    assert(decreases_to!(gen->Obj_0[j] => gen->Obj_0[j].1));
}

/// The structural overlay of a generated value onto a raw capture.
///
/// Objects keep every raw entry (merged recursively where the generated
/// object also has the key) followed by the generated entries the raw object
/// lacked; arrays zip by index with the generated length governing; on any
/// other shape the generated value wins outright.
pub open spec fn spec_merge(raw: JsonSpec, gen: JsonSpec) -> JsonSpec
    decreases gen, 1int, 0int,
{
    match gen {
        JsonSpec::Obj(ge) => match raw {
            JsonSpec::Obj(re) => JsonSpec::Obj(
                merge_raw_from(gen, re, 0) + entries_not_in(ge, re),
            ),
            _ => gen,
        },
        JsonSpec::Arr(ga) => match raw {
            JsonSpec::Arr(ra) => JsonSpec::Arr(merge_arr_from(gen, ra, 0)),
            _ => gen,
        },
        _ => gen,
    }
}

/// One raw entry after the overlay: merged with the generated entry of the
/// same key when one exists, else kept as it is.
pub open spec fn merged_entry(gen: JsonSpec, e: (Seq<char>, JsonSpec)) -> (Seq<char>, JsonSpec)
    decreases gen, 0int, 0int,
    when gen is Obj
{
    proof {
        if has_key(gen->Obj_0, e.0) {
            lemma_lookup_value_decreases(gen, e.0);
        }
    }
    match lookup(gen->Obj_0, e.0) {
        Some(gv) => (e.0, spec_merge(e.1, gv)),
        None => e,
    }
}

/// Raw entries from index `i` on, each merged with the generated entry of
/// the same key when one exists.
pub open spec fn merge_raw_from(gen: JsonSpec, re: Seq<(Seq<char>, JsonSpec)>, i: int) -> Seq<
    (Seq<char>, JsonSpec),
>
    decreases gen, 0int, re.len() - i,
    when gen is Obj && 0 <= i <= re.len()
{
    if i >= re.len() {
        Seq::empty()
    } else {
        seq![merged_entry(gen, re[i])] + merge_raw_from(gen, re, i + 1)
    }
}

/// Generated array elements from index `i` on, merged element-wise with the
/// raw array while it lasts.
pub open spec fn merge_arr_from(gen: JsonSpec, ra: Seq<JsonSpec>, i: int) -> Seq<JsonSpec>
    decreases gen, 0int, gen->Arr_0.len() - i,
    when gen is Arr && 0 <= i <= gen->Arr_0.len()
{
    let ga = gen->Arr_0;
    if i >= ga.len() {
        Seq::empty()
    } else {
        proof {
            assert(decreases_to!(gen => gen->Arr_0));
            assert(decreases_to!(gen->Arr_0 => gen->Arr_0[i]));
        }
        let head = if i < ra.len() {
            spec_merge(ra[i], ga[i])
        } else {
            ga[i]
        };
        seq![head] + merge_arr_from(gen, ra, i + 1)
    }
}

/// The entries of `ge` whose key `re` does not hold, in order.
pub open spec fn entries_not_in(
    ge: Seq<(Seq<char>, JsonSpec)>,
    re: Seq<(Seq<char>, JsonSpec)>,
) -> Seq<(Seq<char>, JsonSpec)>
    decreases ge.len(),
{
    if ge.len() == 0 {
        Seq::empty()
    } else {
        let head: Seq<(Seq<char>, JsonSpec)> = if has_key(re, ge.first().0) {
            Seq::empty()
        } else {
            seq![ge.first()]
        };
        head + entries_not_in(ge.drop_first(), re)
    }
}

pub proof fn lemma_merge_raw_from_pointwise(gen: JsonSpec, re: Seq<(Seq<char>, JsonSpec)>, i: int)
    requires
        gen is Obj,
        0 <= i <= re.len(),
    ensures
        merge_raw_from(gen, re, i).len() == re.len() - i,
        forall|j: int|
            i <= j < re.len() ==> #[trigger] merge_raw_from(gen, re, i)[j - i] == merged_entry(
                gen,
                re[j],
            ),
    decreases re.len() - i,
{
    if i < re.len() {
        lemma_merge_raw_from_pointwise(gen, re, i + 1);
        let m = merge_raw_from(gen, re, i);
        let rest = merge_raw_from(gen, re, i + 1);
        assert(m == seq![merged_entry(gen, re[i])] + rest);
        assert forall|j: int|
            i <= j < re.len() implies #[trigger] m[j - i] == merged_entry(gen, re[j]) by {
            if j > i {
                assert(rest[j - (i + 1)] == merged_entry(gen, re[j]));
                assert(j - (i + 1) == j - i - 1);
                assert(m[j - i] == rest[j - i - 1]);
            }
        }
    }
}

pub proof fn lemma_merge_arr_from_pointwise(gen: JsonSpec, ra: Seq<JsonSpec>, i: int)
    requires
        gen is Arr,
        0 <= i <= gen->Arr_0.len(),
    ensures
        merge_arr_from(gen, ra, i).len() == gen->Arr_0.len() - i,
        forall|j: int|
            i <= j < gen->Arr_0.len() ==> #[trigger] merge_arr_from(gen, ra, i)[j - i] == (if j
                < ra.len() {
                spec_merge(ra[j], gen->Arr_0[j])
            } else {
                gen->Arr_0[j]
            }),
    decreases gen->Arr_0.len() - i,
{
    if i < gen->Arr_0.len() {
        lemma_merge_arr_from_pointwise(gen, ra, i + 1);
        let m = merge_arr_from(gen, ra, i);
        let rest = merge_arr_from(gen, ra, i + 1);
        assert forall|j: int|
            i <= j < gen->Arr_0.len() implies #[trigger] m[j - i] == (if j < ra.len() {
            spec_merge(ra[j], gen->Arr_0[j])
        } else {
            gen->Arr_0[j]
        }) by {
            if j > i {
                assert(rest[j - (i + 1)] == (if j < ra.len() {
                    spec_merge(ra[j], gen->Arr_0[j])
                } else {
                    gen->Arr_0[j]
                }));
                assert(j - (i + 1) == j - i - 1);
                assert(m[j - i] == rest[j - i - 1]);
            }
        }
    }
}

/// Overlay used on every exported line: applies `spec_merge` only when both
/// sides carry the same string `type`, else the generated line stands alone.
pub open spec fn spec_overlay(gen: JsonSpec, raw: Option<JsonSpec>) -> JsonSpec {
    match raw {
        None => gen,
        Some(r) => if overlay_applies(r, gen) {
            spec_merge(r, gen)
        } else {
            gen
        },
    }
}

/// Both values are objects carrying the same string under `"type"`.
pub open spec fn overlay_applies(raw: JsonSpec, gen: JsonSpec) -> bool {
    &&& spec_get(raw, "type"@) matches Some(rt) && rt is Str
    &&& spec_get(gen, "type"@) matches Some(gt) && gt is Str
    &&& spec_get(raw, "type"@) == spec_get(gen, "type"@)
}


pub proof fn lemma_entries_not_in_push(
    s: Seq<(Seq<char>, JsonSpec)>,
    e: (Seq<char>, JsonSpec),
    re: Seq<(Seq<char>, JsonSpec)>,
)
    ensures
        entries_not_in(s.push(e), re) == entries_not_in(s, re) + (if has_key(re, e.0) {
            Seq::<(Seq<char>, JsonSpec)>::empty()
        } else {
            seq![e]
        }),
    decreases s.len(),
{
    let tail = if has_key(re, e.0) {
        Seq::<(Seq<char>, JsonSpec)>::empty()
    } else {
        seq![e]
    };
    if s.len() == 0 {
        assert(s.push(e).drop_first() =~= Seq::<(Seq<char>, JsonSpec)>::empty());
        assert(s.push(e).first() == e);
        assert(entries_not_in(s.push(e).drop_first(), re) == Seq::<
            (Seq<char>, JsonSpec),
        >::empty());
        assert(entries_not_in(s.push(e), re) == tail + Seq::<(Seq<char>, JsonSpec)>::empty());
        assert(tail + Seq::<(Seq<char>, JsonSpec)>::empty() =~= entries_not_in(s, re) + tail);
    } else {
        assert(s.push(e).first() == s.first());
        assert(s.push(e).drop_first() =~= s.drop_first().push(e));
        lemma_entries_not_in_push(s.drop_first(), e, re);
        let head: Seq<(Seq<char>, JsonSpec)> = if has_key(re, s.first().0) {
            Seq::empty()
        } else {
            seq![s.first()]
        };
        assert(entries_not_in(s.push(e), re) == head + entries_not_in(s.drop_first().push(e), re));
        assert(entries_not_in(s, re) == head + entries_not_in(s.drop_first(), re));
        assert(head + (entries_not_in(s.drop_first(), re) + tail) =~= (head + entries_not_in(
            s.drop_first(),
            re,
        )) + tail);
    }
}

/// True when the entry list holds `key`.
pub fn entries_has_key(entries: &Vec<(String, JsonValue)>, key: &str) -> (r: bool)
    ensures
        r == has_key(jspec_entries(entries@), key@),
{
    let ghost entry_views = jspec_entries(entries@);
    let mut i: usize = 0;
    proof {
        lemma_jspec_entries_pointwise(entries@);
        assert(entry_views.skip(0) =~= entry_views);
    }
    loop
        invariant
            i <= entries@.len(),
            entry_views == jspec_entries(entries@),
            entry_views.len() == entries@.len(),
            forall|j: int|
                0 <= j < entries@.len() ==> #[trigger] entry_views[j] == (
                entries@[j].0@,
                jspec(entries@[j].1),
                ),
            lookup(entry_views, key@) == lookup(entry_views.skip(i as int), key@),
        decreases entries@.len() - i,
    {
        if i >= entries.len() {
            assert(entry_views.skip(i as int).len() == 0);
            return false;
        }
        proof {
            assert(entry_views.skip(i as int)[0] == entry_views[i as int]);
            assert(entry_views.skip(i as int).drop_first() =~= entry_views.skip(i + 1));
        }
        if crate::strutil::str_eq(entries[i].0.as_str(), key) {
            return true;
        }
        i = i + 1;
    }
}

/// The recursive overlay of a generated value onto a raw one.
pub fn merge_value_objects(raw: &JsonValue, generated: &JsonValue) -> (r: JsonValue)
    ensures
        r@ == spec_merge(raw@, generated@),
    decreases *generated,
{
    match generated {
        JsonValue::Obj(ge) => match raw {
            JsonValue::Obj(re) => {
                let ghost gen_s = generated@;
                let ghost re_s = jspec_entries(re@);
                let ghost ge_s = jspec_entries(ge@);
                proof {
                    lemma_jspec_entries_pointwise(re@);
                    lemma_jspec_entries_pointwise(ge@);
                }
                let mut out: Vec<(String, JsonValue)> = Vec::new();
                let mut i: usize = 0;
                while i < re.len()
                    invariant
                        *generated == JsonValue::Obj(*ge),
                        *raw == JsonValue::Obj(*re),
                        gen_s == generated@,
                        re_s == jspec_entries(re@),
                        re_s.len() == re@.len(),
                        forall|j: int|
                            0 <= j < re@.len() ==> #[trigger] re_s[j] == (
                            re@[j].0@,
                            jspec(re@[j].1),
                            ),
                        i <= re@.len(),
                        out@.len() == i,
                        forall|j: int|
                            0 <= j < i ==> ((#[trigger] out@[j]).0@, jspec(out@[j].1))
                                == merged_entry(gen_s, re_s[j]),
                    decreases re@.len() - i,
                {
                    let key = &re[i].0;
                    let rv = &re[i].1;
                    match generated.get(key.as_str()) {
                        Some(gv) => {
                            proof {
                                let w = choose|w: int|
                                    0 <= w < generated.arm_obj_len()
                                        && #[trigger] generated.arm_obj_at(w) == *gv;
                                lemma_obj_elem_decreases(*generated, w);
                            }
                            let merged = merge_value_objects(rv, gv);
                            out.push((clone_string(key), merged));
                        },
                        None => {
                            out.push((clone_string(key), rv.deep_clone()));
                        },
                    }
                    i = i + 1;
                }
                let ghost phase1 = merge_raw_from(gen_s, re_s, 0);
                proof {
                    lemma_merge_raw_from_pointwise(gen_s, re_s, 0);
                    lemma_jspec_entries_pointwise(out@);
                    assert forall|j: int| 0 <= j < re_s.len() implies phase1[j] == merged_entry(
                        gen_s,
                        re_s[j],
                    ) by {
                        assert(merge_raw_from(gen_s, re_s, 0)[j - 0] == merged_entry(
                            gen_s,
                            re_s[j],
                        ));
                    }
                    assert(jspec_entries(out@) =~= phase1);
                }
                let mut k: usize = 0;
                while k < ge.len()
                    invariant
                        *generated == JsonValue::Obj(*ge),
                        *raw == JsonValue::Obj(*re),
                        gen_s == generated@,
                        re_s == jspec_entries(re@),
                        ge_s == jspec_entries(ge@),
                        ge_s.len() == ge@.len(),
                        forall|j: int|
                            0 <= j < ge@.len() ==> #[trigger] ge_s[j] == (
                            ge@[j].0@,
                            jspec(ge@[j].1),
                            ),
                        phase1 == merge_raw_from(gen_s, re_s, 0),
                        k <= ge@.len(),
                        jspec_entries(out@) == phase1 + entries_not_in(
                            ge_s.take(k as int),
                            re_s,
                        ),
                    decreases ge@.len() - k,
                {
                    let ghost out_before = out@;
                    if !entries_has_key(re, ge[k].0.as_str()) {
                        let key = clone_string(&ge[k].0);
                        let val = ge[k].1.deep_clone();
                        out.push((key, val));
                        proof {
                            lemma_jspec_entries_pointwise(out_before);
                            assert(jspec_entries(out@) =~= jspec_entries(out_before).push(
                                ge_s[k as int],
                            )) by {
                                lemma_jspec_entries_pointwise(out@);
                            }
                        }
                    }
                    proof {
                        assert(ge_s.take(k + 1) =~= ge_s.take(k as int).push(ge_s[k as int]));
                        lemma_entries_not_in_push(ge_s.take(k as int), ge_s[k as int], re_s);
                        assert(jspec_entries(out@) =~= phase1 + entries_not_in(
                            ge_s.take(k + 1),
                            re_s,
                        ));
                    }
                    k = k + 1;
                }
                proof {
                    assert(ge_s.take(ge@.len() as int) =~= ge_s);
                    assert(jspec(JsonValue::Obj(out)) == spec_merge(raw@, generated@));
                }
                JsonValue::Obj(out)
            },
            _ => generated.deep_clone(),
        },
        JsonValue::Arr(ga) => match raw {
            JsonValue::Arr(ra) => {
                let ghost gen_s = generated@;
                let ghost ra_s = jspec_seq(ra@);
                let ghost ga_s = jspec_seq(ga@);
                proof {
                    lemma_jspec_seq_pointwise(ra@);
                    lemma_jspec_seq_pointwise(ga@);
                }
                let mut out: Vec<JsonValue> = Vec::new();
                let mut i: usize = 0;
                while i < ga.len()
                    invariant
                        *generated == JsonValue::Arr(*ga),
                        *raw == JsonValue::Arr(*ra),
                        gen_s == generated@,
                        ra_s == jspec_seq(ra@),
                        ra_s.len() == ra@.len(),
                        forall|j: int|
                            0 <= j < ra@.len() ==> #[trigger] ra_s[j] == jspec(ra@[j]),
                        ga_s == jspec_seq(ga@),
                        ga_s.len() == ga@.len(),
                        forall|j: int|
                            0 <= j < ga@.len() ==> #[trigger] ga_s[j] == jspec(ga@[j]),
                        i <= ga@.len(),
                        out@.len() == i,
                        forall|j: int|
                            0 <= j < i ==> jspec(#[trigger] out@[j]) == (if j < ra_s.len() {
                                spec_merge(ra_s[j], ga_s[j])
                            } else {
                                ga_s[j]
                            }),
                    decreases ga@.len() - i,
                {
                    proof {
                        lemma_arr_elem_decreases(*generated, i as int);
                    }
                    if i < ra.len() {
                        let merged = merge_value_objects(&ra[i], &ga[i]);
                        out.push(merged);
                    } else {
                        out.push(ga[i].deep_clone());
                    }
                    i = i + 1;
                }
                proof {
                    lemma_merge_arr_from_pointwise(gen_s, ra_s, 0);
                    lemma_jspec_seq_pointwise(out@);
                    assert forall|j: int| 0 <= j < ga_s.len() implies merge_arr_from(
                        gen_s,
                        ra_s,
                        0,
                    )[j] == (if j < ra_s.len() {
                        spec_merge(ra_s[j], ga_s[j])
                    } else {
                        ga_s[j]
                    }) by {
                        assert(merge_arr_from(gen_s, ra_s, 0)[j - 0] == (if j < ra_s.len() {
                            spec_merge(ra_s[j], ga_s[j])
                        } else {
                            ga_s[j]
                        }));
                    }
                    assert(jspec_seq(out@) =~= merge_arr_from(gen_s, ra_s, 0));
                }
                JsonValue::Arr(out)
            },
            _ => generated.deep_clone(),
        },
        _ => generated.deep_clone(),
    }
}

/// Overlays a freshly generated envelope with the stored raw envelope.
///
/// The merge runs only when both sides carry the same string `type`; a
/// missing raw line, a missing `type`, or a changed `type` leaves the
/// generated envelope untouched.
pub fn merge_with_raw_unknowns(generated: JsonValue, raw: Option<&JsonValue>) -> (r: JsonValue)
    ensures
        r@ == spec_overlay(generated@, match raw {
            Some(v) => Some(v@),
            None => None,
        }),
{
    let raw_v = match raw {
        Some(v) => v,
        None => {
            return generated;
        },
    };
    let type_matches = match (raw_v.get_str("type"), generated.get_str("type")) {
        (Some(rt), Some(gt)) => crate::strutil::str_eq(rt, gt),
        _ => false,
    };
    if type_matches {
        merge_value_objects(raw_v, &generated)
    } else {
        generated
    }
}


pub proof fn lemma_lookup_concat(
    a: Seq<(Seq<char>, JsonSpec)>,
    b: Seq<(Seq<char>, JsonSpec)>,
    k: Seq<char>,
)
    ensures
        lookup(a + b, k) == if has_key(a, k) {
            lookup(a, k)
        } else {
            lookup(b, k)
        },
    decreases a.len(),
{
    if a.len() == 0 {
        assert(a + b =~= b);
    } else {
        assert((a + b).first() == a.first());
        assert((a + b).drop_first() =~= a.drop_first() + b);
        lemma_lookup_concat(a.drop_first(), b, k);
    }
}

pub proof fn lemma_lookup_merge_raw(gen: JsonSpec, re: Seq<(Seq<char>, JsonSpec)>, i: int, k: Seq<char>)
    requires
        gen is Obj,
        0 <= i <= re.len(),
    ensures
        lookup(merge_raw_from(gen, re, i), k) == match lookup(re.skip(i), k) {
            Some(rv) => Some(
                match lookup(gen->Obj_0, k) {
                    Some(gv) => spec_merge(rv, gv),
                    None => rv,
                },
            ),
            None => None,
        },
    decreases re.len() - i,
{
    if i < re.len() {
        lemma_lookup_merge_raw(gen, re, i + 1, k);
        let m = merge_raw_from(gen, re, i);
        assert(m == seq![merged_entry(gen, re[i])] + merge_raw_from(gen, re, i + 1));
        assert(m.first() == merged_entry(gen, re[i]));
        assert(m.drop_first() =~= merge_raw_from(gen, re, i + 1));
        assert(re.skip(i).first() == re[i]);
        assert(re.skip(i).drop_first() =~= re.skip(i + 1));
        assert(merged_entry(gen, re[i]).0 == re[i].0);
    } else {
        assert(re.skip(i).len() == 0);
    }
}

pub proof fn lemma_lookup_entries_not_in(
    ge: Seq<(Seq<char>, JsonSpec)>,
    re: Seq<(Seq<char>, JsonSpec)>,
    k: Seq<char>,
)
    ensures
        lookup(entries_not_in(ge, re), k) == if has_key(re, k) {
            None::<JsonSpec>
        } else {
            lookup(ge, k)
        },
    decreases ge.len(),
{
    if ge.len() > 0 {
        lemma_lookup_entries_not_in(ge.drop_first(), re, k);
        let head: Seq<(Seq<char>, JsonSpec)> = if has_key(re, ge.first().0) {
            Seq::empty()
        } else {
            seq![ge.first()]
        };
        assert(lookup(Seq::<(Seq<char>, JsonSpec)>::empty(), k) is None);
        if head.len() > 0 {
            assert(head[0] == ge.first());
            assert(head.drop_first() =~= Seq::<(Seq<char>, JsonSpec)>::empty());
            assert(lookup(head, k) == if ge.first().0 == k {
                Some(ge.first().1)
            } else {
                None::<JsonSpec>
            });
        }
        assert(entries_not_in(ge, re) == head + entries_not_in(ge.drop_first(), re));
        lemma_lookup_concat(head, entries_not_in(ge.drop_first(), re), k);
        assert(lookup(ge, k) == if ge[0].0 == k {
            Some(ge[0].1)
        } else {
            lookup(ge.drop_first(), k)
        });
        if ge.first().0 == k && !has_key(re, k) {
            assert(has_key(head, k));
            assert(lookup(entries_not_in(ge, re), k) == Some(ge.first().1));
        }
    }
}

/// Unknown-field preservation, stated of the structural overlay.
///
/// When both the raw capture and the generated envelope are objects, the
/// overlay keeps every raw field the generator did not emit unchanged, lets
/// every generated field through (merged recursively where the raw object
/// also holds the key), and invents no field of its own.
pub proof fn lemma_overlay_field_preservation(raw: JsonSpec, gen: JsonSpec, k: Seq<char>)
    requires
        raw is Obj,
        gen is Obj,
    ensures
        spec_merge(raw, gen) is Obj,
        has_key(raw->Obj_0, k) && !has_key(gen->Obj_0, k) ==> lookup(
            spec_merge(raw, gen)->Obj_0,
            k,
        ) == lookup(raw->Obj_0, k),
        !has_key(raw->Obj_0, k) ==> lookup(spec_merge(raw, gen)->Obj_0, k) == lookup(
            gen->Obj_0,
            k,
        ),
        has_key(raw->Obj_0, k) && has_key(gen->Obj_0, k) ==> lookup(
            spec_merge(raw, gen)->Obj_0,
            k,
        ) == Some(
            spec_merge(lookup(raw->Obj_0, k)->Some_0, lookup(gen->Obj_0, k)->Some_0),
        ),
        has_key(raw->Obj_0, k) && has_key(gen->Obj_0, k) && !(lookup(gen->Obj_0, k)->Some_0
            is Obj) && !(lookup(gen->Obj_0, k)->Some_0 is Arr) ==> lookup(
            spec_merge(raw, gen)->Obj_0,
            k,
        ) == lookup(gen->Obj_0, k),
{
    let re = raw->Obj_0;
    let ge = gen->Obj_0;
    let m = spec_merge(raw, gen);
    assert(m->Obj_0 == merge_raw_from(gen, re, 0) + entries_not_in(ge, re));
    lemma_lookup_concat(merge_raw_from(gen, re, 0), entries_not_in(ge, re), k);
    assert(re.skip(0) =~= re);
    lemma_lookup_merge_raw(gen, re, 0, k);
    lemma_lookup_entries_not_in(ge, re, k);
}

/// `set_entry(entries, k, v)`: the entries with `k` now bound to `v` —
/// replaced in place when `k` was present, appended otherwise.
pub open spec fn set_entry(
    entries: Seq<(Seq<char>, JsonSpec)>,
    k: Seq<char>,
    v: JsonSpec,
) -> Seq<(Seq<char>, JsonSpec)>
    decreases entries.len(),
{
    if entries.len() == 0 {
        seq![(k, v)]
    } else if entries.first().0 == k {
        seq![(k, v)] + entries.drop_first()
    } else {
        seq![entries.first()] + set_entry(entries.drop_first(), k, v)
    }
}

pub proof fn lemma_lookup_set_entry(
    entries: Seq<(Seq<char>, JsonSpec)>,
    k: Seq<char>,
    v: JsonSpec,
    k2: Seq<char>,
)
    ensures
        lookup(set_entry(entries, k, v), k2) == if k2 == k {
            Some(v)
        } else {
            lookup(entries, k2)
        },
    decreases entries.len(),
{
    let s = set_entry(entries, k, v);
    assert(lookup(Seq::<(Seq<char>, JsonSpec)>::empty(), k2) is None);
    if entries.len() == 0 {
        assert(s == seq![(k, v)]);
        assert(s[0] == (k, v));
        assert(s.drop_first() =~= Seq::<(Seq<char>, JsonSpec)>::empty());
        assert(lookup(s, k2) == if k2 == k {
            Some(v)
        } else {
            lookup(entries, k2)
        });
    } else if entries.first().0 == k {
        assert(s == seq![(k, v)] + entries.drop_first());
        assert(s[0] == (k, v));
        assert(s.drop_first() =~= entries.drop_first());
        assert(lookup(s, k2) == if k2 == k {
            Some(v)
        } else {
            lookup(entries, k2)
        });
    } else {
        lemma_lookup_set_entry(entries.drop_first(), k, v, k2);
        assert(s == seq![entries.first()] + set_entry(entries.drop_first(), k, v));
        assert(s[0] == entries.first());
        assert(s.drop_first() =~= set_entry(entries.drop_first(), k, v));
        assert(lookup(s, k2) == if k2 == k {
            Some(v)
        } else {
            lookup(entries, k2)
        });
    }
}


pub proof fn lemma_has_key_index(entries: Seq<(Seq<char>, JsonSpec)>, k: Seq<char>)
    ensures
        has_key(entries, k) <==> exists|j: int| 0 <= j < entries.len() && entries[j].0 == k,
    decreases entries.len(),
{
    if entries.len() > 0 {
        lemma_has_key_index(entries.drop_first(), k);
        if entries[0].0 != k {
            if has_key(entries, k) {
                let j = choose|j: int|
                    0 <= j < entries.drop_first().len() && entries.drop_first()[j].0 == k;
                assert(entries[j + 1].0 == k);
            }
            if exists|j: int| 0 <= j < entries.len() && entries[j].0 == k {
                let j = choose|j: int| 0 <= j < entries.len() && entries[j].0 == k;
                assert(entries.drop_first()[j - 1].0 == k);
            }
        }
    }
}

pub proof fn lemma_set_entry_replaces(
    es: Seq<(Seq<char>, JsonSpec)>,
    k: Seq<char>,
    v: JsonSpec,
    i: int,
)
    requires
        0 <= i < es.len(),
        es[i].0 == k,
        forall|j: int| 0 <= j < i ==> es[j].0 != k,
    ensures
        set_entry(es, k, v) == es.update(i, (k, v)),
    decreases i,
{
    if i == 0 {
        assert(set_entry(es, k, v) =~= es.update(0, (k, v)));
    } else {
        lemma_set_entry_replaces(es.drop_first(), k, v, i - 1);
        assert(forall|j: int|
            0 <= j < i - 1 ==> #[trigger] es.drop_first()[j].0 == es[j + 1].0);
        assert(es.drop_first()[i - 1].0 == k);
        assert(set_entry(es, k, v) == seq![es[0]] + set_entry(es.drop_first(), k, v));
        assert(seq![es[0]] + es.drop_first().update(i - 1, (k, v)) =~= es.update(i, (k, v)));
    }
}

pub proof fn lemma_set_entry_appends(es: Seq<(Seq<char>, JsonSpec)>, k: Seq<char>, v: JsonSpec)
    requires
        !has_key(es, k),
    ensures
        set_entry(es, k, v) == es.push((k, v)),
    decreases es.len(),
{
    if es.len() == 0 {
        assert(set_entry(es, k, v) =~= es.push((k, v)));
    } else {
        lemma_set_entry_appends(es.drop_first(), k, v);
        assert(seq![es[0]] + es.drop_first().push((k, v)) =~= es.push((k, v)));
    }
}

impl JsonValue {
    /// An empty JSON object.
    pub fn obj_empty() -> (r: JsonValue)
        ensures
            r@ == JsonSpec::Obj(Seq::<(Seq<char>, JsonSpec)>::empty()),
    {
        let entries: Vec<(String, JsonValue)> = Vec::new();
        proof {
            assert(jspec_entries(entries@) =~= Seq::<(Seq<char>, JsonSpec)>::empty());
        }
        JsonValue::Obj(entries)
    }

    /// A JSON string.
    pub fn str_of(s: &str) -> (r: JsonValue)
        ensures
            r@ == JsonSpec::Str(s@),
    {
        JsonValue::Str(s.to_owned())
    }

    /// Binds `key` to `val`: replaced in place where the object already
    /// holds the key, appended otherwise.  Any non-object value is first
    /// replaced by an empty object, as the store's extension updates do.
    pub fn set(&mut self, key: &str, val: JsonValue)
        ensures
            final(self)@ == JsonSpec::Obj(
                set_entry(
                    if old(self)@ is Obj {
                        old(self)@->Obj_0
                    } else {
                        Seq::empty()
                    },
                    key@,
                    val@,
                ),
            ),
    {
        let is_obj = match self {
            JsonValue::Obj(_) => true,
            _ => false,
        };
        if !is_obj {
            *self = JsonValue::obj_empty();
        }
        match self {
            JsonValue::Obj(entries) => {
                set_in_entries(entries, key, val);
            },
            _ => {
                proof {
                    assert(false);
                }
            },
        }
    }
}

/// Binds `key` to `val` in an entry list, replacing the first occurrence in
/// place or appending when the key is absent.
fn set_in_entries(entries: &mut Vec<(String, JsonValue)>, key: &str, val: JsonValue)
    ensures
        jspec_entries(final(entries)@) == set_entry(jspec_entries(old(entries)@), key@, val@),
{
    let ghost old_entries = jspec_entries(entries@);
    proof {
        lemma_jspec_entries_pointwise(entries@);
    }
    let mut i: usize = 0;
    while i < entries.len()
        invariant
            old_entries == jspec_entries(old(entries)@),
            entries@ == old(entries)@,
            old_entries.len() == entries@.len(),
            forall|j: int|
                0 <= j < entries@.len() ==> #[trigger] old_entries[j] == (
                entries@[j].0@,
                jspec(entries@[j].1),
                ),
            i <= entries@.len(),
            forall|j: int| 0 <= j < i ==> #[trigger] old_entries[j].0 != key@,
        decreases entries@.len() - i,
    {
        if crate::strutil::str_eq(entries[i].0.as_str(), key) {
            let ghost target = old_entries.update(i as int, (key@, val@));
            proof {
                lemma_set_entry_replaces(old_entries, key@, val@, i as int);
            }
            entries.set(i, (key.to_owned(), val));
            proof {
                lemma_jspec_entries_pointwise(entries@);
                assert(jspec_entries(entries@) =~= target);
            }
            return ;
        }
        i = i + 1;
    }
    proof {
        lemma_has_key_index(old_entries, key@);
        lemma_set_entry_appends(old_entries, key@, val@);
    }
    entries.push((key.to_owned(), val));
    proof {
        lemma_jspec_entries_pointwise(entries@);
        assert(jspec_entries(entries@) =~= old_entries.push((key@, val@)));
    }
}

/// Copies a string; the view is preserved.
pub fn clone_string(s: &String) -> (r: String)
    ensures
        r@ == s@,
{
    let mut out = String::new();
    out.append(s.as_str());
    out
}


/// The value could only have come from merging something under `g`.
pub open spec fn merged_from(m: JsonSpec, g: JsonSpec) -> bool {
    m == g || exists|rv: JsonSpec| m == spec_merge(rv, g)
}

/// A scalar entry of the generated object survives any merge unchanged.
pub proof fn lemma_merge_keeps_scalar(m: JsonSpec, g: JsonSpec, k: Seq<char>)
    requires
        merged_from(m, g),
        g is Obj,
        lookup(g->Obj_0, k) is Some,
        !(lookup(g->Obj_0, k)->Some_0 is Obj),
        !(lookup(g->Obj_0, k)->Some_0 is Arr),
    ensures
        spec_get(m, k) == lookup(g->Obj_0, k),
        m is Obj,
{
    if m == g {
    } else {
        let rv = choose|rv: JsonSpec| m == spec_merge(rv, g);
        if rv is Obj {
            lemma_overlay_field_preservation(rv, g, k);
            if has_key(rv->Obj_0, k) {
            }
        } else {
            assert(spec_merge(rv, g) == g);
        }
    }
}

/// Any entry of the generated object survives a merge as something merged
/// under it.
pub proof fn lemma_merge_keeps_entry(m: JsonSpec, g: JsonSpec, k: Seq<char>)
    requires
        merged_from(m, g),
        g is Obj,
        lookup(g->Obj_0, k) is Some,
    ensures
        spec_get(m, k) matches Some(inner) && merged_from(inner, lookup(g->Obj_0, k)->Some_0),
        m is Obj,
{
    let gv = lookup(g->Obj_0, k)->Some_0;
    if m == g {
        assert(merged_from(gv, gv));
    } else {
        let rv = choose|rv: JsonSpec| m == spec_merge(rv, g);
        if rv is Obj {
            lemma_overlay_field_preservation(rv, g, k);
            if has_key(rv->Obj_0, k) {
                let rv0 = lookup(rv->Obj_0, k)->Some_0;
                assert(spec_get(m, k) == Some(spec_merge(rv0, gv)));
                assert(merged_from(spec_merge(rv0, gv), gv));
            } else {
                assert(merged_from(gv, gv));
            }
        } else {
            assert(spec_merge(rv, g) == g);
            assert(merged_from(gv, gv));
        }
    }
}

/// A one-element generated array survives a merge with its element merged
/// under the original element.
pub proof fn lemma_merge_keeps_single_array(m: JsonSpec, g: JsonSpec)
    requires
        merged_from(m, g),
        g is Arr,
        g->Arr_0.len() == 1,
    ensures
        m is Arr,
        m->Arr_0.len() == 1,
        merged_from(m->Arr_0[0], g->Arr_0[0]),
{
    if m == g {
        assert(merged_from(g->Arr_0[0], g->Arr_0[0]));
    } else {
        let rv = choose|rv: JsonSpec| m == spec_merge(rv, g);
        if rv is Arr {
            lemma_merge_arr_from_pointwise(g, rv->Arr_0, 0);
            assert(m->Arr_0[0] == merge_arr_from(g, rv->Arr_0, 0)[0 - 0]);
            if 0 < rv->Arr_0.len() {
                assert(m->Arr_0[0] == spec_merge(rv->Arr_0[0], g->Arr_0[0]));
                assert(merged_from(m->Arr_0[0], g->Arr_0[0]));
            } else {
                assert(m->Arr_0[0] == g->Arr_0[0]);
                assert(merged_from(m->Arr_0[0], g->Arr_0[0]));
            }
        } else {
            assert(spec_merge(rv, g) == g);
            assert(merged_from(g->Arr_0[0], g->Arr_0[0]));
        }
    }
}

/// The overlaid line is something merged under the generated line.
pub proof fn lemma_overlay_merged_from(gen: JsonSpec, raw: Option<JsonSpec>)
    ensures
        merged_from(spec_overlay(gen, raw), gen),
{
    match raw {
        None => {},
        Some(r) => {
            if overlay_applies(r, gen) {
                assert(spec_overlay(gen, raw) == spec_merge(r, gen));
            }
        },
    }
}


} // verus!
