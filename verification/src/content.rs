//! Record content as the runtime assembles it: a JSON value tree, the
//! dot-separated path walk into a plan's JSON form, and insertion at a
//! dotted path that creates the objects on the way.

use vstd::prelude::*;
use crate::parsers::{json_object_entries, json_string_literal, literal_object_entries, literal_string};
use crate::strings::{chars_of, opt_string_view, string_of};
use crate::recipe_apply::{
    debug_quoted, debug_str, path_expects_string, recipe_source_id, render_selector_path, spec_path_expects_string,
    spec_recipe_source_id, spec_render_selector_path, spec_truncate_excerpt, spec_truncate_reason, truncate_content_assembly_reason,
    truncate_excerpt, ApplyError,
};
use crate::recipes::{FetchRecipe, FieldMap, FieldValueSource, ProductionBinding, RecordType};
use crate::research::ResearchPlan;
use crate::stamps::{is_v7_uuid_text, new_v7_id};
use crate::text::{push_str, str_eq};

verus! {

/// A JSON value. Numbers are held as their JSON text; an object is its
/// entries in order, a key's value being that of its first entry.
/// `Encoded` is a value given by its JSON text (a recipe literal), held
/// as it stands until a path descends into it.
#[derive(Debug, PartialEq, Eq)]
pub enum JsonValue {
    Null,
    Bool(bool),
    Number(String),
    Str(String),
    Array(Vec<JsonValue>),
    Object(Vec<(String, JsonValue)>),
    Encoded(String),
}

/// The mathematical form of a JSON value.
pub enum JsonModel {
    Null,
    Bool(bool),
    Number(Seq<char>),
    Str(Seq<char>),
    Array(Seq<JsonModel>),
    Object(Seq<(Seq<char>, JsonModel)>),
    Encoded(Seq<char>),
}

/// The model of a value.
pub open spec fn model(v: JsonValue) -> JsonModel
    decreases v,
    via model_decreases
{
    match v {
        JsonValue::Null => JsonModel::Null,
        JsonValue::Bool(b) => JsonModel::Bool(b),
        JsonValue::Number(n) => JsonModel::Number(n@),
        JsonValue::Str(s) => JsonModel::Str(s@),
        JsonValue::Encoded(s) => JsonModel::Encoded(s@),
        JsonValue::Array(a) => JsonModel::Array(
            Seq::new(a@.len(), |i: int| if 0 <= i < a@.len() { model(a@[i]) } else { JsonModel::Null }),
        ),
        JsonValue::Object(m) => JsonModel::Object(
            Seq::new(
                m@.len(),
                |i: int| if 0 <= i < m@.len() { (m@[i].0@, model(m@[i].1)) } else { (Seq::empty(), JsonModel::Null) },
            ),
        ),
    }
}

#[via_fn]
proof fn model_decreases(v: JsonValue) {
    lemma_children_decrease(v);
}

/// Each element of an array and each entry value of an object is
/// smaller than the value that holds it.
proof fn lemma_children_decrease(v: JsonValue)
    ensures
        v matches JsonValue::Array(a) ==> forall|i: int| 0 <= i < a@.len() ==> decreases_to!(v => a@[i]),
        v matches JsonValue::Object(m) ==> forall|i: int| 0 <= i < m@.len() ==> decreases_to!(v => m@[i].1),
{
    broadcast use vstd::std_specs::vec::axiom_vec_index_decreases;
    match v {
        JsonValue::Array(a) => {
            assert forall|i: int| 0 <= i < a@.len() implies decreases_to!(v => a@[i]) by {
                assert(decreases_to!(a => a[i]));
            }
        },
        JsonValue::Object(m) => {
            assert forall|i: int| 0 <= i < m@.len() implies decreases_to!(v => m@[i].1) by {
                assert(decreases_to!(m => m[i]));
            }
        },
        _ => {},
    }
}

/// A copy of `v`, with the same model.
pub fn copy_value(v: &JsonValue) -> (r: JsonValue)
    ensures
        model(r) == model(*v),
    decreases v,
{
    proof {
        lemma_children_decrease(*v);
    }
    match v {
        JsonValue::Null => JsonValue::Null,
        JsonValue::Bool(b) => JsonValue::Bool(*b),
        JsonValue::Number(n) => JsonValue::Number(n.clone()),
        JsonValue::Str(s) => JsonValue::Str(s.clone()),
        JsonValue::Encoded(s) => JsonValue::Encoded(s.clone()),
        JsonValue::Array(a) => {
            let mut out: Vec<JsonValue> = Vec::new();
            let mut i: usize = 0;
            while i < a.len()
                invariant
                    i <= a@.len(),
                    out@.len() == i,
                    forall|j: int| 0 <= j < i ==> model(#[trigger] out@[j]) == model(a@[j]),
                    *v == JsonValue::Array(*a),
                decreases a@.len() - i,
            {
                proof {
                    lemma_children_decrease(*v);
                    assert(v->Array_0@[i as int] == a@[i as int]);
                }
                let c = copy_value(&a[i]);
                out.push(c);
                i = i + 1;
            }
            let r = JsonValue::Array(out);
            assert(model(r)->Array_0 =~= model(*v)->Array_0);
            r
        },
        JsonValue::Object(m) => {
            let mut out: Vec<(String, JsonValue)> = Vec::new();
            let mut i: usize = 0;
            while i < m.len()
                invariant
                    i <= m@.len(),
                    out@.len() == i,
                    forall|j: int| 0 <= j < i ==> (#[trigger] out@[j]).0@ == m@[j].0@ && model(out@[j].1) == model(m@[j].1),
                    *v == JsonValue::Object(*m),
                decreases m@.len() - i,
            {
                proof {
                    lemma_children_decrease(*v);
                    assert(v->Object_0@[i as int] == m@[i as int]);
                }
                let c = copy_value(&m[i].1);
                out.push((m[i].0.clone(), c));
                i = i + 1;
            }
            let r = JsonValue::Object(out);
            assert(model(r)->Object_0 =~= model(*v)->Object_0);
            r
        },
    }
}

/// The model of an object's entries.
pub open spec fn entries_model(m: Seq<(String, JsonValue)>) -> Seq<(Seq<char>, JsonModel)> {
    Seq::new(m.len(), |i: int| (m[i].0@, model(m[i].1)))
}

/// `i` is the position of the first entry with key `k`.
pub open spec fn first_key_at(m: Seq<(Seq<char>, JsonModel)>, k: Seq<char>, i: int) -> bool {
    &&& 0 <= i < m.len()
    &&& m[i].0 == k
    &&& forall|j: int| 0 <= j < i ==> m[j].0 != k
}

/// The position of the first entry with key `k`, if any.
pub open spec fn key_index(m: Seq<(Seq<char>, JsonModel)>, k: Seq<char>) -> Option<int> {
    if exists|i: int| first_key_at(m, k, i) {
        Some(choose|i: int| first_key_at(m, k, i))
    } else {
        None
    }
}

/// The value of key `k` in an object, if any.
pub open spec fn lookup(m: Seq<(Seq<char>, JsonModel)>, k: Seq<char>) -> Option<JsonModel> {
    match key_index(m, k) {
        Some(i) => Some(m[i].1),
        None => None,
    }
}

/// An object with key `k` set to `v`: the first entry with that key is
/// replaced in place, or a new entry is added at the end.
pub open spec fn put(m: Seq<(Seq<char>, JsonModel)>, k: Seq<char>, v: JsonModel) -> Seq<(Seq<char>, JsonModel)> {
    match key_index(m, k) {
        Some(i) => m.update(i, (k, v)),
        None => m.push((k, v)),
    }
}

proof fn lemma_first_key_unique(m: Seq<(Seq<char>, JsonModel)>, k: Seq<char>, i: int)
    requires
        first_key_at(m, k, i),
    ensures
        key_index(m, k) == Some(i),
{
    let c = choose|c: int| first_key_at(m, k, c);
    assert(c == i) by {
        if c < i {
            assert(m[c].0 != k);
        } else if i < c {
            assert(m[i].0 != k);
        }
    }
}

/// The position of the first entry of `m` with key `k`.
pub fn find_key(m: &Vec<(String, JsonValue)>, k: &str) -> (r: Option<usize>)
    ensures
        match r {
            Some(i) => key_index(entries_model(m@), k@) == Some(i as int) && i < m@.len(),
            None => key_index(entries_model(m@), k@) is None,
        },
{
    let ghost em = entries_model(m@);
    let mut i: usize = 0;
    while i < m.len()
        invariant
            i <= m@.len(),
            em == entries_model(m@),
            forall|j: int| 0 <= j < i ==> em[j].0 != k@,
        decreases m@.len() - i,
    {
        if str_eq(m[i].0.as_str(), k) {
            proof {
                lemma_first_key_unique(em, k@, i as int);
            }
            return Some(i);
        }
        i = i + 1;
    }
    None
}

/// Sets key `key` of the object `m` to `value`.
pub fn put_entry(m: &mut Vec<(String, JsonValue)>, key: String, value: JsonValue)
    ensures
        entries_model(final(m)@) == put(entries_model(old(m)@), key@, model(value)),
{
    let ghost old_em = entries_model(m@);
    match find_key(m, key.as_str()) {
        Some(k) => {
            let _ = m.remove(k);
            m.insert(k, (key, value));
            assert(entries_model(m@) =~= old_em.update(k as int, (key@, model(value))));
        },
        None => {
            m.push((key, value));
            assert(entries_model(m@) =~= old_em.push((key@, model(value))));
        },
    }
}

/// The segments of `p` between dots: one more than the dots in `p`.
pub open spec fn dot_segments(p: Seq<char>) -> Seq<Seq<char>>
    decreases p.len(),
{
    if p.len() == 0 {
        seq![Seq::empty()]
    } else {
        let s = dot_segments(p.drop_last());
        if p.last() == '.' {
            s.push(Seq::empty())
        } else {
            s.update(s.len() - 1, s.last().push(p.last()))
        }
    }
}

proof fn lemma_dot_segments_nonempty(p: Seq<char>)
    ensures
        dot_segments(p).len() >= 1,
    decreases p.len(),
{
    if p.len() > 0 {
        lemma_dot_segments_nonempty(p.drop_last());
    }
}

/// The segments of a dotted path.
pub fn split_dots(path: &str) -> (r: Vec<String>)
    ensures
        r@.len() == dot_segments(path@).len(),
        forall|i: int| 0 <= i < r@.len() ==> (#[trigger] r@[i])@ == dot_segments(path@)[i],
{
    let cs = chars_of(path);
    let mut segs: Vec<String> = Vec::new();
    let mut cur: Vec<char> = Vec::new();
    let mut i: usize = 0;
    assert(cs@.take(0) =~= Seq::<char>::empty());
    while i < cs.len()
        invariant
            i <= cs@.len(),
            cs@ == path@,
            dot_segments(cs@.take(i as int)).len() == segs@.len() + 1,
            forall|j: int| 0 <= j < segs@.len() ==> (#[trigger] segs@[j])@ == dot_segments(cs@.take(i as int))[j],
            dot_segments(cs@.take(i as int)).last() == cur@,
        decreases cs@.len() - i,
    {
        let c = cs[i];
        assert(cs@.take(i + 1).drop_last() =~= cs@.take(i as int));
        if c == '.' {
            segs.push(string_of(cur.as_slice()));
            cur = Vec::new();
        } else {
            cur.push(c);
        }
        i = i + 1;
    }
    assert(cs@.take(i as int) =~= cs@);
    segs.push(string_of(cur.as_slice()));
    segs
}

/// The entries a path descends into at value `v`: an object's own, or
/// those of an object given by its JSON text; `None` for any other value.
pub open spec fn object_entries(v: JsonModel) -> Option<Seq<(Seq<char>, JsonModel)>> {
    match v {
        JsonModel::Object(m) => Some(m),
        JsonModel::Encoded(t) => match json_object_entries(t) {
            Some(es) => Some(Seq::new(es.len(), |i: int| (es[i].0, JsonModel::Encoded(es[i].1)))),
            None => None,
        },
        _ => None,
    }
}

/// The object `m` with `v` set at the path `segs` (at least one
/// segment), the objects on the way created where a key is absent; or
/// the segment that was to be looked up in a value that is no object.
pub open spec fn insert_model(m: Seq<(Seq<char>, JsonModel)>, segs: Seq<Seq<char>>, v: JsonModel) -> Result<
    Seq<(Seq<char>, JsonModel)>,
    Seq<char>,
>
    decreases segs.len(),
{
    if segs.len() <= 1 {
        Ok(put(m, segs[0], v))
    } else {
        let child = match lookup(m, segs[0]) {
            Some(c) => c,
            None => JsonModel::Object(Seq::empty()),
        };
        match object_entries(child) {
            Some(cm) => match insert_model(cm, segs.drop_first(), v) {
                Ok(c2) => Ok(put(m, segs[0], JsonModel::Object(c2))),
                Err(s) => Err(s),
            },
            None => Err(segs[1]),
        }
    }
}

/// The views of a list of strings.
pub open spec fn seg_views(segs: Seq<String>) -> Seq<Seq<char>> {
    Seq::new(segs.len(), |i: int| segs[i]@)
}

proof fn lemma_object_model(cm: Vec<(String, JsonValue)>)
    ensures
        model(JsonValue::Object(cm)) == JsonModel::Object(entries_model(cm@)),
{
    assert(model(JsonValue::Object(cm))->Object_0 =~= entries_model(cm@));
}

/// Entries whose values are held as JSON text.
fn encoded_entries(es: Vec<(String, String)>) -> (r: Vec<(String, JsonValue)>)
    ensures
        entries_model(r@) == Seq::new(es@.len(), |i: int| (es@[i].0@, JsonModel::Encoded(es@[i].1@))),
{
    let mut out: Vec<(String, JsonValue)> = Vec::new();
    let mut i: usize = 0;
    while i < es.len()
        invariant
            i <= es@.len(),
            out@.len() == i,
            forall|j: int| 0 <= j < i ==> (#[trigger] out@[j]).0@ == es@[j].0@ && out@[j].1 == JsonValue::Encoded(es@[j].1),
        decreases es@.len() - i,
    {
        out.push((es[i].0.clone(), JsonValue::Encoded(es[i].1.clone())));
        i = i + 1;
    }
    assert(entries_model(out@) =~= Seq::new(es@.len(), |i: int| (es@[i].0@, JsonModel::Encoded(es@[i].1@))));
    out
}

fn insert_segments(m: &mut Vec<(String, JsonValue)>, segs: &Vec<String>, i: usize, value: JsonValue) -> (r: Result<(), String>)
    requires
        i < segs@.len(),
    ensures
        match insert_model(entries_model(old(m)@), seg_views(segs@).skip(i as int), model(value)) {
            Ok(m2) => r is Ok && entries_model(final(m)@) == m2,
            Err(s) => r matches Err(x) && x@ == s && entries_model(final(m)@) == entries_model(old(m)@),
        },
    decreases segs@.len() - i,
{
    let ghost em = entries_model(m@);
    let ghost sv = seg_views(segs@).skip(i as int);
    let key = segs[i].clone();
    assert(sv.len() == segs@.len() - i);
    assert(sv[0] == key@);
    if i == segs.len() - 1 {
        put_entry(m, key, value);
        assert(insert_model(em, sv, model(value)) == Ok::<Seq<(Seq<char>, JsonModel)>, Seq<char>>(put(em, key@, model(value))));
        return Ok(());
    }
    assert(sv.drop_first() =~= seg_views(segs@).skip(i + 1));
    assert(sv[1] == segs@[i + 1]@);
    match find_key(m, key.as_str()) {
        None => {
            let mut cm: Vec<(String, JsonValue)> = Vec::new();
            assert(entries_model(cm@) =~= Seq::empty());
            match insert_segments(&mut cm, segs, i + 1, value) {
                Ok(()) => {
                    proof {
                        lemma_object_model(cm);
                    }
                    put_entry(m, key, JsonValue::Object(cm));
                    assert(insert_model(em, sv, model(value)) is Ok);
                    assert(entries_model(m@) == insert_model(em, sv, model(value))->Ok_0);
                    Ok(())
                },
                Err(e) => {
                    assert(insert_model(em, sv, model(value)) == Err::<Seq<(Seq<char>, JsonModel)>, Seq<char>>(e@));
                    Err(e)
                },
            }
        },
        Some(k) => {
            let (kk, c) = m.remove(k);
            assert(em[k as int] == (kk@, model(c)));
            proof {
                lemma_first_key_unique(em, key@, k as int);
            }
            let r = match c {
                JsonValue::Object(cm0) => {
                    let mut cm = cm0;
                    proof {
                        lemma_object_model(cm);
                        assert(lookup(em, key@) == Some(JsonModel::Object(entries_model(cm@))));
                        assert(object_entries(JsonModel::Object(entries_model(cm@))) == Some(entries_model(cm@)));
                    }
                    let ghost cm_old = entries_model(cm@);
                    let r = insert_segments(&mut cm, segs, i + 1, value);
                    proof {
                        lemma_object_model(cm);
                        assert(insert_model(em, sv, model(value)) == match insert_model(cm_old, sv.drop_first(), model(value)) {
                            Ok(c2) => Ok(put(em, key@, JsonModel::Object(c2))),
                            Err(s) => Err(s),
                        });
                    }
                    m.insert(k, (kk, JsonValue::Object(cm)));
                    r
                },
                JsonValue::Encoded(t) => match literal_object_entries(t.as_str()) {
                    Some(es) => {
                        let mut cm = encoded_entries(es);
                        let ghost cm_old = entries_model(cm@);
                        proof {
                            assert(object_entries(JsonModel::Encoded(t@))->Some_0 =~= cm_old);
                            assert(lookup(em, key@) == Some(JsonModel::Encoded(t@)));
                        }
                        let r = insert_segments(&mut cm, segs, i + 1, value);
                        proof {
                            lemma_object_model(cm);
                        }
                        match r {
                            Ok(()) => m.insert(k, (kk, JsonValue::Object(cm))),
                            Err(_) => m.insert(k, (kk, JsonValue::Encoded(t))),
                        }
                        r
                    },
                    None => {
                        m.insert(k, (kk, JsonValue::Encoded(t)));
                        Err(segs[i + 1].clone())
                    },
                },
                other => {
                    m.insert(k, (kk, other));
                    Err(segs[i + 1].clone())
                },
            };
            assert(entries_model(m@) =~= em.update(k as int, entries_model(m@)[k as int]));
            assert(kk@ == key@);
            proof {
                let t = insert_model(em, sv, model(value));
                match &r {
                    Ok(_) => {
                        assert(t is Ok);
                        assert(entries_model(m@) == t->Ok_0);
                    },
                    Err(x) => {
                        assert(t == Err::<Seq<(Seq<char>, JsonModel)>, Seq<char>>(x@));
                        assert(entries_model(m@) =~= em);
                    },
                }
            }
            r
        },
    }
}

proof fn lemma_key_found(m: Seq<(Seq<char>, JsonModel)>, k: Seq<char>, j: int)
    requires
        0 <= j < m.len(),
        m[j].0 == k,
    ensures
        key_index(m, k) is Some,
    decreases j,
{
    if exists|i: int| 0 <= i < j && m[i].0 == k {
        let i = choose|i: int| 0 <= i < j && m[i].0 == k;
        lemma_key_found(m, k, i);
    } else {
        assert(first_key_at(m, k, j));
    }
}

proof fn lemma_lookup_put(m: Seq<(Seq<char>, JsonModel)>, k: Seq<char>, v: JsonModel)
    ensures
        lookup(put(m, k, v), k) == Some(v),
{
    match key_index(m, k) {
        Some(i) => {
            assert(first_key_at(m, k, i));
            assert(first_key_at(put(m, k, v), k, i));
            lemma_first_key_unique(put(m, k, v), k, i);
        },
        None => {
            let m2 = put(m, k, v);
            assert forall|j: int| 0 <= j < m.len() implies m2[j].0 != k by {
                if m[j].0 == k {
                    lemma_key_found(m, k, j);
                }
            }
            assert(first_key_at(m2, k, m.len() as int));
            lemma_first_key_unique(m2, k, m.len() as int);
        },
    }
}

proof fn lemma_walk_after_insert(m: Seq<(Seq<char>, JsonModel)>, segs: Seq<Seq<char>>, v: JsonModel)
    requires
        segs.len() >= 1,
        insert_model(m, segs, v) is Ok,
    ensures
        spec_walk(JsonModel::Object(insert_model(m, segs, v)->Ok_0), segs) == Some(v),
    decreases segs.len(),
{
    let m2 = insert_model(m, segs, v)->Ok_0;
    if segs.len() == 1 {
        lemma_lookup_put(m, segs[0], v);
        assert(spec_walk(v, segs.drop_first()) == Some(v));
    } else {
        let child = match lookup(m, segs[0]) {
            Some(c) => c,
            None => JsonModel::Object(Seq::empty()),
        };
        let cm = object_entries(child)->Some_0;
        lemma_walk_after_insert(cm, segs.drop_first(), v);
        let c2 = insert_model(cm, segs.drop_first(), v)->Ok_0;
        lemma_lookup_put(m, segs[0], JsonModel::Object(c2));
    }
}

proof fn lemma_lookup_put_other(m: Seq<(Seq<char>, JsonModel)>, k0: Seq<char>, v: JsonModel, k: Seq<char>)
    requires
        k != k0,
    ensures
        lookup(put(m, k0, v), k) == lookup(m, k),
{
    let m2 = put(m, k0, v);
    assert forall|j: int| 0 <= j < m.len() && m[j].0 == k implies m2[j] == m[j] by {
        if let Some(i) = key_index(m, k0) {
            assert(first_key_at(m, k0, i));
        }
    }
    assert forall|j: int| 0 <= j < m2.len() && m2[j].0 == k implies j < m.len() && m[j] == m2[j] by {
        if let Some(i) = key_index(m, k0) {
            assert(first_key_at(m, k0, i));
        }
    }
    match key_index(m, k) {
        Some(j) => {
            assert(first_key_at(m, k, j));
            assert(first_key_at(m2, k, j));
            lemma_first_key_unique(m2, k, j);
        },
        None => {
            if let Some(j) = key_index(m2, k) {
                assert(first_key_at(m2, k, j));
                lemma_key_found(m, k, j);
            }
        },
    }
}

/// Law: setting a value at a path leaves every other top-level key of
/// the object as it was.
pub proof fn law_insert_keeps_other_keys(m: Seq<(Seq<char>, JsonModel)>, path: Seq<char>, v: JsonModel, k: Seq<char>)
    requires
        spec_insert_at_path(m, path, v) is Ok,
        k != dot_segments(path)[0],
    ensures
        lookup(spec_insert_at_path(m, path, v)->Ok_0, k) == lookup(m, k),
{
    lemma_dot_segments_nonempty(path);
    let segs = dot_segments(path);
    if segs.len() == 1 {
        lemma_lookup_put_other(m, segs[0], v, k);
    } else {
        let child = match lookup(m, segs[0]) {
            Some(c) => c,
            None => JsonModel::Object(Seq::empty()),
        };
        let cm = object_entries(child)->Some_0;
        let c2 = insert_model(cm, segs.drop_first(), v)->Ok_0;
        lemma_lookup_put_other(m, segs[0], JsonModel::Object(c2), k);
    }
}

/// Law: what `insert_at_path` sets at a path, `walk_pointer` reads back at
/// that same path of the resulting object.
pub proof fn law_walk_reads_back_insert(m: Seq<(Seq<char>, JsonModel)>, path: Seq<char>, v: JsonModel)
    requires
        spec_insert_at_path(m, path, v) is Ok,
    ensures
        spec_walk(JsonModel::Object(spec_insert_at_path(m, path, v)->Ok_0), dot_segments(path)) == Some(v),
{
    lemma_dot_segments_nonempty(path);
    lemma_walk_after_insert(m, dot_segments(path), v);
}

/// The error reason when a path descends through `seg` into a value
/// that is no object.
pub open spec fn not_an_object_reason(seg: Seq<char>) -> Seq<char> {
    "path segment "@ + debug_str(seg) + " expected an object"@
}

/// The object `m` with `v` set at the dotted `path`, or the reason it
/// cannot be.
pub open spec fn spec_insert_at_path(m: Seq<(Seq<char>, JsonModel)>, path: Seq<char>, v: JsonModel) -> Result<
    Seq<(Seq<char>, JsonModel)>,
    Seq<char>,
> {
    match insert_model(m, dot_segments(path), v) {
        Ok(m2) => Ok(m2),
        Err(seg) => Err(not_an_object_reason(seg)),
    }
}

/// Sets `value` at the dot-separated `path` of the object `map`,
/// creating the objects on the way where a key is absent. A path that
/// runs through a value that is no object is a field-mapping error, and
/// `map` is then left as it was.
pub fn insert_at_path(map: &mut Vec<(String, JsonValue)>, path: &str, value: JsonValue) -> (r: Result<(), ApplyError>)
    ensures
        match spec_insert_at_path(entries_model(old(map)@), path@, model(value)) {
            Ok(m2) => r is Ok && entries_model(final(map)@) == m2,
            Err(reason) => r matches Err(ApplyError::FieldMapping { reason: x }) && x@ == reason
                && entries_model(final(map)@) == entries_model(old(map)@),
        },
{
    let segs = split_dots(path);
    proof {
        lemma_dot_segments_nonempty(path@);
        assert(seg_views(segs@).skip(0) =~= dot_segments(path@));
    }
    match insert_segments(map, &segs, 0, value) {
        Ok(()) => Ok(()),
        Err(seg) => {
            let mut m: Vec<char> = Vec::new();
            push_str(&mut m, "path segment ");
            let q = debug_quoted(seg.as_str());
            push_str(&mut m, q.as_str());
            push_str(&mut m, " expected an object");
            Err(ApplyError::FieldMapping { reason: string_of(m.as_slice()) })
        },
    }
}

/// The value of a string of ASCII digits.
pub open spec fn digits_value(s: Seq<char>) -> nat
    decreases s.len(),
{
    if s.len() == 0 {
        0
    } else {
        digits_value(s.drop_last()) * 10 + ((s.last() as nat) - ('0' as nat)) as nat
    }
}

/// Every character of `s` is an ASCII digit.
pub open spec fn all_digits(s: Seq<char>) -> bool {
    forall|i: int| 0 <= i < s.len() ==> '0' <= #[trigger] s[i] <= '9'
}

/// The index a path segment names, as an unsigned integer is parsed
/// from text: an optional `+`, then one or more ASCII digits.
pub open spec fn segment_index(seg: Seq<char>) -> Option<nat> {
    let body = if seg.len() > 0 && seg[0] == '+' { seg.drop_first() } else { seg };
    if body.len() > 0 && all_digits(body) {
        Some(digits_value(body))
    } else {
        None
    }
}

/// The value at the path `segs` below `v`: a segment is a key in an
/// object and an index in an array; `None` where the path leads nowhere.
/// A value held as JSON text is a leaf here: a plan's JSON form, which
/// pointers walk, holds none.
pub open spec fn spec_walk(v: JsonModel, segs: Seq<Seq<char>>) -> Option<JsonModel>
    decreases segs.len(),
{
    if segs.len() == 0 {
        Some(v)
    } else {
        match v {
            JsonModel::Object(m) => match lookup(m, segs[0]) {
                Some(c) => spec_walk(c, segs.drop_first()),
                None => None,
            },
            JsonModel::Array(a) => match segment_index(segs[0]) {
                Some(n) => if n < a.len() {
                    spec_walk(a[n as int], segs.drop_first())
                } else {
                    None
                },
                None => None,
            },
            _ => None,
        }
    }
}

proof fn lemma_digits_value_prefix(s: Seq<char>, j: int)
    requires
        0 <= j <= s.len(),
    ensures
        digits_value(s.take(j)) <= digits_value(s),
    decreases s.len(),
{
    if j < s.len() {
        assert(s.drop_last().take(j) =~= s.take(j));
        lemma_digits_value_prefix(s.drop_last(), j);
    } else {
        assert(s.take(j) =~= s);
    }
}

/// The index `seg` names, where it is below `len`.
fn index_below(seg: &str, len: usize) -> (r: Option<usize>)
    ensures
        match segment_index(seg@) {
            Some(n) => if n < len { r == Some(n as usize) } else { r is None },
            None => r is None,
        },
{
    let cs = chars_of(seg);
    let start: usize = if cs.len() > 0 && cs[0] == '+' { 1 } else { 0 };
    let ghost body = cs@.skip(start as int);
    proof {
        let sb = if seg@.len() > 0 && seg@[0] == '+' { seg@.drop_first() } else { seg@ };
        if start == 1 {
            assert(body =~= cs@.drop_first());
        } else {
            assert(body =~= cs@);
        }
        assert(sb == body);
    }
    assert(segment_index(seg@) == if body.len() > 0 && all_digits(body) { Some(digits_value(body)) } else { None::<nat> });
    if start >= cs.len() || len == 0 {
        assert(start >= cs@.len() ==> body.len() == 0);
        return None;
    }
    let mut acc: usize = 0;
    let mut i: usize = start;
    assert(body.take(0) =~= Seq::<char>::empty());
    while i < cs.len()
        invariant
            start <= i <= cs@.len(),
            body == cs@.skip(start as int),
            cs@ == seg@,
            all_digits(body.take(i - start)),
            acc == digits_value(body.take(i - start)),
            acc < len,
            segment_index(seg@) == if body.len() > 0 && all_digits(body) { Some(digits_value(body)) } else { None::<nat> },
        decreases cs@.len() - i,
    {
        let c = cs[i];
        if c < '0' || c > '9' {
            assert(body[i - start] == c);
            assert(!all_digits(body));
            return None;
        }
        let d: u32 = (c as u32) - ('0' as u32);
        let next: u128 = (acc as u128) * 10 + (d as u128);
        assert(body.take(i + 1 - start).drop_last() =~= body.take(i - start));
        assert(all_digits(body.take(i + 1 - start)));
        assert(body.take(i + 1 - start).last() == c);
        assert(next == digits_value(body.take(i + 1 - start)));
        if next >= len as u128 {
            proof {
                if all_digits(body) {
                    lemma_digits_value_prefix(body, i + 1 - start);
                }
            }
            return None;
        }
        acc = next as usize;
        i = i + 1;
    }
    assert(body.take(i - start) =~= body);
    Some(acc)
}

/// The value at the dot-separated `pointer` below `root`: numeric
/// segments address array elements, other segments object keys; `None`
/// where the pointer leads nowhere.
pub fn walk_pointer(root: &JsonValue, pointer: &str) -> (r: Option<JsonValue>)
    ensures
        match spec_walk(model(*root), dot_segments(pointer@)) {
            Some(v) => r matches Some(x) && model(x) == v,
            None => r is None,
        },
{
    let segs = split_dots(pointer);
    let ghost sv = dot_segments(pointer@);
    let mut current: &JsonValue = root;
    let mut i: usize = 0;
    assert(sv.skip(0) =~= sv);
    while i < segs.len()
        invariant
            i <= segs@.len(),
            sv == dot_segments(pointer@),
            segs@.len() == sv.len(),
            forall|j: int| 0 <= j < segs@.len() ==> (#[trigger] segs@[j])@ == sv[j],
            spec_walk(model(*root), sv) == spec_walk(model(*current), sv.skip(i as int)),
        decreases segs@.len() - i,
    {
        let seg = &segs[i];
        assert(sv.skip(i as int).drop_first() =~= sv.skip(i + 1));
        assert(sv.skip(i as int)[0] == seg@);
        match current {
            JsonValue::Object(m) => match find_key(m, seg.as_str()) {
                Some(k) => {
                    proof {
                        lemma_object_model(*m);
                    }
                    current = &m[k].1;
                },
                None => {
                    proof {
                        lemma_object_model(*m);
                        assert(lookup(entries_model(m@), seg@) is None);
                        assert(spec_walk(model(*current), sv.skip(i as int)) is None);
                    }
                    return None;
                },
            },
            JsonValue::Array(a) => match index_below(seg.as_str(), a.len()) {
                Some(n) => {
                    assert(model(JsonValue::Array(*a))->Array_0.len() == a@.len());
                    assert(model(JsonValue::Array(*a))->Array_0[n as int] == model(a@[n as int]));
                    current = &a[n];
                },
                None => {
                    assert(model(JsonValue::Array(*a))->Array_0.len() == a@.len());
                    assert(spec_walk(model(*current), sv.skip(i as int)) is None);
                    return None;
                },
            },
            _ => {
                assert(spec_walk(model(*current), sv.skip(i as int)) is None);
                return None;
            },
        }
        i = i + 1;
    }
    assert(sv.skip(i as int).len() == 0);
    Some(copy_value(current))
}

// ---------------------------------------------------------------------------
// Content assembly
// ---------------------------------------------------------------------------

/// The reason when a plan pointer leads nowhere.
pub open spec fn pointer_miss_reason(pointer: Seq<char>) -> Seq<char> {
    "from_plan pointer "@ + debug_str(pointer) + " resolved to nothing"@
}

/// The reason when an inner-extracted mapping has no inner leaves at all.
pub open spec fn no_inner_map_reason(path: Seq<char>) -> Seq<char> {
    "FieldMap "@ + debug_str(path)
        + " has ExtractedInner source but the apply path did not thread an inner-extractions map. This is a runtime bug; the validator should have ensured either the iterator or scalar+multi-field code path ran (ADR 0019 Phase 2A)."@
}

/// The reason when an inner-extracted mapping has no leaf of its own.
pub open spec fn no_inner_leaf_reason(path: Seq<char>) -> Seq<char> {
    "ExtractedInner FieldMap "@ + debug_str(path)
        + " produced no leaf for this match. The inner sub-spec ran but did not populate the per-match map \u{2014} this is a runtime bug."@
}

/// The value one field mapping resolves to: the extracted scalar, the
/// literal (by its JSON text), the plan's value at the pointer, or the
/// mapping's own inner leaf; else the field-mapping reason.
pub open spec fn spec_resolve_field_value(
    fm: FieldMap,
    extracted: JsonModel,
    plan: JsonModel,
    inner: Option<Seq<(Seq<char>, JsonModel)>>,
) -> Result<JsonModel, Seq<char>> {
    match fm.source {
        FieldValueSource::Extracted => Ok(extracted),
        FieldValueSource::Literal { value } => Ok(JsonModel::Encoded(value@)),
        FieldValueSource::FromPlan { pointer } => match spec_walk(plan, dot_segments(pointer@)) {
            Some(v) => Ok(v),
            None => Err(pointer_miss_reason(pointer@)),
        },
        FieldValueSource::ExtractedInner { .. } => match inner {
            None => Err(no_inner_map_reason(fm.path@)),
            Some(leaves) => match lookup(leaves, fm.path@) {
                Some(v) => Ok(v),
                None => Err(no_inner_leaf_reason(fm.path@)),
            },
        },
    }
}

/// Resolves one field mapping. `extracted` is the recipe's extracted
/// scalar and `inner` the inner leaves by mapping path, each already
/// read as a JSON scalar; `plan` is the plan's JSON form.
pub fn resolve_field_value(
    fm: &FieldMap,
    extracted: &JsonValue,
    plan: &JsonValue,
    inner: Option<&Vec<(String, JsonValue)>>,
) -> (r: Result<JsonValue, ApplyError>)
    ensures
        match spec_resolve_field_value(
            *fm,
            model(*extracted),
            model(*plan),
            match inner { Some(m) => Some(entries_model(m@)), None => None },
        ) {
            Ok(v) => r matches Ok(x) && model(x) == v,
            Err(reason) => r matches Err(ApplyError::FieldMapping { reason: x }) && x@ == reason,
        },
{
    match &fm.source {
        FieldValueSource::Extracted => Ok(copy_value(extracted)),
        FieldValueSource::Literal { value } => Ok(JsonValue::Encoded(value.clone())),
        FieldValueSource::FromPlan { pointer } => match walk_pointer(plan, pointer.as_str()) {
            Some(v) => Ok(v),
            None => {
                let mut m: Vec<char> = Vec::new();
                push_str(&mut m, "from_plan pointer ");
                let q = debug_quoted(pointer.as_str());
                push_str(&mut m, q.as_str());
                push_str(&mut m, " resolved to nothing");
                Err(ApplyError::FieldMapping { reason: string_of(m.as_slice()) })
            },
        },
        FieldValueSource::ExtractedInner { .. } => match inner {
            None => {
                let mut m: Vec<char> = Vec::new();
                push_str(&mut m, "FieldMap ");
                let q = debug_quoted(fm.path.as_str());
                push_str(&mut m, q.as_str());
                push_str(
                    &mut m,
                    " has ExtractedInner source but the apply path did not thread an inner-extractions map. This is a runtime bug; the validator should have ensured either the iterator or scalar+multi-field code path ran (ADR 0019 Phase 2A).",
                );
                Err(ApplyError::FieldMapping { reason: string_of(m.as_slice()) })
            },
            Some(leaves) => match find_key(leaves, fm.path.as_str()) {
                Some(k) => Ok(copy_value(&leaves[k].1)),
                None => {
                    let mut m: Vec<char> = Vec::new();
                    push_str(&mut m, "ExtractedInner FieldMap ");
                    let q = debug_quoted(fm.path.as_str());
                    push_str(&mut m, q.as_str());
                    push_str(
                        &mut m,
                        " produced no leaf for this match. The inner sub-spec ran but did not populate the per-match map \u{2014} this is a runtime bug.",
                    );
                    Err(ApplyError::FieldMapping { reason: string_of(m.as_slice()) })
                },
            },
        },
    }
}

/// A number bound to a field whose schema type is a string becomes the
/// string of its JSON text; any other value stays as it is.
pub open spec fn coerce_model(v: JsonModel, record_type: RecordType, path: Seq<char>) -> JsonModel {
    match v {
        JsonModel::Number(n) => if spec_path_expects_string(record_type, path) {
            JsonModel::Str(n)
        } else {
            v
        },
        _ => v,
    }
}

/// Stringifies a number bound to a string-typed field of the record.
pub fn coerce_for_string_path(value: &mut JsonValue, record_type: RecordType, path: &str)
    ensures
        model(*final(value)) == coerce_model(model(*old(value)), record_type, path@),
{
    if !path_expects_string(record_type, path) {
        return;
    }
    let n = match &*value {
        JsonValue::Number(n) => n.clone(),
        _ => {
            return;
        },
    };
    *value = JsonValue::Str(n);
}

/// The content object a binding's field mappings assemble, in order;
/// or the reason of the first mapping that fails, as the binding error
/// renders it.
pub open spec fn spec_build_content(
    fms: Seq<FieldMap>,
    record_type: RecordType,
    extracted: JsonModel,
    plan: JsonModel,
    inner: Option<Seq<(Seq<char>, JsonModel)>>,
) -> Result<Seq<(Seq<char>, JsonModel)>, Seq<char>>
    decreases fms.len(),
{
    if fms.len() == 0 {
        Ok(Seq::empty())
    } else {
        match spec_build_content(fms.drop_last(), record_type, extracted, plan, inner) {
            Err(e) => Err(e),
            Ok(m) => {
                let fm = fms.last();
                match spec_resolve_field_value(fm, extracted, plan, inner) {
                    Err(reason) => Err("field mapping: "@ + reason),
                    Ok(v) => match spec_insert_at_path(m, fm.path@, coerce_model(v, record_type, fm.path@)) {
                        Ok(m2) => Ok(m2),
                        Err(reason) => Err("field mapping: "@ + reason),
                    },
                }
            },
        }
    }
}

/// Assembles the content object of `binding` from its field mappings,
/// in order: each value is resolved, stringified where a number meets a
/// string-typed field, and set at the mapping's path. The first failure
/// is the binding error at `index`.
pub fn build_content(
    binding: &ProductionBinding,
    index: usize,
    extracted: &JsonValue,
    plan: &JsonValue,
    inner: Option<&Vec<(String, JsonValue)>>,
) -> (r: Result<Vec<(String, JsonValue)>, ApplyError>)
    ensures
        match spec_build_content(
            binding.field_mappings@,
            binding.record_type,
            model(*extracted),
            model(*plan),
            match inner { Some(m) => Some(entries_model(m@)), None => None },
        ) {
            Ok(c) => r matches Ok(x) && entries_model(x@) == c,
            Err(reason) => r matches Err(ApplyError::Binding { index: i, reason: x }) && i == index && x@ == reason,
        },
{
    let ghost im = match inner { Some(m) => Some(entries_model(m@)), None => None };
    let ghost fms = binding.field_mappings@;
    let mut content: Vec<(String, JsonValue)> = Vec::new();
    let mut i: usize = 0;
    assert(fms.take(0) =~= Seq::<FieldMap>::empty());
    assert(entries_model(content@) =~= Seq::empty());
    while i < binding.field_mappings.len()
        invariant
            i <= fms.len(),
            fms == binding.field_mappings@,
            im == match inner { Some(m) => Some(entries_model(m@)), None => None },
            spec_build_content(fms.take(i as int), binding.record_type, model(*extracted), model(*plan), im)
                == Ok::<Seq<(Seq<char>, JsonModel)>, Seq<char>>(entries_model(content@)),
        decreases fms.len() - i,
    {
        let fm = &binding.field_mappings[i];
        assert(fms.take(i + 1).drop_last() =~= fms.take(i as int));
        assert(fms.take(i + 1).last() == *fm);
        let mut value = match resolve_field_value(fm, extracted, plan, inner) {
            Ok(v) => v,
            Err(e) => {
                proof {
                    lemma_build_content_stops(fms, i as int, binding.record_type, model(*extracted), model(*plan), im);
                }
                return Err(ApplyError::Binding { index, reason: e.message() });
            },
        };
        coerce_for_string_path(&mut value, binding.record_type, fm.path.as_str());
        match insert_at_path(&mut content, fm.path.as_str(), value) {
            Ok(()) => {},
            Err(e) => {
                proof {
                    lemma_build_content_stops(fms, i as int, binding.record_type, model(*extracted), model(*plan), im);
                }
                return Err(ApplyError::Binding { index, reason: e.message() });
            },
        }
        i = i + 1;
    }
    assert(fms.take(i as int) =~= fms);
    Ok(content)
}

proof fn lemma_build_content_stops(
    fms: Seq<FieldMap>,
    i: int,
    record_type: RecordType,
    extracted: JsonModel,
    plan: JsonModel,
    inner: Option<Seq<(Seq<char>, JsonModel)>>,
)
    requires
        0 <= i < fms.len(),
        spec_build_content(fms.take(i + 1), record_type, extracted, plan, inner) is Err,
    ensures
        spec_build_content(fms, record_type, extracted, plan, inner) == spec_build_content(
            fms.take(i + 1),
            record_type,
            extracted,
            plan,
            inner,
        ),
    decreases fms.len() - i,
{
    if i + 1 < fms.len() {
        assert(fms.take(i + 2).drop_last() =~= fms.take(i + 1));
        lemma_build_content_stops(fms, i + 1, record_type, extracted, plan, inner);
    } else {
        assert(fms.take(i + 1) =~= fms);
    }
}

// ---------------------------------------------------------------------------
// Record drafts
// ---------------------------------------------------------------------------

/// One record as a recipe binding produces it, before its content is
/// read into the record type's own shape: its identifier, the record
/// type, the assembled content object, the dedup key, the fetch time, and
/// the provenance and subjects that the runtime stamps on it.
#[derive(Debug, PartialEq, Eq)]
pub struct RecordDraft {
    /// A fresh UUID version 7, in canonical hyphenated text.
    pub id: String,
    pub record_type: RecordType,
    pub content: Vec<(String, JsonValue)>,
    pub dedup_key: Option<String>,
    /// `{source_id}#recipe:{recipe id}@v{version}`.
    pub provenance_source_id: String,
    pub source_url: String,
    /// The extraction's selector path, behind the iterator's and ` >> `
    /// for an iterator recipe.
    pub selector_path: String,
    /// The extracted text, shortened for display.
    pub raw_bytes_excerpt: String,
    /// The plan's topic tags.
    pub topics: Vec<String>,
    /// When the caller fetched the bytes, in milliseconds since the Unix
    /// epoch.
    pub observed_at: i64,
}

/// The reason a record type that no recipe produces is refused.
pub open spec fn not_producible_reason(record_type: RecordType) -> Seq<char> {
    "record_type "@ + (if record_type is Document { "Document"@ } else { "Assertion"@ })
        + " is not producible from a recipe. Documents come from ingest (per-fetch Document synthesis, Session 69). Assertions come from the LLM extraction layer (they carry a claimant and stance that recipe field-mappings don't populate). See ADR 0007 and ADR 0004."@
}

/// The selector path stamped on a recipe's records.
pub open spec fn spec_record_selector_path(recipe: FetchRecipe) -> Seq<char> {
    match recipe.iterator {
        Some(it) => spec_render_selector_path(it) + " >> "@ + spec_render_selector_path(recipe.extraction),
        None => spec_render_selector_path(recipe.extraction),
    }
}

/// `d` is the draft of `binding` with content `content`.
pub open spec fn draft_matches(
    d: RecordDraft,
    binding: ProductionBinding,
    content: Seq<(Seq<char>, JsonModel)>,
    extracted_text: Seq<char>,
    recipe: FetchRecipe,
    plan: ResearchPlan,
    dedup_key: Option<Seq<char>>,
    fetched_at: i64,
) -> bool {
    &&& is_v7_uuid_text(d.id@)
    &&& d.observed_at == fetched_at
    &&& d.record_type == binding.record_type
    &&& entries_model(d.content@) == content
    &&& opt_string_view(d.dedup_key) == dedup_key
    &&& d.provenance_source_id@ == spec_recipe_source_id(recipe.source_id@, recipe.id@, recipe.version as nat)
    &&& d.source_url@ == recipe.source_url@
    &&& d.selector_path@ == spec_record_selector_path(recipe)
    &&& d.raw_bytes_excerpt@ == spec_truncate_excerpt(extracted_text)
    &&& d.topics@.len() == plan.topic_tags@.len()
    &&& forall|i: int| 0 <= i < d.topics@.len() ==> (#[trigger] d.topics@[i])@ == plan.topic_tags@[i]@
}

fn copy_strings(v: &Vec<String>) -> (r: Vec<String>)
    ensures
        r@.len() == v@.len(),
        forall|i: int| 0 <= i < r@.len() ==> (#[trigger] r@[i])@ == v@[i]@,
{
    let mut out: Vec<String> = Vec::new();
    let mut i: usize = 0;
    while i < v.len()
        invariant
            i <= v@.len(),
            out@.len() == i,
            forall|j: int| 0 <= j < i ==> (#[trigger] out@[j])@ == v@[j]@,
        decreases v@.len() - i,
    {
        out.push(v[i].clone());
        i = i + 1;
    }
    out
}

/// Builds the record draft of one binding. `extracted_text` is the
/// recipe's extracted text and `extracted` the same read as a JSON
/// scalar; `inner` holds the inner leaves by mapping path, so read;
/// `plan_json` is the plan's JSON form, which plan pointers walk. The
/// content is assembled first; Document and Assertion bindings are then
/// refused, since no recipe produces them. The draft carries a fresh
/// version-7 identifier (which one depends on the clock and on chance)
/// and is stamped with `fetched_at`, the caller's fetch time.
pub fn build_record(
    binding: &ProductionBinding,
    index: usize,
    extracted_text: &str,
    extracted: &JsonValue,
    inner: Option<&Vec<(String, JsonValue)>>,
    recipe: &FetchRecipe,
    plan: &ResearchPlan,
    plan_json: &JsonValue,
    dedup_key: Option<String>,
    fetched_at: i64,
) -> (r: Result<RecordDraft, ApplyError>)
    ensures
        match spec_build_content(
            binding.field_mappings@,
            binding.record_type,
            model(*extracted),
            model(*plan_json),
            match inner { Some(m) => Some(entries_model(m@)), None => None },
        ) {
            Err(reason) => r matches Err(ApplyError::Binding { index: i, reason: x }) && i == index && x@ == reason,
            Ok(c) => if binding.record_type is Document || binding.record_type is Assertion {
                r matches Err(ApplyError::Binding { index: i, reason: x }) && i == index && x@
                    == not_producible_reason(binding.record_type)
            } else {
                r matches Ok(d) && draft_matches(d, *binding, c, extracted_text@, *recipe, *plan, opt_string_view(dedup_key), fetched_at)
            },
        },
{
    let content = build_content(binding, index, extracted, plan_json, inner)?;
    match binding.record_type {
        RecordType::Document | RecordType::Assertion => {
            let mut m: Vec<char> = Vec::new();
            push_str(&mut m, "record_type ");
            match binding.record_type {
                RecordType::Document => push_str(&mut m, "Document"),
                _ => push_str(&mut m, "Assertion"),
            }
            push_str(
                &mut m,
                " is not producible from a recipe. Documents come from ingest (per-fetch Document synthesis, Session 69). Assertions come from the LLM extraction layer (they carry a claimant and stance that recipe field-mappings don't populate). See ADR 0007 and ADR 0004.",
            );
            return Err(ApplyError::Binding { index, reason: string_of(m.as_slice()) });
        },
        _ => {},
    }
    let inner_path = render_selector_path(&recipe.extraction);
    let selector_path = match &recipe.iterator {
        Some(it) => {
            let mut p: Vec<char> = Vec::new();
            let outer = render_selector_path(it);
            push_str(&mut p, outer.as_str());
            push_str(&mut p, " >> ");
            push_str(&mut p, inner_path.as_str());
            string_of(p.as_slice())
        },
        None => inner_path,
    };
    Ok(RecordDraft {
        id: new_v7_id(),
        record_type: binding.record_type,
        content,
        dedup_key,
        provenance_source_id: recipe_source_id(recipe),
        source_url: recipe.source_url.clone(),
        selector_path,
        raw_bytes_excerpt: truncate_excerpt(extracted_text),
        topics: copy_strings(&plan.topic_tags),
        observed_at: fetched_at,
    })
}

/// The string at top-level key `key` of a content object: a string
/// value, or a literal whose JSON text is a string.
pub open spec fn string_field(m: Seq<(Seq<char>, JsonModel)>, key: Seq<char>) -> Option<Seq<char>> {
    match lookup(m, key) {
        Some(JsonModel::Str(s)) => Some(s),
        Some(JsonModel::Encoded(t)) => json_string_literal(t),
        _ => None,
    }
}

/// One string field of an entity's content, as an entity record reads
/// it from the assembled content (the entity id, kind and canonical
/// name); a missing or non-string field is a content-assembly error.
pub fn entity_field(content: &Vec<(String, JsonValue)>, key: &str) -> (r: Result<String, ApplyError>)
    ensures
        match string_field(entries_model(content@), key@) {
            Some(s) => r matches Ok(x) && x@ == s,
            None => r matches Err(ApplyError::ContentAssembly { reason: x }) && x@ == spec_truncate_reason(
                "entity content: missing or non-string `"@ + key@ + "`"@,
            ),
        },
{
    let found = match find_key(content, key) {
        Some(k) => match &content[k].1 {
            JsonValue::Str(s) => Some(s.clone()),
            JsonValue::Encoded(t) => literal_string(t.as_str()),
            _ => None,
        },
        None => None,
    };
    match found {
        Some(s) => Ok(s),
        None => {
            let mut m: Vec<char> = Vec::new();
            push_str(&mut m, "entity content: missing or non-string `");
            push_str(&mut m, key);
            push_str(&mut m, "`");
            Err(ApplyError::ContentAssembly { reason: truncate_content_assembly_reason(string_of(m.as_slice())) })
        },
    }
}

/// The content one binding's draft holds, or the reason it fails.
pub open spec fn binding_outcome(
    b: ProductionBinding,
    extracted: JsonModel,
    plan: JsonModel,
    inner: Option<Seq<(Seq<char>, JsonModel)>>,
) -> Result<Seq<(Seq<char>, JsonModel)>, Seq<char>> {
    match spec_build_content(b.field_mappings@, b.record_type, extracted, plan, inner) {
        Err(reason) => Err(reason),
        Ok(c) => if b.record_type is Document || b.record_type is Assertion {
            Err(not_producible_reason(b.record_type))
        } else {
            Ok(c)
        },
    }
}

/// The inner leaves of binding `k`, as models.
pub open spec fn inner_models(inner: Seq<Option<Vec<(String, JsonValue)>>>, k: int) -> Option<Seq<(Seq<char>, JsonModel)>> {
    match inner[k] {
        Some(m) => Some(entries_model(m@)),
        None => None,
    }
}

/// The contents of the first `k` bindings' drafts, or the first failing
/// binding and its reason.
pub open spec fn spec_scalar_contents(
    recipe: FetchRecipe,
    extracted: JsonModel,
    plan: JsonModel,
    inner: Seq<Option<Vec<(String, JsonValue)>>>,
    k: int,
) -> Result<Seq<Seq<(Seq<char>, JsonModel)>>, (nat, Seq<char>)>
    decreases k,
{
    if k <= 0 {
        Ok(Seq::empty())
    } else {
        match spec_scalar_contents(recipe, extracted, plan, inner, k - 1) {
            Err(e) => Err(e),
            Ok(cs) => match binding_outcome(recipe.produces@[k - 1], extracted, plan, inner_models(inner, k - 1)) {
                Err(reason) => Err(((k - 1) as nat, reason)),
                Ok(c) => Ok(cs.push(c)),
            },
        }
    }
}

proof fn lemma_scalar_contents_err(
    recipe: FetchRecipe,
    extracted: JsonModel,
    plan: JsonModel,
    inner: Seq<Option<Vec<(String, JsonValue)>>>,
    j: int,
    k: int,
)
    requires
        0 <= j <= k,
        spec_scalar_contents(recipe, extracted, plan, inner, j) is Err,
    ensures
        spec_scalar_contents(recipe, extracted, plan, inner, k) == spec_scalar_contents(recipe, extracted, plan, inner, j),
    decreases k - j,
{
    if j < k {
        lemma_scalar_contents_err(recipe, extracted, plan, inner, j, k - 1);
    }
}

/// The record drafts of a scalar recipe, one per binding in order, each
/// without a dedup key and stamped with `fetched_at`. `extracted_text`
/// is the recipe's extracted text and `extracted` the same read as a JSON
/// scalar; `inner` holds, per binding, its inner leaves so read. The
/// first binding that fails ends the run with its error.
pub fn scalar_drafts(
    recipe: &FetchRecipe,
    plan: &ResearchPlan,
    plan_json: &JsonValue,
    extracted_text: &str,
    extracted: &JsonValue,
    inner: &Vec<Option<Vec<(String, JsonValue)>>>,
    fetched_at: i64,
) -> (r: Result<Vec<RecordDraft>, ApplyError>)
    requires
        inner@.len() == recipe.produces@.len(),
    ensures
        match spec_scalar_contents(*recipe, model(*extracted), model(*plan_json), inner@, recipe.produces@.len() as int) {
            Ok(cs) => r matches Ok(v) && v@.len() == cs.len() && forall|k: int|
                0 <= k < v@.len() ==> draft_matches(
                    #[trigger] v@[k],
                    recipe.produces@[k],
                    cs[k],
                    extracted_text@,
                    *recipe,
                    *plan,
                    None,
                    fetched_at,
                ),
            Err((i, reason)) => r matches Err(ApplyError::Binding { index: x, reason: y }) && x as nat == i && y@ == reason,
        },
{
    let ghost em = model(*extracted);
    let ghost pm = model(*plan_json);
    let ghost cs_final = spec_scalar_contents(*recipe, em, pm, inner@, recipe.produces@.len() as int);
    let mut out: Vec<RecordDraft> = Vec::new();
    let mut k: usize = 0;
    while k < recipe.produces.len()
        invariant
            k <= recipe.produces@.len(),
            inner@.len() == recipe.produces@.len(),
            em == model(*extracted),
            pm == model(*plan_json),
            spec_scalar_contents(*recipe, em, pm, inner@, k as int) matches Ok(cs) && cs.len() == k && out@.len() == k
                && forall|j: int| 0 <= j < k ==> draft_matches(
                    #[trigger] out@[j],
                    recipe.produces@[j],
                    cs[j],
                    extracted_text@,
                    *recipe,
                    *plan,
                    None,
                    fetched_at,
                ),
        decreases recipe.produces@.len() - k,
    {
        let leaves = match &inner[k] {
            Some(m) => Some(m),
            None => None,
        };
        assert(match leaves { Some(m) => Some(entries_model(m@)), None => None::<Seq<(Seq<char>, JsonModel)>> } == inner_models(inner@, k as int));
        match build_record(&recipe.produces[k], k, extracted_text, extracted, leaves, recipe, plan, plan_json, None, fetched_at) {
            Err(e) => {
                proof {
                    lemma_scalar_contents_err(*recipe, em, pm, inner@, k + 1, recipe.produces@.len() as int);
                }
                return Err(e);
            },
            Ok(d) => {
                out.push(d);
            },
        }
        k += 1;
    }
    Ok(out)
}

} // verus!
