//! Retrievers: where resources come from, and how responses become resources.
use vstd::prelude::*;

pub mod response;
pub mod xml;

pub use response::{
    clean_content, clean_value, default_delimiter, strip_xml_namespaces, ComposeFormat, FieldMap, JsonConfig,
    Mapping, ResponseFormat, Source, Transform, XmlConfig,
};
pub use xml::xml_to_json;

use response::{spec_clean, spec_strip_xml_namespaces};
use xml::spec_xml_to_json;

use crate::json::{
    clone_json, deep_all, deep_all_entries, get, lemma_deep_all, lemma_deep_all_entries, spec_get,
    JsonSpec, JsonValue,
};
use crate::error::LearnerError;
use crate::keyed::{keyed_view, put_keyed, spec_put_keyed};
use crate::pattern::{regex_capture1, regex_is_match, spec_regex_capture1, spec_regex_error, spec_regex_is_match, spec_regex_valid};
use crate::record::{Resource, Retrieval};
use crate::text::{replace_all, spec_replace_all};
use crate::json::{put, spec_put};
use crate::template::{field_index, opt_index, spec_field_index, FieldDefinition, Template, TemplatedItem};
use crate::text::{join, owned, parse_usize, spec_join, spec_parse_usize, spec_split, split_char, str_eq, views};

verus! {

broadcast use vstd::std_specs::vec::group_vec_axioms;

// ---------------------------------------------------------------------------
// Paths
// ---------------------------------------------------------------------------

/// The values under `key` of the items that are objects holding `key`, in
/// order.
pub open spec fn spec_collect_key(items: Seq<JsonSpec>, key: Seq<char>) -> Seq<JsonSpec>
    decreases items.len(),
{
    if items.len() == 0 {
        seq![]
    } else {
        let rest = spec_collect_key(items.drop_last(), key);
        match items.last() {
            JsonSpec::Object(e) => match spec_get(e, key) {
                Some(v) => rest.push(v),
                None => rest,
            },
            _ => rest,
        }
    }
}

/// Following components `i..` of a path from `current`, inside the document
/// `root`: an object is entered at the key; an array at the index when the
/// component is a number, else at the key of each of its objects (one value
/// found is entered; several are the result, as an array); anything else
/// gives the whole document.
pub open spec fn spec_path_from(root: JsonSpec, current: JsonSpec, path: Seq<Seq<char>>, i: int) -> Option<
    JsonSpec,
>
    decreases path.len() - i,
{
    if i < 0 || i >= path.len() {
        Some(current)
    } else {
        match current {
            JsonSpec::Object(e) => match spec_get(e, path[i]) {
                Some(v) => spec_path_from(root, v, path, i + 1),
                None => None,
            },
            JsonSpec::Array(items) => match spec_parse_usize(path[i]) {
                Some(idx) => if idx < items.len() {
                    spec_path_from(root, items[idx as int], path, i + 1)
                } else {
                    None
                },
                None => {
                    let vals = spec_collect_key(items, path[i]);
                    if vals.len() == 0 {
                        None
                    } else if vals.len() == 1 {
                        spec_path_from(root, vals[0], path, i + 1)
                    } else {
                        Some(JsonSpec::Array(vals))
                    }
                },
            },
            _ => Some(root),
        }
    }
}

/// The value at a path in a document.
pub open spec fn spec_get_path(json: JsonSpec, path: Seq<Seq<char>>) -> Option<JsonSpec> {
    spec_path_from(json, json, path, 0)
}

fn collect_key(items: &Vec<JsonValue>, key: &str) -> (r: Vec<JsonValue>)
    ensures
        deep_all(r@) == spec_collect_key(deep_all(items@), key@),
{
    let ghost d = deep_all(items@);
    proof {
        lemma_deep_all(items@);
    }
    let mut out: Vec<JsonValue> = Vec::new();
    let mut i: usize = 0;
    proof {
        lemma_deep_all(out@);
        assert(d.take(0) =~= Seq::<JsonSpec>::empty());
        assert(deep_all(out@) =~= spec_collect_key(d.take(0), key@));
    }
    while i < items.len()
        invariant
            i <= items.len(),
            d == deep_all(items@),
            d.len() == items@.len(),
            forall|k: int| 0 <= k < items@.len() ==> #[trigger] d[k] == items@[k].deep(),
            deep_all(out@) == spec_collect_key(d.take(i as int), key@),
        decreases items.len() - i,
    {
        proof {
            assert(d.take(i + 1).drop_last() =~= d.take(i as int));
            assert(d.take(i + 1).last() == d[i as int]);
            lemma_deep_all(out@);
        }
        let ghost before = out@;
        match &items[i] {
            JsonValue::Object(e) => {
                proof {
                    lemma_deep_all_entries(e@);
                }
                match get(e, key) {
                    Some(v) => {
                        out.push(clone_json(v));
                        proof {
                            lemma_deep_all(out@);
                            assert(deep_all(out@) =~= deep_all(before).push(v.deep()));
                        }
                    },
                    None => {},
                }
            },
            _ => {},
        }
        i = i + 1;
    }
    assert(d.take(items.len() as int) =~= d);
    out
}

/// Gets the value at a path in a document.
pub fn get_path_value(json: &JsonValue, path: &Vec<String>) -> (r: Option<JsonValue>)
    ensures
        r is Some <==> spec_get_path(json.deep(), path@.map_values(|s: String| s@)) is Some,
        r matches Some(v) ==> Some(v.deep()) == spec_get_path(json.deep(), path@.map_values(|s: String| s@)),
{
    let ghost p = path@.map_values(|s: String| s@);
    let mut current = clone_json(json);
    let mut i: usize = 0;
    while i < path.len()
        invariant
            i <= path.len(),
            p == path@.map_values(|s: String| s@),
            spec_get_path(json.deep(), p) == spec_path_from(json.deep(), current.deep(), p, i as int),
        decreases path.len() - i,
    {
        let component = path[i].as_str();
        assert(p[i as int] == component@);
        match current {
            JsonValue::Object(e) => {
                proof {
                    lemma_deep_all_entries(e@);
                }
                match get(&e, component) {
                    Some(v) => {
                        current = clone_json(v);
                    },
                    None => {
                        return None;
                    },
                }
            },
            JsonValue::Array(arr) => {
                proof {
                    lemma_deep_all(arr@);
                }
                match parse_usize(component) {
                    Some(index) => {
                        if index < arr.len() {
                            current = clone_json(&arr[index]);
                        } else {
                            return None;
                        }
                    },
                    None => {
                        let values = collect_key(&arr, component);
                        proof {
                            lemma_deep_all(values@);
                        }
                        if values.len() == 0 {
                            return None;
                        } else if values.len() == 1 {
                            current = clone_json(&values[0]);
                        } else {
                            return Some(JsonValue::Array(values));
                        }
                    },
                }
            },
            _ => {
                return Some(clone_json(json));
            },
        }
        i = i + 1;
    }
    Some(current)
}


// ---------------------------------------------------------------------------
// Coercion
// ---------------------------------------------------------------------------

/// A single-element array stands for its element; anything else for itself.
pub open spec fn spec_coerce_string(v: JsonSpec) -> JsonSpec {
    if v is Array && v->Array_0.len() == 1 {
        v->Array_0[0]
    } else {
        v
    }
}

/// The value made to fit a definition: arrays wrap what is not one, strings
/// unwrap a single-element array, objects keep the defined fields (each
/// coerced in turn); the default definition (none found) is a string.
pub open spec fn spec_coerce(v: JsonSpec, def: Option<FieldDefinition>) -> JsonSpec {
    match def {
        Some(d) => spec_coerce_with(v, d),
        None => spec_coerce_string(v),
    }
}

/// The value made to fit the definition `d`.
pub open spec fn spec_coerce_with(v: JsonSpec, d: FieldDefinition) -> JsonSpec
    decreases d, 1int, 0int,
{
    let t = d.base_type@;
    if t == "array"@ {
        if v is Array {
            v
        } else {
            JsonSpec::Array(seq![v])
        }
    } else if t == "string"@ {
        spec_coerce_string(v)
    } else if t == "object"@ && v is Object && d.fields is Some {
        JsonSpec::Object(spec_coerce_members(d, v->Object_0, 0, seq![]))
    } else {
        v
    }
}

/// The entries `acc` with the defined fields `k..` of `d` that the object
/// holds put in, each coerced to its definition.
pub open spec fn spec_coerce_members(
    d: FieldDefinition,
    entries: Seq<(Seq<char>, JsonSpec)>,
    k: int,
    acc: Seq<(Seq<char>, JsonSpec)>,
) -> Seq<(Seq<char>, JsonSpec)>
    decreases d, 0int, d.fields->Some_0@.len() - k,
{
    if d.fields is None || k < 0 || k >= d.fields->Some_0@.len() {
        acc
    } else {
        let fd = d.fields->Some_0@[k];
        proof {
            assert(decreases_to!(d => d.fields));
            assert(decreases_to!(d.fields => d.fields->Some_0));
            assert(decreases_to!(d.fields->Some_0 => d.fields->Some_0@));
            assert(decreases_to!(d.fields->Some_0@ => d.fields->Some_0@[k]));
        }
        match spec_get(entries, fd.name@) {
            Some(val) => spec_coerce_members(d, entries, k + 1, spec_put(acc, fd.name@, spec_coerce_with(val, fd))),
            None => spec_coerce_members(d, entries, k + 1, acc),
        }
    }
}

/// The definition that a reference points to, if any.
pub open spec fn deref_def(o: Option<&FieldDefinition>) -> Option<FieldDefinition> {
    match o {
        Some(d) => Some(*d),
        None => None,
    }
}

fn coerce_string(value: &JsonValue) -> (r: JsonValue)
    ensures
        r.deep() == spec_coerce_string(value.deep()),
{
    match value {
        JsonValue::Array(arr) => {
            proof {
                lemma_deep_all(arr@);
            }
            if arr.len() == 1 {
                clone_json(&arr[0])
            } else {
                clone_json(value)
            }
        },
        _ => clone_json(value),
    }
}

fn coerce_with(value: &JsonValue, d: &FieldDefinition) -> (r: JsonValue)
    ensures
        r.deep() == spec_coerce_with(value.deep(), *d),
    decreases *d, 1int, 0int,
{
    let t = d.base_type.as_str();
    if str_eq(t, "array") {
        match value {
            JsonValue::Array(_) => clone_json(value),
            _ => {
                let mut v: Vec<JsonValue> = Vec::new();
                v.push(clone_json(value));
                proof {
                    lemma_deep_all(v@);
                }
                assert(deep_all(v@) =~= seq![value.deep()]);
                JsonValue::Array(v)
            },
        }
    } else if str_eq(t, "string") {
        coerce_string(value)
    } else if str_eq(t, "object") {
        match (value, &d.fields) {
            (JsonValue::Object(obj), Some(fields)) => {
                let ghost entries = deep_all_entries(obj@);
                let mut out: Vec<(String, JsonValue)> = Vec::new();
                proof {
                    lemma_deep_all_entries(out@);
                }
                let mut k: usize = 0;
                while k < fields.len()
                    invariant
                        k <= fields.len(),
                        d.fields == Some(*fields),
                        entries == deep_all_entries(obj@),
                        spec_coerce_members(*d, entries, 0, seq![]) == spec_coerce_members(
                            *d,
                            entries,
                            k as int,
                            deep_all_entries(out@),
                        ),
                    decreases fields.len() - k,
                {
                    proof {
                        assert(decreases_to!(*d => d.fields));
                        assert(decreases_to!(d.fields => d.fields->Some_0));
                        assert(decreases_to!(d.fields->Some_0 => d.fields->Some_0@));
                        assert(decreases_to!(d.fields->Some_0@ => d.fields->Some_0@[k as int]));
                    }
                    let fd = &fields[k];
                    match get(obj, fd.name.as_str()) {
                        Some(val) => {
                            let c = coerce_with(val, fd);
                            put(&mut out, owned(fd.name.as_str()), c);
                        },
                        None => {},
                    }
                    k = k + 1;
                }
                JsonValue::Object(out)
            },
            _ => clone_json(value),
        }
    } else {
        clone_json(value)
    }
}

/// Makes a value fit a definition (`None` for the default definition, a
/// string).
fn coerce_value(value: &JsonValue, def: Option<&FieldDefinition>) -> (r: JsonValue)
    ensures
        r.deep() == spec_coerce(value.deep(), deref_def(def)),
{
    match def {
        Some(d) => coerce_with(value, d),
        None => coerce_string(value),
    }
}

/// The definition of the field `name` of an object or of an array's items:
/// the first field with the name in the definition's fields, else in its
/// items' fields; `None` stands for the default definition (a string).
pub open spec fn spec_get_field_def(parent: Option<FieldDefinition>, name: Seq<char>) -> Option<FieldDefinition> {
    match parent {
        None => None,
        Some(p) => {
            let own = match p.fields {
                Some(fs) => match spec_field_index(fs@, name, 0) {
                    Some(i) => Some(fs@[i]),
                    None => None,
                },
                None => None,
            };
            if own is Some {
                own
            } else {
                match p.items {
                    Some(it) => match it.fields {
                        Some(fs) => match spec_field_index(fs@, name, 0) {
                            Some(i) => Some(fs@[i]),
                            None => None,
                        },
                        None => None,
                    },
                    None => None,
                }
            }
        },
    }
}

fn get_field_def<'a>(parent: Option<&'a FieldDefinition>, name: &str) -> (r: Option<&'a FieldDefinition>)
    ensures
        deref_def(r) == spec_get_field_def(deref_def(parent), name@),
{
    match parent {
        None => None,
        Some(p) => {
            if let Some(fields) = &p.fields {
                if let Some(i) = field_index(fields, name) {
                    return Some(&fields[i]);
                }
            }
            if let Some(items) = &p.items {
                if let Some(fields) = &items.fields {
                    if let Some(i) = field_index(fields, name) {
                        return Some(&fields[i]);
                    }
                }
            }
            None
        },
    }
}

// ---------------------------------------------------------------------------
// Mappings
// ---------------------------------------------------------------------------

/// The components of a path: its text split at each `/`.
pub open spec fn spec_components(p: Seq<char>) -> Seq<Seq<char>> {
    spec_split(p, '/')
}

/// The strings found at paths `k..`, or the message for the first path that
/// leads to no string.
pub open spec fn spec_join_parts(json: JsonSpec, paths: Seq<String>, k: int) -> Result<Seq<Seq<char>>, Seq<char>>
    decreases paths.len() - k,
{
    if k < 0 || k >= paths.len() {
        Ok(seq![])
    } else {
        match spec_get_path(json, spec_components(paths[k]@)) {
            Some(JsonSpec::Str(s)) => match spec_join_parts(json, paths, k + 1) {
                Ok(rest) => Ok(seq![s] + rest),
                Err(e) => Err(e),
            },
            _ => Err("Path '"@ + paths[k]@ + "' is not a string"@),
        }
    }
}

/// What a mapping extracts from a document, coerced to the definition, or
/// the message of why it cannot.
pub open spec fn spec_extract(json: JsonSpec, m: Mapping, def: Option<FieldDefinition>) -> Result<JsonSpec, Seq<char>>
    decreases m, 2int, 0int,
{
    match m {
        Mapping::Path(p) => match spec_get_path(json, spec_components(p@)) {
            Some(v) => Ok(spec_coerce(v, def)),
            None => Err("Path '"@ + p@ + "' not found"@),
        },
        Mapping::Join { paths, with } => match spec_join_parts(json, paths@, 0) {
            Ok(parts) => Ok(spec_coerce(JsonSpec::Str(spec_join(parts, with@)), def)),
            Err(e) => Err(e),
        },
        Mapping::Object { from, map } => {
            let src = match from {
                Some(p) => match spec_get_path(json, spec_components(p@)) {
                    Some(v) => Ok(v),
                    None => Err("Path '"@ + p@ + "' not found"@),
                },
                None => Ok(json),
            };
            match src {
                Err(e) => Err(e),
                Ok(s) => Ok(
                    spec_coerce(
                        if s is Array {
                            JsonSpec::Array(spec_map_items(m, s->Array_0, s->Array_0.len() as int, def))
                        } else {
                            JsonSpec::Object(spec_map_object(m, s, 0, def, seq![]))
                        },
                        def,
                    ),
                ),
            }
        },
    }
}

/// The first `n` items, each mapped to an object by the entries of `m`.
pub open spec fn spec_map_items(m: Mapping, items: Seq<JsonSpec>, n: int, def: Option<FieldDefinition>) -> Seq<
    JsonSpec,
>
    decreases m, 1int, n,
{
    if n <= 0 || n > items.len() {
        seq![]
    } else {
        spec_map_items(m, items, n - 1, def).push(JsonSpec::Object(spec_map_object(m, items[n - 1], 0, def, seq![])))
    }
}

/// The entries `acc` with the entries `k..` of the mapping `m` put in: each
/// key with what its mapping extracts from `src`; keys whose mapping fails
/// are left out.
pub open spec fn spec_map_object(
    m: Mapping,
    src: JsonSpec,
    k: int,
    def: Option<FieldDefinition>,
    acc: Seq<(Seq<char>, JsonSpec)>,
) -> Seq<(Seq<char>, JsonSpec)>
    decreases m, 0int, m->map@.len() - k,
{
    if !(m is Object) || k < 0 || k >= m->map@.len() {
        acc
    } else {
        let key = m->map@[k].0;
        let sub = m->map@[k].1;
        proof {
            assert(decreases_to!(m => m->map));
            assert(decreases_to!(m->map => m->map@));
            assert(decreases_to!(m->map@ => m->map@[k]));
            assert(decreases_to!(m->map@[k] => m->map@[k].1));
        }
        match spec_extract(src, sub, spec_get_field_def(def, key@)) {
            Ok(v) => spec_map_object(m, src, k + 1, def, spec_put(acc, key@, v)),
            Err(_) => spec_map_object(m, src, k + 1, def, acc),
        }
    }
}

fn components(p: &str) -> (r: Vec<String>)
    ensures
        r@.map_values(|s: String| s@) == spec_components(p@),
{
    let r = split_char(p, '/');
    assert(r@.map_values(|s: String| s@) =~= spec_components(p@));
    r
}

fn not_found(p: &str) -> (e: LearnerError)
    ensures
        e is ApiError && e->ApiError_0@ == "Path '"@ + p@ + "' not found"@,
{
    LearnerError::ApiError(owned("Path '").concat(p).concat("' not found"))
}

fn api_message(e: LearnerError) -> (m: String)
    requires
        e is ApiError,
    ensures
        m@ == e->ApiError_0@,
{
    match e {
        LearnerError::ApiError(m) => m,
        _ => String::new(),
    }
}

/// Extracts the value that a mapping names in a document and coerces it to
/// the definition (`None` for the default definition, a string).
#[verifier::loop_isolation(false)]
fn extract_mapped_value(json: &JsonValue, mapping: &Mapping, def: Option<&FieldDefinition>) -> (r: Result<
    JsonValue,
    LearnerError,
>)
    ensures
        r is Ok <==> spec_extract(json.deep(), *mapping, deref_def(def)) is Ok,
        r matches Ok(v) ==> Ok::<JsonSpec, Seq<char>>(v.deep()) == spec_extract(json.deep(), *mapping, deref_def(def)),
        r matches Err(e) ==> e is ApiError && Err::<JsonSpec, Seq<char>>(e->ApiError_0@) == spec_extract(
            json.deep(),
            *mapping,
            deref_def(def),
        ),
    decreases *mapping, 2int, 0int,
{
    match mapping {
        Mapping::Path(p) => {
            let comps = components(p.as_str());
            match get_path_value(json, &comps) {
                Some(v) => Ok(coerce_value(&v, def)),
                None => Err(not_found(p.as_str())),
            }
        },
        Mapping::Join { paths, with } => {
            let mut parts: Vec<String> = Vec::new();
            let mut k: usize = 0;
            while k < paths.len()
                invariant
                    k <= paths.len(),
                    spec_join_parts(json.deep(), paths@, 0) matches Ok(all) ==> (spec_join_parts(
                        json.deep(),
                        paths@,
                        k as int,
                    ) matches Ok(rest) && all == views(parts@) + rest),
                    spec_join_parts(json.deep(), paths@, 0) is Err ==> spec_join_parts(json.deep(), paths@, 0)
                        == spec_join_parts(json.deep(), paths@, k as int),
                decreases paths.len() - k,
            {
                let comps = components(paths[k].as_str());
                match get_path_value(json, &comps) {
                    Some(JsonValue::String(s)) => {
                        let ghost before = parts@;
                        parts.push(s);
                        proof {
                            assert(views(parts@) =~= views(before).push(s@));
                            assert(views(before).push(s@) + spec_join_parts(json.deep(), paths@, k + 1)->Ok_0
                                =~= views(before) + (seq![s@] + spec_join_parts(json.deep(), paths@, k + 1)->Ok_0));
                        }
                    },
                    _ => {
                        return Err(
                            LearnerError::ApiError(
                                owned("Path '").concat(paths[k].as_str()).concat("' is not a string"),
                            ),
                        );
                    },
                }
                k = k + 1;
            }
            proof {
                assert(views(parts@) + Seq::<Seq<char>>::empty() =~= views(parts@));
            }
            let joined = JsonValue::String(join(&parts, with.as_str()));
            Ok(coerce_value(&joined, def))
        },
        Mapping::Object { from, map } => {
            let source = match from {
                Some(p) => {
                    let comps = components(p.as_str());
                    match get_path_value(json, &comps) {
                        Some(v) => v,
                        None => {
                            return Err(not_found(p.as_str()));
                        },
                    }
                },
                None => clone_json(json),
            };
            let raw = match &source {
                JsonValue::Array(items) => {
                    let ghost d = deep_all(items@);
                    proof {
                        lemma_deep_all(items@);
                    }
                    let mut out: Vec<JsonValue> = Vec::new();
                    let mut i: usize = 0;
                    while i < items.len()
                        invariant
                            i <= items.len(),
                            d == deep_all(items@),
                            d.len() == items@.len(),
                            forall|j: int| 0 <= j < items@.len() ==> #[trigger] d[j] == items@[j].deep(),
                            out@.len() == i,
                            deep_all(out@) == spec_map_items(*mapping, d, i as int, deref_def(def)),
                        decreases items.len() - i,
                    {
                        let obj = map_object(mapping, map, &items[i], def);
                        let ghost before = out@;
                        out.push(JsonValue::Object(obj));
                        proof {
                            lemma_deep_all(out@);
                            lemma_deep_all(before);
                            assert(deep_all(out@) =~= deep_all(before).push(out@[i as int].deep()));
                        }
                        i = i + 1;
                    }
                    JsonValue::Array(out)
                },
                other => JsonValue::Object(map_object(mapping, map, other, def)),
            };
            Ok(coerce_value(&raw, def))
        },
    }
}

/// The object that the entries of the mapping `mapping` (whose entries are
/// `map`) make from `src`.
fn map_object(mapping: &Mapping, map: &Vec<(String, Mapping)>, src: &JsonValue, def: Option<&FieldDefinition>) -> (r: Vec<
    (String, JsonValue),
>)
    requires
        *mapping matches Mapping::Object { map: m, .. } && m == *map,
    ensures
        deep_all_entries(r@) == spec_map_object(*mapping, src.deep(), 0, deref_def(def), seq![]),
    decreases *mapping, 1int, 0int,
{
    let mut obj: Vec<(String, JsonValue)> = Vec::new();
    proof {
        lemma_deep_all_entries(obj@);
    }
    let mut k: usize = 0;
    while k < map.len()
        invariant
            k <= map.len(),
            *mapping matches Mapping::Object { map: m, .. } && m == *map,
            spec_map_object(*mapping, src.deep(), 0, deref_def(def), seq![]) == spec_map_object(
                *mapping,
                src.deep(),
                k as int,
                deref_def(def),
                deep_all_entries(obj@),
            ),
        decreases map.len() - k,
    {
        proof {
            assert(decreases_to!(*mapping => mapping->map));
            assert(decreases_to!(mapping->map => mapping->map@));
            assert(decreases_to!(mapping->map@ => mapping->map@[k as int]));
            assert(decreases_to!(mapping->map@[k as int] => mapping->map@[k as int].1));
        }
        let key = map[k].0.as_str();
        let sub_def = get_field_def(def, key);
        match extract_mapped_value(src, &map[k].1, sub_def) {
            Ok(v) => {
                put(&mut obj, owned(key), v);
            },
            Err(_) => {},
        }
        k = k + 1;
    }
    obj
}

/// The index of the first mapping, from index `k` on, for the field `name`.
pub open spec fn spec_mapping_index(ms: Seq<(String, Mapping)>, name: Seq<char>, k: int) -> Option<int>
    decreases ms.len() - k,
{
    if k < 0 || k >= ms.len() {
        None
    } else if ms[k].0@ == name {
        Some(k)
    } else {
        spec_mapping_index(ms, name, k + 1)
    }
}

/// The entries `acc` with the fields `k..` of a template that have a mapping
/// put in, each with what its mapping extracts; or the message of the first
/// mapping that fails.
pub open spec fn spec_process_fields(
    json: JsonSpec,
    fields: Seq<FieldDefinition>,
    ms: Seq<(String, Mapping)>,
    k: int,
    acc: Seq<(Seq<char>, JsonSpec)>,
) -> Result<Seq<(Seq<char>, JsonSpec)>, Seq<char>>
    decreases fields.len() - k,
{
    if k < 0 || k >= fields.len() {
        Ok(acc)
    } else {
        match spec_mapping_index(ms, fields[k].name@, 0) {
            None => spec_process_fields(json, fields, ms, k + 1, acc),
            Some(x) => match spec_extract(json, ms[x].1, Some(fields[k])) {
                Ok(v) => spec_process_fields(json, fields, ms, k + 1, spec_put(acc, fields[k].name@, v)),
                Err(e) => Err(e),
            },
        }
    }
}

proof fn lemma_mapping_index(ms: Seq<(String, Mapping)>, name: Seq<char>, k: int)
    requires
        0 <= k,
    ensures
        spec_mapping_index(ms, name, k) matches Some(x) ==> k <= x < ms.len(),
    decreases ms.len() - k,
{
    if k < ms.len() && ms[k].0@ != name {
        lemma_mapping_index(ms, name, k + 1);
    }
}

fn mapping_index(ms: &Vec<(String, Mapping)>, name: &str) -> (r: Option<usize>)
    ensures
        opt_index(r) == spec_mapping_index(ms@, name@, 0),
        r matches Some(i) ==> i < ms@.len(),
{
    proof {
        lemma_mapping_index(ms@, name@, 0);
    }
    let mut k: usize = 0;
    while k < ms.len()
        invariant
            k <= ms.len(),
            spec_mapping_index(ms@, name@, 0) == spec_mapping_index(ms@, name@, k as int),
        decreases ms.len() - k,
    {
        if str_eq(ms[k].0.as_str(), name) {
            return Some(k);
        }
        k = k + 1;
    }
    None
}

/// Builds the entries of a templated item from a document: each field of
/// the template that has a mapping gets what its mapping extracts, coerced
/// to the field's definition. A mapping that fails fails the whole.
pub fn process_template_fields(
    json: &JsonValue,
    template: &Template,
    mappings: &Vec<(String, Mapping)>,
) -> (r: Result<TemplatedItem, LearnerError>)
    ensures
        r is Ok <==> spec_process_fields(json.deep(), template.fields@, mappings@, 0, seq![]) is Ok,
        r matches Ok(item) ==> Ok::<Seq<(Seq<char>, JsonSpec)>, Seq<char>>(deep_all_entries(item@))
            == spec_process_fields(json.deep(), template.fields@, mappings@, 0, seq![]),
        r matches Err(e) ==> e is ApiError && Err::<Seq<(Seq<char>, JsonSpec)>, Seq<char>>(e->ApiError_0@)
            == spec_process_fields(json.deep(), template.fields@, mappings@, 0, seq![]),
{
    let mut result: Vec<(String, JsonValue)> = Vec::new();
    proof {
        lemma_deep_all_entries(result@);
    }
    let mut k: usize = 0;
    while k < template.fields.len()
        invariant
            k <= template.fields.len(),
            spec_process_fields(json.deep(), template.fields@, mappings@, 0, seq![]) == spec_process_fields(
                json.deep(),
                template.fields@,
                mappings@,
                k as int,
                deep_all_entries(result@),
            ),
        decreases template.fields.len() - k,
    {
        let field_def = &template.fields[k];
        if let Some(x) = mapping_index(mappings, field_def.name.as_str()) {
            match extract_mapped_value(json, &mappings[x].1, Some(field_def)) {
                Ok(value) => {
                    put(&mut result, owned(field_def.name.as_str()), value);
                },
                Err(e) => {
                    return Err(e);
                },
            }
        }
        k = k + 1;
    }
    Ok(result)
}

// ---------------------------------------------------------------------------
// Retrievers
// ---------------------------------------------------------------------------

/// Where resources of one source are retrieved from, and how.
#[derive(Debug)]
pub struct Retriever {
    pub name: String,
    pub description: Option<String>,
    /// Base URL for API requests.
    pub base_url: String,
    /// Regex pattern for matching and extracting identifiers; its first
    /// capture group is the identifier.
    pub pattern: String,
    /// Source identifier for resources from this retriever.
    pub source: String,
    /// Template for constructing API endpoint URLs; `{identifier}` stands for
    /// the identifier.
    pub endpoint_template: String,
    pub response_format: ResponseFormat,
    /// HTTP headers for API requests, by name.
    pub headers: Vec<(String, String)>,
    pub resource: Resource,
    pub resource_mappings: Vec<(String, Mapping)>,
    pub retrieval: Retrieval,
    pub retrieval_mappings: Vec<(String, Mapping)>,
}

/// The identifier that the pattern extracts from the input: its first
/// capture group, when the pattern compiles and captures it.
pub open spec fn spec_extract_identifier(pattern: Seq<char>, input: Seq<char>) -> Option<Seq<char>> {
    if spec_regex_valid(pattern) {
        spec_regex_capture1(pattern, input)
    } else {
        None
    }
}

/// The pattern compiles and matches the input.
pub open spec fn spec_pattern_matches(pattern: Seq<char>, input: Seq<char>) -> bool {
    spec_regex_valid(pattern) && spec_regex_is_match(pattern, input)
}

impl Retriever {
    /// Whether the retriever's pattern matches the input.
    pub fn is_match(&self, input: &str) -> (r: bool)
        ensures
            r == spec_pattern_matches(self.pattern@, input@),
    {
        match regex_is_match(self.pattern.as_str(), input) {
            Ok(b) => b,
            Err(_) => false,
        }
    }

    /// Extracts the canonical identifier from an input string (a URL, a
    /// DOI, ...): the first capture group of the pattern.
    pub fn extract_identifier(&self, input: &str) -> (r: Result<String, LearnerError>)
        ensures
            r is Ok <==> spec_extract_identifier(self.pattern@, input@) is Some,
            r matches Ok(id) ==> id@ == spec_extract_identifier(self.pattern@, input@)->Some_0,
            r matches Err(e) ==> e is InvalidIdentifier,
    {
        match regex_capture1(self.pattern.as_str(), input) {
            Some(Some(id)) => Ok(id),
            _ => Err(LearnerError::InvalidIdentifier),
        }
    }

    /// The document of an XML response body: its JSON value, read after
    /// namespaces are stripped when the format asks for it. `None` when the
    /// retriever's responses are not XML.
    pub fn xml_document(&self, body: &str) -> (r: Option<JsonValue>)
        ensures
            self.response_format is Json ==> r is None,
            self.response_format matches ResponseFormat::Xml { strip_namespaces, .. } ==> r is Some && r->Some_0.deep()
                == spec_xml_to_json(
                if strip_namespaces {
                    spec_strip_xml_namespaces(body@)
                } else {
                    body@
                },
            ),
    {
        match &self.response_format {
            ResponseFormat::Xml { strip_namespaces, .. } => {
                if *strip_namespaces {
                    let stripped = strip_xml_namespaces(body);
                    Some(xml_to_json(stripped.as_str()))
                } else {
                    Some(xml_to_json(body))
                }
            },
            ResponseFormat::Json { .. } => None,
        }
    }

    /// The document, cleaned when the response format asks for it.
    pub fn finish_document(&self, doc: JsonValue) -> (r: JsonValue)
        ensures
            ({
                let clean = match self.response_format {
                    ResponseFormat::Xml { clean_content, .. } => clean_content,
                    ResponseFormat::Json { clean_content } => clean_content,
                };
                r.deep() == if clean {
                    spec_clean(doc.deep())
                } else {
                    doc.deep()
                }
            }),
    {
        let clean = match &self.response_format {
            ResponseFormat::Xml { clean_content, .. } => *clean_content,
            ResponseFormat::Json { clean_content } => *clean_content,
        };
        let mut d = doc;
        if clean {
            clean_value(&mut d);
        }
        d
    }

    /// Adds the source metadata to the entries of a resource: the
    /// retriever's source and the identifier.
    pub fn add_source(&self, resource: &mut TemplatedItem, identifier: &str)
        ensures
            deep_all_entries(final(resource)@) == spec_put(
                spec_put(deep_all_entries(old(resource)@), "source"@, JsonSpec::Str(self.source@)),
                "source_identifier"@,
                JsonSpec::Str(identifier@),
            ),
    {
        put(resource, owned("source"), JsonValue::String(self.source.clone()));
        put(resource, owned("source_identifier"), JsonValue::String(owned(identifier)));
    }

    /// The URL of the request for an identifier: the endpoint template with
    /// each `{identifier}` replaced by it.
    pub fn request_url(&self, identifier: &str) -> (r: String)
        ensures
            r@ == spec_replace_all(self.endpoint_template@, "{identifier}"@, identifier@),
    {
        proof {
            reveal_strlit("{identifier}");
        }
        replace_all(self.endpoint_template.as_str(), "{identifier}", identifier)
    }
}

/// Checks that a pattern is a regular expression, as configurations are
/// read: gives it back, or the message of the regex error.
pub fn deserialize_regex(pattern: String) -> (r: Result<String, String>)
    ensures
        r is Ok <==> spec_regex_valid(pattern@),
        r matches Ok(p) ==> p@ == pattern@,
        r matches Err(m) ==> m@ == spec_regex_error(pattern@),
{
    match regex_is_match(pattern.as_str(), "") {
        Ok(_) => Ok(pattern),
        Err(m) => Err(m),
    }
}

/// The retrievers known to the library, by name, in order of name.
#[derive(Debug)]
pub struct Retrievers {
    configs: Vec<(String, Retriever)>,
}

/// What the retrievers from index `k` on make of an input: the source and
/// identifier of each whose pattern matches, in order; `None` when one of
/// them matches but extracts no identifier.
pub open spec fn spec_scan(configs: Seq<(String, Retriever)>, input: Seq<char>, k: int) -> Option<
    Seq<(Seq<char>, Seq<char>)>,
>
    decreases configs.len() - k,
{
    if k < 0 || k >= configs.len() {
        Some(seq![])
    } else {
        let c = configs[k].1;
        if spec_pattern_matches(c.pattern@, input) {
            match spec_extract_identifier(c.pattern@, input) {
                None => None,
                Some(id) => match spec_scan(configs, input, k + 1) {
                    Some(rest) => Some(seq![(c.source@, id)] + rest),
                    None => None,
                },
            }
        } else {
            spec_scan(configs, input, k + 1)
        }
    }
}

/// The sources of the matches.
pub open spec fn match_sources(ms: Seq<(Seq<char>, Seq<char>)>) -> Seq<Seq<char>> {
    ms.map_values(|m: (Seq<char>, Seq<char>)| m.0)
}

impl Retrievers {
    /// The retrievers, by name.
    pub closed spec fn spec_configs(&self) -> Seq<(String, Retriever)> {
        self.configs@
    }

    /// No retrievers.
    pub fn new() -> (r: Retrievers)
        ensures
            r.spec_configs().len() == 0,
    {
        Retrievers { configs: Vec::new() }
    }

    /// Adds a retriever under a name, replacing any retriever of that name.
    pub fn insert(&mut self, name: String, retriever: Retriever)
        ensures
            keyed_view(final(self).spec_configs()) == spec_put_keyed(
                keyed_view(old(self).spec_configs()),
                name@,
                retriever,
            ),
    {
        put_keyed(&mut self.configs, name, retriever);
    }

    /// Whether there are no retrievers.
    pub fn is_empty(&self) -> (r: bool)
        ensures
            r == (self.spec_configs().len() == 0),
    {
        self.configs.len() == 0
    }

    /// Sanitizes and normalizes an identifier: the input is matched against
    /// every retriever's pattern; exactly one must match, and its source and
    /// the identifier it extracts are the result. No match, or a match that
    /// extracts no identifier, is `InvalidIdentifier`; several matches are
    /// `AmbiguousIdentifier` with their sources.
    pub fn sanitize_identifier(&self, input: &str) -> (r: Result<(String, String), LearnerError>)
        ensures
            ({
                let s = spec_scan(self.spec_configs(), input@, 0);
                &&& r matches Ok(p) ==> s matches Some(ms) && ms.len() == 1 && ms[0] == (p.0@, p.1@)
                &&& r is Ok <== (s matches Some(ms) && ms.len() == 1)
                &&& r matches Err(e) ==> (e is InvalidIdentifier <==> (s is None || s->Some_0.len() == 0))
                &&& r matches Err(e) ==> (e is AmbiguousIdentifier <==> (s matches Some(ms) && ms.len() > 1))
                &&& r matches Err(e) ==> (e is InvalidIdentifier || e is AmbiguousIdentifier)
                &&& r matches Err(e) ==> (e is AmbiguousIdentifier ==> views(e->AmbiguousIdentifier_0@)
                    == match_sources(s->Some_0))
            }),
    {
        let mut sources: Vec<String> = Vec::new();
        let mut ids: Vec<String> = Vec::new();
        let mut k: usize = 0;
        while k < self.configs.len()
            invariant
                k <= self.configs.len(),
                sources@.len() == ids@.len(),
                spec_scan(self.configs@, input@, 0) is Some ==> (spec_scan(self.configs@, input@, k as int) is Some
                    && spec_scan(self.configs@, input@, 0)->Some_0 == Seq::new(
                        sources@.len(),
                        |i: int| (sources@[i]@, ids@[i]@),
                    ) + spec_scan(self.configs@, input@, k as int)->Some_0),
                spec_scan(self.configs@, input@, 0) is None ==> spec_scan(self.configs@, input@, k as int) is None,
            decreases self.configs.len() - k,
        {
            let c = &self.configs[k].1;
            let ghost before = Seq::new(sources@.len(), |i: int| (sources@[i]@, ids@[i]@));
            if c.is_match(input) {
                match c.extract_identifier(input) {
                    Ok(id) => {
                        sources.push(c.source.clone());
                        ids.push(id);
                        proof {
                            let after = Seq::new(sources@.len(), |i: int| (sources@[i]@, ids@[i]@));
                            assert(after =~= before + seq![(c.source@, ids@.last()@)]);
                            assert(before + (seq![(c.source@, ids@.last()@)] + spec_scan(
                                self.configs@,
                                input@,
                                k + 1,
                            )->Some_0) =~= after + spec_scan(self.configs@, input@, k + 1)->Some_0);
                        }
                    },
                    Err(e) => {
                        return Err(e);
                    },
                }
            }
            k = k + 1;
        }
        let ghost found = Seq::new(sources@.len(), |i: int| (sources@[i]@, ids@[i]@));
        proof {
            assert(spec_scan(self.configs@, input@, 0) is Some ==> spec_scan(self.configs@, input@, 0)->Some_0
                =~= found);
        }
        if sources.len() == 0 {
            Err(LearnerError::InvalidIdentifier)
        } else if sources.len() == 1 {
            let s = sources.remove(0);
            let i = ids.remove(0);
            Ok((s, i))
        } else {
            proof {
                assert(views(sources@) =~= match_sources(found));
            }
            Err(LearnerError::AmbiguousIdentifier(sources))
        }
    }
}

/// The retriever that a match comes from: one at index `k..` whose pattern
/// matches the input, with the match's source, extracting the match's
/// identifier.
pub open spec fn from_retriever(configs: Seq<(String, Retriever)>, input: Seq<char>, m: (Seq<char>, Seq<char>), k: int) -> bool {
    exists|x: int|
        k <= x < configs.len() && #[trigger] configs[x].1.source@ == m.0 && spec_pattern_matches(
            configs[x].1.pattern@,
            input,
        ) && spec_extract_identifier(configs[x].1.pattern@, input) == Some(m.1)
}

proof fn lemma_scan_origin(configs: Seq<(String, Retriever)>, input: Seq<char>, k: int)
    requires
        0 <= k,
        spec_scan(configs, input, k) is Some,
    ensures
        forall|i: int|
            0 <= i < spec_scan(configs, input, k)->Some_0.len() ==> from_retriever(
                configs,
                input,
                #[trigger] spec_scan(configs, input, k)->Some_0[i],
                k,
            ),
    decreases configs.len() - k,
{
    if k < configs.len() {
        lemma_scan_origin(configs, input, k + 1);
        let c = configs[k].1;
        let ms = spec_scan(configs, input, k)->Some_0;
        let rest = spec_scan(configs, input, k + 1)->Some_0;
        assert forall|i: int| 0 <= i < ms.len() implies from_retriever(configs, input, #[trigger] ms[i], k) by {
            if spec_pattern_matches(c.pattern@, input) {
                if i == 0 {
                    assert(configs[k].1.source@ == ms[0].0);
                } else {
                    assert(ms[i] == rest[i - 1]);
                    assert(from_retriever(configs, input, rest[i - 1], k + 1));
                }
            } else {
                assert(ms[i] == rest[i]);
                assert(from_retriever(configs, input, rest[i], k + 1));
            }
        }
    }
}

/// A sanitized identifier comes from a retriever: one whose source is the
/// result's source, whose pattern matches the input, and which extracts the
/// result's identifier from it.
pub proof fn lemma_sanitized_from_retriever(r: Retrievers, input: Seq<char>)
    requires
        spec_scan(r.spec_configs(), input, 0) matches Some(ms) && ms.len() == 1,
    ensures
        from_retriever(r.spec_configs(), input, spec_scan(r.spec_configs(), input, 0)->Some_0[0], 0),
{
    lemma_scan_origin(r.spec_configs(), input, 0);
}

/// Every key of the entries is the name of a field that has a mapping.
pub open spec fn keys_are_mapped_fields(
    fields: Seq<FieldDefinition>,
    ms: Seq<(String, Mapping)>,
    entries: Seq<(Seq<char>, JsonSpec)>,
) -> bool {
    forall|i: int|
        0 <= i < entries.len() ==> exists|k: int|
            0 <= k < fields.len() && #[trigger] fields[k].name@ == #[trigger] entries[i].0 && spec_mapping_index(
                ms,
                fields[k].name@,
                0,
            ) is Some
}

proof fn lemma_process_keys(
    json: JsonSpec,
    fields: Seq<FieldDefinition>,
    ms: Seq<(String, Mapping)>,
    k: int,
    acc: Seq<(Seq<char>, JsonSpec)>,
)
    requires
        0 <= k,
        keys_are_mapped_fields(fields, ms, acc),
        spec_process_fields(json, fields, ms, k, acc) is Ok,
    ensures
        keys_are_mapped_fields(fields, ms, spec_process_fields(json, fields, ms, k, acc)->Ok_0),
    decreases fields.len() - k,
{
    if k < fields.len() {
        match spec_mapping_index(ms, fields[k].name@, 0) {
            None => lemma_process_keys(json, fields, ms, k + 1, acc),
            Some(x) => match spec_extract(json, ms[x].1, Some(fields[k])) {
                Ok(v) => {
                    let next = spec_put(acc, fields[k].name@, v);
                    crate::json::lemma_put_is_keyed(acc, fields[k].name@, v);
                    crate::keyed::lemma_put_keys(acc, fields[k].name@, v);
                    assert forall|i: int| 0 <= i < next.len() implies exists|j: int|
                        0 <= j < fields.len() && #[trigger] fields[j].name@ == #[trigger] next[i].0
                            && spec_mapping_index(ms, fields[j].name@, 0) is Some by {
                        if next[i].0 == fields[k].name@ {
                            assert(fields[k].name@ == next[i].0);
                        } else {
                            let m = choose|m: int| 0 <= m < acc.len() && acc[m].0 == next[i].0;
                            assert(exists|j: int|
                                0 <= j < fields.len() && #[trigger] fields[j].name@ == #[trigger] acc[m].0
                                    && spec_mapping_index(ms, fields[j].name@, 0) is Some);
                        }
                    }
                    lemma_process_keys(json, fields, ms, k + 1, next);
                },
                Err(_) => {},
            },
        }
    }
}

/// An item made from a document holds only fields of the template that have
/// a mapping: every key is such a field's name.
pub proof fn lemma_processed_keys_are_mapped_fields(json: JsonSpec, template: Template, ms: Seq<(String, Mapping)>)
    requires
        spec_process_fields(json, template.fields@, ms, 0, seq![]) is Ok,
    ensures
        keys_are_mapped_fields(
            template.fields@,
            ms,
            spec_process_fields(json, template.fields@, ms, 0, seq![])->Ok_0,
        ),
{
    lemma_process_keys(json, template.fields@, ms, 0, seq![]);
}

/// How values are made to fit a field's definition: a one-element array
/// becomes its element for a string field (and for a field with no
/// definition), any other value is kept for a string field; an array field
/// keeps an array and wraps anything else as a one-element array.
pub proof fn lemma_coercion_fits_base_type(v: JsonSpec, x: JsonSpec, d: FieldDefinition)
    ensures
        d.base_type@ == "string"@ ==> spec_coerce_with(JsonSpec::Array(seq![x]), d) == x,
        spec_coerce(JsonSpec::Array(seq![x]), None) == x,
        d.base_type@ == "string"@ && !(v is Array && v->Array_0.len() == 1) ==> spec_coerce_with(v, d) == v,
        d.base_type@ == "array"@ ==> spec_coerce_with(v, d) == if v is Array {
            v
        } else {
            JsonSpec::Array(seq![v])
        },
{
    reveal_strlit("array");
    reveal_strlit("string");
    assert("string"@.len() != "array"@.len());
    assert(seq![x][0] == x);
}

/// A path mapping into a string field whose path leads to a one-element
/// array extracts the array's element.
pub proof fn lemma_path_to_string_field_unwraps(json: JsonSpec, p: String, d: FieldDefinition, x: JsonSpec)
    requires
        d.base_type@ == "string"@,
        spec_get_path(json, spec_components(p@)) == Some(JsonSpec::Array(seq![x])),
    ensures
        spec_extract(json, Mapping::Path(p), Some(d)) == Ok::<JsonSpec, Seq<char>>(x),
{
    lemma_coercion_fits_base_type(x, x, d);
}

proof fn lemma_process_keeps_entry(
    json: JsonSpec,
    fields: Seq<FieldDefinition>,
    ms: Seq<(String, Mapping)>,
    k: int,
    acc: Seq<(Seq<char>, JsonSpec)>,
    name: Seq<char>,
    val: JsonSpec,
)
    requires
        0 <= k,
        forall|j: int| k <= j < fields.len() ==> #[trigger] fields[j].name@ != name,
        spec_get(acc, name) == Some(val),
        spec_process_fields(json, fields, ms, k, acc) is Ok,
    ensures
        spec_get(spec_process_fields(json, fields, ms, k, acc)->Ok_0, name) == Some(val),
    decreases fields.len() - k,
{
    if k < fields.len() {
        match spec_mapping_index(ms, fields[k].name@, 0) {
            None => lemma_process_keeps_entry(json, fields, ms, k + 1, acc, name, val),
            Some(x) => match spec_extract(json, ms[x].1, Some(fields[k])) {
                Ok(v) => {
                    crate::json::lemma_put_keeps_other_keys(acc, fields[k].name@, v, name);
                    lemma_process_keeps_entry(json, fields, ms, k + 1, spec_put(acc, fields[k].name@, v), name, val);
                },
                Err(_) => {},
            },
        }
    }
}

proof fn lemma_process_reaches(
    json: JsonSpec,
    fields: Seq<FieldDefinition>,
    ms: Seq<(String, Mapping)>,
    k: int,
    acc: Seq<(Seq<char>, JsonSpec)>,
    t: int,
)
    requires
        0 <= k <= t < fields.len(),
        forall|a: int, b: int| 0 <= a < b < fields.len() ==> #[trigger] fields[a].name@ != #[trigger] fields[b].name@,
        spec_mapping_index(ms, fields[t].name@, 0) is Some,
        spec_process_fields(json, fields, ms, k, acc) is Ok,
    ensures
        spec_extract(json, ms[spec_mapping_index(ms, fields[t].name@, 0)->Some_0].1, Some(fields[t])) is Ok,
        spec_get(spec_process_fields(json, fields, ms, k, acc)->Ok_0, fields[t].name@) == Some(
            spec_extract(json, ms[spec_mapping_index(ms, fields[t].name@, 0)->Some_0].1, Some(fields[t]))->Ok_0,
        ),
    decreases fields.len() - k,
{
    if k < t {
        match spec_mapping_index(ms, fields[k].name@, 0) {
            None => lemma_process_reaches(json, fields, ms, k + 1, acc, t),
            Some(x) => match spec_extract(json, ms[x].1, Some(fields[k])) {
                Ok(v) => lemma_process_reaches(json, fields, ms, k + 1, spec_put(acc, fields[k].name@, v), t),
                Err(_) => {},
            },
        }
    } else {
        let x = spec_mapping_index(ms, fields[t].name@, 0)->Some_0;
        let v = spec_extract(json, ms[x].1, Some(fields[t]))->Ok_0;
        crate::json::lemma_put_then_get(acc, fields[t].name@, v);
        assert forall|j: int| t + 1 <= j < fields.len() implies #[trigger] fields[j].name@ != fields[t].name@ by {
            assert(fields[t].name@ != fields[j].name@);
        }
        lemma_process_keeps_entry(json, fields, ms, t + 1, spec_put(acc, fields[t].name@, v), fields[t].name@, v);
    }
}

/// When a template's fields have distinct names and processing a document
/// succeeds, each field that has a mapping holds, under its name, what its
/// mapping extracts for it; so a path mapping into a string field whose path
/// leads to a one-element array `[x]` gives the field the value `x`.
pub proof fn lemma_processed_field_is_extracted(
    json: JsonSpec,
    template: Template,
    ms: Seq<(String, Mapping)>,
    t: int,
    p: String,
    x: JsonSpec,
)
    requires
        0 <= t < template.fields@.len(),
        forall|a: int, b: int|
            0 <= a < b < template.fields@.len() ==> #[trigger] template.fields@[a].name@
                != #[trigger] template.fields@[b].name@,
        spec_mapping_index(ms, template.fields@[t].name@, 0) is Some,
        spec_process_fields(json, template.fields@, ms, 0, seq![]) is Ok,
    ensures
        spec_get(spec_process_fields(json, template.fields@, ms, 0, seq![])->Ok_0, template.fields@[t].name@)
            == Some(
            spec_extract(
                json,
                ms[spec_mapping_index(ms, template.fields@[t].name@, 0)->Some_0].1,
                Some(template.fields@[t]),
            )->Ok_0,
        ),
        ms[spec_mapping_index(ms, template.fields@[t].name@, 0)->Some_0].1 == Mapping::Path(p)
            && template.fields@[t].base_type@ == "string"@ && spec_get_path(json, spec_components(p@)) == Some(
            JsonSpec::Array(seq![x]),
        ) ==> spec_get(spec_process_fields(json, template.fields@, ms, 0, seq![])->Ok_0, template.fields@[t].name@)
            == Some(x),
{
    lemma_process_reaches(json, template.fields@, ms, 0, seq![], t);
    if template.fields@[t].base_type@ == "string"@ && spec_get_path(json, spec_components(p@)) == Some(
        JsonSpec::Array(seq![x]),
    ) {
        lemma_path_to_string_field_unwraps(json, p, template.fields@[t], x);
    }
}

proof fn lemma_collect_all(items: Seq<JsonSpec>, key: Seq<char>)
    requires
        forall|i: int| 0 <= i < items.len() ==> #[trigger] items[i] is Object && spec_get(items[i]->Object_0, key) is Some,
    ensures
        spec_collect_key(items, key) == items.map_values(|it: JsonSpec| spec_get(it->Object_0, key)->Some_0),
    decreases items.len(),
{
    if items.len() > 0 {
        let front = items.drop_last();
        assert forall|i: int| 0 <= i < front.len() implies #[trigger] front[i] is Object && spec_get(
            front[i]->Object_0,
            key,
        ) is Some by {
            assert(front[i] == items[i]);
        }
        lemma_collect_all(front, key);
        assert(items.last() == items[items.len() - 1]);
        assert(items.map_values(|it: JsonSpec| spec_get(it->Object_0, key)->Some_0) =~= front.map_values(
            |it: JsonSpec| spec_get(it->Object_0, key)->Some_0,
        ).push(spec_get(items.last()->Object_0, key)->Some_0));
    }
}

/// What a path finds, one step at a time: the empty path finds the whole
/// document; a key in an object finds the key's value (nothing when the
/// object lacks it); a number in an array finds the item at that index
/// (nothing past the end); a key in an array of objects that all hold it
/// finds, when there are several, the array of their values in order.
pub proof fn lemma_path_steps(
    json: JsonSpec,
    entries: Seq<(Seq<char>, JsonSpec)>,
    items: Seq<JsonSpec>,
    c: Seq<char>,
)
    ensures
        spec_get_path(json, seq![]) == Some(json),
        spec_get_path(JsonSpec::Object(entries), seq![c]) == spec_get(entries, c),
        spec_parse_usize(c) matches Some(n) ==> spec_get_path(JsonSpec::Array(items), seq![c]) == if n
            < items.len() {
            Some(items[n as int])
        } else {
            None
        },
        spec_parse_usize(c) is None && items.len() >= 2 && (forall|i: int|
            0 <= i < items.len() ==> #[trigger] items[i] is Object && spec_get(items[i]->Object_0, c) is Some)
            ==> spec_get_path(JsonSpec::Array(items), seq![c]) == Some(
            JsonSpec::Array(items.map_values(|it: JsonSpec| spec_get(it->Object_0, c)->Some_0)),
        ),
{
    let one = seq![c];
    assert(one[0] == c);
    let obj = JsonSpec::Object(entries);
    let arr = JsonSpec::Array(items);
    match spec_get(entries, c) {
        Some(v) => assert(spec_path_from(obj, v, one, 1) == Some(v)),
        None => {},
    }
    match spec_parse_usize(c) {
        Some(n) => if n < items.len() {
            assert(spec_path_from(arr, items[n as int], one, 1) == Some(items[n as int]));
        },
        None => {},
    }
    if spec_parse_usize(c) is None && items.len() >= 2 && (forall|i: int|
        0 <= i < items.len() ==> #[trigger] items[i] is Object && spec_get(items[i]->Object_0, c) is Some) {
        lemma_collect_all(items, c);
    }
}

} // verus!
