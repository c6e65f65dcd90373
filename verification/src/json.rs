//! JSON values, as the library holds the data it retrieves and validates.
//!
//! Objects hold their entries sorted by key, as a `BTreeMap` would, so that
//! walking an object visits its keys in order.
use vstd::prelude::*;

use crate::text::{chars_eq, chars_of, owned};

verus! {

broadcast use vstd::std_specs::vec::group_vec_axioms;

/// A JSON number: a non-negative integer, a negative integer, or a floating
/// point number carried as the bits of its `f64`. The library compares
/// numbers only for equality; arithmetic on them is left to the caller.
#[derive(Debug, Clone, Copy, PartialEq, Eq, Structural)]
pub enum JsonNumber {
    PosInt(u64),
    NegInt(i64),
    Float(u64),
}

/// A JSON value.
#[derive(Debug)]
pub enum JsonValue {
    Null,
    Bool(bool),
    Number(JsonNumber),
    String(String),
    Array(Vec<JsonValue>),
    Object(Vec<(String, JsonValue)>),
}

/// The mathematical value of a JSON value.
pub enum JsonSpec {
    Null,
    Bool(bool),
    Number(JsonNumber),
    Str(Seq<char>),
    Array(Seq<JsonSpec>),
    Object(Seq<(Seq<char>, JsonSpec)>),
}

/// The values of the first `n` items.
pub open spec fn deep_items(v: Seq<JsonValue>, n: int) -> Seq<JsonSpec>
    decreases v, n,
{
    if n <= 0 || n > v.len() {
        seq![]
    } else {
        deep_items(v, n - 1).push(v[n - 1].deep())
    }
}

/// The keys and values of the first `n` entries.
pub open spec fn deep_entries(v: Seq<(String, JsonValue)>, n: int) -> Seq<(Seq<char>, JsonSpec)>
    decreases v, n,
{
    if n <= 0 || n > v.len() {
        seq![]
    } else {
        deep_entries(v, n - 1).push((v[n - 1].0@, v[n - 1].1.deep()))
    }
}

/// The values of all items.
pub open spec fn deep_all(v: Seq<JsonValue>) -> Seq<JsonSpec> {
    deep_items(v, v.len() as int)
}

/// The keys and values of all entries.
pub open spec fn deep_all_entries(v: Seq<(String, JsonValue)>) -> Seq<(Seq<char>, JsonSpec)> {
    deep_entries(v, v.len() as int)
}

impl JsonValue {
    /// The mathematical value.
    pub open spec fn deep(&self) -> JsonSpec
        decreases self, 0int,
    {
        match self {
            JsonValue::Null => JsonSpec::Null,
            JsonValue::Bool(b) => JsonSpec::Bool(*b),
            JsonValue::Number(n) => JsonSpec::Number(*n),
            JsonValue::String(s) => JsonSpec::Str(s@),
            JsonValue::Array(v) => JsonSpec::Array(deep_items(v@, v@.len() as int)),
            JsonValue::Object(v) => JsonSpec::Object(deep_entries(v@, v@.len() as int)),
        }
    }
}

proof fn lemma_deep_items_n(v: Seq<JsonValue>, n: int)
    requires
        0 <= n <= v.len(),
    ensures
        deep_items(v, n).len() == n,
        forall|j: int| 0 <= j < n ==> #[trigger] deep_items(v, n)[j] == v[j].deep(),
    decreases n,
{
    if n > 0 {
        lemma_deep_items_n(v, n - 1);
    }
}

proof fn lemma_deep_entries_n(v: Seq<(String, JsonValue)>, n: int)
    requires
        0 <= n <= v.len(),
    ensures
        deep_entries(v, n).len() == n,
        forall|j: int|
            0 <= j < n ==> #[trigger] deep_entries(v, n)[j] == (v[j].0@, v[j].1.deep()),
    decreases n,
{
    if n > 0 {
        lemma_deep_entries_n(v, n - 1);
    }
}

/// The values of the items, item by item.
pub proof fn lemma_deep_all(v: Seq<JsonValue>)
    ensures
        deep_all(v).len() == v.len(),
        forall|j: int| 0 <= j < v.len() ==> #[trigger] deep_all(v)[j] == v[j].deep(),
{
    lemma_deep_items_n(v, v.len() as int);
}

/// The keys and values of the entries, entry by entry.
pub proof fn lemma_deep_all_entries(v: Seq<(String, JsonValue)>)
    ensures
        deep_all_entries(v).len() == v.len(),
        forall|j: int|
            0 <= j < v.len() ==> #[trigger] deep_all_entries(v)[j] == (v[j].0@, v[j].1.deep()),
{
    lemma_deep_entries_n(v, v.len() as int);
}

/// The name of the JSON type of a value.
pub open spec fn spec_type_name(v: JsonSpec) -> Seq<char> {
    match v {
        JsonSpec::Null => "null"@,
        JsonSpec::Bool(_) => "boolean"@,
        JsonSpec::Number(_) => "number"@,
        JsonSpec::Str(_) => "string"@,
        JsonSpec::Array(_) => "array"@,
        JsonSpec::Object(_) => "object"@,
    }
}

/// The name of the JSON type of a value.
pub fn type_name_of_value(v: &JsonValue) -> (r: &'static str)
    ensures
        r@ == spec_type_name(v.deep()),
{
    match v {
        JsonValue::Null => "null",
        JsonValue::Bool(_) => "boolean",
        JsonValue::Number(_) => "number",
        JsonValue::String(_) => "string",
        JsonValue::Array(_) => "array",
        JsonValue::Object(_) => "object",
    }
}

/// A copy of a value.
#[verifier::loop_isolation(false)]
pub fn clone_json(v: &JsonValue) -> (r: JsonValue)
    ensures
        r.deep() == v.deep(),
    decreases v,
{
    match v {
        JsonValue::Null => JsonValue::Null,
        JsonValue::Bool(b) => JsonValue::Bool(*b),
        JsonValue::Number(n) => JsonValue::Number(*n),
        JsonValue::String(s) => JsonValue::String(s.clone()),
        JsonValue::Array(items) => {
            let mut out: Vec<JsonValue> = Vec::new();
            let mut i: usize = 0;
            while i < items.len()
                invariant
                    i <= items.len(),
                    out.len() == i,
                    forall|j: int| 0 <= j < i ==> #[trigger] out@[j].deep() == items@[j].deep(),
                decreases items.len() - i,
            {
                proof {
                    assert(decreases_to!(*v => v->Array_0));
                    assert(decreases_to!(v->Array_0 => v->Array_0[i as int]));
                }
                let c = clone_json(&items[i]);
                out.push(c);
                i = i + 1;
            }
            proof {
                lemma_deep_all(out@);
                lemma_deep_all(items@);
            }
            assert(deep_all(out@) =~= deep_all(items@));
            JsonValue::Array(out)
        },
        JsonValue::Object(entries) => {
            let mut out: Vec<(String, JsonValue)> = Vec::new();
            let mut i: usize = 0;
            while i < entries.len()
                invariant
                    i <= entries.len(),
                    out.len() == i,
                    forall|j: int|
                        0 <= j < i ==> #[trigger] out@[j].0@ == entries@[j].0@ && out@[j].1.deep()
                            == entries@[j].1.deep(),
                decreases entries.len() - i,
            {
                proof {
                    assert(decreases_to!(*v => v->Object_0));
                    assert(decreases_to!(v->Object_0 => v->Object_0[i as int]));
                    assert(decreases_to!(v->Object_0[i as int] => v->Object_0[i as int].1));
                }
                let c = clone_json(&entries[i].1);
                out.push((entries[i].0.clone(), c));
                i = i + 1;
            }
            proof {
                lemma_deep_all_entries(out@);
                lemma_deep_all_entries(entries@);
            }
            assert(deep_all_entries(out@) =~= deep_all_entries(entries@));
            JsonValue::Object(out)
        },
    }
}

/// Copies of the items of an array.
pub fn clone_items(items: &Vec<JsonValue>) -> (r: Vec<JsonValue>)
    ensures
        deep_all(r@) == deep_all(items@),
{
    let mut out: Vec<JsonValue> = Vec::new();
    let mut i: usize = 0;
    while i < items.len()
        invariant
            i <= items.len(),
            out.len() == i,
            forall|j: int| 0 <= j < i ==> #[trigger] out@[j].deep() == items@[j].deep(),
        decreases items.len() - i,
    {
        out.push(clone_json(&items[i]));
        i = i + 1;
    }
    proof {
        lemma_deep_all(out@);
        lemma_deep_all(items@);
    }
    assert(deep_all(out@) =~= deep_all(items@));
    out
}

/// Tests two values for equality.
#[verifier::loop_isolation(false)]
pub fn json_eq(a: &JsonValue, b: &JsonValue) -> (r: bool)
    ensures
        r == (a.deep() == b.deep()),
    decreases a,
{
    match (a, b) {
        (JsonValue::Null, JsonValue::Null) => true,
        (JsonValue::Bool(x), JsonValue::Bool(y)) => *x == *y,
        (JsonValue::Number(x), JsonValue::Number(y)) => *x == *y,
        (JsonValue::String(x), JsonValue::String(y)) => {
            let cx = chars_of(x.as_str());
            let cy = chars_of(y.as_str());
            chars_eq(&cx, &cy)
        },
        (JsonValue::Array(x), JsonValue::Array(y)) => {
            proof {
                lemma_deep_all(x@);
                lemma_deep_all(y@);
            }
            if x.len() != y.len() {
                assert(deep_all(x@).len() != deep_all(y@).len());
                return false;
            }
            let mut i: usize = 0;
            while i < x.len()
                invariant
                    i <= x.len(),
                    x.len() == y.len(),
                    forall|j: int| 0 <= j < i ==> #[trigger] x@[j].deep() == y@[j].deep(),
                decreases x.len() - i,
            {
                proof {
                    assert(decreases_to!(*a => a->Array_0));
                    assert(decreases_to!(a->Array_0 => a->Array_0[i as int]));
                }
                if !json_eq(&x[i], &y[i]) {
                    assert(deep_all(x@)[i as int] != deep_all(y@)[i as int]);
                    return false;
                }
                i = i + 1;
            }
            assert(deep_all(x@) =~= deep_all(y@));
            true
        },
        (JsonValue::Object(x), JsonValue::Object(y)) => {
            proof {
                lemma_deep_all_entries(x@);
                lemma_deep_all_entries(y@);
            }
            if x.len() != y.len() {
                assert(deep_all_entries(x@).len() != deep_all_entries(y@).len());
                return false;
            }
            let mut i: usize = 0;
            while i < x.len()
                invariant
                    i <= x.len(),
                    x.len() == y.len(),
                    forall|j: int| 0 <= j < i ==> #[trigger] x@[j].0@ == y@[j].0@,
                    forall|j: int| 0 <= j < i ==> #[trigger] x@[j].1.deep() == y@[j].1.deep(),
                decreases x.len() - i,
            {
                proof {
                    assert(decreases_to!(*a => a->Object_0));
                    assert(decreases_to!(a->Object_0 => a->Object_0[i as int]));
                    assert(decreases_to!(a->Object_0[i as int] => a->Object_0[i as int].1));
                }
                let kx = chars_of(x[i].0.as_str());
                let ky = chars_of(y[i].0.as_str());
                if !chars_eq(&kx, &ky) {
                    assert(deep_all_entries(x@)[i as int] != deep_all_entries(y@)[i as int]);
                    return false;
                }
                if !json_eq(&x[i].1, &y[i].1) {
                    assert(deep_all_entries(x@)[i as int] != deep_all_entries(y@)[i as int]);
                    return false;
                }
                assert(x@[i as int].0@ == y@[i as int].0@);
                assert(x@[i as int].1.deep() == y@[i as int].1.deep());
                i = i + 1;
            }
            assert(deep_all_entries(x@) =~= deep_all_entries(y@));
            true
        },
        _ => false,
    }
}

// ---------------------------------------------------------------------------
// Objects
// ---------------------------------------------------------------------------

/// The index of the first entry with the key, if any.
pub open spec fn spec_entry_index(entries: Seq<(Seq<char>, JsonSpec)>, key: Seq<char>) -> Option<int>
    decreases entries.len(),
{
    if entries.len() == 0 {
        None
    } else {
        match spec_entry_index(entries.drop_last(), key) {
            Some(i) => Some(i),
            None => if entries.last().0 == key {
                Some(entries.len() - 1)
            } else {
                None
            },
        }
    }
}

/// Where the first entry with the key is found, it lies in range, has the
/// key, and no earlier entry has it.
pub proof fn lemma_entry_index(entries: Seq<(Seq<char>, JsonSpec)>, key: Seq<char>)
    ensures
        spec_entry_index(entries, key) is Some ==> {
            let i = spec_entry_index(entries, key)->Some_0;
            &&& 0 <= i < entries.len()
            &&& entries[i].0 == key
            &&& forall|j: int| 0 <= j < i ==> entries[j].0 != key
        },
        spec_entry_index(entries, key) is None ==> forall|j: int|
            0 <= j < entries.len() ==> entries[j].0 != key,
    decreases entries.len(),
{
    if entries.len() > 0 {
        lemma_entry_index(entries.drop_last(), key);
        assert forall|j: int| 0 <= j < entries.len() - 1 implies entries.drop_last()[j] == entries[j] by {}
    }
}

/// The value of the first entry with the key, if any.
pub open spec fn spec_get(entries: Seq<(Seq<char>, JsonSpec)>, key: Seq<char>) -> Option<JsonSpec> {
    match spec_entry_index(entries, key) {
        Some(i) => Some(entries[i].1),
        None => None,
    }
}

/// Finds the first entry with the key.
pub fn find_entry(entries: &Vec<(String, JsonValue)>, key: &str) -> (r: Option<usize>)
    ensures
        r matches Some(i) ==> Some(i as int) == spec_entry_index(deep_all_entries(entries@), key@),
        r is None ==> spec_entry_index(deep_all_entries(entries@), key@) is None,
        r matches Some(i) ==> i < entries@.len(),
{
    let k = chars_of(key);
    let ghost d = deep_all_entries(entries@);
    proof {
        lemma_deep_all_entries(entries@);
        lemma_entry_index(d, key@);
    }
    let mut i: usize = 0;
    while i < entries.len()
        invariant
            i <= entries.len(),
            k@ == key@,
            d == deep_all_entries(entries@),
            d.len() == entries@.len(),
            forall|j: int| 0 <= j < entries@.len() ==> #[trigger] d[j] == (entries@[j].0@, entries@[j].1.deep()),
            forall|j: int| 0 <= j < i ==> d[j].0 != key@,
            spec_entry_index(d, key@) matches Some(x) ==> i <= x && 0 <= x < d.len() && d[x].0 == key@
                && forall|j: int| 0 <= j < x ==> d[j].0 != key@,
            spec_entry_index(d, key@) is None ==> forall|j: int| 0 <= j < d.len() ==> d[j].0 != key@,
        decreases entries.len() - i,
    {
        let c = chars_of(entries[i].0.as_str());
        if chars_eq(&c, &k) {
            assert(d[i as int].0 == key@);
            return Some(i);
        }
        i = i + 1;
    }
    None
}

/// Looks up the value of the first entry with the key.
pub fn get<'a>(entries: &'a Vec<(String, JsonValue)>, key: &str) -> (r: Option<&'a JsonValue>)
    ensures
        r is Some <==> spec_get(deep_all_entries(entries@), key@) is Some,
        r matches Some(v) ==> Some(v.deep()) == spec_get(deep_all_entries(entries@), key@),
{
    proof {
        lemma_deep_all_entries(entries@);
    }
    match find_entry(entries, key) {
        Some(i) => Some(&entries[i].1),
        None => None,
    }
}

/// `a` comes strictly before `b` in the order of keys (code point by code
/// point, a proper prefix first), the order of a `BTreeMap<String, _>`.
pub open spec fn key_lt(a: Seq<char>, b: Seq<char>) -> bool
    decreases a.len(),
{
    if b.len() == 0 {
        false
    } else if a.len() == 0 {
        true
    } else if a[0] < b[0] {
        true
    } else if a[0] == b[0] {
        key_lt(a.drop_first(), b.drop_first())
    } else {
        false
    }
}

/// Compares two keys.
pub fn key_less(a: &str, b: &str) -> (r: bool)
    ensures
        r == key_lt(a@, b@),
{
    let x = chars_of(a);
    let y = chars_of(b);
    let mut i: usize = 0;
    assert(x@.skip(0) =~= x@ && y@.skip(0) =~= y@);
    while i < x.len() && i < y.len() && x[i] == y[i]
        invariant
            i <= x.len(),
            i <= y.len(),
            x@ == a@,
            y@ == b@,
            key_lt(x@.skip(i as int), y@.skip(i as int)) == key_lt(a@, b@),
        decreases x.len() - i,
    {
        assert(x@.skip(i as int).drop_first() =~= x@.skip(i + 1));
        assert(y@.skip(i as int).drop_first() =~= y@.skip(i + 1));
        i = i + 1;
    }
    if i == y.len() {
        false
    } else if i == x.len() {
        true
    } else {
        x[i] < y[i]
    }
}

/// The entries with `(key, value)` put in: replacing the first entry with
/// that key, or else inserted before the first entry with a greater key (in
/// sorted entries, this is inserting into a map).
pub open spec fn spec_put(entries: Seq<(Seq<char>, JsonSpec)>, key: Seq<char>, value: JsonSpec) -> Seq<
    (Seq<char>, JsonSpec),
>
    decreases entries.len(),
{
    if entries.len() == 0 {
        seq![(key, value)]
    } else if entries[0].0 == key {
        seq![(key, value)] + entries.drop_first()
    } else if key_lt(key, entries[0].0) {
        seq![(key, value)] + entries
    } else {
        seq![entries[0]] + spec_put(entries.drop_first(), key, value)
    }
}

/// Puts `(key, value)` into the entries of an object.
pub fn put(entries: &mut Vec<(String, JsonValue)>, key: String, value: JsonValue)
    ensures
        deep_all_entries(final(entries)@) == spec_put(
            deep_all_entries(old(entries)@),
            key@,
            value.deep(),
        ),
{
    let ghost d = deep_all_entries(entries@);
    proof {
        lemma_deep_all_entries(entries@);
    }
    let mut i: usize = 0;
    assert(d.skip(0) =~= d);
    assert(d.take(0) + spec_put(d.skip(0), key@, value.deep()) =~= spec_put(d, key@, value.deep()));
    loop
        invariant
            i <= entries.len(),
            entries@ == old(entries)@,
            d == deep_all_entries(entries@),
            d.len() == entries@.len(),
            forall|j: int| 0 <= j < entries@.len() ==> #[trigger] d[j] == (entries@[j].0@, entries@[j].1.deep()),
            d.take(i as int) + spec_put(d.skip(i as int), key@, value.deep()) == spec_put(d, key@, value.deep()),
        decreases entries.len() - i,
    {
        let ghost rest = d.skip(i as int);
        if i == entries.len() {
            let ghost before = entries@;
            entries.push((key, value));
            proof {
                lemma_deep_all_entries(entries@);
                assert(rest.len() == 0);
                assert(deep_all_entries(entries@) =~= d.take(i as int) + spec_put(rest, key@, value.deep()));
            }
            return;
        }
        assert(rest[0] == d[i as int]);
        let ck = chars_of(entries[i].0.as_str());
        let kk = chars_of(key.as_str());
        if chars_eq(&ck, &kk) {
            let ghost before = entries@;
            entries.remove(i);
            entries.insert(i, (key, value));
            proof {
                lemma_deep_all_entries(entries@);
                assert(entries@ =~= before.update(i as int, entries@[i as int]));
                assert(deep_all_entries(entries@) =~= d.take(i as int) + spec_put(rest, key@, value.deep())) by {
                    assert(rest.drop_first() =~= d.skip(i + 1));
                    assert forall|j: int| 0 <= j < entries@.len() implies #[trigger] deep_all_entries(entries@)[j]
                        == (d.take(i as int) + spec_put(rest, key@, value.deep()))[j] by {
                        if j < i {
                        } else if j == i {
                        } else {
                            assert(d.skip(i + 1)[j - i - 1] == d[j]);
                        }
                    }
                }
            }
            return;
        }
        if key_less(key.as_str(), entries[i].0.as_str()) {
            let ghost before = entries@;
            entries.insert(i, (key, value));
            proof {
                lemma_deep_all_entries(entries@);
                before.insert_ensures(i as int, entries@[i as int]);
                assert forall|j: int| 0 <= j < entries@.len() implies #[trigger] deep_all_entries(entries@)[j]
                    == (d.take(i as int) + spec_put(rest, key@, value.deep()))[j] by {
                    if j < i {
                    } else if j == i {
                    } else {
                        assert(entries@[j] == before[j - 1]);
                        assert(rest[j - i - 1] == d[j - 1]);
                    }
                }
                assert(deep_all_entries(entries@) =~= d.take(i as int) + spec_put(rest, key@, value.deep()));
            }
            return;
        }
        assert(rest.drop_first() =~= d.skip(i + 1));
        assert(d.take(i + 1) =~= d.take(i as int).push(d[i as int]));
        assert(d.take(i as int) + spec_put(rest, key@, value.deep()) =~= d.take(i + 1) + spec_put(
            d.skip(i + 1),
            key@,
            value.deep(),
        ));
        i = i + 1;
    }
}

/// Makes a string value.
pub fn json_string(s: &str) -> (r: JsonValue)
    ensures
        r.deep() == JsonSpec::Str(s@),
{
    JsonValue::String(owned(s))
}

/// Copies of the entries of an object.
pub fn clone_entries(entries: &Vec<(String, JsonValue)>) -> (r: Vec<(String, JsonValue)>)
    ensures
        deep_all_entries(r@) == deep_all_entries(entries@),
{
    let mut out: Vec<(String, JsonValue)> = Vec::new();
    let mut i: usize = 0;
    while i < entries.len()
        invariant
            i <= entries.len(),
            out.len() == i,
            forall|j: int|
                0 <= j < i ==> #[trigger] out@[j].0@ == entries@[j].0@ && out@[j].1.deep() == entries@[j].1.deep(),
        decreases entries.len() - i,
    {
        let c = clone_json(&entries[i].1);
        out.push((entries[i].0.clone(), c));
        i = i + 1;
    }
    proof {
        lemma_deep_all_entries(out@);
        lemma_deep_all_entries(entries@);
    }
    assert(deep_all_entries(out@) =~= deep_all_entries(entries@));
    out
}

// ---------------------------------------------------------------------------
// What objects give back
// ---------------------------------------------------------------------------

/// Putting into an object is putting into entries kept by key.
pub proof fn lemma_put_is_keyed(entries: Seq<(Seq<char>, JsonSpec)>, key: Seq<char>, value: JsonSpec)
    ensures
        spec_put(entries, key, value) == crate::keyed::spec_put_keyed(entries, key, value),
    decreases entries.len(),
{
    if entries.len() > 0 {
        lemma_put_is_keyed(entries.drop_first(), key, value);
    }
}

proof fn lemma_get_is_lookup(entries: Seq<(Seq<char>, JsonSpec)>, key: Seq<char>)
    ensures
        spec_get(entries, key) == crate::keyed::spec_lookup(entries, key),
    decreases entries.len(),
{
    if entries.len() > 0 {
        let rest = entries.drop_first();
        lemma_get_is_lookup(rest, key);
        lemma_entry_index(entries, key);
        lemma_entry_index(rest, key);
        if entries[0].0 != key {
            match spec_entry_index(entries, key) {
                Some(i) => {
                    assert(rest[i - 1] == entries[i]);
                    match spec_entry_index(rest, key) {
                        Some(i2) => {
                            assert(rest[i2] == entries[i2 + 1]);
                            if i2 < i - 1 {
                                assert(entries[i2 + 1].0 == key);
                            }
                            assert(i2 == i - 1);
                        },
                        None => {},
                    }
                },
                None => {
                    match spec_entry_index(rest, key) {
                        Some(i2) => {
                            assert(rest[i2] == entries[i2 + 1]);
                        },
                        None => {},
                    }
                },
            }
        }
    }
}

/// Putting `(key, value)` into an object makes `key` give `value` back.
pub proof fn lemma_put_then_get(entries: Seq<(Seq<char>, JsonSpec)>, key: Seq<char>, value: JsonSpec)
    ensures
        spec_get(spec_put(entries, key, value), key) == Some(value),
{
    lemma_put_is_keyed(entries, key, value);
    lemma_get_is_lookup(spec_put(entries, key, value), key);
    crate::keyed::lemma_put_then_lookup(entries, key, value);
}

/// Putting a key twice leaves what the second put wrote, as if the first
/// had not happened.
pub proof fn lemma_put_overwrites(entries: Seq<(Seq<char>, JsonSpec)>, key: Seq<char>, v1: JsonSpec, v2: JsonSpec)
    ensures
        spec_put(spec_put(entries, key, v1), key, v2) == spec_put(entries, key, v2),
    decreases entries.len(),
{
    let once = spec_put(entries, key, v1);
    if entries.len() == 0 {
        assert(spec_put(once, key, v2) =~= seq![(key, v2)] + once.drop_first());
        assert(once.drop_first() =~= Seq::<(Seq<char>, JsonSpec)>::empty());
    } else if entries[0].0 == key {
        assert(once.drop_first() =~= entries.drop_first());
    } else if key_lt(key, entries[0].0) {
        assert(once.drop_first() =~= entries);
    } else {
        lemma_put_overwrites(entries.drop_first(), key, v1, v2);
        assert(once[0] == entries[0]);
        assert(once.drop_first() =~= spec_put(entries.drop_first(), key, v1));
    }
}

/// Putting `(key, value)` into an object leaves what every other key gives
/// unchanged.
pub proof fn lemma_put_keeps_other_keys(
    entries: Seq<(Seq<char>, JsonSpec)>,
    key: Seq<char>,
    value: JsonSpec,
    other: Seq<char>,
)
    requires
        other != key,
    ensures
        spec_get(spec_put(entries, key, value), other) == spec_get(entries, other),
{
    lemma_put_is_keyed(entries, key, value);
    lemma_get_is_lookup(spec_put(entries, key, value), other);
    lemma_get_is_lookup(entries, other);
    crate::keyed::lemma_put_keeps_others(entries, key, value, other);
}

/// Putting an entry into an object whose keys are in order keeps them in
/// order, each key once.
pub proof fn lemma_put_keeps_order(entries: Seq<(Seq<char>, JsonSpec)>, key: Seq<char>, value: JsonSpec)
    requires
        crate::keyed::keys_sorted(entries),
    ensures
        crate::keyed::keys_sorted(spec_put(entries, key, value)),
{
    lemma_put_is_keyed(entries, key, value);
    crate::keyed::lemma_put_keeps_sorted(entries, key, value);
}

} // verus!
