//! Templates: the fields that a templated item may hold, and the rules that
//! their values obey.
//!
//! Numbers are compared with floating-point rules (minimum, maximum, multiple
//! of), which this library does not compute: the caller hands validation a
//! number check, and validation reports what that check reports.
use vstd::prelude::*;

use crate::datetime::{spec_four_digit_year, spec_parse_rfc3339, spec_rfc3339, Timestamp};
use crate::error::{debug_strings, spec_debug_strings, LearnerError};
use crate::json::{
    deep_all, deep_all_entries, get, json_eq, lemma_deep_all, lemma_deep_all_entries, spec_get,
    spec_type_name, type_name_of_value, JsonNumber, JsonSpec, JsonValue,
};
use crate::pattern::{regex_is_match, spec_regex_error, spec_regex_is_match, spec_regex_valid};
use crate::text::{byte_len, contains_str, decimal, owned, spec_byte_len, spec_decimal, str_eq, views};

verus! {

broadcast use vstd::std_specs::vec::group_vec_axioms;

/// The entries of a templated item, by field name, in key order (as a
/// `BTreeMap<String, _>` holds them).
pub type TemplatedItem = Vec<(String, JsonValue)>;

/// Validation rules for a field.
///
/// The numeric bounds are `f64` values carried as their bits
/// (`f64::to_bits`); the number check that the caller supplies reads them.
#[derive(Debug)]
pub struct ValidationRules {
    /// Regex pattern that a string must match.
    pub pattern: Option<String>,
    /// Minimum string length, in bytes.
    pub min_length: Option<usize>,
    /// Maximum string length, in bytes.
    pub max_length: Option<usize>,
    /// Minimum value, as `f64` bits.
    pub minimum: Option<u64>,
    /// Maximum value, as `f64` bits.
    pub maximum: Option<u64>,
    /// The value must be a multiple of this, as `f64` bits.
    pub multiple_of: Option<u64>,
    /// Minimum array length.
    pub min_items: Option<usize>,
    /// Maximum array length.
    pub max_items: Option<usize>,
    /// Whether array items must be unique.
    pub unique_items: Option<bool>,
    /// The allowed string values.
    pub enum_values: Option<Vec<String>>,
    /// Whether a string must be an RFC 3339 date-time.
    pub datetime: Option<bool>,
}

impl Default for ValidationRules {
    fn default() -> (r: ValidationRules)
        ensures
            r.pattern is None,
            r.min_length is None,
            r.max_length is None,
            r.minimum is None,
            r.maximum is None,
            r.multiple_of is None,
            r.min_items is None,
            r.max_items is None,
            r.unique_items is None,
            r.enum_values is None,
            r.datetime is None,
    {
        ValidationRules {
            pattern: None,
            min_length: None,
            max_length: None,
            minimum: None,
            maximum: None,
            multiple_of: None,
            min_items: None,
            max_items: None,
            unique_items: None,
            enum_values: None,
            datetime: None,
        }
    }
}

/// The definition of a field of a template.
#[derive(Debug)]
pub struct FieldDefinition {
    /// Name of the field.
    pub name: String,
    /// Whether this field must be present.
    pub required: bool,
    /// Human-readable description.
    pub description: Option<String>,
    /// The base type of this field (`string`, `number`, `array`, `object`,
    /// `boolean` or `null`).
    pub base_type: String,
    /// Validation rules for this type.
    pub validation: Option<ValidationRules>,
    /// Element type if this is an array type.
    pub items: Option<Box<FieldDefinition>>,
    /// Fields if this is an object type.
    pub fields: Option<Vec<FieldDefinition>>,
}

/// A template: a name, a description and its top-level fields.
#[derive(Debug)]
pub struct Template {
    pub name: String,
    pub description: Option<String>,
    pub fields: Vec<FieldDefinition>,
}

// ---------------------------------------------------------------------------
// The number check
// ---------------------------------------------------------------------------

/// The view of an optional text.
pub open spec fn opt_view(o: Option<String>) -> Option<Seq<char>> {
    match o {
        Some(s) => Some(s@),
        None => None,
    }
}

/// A number check may be called on any number and rules, and gives the same
/// answer each time.
pub open spec fn number_check_ok<F: Fn(JsonNumber, &ValidationRules) -> Option<String>>(
    f: F,
) -> bool {
    &&& forall|n: JsonNumber, r: ValidationRules| #[trigger] call_requires(f, (n, &r))
    &&& forall|n: JsonNumber, r: ValidationRules, o1: Option<String>, o2: Option<String>|
        #[trigger] call_ensures(f, (n, &r), o1) && #[trigger] call_ensures(f, (n, &r), o2)
            ==> opt_view(o1) == opt_view(o2)
}

/// What the number check reports for a number under the rules: `None` when
/// the number passes, else the end of the message that reports it.
pub open spec fn number_verdict<F: Fn(JsonNumber, &ValidationRules) -> Option<String>>(
    f: F,
    n: JsonNumber,
    r: ValidationRules,
) -> Option<Seq<char>> {
    opt_view(choose|o: Option<String>| call_ensures(f, (n, &r), o))
}

/// Calls the number check; its answer is the verdict.
fn run_number_check<F: Fn(JsonNumber, &ValidationRules) -> Option<String>>(
    f: &F,
    n: JsonNumber,
    r: &ValidationRules,
) -> (o: Option<String>)
    requires
        number_check_ok(*f),
    ensures
        opt_view(o) == number_verdict(*f, n, *r),
{
    let o = f(n, r);
    assert(call_ensures(*f, (n, r), o));
    o
}


// ---------------------------------------------------------------------------
// What validation reports
// ---------------------------------------------------------------------------

/// The message that begins `Field '<path>' `.
pub open spec fn field_msg(path: Seq<char>, rest: Seq<char>) -> Seq<char> {
    "Field '"@ + path + "' "@ + rest
}

/// The first rule that a string breaks, as its message, or `None`.
pub open spec fn spec_check_string(rules: Option<ValidationRules>, s: Seq<char>, path: Seq<char>) -> Option<
    Seq<char>,
> {
    match rules {
        None => None,
        Some(r) => {
            let len = spec_byte_len(s);
            if r.min_length is Some && len < r.min_length->Some_0 {
                Some(
                    field_msg(
                        path,
                        "must be at least "@ + spec_decimal(r.min_length->Some_0 as nat)
                            + " characters (found "@ + spec_decimal(len as nat) + ")"@,
                    ),
                )
            } else if r.max_length is Some && len > r.max_length->Some_0 {
                Some(
                    field_msg(
                        path,
                        "cannot exceed "@ + spec_decimal(r.max_length->Some_0 as nat)
                            + " characters (found "@ + spec_decimal(len as nat) + ")"@,
                    ),
                )
            } else if r.pattern is Some && !spec_regex_valid(r.pattern->Some_0@) {
                Some(
                    "Invalid regex pattern for field '"@ + path + "': "@ + spec_regex_error(
                        r.pattern->Some_0@,
                    ),
                )
            } else if r.pattern is Some && !spec_regex_is_match(r.pattern->Some_0@, s) {
                Some(field_msg(path, "must match pattern: "@ + r.pattern->Some_0@))
            } else if r.datetime == Some(true) && spec_parse_rfc3339(s) is Err {
                Some(
                    field_msg(
                        path,
                        "must be a valid RFC3339 datetime: "@ + spec_parse_rfc3339(s)->Err_0,
                    ),
                )
            } else if r.enum_values is Some && !views(r.enum_values->Some_0@).contains(s) {
                Some(
                    field_msg(
                        path,
                        "must be one of: "@ + spec_debug_strings(views(r.enum_values->Some_0@)),
                    ),
                )
            } else {
                None
            }
        },
    }
}

/// The index of the first item equal to an earlier one, searching from `i`.
pub open spec fn spec_first_duplicate(items: Seq<JsonSpec>, i: int) -> Option<int>
    decreases items.len() - i,
{
    if i < 0 || i >= items.len() {
        None
    } else if exists|j: int| 0 <= j < i && items[j] == items[i] {
        Some(i)
    } else {
        spec_first_duplicate(items, i + 1)
    }
}

/// The first array rule (length, uniqueness) that the items break.
pub open spec fn spec_check_array_rules(r: ValidationRules, items: Seq<JsonSpec>, path: Seq<char>) -> Option<
    Seq<char>,
> {
    if r.min_items is Some && items.len() < r.min_items->Some_0 {
        Some(
            field_msg(
                path,
                "must have at least "@ + spec_decimal(r.min_items->Some_0 as nat) + " items (found "@
                    + spec_decimal(items.len()) + ")"@,
            ),
        )
    } else if r.max_items is Some && items.len() > r.max_items->Some_0 {
        Some(
            field_msg(
                path,
                "cannot exceed "@ + spec_decimal(r.max_items->Some_0 as nat) + " items (found "@
                    + spec_decimal(items.len()) + ")"@,
            ),
        )
    } else if r.unique_items == Some(true) && spec_first_duplicate(items, 0) is Some {
        Some(
            field_msg(
                path,
                "contains duplicate item at index "@ + spec_decimal(
                    spec_first_duplicate(items, 0)->Some_0 as nat,
                ),
            ),
        )
    } else {
        None
    }
}

/// The path of item `i` of the array at `path`.
pub open spec fn item_path(path: Seq<char>, i: int) -> Seq<char> {
    path + "["@ + spec_decimal(i as nat) + "]"@
}

/// The path of field `name` of the object at `path`.
pub open spec fn member_path(path: Seq<char>, name: Seq<char>) -> Seq<char> {
    path + "."@ + name
}

/// What validating a value at `path` against a field definition reports:
/// `None` when it conforms, else the message of the first rule it breaks.
pub open spec fn spec_check_field<F: Fn(JsonNumber, &ValidationRules) -> Option<String>>(
    def: FieldDefinition,
    v: JsonSpec,
    path: Seq<char>,
    f: F,
) -> Option<Seq<char>>
    decreases def, 3int, 0int,
{
    let t = def.base_type@;
    if t == "string"@ && v is Str {
        spec_check_string(def.validation, v->Str_0, path)
    } else if t == "number"@ && v is Number {
        match def.validation {
            None => None,
            Some(r) => match number_verdict(f, v->Number_0, r) {
                None => None,
                Some(tail) => Some(field_msg(path, tail)),
            },
        }
    } else if t == "array"@ && v is Array {
        spec_check_array(def, v->Array_0, path, f)
    } else if t == "object"@ && v is Object {
        spec_check_object(def, v->Object_0, path, f)
    } else if (t == "boolean"@ && v is Bool) || (t == "null"@ && v is Null) {
        None
    } else {
        Some(field_msg(path, "expected type '"@ + t + "' but got '"@ + spec_type_name(v) + "'"@))
    }
}

/// What validating the items of an array reports.
pub open spec fn spec_check_array<F: Fn(JsonNumber, &ValidationRules) -> Option<String>>(
    def: FieldDefinition,
    items: Seq<JsonSpec>,
    path: Seq<char>,
    f: F,
) -> Option<Seq<char>>
    decreases def, 2int, 0int,
{
    let rules = match def.validation {
        Some(r) => spec_check_array_rules(r, items, path),
        None => None,
    };
    if rules is Some {
        rules
    } else if def.items is Some {
        spec_check_items(def, items, path, 0, f)
    } else {
        None
    }
}

/// Whether a value has the JSON type that a definition's base type names.
pub open spec fn spec_type_fits(t: Seq<char>, v: JsonSpec) -> bool {
    ||| t == "string"@ && v is Str
    ||| t == "number"@ && v is Number
    ||| t == "array"@ && v is Array
    ||| t == "object"@ && v is Object
    ||| t == "boolean"@ && v is Bool
    ||| t == "null"@ && v is Null
}

/// What validating items `i..` of an array against the item definition
/// reports. Each item must have the item definition's type, and is then
/// checked against the item definition at its own path.
pub open spec fn spec_check_items<F: Fn(JsonNumber, &ValidationRules) -> Option<String>>(
    def: FieldDefinition,
    items: Seq<JsonSpec>,
    path: Seq<char>,
    i: int,
    f: F,
) -> Option<Seq<char>>
    decreases def, 1int, items.len() - i,
{
    if i < 0 || i >= items.len() || def.items is None {
        None
    } else {
        let item_def = *def.items->Some_0;
        proof {
            assert(decreases_to!(def => def.items));
            assert(decreases_to!(def.items => def.items->Some_0));
        }
        if spec_type_fits(item_def.base_type@, items[i]) {
            match spec_check_field(item_def, items[i], item_path(path, i), f) {
                Some(e) => Some(e),
                None => spec_check_items(def, items, path, i + 1, f),
            }
        } else {
            Some(
                "Item at index "@ + spec_decimal(i as nat) + " in '"@ + path + "' expected type '"@
                    + item_def.base_type@ + "' but got '"@ + spec_type_name(items[i]) + "'"@,
            )
        }
    }
}

/// What validating the entries of an object reports.
pub open spec fn spec_check_object<F: Fn(JsonNumber, &ValidationRules) -> Option<String>>(
    def: FieldDefinition,
    entries: Seq<(Seq<char>, JsonSpec)>,
    path: Seq<char>,
    f: F,
) -> Option<Seq<char>>
    decreases def, 2int, 0int,
{
    if def.fields is None {
        None
    } else {
        spec_check_members(def, entries, path, 0, f)
    }
}

/// What validating an object against field definitions `k..` reports.
pub open spec fn spec_check_members<F: Fn(JsonNumber, &ValidationRules) -> Option<String>>(
    def: FieldDefinition,
    entries: Seq<(Seq<char>, JsonSpec)>,
    path: Seq<char>,
    k: int,
    f: F,
) -> Option<Seq<char>>
    decreases def, 1int, def.fields->Some_0@.len() - k,
{
    if def.fields is None || k < 0 || k >= def.fields->Some_0@.len() {
        None
    } else {
        let fd = def.fields->Some_0@[k];
        proof {
            assert(decreases_to!(def => def.fields));
            assert(decreases_to!(def.fields => def.fields->Some_0));
            assert(decreases_to!(def.fields->Some_0 => def.fields->Some_0@));
            assert(decreases_to!(def.fields->Some_0@ => def.fields->Some_0@[k]));
        }
        match spec_get(entries, fd.name@) {
            Some(v) => match spec_check_field(fd, v, member_path(path, fd.name@), f) {
                Some(e) => Some(e),
                None => spec_check_members(def, entries, path, k + 1, f),
            },
            None => if fd.required {
                Some("Missing required field '"@ + fd.name@ + "' in object '"@ + path + "'"@)
            } else {
                spec_check_members(def, entries, path, k + 1, f)
            },
        }
    }
}


// ---------------------------------------------------------------------------
// Validation
// ---------------------------------------------------------------------------

fn field_message(path: &str, rest: String) -> (r: String)
    ensures
        r@ == field_msg(path@, rest@),
{
    owned("Field '").concat(path).concat("' ").concat(rest.as_str())
}

fn decimal_usize(n: usize) -> (r: String)
    ensures
        r@ == spec_decimal(n as nat),
{
    decimal(n as u64)
}

/// Checks a string against the rules.
fn check_string(rules: &Option<ValidationRules>, s: &str, path: &str) -> (r: Option<String>)
    ensures
        opt_view(r) == spec_check_string(*rules, s@, path@),
{
    match rules {
        None => None,
        Some(r) => {
            let len = byte_len(s);
            if let Some(min) = r.min_length {
                if len < min {
                    let rest = owned("must be at least ").concat(decimal_usize(min).as_str()).concat(
                        " characters (found ",
                    ).concat(decimal_usize(len).as_str()).concat(")");
                    return Some(field_message(path, rest));
                }
            }
            if let Some(max) = r.max_length {
                if len > max {
                    let rest = owned("cannot exceed ").concat(decimal_usize(max).as_str()).concat(
                        " characters (found ",
                    ).concat(decimal_usize(len).as_str()).concat(")");
                    return Some(field_message(path, rest));
                }
            }
            if let Some(pattern) = &r.pattern {
                match regex_is_match(pattern.as_str(), s) {
                    Ok(true) => {},
                    Ok(false) => {
                        let rest = owned("must match pattern: ").concat(pattern.as_str());
                        return Some(field_message(path, rest));
                    },
                    Err(e) => {
                        return Some(
                            owned("Invalid regex pattern for field '").concat(path).concat(
                                "': ",
                            ).concat(e.as_str()),
                        );
                    },
                }
            }
            if r.datetime == Some(true) {
                if let Err(e) = Timestamp::parse_rfc3339(s) {
                    let rest = owned("must be a valid RFC3339 datetime: ").concat(e.as_str());
                    return Some(field_message(path, rest));
                }
            }
            if let Some(allowed) = &r.enum_values {
                if !contains_str(allowed, s) {
                    let rest = owned("must be one of: ").concat(debug_strings(allowed).as_str());
                    return Some(field_message(path, rest));
                }
            }
            None
        },
    }
}

/// The index of the first item equal to an earlier one.
pub(crate) fn first_duplicate(items: &Vec<JsonValue>) -> (r: Option<usize>)
    ensures
        opt_index(r) == spec_first_duplicate(deep_all(items@), 0),
{
    let ghost d = deep_all(items@);
    proof {
        lemma_deep_all(items@);
    }
    let mut i: usize = 0;
    while i < items.len()
        invariant
            i <= items.len(),
            d == deep_all(items@),
            d.len() == items@.len(),
            forall|k: int| 0 <= k < items@.len() ==> #[trigger] d[k] == items@[k].deep(),
            spec_first_duplicate(d, 0) == spec_first_duplicate(d, i as int),
        decreases items.len() - i,
    {
        let mut j: usize = 0;
        while j < i
            invariant
                j <= i < items.len(),
                d.len() == items@.len(),
                forall|k: int| 0 <= k < items@.len() ==> #[trigger] d[k] == items@[k].deep(),
                forall|k: int| 0 <= k < j ==> d[k] != d[i as int],
                d == deep_all(items@),
                spec_first_duplicate(d, 0) == spec_first_duplicate(d, i as int),
            decreases i - j,
        {
            if json_eq(&items[j], &items[i]) {
                assert(0 <= j < i && d[j as int] == d[i as int]);
                assert(spec_first_duplicate(d, i as int) == Some(i as int));
                return Some(i);
            }
            j = j + 1;
        }
        assert(!(exists|k: int| 0 <= k < i && d[k] == d[i as int]));
        i = i + 1;
    }
    None
}

/// The view of an optional index.
pub open spec fn opt_index(o: Option<usize>) -> Option<int> {
    match o {
        Some(i) => Some(i as int),
        None => None,
    }
}

/// Checks the array rules (lengths, uniqueness).
fn check_array_rules(r: &ValidationRules, items: &Vec<JsonValue>, path: &str) -> (out: Option<String>)
    ensures
        opt_view(out) == spec_check_array_rules(*r, deep_all(items@), path@),
{
    proof {
        lemma_deep_all(items@);
    }
    let len = items.len();
    if let Some(min) = r.min_items {
        if len < min {
            let rest = owned("must have at least ").concat(decimal_usize(min).as_str()).concat(
                " items (found ",
            ).concat(decimal_usize(len).as_str()).concat(")");
            return Some(field_message(path, rest));
        }
    }
    if let Some(max) = r.max_items {
        if len > max {
            let rest = owned("cannot exceed ").concat(decimal_usize(max).as_str()).concat(
                " items (found ",
            ).concat(decimal_usize(len).as_str()).concat(")");
            return Some(field_message(path, rest));
        }
    }
    if r.unique_items == Some(true) {
        if let Some(idx) = first_duplicate(items) {
            let rest = owned("contains duplicate item at index ").concat(decimal_usize(idx).as_str());
            return Some(field_message(path, rest));
        }
    }
    None
}

fn type_mismatch(path: &str, expected: &str, v: &JsonValue) -> (r: String)
    ensures
        r@ == field_msg(path@, "expected type '"@ + expected@ + "' but got '"@ + spec_type_name(v.deep()) + "'"@),
{
    let rest = owned("expected type '").concat(expected).concat("' but got '").concat(
        type_name_of_value(v),
    ).concat("'");
    field_message(path, rest)
}

/// Whether a value has the JSON type that `t` names.
fn type_fits(t: &str, v: &JsonValue) -> (r: bool)
    ensures
        r == spec_type_fits(t@, v.deep()),
{
    match v {
        JsonValue::String(_) => str_eq(t, "string"),
        JsonValue::Number(_) => str_eq(t, "number"),
        JsonValue::Array(_) => str_eq(t, "array"),
        JsonValue::Object(_) => str_eq(t, "object"),
        JsonValue::Bool(_) => str_eq(t, "boolean"),
        JsonValue::Null => str_eq(t, "null"),
    }
}

/// Checks a value at `path` against a field definition.
fn check_field<F: Fn(JsonNumber, &ValidationRules) -> Option<String>>(
    def: &FieldDefinition,
    v: &JsonValue,
    path: &str,
    f: &F,
) -> (r: Option<String>)
    requires
        number_check_ok(*f),
    ensures
        opt_view(r) == spec_check_field(*def, v.deep(), path@, *f),
    decreases *def, 3int, 0int,
{
    let t = def.base_type.as_str();
    let is_string = str_eq(t, "string");
    let is_number = str_eq(t, "number");
    let is_array = str_eq(t, "array");
    let is_object = str_eq(t, "object");
    let is_boolean = str_eq(t, "boolean");
    let is_null = str_eq(t, "null");
    match v {
        JsonValue::String(s) if is_string => check_string(&def.validation, s.as_str(), path),
        JsonValue::Number(n) if is_number => match &def.validation {
            None => None,
            Some(r) => match run_number_check(f, *n, r) {
                None => None,
                Some(tail) => Some(field_message(path, tail)),
            },
        },
        JsonValue::Array(items) if is_array => check_array(def, items, path, f),
        JsonValue::Object(entries) if is_object => check_object(def, entries, path, f),
        JsonValue::Bool(_) if is_boolean => None,
        JsonValue::Null if is_null => None,
        _ => Some(type_mismatch(path, t, v)),
    }
}

/// Checks the items of an array against the array's definition.
fn check_array<F: Fn(JsonNumber, &ValidationRules) -> Option<String>>(
    def: &FieldDefinition,
    items: &Vec<JsonValue>,
    path: &str,
    f: &F,
) -> (r: Option<String>)
    requires
        number_check_ok(*f),
    ensures
        opt_view(r) == spec_check_array(*def, deep_all(items@), path@, *f),
    decreases *def, 2int, 0int,
{
    let ghost d = deep_all(items@);
    proof {
        lemma_deep_all(items@);
    }
    let rules = match &def.validation {
        Some(r) => check_array_rules(r, items, path),
        None => None,
    };
    if rules.is_some() {
        return rules;
    }
    match &def.items {
        None => None,
        Some(item_def) => {
            assert(spec_check_array(*def, d, path@, *f) == spec_check_items(*def, d, path@, 0, *f));
            let mut i: usize = 0;
            while i < items.len()
                invariant
                    i <= items.len(),
                    spec_check_array(*def, d, path@, *f) == spec_check_items(*def, d, path@, 0, *f),
                    number_check_ok(*f),
                    d == deep_all(items@),
                    d.len() == items@.len(),
                    forall|k: int| 0 <= k < items@.len() ==> #[trigger] d[k] == items@[k].deep(),
                    def.items == Some(*item_def),
                    spec_check_items(*def, d, path@, 0, *f) == spec_check_items(*def, d, path@, i as int, *f),
                decreases items.len() - i,
            {
                proof {
                    assert(decreases_to!(*def => def.items));
                    assert(decreases_to!(def.items => def.items->Some_0));
                }
                let ip = owned(path).concat("[").concat(decimal_usize(i).as_str()).concat("]");
                assert(ip@ == item_path(path@, i as int));
                if type_fits(item_def.base_type.as_str(), &items[i]) {
                    let e = check_field(&**item_def, &items[i], ip.as_str(), f);
                    if e.is_some() {
                        return e;
                    }
                } else {
                    let msg = owned("Item at index ").concat(decimal_usize(i).as_str()).concat(
                        " in '",
                    ).concat(path).concat("' expected type '").concat(item_def.base_type.as_str()).concat(
                        "' but got '",
                    ).concat(type_name_of_value(&items[i])).concat("'");
                    return Some(msg);
                }
                i = i + 1;
            }
            None
        },
    }
}

/// Checks the entries of an object against the definition's fields.
fn check_object<F: Fn(JsonNumber, &ValidationRules) -> Option<String>>(
    def: &FieldDefinition,
    entries: &Vec<(String, JsonValue)>,
    path: &str,
    f: &F,
) -> (r: Option<String>)
    requires
        number_check_ok(*f),
    ensures
        opt_view(r) == spec_check_object(*def, deep_all_entries(entries@), path@, *f),
    decreases *def, 2int, 0int,
{
    let ghost d = deep_all_entries(entries@);
    match &def.fields {
        None => None,
        Some(fields) => {
            let mut k: usize = 0;
            while k < fields.len()
                invariant
                    k <= fields.len(),
                    number_check_ok(*f),
                    d == deep_all_entries(entries@),
                    def.fields == Some(*fields),
                    spec_check_members(*def, d, path@, 0, *f) == spec_check_members(*def, d, path@, k as int, *f),
                decreases fields.len() - k,
            {
                proof {
                    assert(decreases_to!(*def => def.fields));
                    assert(decreases_to!(def.fields => def.fields->Some_0));
                    assert(decreases_to!(def.fields->Some_0 => def.fields->Some_0@));
                    assert(decreases_to!(def.fields->Some_0@ => def.fields->Some_0@[k as int]));
                }
                let fd = &fields[k];
                match get(entries, fd.name.as_str()) {
                    Some(v) => {
                        let mp = owned(path).concat(".").concat(fd.name.as_str());
                        let e = check_field(fd, v, mp.as_str(), f);
                        if e.is_some() {
                            return e;
                        }
                    },
                    None => {
                        if fd.required {
                            return Some(
                                owned("Missing required field '").concat(fd.name.as_str()).concat(
                                    "' in object '",
                                ).concat(path).concat("'"),
                            );
                        }
                    },
                }
                k = k + 1;
            }
            None
        },
    }
}

// ---------------------------------------------------------------------------
// Templates
// ---------------------------------------------------------------------------

/// The name of the first required field, from index `k` on, that the item
/// lacks.
pub open spec fn spec_first_missing(
    fields: Seq<FieldDefinition>,
    item: Seq<(Seq<char>, JsonSpec)>,
    k: int,
) -> Option<Seq<char>>
    decreases fields.len() - k,
{
    if k < 0 || k >= fields.len() {
        None
    } else if fields[k].required && spec_get(item, fields[k].name@) is None {
        Some(fields[k].name@)
    } else {
        spec_first_missing(fields, item, k + 1)
    }
}

/// The index of the first field, from index `k` on, with the name.
pub open spec fn spec_field_index(fields: Seq<FieldDefinition>, name: Seq<char>, k: int) -> Option<int>
    decreases fields.len() - k,
{
    if k < 0 || k >= fields.len() {
        None
    } else if fields[k].name@ == name {
        Some(k)
    } else {
        spec_field_index(fields, name, k + 1)
    }
}

/// What checking the entries `i..` of an item against the fields with their
/// names reports. Entries that no field names are let through.
pub open spec fn spec_check_entries<F: Fn(JsonNumber, &ValidationRules) -> Option<String>>(
    fields: Seq<FieldDefinition>,
    item: Seq<(Seq<char>, JsonSpec)>,
    i: int,
    f: F,
) -> Option<Seq<char>>
    decreases item.len() - i,
{
    if i < 0 || i >= item.len() {
        None
    } else {
        match spec_field_index(fields, item[i].0, 0) {
            Some(x) => match spec_check_field(fields[x], item[i].1, fields[x].name@, f) {
                Some(e) => Some(e),
                None => spec_check_entries(fields, item, i + 1, f),
            },
            None => spec_check_entries(fields, item, i + 1, f),
        }
    }
}

/// What validating an item against a template reports: first a missing
/// required field, then the first entry, in the item's order, whose value
/// breaks its field's definition.
pub open spec fn spec_validate<F: Fn(JsonNumber, &ValidationRules) -> Option<String>>(
    t: Template,
    item: Seq<(Seq<char>, JsonSpec)>,
    f: F,
) -> Option<Seq<char>> {
    match spec_first_missing(t.fields@, item, 0) {
        Some(name) => Some("Missing required field: "@ + name),
        None => spec_check_entries(t.fields@, item, 0, f),
    }
}

proof fn lemma_field_index(fields: Seq<FieldDefinition>, name: Seq<char>, k: int)
    requires
        0 <= k,
    ensures
        spec_field_index(fields, name, k) matches Some(x) ==> k <= x < fields.len() && fields[x].name@ == name,
    decreases fields.len() - k,
{
    if k < fields.len() && fields[k].name@ != name {
        lemma_field_index(fields, name, k + 1);
    }
}

pub(crate) fn field_index(fields: &Vec<FieldDefinition>, name: &str) -> (r: Option<usize>)
    ensures
        opt_index(r) == spec_field_index(fields@, name@, 0),
        r matches Some(i) ==> i < fields@.len() && fields@[i as int].name@ == name@,
{
    proof {
        lemma_field_index(fields@, name@, 0);
    }
    let mut k: usize = 0;
    while k < fields.len()
        invariant
            k <= fields.len(),
            spec_field_index(fields@, name@, 0) == spec_field_index(fields@, name@, k as int),
        decreases fields.len() - k,
    {
        if str_eq(fields[k].name.as_str(), name) {
            return Some(k);
        }
        k = k + 1;
    }
    None
}

impl Template {
    /// Makes a template from its name, its description and the entries of
    /// its table: each entry other than `name` and `description` is a field,
    /// named by its key, in the order of the entries.
    pub fn from_entries(
        name: String,
        description: Option<String>,
        entries: Vec<(String, FieldDefinition)>,
    ) -> (t: Template)
        ensures
            t.name == name,
            t.description == description,
            t.fields@ == spec_template_fields(entries@),
    {
        let mut fields: Vec<FieldDefinition> = Vec::new();
        let mut rest = entries;
        let ghost all = rest@;
        let ghost mut i: int = 0;
        while rest.len() > 0
            invariant
                0 <= i <= all.len(),
                rest@ == all.skip(i),
                fields@ == spec_template_fields(all.take(i)),
            decreases rest.len(),
        {
            let (key, def) = rest.remove(0);
            proof {
                assert(all.take(i + 1).drop_last() =~= all.take(i));
                assert(all.take(i + 1).last() == all[i]);
            }
            let keep = !str_eq(key.as_str(), "name") && !str_eq(key.as_str(), "description");
            if keep {
                let FieldDefinition { name: _, required, description, base_type, validation, items, fields: sub } =
                    def;
                fields.push(
                    FieldDefinition { name: key, required, description, base_type, validation, items, fields: sub },
                );
            }
            proof {
                assert(rest@ =~= all.skip(i + 1));
                i = i + 1;
            }
        }
        proof {
            assert(all.take(i) =~= all);
        }
        Template { name, description, fields }
    }

    /// Validates an item against the template: every required field must be
    /// present, and every entry whose key names a field must conform to that
    /// field's definition; other entries are let through. Numbers are judged
    /// by `check_number`, which gives the end of the message for a number
    /// that breaks the rules (after `Field '<path>' `).
    pub fn validate<F: Fn(JsonNumber, &ValidationRules) -> Option<String>>(
        &self,
        resource: &TemplatedItem,
        check_number: &F,
    ) -> (r: Result<(), LearnerError>)
        requires
            number_check_ok(*check_number),
        ensures
            r is Ok <==> spec_validate(*self, deep_all_entries(resource@), *check_number) is None,
            r matches Err(e) ==> e is TemplateInvalidation && e->TemplateInvalidation_0@
                == spec_validate(*self, deep_all_entries(resource@), *check_number)->Some_0,
    {
        let ghost d = deep_all_entries(resource@);
        proof {
            lemma_deep_all_entries(resource@);
        }
        let mut k: usize = 0;
        while k < self.fields.len()
            invariant
                k <= self.fields.len(),
                d == deep_all_entries(resource@),
                spec_first_missing(self.fields@, d, 0) == spec_first_missing(self.fields@, d, k as int),
            decreases self.fields.len() - k,
        {
            let field = &self.fields[k];
            if field.required && get(resource, field.name.as_str()).is_none() {
                return Err(
                    LearnerError::TemplateInvalidation(
                        owned("Missing required field: ").concat(field.name.as_str()),
                    ),
                );
            }
            k = k + 1;
        }
        let mut i: usize = 0;
        while i < resource.len()
            invariant
                i <= resource.len(),
                number_check_ok(*check_number),
                d == deep_all_entries(resource@),
                d.len() == resource@.len(),
                forall|j: int|
                    0 <= j < resource@.len() ==> #[trigger] d[j] == (resource@[j].0@, resource@[j].1.deep()),
                spec_validate(*self, d, *check_number) == spec_check_entries(self.fields@, d, i as int, *check_number),
            decreases resource.len() - i,
        {
            let name = resource[i].0.as_str();
            match field_index(&self.fields, name) {
                Some(x) => {
                    proof {
                        lemma_field_index(self.fields@, name@, 0);
                    }
                    let field = &self.fields[x];
                    if let Some(e) = check_field(field, &resource[i].1, field.name.as_str(), check_number) {
                        return Err(LearnerError::TemplateInvalidation(e));
                    }
                },
                None => {},
            }
            i = i + 1;
        }
        Ok(())
    }
}

/// The definition under the name `key`.
pub open spec fn spec_named(key: String, def: FieldDefinition) -> FieldDefinition {
    FieldDefinition {
        name: key,
        required: def.required,
        description: def.description,
        base_type: def.base_type,
        validation: def.validation,
        items: def.items,
        fields: def.fields,
    }
}

/// The fields of a template made from the entries of its table: each entry
/// other than `name` and `description`, named by its key.
pub open spec fn spec_template_fields(entries: Seq<(String, FieldDefinition)>) -> Seq<FieldDefinition>
    decreases entries.len(),
{
    if entries.len() == 0 {
        seq![]
    } else {
        let rest = spec_template_fields(entries.drop_last());
        let k = entries.last().0@;
        if k == "name"@ || k == "description"@ {
            rest
        } else {
            rest.push(spec_named(entries.last().0, entries.last().1))
        }
    }
}

/// Converts an instant to its RFC 3339 text for JSON storage; when its year
/// has four digits, `datetime_from_json` reads the text back as the same
/// instant.
pub fn datetime_to_json(dt: &Timestamp) -> (r: String)
    ensures
        r@ == spec_rfc3339(dt.spec_secs(), dt.spec_nanos()),
        spec_four_digit_year(dt.spec_secs()) ==> spec_parse_rfc3339(r@) == Ok::<(i64, u32), Seq<char>>(
            (dt.spec_secs(), dt.spec_nanos()),
        ),
{
    dt.to_rfc3339()
}

/// Parses an RFC 3339 text from JSON into an instant.
pub fn datetime_from_json(s: &str) -> (r: Result<Timestamp, LearnerError>)
    ensures
        r matches Ok(t) ==> spec_parse_rfc3339(s@) == Ok::<(i64, u32), Seq<char>>(
            (t.spec_secs(), t.spec_nanos()),
        ),
        r is Err <==> spec_parse_rfc3339(s@) is Err,
        r matches Err(e) ==> e is TemplateInvalidation && e->TemplateInvalidation_0@
            == "Invalid datetime format: "@ + spec_parse_rfc3339(s@)->Err_0,
{
    match Timestamp::parse_rfc3339(s) {
        Ok(t) => Ok(t),
        Err(m) => Err(LearnerError::TemplateInvalidation(owned("Invalid datetime format: ").concat(m.as_str()))),
    }
}

proof fn lemma_first_missing(fields: Seq<FieldDefinition>, item: Seq<(Seq<char>, JsonSpec)>, k: int)
    requires
        0 <= k,
        spec_first_missing(fields, item, k) is None,
    ensures
        forall|j: int|
            k <= j < fields.len() && #[trigger] fields[j].required ==> spec_get(item, fields[j].name@) is Some,
    decreases fields.len() - k,
{
    if k < fields.len() {
        lemma_first_missing(fields, item, k + 1);
    }
}

/// An item that a template accepts holds every required field of the
/// template.
pub proof fn lemma_accepted_has_required<F: Fn(JsonNumber, &ValidationRules) -> Option<String>>(
    t: Template,
    item: Seq<(Seq<char>, JsonSpec)>,
    f: F,
)
    requires
        spec_validate(t, item, f) is None,
    ensures
        forall|j: int|
            0 <= j < t.fields@.len() && #[trigger] t.fields@[j].required ==> spec_get(item, t.fields@[j].name@) is Some,
{
    lemma_first_missing(t.fields@, item, 0);
}

proof fn lemma_entries_accepted<F: Fn(JsonNumber, &ValidationRules) -> Option<String>>(
    fields: Seq<FieldDefinition>,
    item: Seq<(Seq<char>, JsonSpec)>,
    i: int,
    f: F,
)
    requires
        0 <= i,
        spec_check_entries(fields, item, i, f) is None,
    ensures
        forall|j: int|
            i <= j < item.len() && #[trigger] spec_field_index(fields, item[j].0, 0) is Some ==> spec_check_field(
                fields[spec_field_index(fields, item[j].0, 0)->Some_0],
                item[j].1,
                fields[spec_field_index(fields, item[j].0, 0)->Some_0].name@,
                f,
            ) is None,
    decreases item.len() - i,
{
    if i < item.len() {
        lemma_entries_accepted(fields, item, i + 1, f);
    }
}

/// In an item that a template accepts, the value of every entry that a
/// field names conforms to that field's definition.
pub proof fn lemma_accepted_values_conform<F: Fn(JsonNumber, &ValidationRules) -> Option<String>>(
    t: Template,
    item: Seq<(Seq<char>, JsonSpec)>,
    f: F,
)
    requires
        spec_validate(t, item, f) is None,
    ensures
        forall|j: int|
            0 <= j < item.len() && #[trigger] spec_field_index(t.fields@, item[j].0, 0) is Some ==> spec_check_field(
                t.fields@[spec_field_index(t.fields@, item[j].0, 0)->Some_0],
                item[j].1,
                t.fields@[spec_field_index(t.fields@, item[j].0, 0)->Some_0].name@,
                f,
            ) is None,
{
    lemma_entries_accepted(t.fields@, item, 0, f);
}

/// A boolean value conforms to a field whose base type is `boolean`, and
/// the null value to a field whose base type is `null`, whatever the path
/// and the rules: checking reports nothing.
pub proof fn lemma_boolean_and_null_conform<F: Fn(JsonNumber, &ValidationRules) -> Option<String>>(
    def: FieldDefinition,
    b: bool,
    path: Seq<char>,
    f: F,
)
    ensures
        def.base_type@ == "boolean"@ ==> spec_check_field(def, JsonSpec::Bool(b), path, f) is None,
        def.base_type@ == "null"@ ==> spec_check_field(def, JsonSpec::Null, path, f) is None,
{
}

proof fn lemma_none_missing(fields: Seq<FieldDefinition>, item: Seq<(Seq<char>, JsonSpec)>, k: int)
    requires
        forall|j: int| 0 <= j < fields.len() && #[trigger] fields[j].required ==> spec_get(item, fields[j].name@) is Some,
    ensures
        spec_first_missing(fields, item, k) is None,
    decreases fields.len() - k,
{
    if 0 <= k < fields.len() {
        lemma_none_missing(fields, item, k + 1);
    }
}

proof fn lemma_boolean_entries_pass<F: Fn(JsonNumber, &ValidationRules) -> Option<String>>(
    fields: Seq<FieldDefinition>,
    item: Seq<(Seq<char>, JsonSpec)>,
    i: int,
    f: F,
)
    requires
        forall|j: int|
            0 <= j < item.len() && #[trigger] spec_field_index(fields, item[j].0, 0) is Some ==> fields[spec_field_index(
                fields,
                item[j].0,
                0,
            )->Some_0].base_type@ == "boolean"@ && item[j].1 is Bool,
    ensures
        spec_check_entries(fields, item, i, f) is None,
    decreases item.len() - i,
{
    if 0 <= i < item.len() {
        lemma_boolean_entries_pass(fields, item, i + 1, f);
        match spec_field_index(fields, item[i].0, 0) {
            Some(x) => {
                lemma_boolean_and_null_conform(fields[x], item[i].1->Bool_0, fields[x].name@, f);
            },
            None => {},
        }
    }
}

/// An item that holds every required field of a template, and whose every
/// entry named by a field is a boolean value for a field whose base type is
/// `boolean`, is accepted by the template.
pub proof fn lemma_boolean_item_validates<F: Fn(JsonNumber, &ValidationRules) -> Option<String>>(
    t: Template,
    item: Seq<(Seq<char>, JsonSpec)>,
    f: F,
)
    requires
        forall|j: int|
            0 <= j < t.fields@.len() && #[trigger] t.fields@[j].required ==> spec_get(item, t.fields@[j].name@) is Some,
        forall|j: int|
            0 <= j < item.len() && #[trigger] spec_field_index(t.fields@, item[j].0, 0) is Some
                ==> t.fields@[spec_field_index(t.fields@, item[j].0, 0)->Some_0].base_type@ == "boolean"@
                && item[j].1 is Bool,
    ensures
        spec_validate(t, item, f) is None,
{
    lemma_none_missing(t.fields@, item, 0);
    lemma_boolean_entries_pass(t.fields@, item, 0, f);
}

/// A string that a string field accepts obeys every rule of the field: its
/// length in bytes lies within the bounds, the field's pattern is a valid
/// regex that matches it, it is an RFC 3339 datetime when one is asked for,
/// and it is one of the allowed values when they are listed.
pub proof fn lemma_accepted_string_obeys_rules<F: Fn(JsonNumber, &ValidationRules) -> Option<String>>(
    def: FieldDefinition,
    s: Seq<char>,
    path: Seq<char>,
    f: F,
)
    requires
        def.base_type@ == "string"@,
        spec_check_field(def, JsonSpec::Str(s), path, f) is None,
    ensures
        def.validation matches Some(r) ==> {
            &&& r.min_length matches Some(min) ==> spec_byte_len(s) >= min
            &&& r.max_length matches Some(max) ==> spec_byte_len(s) <= max
            &&& r.pattern matches Some(p) ==> spec_regex_valid(p@) && spec_regex_is_match(p@, s)
            &&& r.datetime == Some(true) ==> spec_parse_rfc3339(s) is Ok
            &&& r.enum_values matches Some(vals) ==> views(vals@).contains(s)
        },
{
}

/// Items with no duplicate found from index `i` on hold no item, at or
/// after `i`, equal to an earlier one.
pub proof fn lemma_no_duplicate_from(items: Seq<JsonSpec>, i: int)
    requires
        0 <= i,
        spec_first_duplicate(items, i) is None,
    ensures
        forall|a: int, b: int| 0 <= a < b < items.len() && i <= b ==> items[a] != items[b],
    decreases items.len() - i,
{
    if i < items.len() {
        assert(!(exists|j: int| 0 <= j < i && items[j] == items[i]));
        lemma_no_duplicate_from(items, i + 1);
    }
}

proof fn lemma_items_accepted<F: Fn(JsonNumber, &ValidationRules) -> Option<String>>(
    def: FieldDefinition,
    items: Seq<JsonSpec>,
    path: Seq<char>,
    i: int,
    f: F,
)
    requires
        0 <= i,
        def.items is Some,
        spec_check_items(def, items, path, i, f) is None,
    ensures
        forall|k: int|
            i <= k < items.len() ==> spec_type_fits((*def.items->Some_0).base_type@, #[trigger] items[k])
                && spec_check_field(*def.items->Some_0, items[k], item_path(path, k), f) is None,
    decreases items.len() - i,
{
    if i < items.len() {
        lemma_items_accepted(def, items, path, i + 1, f);
    }
}

/// An array that an array field accepts obeys the field's rules: its length
/// lies within the bounds, no two of its items are equal when uniqueness is
/// asked for, and every item has the item definition's type and conforms to
/// it at the item's own path.
pub proof fn lemma_accepted_array_obeys_rules<F: Fn(JsonNumber, &ValidationRules) -> Option<String>>(
    def: FieldDefinition,
    items: Seq<JsonSpec>,
    path: Seq<char>,
    f: F,
)
    requires
        def.base_type@ == "array"@,
        spec_check_field(def, JsonSpec::Array(items), path, f) is None,
    ensures
        def.validation matches Some(r) ==> {
            &&& r.min_items matches Some(min) ==> items.len() >= min
            &&& r.max_items matches Some(max) ==> items.len() <= max
            &&& r.unique_items == Some(true) ==> forall|a: int, b: int|
                0 <= a < b < items.len() ==> #[trigger] items[a] != #[trigger] items[b]
        },
        def.items matches Some(d) ==> forall|k: int|
            0 <= k < items.len() ==> spec_type_fits(d.base_type@, #[trigger] items[k]) && spec_check_field(
                *d,
                items[k],
                item_path(path, k),
                f,
            ) is None,
{
    match def.validation {
        Some(r) => {
            if r.unique_items == Some(true) {
                lemma_no_duplicate_from(items, 0);
            }
        },
        None => {},
    }
    if def.items is Some {
        lemma_items_accepted(def, items, path, 0, f);
    }
}

/// A value that a field accepts has the JSON type that the field's base
/// type names (a field whose base type names no JSON type accepts nothing).
pub proof fn lemma_accepted_value_has_type<F: Fn(JsonNumber, &ValidationRules) -> Option<String>>(
    def: FieldDefinition,
    v: JsonSpec,
    path: Seq<char>,
    f: F,
)
    requires
        spec_check_field(def, v, path, f) is None,
    ensures
        spec_type_fits(def.base_type@, v),
{
}

proof fn lemma_members_accepted<F: Fn(JsonNumber, &ValidationRules) -> Option<String>>(
    def: FieldDefinition,
    entries: Seq<(Seq<char>, JsonSpec)>,
    path: Seq<char>,
    k: int,
    f: F,
)
    requires
        0 <= k,
        def.fields is Some,
        spec_check_members(def, entries, path, k, f) is None,
    ensures
        forall|j: int|
            k <= j < def.fields->Some_0@.len() ==> {
                let fd = #[trigger] def.fields->Some_0@[j];
                &&& fd.required ==> spec_get(entries, fd.name@) is Some
                &&& spec_get(entries, fd.name@) matches Some(v) ==> spec_check_field(
                    fd,
                    v,
                    member_path(path, fd.name@),
                    f,
                ) is None
            },
    decreases def.fields->Some_0@.len() - k,
{
    if k < def.fields->Some_0@.len() {
        lemma_members_accepted(def, entries, path, k + 1, f);
    }
}

/// An object that an object field with fields accepts holds every required
/// field, and the value of every field it holds conforms to that field's
/// definition at the member's path.
pub proof fn lemma_accepted_object_obeys_fields<F: Fn(JsonNumber, &ValidationRules) -> Option<String>>(
    def: FieldDefinition,
    entries: Seq<(Seq<char>, JsonSpec)>,
    path: Seq<char>,
    f: F,
)
    requires
        def.base_type@ == "object"@,
        def.fields is Some,
        spec_check_field(def, JsonSpec::Object(entries), path, f) is None,
    ensures
        forall|j: int|
            0 <= j < def.fields->Some_0@.len() ==> {
                let fd = #[trigger] def.fields->Some_0@[j];
                &&& fd.required ==> spec_get(entries, fd.name@) is Some
                &&& spec_get(entries, fd.name@) matches Some(v) ==> spec_check_field(
                    fd,
                    v,
                    member_path(path, fd.name@),
                    f,
                ) is None
            },
{
    lemma_members_accepted(def, entries, path, 0, f);
}

} // verus!
