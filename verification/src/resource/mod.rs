//! Resources: papers and the configurations that describe resource types.
use vstd::prelude::*;

pub mod paper;

pub use paper::{Author, Paper, format_title};

pub use crate::template::ValidationRules;

use crate::datetime::{spec_four_digit_year, spec_parse_rfc3339, spec_rfc3339, Timestamp};
use crate::error::{debug_strings, spec_debug_strings, LearnerError};
use crate::keyed::{keyed_view, put_keyed, spec_put_keyed};
use crate::json::{
    deep_all, deep_all_entries, get, lemma_deep_all_entries, spec_get, spec_type_name,
    type_name_of_value, JsonNumber, JsonSpec, JsonValue,
};
use crate::pattern::{regex_is_match, spec_regex_is_match, spec_regex_valid};
use crate::template::{field_msg, number_check_ok, number_verdict, spec_first_duplicate};
use crate::text::{byte_len, concat, contains_str, decimal, owned, spec_byte_len, spec_decimal, str_eq, views};

verus! {

/// Converts an instant to its RFC 3339 text for JSON storage; when its year
/// has four digits, `datetime_from_json` reads the text back as the same
/// instant.
pub fn datetime_to_json(dt: &Timestamp) -> (r: String)
    ensures
        r@ == spec_rfc3339(dt.spec_secs(), dt.spec_nanos()),
        spec_four_digit_year(dt.spec_secs()) ==> spec_parse_rfc3339(r@) == Ok::<(i64, u32), Seq<char>>(
            (dt.spec_secs(), dt.spec_nanos()),
        ),
{
    dt.to_rfc3339()
}

/// Parses an RFC 3339 text from JSON into an instant.
pub fn datetime_from_json(s: &str) -> (r: Result<Timestamp, LearnerError>)
    ensures
        r matches Ok(t) ==> spec_parse_rfc3339(s@) == Ok::<(i64, u32), Seq<char>>(
            (t.spec_secs(), t.spec_nanos()),
        ),
        r matches Err(e) ==> spec_parse_rfc3339(s@) is Err && e == LearnerError::InvalidResource(
            e->InvalidResource_0,
        ) && e->InvalidResource_0@ == "Invalid datetime format: "@ + spec_parse_rfc3339(
            s@,
        )->Err_0,
{
    match Timestamp::parse_rfc3339(s) {
        Ok(t) => Ok(t),
        Err(m) => Err(LearnerError::InvalidResource(concat("Invalid datetime format: ", m.as_str()))),
    }
}


/// The entries of a resource, by field name, in key order (as a
/// `BTreeMap<String, _>` holds them).
pub type Resource = Vec<(String, JsonValue)>;

/// The definition of a field of a resource type.
#[derive(Debug)]
pub struct FieldDefinition {
    /// Name of the field.
    pub name: String,
    /// Type of the field (a JSON type name).
    pub field_type: String,
    /// Whether this field must be present.
    pub required: bool,
    /// Human-readable description.
    pub description: Option<String>,
    /// Default value if the field is absent.
    pub default: Option<JsonValue>,
    /// Optional validation rules.
    pub validation: Option<ValidationRules>,
    /// The structure of elements or fields, for arrays and tables.
    pub type_definition: Option<TypeDefinition>,
}

/// The structure of a compound field.
#[derive(Debug)]
pub struct TypeDefinition {
    /// For array types, the structure of elements.
    pub element_type: Option<Box<FieldDefinition>>,
    /// For table types, the fields.
    pub fields: Option<Vec<FieldDefinition>>,
}

/// A resource type: its name, description and fields.
#[derive(Debug)]
pub struct ResourceConfig {
    /// The type identifier for this resource.
    pub name: String,
    /// Optional description of this resource type.
    pub description: Option<String>,
    /// Field definitions.
    pub fields: Vec<FieldDefinition>,
}

/// The first rule that the value of a field breaks, as its message, or
/// `None`. Numbers are judged by the number check, whose message follows
/// `Field '<name>' `.
pub open spec fn spec_check_resource_field<F: Fn(JsonNumber, &ValidationRules) -> Option<String>>(
    field: FieldDefinition,
    v: JsonSpec,
    f: F,
) -> Option<Seq<char>> {
    let t = field.field_type@;
    let name = field.name@;
    if t == "string"@ && v is Str {
        let s = v->Str_0;
        match field.validation {
            None => None,
            Some(r) => {
                let len = spec_byte_len(s);
                if r.min_length is Some && len < r.min_length->Some_0 {
                    Some(
                        field_msg(
                            name,
                            "must be at least "@ + spec_decimal(r.min_length->Some_0 as nat)
                                + " characters"@,
                        ),
                    )
                } else if r.max_length is Some && len > r.max_length->Some_0 {
                    Some(
                        field_msg(
                            name,
                            "cannot exceed "@ + spec_decimal(r.max_length->Some_0 as nat) + " characters"@,
                        ),
                    )
                } else if r.pattern is Some && !spec_regex_valid(r.pattern->Some_0@) {
                    Some("Invalid regex pattern"@)
                } else if r.pattern is Some && !spec_regex_is_match(r.pattern->Some_0@, s) {
                    Some(field_msg(name, "must match pattern: "@ + r.pattern->Some_0@))
                } else if r.datetime == Some(true) && spec_parse_rfc3339(s) is Err {
                    Some(field_msg(name, "must be a valid RFC3339 datetime"@))
                } else if r.enum_values is Some && !views(r.enum_values->Some_0@).contains(s) {
                    Some(
                        field_msg(
                            name,
                            "must be one of: "@ + spec_debug_strings(views(r.enum_values->Some_0@)),
                        ),
                    )
                } else {
                    None
                }
            },
        }
    } else if t == "number"@ && v is Number {
        match field.validation {
            None => None,
            Some(r) => match number_verdict(f, v->Number_0, r) {
                None => None,
                Some(tail) => Some(field_msg(name, tail)),
            },
        }
    } else if t == "array"@ && v is Array {
        let items = v->Array_0;
        match field.validation {
            None => None,
            Some(r) => if r.min_items is Some && items.len() < r.min_items->Some_0 {
                Some(
                    field_msg(
                        name,
                        "must have at least "@ + spec_decimal(r.min_items->Some_0 as nat) + " items"@,
                    ),
                )
            } else if r.max_items is Some && items.len() > r.max_items->Some_0 {
                Some(field_msg(name, "cannot exceed "@ + spec_decimal(r.max_items->Some_0 as nat) + " items"@))
            } else if r.unique_items == Some(true) && spec_first_duplicate(items, 0) is Some {
                Some(field_msg(name, "contains duplicate items"@))
            } else {
                None
            },
        }
    } else if (t == "boolean"@ && v is Bool) || (t == "object"@ && v is Object) || (t == "null"@
        && v is Null) {
        None
    } else {
        Some(field_msg(name, "expected type '"@ + t + "' but got '"@ + spec_type_name(v) + "'"@))
    }
}

/// The name of the first required field, from index `k` on, that the
/// resource lacks.
pub open spec fn spec_first_missing_field(
    fields: Seq<FieldDefinition>,
    res: Seq<(Seq<char>, JsonSpec)>,
    k: int,
) -> Option<Seq<char>>
    decreases fields.len() - k,
{
    if k < 0 || k >= fields.len() {
        None
    } else if fields[k].required && spec_get(res, fields[k].name@) is None {
        Some(fields[k].name@)
    } else {
        spec_first_missing_field(fields, res, k + 1)
    }
}

/// The index of the first field, from index `k` on, with the name.
pub open spec fn spec_find_field(fields: Seq<FieldDefinition>, name: Seq<char>, k: int) -> Option<int>
    decreases fields.len() - k,
{
    if k < 0 || k >= fields.len() {
        None
    } else if fields[k].name@ == name {
        Some(k)
    } else {
        spec_find_field(fields, name, k + 1)
    }
}

/// What checking entries `i..` of a resource against the fields with their
/// names reports. Entries that no field names are let through.
pub open spec fn spec_check_resource_entries<F: Fn(JsonNumber, &ValidationRules) -> Option<String>>(
    fields: Seq<FieldDefinition>,
    res: Seq<(Seq<char>, JsonSpec)>,
    i: int,
    f: F,
) -> Option<Seq<char>>
    decreases res.len() - i,
{
    if i < 0 || i >= res.len() {
        None
    } else {
        match spec_find_field(fields, res[i].0, 0) {
            Some(x) => match spec_check_resource_field(fields[x], res[i].1, f) {
                Some(e) => Some(e),
                None => spec_check_resource_entries(fields, res, i + 1, f),
            },
            None => spec_check_resource_entries(fields, res, i + 1, f),
        }
    }
}

/// What validating a resource against its configuration reports: first a
/// missing required field, then the first entry, in the resource's order,
/// whose value breaks its field's definition.
pub open spec fn spec_validate_resource<F: Fn(JsonNumber, &ValidationRules) -> Option<String>>(
    config: ResourceConfig,
    res: Seq<(Seq<char>, JsonSpec)>,
    f: F,
) -> Option<Seq<char>> {
    match spec_first_missing_field(config.fields@, res, 0) {
        Some(name) => Some("Missing required field: "@ + name),
        None => spec_check_resource_entries(config.fields@, res, 0, f),
    }
}

proof fn lemma_find_field(fields: Seq<FieldDefinition>, name: Seq<char>, k: int)
    requires
        0 <= k,
    ensures
        spec_find_field(fields, name, k) matches Some(x) ==> k <= x < fields.len() && fields[x].name@ == name,
    decreases fields.len() - k,
{
    if k < fields.len() && fields[k].name@ != name {
        lemma_find_field(fields, name, k + 1);
    }
}

fn find_field(fields: &Vec<FieldDefinition>, name: &str) -> (r: Option<usize>)
    ensures
        r matches Some(i) ==> spec_find_field(fields@, name@, 0) == Some(i as int),
        r is None ==> spec_find_field(fields@, name@, 0) is None,
{
    let mut k: usize = 0;
    while k < fields.len()
        invariant
            k <= fields.len(),
            spec_find_field(fields@, name@, 0) == spec_find_field(fields@, name@, k as int),
        decreases fields.len() - k,
    {
        if str_eq(fields[k].name.as_str(), name) {
            return Some(k);
        }
        k = k + 1;
    }
    None
}

fn decimal_usize(n: usize) -> (r: String)
    ensures
        r@ == spec_decimal(n as nat),
{
    decimal(n as u64)
}

fn named_message(name: &str, rest: String) -> (r: String)
    ensures
        r@ == field_msg(name@, rest@),
{
    owned("Field '").concat(name).concat("' ").concat(rest.as_str())
}

fn has_duplicate(items: &Vec<JsonValue>) -> (r: bool)
    ensures
        r == (spec_first_duplicate(deep_all(items@), 0) is Some),
{
    crate::template::first_duplicate(items).is_some()
}

impl ResourceConfig {
    /// Validates a single field value against its definition.
    fn validate_field<F: Fn(JsonNumber, &ValidationRules) -> Option<String>>(
        &self,
        field: &FieldDefinition,
        value: &JsonValue,
        check_number: &F,
    ) -> (r: Result<(), LearnerError>)
        requires
            number_check_ok(*check_number),
        ensures
            r is Ok <==> spec_check_resource_field(*field, value.deep(), *check_number) is None,
            r matches Err(e) ==> e is InvalidResource && e->InvalidResource_0@
                == spec_check_resource_field(*field, value.deep(), *check_number)->Some_0,
    {
        let t = field.field_type.as_str();
        let name = field.name.as_str();
        let is_string = str_eq(t, "string");
        let is_number = str_eq(t, "number");
        let is_array = str_eq(t, "array");
        let is_boolean = str_eq(t, "boolean");
        let is_object = str_eq(t, "object");
        let is_null = str_eq(t, "null");
        match value {
            JsonValue::String(v) if is_string => {
                if let Some(rules) = &field.validation {
                    let len = byte_len(v.as_str());
                    if let Some(min_length) = rules.min_length {
                        if len < min_length {
                            let rest = owned("must be at least ").concat(decimal_usize(min_length).as_str()).concat(
                                " characters",
                            );
                            return Err(LearnerError::InvalidResource(named_message(name, rest)));
                        }
                    }
                    if let Some(max_length) = rules.max_length {
                        if len > max_length {
                            let rest = owned("cannot exceed ").concat(decimal_usize(max_length).as_str()).concat(
                                " characters",
                            );
                            return Err(LearnerError::InvalidResource(named_message(name, rest)));
                        }
                    }
                    if let Some(pattern) = &rules.pattern {
                        match regex_is_match(pattern.as_str(), v.as_str()) {
                            Err(_) => {
                                return Err(LearnerError::InvalidResource(owned("Invalid regex pattern")));
                            },
                            Ok(false) => {
                                let rest = owned("must match pattern: ").concat(pattern.as_str());
                                return Err(LearnerError::InvalidResource(named_message(name, rest)));
                            },
                            Ok(true) => {},
                        }
                    }
                    if rules.datetime == Some(true) {
                        if Timestamp::parse_rfc3339(v.as_str()).is_err() {
                            let rest = owned("must be a valid RFC3339 datetime");
                            return Err(LearnerError::InvalidResource(named_message(name, rest)));
                        }
                    }
                    if let Some(allowed) = &rules.enum_values {
                        if !contains_str(allowed, v.as_str()) {
                            let rest = owned("must be one of: ").concat(debug_strings(allowed).as_str());
                            return Err(LearnerError::InvalidResource(named_message(name, rest)));
                        }
                    }
                }
                Ok(())
            },
            JsonValue::Number(n) if is_number => {
                if let Some(rules) = &field.validation {
                    let o = check_number(*n, rules);
                    assert(call_ensures(*check_number, (*n, rules), o));
                    if let Some(tail) = o {
                        return Err(LearnerError::InvalidResource(named_message(name, tail)));
                    }
                }
                Ok(())
            },
            JsonValue::Array(v) if is_array => {
                if let Some(rules) = &field.validation {
                    proof {
                        crate::json::lemma_deep_all(v@);
                    }
                    if let Some(min_items) = rules.min_items {
                        if v.len() < min_items {
                            let rest = owned("must have at least ").concat(decimal_usize(min_items).as_str()).concat(
                                " items",
                            );
                            return Err(LearnerError::InvalidResource(named_message(name, rest)));
                        }
                    }
                    if let Some(max_items) = rules.max_items {
                        if v.len() > max_items {
                            let rest = owned("cannot exceed ").concat(decimal_usize(max_items).as_str()).concat(
                                " items",
                            );
                            return Err(LearnerError::InvalidResource(named_message(name, rest)));
                        }
                    }
                    if rules.unique_items == Some(true) && has_duplicate(v) {
                        return Err(
                            LearnerError::InvalidResource(named_message(name, owned("contains duplicate items"))),
                        );
                    }
                }
                Ok(())
            },
            JsonValue::Bool(_) if is_boolean => Ok(()),
            JsonValue::Object(_) if is_object => Ok(()),
            JsonValue::Null if is_null => Ok(()),
            _ => {
                let rest = owned("expected type '").concat(t).concat("' but got '").concat(
                    type_name_of_value(value),
                ).concat("'");
                Err(LearnerError::InvalidResource(named_message(name, rest)))
            },
        }
    }

    /// Validates a resource against this configuration: every required
    /// field must be present, and every entry whose key names a field must
    /// conform to that field's definition; other entries are let through.
    /// Numbers are judged by `check_number`, which gives the end of the
    /// message for a number that breaks the rules (after `Field '<name>' `).
    pub fn validate<F: Fn(JsonNumber, &ValidationRules) -> Option<String>>(
        &self,
        resource: &Resource,
        check_number: &F,
    ) -> (r: Result<bool, LearnerError>)
        requires
            number_check_ok(*check_number),
        ensures
            r is Ok <==> spec_validate_resource(*self, deep_all_entries(resource@), *check_number) is None,
            r matches Ok(b) ==> b,
            r matches Err(e) ==> e is InvalidResource && e->InvalidResource_0@
                == spec_validate_resource(*self, deep_all_entries(resource@), *check_number)->Some_0,
    {
        let ghost d = deep_all_entries(resource@);
        proof {
            lemma_deep_all_entries(resource@);
        }
        let mut k: usize = 0;
        while k < self.fields.len()
            invariant
                k <= self.fields.len(),
                d == deep_all_entries(resource@),
                spec_first_missing_field(self.fields@, d, 0) == spec_first_missing_field(
                    self.fields@,
                    d,
                    k as int,
                ),
            decreases self.fields.len() - k,
        {
            let field = &self.fields[k];
            if field.required && get(resource, field.name.as_str()).is_none() {
                return Err(LearnerError::InvalidResource(concat("Missing required field: ", field.name.as_str())));
            }
            k = k + 1;
        }
        let mut i: usize = 0;
        while i < resource.len()
            invariant
                i <= resource.len(),
                number_check_ok(*check_number),
                d == deep_all_entries(resource@),
                d.len() == resource@.len(),
                forall|j: int|
                    0 <= j < resource@.len() ==> #[trigger] d[j] == (resource@[j].0@, resource@[j].1.deep()),
                spec_validate_resource(*self, d, *check_number) == spec_check_resource_entries(
                    self.fields@,
                    d,
                    i as int,
                    *check_number,
                ),
            decreases resource.len() - i,
        {
            let name = resource[i].0.as_str();
            if let Some(x) = find_field(&self.fields, name) {
                proof {
                    lemma_find_field(self.fields@, name@, 0);
                }
                self.validate_field(&self.fields[x], &resource[i].1, check_number)?;
            }
            i = i + 1;
        }
        Ok(true)
    }
}

/// The resource types known to the library, by name.
#[derive(Debug)]
pub struct Resources {
    configs: Vec<(String, ResourceConfig)>,
}

impl Resources {
    /// The resource types, by name.
    pub closed spec fn entries(&self) -> Seq<(Seq<char>, ResourceConfig)> {
        keyed_view(self.configs@)
    }

    /// No resource types.
    pub fn new() -> (r: Resources)
        ensures
            r.entries().len() == 0,
    {
        Resources { configs: Vec::new() }
    }

    /// Adds a resource type under a name, replacing any of that name.
    pub fn insert(&mut self, name: String, config: ResourceConfig)
        ensures
            final(self).entries() == spec_put_keyed(old(self).entries(), name@, config),
    {
        put_keyed(&mut self.configs, name, config);
    }
}

proof fn lemma_first_missing_field(fields: Seq<FieldDefinition>, res: Seq<(Seq<char>, JsonSpec)>, k: int)
    requires
        0 <= k,
        spec_first_missing_field(fields, res, k) is None,
    ensures
        forall|j: int|
            k <= j < fields.len() && #[trigger] fields[j].required ==> spec_get(res, fields[j].name@) is Some,
    decreases fields.len() - k,
{
    if k < fields.len() {
        lemma_first_missing_field(fields, res, k + 1);
    }
}

/// A resource that its configuration accepts holds every required field.
pub proof fn lemma_valid_resource_has_required<F: Fn(JsonNumber, &ValidationRules) -> Option<String>>(
    config: ResourceConfig,
    res: Seq<(Seq<char>, JsonSpec)>,
    f: F,
)
    requires
        spec_validate_resource(config, res, f) is None,
    ensures
        forall|j: int|
            0 <= j < config.fields@.len() && #[trigger] config.fields@[j].required ==> spec_get(
                res,
                config.fields@[j].name@,
            ) is Some,
{
    lemma_first_missing_field(config.fields@, res, 0);
}

/// A string that a string field accepts obeys every rule of the field: its
/// length in bytes lies within the bounds, the field's pattern is a valid
/// regex that matches it, it is an RFC 3339 datetime when one is asked for,
/// and it is one of the allowed values when they are listed.
pub proof fn lemma_accepted_string_obeys_rules<F: Fn(JsonNumber, &ValidationRules) -> Option<String>>(
    field: FieldDefinition,
    s: Seq<char>,
    f: F,
)
    requires
        field.field_type@ == "string"@,
        spec_check_resource_field(field, JsonSpec::Str(s), f) is None,
    ensures
        field.validation matches Some(r) ==> {
            &&& r.min_length matches Some(min) ==> spec_byte_len(s) >= min
            &&& r.max_length matches Some(max) ==> spec_byte_len(s) <= max
            &&& r.pattern matches Some(p) ==> spec_regex_valid(p@) && spec_regex_is_match(p@, s)
            &&& r.datetime == Some(true) ==> spec_parse_rfc3339(s) is Ok
            &&& r.enum_values matches Some(vals) ==> views(vals@).contains(s)
        },
{
}

proof fn lemma_accepted_entries<F: Fn(JsonNumber, &ValidationRules) -> Option<String>>(
    fields: Seq<FieldDefinition>,
    res: Seq<(Seq<char>, JsonSpec)>,
    i: int,
    f: F,
)
    requires
        0 <= i,
        spec_check_resource_entries(fields, res, i, f) is None,
    ensures
        forall|j: int|
            i <= j < res.len() && #[trigger] spec_find_field(fields, res[j].0, 0) is Some ==> spec_check_resource_field(
                fields[spec_find_field(fields, res[j].0, 0)->Some_0],
                res[j].1,
                f,
            ) is None,
    decreases res.len() - i,
{
    if i < res.len() {
        lemma_accepted_entries(fields, res, i + 1, f);
    }
}

/// In a resource that its configuration accepts, every string held under
/// the name of a string field obeys that field's rules; in particular it
/// matches the field's pattern, which is a valid regex.
pub proof fn lemma_valid_resource_strings_obey_rules<F: Fn(JsonNumber, &ValidationRules) -> Option<String>>(
    config: ResourceConfig,
    res: Seq<(Seq<char>, JsonSpec)>,
    f: F,
)
    requires
        spec_validate_resource(config, res, f) is None,
    ensures
        forall|j: int|
            0 <= j < res.len() && #[trigger] spec_find_field(config.fields@, res[j].0, 0) is Some && res[j].1 is Str
                && config.fields@[spec_find_field(config.fields@, res[j].0, 0)->Some_0].field_type@ == "string"@
                ==> {
                let fd = config.fields@[spec_find_field(config.fields@, res[j].0, 0)->Some_0];
                let s = res[j].1->Str_0;
                fd.validation matches Some(r) ==> {
                    &&& r.min_length matches Some(min) ==> spec_byte_len(s) >= min
                    &&& r.max_length matches Some(max) ==> spec_byte_len(s) <= max
                    &&& r.pattern matches Some(p) ==> spec_regex_valid(p@) && spec_regex_is_match(p@, s)
                    &&& r.datetime == Some(true) ==> spec_parse_rfc3339(s) is Ok
                    &&& r.enum_values matches Some(vals) ==> views(vals@).contains(s)
                }
            },
{
    lemma_accepted_entries(config.fields@, res, 0, f);
    assert forall|j: int|
        0 <= j < res.len() && #[trigger] spec_find_field(config.fields@, res[j].0, 0) is Some && res[j].1 is Str
            && config.fields@[spec_find_field(config.fields@, res[j].0, 0)->Some_0].field_type@ == "string"@
        implies {
            let fd = config.fields@[spec_find_field(config.fields@, res[j].0, 0)->Some_0];
            let s = res[j].1->Str_0;
            fd.validation matches Some(r) ==> {
                &&& r.min_length matches Some(min) ==> spec_byte_len(s) >= min
                &&& r.max_length matches Some(max) ==> spec_byte_len(s) <= max
                &&& r.pattern matches Some(p) ==> spec_regex_valid(p@) && spec_regex_is_match(p@, s)
                &&& r.datetime == Some(true) ==> spec_parse_rfc3339(s) is Ok
                &&& r.enum_values matches Some(vals) ==> views(vals@).contains(s)
            }
        } by {
        let fd = config.fields@[spec_find_field(config.fields@, res[j].0, 0)->Some_0];
        lemma_accepted_string_obeys_rules(fd, res[j].1->Str_0, f);
    }
}

/// A value that a resource field accepts has the JSON type that the field's
/// type names, and an accepted array obeys the field's length bounds and,
/// when asked, holds no two equal items.
pub proof fn lemma_accepted_resource_value<F: Fn(JsonNumber, &ValidationRules) -> Option<String>>(
    field: FieldDefinition,
    v: JsonSpec,
    f: F,
)
    requires
        spec_check_resource_field(field, v, f) is None,
    ensures
        crate::template::spec_type_fits(field.field_type@, v),
        field.field_type@ == "array"@ && v is Array ==> (field.validation matches Some(r) ==> {
            &&& r.min_items matches Some(min) ==> v->Array_0.len() >= min
            &&& r.max_items matches Some(max) ==> v->Array_0.len() <= max
            &&& r.unique_items == Some(true) ==> forall|a: int, b: int|
                0 <= a < b < v->Array_0.len() ==> #[trigger] v->Array_0[a] != #[trigger] v->Array_0[b]
        }),
{
    if field.field_type@ == "array"@ && v is Array {
        match field.validation {
            Some(r) => if r.unique_items == Some(true) {
                crate::template::lemma_no_duplicate_from(v->Array_0, 0);
            },
            None => {},
        }
    }
}

} // verus!
