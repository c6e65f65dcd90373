use learner::error::LearnerError;
use learner::json::{put, JsonNumber, JsonValue};
use learner::template::{FieldDefinition, Template, ValidationRules};

fn number_check(n: JsonNumber, rules: &ValidationRules) -> Option<String> {
    let num = match n {
        JsonNumber::PosInt(u) => u as f64,
        JsonNumber::NegInt(i) => i as f64,
        JsonNumber::Float(bits) => f64::from_bits(bits),
    };
    if let Some(min) = rules.minimum.map(f64::from_bits) {
        if num < min {
            return Some(format!("must be at least {min} (found {num})"));
        }
    }
    if let Some(max) = rules.maximum.map(f64::from_bits) {
        if num > max {
            return Some(format!("cannot exceed {max} (found {num})"));
        }
    }
    if let Some(multiple) = rules.multiple_of.map(f64::from_bits) {
        let ratio = num / multiple;
        if (ratio - ratio.round()).abs() > f64::EPSILON {
            return Some(format!("must be a multiple of {multiple} (found {num})"));
        }
    }
    None
}

fn field(name: &str, base_type: &str, required: bool) -> FieldDefinition {
    FieldDefinition {
        name: name.to_string(),
        required,
        description: None,
        base_type: base_type.to_string(),
        validation: None,
        items: None,
        fields: None,
    }
}

fn rules() -> ValidationRules {
    ValidationRules::default()
}

fn object(entries: Vec<(&str, JsonValue)>) -> JsonValue {
    let mut out = Vec::new();
    for (k, v) in entries {
        put(&mut out, k.to_string(), v);
    }
    JsonValue::Object(out)
}

fn item(entries: Vec<(&str, JsonValue)>) -> Vec<(String, JsonValue)> {
    match object(entries) {
        JsonValue::Object(e) => e,
        _ => unreachable!(),
    }
}

fn text(s: &str) -> JsonValue {
    JsonValue::String(s.to_string())
}

fn message(r: Result<(), LearnerError>) -> String {
    match r {
        Err(LearnerError::TemplateInvalidation(m)) => m,
        other => panic!("expected a template error, got {:?}", other),
    }
}

fn authors_template() -> Template {
    let mut name = field("name", "string", true);
    name.validation = Some(ValidationRules { min_length: Some(1), ..rules() });
    let affiliation = field("affiliation", "string", false);
    let mut item_def = field("", "object", false);
    item_def.fields = Some(vec![name, affiliation]);
    let mut authors = field("authors", "array", true);
    authors.validation = Some(ValidationRules { min_items: Some(1), ..rules() });
    authors.items = Some(Box::new(item_def));
    Template { name: "test".to_string(), description: Some("Test template".to_string()), fields: vec![authors] }
}

#[test]
fn test_array_object_validation() {
    let template = authors_template();
    let valid_resource = item(vec![(
        "authors",
        JsonValue::Array(vec![
            object(vec![("name", text("John Doe")), ("affiliation", text("University"))]),
            object(vec![("name", text("Jane Smith"))]),
        ]),
    )]);
    if let Err(e) = template.validate(&valid_resource, &number_check) {
        panic!("Validation should have succeeded: {}", e.message());
    }
}

#[test]
fn template_test_datetime_validation() {
    let mut created = field("created", "string", true);
    created.validation = Some(ValidationRules { datetime: Some(true), ..rules() });
    let mut updated = field("updated", "string", false);
    updated.validation = Some(ValidationRules { datetime: Some(true), ..rules() });
    let mut dates = field("dates", "object", true);
    dates.fields = Some(vec![created, updated]);
    let template =
        Template { name: "test".to_string(), description: Some("Test template".to_string()), fields: vec![dates] };
    let valid_dates = item(vec![(
        "dates",
        object(vec![("created", text("2024-01-01T00:00:00Z")), ("updated", text("2024-02-01T00:00:00Z"))]),
    )]);
    if let Err(e) = template.validate(&valid_dates, &number_check) {
        panic!("Validation should have succeeded: {}", e.message());
    }
    let bad = item(vec![("dates", object(vec![("created", text("2024-01-01"))]))]);
    let m = message(template.validate(&bad, &number_check));
    assert!(m.starts_with("Field 'dates.created' must be a valid RFC3339 datetime: "), "{m}");
}

#[test]
fn template_reports_missing_required_field_first() {
    let template = authors_template();
    let empty = item(vec![]);
    assert_eq!(message(template.validate(&empty, &number_check)), "Missing required field: authors");
}

#[test]
fn template_reports_nested_errors_with_their_paths() {
    let template = authors_template();
    let too_few = item(vec![("authors", JsonValue::Array(vec![]))]);
    assert_eq!(
        message(template.validate(&too_few, &number_check)),
        "Field 'authors' must have at least 1 items (found 0)"
    );
    let missing_name = item(vec![("authors", JsonValue::Array(vec![object(vec![("affiliation", text("U"))])]))]);
    assert_eq!(
        message(template.validate(&missing_name, &number_check)),
        "Missing required field 'name' in object 'authors[0]'"
    );
    let empty_name =
        item(vec![("authors", JsonValue::Array(vec![object(vec![("name", text("A"))]), object(vec![("name", text(""))])]))]);
    assert_eq!(
        message(template.validate(&empty_name, &number_check)),
        "Field 'authors[1].name' must be at least 1 characters (found 0)"
    );
    let not_objects = item(vec![("authors", JsonValue::Array(vec![text("A")]))]);
    assert_eq!(
        message(template.validate(&not_objects, &number_check)),
        "Item at index 0 in 'authors' expected type 'object' but got 'string'"
    );
    let wrong_type = item(vec![("authors", text("A"))]);
    assert_eq!(
        message(template.validate(&wrong_type, &number_check)),
        "Field 'authors' expected type 'array' but got 'string'"
    );
}

#[test]
fn template_string_rules() {
    let mut code = field("code", "string", false);
    code.validation = Some(ValidationRules {
        max_length: Some(4),
        pattern: Some("^[A-Z]+$".to_string()),
        enum_values: Some(vec!["AB".to_string(), "CD".to_string()]),
        ..rules()
    });
    let template = Template { name: "t".to_string(), description: None, fields: vec![code] };
    let long = item(vec![("code", text("ABCDE"))]);
    assert_eq!(message(template.validate(&long, &number_check)), "Field 'code' cannot exceed 4 characters (found 5)");
    let lower = item(vec![("code", text("ab"))]);
    assert_eq!(message(template.validate(&lower, &number_check)), "Field 'code' must match pattern: ^[A-Z]+$");
    let other = item(vec![("code", text("EF"))]);
    assert_eq!(message(template.validate(&other, &number_check)), "Field 'code' must be one of: [\"AB\", \"CD\"]");
    let ok = item(vec![("code", text("CD")), ("extra", JsonValue::Null)]);
    assert!(template.validate(&ok, &number_check).is_ok());
}

#[test]
fn template_counts_string_length_in_bytes() {
    let mut word = field("word", "string", false);
    word.validation = Some(ValidationRules { max_length: Some(3), ..rules() });
    let template = Template { name: "t".to_string(), description: None, fields: vec![word] };
    let accented = item(vec![("word", text("éé"))]);
    assert_eq!(message(template.validate(&accented, &number_check)), "Field 'word' cannot exceed 3 characters (found 4)");
}

#[test]
fn template_invalid_pattern_is_reported() {
    let mut code = field("code", "string", false);
    code.validation = Some(ValidationRules { pattern: Some("(".to_string()), ..rules() });
    let template = Template { name: "t".to_string(), description: None, fields: vec![code] };
    let m = message(template.validate(&item(vec![("code", text("x"))]), &number_check));
    assert!(m.starts_with("Invalid regex pattern for field 'code': "), "{m}");
}

#[test]
fn template_number_rules_go_through_the_check() {
    let mut score = field("score", "number", false);
    score.validation =
        Some(ValidationRules { minimum: Some(1.0f64.to_bits()), maximum: Some(5.0f64.to_bits()), ..rules() });
    let template = Template { name: "t".to_string(), description: None, fields: vec![score] };
    let low = item(vec![("score", JsonValue::Number(JsonNumber::PosInt(0)))]);
    assert_eq!(message(template.validate(&low, &number_check)), "Field 'score' must be at least 1 (found 0)");
    let high = item(vec![("score", JsonValue::Number(JsonNumber::Float(7.5f64.to_bits())))]);
    assert_eq!(message(template.validate(&high, &number_check)), "Field 'score' cannot exceed 5 (found 7.5)");
    let fine = item(vec![("score", JsonValue::Number(JsonNumber::PosInt(4)))]);
    assert!(template.validate(&fine, &number_check).is_ok());
}

#[test]
fn template_unique_items() {
    let mut tags = field("tags", "array", false);
    tags.validation = Some(ValidationRules { unique_items: Some(true), ..rules() });
    let template = Template { name: "t".to_string(), description: None, fields: vec![tags] };
    let dup = item(vec![("tags", JsonValue::Array(vec![text("a"), text("b"), text("a")]))]);
    assert_eq!(message(template.validate(&dup, &number_check)), "Field 'tags' contains duplicate item at index 2");
    let distinct = item(vec![("tags", JsonValue::Array(vec![text("a"), text("b")]))]);
    assert!(template.validate(&distinct, &number_check).is_ok());
}

#[test]
fn template_from_entries_names_fields_by_key() {
    let t = Template::from_entries(
        "paper".to_string(),
        None,
        vec![("name".to_string(), field("", "string", false)), ("title".to_string(), field("", "string", true))],
    );
    assert_eq!(t.fields.len(), 1);
    assert_eq!(t.fields[0].name, "title");
    assert!(t.fields[0].required);
}

#[test]
fn template_datetime_round_trip() {
    let t = learner::template::datetime_from_json("2024-01-01T00:00:00Z").unwrap();
    assert_eq!(t.secs(), 1_704_067_200);
    assert_eq!(learner::template::datetime_to_json(&t), "2024-01-01T00:00:00+00:00");
    match learner::template::datetime_from_json("not a date") {
        Err(LearnerError::TemplateInvalidation(m)) => assert!(m.starts_with("Invalid datetime format: ")),
        _ => panic!("expected an error"),
    }
}

fn tags_template(item_type: &str, item_rules: Option<ValidationRules>) -> Template {
    let mut item_def = field("", item_type, false);
    item_def.validation = item_rules;
    let mut tags = field("tags", "array", false);
    tags.items = Some(Box::new(item_def));
    Template { name: "tags".to_string(), description: None, fields: vec![tags] }
}

#[test]
fn template_checks_items_of_any_type_against_the_item_definition() {
    let strings = item(vec![("tags", JsonValue::Array(vec![text("a"), text("b")]))]);
    assert!(tags_template("string", None).validate(&strings, &number_check).is_ok());
    let short = tags_template("string", Some(ValidationRules { min_length: Some(2), ..rules() }));
    assert_eq!(
        message(short.validate(&strings, &number_check)),
        "Field 'tags[0]' must be at least 2 characters (found 1)"
    );
    let numbers = item(vec![("tags", JsonValue::Array(vec![JsonValue::Number(JsonNumber::PosInt(3))]))]);
    assert!(tags_template("number", None).validate(&numbers, &number_check).is_ok());
    assert_eq!(
        message(tags_template("string", None).validate(&numbers, &number_check)),
        "Item at index 0 in 'tags' expected type 'string' but got 'number'"
    );
}
