use learner::error::LearnerError;
use learner::json::{put, JsonNumber, JsonValue};
use learner::resource::{datetime_from_json, datetime_to_json, FieldDefinition, ResourceConfig, ValidationRules};

fn numeric_rules(n: JsonNumber, rules: &ValidationRules) -> Option<String> {
    let value = match n {
        JsonNumber::PosInt(u) => u as f64,
        JsonNumber::NegInt(i) => i as f64,
        JsonNumber::Float(bits) => f64::from_bits(bits),
    };
    if let Some(min) = rules.minimum.map(f64::from_bits) {
        if value < min {
            return Some(format!("must be at least {min}"));
        }
    }
    if let Some(max) = rules.maximum.map(f64::from_bits) {
        if value > max {
            return Some(format!("cannot exceed {max}"));
        }
    }
    if let Some(multiple) = rules.multiple_of.map(f64::from_bits) {
        let ratio = value / multiple;
        if (ratio - ratio.round()).abs() > f64::EPSILON {
            return Some(format!("must be a multiple of {multiple}"));
        }
    }
    None
}

fn def(name: &str, field_type: &str, required: bool, validation: Option<ValidationRules>) -> FieldDefinition {
    FieldDefinition {
        name: name.to_string(),
        field_type: field_type.to_string(),
        required,
        description: None,
        default: None,
        validation,
        type_definition: None,
    }
}

fn resource(entries: Vec<(&str, JsonValue)>) -> Vec<(String, JsonValue)> {
    let mut out = Vec::new();
    for (k, v) in entries {
        put(&mut out, k.to_string(), v);
    }
    out
}

fn text(s: &str) -> JsonValue {
    JsonValue::String(s.to_string())
}

fn error_text(r: Result<bool, LearnerError>) -> String {
    match r {
        Err(LearnerError::InvalidResource(m)) => m,
        other => panic!("expected an invalid resource, got {:?}", other),
    }
}

#[test]
fn mod_test_datetime_validation() {
    let config = ResourceConfig {
        name: "test".into(),
        description: None,
        fields: vec![def("timestamp", "string", true, Some(ValidationRules { datetime: Some(true), ..Default::default() }))],
    };
    let valid_resource = resource(vec![("timestamp", text("2024-01-01T00:00:00Z"))]);
    assert!(config.validate(&valid_resource, &numeric_rules).unwrap());
    let invalid_resource = resource(vec![("timestamp", text("2024-01-01"))]);
    assert!(config.validate(&invalid_resource, &numeric_rules).is_err());
}

fn thesis_config() -> ResourceConfig {
    ResourceConfig {
        name: "thesis".into(),
        description: None,
        fields: vec![
            def("title", "string", true, Some(ValidationRules { min_length: Some(1), ..Default::default() })),
            def(
                "degree",
                "string",
                true,
                Some(ValidationRules {
                    enum_values: Some(vec!["PhD".into(), "Masters".into()]),
                    ..Default::default()
                }),
            ),
            def("advisors", "array", false, Some(ValidationRules { min_items: Some(1), unique_items: Some(true), ..Default::default() })),
            def("year", "number", false, Some(ValidationRules { minimum: Some(1900.0f64.to_bits()), ..Default::default() })),
        ],
    }
}

#[test]
fn resource_accepts_a_conforming_thesis_and_rejects_a_bad_degree() {
    let config = thesis_config();
    let thesis = resource(vec![
        ("title", text("Novel Approaches to Quantum Error Correction")),
        ("degree", text("PhD")),
        ("advisors", JsonValue::Array(vec![text("Prof. Bob Supervisor")])),
        ("year", JsonValue::Number(JsonNumber::PosInt(2024))),
    ]);
    assert!(config.validate(&thesis, &numeric_rules).unwrap());
    let mut invalid = thesis_config();
    invalid.name = "unused".into();
    let bad = resource(vec![("title", text("T")), ("degree", text("InvalidDegree"))]);
    assert_eq!(error_text(config.validate(&bad, &numeric_rules)), "Field 'degree' must be one of: [\"PhD\", \"Masters\"]");
}

#[test]
fn resource_error_messages() {
    let config = thesis_config();
    assert_eq!(
        error_text(config.validate(&resource(vec![("degree", text("PhD"))]), &numeric_rules)),
        "Missing required field: title"
    );
    assert_eq!(
        error_text(config.validate(&resource(vec![("title", text("")), ("degree", text("PhD"))]), &numeric_rules)),
        "Field 'title' must be at least 1 characters"
    );
    assert_eq!(
        error_text(config.validate(
            &resource(vec![("title", text("T")), ("degree", text("PhD")), ("advisors", JsonValue::Array(vec![]))]),
            &numeric_rules
        )),
        "Field 'advisors' must have at least 1 items"
    );
    assert_eq!(
        error_text(config.validate(
            &resource(vec![
                ("title", text("T")),
                ("degree", text("PhD")),
                ("advisors", JsonValue::Array(vec![text("A"), text("A")]))
            ]),
            &numeric_rules
        )),
        "Field 'advisors' contains duplicate items"
    );
    assert_eq!(
        error_text(config.validate(
            &resource(vec![("title", text("T")), ("degree", text("PhD")), ("year", JsonValue::Number(JsonNumber::NegInt(-5)))]),
            &numeric_rules
        )),
        "Field 'year' must be at least 1900"
    );
    assert_eq!(
        error_text(config.validate(&resource(vec![("title", JsonValue::Bool(true)), ("degree", text("PhD"))]), &numeric_rules)),
        "Field 'title' expected type 'string' but got 'boolean'"
    );
}

#[test]
fn resource_invalid_pattern_message_is_fixed() {
    let config = ResourceConfig {
        name: "t".into(),
        description: None,
        fields: vec![def("code", "string", false, Some(ValidationRules { pattern: Some("(".into()), ..Default::default() }))],
    };
    assert_eq!(error_text(config.validate(&resource(vec![("code", text("x"))]), &numeric_rules)), "Invalid regex pattern");
}

#[test]
fn resource_datetime_conversions() {
    let t = datetime_from_json("2024-01-01T00:00:00Z").unwrap();
    assert_eq!(datetime_to_json(&t), "2024-01-01T00:00:00+00:00");
    match datetime_from_json("2024-13-01T00:00:00Z") {
        Err(LearnerError::InvalidResource(m)) => assert!(m.starts_with("Invalid datetime format: ")),
        _ => panic!("expected an invalid resource"),
    }
}
