use learner::configuration::{ConfigurationManager, RetrieverConfig, TemplateType};
use learner::error::LearnerError;
use learner::json::{get, json_eq, put, JsonNumber, JsonValue};
use learner::keyed::{find_keyed, put_keyed};
use learner::retriever::ResponseFormat;
use learner::template::{FieldDefinition, Template};

fn field(name: &str) -> FieldDefinition {
    FieldDefinition {
        name: name.to_string(),
        required: false,
        description: None,
        base_type: "string".to_string(),
        validation: None,
        items: None,
        fields: None,
    }
}

fn template(name: &str, fields: &[&str]) -> Template {
    Template { name: name.to_string(), description: None, fields: fields.iter().map(|f| field(f)).collect() }
}

fn retriever_config(name: &str) -> RetrieverConfig {
    RetrieverConfig {
        name: name.to_string(),
        description: None,
        base_url: "http://example.com".to_string(),
        pattern: String::new(),
        source: "test_source".to_string(),
        endpoint_template: "http://example.com".to_string(),
        response_format: ResponseFormat::Xml { strip_namespaces: true, clean_content: true },
        headers: vec![("Accept".to_string(), "application/xml".to_string())],
        resource_mappings: vec![],
        retrieval_mappings: vec![],
    }
}

fn keys(entries: &[(String, JsonValue)]) -> Vec<&str> {
    entries.iter().map(|(k, _)| k.as_str()).collect()
}

#[test]
fn test_template_loading_and_extension() {
    let mut manager = ConfigurationManager::new("configs".to_string()).unwrap();
    manager.begin_scan();
    manager.apply_template(TemplateType::Resource, &template("resource", &["abstract"]));
    manager.apply_template(TemplateType::State, &template("state", &["importance", "due_date"]));
    manager.apply_template(TemplateType::Storage, &template("storage", &["backup_location", "file_format"]));
    manager.apply_template(TemplateType::Retrieval, &template("retrieval", &["access_type", "citation_key"]));
    manager.add_retriever(retriever_config("retriever"), Some("resource".to_string())).unwrap();
    manager.check_loaded().unwrap();

    assert!(get(&manager.state().extended, "importance").is_some());
    assert!(get(&manager.state().extended, "due_date").is_some());
    assert!(get(&manager.storage().extended, "backup_location").is_some());
    assert!(get(&manager.storage().extended, "file_format").is_some());
    assert!(get(&manager.retrieval().extended, "access_type").is_some());
    assert!(get(&manager.retrieval().extended, "citation_key").is_some());

    let retriever = manager.get_retriever("retriever").unwrap();
    assert_eq!(retriever.source, "test_source");
    assert_eq!(keys(&retriever.resource.extended), vec!["abstract"]);
    assert_eq!(keys(&retriever.retrieval.extended), vec!["access_type", "citation_key"]);
}

#[test]
fn resource_templates_leave_out_the_title() {
    let mut manager = ConfigurationManager::new("c".to_string()).unwrap();
    manager.apply_template(TemplateType::Resource, &template("paper", &["title", "doi", "abstract"]));
    let r = manager.get_resource("paper").unwrap();
    assert_eq!(r.title, "");
    assert_eq!(keys(&r.extended), vec!["abstract", "doi"]);
    assert!(json_eq(&r.extended[0].1, &JsonValue::Object(vec![])));
    assert_eq!(manager.get_resource_types(), vec!["paper".to_string()]);
}

#[test]
fn loading_errors_are_reported() {
    let mut manager = ConfigurationManager::new("c".to_string()).unwrap();
    match manager.check_loaded() {
        Err(LearnerError::Config(m)) => assert_eq!(m, "No resource templates loaded"),
        other => panic!("unexpected {:?}", other),
    }
    match manager.add_retriever(retriever_config("r"), None) {
        Err(LearnerError::Config(m)) => assert_eq!(m, "Retriever missing resource_template"),
        other => panic!("unexpected {:?}", other),
    }
    match manager.add_retriever(retriever_config("r"), Some("book".to_string())) {
        Err(LearnerError::Config(m)) => assert_eq!(m, "Resource template book not found"),
        other => panic!("unexpected {:?}", other),
    }
    manager.apply_template(TemplateType::Resource, &template("book", &[]));
    match manager.check_loaded() {
        Err(LearnerError::Config(m)) => assert_eq!(m, "No retrievers loaded"),
        other => panic!("unexpected {:?}", other),
    }
    match manager.get_retriever("nope") {
        Err(LearnerError::Config(m)) => assert_eq!(m, "Retriever nope not found"),
        other => panic!("unexpected {:?}", other),
    }
    match manager.get_resource("nope") {
        Err(LearnerError::Config(m)) => assert_eq!(m, "Resource template nope not found"),
        other => panic!("unexpected {:?}", other),
    }
    manager.add_retriever(retriever_config("r"), Some("book".to_string())).unwrap();
    assert!(manager.check_loaded().is_ok());
    assert_eq!(manager.get_retrievers(), vec!["r".to_string()]);
    manager.begin_scan();
    assert!(manager.get_retrievers().is_empty());
    assert!(manager.get_resource_types().is_empty());
}

#[test]
fn put_then_get_gives_the_value_back() {
    let mut obj = Vec::new();
    put(&mut obj, "b".to_string(), JsonValue::Bool(true));
    put(&mut obj, "a".to_string(), JsonValue::Number(JsonNumber::PosInt(1)));
    put(&mut obj, "ab".to_string(), JsonValue::Null);
    put(&mut obj, "a".to_string(), JsonValue::Number(JsonNumber::NegInt(-2)));
    assert_eq!(keys(&obj), vec!["a", "ab", "b"]);
    assert!(json_eq(get(&obj, "a").unwrap(), &JsonValue::Number(JsonNumber::NegInt(-2))));
    assert!(json_eq(get(&obj, "b").unwrap(), &JsonValue::Bool(true)));
    assert!(get(&obj, "c").is_none());
}

#[test]
fn keyed_entries_stay_in_key_order() {
    let mut entries: Vec<(String, u32)> = Vec::new();
    for (k, v) in [("delta", 4), ("alpha", 1), ("charlie", 3), ("bravo", 2), ("alpha", 10)] {
        put_keyed(&mut entries, k.to_string(), v);
    }
    let ks: Vec<&str> = entries.iter().map(|(k, _)| k.as_str()).collect();
    assert_eq!(ks, vec!["alpha", "bravo", "charlie", "delta"]);
    assert_eq!(entries[find_keyed(&entries, "alpha").unwrap()].1, 10);
    assert!(find_keyed(&entries, "echo").is_none());
}
