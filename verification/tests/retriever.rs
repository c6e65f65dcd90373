use learner::error::LearnerError;
use learner::json::{json_eq, put, JsonValue};
use learner::keyed::put_keyed;
use learner::record::{Resource, Retrieval};
use learner::retriever::{
    clean_content, clean_value, get_path_value, process_template_fields, strip_xml_namespaces, xml_to_json,
    Mapping, ResponseFormat, Retriever, Retrievers,
};
use learner::template::{FieldDefinition, Template};

fn text(s: &str) -> JsonValue {
    JsonValue::String(s.to_string())
}

fn object(entries: Vec<(&str, JsonValue)>) -> JsonValue {
    let mut out = Vec::new();
    for (k, v) in entries {
        put(&mut out, k.to_string(), v);
    }
    JsonValue::Object(out)
}

fn path(p: &str) -> Vec<String> {
    p.split('/').map(|s| s.to_string()).collect()
}

fn mappings(entries: Vec<(&str, Mapping)>) -> Vec<(String, Mapping)> {
    let mut out = Vec::new();
    for (k, m) in entries {
        put_keyed(&mut out, k.to_string(), m);
    }
    out
}

fn retriever(name: &str, pattern: &str, endpoint: &str, format: ResponseFormat) -> Retriever {
    Retriever {
        name: name.to_string(),
        description: None,
        base_url: String::new(),
        pattern: pattern.to_string(),
        source: name.to_string(),
        endpoint_template: endpoint.to_string(),
        response_format: format,
        headers: vec![],
        resource: Resource { title: String::new(), extended: vec![] },
        resource_mappings: vec![],
        retrieval: Retrieval::default(),
        retrieval_mappings: vec![],
    }
}

fn iacr() -> Retriever {
    let mut r = retriever(
        "iacr",
        r"^(?:https://eprint\.iacr\.org/)?(\d{4}/\d+)(?:\.pdf)?$",
        "https://eprint.iacr.org/oai?verb=GetRecord&identifier=oai:eprint.iacr.org:{identifier}&metadataPrefix=oai_dc",
        ResponseFormat::Xml { strip_namespaces: true, clean_content: true },
    );
    r.base_url = "https://eprint.iacr.org".to_string();
    r.headers = vec![("Accept".to_string(), "application/xml".to_string())];
    r.resource_mappings = mappings(vec![
        ("title", Mapping::Path("OAI-PMH/GetRecord/record/metadata/dc/title".to_string())),
        ("abstract", Mapping::Path("OAI-PMH/GetRecord/record/metadata/dc/description".to_string())),
        ("authors", Mapping::Path("OAI-PMH/GetRecord/record/metadata/dc/creator".to_string())),
        ("publication_date", Mapping::Path("OAI-PMH/GetRecord/record/metadata/dc/date".to_string())),
        ("pdf_url", Mapping::Path("OAI-PMH/GetRecord/record/metadata/dc/identifier".to_string())),
    ]);
    r
}

fn has_mapping(ms: &[(String, Mapping)], key: &str) -> bool {
    ms.iter().any(|(k, _)| k == key)
}

#[test]
fn test_iacr_config_deserialization() {
    let retriever = iacr();
    assert_eq!(retriever.base_url, "https://eprint.iacr.org");
    assert_eq!(retriever.source, "iacr");

    let test_cases = [
        ("2016/260", true),
        ("2023/123", true),
        ("https://eprint.iacr.org/2016/260", true),
        ("https://eprint.iacr.org/2016/260.pdf", true),
        ("invalid/format", false),
        ("https://wrong.url/2016/260", false),
    ];
    for (input, expected) in test_cases {
        assert_eq!(retriever.is_match(input), expected, "Pattern match failed for input: {}", input);
    }

    assert_eq!(retriever.extract_identifier("2016/260").unwrap(), "2016/260");
    assert_eq!(retriever.extract_identifier("https://eprint.iacr.org/2016/260").unwrap(), "2016/260");
    assert_eq!(retriever.extract_identifier("https://eprint.iacr.org/2016/260.pdf").unwrap(), "2016/260");

    if let ResponseFormat::Xml { strip_namespaces, .. } = &retriever.response_format {
        assert!(strip_namespaces);
        let field_maps = &retriever.resource_mappings;
        assert!(has_mapping(field_maps, "title"));
        assert!(has_mapping(field_maps, "abstract"));
        assert!(has_mapping(field_maps, "authors"));
        assert!(has_mapping(field_maps, "publication_date"));
        assert!(has_mapping(field_maps, "pdf_url"));
        match field_maps.iter().find(|(k, _)| k == "title") {
            Some((_, Mapping::Path(p))) => assert!(p.contains("OAI-PMH/GetRecord/record/metadata/dc/title")),
            _ => panic!("Missing title field map"),
        }
    } else {
        panic!("Expected an XML configuration, but did not get one.")
    }

    assert_eq!(retriever.headers.iter().find(|(k, _)| k == "Accept").unwrap().1, "application/xml");
}

#[test]
fn extract_identifier_without_a_match_is_invalid() {
    match iacr().extract_identifier("not an id") {
        Err(LearnerError::InvalidIdentifier) => {},
        other => panic!("expected InvalidIdentifier, got {:?}", other),
    }
}

#[test]
fn request_url_fills_in_the_identifier() {
    let r = retriever("arxiv", r"^(\d{4}\.\d{5})$", "http://export.arxiv.org/api/query?id_list={identifier}&max_results=1", ResponseFormat::Json { clean_content: false });
    assert_eq!(r.request_url("2301.07041"), "http://export.arxiv.org/api/query?id_list=2301.07041&max_results=1");
}

fn registry() -> Retrievers {
    let mut rs = Retrievers::new();
    assert!(rs.is_empty());
    rs.insert(
        "arxiv".to_string(),
        retriever("arxiv", r"^(?:https?://arxiv\.org/(?:abs|pdf)/)?(\d{4}\.\d{4,5})$", "", ResponseFormat::Json { clean_content: false }),
    );
    rs.insert(
        "doi".to_string(),
        retriever("doi", r"^(?:https?://doi\.org/)?(10\.\d{4,9}/[-._;()/:A-Za-z0-9]+)$", "", ResponseFormat::Json { clean_content: true }),
    );
    rs.insert("iacr".to_string(), iacr());
    assert!(!rs.is_empty());
    rs
}

#[test]
fn sanitize_identifier_finds_the_one_matching_source() {
    let rs = registry();
    assert_eq!(
        rs.sanitize_identifier("https://arxiv.org/abs/2301.07041").unwrap(),
        ("arxiv".to_string(), "2301.07041".to_string())
    );
    assert_eq!(
        rs.sanitize_identifier("10.1145/1327452.1327492").unwrap(),
        ("doi".to_string(), "10.1145/1327452.1327492".to_string())
    );
    assert_eq!(rs.sanitize_identifier("2016/260").unwrap(), ("iacr".to_string(), "2016/260".to_string()));
}

#[test]
fn sanitize_identifier_errors() {
    let rs = registry();
    match rs.sanitize_identifier("nothing matches this") {
        Err(LearnerError::InvalidIdentifier) => {},
        other => panic!("expected InvalidIdentifier, got {:?}", other),
    }
    let mut twice = registry();
    twice.insert(
        "mirror".to_string(),
        retriever("mirror", r"^(\d{4}/\d+)$", "", ResponseFormat::Json { clean_content: false }),
    );
    match twice.sanitize_identifier("2016/260") {
        Err(LearnerError::AmbiguousIdentifier(sources)) => {
            assert_eq!(sources, vec!["iacr".to_string(), "mirror".to_string()])
        },
        other => panic!("expected AmbiguousIdentifier, got {:?}", other),
    }
    let mut no_group = Retrievers::new();
    no_group.insert("bare".to_string(), retriever("bare", r"^\d+$", "", ResponseFormat::Json { clean_content: false }));
    match no_group.sanitize_identifier("42") {
        Err(LearnerError::InvalidIdentifier) => {},
        other => panic!("expected InvalidIdentifier, got {:?}", other),
    }
}

fn feed() -> JsonValue {
    xml_to_json(
        "<feed><entry id=\"1\"><title>First</title><author><name>A</name></author><author><name>B</name></author></entry></feed>",
    )
}

#[test]
fn xml_to_json_nests_elements_and_collects_repeats() {
    let expected = object(vec![(
        "feed",
        object(vec![(
            "entry",
            object(vec![
                ("@id", text("1")),
                ("title", text("First")),
                ("author", JsonValue::Array(vec![object(vec![("name", text("A"))]), object(vec![("name", text("B"))])])),
            ]),
        )]),
    )]);
    assert!(json_eq(&feed(), &expected), "{:?}", feed());
}

#[test]
fn xml_to_json_keeps_text_beside_attributes_and_skips_empty_elements() {
    let v = xml_to_json("<a lang=\"en\">  hello &amp; bye  </a><b/>");
    let expected = object(vec![("a", object(vec![("$text", text("hello & bye")), ("@lang", text("en"))]))]);
    assert!(json_eq(&v, &expected), "{:?}", v);
}

#[test]
fn xml_to_json_stops_at_a_mismatched_end_tag() {
    let v = xml_to_json("<a><b>x</c></a>");
    let expected = object(vec![("$text", text("x"))]);
    assert!(json_eq(&v, &expected), "{:?}", v);
}

#[test]
fn get_path_value_follows_objects_arrays_and_keys() {
    let doc = feed();
    assert!(json_eq(&get_path_value(&doc, &path("feed/entry/title")).unwrap(), &text("First")));
    assert!(json_eq(&get_path_value(&doc, &path("feed/entry/author/1/name")).unwrap(), &text("B")));
    assert!(json_eq(
        &get_path_value(&doc, &path("feed/entry/author/name")).unwrap(),
        &JsonValue::Array(vec![text("A"), text("B")])
    ));
    assert!(get_path_value(&doc, &path("feed/missing")).is_none());
    assert!(get_path_value(&doc, &path("feed/entry/author/7")).is_none());
    assert!(json_eq(&get_path_value(&doc, &path("feed/entry/title/deeper")).unwrap(), &doc));
}

#[test]
fn strip_xml_namespaces_removes_declarations_and_prefixes() {
    let xml = "<oai_dc:dc xmlns:oai_dc=\"http://www.openarchives.org/OAI/2.0/oai_dc/\" xmlns=\"http://x\"><dc:title>T</dc:title></oai_dc:dc>";
    assert_eq!(strip_xml_namespaces(xml), "<dc  ><title>T</title></dc>");
}

#[test]
fn strip_xml_namespaces_removes_any_element_prefix() {
    let xml = r#"<a:entry xmlns:a="http://www.w3.org/2005/Atom"><a:title>T</a:title></a:entry>"#;
    assert_eq!(strip_xml_namespaces(xml), "<entry ><title>T</title></entry>");
}

#[test]
fn strip_xml_namespaces_keeps_names_without_prefix_and_markup_that_is_no_element() {
    let xml = "<?xml version=\"1.0\"?><!-- x:y --><feed><entry a:b=\"1\">x:y</entry><br/></feed>";
    assert_eq!(
        strip_xml_namespaces(xml),
        "<?xml version=\"1.0\"?><!-- x:y --><feed><entry a:b=\"1\">x:y</entry><br/></feed>"
    );
}

#[test]
fn clean_content_removes_tags_and_squeezes_whitespace() {
    assert_eq!(clean_content("<jats:p>Hello\n   <b>bold</b>   world</jats:p>"), "Hello bold world");
    assert_eq!(clean_content("  plain  "), "plain");
}

#[test]
fn clean_value_cleans_only_strings_with_markup_or_breaks() {
    let mut v = object(vec![
        ("a", text("<i>x</i>  y")),
        ("b", text("  untouched  ")),
        ("c", JsonValue::Array(vec![text("line\nbreak")])),
    ]);
    clean_value(&mut v);
    let expected = object(vec![
        ("a", text("x y")),
        ("b", text("  untouched  ")),
        ("c", JsonValue::Array(vec![text("line break")])),
    ]);
    assert!(json_eq(&v, &expected), "{:?}", v);
}

fn field(name: &str, base_type: &str, required: bool) -> FieldDefinition {
    FieldDefinition {
        name: name.to_string(),
        required,
        description: None,
        base_type: base_type.to_string(),
        validation: None,
        items: None,
        fields: None,
    }
}

#[test]
fn process_template_fields_maps_and_coerces() {
    let doc = feed();
    let mut authors = field("authors", "array", true);
    let mut author_item = field("", "object", false);
    author_item.fields = Some(vec![field("name", "string", true)]);
    authors.items = Some(Box::new(author_item));
    let template = Template {
        name: "paper".to_string(),
        description: None,
        fields: vec![field("title", "array", true), authors, field("label", "string", false), field("unmapped", "string", false)],
    };
    let ms = mappings(vec![
        ("title", Mapping::Path("feed/entry/title".to_string())),
        (
            "authors",
            Mapping::Object {
                from: Some("feed/entry/author".to_string()),
                map: mappings(vec![("name", Mapping::Path("name".to_string())), ("missing", Mapping::Path("nope".to_string()))]),
            },
        ),
        (
            "label",
            Mapping::Join { paths: vec!["feed/entry/@id".to_string(), "feed/entry/title".to_string()], with: "-".to_string() },
        ),
    ]);
    let item = process_template_fields(&doc, &template, &ms).unwrap();
    let expected = object(vec![
        ("authors", JsonValue::Array(vec![object(vec![("name", text("A"))]), object(vec![("name", text("B"))])])),
        ("label", text("1-First")),
        ("title", JsonValue::Array(vec![text("First")])),
    ]);
    assert!(json_eq(&JsonValue::Object(item), &expected));
}

#[test]
fn process_template_fields_reports_missing_paths() {
    let doc = feed();
    let template = Template { name: "paper".to_string(), description: None, fields: vec![field("title", "string", true)] };
    let ms = mappings(vec![("title", Mapping::Path("feed/nothing".to_string()))]);
    match process_template_fields(&doc, &template, &ms) {
        Err(LearnerError::ApiError(m)) => assert_eq!(m, "Path 'feed/nothing' not found"),
        other => panic!("expected an API error, got {:?}", other),
    }
    let ms = mappings(vec![(
        "title",
        Mapping::Join { paths: vec!["feed/entry/author".to_string()], with: String::new() },
    )]);
    match process_template_fields(&doc, &template, &ms) {
        Err(LearnerError::ApiError(m)) => assert_eq!(m, "Path 'feed/entry/author' is not a string"),
        other => panic!("expected an API error, got {:?}", other),
    }
}

#[test]
fn documents_follow_the_response_format() {
    let xml = retriever("x", "", "", ResponseFormat::Xml { strip_namespaces: true, clean_content: true });
    let doc = xml.xml_document("<r xmlns:dc=\"u\"><dc:t>a\n  b</dc:t></r>").unwrap();
    let doc = xml.finish_document(doc);
    assert!(json_eq(&doc, &object(vec![("r", object(vec![("t", text("a b"))]))])), "{:?}", doc);
    let json = retriever("j", "", "", ResponseFormat::Json { clean_content: false });
    assert!(json.xml_document("<r/>").is_none());
    let kept = json.finish_document(text("a\nb"));
    assert!(json_eq(&kept, &text("a\nb")));
    let mut item = Vec::new();
    json.add_source(&mut item, "id-1");
    assert!(json_eq(&JsonValue::Object(item), &object(vec![("source", text("j")), ("source_identifier", text("id-1"))])));
}

#[test]
fn deserialize_regex_accepts_valid_patterns_only() {
    assert_eq!(learner::retriever::deserialize_regex("^a+$".to_string()).unwrap(), "^a+$");
    assert!(learner::retriever::deserialize_regex("(".to_string()).is_err());
    assert_eq!(learner::retriever::default_delimiter(), "");
}
