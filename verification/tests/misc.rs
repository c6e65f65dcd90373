use learner::datetime::Timestamp;
use learner::environment::Environment;
use learner::error::LearnerError;
use learner::llm::{LlamaRequest, Model, OllamaEndpoint};
use learner::pdf::{metadata_from_entries, pages_from_contents, pdf_text, PDFContentBuilder};

#[test]
fn llama_request_builder_and_checks() {
    let r = LlamaRequest::new();
    assert!(matches!(r.check(), Err(LearnerError::LLMMissingModel)));
    let r = r.with_model(Model::Llama3p2c3b);
    assert!(matches!(r.check(), Err(LearnerError::LLMMissingMessage)));
    let r = r.with_message("Please tell me what is the capital of France?");
    assert!(r.check().is_ok());
    assert_eq!(r.messages().len(), 1);
    assert_eq!(r.messages()[0].role, "user");
    assert_eq!(r.target_url().unwrap(), "http://localhost:11434/api/chat");
    let r = r.with_endpoint(OllamaEndpoint::Chat);
    assert_eq!(r.target_url().unwrap(), "http://localhost:11434/api/chat");
    let r = LlamaRequest::new().with_host("http://localhost:11434/").with_endpoint(OllamaEndpoint::ListLocal);
    assert_eq!(r.target_url().unwrap(), "http://localhost:11434/api/tags");
    let r = LlamaRequest::new().with_host("not a url");
    assert_eq!(r.target_url().unwrap(), "http://localhost:11434/api/chat");
    assert_eq!(Model::Llama3p2c3b.name(), "llama3.2:3b");
    assert_eq!(OllamaEndpoint::ListRunning.as_str(), "/api/ps");
}

#[test]
fn environment_defaults_follow_the_config_dir() {
    let env = Environment::builder().config_dir("/etc/learner").build().unwrap();
    assert_eq!(env.config_dir(), "/etc/learner");
    assert_eq!(env.resources_dir(), "/etc/learner/resources");
    assert_eq!(env.retrievers_dir(), "/etc/learner/retrievers");
    assert_eq!(env.resolve_resource_path("paper"), "/etc/learner/resources/paper.toml");
    assert_eq!(env.resolve_retriever_path("arxiv.toml"), "/etc/learner/retrievers/arxiv.toml");
    let custom = Environment::builder().config_dir("/c").retrievers_dir("/r").build().unwrap();
    assert_eq!(custom.retrievers_dir(), "/r");
    assert_eq!(custom.resources_dir(), "/c/resources");
}

#[test]
fn error_messages() {
    assert_eq!(LearnerError::NotFound.message(), "Paper not found");
    assert_eq!(LearnerError::ApiError("x".into()).message(), "API error: x");
    assert_eq!(
        LearnerError::AmbiguousIdentifier(vec!["a".into(), "b".into()]).message(),
        "Retriever matched multiple different identifiers for a request: [\"a\", \"b\"]"
    );
    assert_eq!(
        LearnerError::DatabaseDuplicatePaper("T".into()).message(),
        "Tried to add a paper titled \"T\" that was already in the database."
    );
}

#[test]
fn pdf_text_and_pages() {
    assert_eq!(pdf_text(&b"Plain".to_vec()), "Plain");
    assert_eq!(pdf_text(&vec![0xFE, 0xFF, 0x00, 0x48, 0x00, 0x69]), "Hi");
    let pages = pages_from_contents(&vec![Some(b"BT (Hello) Tj (World) Tj ET".to_vec()), None, Some(b"()".to_vec())]);
    assert_eq!(pages.len(), 2);
    assert_eq!(pages[0].page_number, 1);
    assert_eq!(pages[0].text, "Hello World ");
    assert_eq!(pages[1].page_number, 3);
    assert_eq!(pages[1].text, "");
    let meta = metadata_from_entries(&Some(b"Title".to_vec()), &None, &None, &Some(b"k".to_vec()));
    assert_eq!(meta.title.as_deref(), Some("Title"));
    assert!(meta.author.is_none());
    let b = PDFContentBuilder::new().path("/tmp/a.pdf");
    assert_eq!(b.target().as_deref(), Some("/tmp/a.pdf"));
}

#[test]
fn timestamps_outside_chrono_range_are_refused() {
    assert!(Timestamp::from_unix(i64::MAX, 0).is_none());
    let t = Timestamp::from_unix(0, 5).unwrap();
    assert_eq!(t.to_rfc3339(), "1970-01-01T00:00:00.000000005+00:00");
    let parsed = Timestamp::parse_rfc3339("2024-01-01T02:00:00+02:00").unwrap();
    assert_eq!(parsed.secs(), 1_704_067_200);
    assert!(Timestamp::parse_rfc3339("2024-01-01").is_err());
}

#[test]
fn pdf_text_replaces_what_does_not_decode() {
    assert_eq!(pdf_text(&vec![0x66, 0xFF]), "f\u{FFFD}");
    assert_eq!(pdf_text(&vec![0xFE, 0xFF, 0xD8, 0x3D, 0xDE, 0x00]), "\u{1F600}");
    assert_eq!(pdf_text(&vec![0xFE, 0xFF, 0xDC, 0x00, 0x00, 0x41, 0x42]), "\u{FFFD}A\u{FFFD}");
}

#[test]
fn configuration_file_names_get_one_extension() {
    let env = Environment::builder().config_dir("/c").build().unwrap();
    assert_eq!(env.resolve_resource_path("paper"), env.resolve_resource_path("paper.toml"));
    assert_eq!(env.resolve_retriever_path("a.toml.toml"), "/c/retrievers/a.toml.toml");
}

#[test]
fn rfc3339_text_reads_back_as_the_same_instant() {
    for (secs, nanos) in [
        (0i64, 0u32),
        (1_704_067_200, 500_000_000),
        (1_704_067_200, 123_456),
        (1_704_067_200, 7),
        (1_483_228_799, 1_250_000_000),
        (-62_167_219_200, 0),
        (253_402_300_799, 999_999_999),
    ] {
        let t = Timestamp::from_unix(secs, nanos).unwrap();
        let text = learner::template::datetime_to_json(&t);
        let back = learner::template::datetime_from_json(&text).unwrap();
        assert_eq!((back.secs(), back.nanos()), (secs, nanos), "{text}");
        let again = learner::resource::datetime_from_json(&learner::resource::datetime_to_json(&t)).unwrap();
        assert_eq!((again.secs(), again.nanos()), (secs, nanos));
    }
    let far = Timestamp::from_unix(253_402_300_800, 0).unwrap();
    assert!(Timestamp::parse_rfc3339(&far.to_rfc3339()).is_err());
}
