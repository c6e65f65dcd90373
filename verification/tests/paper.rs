use learner::datetime::Timestamp;
use learner::resource::{format_title, Author, Paper};

fn sample_paper(title: &str) -> Paper {
    Paper {
        title: title.to_string(),
        authors: vec![Author {
            name: "Alice Researcher".to_string(),
            affiliation: Some("Tech University".to_string()),
            email: None,
        }],
        abstract_text: "An abstract.".to_string(),
        publication_date: Timestamp::from_unix(1_704_067_200, 0).unwrap(),
        source: "arxiv".to_string(),
        source_identifier: "2301.07041".to_string(),
        pdf_url: Some("https://arxiv.org/pdf/2301.07041".to_string()),
        doi: None,
    }
}

#[test]
fn test_test_test() {
    let paper = sample_paper("Understanding Quantum Computing: A Guide");
    assert_eq!(paper.filename(), "Understanding_Quantum_Computing_A_Guide.pdf");
}

#[test]
fn filename_cuts_long_titles_to_fifty_characters() {
    let title = "A Very Long Title That Keeps Going On And On Beyond Any Reasonable Length";
    let paper = sample_paper(title);
    let name = paper.filename();
    let stem = name.strip_suffix(".pdf").unwrap();
    assert!(stem.chars().count() <= 50);
    assert_eq!(stem, "A_Very_Long_Title_That_Keeps_Going_On_And_On_Beyon");
}

#[test]
fn format_title_drops_symbols_and_joins_words() {
    assert_eq!(format_title("Test & Paper: A Study!", None), "Test_Paper_A_Study");
    assert_eq!(format_title("  spaced   out  ", None), "spaced_out");
    assert_eq!(format_title("self-attention is all", Some(10)), "self-atten");
    assert_eq!(format_title("ab cd", Some(3)), "ab");
    assert_eq!(format_title("", None), "");
}

#[test]
fn formatted_titles_are_safe_file_names() {
    for title in ["Über: Ängste & Co.", "__init__ (again)", "a\tb\nc", "¿Qué?", "x".repeat(120).as_str()] {
        let name = format_title(title, None);
        assert!(name.chars().all(|c| c.is_ascii_alphanumeric() || c == '-' || c == '_'), "{name}");
        assert!(!name.starts_with('_') && !name.ends_with('_'), "{name}");
        assert!(name.chars().count() <= 50);
    }
}
