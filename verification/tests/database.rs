use learner::database::models::{AuthorRow, PaperRow};
use learner::database::query::sort_papers;
use learner::database::{Add, OrderField, Query, Remove, RemoveOptions};
use learner::datetime::Timestamp;
use learner::error::LearnerError;
use learner::record::{Record, Resource, Retrieval, State, Storage};
use learner::resource::{Author, Paper};

fn paper(title: &str, secs: i64, source: &str, id: &str) -> Paper {
    Paper {
        title: title.to_string(),
        authors: vec![],
        abstract_text: String::new(),
        publication_date: Timestamp::from_unix(secs, 0).unwrap(),
        source: source.to_string(),
        source_identifier: id.to_string(),
        pdf_url: None,
        doi: None,
    }
}

#[test]
fn test_paper_row_from_row() {
    let row = PaperRow {
        id: 1,
        title: "Test Paper".to_string(),
        abstract_text: "Abstract".to_string(),
        publication_date: "2024-01-01T00:00:00Z".to_string(),
        source: "Arxiv".to_string(),
        source_identifier: "2301.07041".to_string(),
        pdf_url: Some("http://example.com/paper.pdf".to_string()),
        doi: Some("10.1000/test".to_string()),
    };
    let author = AuthorRow {
        id: 1,
        paper_id: 1,
        name: "Test Author".to_string(),
        affiliation: Some("Test University".to_string()),
        email: Some("test@example.com".to_string()),
    };
    let paper = row.into_paper(vec![author]).unwrap();
    assert_eq!(paper.title, "Test Paper");
    assert_eq!(paper.abstract_text, "Abstract");
    assert_eq!(paper.source_identifier, "2301.07041");
    assert_eq!(paper.pdf_url, Some("http://example.com/paper.pdf".to_string()));
    assert_eq!(paper.doi, Some("10.1000/test".to_string()));
    assert_eq!(paper.authors.len(), 1);
    assert_eq!(paper.authors[0].name, "Test Author");
    assert_eq!(paper.publication_date.secs(), 1_704_067_200);
}

#[test]
fn paper_row_with_a_bad_date_is_an_error() {
    let row = PaperRow {
        id: 1,
        title: "T".to_string(),
        abstract_text: String::new(),
        publication_date: "yesterday".to_string(),
        source: "s".to_string(),
        source_identifier: "i".to_string(),
        pdf_url: None,
        doi: None,
    };
    assert!(matches!(row.into_paper(vec![]), Err(LearnerError::Database(_))));
}

#[test]
fn author_rows_become_authors() {
    let a = AuthorRow { id: 3, paper_id: 1, name: "N".to_string(), affiliation: None, email: None }.into_author();
    assert_eq!(a.name, "N");
    assert!(a.affiliation.is_none());
}

#[test]
fn query_sql_follows_the_criteria_and_order() {
    let (sql, params) = Query::by_author("John Doe").build_criteria_sql();
    assert!(sql.contains("a.name LIKE ?1"));
    assert_eq!(params, vec!["%John Doe%".to_string()]);
    let (_, params) = Query::by_source("arxiv", "2301.07041").build_criteria_sql();
    assert_eq!(params, vec!["arxiv".to_string(), "2301.07041".to_string()]);
    let (sql, params) = Query::list_all().build_criteria_sql();
    assert_eq!(sql, "SELECT id FROM papers");
    assert!(params.is_empty());
    let q = Query::text("neural").order_by(OrderField::PublicationDate).descending();
    assert!(q.build_paper_sql().ends_with(" ORDER BY publication_date DESC"));
    assert!(q.is_descending());
    assert_eq!(OrderField::Source.as_sql_str(), "source, source_identifier");
    let before = Query::before_date(Timestamp::from_unix(1_704_067_200, 0).unwrap());
    assert_eq!(before.build_criteria_sql().1, vec!["2024-01-01T00:00:00+00:00".to_string()]);
}

#[test]
fn sort_papers_orders_stably() {
    let papers = vec![
        paper("Beta", 300, "arxiv", "3"),
        paper("Alpha", 100, "doi", "1"),
        paper("Beta", 200, "arxiv", "2"),
    ];
    let by_title = sort_papers(papers, Some(OrderField::Title), false);
    let ids: Vec<&str> = by_title.iter().map(|p| p.source_identifier.as_str()).collect();
    assert_eq!(ids, vec!["1", "3", "2"]);
    let by_date_desc = sort_papers(by_title, Some(OrderField::PublicationDate), true);
    let ids: Vec<&str> = by_date_desc.iter().map(|p| p.source_identifier.as_str()).collect();
    assert_eq!(ids, vec!["3", "2", "1"]);
    let unchanged = sort_papers(by_date_desc, None, false);
    let ids: Vec<&str> = unchanged.iter().map(|p| p.source_identifier.as_str()).collect();
    assert_eq!(ids, vec!["3", "2", "1"]);
}

#[test]
fn dry_runs_delete_nothing() {
    let found = vec![paper("T", 1, "s", "i")];
    let remove = Remove::by_source("s", "i");
    assert!(remove.deletes(&found));
    assert!(!remove.deletes(&vec![]));
    let dry = Remove::by_author("John Doe").dry_run();
    assert!(!dry.deletes(&found));
    assert!(!RemoveOptions::default().dry_run);
}

#[test]
fn removal_sql_lists_the_ids() {
    assert!(Remove::removal_sql(&vec![]).is_none());
    let sql = Remove::removal_sql(&vec![3, -1]).unwrap();
    assert!(sql.starts_with("DELETE FROM authors WHERE paper_id IN (3,-1);"));
    assert!(sql.contains("DELETE FROM files WHERE paper_id IN (3,-1);"));
    assert!(sql.ends_with("(3,-1);"));
    let (sql, params) = Remove::build_paper_ids_sql(&paper("T", 1, "arxiv", "42"));
    assert_eq!(sql, "SELECT id FROM papers WHERE source = ? AND source_identifier = ?");
    assert_eq!(params, vec![Some("arxiv".to_string()), Some("42".to_string())]);
}

#[test]
fn add_builds_the_insert() {
    let record = Record {
        resource: Resource { title: "Title".to_string(), extended: vec![] },
        state: State::default(),
        storage: Storage::default(),
        retrieval: Retrieval::default(),
    };
    let add = Add::record(&record);
    let (sql, params) = add.build_record_sql("{}".into(), "{\"s\":1}".into(), "[]".into(), "null".into());
    assert!(sql.starts_with("INSERT INTO resources"));
    assert_eq!(params, vec!["Title", "paper", "{}", "{\"s\":1}", "[]", "null"]);
    assert_eq!(add.target().resource.title, "Title");
}

#[test]
fn paper_query_matches_its_source() {
    let p = paper("T", 1, "arxiv", "2301.07041");
    let (_, params) = Query::by_paper(&p).build_criteria_sql();
    assert_eq!(params, vec!["arxiv".to_string(), "2301.07041".to_string()]);
    let _ = Author { name: String::new(), affiliation: None, email: None };
}

fn row(title: &str, date: &str, id: &str) -> PaperRow {
    PaperRow {
        id: 0,
        title: title.to_string(),
        abstract_text: String::new(),
        publication_date: date.to_string(),
        source: "arxiv".to_string(),
        source_identifier: id.to_string(),
        pdf_url: None,
        doi: None,
    }
}

#[test]
fn search_query_lower_cases_its_text_and_matches_it_as_given() {
    let (sql, params) = Query::search("TEST Paper").build_criteria_sql();
    assert_eq!(params, vec!["test paper".to_string()]);
    assert!(sql.contains("MATCH ?1"));
    assert!(!sql.contains("'*'"));
    let (_, text_params) = Query::text("TEST Paper").build_criteria_sql();
    assert_eq!(text_params, vec!["TEST Paper".to_string()]);
}

#[test]
fn remove_constructors_query_unordered_and_ascending() {
    let by_source = Remove::by_source("arxiv", "2301.07041");
    assert!(by_source.query().ordering().is_none());
    assert!(!by_source.query().is_descending());
    let by_author = Remove::by_author("Alice");
    assert!(by_author.query().ordering().is_none());
    assert!(!by_author.query().is_descending());
}

#[test]
fn query_results_from_rows_are_converted_and_ordered() {
    let rows = vec![
        (row("Zeta", "2024-02-01T00:00:00Z", "2"), vec![]),
        (row("Alpha", "2024-01-01T00:00:00Z", "1"), vec![]),
    ];
    let papers = Query::list_all().order_by(OrderField::Title).papers_from_rows(rows).unwrap();
    let titles: Vec<&str> = papers.iter().map(|p| p.title.as_str()).collect();
    assert_eq!(titles, vec!["Alpha", "Zeta"]);
    let bad = vec![
        (row("A", "2024-01-01T00:00:00Z", "1"), vec![]),
        (row("B", "soon", "2"), vec![]),
    ];
    let expected = format!(
        "Error(\"Conversion error from type Text at index: 2, {}\")",
        chrono::DateTime::parse_from_rfc3339("soon").unwrap_err()
    );
    match Query::list_all().papers_from_rows(bad) {
        Err(LearnerError::AsyncSqlite(m)) => assert_eq!(m, expected),
        other => panic!("expected a conversion error, got {:?}", other),
    }
}
