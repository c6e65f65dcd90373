//! Rows read from the database and their conversion to papers and authors.
use vstd::prelude::*;

use crate::datetime::{spec_parse_rfc3339, spec_rfc3339, Timestamp};
use crate::error::LearnerError;
use crate::resource::{Author, Paper};
use crate::text::concat;

verus! {

/// Represents a paper row from the database.
#[derive(Debug)]
pub struct PaperRow {
    pub id: i64,
    pub title: String,
    pub abstract_text: String,
    pub publication_date: String,
    pub source: String,
    pub source_identifier: String,
    pub pdf_url: Option<String>,
    pub doi: Option<String>,
}

/// Represents an author row from the database.
#[derive(Debug)]
pub struct AuthorRow {
    pub id: i64,
    pub paper_id: i64,
    pub name: String,
    pub affiliation: Option<String>,
    pub email: Option<String>,
}

/// Represents a configuration row from the database.
#[derive(Debug)]
pub struct ConfigRow {
    pub key: String,
    pub value: String,
}

/// Represents a file row from the database.
#[derive(Debug)]
pub struct FileRow {
    pub id: i64,
    pub paper_id: i64,
    pub path: String,
    pub filename: String,
    pub download_status: String,
    pub error_message: Option<String>,
}

/// The author a row describes.
pub open spec fn spec_row_author(row: AuthorRow) -> Author {
    Author { name: row.name, affiliation: row.affiliation, email: row.email }
}

impl AuthorRow {
    /// Converts this row into an author.
    pub fn into_author(self) -> (r: Author)
        ensures
            r == spec_row_author(self),
    {
        Author { name: self.name, affiliation: self.affiliation, email: self.email }
    }
}

impl PaperRow {
    /// Converts this row and its author rows into a paper. Fails with a
    /// database error when the stored publication date is not RFC 3339.
    pub fn into_paper(self, authors: Vec<AuthorRow>) -> (r: Result<Paper, LearnerError>)
        ensures
            spec_parse_rfc3339(self.publication_date@) is Err <==> r is Err,
            r matches Err(e) ==> e == LearnerError::Database(e->Database_0) && e->Database_0@
                == spec_parse_rfc3339(self.publication_date@)->Err_0,
            r matches Ok(p) ==> {
                &&& spec_parse_rfc3339(self.publication_date@) == Ok::<(i64, u32), Seq<char>>(
                    (p.publication_date.spec_secs(), p.publication_date.spec_nanos()),
                )
                &&& p.title == self.title
                &&& p.abstract_text == self.abstract_text
                &&& p.source == self.source
                &&& p.source_identifier == self.source_identifier
                &&& p.pdf_url == self.pdf_url
                &&& p.doi == self.doi
                &&& p.authors@ == authors@.map_values(|a: AuthorRow| spec_row_author(a))
            },
    {
        let date = match Timestamp::parse_rfc3339(self.publication_date.as_str()) {
            Ok(t) => t,
            Err(m) => return Err(LearnerError::Database(m)),
        };
        let ghost rows = authors@;
        let mut list: Vec<Author> = Vec::new();
        let mut rest = authors;
        let ghost mut i: int = 0;
        assert(rows.skip(0) =~= rows);
        while rest.len() > 0
            invariant
                0 <= i <= rows.len(),
                rest@ == rows.skip(i),
                list@ == rows.take(i).map_values(|a: AuthorRow| spec_row_author(a)),
            decreases rest.len(),
        {
            let row = rest.remove(0);
            assert(row == rows[i]);
            list.push(row.into_author());
            proof {
                i = i + 1;
            }
            assert(rest@ =~= rows.skip(i));
            assert(list@ =~= rows.take(i).map_values(|a: AuthorRow| spec_row_author(a)));
        }
        assert(rows.take(i) =~= rows);
        Ok(
            Paper {
                title: self.title,
                abstract_text: self.abstract_text,
                publication_date: date,
                source: self.source,
                source_identifier: self.source_identifier,
                pdf_url: self.pdf_url,
                doi: self.doi,
                authors: list,
            },
        )
    }
}

/// The values a paper is stored with, in the order of the `papers` columns:
/// title, abstract, publication date (RFC 3339), source, source identifier,
/// PDF URL, DOI.
pub fn paper_params(p: &Paper) -> (r: Vec<Option<String>>)
    ensures
        r@.len() == 7,
        r@[0] == Some(p.title),
        r@[1] == Some(p.abstract_text),
        r@[2] matches Some(d) && d@ == spec_rfc3339(p.publication_date.spec_secs(), p.publication_date.spec_nanos()),
        r@[3] == Some(p.source),
        r@[4] == Some(p.source_identifier),
        r@[5] == p.pdf_url,
        r@[6] == p.doi,
{
    let mut r = Vec::new();
    r.push(Some(p.title.clone()));
    r.push(Some(p.abstract_text.clone()));
    r.push(Some(p.publication_date.to_rfc3339()));
    r.push(Some(p.source.clone()));
    r.push(Some(p.source_identifier.clone()));
    r.push(p.pdf_url.clone());
    r.push(p.doi.clone());
    r
}


/// The paper is what a row and its authors' rows convert to.
pub open spec fn spec_row_paper(row: PaperRow, authors: Seq<AuthorRow>, p: Paper) -> bool {
    &&& spec_parse_rfc3339(row.publication_date@) == Ok::<(i64, u32), Seq<char>>(
        (p.publication_date.spec_secs(), p.publication_date.spec_nanos()),
    )
    &&& p.title == row.title
    &&& p.abstract_text == row.abstract_text
    &&& p.source == row.source
    &&& p.source_identifier == row.source_identifier
    &&& p.pdf_url == row.pdf_url
    &&& p.doi == row.doi
    &&& p.authors@ == authors.map_values(|a: AuthorRow| spec_row_author(a))
}

/// The index of the first row, from `k` on, whose date does not parse.
pub open spec fn spec_first_bad_row(rows: Seq<(PaperRow, Vec<AuthorRow>)>, k: int) -> Option<int>
    decreases rows.len() - k,
{
    if k < 0 || k >= rows.len() {
        None
    } else if spec_parse_rfc3339(rows[k].0.publication_date@) is Err {
        Some(k)
    } else {
        spec_first_bad_row(rows, k + 1)
    }
}

/// How the asynchronous connection reports that the date column (index 2,
/// stored as text) of a row read by a query could not be converted, given
/// the parser's message: the connection's wrapper around the SQLite
/// conversion error.
pub open spec fn spec_date_conversion_message(m: Seq<char>) -> Seq<char> {
    DATE_CONVERSION_PREFIX@ + m + DATE_CONVERSION_SUFFIX@
}

/// The text before the parser's message in a date conversion error.
pub const DATE_CONVERSION_PREFIX: &'static str = "Error(\"Conversion error from type Text at index: 2, ";

/// The text after the parser's message in a date conversion error.
pub const DATE_CONVERSION_SUFFIX: &'static str = "\")";

/// Converts rows read by a query, each with its authors' rows, into papers,
/// in order; the first row whose date does not parse is the error, reported
/// as the asynchronous connection reports a failed column conversion.
pub fn into_papers(rows: Vec<(PaperRow, Vec<AuthorRow>)>) -> (r: Result<Vec<Paper>, LearnerError>)
    ensures
        r is Err <==> spec_first_bad_row(rows@, 0) is Some,
        r matches Err(e) ==> e is AsyncSqlite && e->AsyncSqlite_0@ == spec_date_conversion_message(
            spec_parse_rfc3339(rows@[spec_first_bad_row(rows@, 0)->Some_0].0.publication_date@)->Err_0,
        ),
        r matches Ok(ps) ==> ps@.len() == rows@.len() && forall|i: int|
            0 <= i < rows@.len() ==> spec_row_paper(rows@[i].0, rows@[i].1@, #[trigger] ps@[i]),
{
    let ghost all = rows@;
    let mut rest = rows;
    let mut out: Vec<Paper> = Vec::new();
    let ghost mut i: int = 0;
    assert(all.skip(0) =~= all);
    while rest.len() > 0
        invariant
            0 <= i <= all.len(),
            all == rows@,
            rest@ == all.skip(i),
            out@.len() == i,
            forall|j: int| 0 <= j < i ==> spec_row_paper(all[j].0, all[j].1@, #[trigger] out@[j]),
            spec_first_bad_row(all, 0) == spec_first_bad_row(all, i),
        decreases rest.len(),
    {
        let (row, authors) = rest.remove(0);
        assert((row, authors) == all[i]);
        let ghost pd = row.publication_date@;
        match row.into_paper(authors) {
            Ok(p) => {
                out.push(p);
            },
            Err(e) => {
                assert(spec_first_bad_row(all, i) == Some(i));
                let m = match e {
                    LearnerError::Database(m) => m,
                    _ => String::new(),
                };
                let msg = concat(concat(DATE_CONVERSION_PREFIX, m.as_str()).as_str(), DATE_CONVERSION_SUFFIX);
                return Err(LearnerError::AsyncSqlite(msg));
            },
        }
        proof {
            i = i + 1;
        }
        assert(rest@ =~= all.skip(i));
    }
    Ok(out)
}

} // verus!
