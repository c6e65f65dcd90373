//! Error type of the library.
use vstd::prelude::*;

use crate::text::{concat, owned};

verus! {

/// Errors that can occur when working with the library.
///
/// Failures reported by outside services (network, SQLite, the file system,
/// PDF parsing, TOML and JSON decoding) are carried as their message text.
#[derive(Debug)]
pub enum LearnerError {
    /// The provided paper identifier doesn't match the expected format.
    InvalidIdentifier,
    /// The provided source type string couldn't be parsed.
    InvalidSource(String),
    /// A network request failed.
    Network(String),
    /// The requested paper couldn't be found.
    NotFound,
    /// An API returned an error response.
    ApiError(String),
    /// A SQLite operation failed.
    Sqlite(String),
    /// An async SQLite operation failed.
    AsyncSqlite(String),
    /// A file system operation failed.
    Path(String),
    /// A numeric conversion failed.
    ColumnOverflow(String),
    /// PDF parsing failed.
    Lopdf(String),
    /// No model was chosen for an LLM request.
    LLMMissingModel,
    /// No messages were supplied for an LLM request.
    LLMMissingMessage,
    /// A paper with this title was already in the database.
    DatabaseDuplicatePaper(String),
    /// Several retrievers matched an identifier; holds their sources.
    AmbiguousIdentifier(Vec<String>),
    /// TOML configuration could not be decoded.
    TomlDe(String),
    /// General configuration error.
    Config(String),
    /// JSON could not be encoded or decoded.
    SerdeJson(String),
    /// A resource does not conform to its configuration.
    InvalidResource(String),
    /// A value does not conform to its template.
    TemplateInvalidation(String),
    /// A database value could not be converted.
    Database(String),
}

/// The message of an error whose message is a fixed text or carries one text.
pub open spec fn spec_error_message(e: LearnerError) -> Option<Seq<char>> {
    match e {
        LearnerError::InvalidIdentifier => Some("Invalid identifier format"@),
        LearnerError::InvalidSource(_) => Some("Invalid source type, see `learner::paper::Source`"@),
        LearnerError::Network(m) => Some(m@),
        LearnerError::NotFound => Some("Paper not found"@),
        LearnerError::ApiError(m) => Some("API error: "@ + m@),
        LearnerError::Sqlite(m) => Some(m@),
        LearnerError::AsyncSqlite(m) => Some(m@),
        LearnerError::Path(m) => Some(m@),
        LearnerError::ColumnOverflow(m) => Some(m@),
        LearnerError::Lopdf(m) => Some(m@),
        LearnerError::LLMMissingModel => Some("No model was chosen for the LLM."@),
        LearnerError::LLMMissingMessage => Some("No messages were supplied to send to the LLM."@),
        LearnerError::DatabaseDuplicatePaper(t) => Some(
            "Tried to add a paper titled \""@ + t@ + "\" that was already in the database."@,
        ),
        LearnerError::AmbiguousIdentifier(_) => None,
        LearnerError::TomlDe(m) => Some(m@),
        LearnerError::Config(m) => Some(m@),
        LearnerError::SerdeJson(m) => Some(m@),
        LearnerError::InvalidResource(m) => Some(m@),
        LearnerError::TemplateInvalidation(m) => Some(m@),
        LearnerError::Database(m) => Some(m@),
    }
}

/// The text of a `Debug` rendering of a list of strings.
pub uninterp spec fn spec_debug_strings(v: Seq<Seq<char>>) -> Seq<char>;

/// Renders a list of strings with `{:?}` (std's `Debug` for `Vec<String>`).
/// The contract names the result; it says nothing more of it.
#[verifier::external_body]
pub(crate) fn debug_strings(v: &Vec<String>) -> (r: String)
    ensures
        r@ == spec_debug_strings(crate::text::views(v@)),
{
    format!("{:?}", v)
}

impl LearnerError {
    /// The human-readable message of the error.
    pub fn message(&self) -> (r: String)
        ensures
            spec_error_message(*self) matches Some(m) ==> r@ == m,
            self is AmbiguousIdentifier ==> r@ == "Retriever matched multiple different identifiers for a request: "@
                + spec_debug_strings(crate::text::views(self->AmbiguousIdentifier_0@)),
    {
        match self {
            LearnerError::InvalidIdentifier => owned("Invalid identifier format"),
            LearnerError::InvalidSource(_) => owned("Invalid source type, see `learner::paper::Source`"),
            LearnerError::Network(m) => m.clone(),
            LearnerError::NotFound => owned("Paper not found"),
            LearnerError::ApiError(m) => concat("API error: ", m.as_str()),
            LearnerError::Sqlite(m) => m.clone(),
            LearnerError::AsyncSqlite(m) => m.clone(),
            LearnerError::Path(m) => m.clone(),
            LearnerError::ColumnOverflow(m) => m.clone(),
            LearnerError::Lopdf(m) => m.clone(),
            LearnerError::LLMMissingModel => owned("No model was chosen for the LLM."),
            LearnerError::LLMMissingMessage => owned("No messages were supplied to send to the LLM."),
            LearnerError::DatabaseDuplicatePaper(t) => {
                let a = concat("Tried to add a paper titled \"", t.as_str());
                concat(a.as_str(), "\" that was already in the database.")
            },
            LearnerError::AmbiguousIdentifier(v) => {
                let d = debug_strings(v);
                concat(
                    "Retriever matched multiple different identifiers for a request: ",
                    d.as_str(),
                )
            },
            LearnerError::TomlDe(m) => m.clone(),
            LearnerError::Config(m) => m.clone(),
            LearnerError::SerdeJson(m) => m.clone(),
            LearnerError::InvalidResource(m) => m.clone(),
            LearnerError::TemplateInvalidation(m) => m.clone(),
            LearnerError::Database(m) => m.clone(),
        }
    }
}

} // verus!
