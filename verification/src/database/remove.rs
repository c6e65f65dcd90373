//! Removal of papers: which papers a removal selects, whether it deletes
//! them, and the SQL that deletes them with their authors and files.
use vstd::prelude::*;

use crate::database::query::{Query, QueryCriteria};
use crate::resource::Paper;
use crate::text::{concat, decimal_i64, join, owned, spec_decimal_int, spec_join, views};

verus! {

/// Configuration options for paper removal operations.
#[derive(Debug)]
pub struct RemoveOptions {
    /// When true, simulates the removal without modifying the database.
    pub dry_run: bool,
}

impl Default for RemoveOptions {
    fn default() -> (r: RemoveOptions)
        ensures
            !r.dry_run,
    {
        RemoveOptions { dry_run: false }
    }
}

/// Instruction for removing papers from the database.
#[derive(Debug)]
pub struct Remove {
    query: Query,
    options: RemoveOptions,
}

/// Looks up the database id of one paper.
pub const PAPER_ID_SQL: &'static str = "SELECT id FROM papers WHERE source = ? AND source_identifier = ?";

pub const DELETE_AUTHORS: &'static str = "DELETE FROM authors WHERE paper_id IN (";

pub const DELETE_FILES: &'static str = ");
                 DELETE FROM files WHERE paper_id IN (";

pub const DELETE_PAPERS: &'static str = ");
                 DELETE FROM papers WHERE id IN (";

pub const DELETE_END: &'static str = ");";

/// The ids, in decimal, separated by commas.
pub open spec fn spec_id_list(ids: Seq<i64>) -> Seq<char> {
    spec_join(ids.map_values(|id: i64| spec_decimal_int(id as int)), ","@)
}

/// The statements that delete the authors, the files and the papers with
/// the given ids, in that order.
pub open spec fn spec_remove_sql(ids: Seq<i64>) -> Seq<char> {
    DELETE_AUTHORS@ + spec_id_list(ids) + DELETE_FILES@ + spec_id_list(ids) + DELETE_PAPERS@
        + spec_id_list(ids) + DELETE_END@
}

impl Remove {
    /// The query that selects the papers to remove.
    pub closed spec fn spec_query(&self) -> Query {
        self.query
    }

    /// Whether the removal only reports what it would remove.
    pub closed spec fn spec_dry_run(&self) -> bool {
        self.options.dry_run
    }

    /// Creates a remove instruction from an existing query.
    pub fn from_query(query: Query) -> (r: Remove)
        ensures
            r.spec_query() == query,
            !r.spec_dry_run(),
    {
        Remove { query, options: RemoveOptions::default() }
    }

    /// Creates a remove instruction for a paper by its source and identifier.
    pub fn by_source(source: &str, identifier: &str) -> (r: Remove)
        ensures
            r.spec_query().spec_criteria() matches QueryCriteria::SourceId { source: s, identifier: i }
                && s@ == source@ && i@ == identifier@,
            r.spec_query().spec_order_by() is None,
            !r.spec_query().spec_descending(),
            !r.spec_dry_run(),
    {
        Remove::from_query(Query::by_source(source, identifier))
    }

    /// Creates a remove instruction for all papers by an author (partial match).
    pub fn by_author(name: &str) -> (r: Remove)
        ensures
            r.spec_query().spec_criteria() matches QueryCriteria::Author(n) && n@ == name@,
            r.spec_query().spec_order_by() is None,
            !r.spec_query().spec_descending(),
            !r.spec_dry_run(),
    {
        Remove::from_query(Query::by_author(name))
    }

    /// Enables dry run mode: the papers are reported, not removed.
    pub fn dry_run(self) -> (r: Remove)
        ensures
            r.spec_query() == self.spec_query(),
            r.spec_dry_run(),
    {
        Remove { query: self.query, options: RemoveOptions { dry_run: true } }
    }

    /// The query that selects the papers to remove.
    pub fn query(&self) -> (r: &Query)
        ensures
            *r == self.spec_query(),
    {
        &self.query
    }

    /// Whether the papers found by the query are deleted: only outside a dry
    /// run, and only when the query found any.
    pub open spec fn spec_deletes(&self, found: Seq<Paper>) -> bool {
        !self.spec_dry_run() && found.len() > 0
    }

    /// Whether the papers found by the query are to be deleted: only outside
    /// a dry run, and only when the query found any.
    pub fn deletes(&self, found: &Vec<Paper>) -> (r: bool)
        ensures
            r == self.spec_deletes(found@),
    {
        !self.options.dry_run && found.len() > 0
    }

    /// Builds the SQL and parameters that look up the database id of a paper.
    pub fn build_paper_ids_sql(paper: &Paper) -> (r: (String, Vec<Option<String>>))
        ensures
            r.0@ == PAPER_ID_SQL@,
            r.1@.len() == 2,
            r.1@[0] matches Some(s) && s@ == paper.source@,
            r.1@[1] matches Some(s) && s@ == paper.source_identifier@,
    {
        let mut params = Vec::new();
        params.push(Some(paper.source.clone()));
        params.push(Some(paper.source_identifier.clone()));
        (owned(PAPER_ID_SQL), params)
    }

    /// Builds the statements that delete papers and their related data (authors,
    /// files); the ids are written into the SQL, so there are no parameters.
    pub fn build_remove_sql(ids: &Vec<i64>) -> (r: (String, Vec<Option<String>>))
        ensures
            r.0@ == spec_remove_sql(ids@),
            r.1@.len() == 0,
    {
        let mut parts: Vec<String> = Vec::new();
        let mut i: usize = 0;
        while i < ids.len()
            invariant
                i <= ids.len(),
                parts@.len() == i,
                forall|j: int| 0 <= j < i ==> #[trigger] parts@[j]@ == spec_decimal_int(ids@[j] as int),
            decreases ids.len() - i,
        {
            parts.push(decimal_i64(ids[i]));
            i = i + 1;
        }
        let list = join(&parts, ",");
        assert(views(parts@) =~= ids@.map_values(|id: i64| spec_decimal_int(id as int)));
        let a = concat(DELETE_AUTHORS, list.as_str());
        let b = concat(a.as_str(), DELETE_FILES);
        let c = concat(b.as_str(), list.as_str());
        let d = concat(c.as_str(), DELETE_PAPERS);
        let e = concat(d.as_str(), list.as_str());
        let sql = concat(e.as_str(), DELETE_END);
        (sql, Vec::new())
    }

    /// The statements that delete the papers with the given ids, or none when
    /// no id was found.
    pub fn removal_sql(ids: &Vec<i64>) -> (r: Option<String>)
        ensures
            ids@.len() == 0 ==> r is None,
            ids@.len() > 0 ==> (r matches Some(s) && s@ == spec_remove_sql(ids@)),
    {
        if ids.len() == 0 {
            None
        } else {
            let (sql, _) = Remove::build_remove_sql(ids);
            Some(sql)
        }
    }
}

/// A dry run deletes nothing, whatever its query finds, and it runs the same
/// query as the removal it was made from: what it reports is what the
/// removal would delete.
pub proof fn lemma_dry_run_deletes_nothing(remove: Remove, dry: Remove, found: Seq<Paper>)
    requires
        dry.spec_dry_run(),
        dry.spec_query() == remove.spec_query(),
    ensures
        !dry.spec_deletes(found),
        dry.spec_query() == remove.spec_query(),
{
}

} // verus!
