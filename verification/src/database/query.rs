//! Queries for retrieving papers: their criteria, the SQL they run, and the
//! order of their results.
use vstd::prelude::*;

use crate::database::models::{
    into_papers, spec_date_conversion_message, spec_first_bad_row, spec_row_paper, AuthorRow, PaperRow,
};
use crate::datetime::{spec_parse_rfc3339, spec_rfc3339, Timestamp};
use crate::error::LearnerError;
use crate::resource::Paper;
use crate::text::{
    ints, chars_of, concat, lex_le, lex_le_exec, lowercase, owned, lemma_lex_refl, lemma_lex_total, lemma_lex_trans,
    spec_lowercase,
};

verus! {

/// Represents different ways to query papers in the database.
#[derive(Debug)]
pub enum QueryCriteria {
    /// Full-text search across titles and abstracts
    Text(String),
    /// Case-insensitive full-text search: the terms, lower-cased, matched
    /// as they are (no prefix matching)
    Search(String),
    /// Direct lookup by source system and identifier
    SourceId {
        /// The source system (e.g., arXiv, DOI)
        source: String,
        /// The source-specific identifier
        identifier: String,
    },
    /// Search by author name with partial matching
    Author(String),
    /// Retrieve the complete paper collection
    All,
    /// Filter papers by publication date
    BeforeDate(Timestamp),
}

/// Available fields for ordering query results.
#[derive(Clone, Copy, PartialEq, Eq, Structural, Debug)]
pub enum OrderField {
    /// Order alphabetically by paper title
    Title,
    /// Order chronologically by publication date
    PublicationDate,
    /// Order by source system and identifier
    Source,
}

/// The SQL columns an ordering field sorts by.
pub open spec fn spec_order_sql(f: OrderField) -> Seq<char> {
    match f {
        OrderField::Title => "title"@,
        OrderField::PublicationDate => "publication_date"@,
        OrderField::Source => "source, source_identifier"@,
    }
}

impl OrderField {
    /// Converts the ordering field to its SQL representation.
    pub fn as_sql_str(&self) -> (r: &'static str)
        ensures
            r@ == spec_order_sql(*self),
    {
        match self {
            OrderField::Title => "title",
            OrderField::PublicationDate => "publication_date",
            OrderField::Source => "source, source_identifier",
        }
    }
}

/// A query builder for retrieving papers from the database.
#[derive(Debug)]
pub struct Query {
    criteria: QueryCriteria,
    order_by: Option<OrderField>,
    descending: bool,
}

/// The SQL that selects the ids of the papers matching the criteria.
pub open spec fn spec_criteria_sql(c: QueryCriteria) -> Seq<char> {
    match c {
        QueryCriteria::Text(_) => TEXT_SQL@,
        QueryCriteria::Search(_) => SEARCH_SQL@,
        QueryCriteria::SourceId { .. } => SOURCE_SQL@,
        QueryCriteria::Author(_) => AUTHOR_SQL@,
        QueryCriteria::All => ALL_SQL@,
        QueryCriteria::BeforeDate(_) => BEFORE_SQL@,
    }
}

/// The parameters bound to the criteria SQL.
pub open spec fn spec_criteria_params(c: QueryCriteria) -> Seq<Seq<char>> {
    match c {
        QueryCriteria::Text(q) => seq![q@],
        QueryCriteria::Search(q) => seq![q@],
        QueryCriteria::SourceId { source, identifier } => seq![source@, identifier@],
        QueryCriteria::Author(name) => seq!["%"@ + name@ + "%"@],
        QueryCriteria::All => Seq::<Seq<char>>::empty(),
        QueryCriteria::BeforeDate(d) => seq![spec_rfc3339(d.spec_secs(), d.spec_nanos())],
    }
}

/// The SQL that fetches one paper by id, ordered as the query asks.
pub open spec fn spec_paper_sql(order_by: Option<OrderField>, descending: bool) -> Seq<char> {
    match order_by {
        Some(f) => PAPER_SQL@ + " ORDER BY "@ + spec_order_sql(f) + " "@ + (if descending {
            "DESC"@
        } else {
            "ASC"@
        }),
        None => PAPER_SQL@,
    }
}

/// Full-text search over titles and abstracts.
pub const TEXT_SQL: &'static str = "SELECT p.id
                 FROM papers p
                 JOIN papers_fts f ON p.id = f.rowid
                 WHERE papers_fts MATCH ?1 || '*'
                 ORDER BY rank";

/// Case-insensitive full-text search over titles and abstracts, best match
/// first.
pub const SEARCH_SQL: &'static str = "SELECT p.id
                 FROM papers p
                 JOIN papers_fts f ON p.id = f.rowid
                 WHERE papers_fts MATCH ?1 
                 ORDER BY rank";

/// Lookup by source and identifier.
pub const SOURCE_SQL: &'static str = "SELECT id FROM papers 
                 WHERE source = ?1 AND source_identifier = ?2";

/// Partial match on author names.
pub const AUTHOR_SQL: &'static str = "SELECT DISTINCT p.id
                 FROM papers p
                 JOIN authors a ON p.id = a.paper_id
                 WHERE a.name LIKE ?1";

/// Every paper.
pub const ALL_SQL: &'static str = "SELECT id FROM papers";

/// Papers published before a date.
pub const BEFORE_SQL: &'static str = "SELECT id FROM papers 
                 WHERE publication_date < ?1";

/// Fetches the columns of one paper by id.
pub const PAPER_SQL: &'static str = "SELECT title, abstract_text, publication_date,
                           source, source_identifier, pdf_url, doi
                    FROM papers 
                    WHERE id = ?1";

/// Fetches the authors of one paper by id.
pub const AUTHORS_SQL: &'static str = "SELECT name, affiliation, email
                     FROM authors
                     WHERE paper_id = ?";

impl Query {
    /// The search criteria.
    pub closed spec fn spec_criteria(&self) -> QueryCriteria {
        self.criteria
    }

    /// The field results are ordered by, if any.
    pub closed spec fn spec_order_by(&self) -> Option<OrderField> {
        self.order_by
    }

    /// Whether results are ordered from last to first.
    pub closed spec fn spec_descending(&self) -> bool {
        self.descending
    }

    /// Creates a new query with the given criteria, unordered and ascending.
    pub fn new(criteria: QueryCriteria) -> (r: Query)
        ensures
            r.spec_criteria() == criteria,
            r.spec_order_by() is None,
            !r.spec_descending(),
    {
        Query { criteria, order_by: None, descending: false }
    }

    /// Creates a full-text search query.
    pub fn text(query: &str) -> (r: Query)
        ensures
            r.spec_criteria() matches QueryCriteria::Text(q) && q@ == query@,
            r.spec_order_by() is None,
            !r.spec_descending(),
    {
        Query::new(QueryCriteria::Text(owned(query)))
    }

    /// Creates a case-insensitive full-text search query: the search text is
    /// lower-cased.
    pub fn search(query: &str) -> (r: Query)
        ensures
            r.spec_criteria() matches QueryCriteria::Search(q) && q@ == spec_lowercase(query@),
            r.spec_order_by() is None,
            !r.spec_descending(),
    {
        Query::new(QueryCriteria::Search(lowercase(query)))
    }

    /// Creates a query to find a specific paper by its source and identifier.
    pub fn by_paper(paper: &Paper) -> (r: Query)
        ensures
            r.spec_criteria() matches QueryCriteria::SourceId { source, identifier } && source@
                == paper.source@ && identifier@ == paper.source_identifier@,
            r.spec_order_by() is None,
            !r.spec_descending(),
    {
        Query::new(
            QueryCriteria::SourceId {
                source: paper.source.clone(),
                identifier: paper.source_identifier.clone(),
            },
        )
    }

    /// Creates a query to find a paper by its source and identifier.
    pub fn by_source(source: &str, identifier: &str) -> (r: Query)
        ensures
            r.spec_criteria() matches QueryCriteria::SourceId { source: s, identifier: i } && s@
                == source@ && i@ == identifier@,
            r.spec_order_by() is None,
            !r.spec_descending(),
    {
        Query::new(QueryCriteria::SourceId { source: owned(source), identifier: owned(identifier) })
    }

    /// Creates a query to find papers by author name (partial match).
    pub fn by_author(name: &str) -> (r: Query)
        ensures
            r.spec_criteria() matches QueryCriteria::Author(n) && n@ == name@,
            r.spec_order_by() is None,
            !r.spec_descending(),
    {
        Query::new(QueryCriteria::Author(owned(name)))
    }

    /// Creates a query that returns all papers.
    pub fn list_all() -> (r: Query)
        ensures
            r.spec_criteria() is All,
            r.spec_order_by() is None,
            !r.spec_descending(),
    {
        Query::new(QueryCriteria::All)
    }

    /// Creates a query for papers published before a date.
    pub fn before_date(date: Timestamp) -> (r: Query)
        ensures
            r.spec_criteria() == QueryCriteria::BeforeDate(date),
            r.spec_order_by() is None,
            !r.spec_descending(),
    {
        Query::new(QueryCriteria::BeforeDate(date))
    }

    /// Sets the field to order results by.
    pub fn order_by(self, field: OrderField) -> (r: Query)
        ensures
            r.spec_criteria() == self.spec_criteria(),
            r.spec_order_by() == Some(field),
            r.spec_descending() == self.spec_descending(),
    {
        Query { criteria: self.criteria, order_by: Some(field), descending: self.descending }
    }

    /// Sets the order to descending (default is ascending).
    pub fn descending(self) -> (r: Query)
        ensures
            r.spec_criteria() == self.spec_criteria(),
            r.spec_order_by() == self.spec_order_by(),
            r.spec_descending(),
    {
        Query { criteria: self.criteria, order_by: self.order_by, descending: true }
    }

    /// The field results are ordered by, if any.
    pub fn ordering(&self) -> (r: Option<OrderField>)
        ensures
            r == self.spec_order_by(),
    {
        self.order_by
    }

    /// Whether results are ordered from last to first.
    pub fn is_descending(&self) -> (r: bool)
        ensures
            r == self.spec_descending(),
    {
        self.descending
    }

    /// Builds the SQL and parameters for retrieving paper ids matching the
    /// criteria.
    pub fn build_criteria_sql(&self) -> (r: (String, Vec<String>))
        ensures
            r.0@ == spec_criteria_sql(self.spec_criteria()),
            r.1@.len() == spec_criteria_params(self.spec_criteria()).len(),
            forall|i: int|
                0 <= i < r.1@.len() ==> #[trigger] r.1@[i]@ == spec_criteria_params(
                    self.spec_criteria(),
                )[i],
    {
        match &self.criteria {
            QueryCriteria::Text(q) => {
                let mut params = Vec::new();
                params.push(q.clone());
                (owned(TEXT_SQL), params)
            },
            QueryCriteria::Search(q) => {
                let mut params = Vec::new();
                params.push(q.clone());
                (owned(SEARCH_SQL), params)
            },
            QueryCriteria::SourceId { source, identifier } => {
                let mut params = Vec::new();
                params.push(source.clone());
                params.push(identifier.clone());
                (owned(SOURCE_SQL), params)
            },
            QueryCriteria::Author(name) => {
                let a = concat("%", name.as_str());
                let pattern = concat(a.as_str(), "%");
                let mut params = Vec::new();
                params.push(pattern);
                (owned(AUTHOR_SQL), params)
            },
            QueryCriteria::All => (owned(ALL_SQL), Vec::new()),
            QueryCriteria::BeforeDate(date) => {
                let mut params = Vec::new();
                params.push(date.to_rfc3339());
                (owned(BEFORE_SQL), params)
            },
        }
    }

    /// Builds the SQL for retrieving the complete data of one paper.
    pub fn build_paper_sql(&self) -> (r: String)
        ensures
            r@ == spec_paper_sql(self.spec_order_by(), self.spec_descending()),
    {
        match self.order_by {
            Some(field) => {
                let direction = if self.descending {
                    "DESC"
                } else {
                    "ASC"
                };
                let a = concat(PAPER_SQL, " ORDER BY ");
                let b = concat(a.as_str(), field.as_sql_str());
                let c = concat(b.as_str(), " ");
                concat(c.as_str(), direction)
            },
            None => owned(PAPER_SQL),
        }
    }
}

// ---------------------------------------------------------------------------
// Ordering of results
// ---------------------------------------------------------------------------

/// Character codes of a text.
pub open spec fn spec_codes(s: Seq<char>) -> Seq<int> {
    s.map_values(|c: char| (c as u32) as int)
}

/// Character codes of a text, each shifted up by one (so that 0 can separate
/// two texts without changing their order).
pub open spec fn spec_codes_shifted(s: Seq<char>) -> Seq<int> {
    s.map_values(|c: char| (c as u32) as int + 1)
}

/// The key a paper is ordered by: its title; its publication instant as
/// (seconds, nanoseconds); or its source then its identifier.
pub open spec fn order_key(p: Paper, f: OrderField) -> Seq<int> {
    match f {
        OrderField::Title => spec_codes(p.title@),
        OrderField::PublicationDate => seq![
            p.publication_date.spec_secs() as int,
            p.publication_date.spec_nanos() as int,
        ],
        OrderField::Source => spec_codes_shifted(p.source@) + seq![0int] + spec_codes_shifted(
            p.source_identifier@,
        ),
    }
}

/// Key `a` may come before key `b` in the requested direction.
pub open spec fn key_before(a: Seq<int>, b: Seq<int>, descending: bool) -> bool {
    if descending {
        lex_le(b, a)
    } else {
        lex_le(a, b)
    }
}

/// The papers are in order of their keys, in the requested direction.
pub open spec fn sorted_by(s: Seq<Paper>, f: OrderField, descending: bool) -> bool {
    forall|i: int, j: int|
        0 <= i < j < s.len() ==> key_before(
            #[trigger] order_key(s[i], f),
            #[trigger] order_key(s[j], f),
            descending,
        )
}

/// The papers whose key is `k`.
pub open spec fn has_key(f: OrderField, k: Seq<int>) -> spec_fn(Paper) -> bool {
    |p: Paper| order_key(p, f) == k
}

/// Papers with equal keys keep their relative order: for every key, the
/// papers with that key appear in `a` in the order they appear in `b`.
pub open spec fn same_order_within_keys(a: Seq<Paper>, b: Seq<Paper>, f: OrderField) -> bool {
    forall|k: Seq<int>| #[trigger] a.filter(has_key(f, k)) == b.filter(has_key(f, k))
}

proof fn lemma_key_before_total(a: Seq<int>, b: Seq<int>, d: bool)
    ensures
        key_before(a, b, d) || key_before(b, a, d),
{
    lemma_lex_total(a, b);
}

proof fn lemma_key_before_trans(a: Seq<int>, b: Seq<int>, c: Seq<int>, d: bool)
    requires
        key_before(a, b, d),
        key_before(b, c, d),
    ensures
        key_before(a, c, d),
{
    if d {
        lemma_lex_trans(c, b, a);
    } else {
        lemma_lex_trans(a, b, c);
    }
}

proof fn lemma_key_before_refl(a: Seq<int>, d: bool)
    ensures
        key_before(a, a, d),
{
    lemma_lex_refl(a);
}

fn codes(s: &String, shift: i64) -> (r: Vec<i64>)
    requires
        0 <= shift <= 1,
    ensures
        ints(r@) == s@.map_values(|c: char| (c as u32) as int + shift),
{
    let x = chars_of(s.as_str());
    let mut out: Vec<i64> = Vec::new();
    let mut i: usize = 0;
    while i < x.len()
        invariant
            i <= x.len(),
            x@ == s@,
            0 <= shift <= 1,
            out@.len() == i,
            forall|j: int| 0 <= j < i ==> #[trigger] out@[j] as int == (x@[j] as u32) as int + shift,
        decreases x.len() - i,
    {
        let c = x[i];
        let u: u32 = c as u32;
        let v: i64 = u as i64 + shift;
        out.push(v);
        i = i + 1;
    }
    assert(ints(out@) =~= s@.map_values(|c: char| (c as u32) as int + shift));
    out
}

/// Computes the ordering key of a paper.
fn paper_key(p: &Paper, f: OrderField) -> (r: Vec<i64>)
    ensures
        ints(r@) == order_key(*p, f),
{
    match f {
        OrderField::Title => {
            let r = codes(&p.title, 0);
            assert(p.title@.map_values(|c: char| (c as u32) as int + 0) =~= spec_codes(p.title@));
            r
        },
        OrderField::PublicationDate => {
            let mut r: Vec<i64> = Vec::new();
            r.push(p.publication_date.secs());
            r.push(p.publication_date.nanos() as i64);
            assert(ints(r@) =~= order_key(*p, f));
            r
        },
        OrderField::Source => {
            let mut a = codes(&p.source, 1);
            let mut b = codes(&p.source_identifier, 1);
            let ghost sa = a@;
            let ghost sb = b@;
            a.push(0);
            a.append(&mut b);
            assert(a@ =~= sa.push(0) + sb);
            assert(ints(a@) =~= order_key(*p, f));
            a
        },
    }
}

fn key_before_exec(a: &Vec<i64>, b: &Vec<i64>, descending: bool) -> (r: bool)
    ensures
        r == key_before(
            ints(a@),
            ints(b@),
            descending,
        ),
{
    if descending {
        lex_le_exec(b, a)
    } else {
        lex_le_exec(a, b)
    }
}

/// Orders papers stably by the given field: the result holds the same
/// papers, in key order (from last to first when `descending`), and papers
/// with equal keys keep their relative order. Without a field the papers are
/// returned unchanged.
#[verifier::rlimit(40)]
pub fn sort_papers(papers: Vec<Paper>, order_by: Option<OrderField>, descending: bool) -> (r: Vec<
    Paper,
>)
    ensures
        order_by is None ==> r@ == papers@,
        r@.to_multiset() == papers@.to_multiset(),
        order_by matches Some(f) ==> sorted_by(r@, f, descending),
        order_by matches Some(f) ==> same_order_within_keys(r@, papers@, f),
{
    let f = match order_by {
        None => return papers,
        Some(f) => f,
    };
    let ghost input = papers@;
    let mut rest = papers;
    let mut out: Vec<Paper> = Vec::new();
    let mut keys: Vec<Vec<i64>> = Vec::new();
    let ghost mut i: int = 0;
    assert(input.take(0) =~= Seq::<Paper>::empty());
    assert(input.skip(0) =~= input);
    while rest.len() > 0
        invariant
            0 <= i <= input.len(),
            rest@ == input.skip(i),
            keys@.len() == out@.len(),
            forall|j: int|
                0 <= j < out@.len() ==> #[trigger] ints(keys@[j]@)
                    == order_key(out@[j], f),
            sorted_by(out@, f, descending),
            out@.to_multiset() == input.take(i).to_multiset(),
            same_order_within_keys(out@, input.take(i), f),
        decreases rest.len(),
    {
        let p = rest.remove(0);
        let ghost pk = order_key(p, f);
        assert(p == input[i]);
        let k = paper_key(&p, f);
        let mut pos: usize = out.len();
        while pos > 0 && !key_before_exec(&keys[pos - 1], &k, descending)
            invariant
                pos <= out@.len(),
                keys@.len() == out@.len(),
                ints(k@) == pk,
                forall|j: int|
                    0 <= j < out@.len() ==> #[trigger] ints(keys@[j]@)
                        == order_key(out@[j], f),
                forall|j: int| pos <= j < out@.len() ==> !key_before(#[trigger] order_key(out@[j], f), pk, descending),
            decreases pos,
        {
            pos = pos - 1;
        }
        let ghost old_out = out@;
        proof {
            // Everything before `pos` comes no later than the new paper.
            if pos > 0 {
                assert(key_before(order_key(old_out[pos - 1], f), pk, descending));
                assert forall|j: int| 0 <= j < pos implies key_before(#[trigger] order_key(old_out[j], f), pk, descending) by {
                    if j < pos - 1 {
                        lemma_key_before_trans(order_key(old_out[j], f), order_key(old_out[pos - 1], f), pk, descending);
                    }
                }
            }
            // Everything from `pos` on comes strictly after it.
            assert forall|j: int| pos <= j < old_out.len() implies key_before(pk, #[trigger] order_key(old_out[j], f), descending)
                && order_key(old_out[j], f) != pk by {
                lemma_key_before_total(pk, order_key(old_out[j], f), descending);
                if order_key(old_out[j], f) == pk {
                    lemma_key_before_refl(pk, descending);
                }
            }
        }
        out.insert(pos, p);
        keys.insert(pos, k);
        let ghost new_out = out@;
        proof {
            old_out.insert_ensures(pos as int, p);
            assert(new_out == old_out.insert(pos as int, p));
            // sortedness
            assert forall|a: int, b: int| 0 <= a < b < new_out.len() implies key_before(
                #[trigger] order_key(new_out[a], f),
                #[trigger] order_key(new_out[b], f),
                descending,
            ) by {
                if b < pos {
                    assert(new_out[a] == old_out[a] && new_out[b] == old_out[b]);
                } else if b == pos {
                    assert(new_out[a] == old_out[a]);
                } else if a < pos {
                    assert(new_out[a] == old_out[a] && new_out[b] == old_out[b - 1]);
                    lemma_key_before_trans(order_key(old_out[a], f), pk, order_key(old_out[b - 1], f), descending);
                } else if a == pos {
                    assert(new_out[b] == old_out[b - 1]);
                } else {
                    assert(new_out[a] == old_out[a - 1] && new_out[b] == old_out[b - 1]);
                }
            }
            // keys
            assert forall|j: int| 0 <= j < new_out.len() implies #[trigger] ints(keys@[j]@)
                == order_key(new_out[j], f) by {
                if j < pos {
                    assert(new_out[j] == old_out[j]);
                } else if j > pos {
                    assert(new_out[j] == old_out[j - 1]);
                }
            }
            // multiset
            let front = old_out.subrange(0, pos as int);
            let back = old_out.subrange(pos as int, old_out.len() as int);
            assert(old_out =~= front + back);
            assert(new_out =~= front.push(p) + back);
            vstd::seq_lib::lemma_multiset_commutative(front, back);
            vstd::seq_lib::lemma_multiset_commutative(front.push(p), back);
            front.to_multiset_ensures();
            input.take(i).to_multiset_ensures();
            assert(input.take(i + 1) =~= input.take(i).push(p));
            assert(new_out.to_multiset() =~= old_out.to_multiset().insert(p));
            // relative order within keys
            assert forall|key: Seq<int>| #[trigger] new_out.filter(has_key(f, key)) == input.take(i + 1).filter(has_key(f, key)) by {
                let pred = has_key(f, key);
                Seq::filter_distributes_over_add(front, back, pred);
                Seq::filter_distributes_over_add(front.push(p), back, pred);
                assert(old_out.filter(pred) == input.take(i).filter(pred));
                reveal(Seq::filter);
                assert(front.push(p).drop_last() =~= front);
                assert(input.take(i + 1).drop_last() =~= input.take(i));
                if pk == key {
                    assert forall|j: int| 0 <= j < back.len() implies !pred(#[trigger] back[j]) by {
                        assert(back[j] == old_out[pos + j]);
                    }
                    back.lemma_all_neg_filter_empty(pred);
                    assert(back.filter(pred) =~= Seq::<Paper>::empty());
                    assert(front.filter(pred) + back.filter(pred) =~= front.filter(pred));
                    assert(front.push(p).filter(pred) + back.filter(pred) =~= front.filter(pred).push(p));
                } else {
                    assert(!pred(p));
                }
            }
        }
        proof {
            i = i + 1;
        }
        assert(rest@ =~= input.skip(i));
    }
    assert(input.take(i) =~= input);
    out
}


impl Query {
    /// The query's result from the rows that it read, each paper row with its
    /// authors' rows: the papers they convert to, in the order the query asks
    /// for (as read, when it asks for none). A row whose date does not parse
    /// makes the error.
    pub fn papers_from_rows(&self, rows: Vec<(PaperRow, Vec<AuthorRow>)>) -> (r: Result<Vec<Paper>, LearnerError>)
        ensures
            r is Err <==> spec_first_bad_row(rows@, 0) is Some,
            r matches Err(e) ==> e is AsyncSqlite && e->AsyncSqlite_0@ == spec_date_conversion_message(
                spec_parse_rfc3339(rows@[spec_first_bad_row(rows@, 0)->Some_0].0.publication_date@)->Err_0,
            ),
            r matches Ok(ps) ==> exists|read: Seq<Paper>|
                #![trigger read.to_multiset()]
                {
                    &&& read.len() == rows@.len()
                    &&& forall|i: int| 0 <= i < rows@.len() ==> spec_row_paper(rows@[i].0, rows@[i].1@, #[trigger] read[i])
                    &&& ps@.to_multiset() == read.to_multiset()
                    &&& self.spec_order_by() is None ==> ps@ == read
                    &&& self.spec_order_by() matches Some(f) ==> sorted_by(ps@, f, self.spec_descending())
                        && same_order_within_keys(ps@, read, f)
                },
    {
        let papers = into_papers(rows)?;
        let ghost read = papers@;
        let sorted = sort_papers(papers, self.order_by, self.descending);
        assert(sorted@.to_multiset() == read.to_multiset());
        Ok(sorted)
    }
}
/// Text `a` comes no later than text `b` in the order of character codes:
/// `a` is a prefix of `b`, or at the first position where they differ the
/// character of `a` has the smaller code.
pub open spec fn text_le(a: Seq<char>, b: Seq<char>) -> bool {
    ||| a.len() <= b.len() && forall|m: int| 0 <= m < a.len() ==> (#[trigger] a[m] as u32) == (b[m] as u32)
    ||| exists|k: int|
        0 <= k < a.len() && k < b.len() && (forall|m: int| 0 <= m < k ==> (#[trigger] a[m] as u32) == (b[m] as u32))
            && (#[trigger] a[k] as u32) < (b[k] as u32)
}

proof fn lemma_lex_codes_text_le(a: Seq<char>, b: Seq<char>)
    requires
        lex_le(spec_codes(a), spec_codes(b)),
    ensures
        text_le(a, b),
    decreases a.len(),
{
    if a.len() > 0 {
        let ca = spec_codes(a);
        let cb = spec_codes(b);
        assert(cb.len() == b.len());
        assert(ca[0] == (a[0] as u32) as int);
        assert(cb[0] == (b[0] as u32) as int);
        if ca[0] < cb[0] {
            assert((a[0] as u32) < (b[0] as u32));
        } else {
            assert(a[0] as u32 == b[0] as u32);
            assert(ca.drop_first() =~= spec_codes(a.drop_first()));
            assert(cb.drop_first() =~= spec_codes(b.drop_first()));
            lemma_lex_codes_text_le(a.drop_first(), b.drop_first());
            let a1 = a.drop_first();
            let b1 = b.drop_first();
            if a1.len() <= b1.len() && forall|m: int| 0 <= m < a1.len() ==> (#[trigger] a1[m] as u32) == (b1[m] as u32) {
                assert forall|m: int| 0 <= m < a.len() implies (#[trigger] a[m] as u32) == (b[m] as u32) by {
                    if m > 0 {
                        assert(a[m] == a1[m - 1]);
                        assert(b[m] == b1[m - 1]);
                    }
                }
            } else {
                let k = choose|k: int|
                    0 <= k < a1.len() && k < b1.len() && (forall|m: int|
                        0 <= m < k ==> (#[trigger] a1[m] as u32) == (b1[m] as u32)) && (#[trigger] a1[k] as u32) < (
                    b1[k] as u32);
                assert(a[k + 1] == a1[k]);
                assert(b[k + 1] == b1[k]);
                assert forall|m: int| 0 <= m < k + 1 implies (#[trigger] a[m] as u32) == (b[m] as u32) by {
                    if m > 0 {
                        assert(a[m] == a1[m - 1]);
                        assert(b[m] == b1[m - 1]);
                    }
                }
                assert((a[k + 1] as u32) < (b[k + 1] as u32));
            }
        }
    }
}

/// Papers in order of a field come in that field's natural order: by title,
/// the whole titles in the order of their character codes; by publication
/// date, chronologically (seconds, then nanoseconds); either way reversed
/// when descending.
pub proof fn lemma_sorted_papers_order(s: Seq<Paper>)
    ensures
        sorted_by(s, OrderField::Title, false) ==> forall|i: int, j: int|
            0 <= i < j < s.len() ==> text_le(#[trigger] s[i].title@, #[trigger] s[j].title@),
        sorted_by(s, OrderField::Title, true) ==> forall|i: int, j: int|
            0 <= i < j < s.len() ==> text_le(#[trigger] s[j].title@, #[trigger] s[i].title@),
        sorted_by(s, OrderField::PublicationDate, false) ==> forall|i: int, j: int|
            0 <= i < j < s.len() ==> {
                let (a, b) = (#[trigger] s[i].publication_date, #[trigger] s[j].publication_date);
                a.spec_secs() < b.spec_secs() || (a.spec_secs() == b.spec_secs() && a.spec_nanos()
                    <= b.spec_nanos())
            },
        sorted_by(s, OrderField::PublicationDate, true) ==> forall|i: int, j: int|
            0 <= i < j < s.len() ==> {
                let (a, b) = (#[trigger] s[j].publication_date, #[trigger] s[i].publication_date);
                a.spec_secs() < b.spec_secs() || (a.spec_secs() == b.spec_secs() && a.spec_nanos()
                    <= b.spec_nanos())
            },
{
    assert forall|i: int, j: int|
        0 <= i < j < s.len() && sorted_by(s, OrderField::Title, false) implies text_le(
        #[trigger] s[i].title@,
        #[trigger] s[j].title@,
    ) by {
        assert(key_before(order_key(s[i], OrderField::Title), order_key(s[j], OrderField::Title), false));
        lemma_lex_codes_text_le(s[i].title@, s[j].title@);
    }
    assert forall|i: int, j: int|
        0 <= i < j < s.len() && sorted_by(s, OrderField::Title, true) implies text_le(
        #[trigger] s[j].title@,
        #[trigger] s[i].title@,
    ) by {
        assert(key_before(order_key(s[i], OrderField::Title), order_key(s[j], OrderField::Title), true));
        lemma_lex_codes_text_le(s[j].title@, s[i].title@);
    }
    assert forall|i: int, j: int|
        0 <= i < j < s.len() && sorted_by(s, OrderField::PublicationDate, false) implies {
            let (a, b) = (#[trigger] s[i].publication_date, #[trigger] s[j].publication_date);
            a.spec_secs() < b.spec_secs() || (a.spec_secs() == b.spec_secs() && a.spec_nanos() <= b.spec_nanos())
        } by {
        let ka = order_key(s[i], OrderField::PublicationDate);
        let kb = order_key(s[j], OrderField::PublicationDate);
        assert(key_before(ka, kb, false));
        reveal_with_fuel(lex_le, 3);
        assert(ka.drop_first() =~= seq![ka[1]]);
        assert(kb.drop_first() =~= seq![kb[1]]);
        assert(ka.drop_first().drop_first().len() == 0);
    }
    assert forall|i: int, j: int|
        0 <= i < j < s.len() && sorted_by(s, OrderField::PublicationDate, true) implies {
            let (a, b) = (#[trigger] s[j].publication_date, #[trigger] s[i].publication_date);
            a.spec_secs() < b.spec_secs() || (a.spec_secs() == b.spec_secs() && a.spec_nanos() <= b.spec_nanos())
        } by {
        let ka = order_key(s[i], OrderField::PublicationDate);
        let kb = order_key(s[j], OrderField::PublicationDate);
        assert(key_before(ka, kb, true));
        reveal_with_fuel(lex_le, 3);
        assert(ka.drop_first() =~= seq![ka[1]]);
        assert(kb.drop_first() =~= seq![kb[1]]);
        assert(kb.drop_first().drop_first().len() == 0);
    }
}

} // verus!
