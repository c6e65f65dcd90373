//! Records: a resource together with what is tracked about it.
use vstd::prelude::*;

use crate::datetime::Timestamp;
use crate::json::{clone_entries, deep_all_entries, JsonSpec};
use crate::template::TemplatedItem;

verus! {

/// A resource with its reading state, its stored files and where it came
/// from.
#[derive(Debug)]
pub struct Record {
    pub resource: Resource,
    pub state: State,
    pub storage: Storage,
    pub retrieval: Retrieval,
}

/// What every resource has: a title, and the fields of its template.
#[derive(Debug)]
pub struct Resource {
    pub title: String,
    /// Extension point for additional fields.
    pub extended: TemplatedItem,
}

/// How far a resource has been read.
#[derive(Debug)]
pub enum Progress {
    Unopened,
    /// Opened, with the fraction read where known (an `f64`, as its bits).
    Opened(Option<u64>),
    Completed,
}

/// The reading state that every record tracks.
#[derive(Debug)]
pub struct State {
    pub progress: Progress,
    pub starred: bool,
    pub tags: Vec<String>,
    pub last_accessed: Option<Timestamp>,
    /// Extension point.
    pub extended: TemplatedItem,
}

/// The stored files that every record tracks.
#[derive(Debug)]
pub struct Storage {
    /// Files by role ("primary", "supplementary", ...), as paths.
    pub files: Vec<(String, String)>,
    pub added_at: Option<Timestamp>,
    /// Checksums by file role, for integrity.
    pub checksums: Vec<(String, String)>,
    /// Extension point.
    pub extended: TemplatedItem,
}

/// Where a record came from.
#[derive(Debug)]
pub struct Retrieval {
    /// The source it came from.
    pub source: String,
    /// Its identifier in that source.
    pub source_identifier: Option<String>,
    /// URLs by kind (HTML, PDF, ...).
    pub urls: Vec<(String, String)>,
    pub last_checked: Option<Timestamp>,
    /// Extension point.
    pub extended: TemplatedItem,
}

impl Default for State {
    fn default() -> (r: State)
        ensures
            r.progress is Unopened,
            !r.starred,
            r.tags@.len() == 0,
            r.last_accessed is None,
            r.extended@.len() == 0,
    {
        State { progress: Progress::Unopened, starred: false, tags: Vec::new(), last_accessed: None, extended: Vec::new() }
    }
}

impl Default for Storage {
    fn default() -> (r: Storage)
        ensures
            r.files@.len() == 0,
            r.added_at is None,
            r.checksums@.len() == 0,
            r.extended@.len() == 0,
    {
        Storage { files: Vec::new(), added_at: None, checksums: Vec::new(), extended: Vec::new() }
    }
}

impl Default for Retrieval {
    fn default() -> (r: Retrieval)
        ensures
            r.source@.len() == 0,
            r.source_identifier is None,
            r.urls@.len() == 0,
            r.last_checked is None,
            r.extended@.len() == 0,
    {
        Retrieval {
            source: String::new(),
            source_identifier: None,
            urls: Vec::new(),
            last_checked: None,
            extended: Vec::new(),
        }
    }
}


/// The text of an optional string.
pub open spec fn opt_text(o: Option<String>) -> Option<Seq<char>> {
    match o {
        Some(s) => Some(s@),
        None => None,
    }
}

/// The seconds and nanoseconds of an optional instant.
pub open spec fn opt_instant(o: Option<Timestamp>) -> Option<(i64, u32)> {
    match o {
        Some(t) => Some((t.spec_secs(), t.spec_nanos())),
        None => None,
    }
}

/// The texts of pairs of strings.
pub open spec fn pair_views(v: Seq<(String, String)>) -> Seq<(Seq<char>, Seq<char>)> {
    v.map_values(|p: (String, String)| (p.0@, p.1@))
}

impl Resource {
    /// The title and the entries of the resource.
    pub open spec fn view_resource(&self) -> (Seq<char>, Seq<(Seq<char>, JsonSpec)>) {
        (self.title@, deep_all_entries(self.extended@))
    }

    /// A copy of the resource.
    pub fn copy(&self) -> (r: Resource)
        ensures
            r.view_resource() == self.view_resource(),
    {
        Resource { title: self.title.clone(), extended: clone_entries(&self.extended) }
    }
}

fn copy_text(o: &Option<String>) -> (r: Option<String>)
    ensures
        opt_text(r) == opt_text(*o),
{
    match o {
        Some(s) => Some(s.clone()),
        None => None,
    }
}

fn copy_instant(o: &Option<Timestamp>) -> (r: Option<Timestamp>)
    ensures
        opt_instant(r) == opt_instant(*o),
{
    match o {
        Some(t) => Some(t.copy()),
        None => None,
    }
}

fn copy_pairs(v: &Vec<(String, String)>) -> (r: Vec<(String, String)>)
    ensures
        pair_views(r@) == pair_views(v@),
{
    let mut out: Vec<(String, String)> = Vec::new();
    let mut i: usize = 0;
    while i < v.len()
        invariant
            i <= v.len(),
            out@.len() == i,
            forall|j: int| 0 <= j < i ==> #[trigger] out@[j].0@ == v@[j].0@ && out@[j].1@ == v@[j].1@,
        decreases v.len() - i,
    {
        out.push((v[i].0.clone(), v[i].1.clone()));
        i = i + 1;
    }
    assert(pair_views(out@) =~= pair_views(v@));
    out
}

impl Retrieval {
    /// The source, identifier, URLs, time of the last check and entries.
    pub open spec fn view_retrieval(&self) -> (
        Seq<char>,
        Option<Seq<char>>,
        Seq<(Seq<char>, Seq<char>)>,
        Option<(i64, u32)>,
        Seq<(Seq<char>, JsonSpec)>,
    ) {
        (
            self.source@,
            opt_text(self.source_identifier),
            pair_views(self.urls@),
            opt_instant(self.last_checked),
            deep_all_entries(self.extended@),
        )
    }

    /// A copy of the retrieval data.
    pub fn copy(&self) -> (r: Retrieval)
        ensures
            r.view_retrieval() == self.view_retrieval(),
    {
        Retrieval {
            source: self.source.clone(),
            source_identifier: copy_text(&self.source_identifier),
            urls: copy_pairs(&self.urls),
            last_checked: copy_instant(&self.last_checked),
            extended: clone_entries(&self.extended),
        }
    }
}

} // verus!
