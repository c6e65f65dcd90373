//! Adding records: the SQL that stores a record.
use vstd::prelude::*;

use crate::record::Record;
use crate::text::owned;

verus! {

/// Stores a record: its title as its identifier, its type, and the JSON of
/// its resource, state, storage and retrieval data.
pub const RECORD_SQL: &'static str = "INSERT INTO resources (
                identifier, resource_type,
                resource, state, storage, retrieval
            ) VALUES (?, ?, ?, ?, ?, ?)";

/// Instruction for adding a record.
#[derive(Debug)]
pub struct Add<'a> {
    record: &'a Record,
}

impl<'a> Add<'a> {
    /// The record to add.
    pub closed spec fn spec_record(&self) -> Record {
        *self.record
    }

    /// An instruction to add a complete record.
    pub fn record(record: &'a Record) -> (r: Add<'a>)
        ensures
            r.spec_record() == *record,
    {
        Add { record }
    }

    /// The record to add.
    pub fn target(&self) -> (r: &'a Record)
        ensures
            *r == self.spec_record(),
    {
        self.record
    }

    /// The SQL that stores the record and its parameters: the title (the
    /// identifier), the type `paper`, and the JSON texts of the record's
    /// resource, state, storage and retrieval data, as given.
    pub fn build_record_sql(
        &self,
        resource_json: String,
        state_json: String,
        storage_json: String,
        retrieval_json: String,
    ) -> (r: (String, Vec<String>))
        ensures
            r.0@ == RECORD_SQL@,
            r.1@.len() == 6,
            r.1@[0]@ == self.spec_record().resource.title@,
            r.1@[1]@ == "paper"@,
            r.1@[2]@ == resource_json@,
            r.1@[3]@ == state_json@,
            r.1@[4]@ == storage_json@,
            r.1@[5]@ == retrieval_json@,
    {
        let mut params: Vec<String> = Vec::new();
        params.push(self.record.resource.title.clone());
        params.push(owned("paper"));
        params.push(resource_json);
        params.push(state_json);
        params.push(storage_json);
        params.push(retrieval_json);
        (owned(RECORD_SQL), params)
    }
}

} // verus!
