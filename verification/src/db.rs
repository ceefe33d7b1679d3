//! Storage delivery: the mechanism identity and the row content that a
//! durable store receives.

use vstd::prelude::*;
use vstd::string::StringExecFns;
use crate::entry::DebriefResponse;
use crate::json::{entries_to_json, spec_render_entries};

verus! {

/// The durable-storage delivery mechanism.
pub struct DbDelivery {}

impl DbDelivery {
    pub fn get_name(&self) -> (r: String)
        ensures
            r@ == "db"@,
    {
        String::from_str("db")
    }
}

/// The row a storage delivery inserts: the digest serialized as canonical
/// JSON, and the run's reference instant.
pub fn build_storage_row(reference: u64, entries: &Vec<DebriefResponse>) -> (r: (String, u64))
    ensures
        r.0@ == spec_render_entries(entries.deep_view()),
        r.1 == reference,
{
    (entries_to_json(entries), reference)
}

} // verus!
