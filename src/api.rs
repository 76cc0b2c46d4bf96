//! The values that the search interface receives and returns.

use vstd::prelude::*;

verus! {

/// A search request: the free-text query.
pub struct Search {
    pub any: String,
}

/// One search result: the list item of a matching note.
pub struct QueryResult {
    pub file: String,
}

} // verus!
