use vstd::prelude::*;

verus! {

/// Entry point for tag conversion of the crawled tracks.
///
/// Takes ownership of the list of track paths; tag conversion is not
/// implemented yet, so the call consumes the list and does nothing else.
pub fn parser(path_vec: Vec<String>) {
}

} // verus!
