//! The folder that the user names (first version of the prompt).
use vstd::prelude::*;
use crate::text::trim_whitespace;

verus! {

/// The folder to look for tracks in.
pub struct FolderParser {
    pub path: String,
}

impl FolderParser {
    /// The folder named by a line the user entered: the line with leading
    /// and trailing whitespace (the line break among it) removed.
    pub fn parser(input: &str) -> (res: Self)
        ensures
            res.path@ == crate::text::trim(input@),
    {
        let path = trim_whitespace(input);
        Self { path: path }
    }
}

} // verus!
