use vstd::prelude::*;

verus! {

/// The command line of a run: the documents to read, and optionally the
/// selection text, the condition text and the key to sort by.
#[derive(Debug)]
pub struct Cli {
    pub files: Vec<String>,
    pub select: Option<String>,
    pub condition: Option<String>,
    pub order_by: Option<String>,
}

} // verus!
