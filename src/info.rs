//! Editor information carried in an info document.
use vstd::prelude::*;

verus! {

/// The version of the editor that last wrote a document.
pub struct Edda {
    pub version: String,
}

/// The editors that worked on a document.
pub struct Editors {
    pub edda: Edda,
    pub last_edited_by: String,
}

} // verus!
