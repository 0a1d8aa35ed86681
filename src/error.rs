use vstd::prelude::*;

verus! {

/// The stage of reading the document that failed.
#[derive(Debug, Clone, Copy, PartialEq, Eq, Structural)]
pub enum DecodeStage {
    /// The file's bytes are not UTF-8.
    Utf8,
    /// The text is not JSON of nested string-keyed objects with string leaves.
    Json,
    /// The JSON lacks the `data` mapping, or an article lacks a field or a
    /// readable timestamp.
    Shape,
}

/// Why an operation of the repository failed.
#[derive(Debug, Clone, Copy, PartialEq, Eq, Structural)]
pub enum RepoError {
    /// No article is stored under the requested id.
    NotFound,
    /// The stored document could not be read.
    Decode(DecodeStage),
    /// The document could not be written out as JSON.
    Encode,
}

} // verus!
