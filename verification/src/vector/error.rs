//! Errors of the vector builder, its embedders and its stores.

use vstd::prelude::*;

verus! {

#[derive(Debug)]
pub enum VectorError {
    Embed(String),
    Store(String),
    BadUri(String),
    Cancelled,
    /// Reading or writing failed, with what the system reported.
    Io(String),
}

/// What a [`VectorError`] reads as.
pub open spec fn vector_error_text(e: VectorError) -> Seq<char> {
    match e {
        VectorError::Embed(s) => "embedding failed: "@ + s@,
        VectorError::Store(s) => "vector store error: "@ + s@,
        VectorError::BadUri(s) => "unsupported or malformed store uri: "@ + s@,
        VectorError::Cancelled => "operation cancelled"@,
        VectorError::Io(s) => s@,
    }
}

impl VectorError {
    pub fn message(&self) -> (r: String)
        ensures
            r@ == vector_error_text(*self),
    {
        match self {
            VectorError::Embed(s) => {
                let mut r = "embedding failed: ".to_owned();
                r.append(s.as_str());
                r
            },
            VectorError::Store(s) => {
                let mut r = "vector store error: ".to_owned();
                r.append(s.as_str());
                r
            },
            VectorError::BadUri(s) => {
                let mut r = "unsupported or malformed store uri: ".to_owned();
                r.append(s.as_str());
                r
            },
            VectorError::Cancelled => "operation cancelled".to_owned(),
            VectorError::Io(s) => s.clone(),
        }
    }
}

} // verus!
