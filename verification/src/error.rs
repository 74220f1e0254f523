//! Error type shared by every part of the engine.
use crate::report::{decimal, decimal_string};
use crate::text::push_str;
use vstd::prelude::*;

verus! {

/// Errors that the engine's operations report.
#[derive(Debug)]
pub enum FerresError {
    /// The vector has a dimension other than the collection's.
    DimensionMismatch { expected: usize, got: usize },
    /// The point id is invalid (empty, malformed, ...).
    InvalidPointId(String),
    /// The vector has no components.
    EmptyVector,
    /// The vector holds invalid values (NaN, infinity, ...).
    InvalidVector { reason: String },
    /// The requested collection does not exist.
    CollectionNotFound(String),
    /// A collection with that name already exists.
    CollectionAlreadyExists(String),
    /// The requested point does not exist in the collection.
    PointNotFound(String),
    /// The index was searched before it was built.
    IndexNotBuilt,
    /// A failure in the storage layer (I/O, serialization, ...).
    Storage(String),
}


impl FerresError {
    /// The human-readable message of the error.
    pub fn message(&self) -> (m: String)
        ensures
            (match self {
                FerresError::DimensionMismatch { expected, got } => m@
                    == "dimension mismatch: expected "@ + decimal(*expected as nat) + ", got "@
                    + decimal(*got as nat),
                FerresError::InvalidPointId(s) => m@ == "invalid point id: "@ + s@,
                FerresError::EmptyVector => m@ == "vector cannot be empty"@,
                FerresError::InvalidVector { reason } => m@ == "invalid vector: "@ + reason@,
                FerresError::CollectionNotFound(s) => m@ == "collection not found: "@ + s@,
                FerresError::CollectionAlreadyExists(s) => m@ == "collection already exists: "@ + s@,
                FerresError::PointNotFound(s) => m@ == "point not found: "@ + s@,
                FerresError::IndexNotBuilt => m@ == "index not built: call build() before searching"@,
                FerresError::Storage(s) => m@ == "storage error: "@ + s@,
            }),
    {
        match self {
            FerresError::DimensionMismatch { expected, got } => {
                let mut m = "dimension mismatch: expected ".to_owned();
                let e = decimal_string(*expected as u64);
                push_str(&mut m, e.as_str());
                push_str(&mut m, ", got ");
                let g = decimal_string(*got as u64);
                push_str(&mut m, g.as_str());
                m
            },
            FerresError::InvalidPointId(s) => {
                let mut m = "invalid point id: ".to_owned();
                push_str(&mut m, s.as_str());
                m
            },
            FerresError::EmptyVector => "vector cannot be empty".to_owned(),
            FerresError::InvalidVector { reason } => {
                let mut m = "invalid vector: ".to_owned();
                push_str(&mut m, reason.as_str());
                m
            },
            FerresError::CollectionNotFound(s) => {
                let mut m = "collection not found: ".to_owned();
                push_str(&mut m, s.as_str());
                m
            },
            FerresError::CollectionAlreadyExists(s) => {
                let mut m = "collection already exists: ".to_owned();
                push_str(&mut m, s.as_str());
                m
            },
            FerresError::PointNotFound(s) => {
                let mut m = "point not found: ".to_owned();
                push_str(&mut m, s.as_str());
                m
            },
            FerresError::IndexNotBuilt => "index not built: call build() before searching".to_owned(),
            FerresError::Storage(s) => {
                let mut m = "storage error: ".to_owned();
                push_str(&mut m, s.as_str());
                m
            },
        }
    }
}

} // verus!
