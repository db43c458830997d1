//! A small path language for addressing values inside tree-shaped documents,
//! and a query engine that resolves such paths and searches documents.

use vstd::prelude::*;
use vstd::string::*;

pub mod document;
pub mod field;
pub mod order;
pub mod parser;
pub mod pattern;
pub mod query;
pub mod round_trip;
pub mod segment;
pub mod syntax;
pub mod text;
pub mod view_path;

pub use document::{DocumentModel, Value};
pub use field::{Field, FieldBuf};
pub use query::{nest_find_by, nest_find_regex, nest_find_value, search_path, search_segment};
pub use segment::{Segment, SegmentBuf};
pub use view_path::{ViewPath, ViewPathBuf};

verus! {

/// The ways in which building a path can fail.
#[derive(Debug)]
pub enum Error {
    /// The text is not a path; the payload says why.
    InvalidPath(String),
}

/// What an error prints as.
pub open spec fn error_text(error: Error) -> Seq<char> {
    match error {
        Error::InvalidPath(reason) => "invalid path "@ + reason@,
    }
}

impl Error {
    /// The error as it is printed.
    pub fn to_string(&self) -> (r: String)
        ensures
            r@ == error_text(*self),
    {
        match self {
            Error::InvalidPath(reason) => {
                let mut out = String::new();
                out.append("invalid path ");
                out.append(reason.as_str());
                assert(out@ =~= "invalid path "@ + reason@);
                out
            },
        }
    }
}

} // verus!
